//! DNS frame codec.
//!
//! One QUIC datagram travels in one DNS message. Outbound, the payload
//! is encoded into label-safe characters, cut into labels of at most 63
//! characters, and appended as subdomains in front of the tunnel domain
//! to form the query name; a transaction identifier correlates the
//! response. Inbound, the response's answer carries the peer's datagram
//! in the same character encoding. The codec never buffers across
//! messages: a payload above the session's MTU budget is a caller
//! contract violation, enforced here by precondition.

use vstd::prelude::*;
use crate::base32::{
    all_tunnel_chars, enc_len, is_tunnel_char, lemma_decode_encode, lemma_enc_groups_len,
    lemma_enc_len_bound, lemma_enc_len_lower, lemma_encode_all_tunnel_chars, spec_decode,
    spec_encode, decode_payload, encode_payload,
};
use crate::error::{ClientError, ErrorKind};
use crate::mtu::mtu_budget;

verus! {

/// ASCII code of `'.'`, the label separator.
pub const DOT: u8 = 46;

/// A validated tunnel domain: the DNS suffix under which tunnel queries
/// are issued. Its length is always below the 240-byte message ceiling;
/// a longer domain is a configuration error caught at construction.
#[derive(Debug)]
pub struct TunnelDomain {
    name: Vec<u8>,
}

impl View for TunnelDomain {
    type V = Seq<u8>;

    closed spec fn view(&self) -> Seq<u8> {
        self.name@
    }
}

impl TunnelDomain {
    /// The domain invariant: it leaves room in a DNS message.
    pub open spec fn wf(&self) -> bool {
        self@.len() < 240
    }

    /// Validates a domain at configuration time: a name of 240 bytes or
    /// more could not carry any payload and is rejected before any
    /// socket is bound.
    pub fn new(name: Vec<u8>) -> (r: Result<TunnelDomain, ClientError>)
        ensures
            r is Ok <==> name@.len() < 240,
            r is Ok ==> r->Ok_0@ == name@ && r->Ok_0.wf(),
            r is Err ==> r->Err_0.kind == ErrorKind::Configuration
                && r->Err_0.message@ == "Domain name is too long for DNS transport"@,
    {
        if name.len() >= 240 {
            Err(ClientError::new(
                ErrorKind::Configuration,
                "Domain name is too long for DNS transport",
            ))
        } else {
            Ok(TunnelDomain { name })
        }
    }

    /// The domain's length in bytes.
    pub fn len(&self) -> (r: usize)
        ensures
            r == self@.len(),
    {
        self.name.len()
    }

    /// The domain's bytes.
    pub fn as_bytes(&self) -> (r: &Vec<u8>)
        ensures
            r@ == self@,
    {
        &self.name
    }
}

/// One DNS query frame: a transaction identifier and the query name that
/// carries the encoded datagram under the tunnel domain.
#[derive(Debug)]
pub struct DnsFrame {
    pub txid: u16,
    pub qname: Vec<u8>,
}

/// One DNS response frame: the echoed transaction identifier and the
/// answer text carrying the peer's encoded datagram.
#[derive(Debug)]
pub struct DnsResponse {
    pub txid: u16,
    pub answer: Vec<u8>,
}

/// Encoded characters cut into DNS labels: a separator after every 63
/// characters.
pub open spec fn spec_join_labels(t: Seq<u8>) -> Seq<u8>
    decreases t.len(),
{
    if t.len() <= 63 {
        t
    } else {
        t.take(63) + seq![DOT] + spec_join_labels(t.skip(63))
    }
}

/// The label characters of a query-name prefix, separators removed.
pub open spec fn spec_strip_dots(s: Seq<u8>) -> Seq<u8>
    decreases s.len(),
{
    if s.len() == 0 {
        Seq::empty()
    } else if s[0] == DOT {
        spec_strip_dots(s.skip(1))
    } else {
        seq![s[0]] + spec_strip_dots(s.skip(1))
    }
}

/// The query name that carries `payload` under `domain`.
pub open spec fn spec_query_name(payload: Seq<u8>, domain: Seq<u8>) -> Seq<u8> {
    spec_join_labels(spec_encode(payload)) + seq![DOT] + domain
}

/// Whether `qname` is a name directly under `domain`: a separator and
/// the domain as its suffix.
pub open spec fn has_domain_suffix(qname: Seq<u8>, domain: Seq<u8>) -> bool {
    qname.len() > domain.len() && qname[qname.len() - domain.len() - 1] == DOT
        && qname.subrange(qname.len() - domain.len(), qname.len() as int) == domain
}

/// What parsing a query name under `domain` yields: the labels in front
/// of the domain, separators removed, decoded back into a payload.
pub open spec fn spec_parse_query_name(qname: Seq<u8>, domain: Seq<u8>) -> Option<Seq<u8>> {
    if has_domain_suffix(qname, domain) {
        spec_decode(spec_strip_dots(qname.subrange(0, qname.len() - domain.len() - 1)))
    } else {
        Option::None
    }
}

pub proof fn lemma_strip_dots_concat(a: Seq<u8>, b: Seq<u8>)
    ensures
        spec_strip_dots(a + b) == spec_strip_dots(a) + spec_strip_dots(b),
    decreases a.len(),
{
    if a.len() == 0 {
        assert(a + b =~= b);
        assert(spec_strip_dots(a) + spec_strip_dots(b) =~= spec_strip_dots(b));
    } else {
        assert((a + b).skip(1) =~= a.skip(1) + b);
        lemma_strip_dots_concat(a.skip(1), b);
        assert(spec_strip_dots(a + b) =~= spec_strip_dots(a) + spec_strip_dots(b));
    }
}

/// Stripping separators from a sequence that has none leaves it as it
/// is; the label-safe alphabet contains no separator.
pub proof fn lemma_strip_dots_clean(s: Seq<u8>)
    requires
        forall|i: int| 0 <= i < s.len() ==> #[trigger] s[i] != DOT,
    ensures
        spec_strip_dots(s) == s,
    decreases s.len(),
{
    if s.len() == 0 {
        assert(spec_strip_dots(s) =~= s);
    } else {
        lemma_strip_dots_clean(s.skip(1));
        assert(spec_strip_dots(s) =~= s);
    }
}

/// Cutting into labels and removing the separators again is the
/// identity on separator-free character sequences.
pub proof fn lemma_strip_join(t: Seq<u8>)
    requires
        forall|i: int| 0 <= i < t.len() ==> #[trigger] t[i] != DOT,
    ensures
        spec_strip_dots(spec_join_labels(t)) == t,
    decreases t.len(),
{
    if t.len() <= 63 {
        lemma_strip_dots_clean(t);
    } else {
        let head = t.take(63);
        let sep = seq![DOT];
        let rest = spec_join_labels(t.skip(63));
        assert(spec_join_labels(t) == head + sep + rest);
        assert(head + sep + rest =~= head + (sep + rest));
        lemma_strip_dots_concat(head, sep + rest);
        lemma_strip_dots_clean(head);
        assert((sep + rest).skip(1) =~= rest);
        assert(spec_strip_dots(sep + rest) == spec_strip_dots(rest));
        lemma_strip_join(t.skip(63));
        assert(head + t.skip(63) =~= t);
    }
}

/// A payload within the MTU budget encodes into at most the query-name
/// space the domain leaves free: the budget formula accounts exactly for
/// the 8/5 character expansion.
pub proof fn lemma_payload_fits(n: int, d: int)
    requires
        0 <= n,
        0 <= d,
        n <= mtu_budget(d),
    ensures
        enc_len(n) <= 240 - d,
{
    lemma_enc_len_bound(n);
    let fives = (240 - d) * 5;
    assert(fives >= 8 * n) by {
        assert(8 * (fives / 8) <= fives) by (nonlinear_arith);
        assert(8 * n <= 8 * (fives / 8));
    }
    assert(5 * enc_len(n) <= 8 * n + 4);
    assert(5 * enc_len(n) <= fives + 4);
}

/// The labels the encoded characters are cut into: chunks of 63 with a
/// shorter final chunk.
pub open spec fn spec_labels(t: Seq<u8>) -> Seq<Seq<u8>>
    decreases t.len(),
{
    if t.len() <= 63 {
        seq![t]
    } else {
        seq![t.take(63)] + spec_labels(t.skip(63))
    }
}

/// A sequence of labels written with separators between them.
pub open spec fn spec_dotted(ls: Seq<Seq<u8>>) -> Seq<u8>
    decreases ls.len(),
{
    if ls.len() == 0 {
        Seq::empty()
    } else if ls.len() == 1 {
        ls[0]
    } else {
        ls[0] + seq![DOT] + spec_dotted(ls.skip(1))
    }
}

/// The label cut is exactly what [`spec_join_labels`] writes: the labels
/// with one separator between each pair.
pub proof fn lemma_join_is_dotted(t: Seq<u8>)
    ensures
        spec_join_labels(t) == spec_dotted(spec_labels(t)),
    decreases t.len(),
{
    if t.len() > 63 {
        lemma_join_is_dotted(t.skip(63));
        let ls = spec_labels(t);
        assert(ls.skip(1) =~= spec_labels(t.skip(63)));
        assert(spec_labels(t.skip(63)).len() >= 1);
        assert(spec_dotted(ls) == t.take(63) + seq![DOT] + spec_dotted(spec_labels(t.skip(63))));
    }
}

/// Every label a non-empty character sequence is cut into is legal in a
/// DNS name: between 1 and 63 characters, none of them a separator when
/// the sequence itself has none.
pub proof fn lemma_labels_are_legal(t: Seq<u8>)
    requires
        t.len() > 0,
        forall|i: int| 0 <= i < t.len() ==> is_tunnel_char(#[trigger] t[i]),
    ensures
        forall|i: int|
            0 <= i < spec_labels(t).len() ==> 1 <= (#[trigger] spec_labels(t)[i]).len() <= 63,
        forall|i: int, j: int|
            0 <= i < spec_labels(t).len() && 0 <= j < spec_labels(t)[i].len()
                ==> is_tunnel_char(#[trigger] spec_labels(t)[i][j]),
    decreases t.len(),
{
    if t.len() <= 63 {
        assert(spec_labels(t)[0] == t);
    } else {
        lemma_labels_are_legal(t.skip(63));
        let ls = spec_labels(t);
        assert(ls[0] == t.take(63));
        assert forall|i: int| 0 <= i < ls.len() implies 1 <= (#[trigger] ls[i]).len() <= 63 by {
            if i >= 1 {
                assert(ls[i] == spec_labels(t.skip(63))[i - 1]);
            }
        }
        assert forall|i: int, j: int|
            0 <= i < ls.len() && 0 <= j < ls[i].len() implies is_tunnel_char(
            #[trigger] ls[i][j],
        ) by {
            if i >= 1 {
                assert(ls[i] == spec_labels(t.skip(63))[i - 1]);
            } else {
                assert(ls[0][j] == t[j]);
            }
        }
    }
}

/// Well-formedness of the query name: for a non-empty payload it is a
/// sequence of DNS-legal labels of 1 to 63 label-safe characters each,
/// separators between them, followed by one separator and the tunnel
/// domain.
pub proof fn lemma_query_name_well_formed(payload: Seq<u8>, domain: Seq<u8>)
    requires
        payload.len() > 0,
    ensures
        spec_query_name(payload, domain) == spec_dotted(spec_labels(spec_encode(payload)))
            + seq![DOT] + domain,
        forall|i: int|
            0 <= i < spec_labels(spec_encode(payload)).len() ==> 1 <= (#[trigger] spec_labels(
                spec_encode(payload),
            )[i]).len() <= 63,
        forall|i: int, j: int|
            0 <= i < spec_labels(spec_encode(payload)).len() && 0 <= j < spec_labels(
                spec_encode(payload),
            )[i].len() ==> is_tunnel_char(#[trigger] spec_labels(spec_encode(payload))[i][j]),
{
    let enc = spec_encode(payload);
    lemma_encode_all_tunnel_chars(payload);
    lemma_enc_groups_len(payload);
    lemma_enc_len_lower(payload.len() as int);
    assert(enc.len() > 0);
    lemma_join_is_dotted(enc);
    lemma_labels_are_legal(enc);
}

/// The budget is tight, not conservative: one payload byte beyond it
/// encodes into more characters than the domain leaves free.
pub proof fn lemma_budget_is_tight(d: int)
    requires
        0 <= d < 240,
    ensures
        enc_len(mtu_budget(d) + 1) > 240 - d,
{
    let b = mtu_budget(d);
    let fives = (240 - d) * 5;
    lemma_enc_len_lower(b + 1);
    assert(8 * b + 8 > fives) by {
        assert(fives - 8 * (fives / 8) < 8) by (nonlinear_arith);
    }
    assert(5 * enc_len(b + 1) >= 8 * b + 8);
}

/// Round trip at the frame level: parsing the query name built for any
/// payload under any tunnel domain gives exactly that payload back.
pub proof fn lemma_query_name_round_trip(payload: Seq<u8>, domain: Seq<u8>)
    ensures
        spec_parse_query_name(spec_query_name(payload, domain), domain) == Option::Some(payload),
{
    let enc = spec_encode(payload);
    let labels = spec_join_labels(enc);
    let qn = spec_query_name(payload, domain);
    lemma_decode_encode(payload);
    assert(all_tunnel_chars(enc));
    assert forall|i: int| 0 <= i < enc.len() implies #[trigger] enc[i] != DOT by {
        assert(is_tunnel_char(enc[i]));
    }
    assert(qn.len() == labels.len() + 1 + domain.len());
    assert(qn[qn.len() - domain.len() - 1] == DOT);
    assert(qn.subrange(qn.len() - domain.len(), qn.len() as int) =~= domain);
    assert(has_domain_suffix(qn, domain));
    assert(qn.subrange(0, qn.len() - domain.len() - 1) =~= labels);
    lemma_strip_join(enc);
}

/// Cuts encoded characters into DNS labels of at most 63 characters,
/// writing a separator after each full label.
fn join_labels(enc: &Vec<u8>) -> (r: Vec<u8>)
    ensures
        r@ == spec_join_labels(enc@),
{
    let n = enc.len();
    let mut out: Vec<u8> = Vec::new();
    let mut i: usize = 0;
    proof {
        assert(enc@.skip(0) =~= enc@);
        assert(out@ + spec_join_labels(enc@) =~= spec_join_labels(enc@));
    }
    while n - i > 63
        invariant
            i <= n,
            n == enc@.len(),
            out@ + spec_join_labels(enc@.skip(i as int)) == spec_join_labels(enc@),
        decreases n - i,
    {
        let ghost prev = out@;
        let mut j: usize = 0;
        while j < 63
            invariant
                j <= 63,
                i + 63 < n,
                n == enc@.len(),
                out@ == prev + enc@.subrange(i as int, i as int + j as int),
            decreases 63 - j,
        {
            out.push(enc[i + j]);
            proof {
                assert(out@ =~= prev + enc@.subrange(i as int, i as int + j as int + 1));
            }
            j = j + 1;
        }
        out.push(DOT);
        proof {
            let tail = enc@.skip(i as int);
            assert(tail.take(63) =~= enc@.subrange(i as int, i as int + 63));
            assert(tail.skip(63) =~= enc@.skip(i as int + 63));
            assert(out@ + spec_join_labels(enc@.skip(i as int + 63)) =~= prev
                + spec_join_labels(tail));
        }
        i = i + 63;
    }
    let ghost prev = out@;
    let mut j: usize = i;
    while j < n
        invariant
            i <= j <= n,
            n == enc@.len(),
            out@ == prev + enc@.subrange(i as int, j as int),
        decreases n - j,
    {
        out.push(enc[j]);
        proof {
            assert(out@ =~= prev + enc@.subrange(i as int, j as int + 1));
        }
        j = j + 1;
    }
    proof {
        let tail = enc@.skip(i as int);
        assert(tail =~= enc@.subrange(i as int, n as int));
        assert(out@ =~= prev + spec_join_labels(tail));
    }
    out
}

/// Builds the query frame for one outbound datagram: the payload encoded
/// and cut into labels in front of the tunnel domain, correlated by
/// `txid`. A payload above the domain's MTU budget is a caller contract
/// violation.
pub fn encode_frame(txid: u16, payload: &[u8], domain: &TunnelDomain) -> (r: DnsFrame)
    requires
        domain.wf(),
        payload@.len() <= mtu_budget(domain@.len() as int),
    ensures
        r.txid == txid,
        r.qname@ == spec_query_name(payload@, domain@),
{
    let enc = encode_payload(payload);
    let mut qname = join_labels(&enc);
    qname.push(DOT);
    let dbytes = domain.as_bytes();
    let dlen = dbytes.len();
    let ghost mid = qname@;
    let mut k: usize = 0;
    while k < dlen
        invariant
            k <= dlen,
            dlen == domain@.len(),
            dbytes@ == domain@,
            qname@ == mid + domain@.subrange(0, k as int),
        decreases dlen - k,
    {
        qname.push(dbytes[k]);
        proof {
            assert(qname@ =~= mid + domain@.subrange(0, k as int + 1));
        }
        k = k + 1;
    }
    proof {
        assert(domain@.subrange(0, domain@.len() as int) =~= domain@);
        assert(qname@ =~= spec_query_name(payload@, domain@));
    }
    DnsFrame { txid, qname }
}

/// Recovers the datagram a query name carries under the tunnel domain.
/// A name that is not directly under the domain, or whose labels do not
/// decode, is a transport anomaly: the frame is dropped, never fatal.
pub fn parse_query_name(qname: &[u8], domain: &TunnelDomain) -> (r: Result<Vec<u8>, ClientError>)
    ensures
        match spec_parse_query_name(qname@, domain@) {
            Option::Some(p) => r is Ok && r->Ok_0@ == p,
            Option::None => r is Err && r->Err_0.kind == ErrorKind::Transport,
        },
{
    let qlen = qname.len();
    let dlen = domain.len();
    if qlen <= dlen {
        return Err(ClientError::new(ErrorKind::Transport, "frame is not under the tunnel domain"));
    }
    let start = qlen - dlen - 1;
    if qname[start] != DOT {
        return Err(ClientError::new(ErrorKind::Transport, "frame is not under the tunnel domain"));
    }
    let dbytes = domain.as_bytes();
    let mut k: usize = 0;
    while k < dlen
        invariant
            k <= dlen,
            qlen == qname@.len(),
            dlen == domain@.len(),
            dbytes@ == domain@,
            qlen > dlen,
            start == qlen - dlen - 1,
            forall|j: int| 0 <= j < k ==> qname@[start + 1 + j] == domain@[j],
        decreases dlen - k,
    {
        if qname[start + 1 + k] != dbytes[k] {
            proof {
                let suffix = qname@.subrange(qlen - dlen, qlen as int);
                assert(suffix[k as int] == qname@[start + 1 + k]);
                assert(suffix != domain@);
            }
            return Err(ClientError::new(
                ErrorKind::Transport,
                "frame is not under the tunnel domain",
            ));
        }
        k = k + 1;
    }
    proof {
        assert(qname@.subrange(qlen - dlen, qlen as int) =~= domain@);
        assert(has_domain_suffix(qname@, domain@));
    }
    let mut stripped: Vec<u8> = Vec::new();
    let mut idx: usize = 0;
    while idx < start
        invariant
            idx <= start,
            start < qlen,
            qlen == qname@.len(),
            stripped@ == spec_strip_dots(qname@.subrange(0, idx as int)),
        decreases start - idx,
    {
        let c = qname[idx];
        if c != DOT {
            stripped.push(c);
        }
        proof {
            let pre = qname@.subrange(0, idx as int);
            let one = seq![c];
            assert(qname@.subrange(0, idx as int + 1) =~= pre + one);
            lemma_strip_dots_concat(pre, one);
            assert(one.skip(1) =~= Seq::<u8>::empty());
            assert(spec_strip_dots(Seq::<u8>::empty()) == Seq::<u8>::empty());
            if c == DOT {
                assert(spec_strip_dots(one) =~= Seq::<u8>::empty());
                assert(stripped@ =~= spec_strip_dots(pre) + spec_strip_dots(one));
            } else {
                assert(spec_strip_dots(one) =~= one);
                assert(stripped@ =~= spec_strip_dots(pre) + spec_strip_dots(one));
            }
        }
        idx = idx + 1;
    }
    decode_payload(stripped.as_slice())
}

/// Builds the response frame answering `txid` with one inbound datagram,
/// encoded in the same label-safe characters.
pub fn encode_response(txid: u16, payload: &[u8]) -> (r: DnsResponse)
    ensures
        r.txid == txid,
        r.answer@ == spec_encode(payload@),
{
    let answer = encode_payload(payload);
    DnsResponse { txid, answer }
}

} // verus!
