//! Label-safe payload encoding.
//!
//! A datagram payload is carried inside DNS query names, so its bytes
//! must be re-expressed in characters that are legal in a DNS label. The
//! codec packs the payload bit stream into 5-bit groups, most significant
//! bit first, padding the final group with zero bits, and writes each
//! group as one character of the 32-character alphabet `a`..`z`, `2`..`7`
//! (lower-case letters for 0..25, digits for 26..31). Five payload bytes
//! therefore become exactly eight characters, which is the 8/5 = 1.6
//! expansion ratio that the MTU budget accounts for.
//!
//! Decoding is the exact inverse and the round trip is proved:
//! [`lemma_decode_encode`] states that decoding an encoded payload gives
//! the payload back, for every payload.

use vstd::prelude::*;
use crate::error::{ClientError, ErrorKind};

verus! {

/// ASCII code of `'a'`.
pub const ALPHA_BASE: u8 = 97;

/// ASCII code of `'2'`.
pub const DIGIT_BASE: u8 = 50;

/// The character written for the 5-bit group `g`: `a`..`z` for 0..25,
/// `2`..`7` for 26..31.
pub open spec fn alpha(g: u8) -> u8
    recommends
        g < 32,
{
    if g < 26 {
        (97 + g) as u8
    } else {
        (24 + g) as u8
    }
}

/// Whether `c` is a character the encoder can produce.
pub open spec fn is_tunnel_char(c: u8) -> bool {
    (97 <= c && c <= 122) || (50 <= c && c <= 55)
}

/// The 5-bit group a character stands for (0 for a character outside the
/// alphabet).
pub open spec fn unalpha(c: u8) -> u8 {
    if 97 <= c && c <= 122 {
        (c - 97) as u8
    } else if 50 <= c && c <= 55 {
        (c - 24) as u8
    } else {
        0
    }
}

pub proof fn lemma_alpha_roundtrip(g: u8)
    requires
        g < 32,
    ensures
        is_tunnel_char(alpha(g)),
        unalpha(alpha(g)) == g,
        alpha(g) != 46,
{
}

// The 5-bit groups of one full 5-byte block, most significant bit first:
// group k covers bits [5k, 5k+5) of the 40-bit block.

pub open spec fn eg0(b0: u8) -> u8 {
    b0 >> 3
}

pub open spec fn eg1(b0: u8, b1: u8) -> u8 {
    ((b0 & 7) << 2) | (b1 >> 6)
}

pub open spec fn eg2(b1: u8) -> u8 {
    (b1 >> 1) & 31
}

pub open spec fn eg3(b1: u8, b2: u8) -> u8 {
    ((b1 & 1) << 4) | (b2 >> 4)
}

pub open spec fn eg4(b2: u8, b3: u8) -> u8 {
    ((b2 & 15) << 1) | (b3 >> 7)
}

pub open spec fn eg5(b3: u8) -> u8 {
    (b3 >> 2) & 31
}

pub open spec fn eg6(b3: u8, b4: u8) -> u8 {
    ((b3 & 3) << 3) | (b4 >> 5)
}

pub open spec fn eg7(b4: u8) -> u8 {
    b4 & 31
}

// The zero-padded final groups of a partial block of 1, 2, 3 or 4 bytes.

pub open spec fn tg1(b0: u8) -> u8 {
    (b0 & 7) << 2
}

pub open spec fn tg3(b1: u8) -> u8 {
    (b1 & 1) << 4
}

pub open spec fn tg4(b2: u8) -> u8 {
    (b2 & 15) << 1
}

pub open spec fn tg6(b3: u8) -> u8 {
    (b3 & 3) << 3
}

// Reassembling bytes from consecutive 5-bit groups.

pub open spec fn db0(c0: u8, c1: u8) -> u8 {
    (c0 << 3) | (c1 >> 2)
}

pub open spec fn db1(c1: u8, c2: u8, c3: u8) -> u8 {
    ((c1 & 3) << 6) | (c2 << 1) | (c3 >> 4)
}

pub open spec fn db2(c3: u8, c4: u8) -> u8 {
    ((c3 & 15) << 4) | (c4 >> 1)
}

pub open spec fn db3(c4: u8, c5: u8, c6: u8) -> u8 {
    ((c4 & 1) << 7) | (c5 << 2) | (c6 >> 3)
}

pub open spec fn db4(c6: u8, c7: u8) -> u8 {
    ((c6 & 7) << 5) | c7
}

proof fn lemma_block_rt(b0: u8, b1: u8, b2: u8, b3: u8, b4: u8)
    by (bit_vector)
    ensures
        db0(eg0(b0), eg1(b0, b1)) == b0,
        db1(eg1(b0, b1), eg2(b1), eg3(b1, b2)) == b1,
        db2(eg3(b1, b2), eg4(b2, b3)) == b2,
        db3(eg4(b2, b3), eg5(b3), eg6(b3, b4)) == b3,
        db4(eg6(b3, b4), eg7(b4)) == b4,
        eg0(b0) < 32,
        eg1(b0, b1) < 32,
        eg2(b1) < 32,
        eg3(b1, b2) < 32,
        eg4(b2, b3) < 32,
        eg5(b3) < 32,
        eg6(b3, b4) < 32,
        eg7(b4) < 32,
{
}

proof fn lemma_tail1_rt(b0: u8)
    by (bit_vector)
    ensures
        db0(eg0(b0), tg1(b0)) == b0,
        eg0(b0) < 32,
        tg1(b0) < 32,
{
}

proof fn lemma_tail2_rt(b0: u8, b1: u8)
    by (bit_vector)
    ensures
        db0(eg0(b0), eg1(b0, b1)) == b0,
        db1(eg1(b0, b1), eg2(b1), tg3(b1)) == b1,
        eg0(b0) < 32,
        eg1(b0, b1) < 32,
        eg2(b1) < 32,
        tg3(b1) < 32,
{
}

proof fn lemma_tail3_rt(b0: u8, b1: u8, b2: u8)
    by (bit_vector)
    ensures
        db0(eg0(b0), eg1(b0, b1)) == b0,
        db1(eg1(b0, b1), eg2(b1), eg3(b1, b2)) == b1,
        db2(eg3(b1, b2), tg4(b2)) == b2,
        eg0(b0) < 32,
        eg1(b0, b1) < 32,
        eg2(b1) < 32,
        eg3(b1, b2) < 32,
        tg4(b2) < 32,
{
}

proof fn lemma_tail4_rt(b0: u8, b1: u8, b2: u8, b3: u8)
    by (bit_vector)
    ensures
        db0(eg0(b0), eg1(b0, b1)) == b0,
        db1(eg1(b0, b1), eg2(b1), eg3(b1, b2)) == b1,
        db2(eg3(b1, b2), eg4(b2, b3)) == b2,
        db3(eg4(b2, b3), eg5(b3), tg6(b3)) == b3,
        eg0(b0) < 32,
        eg1(b0, b1) < 32,
        eg2(b1) < 32,
        eg3(b1, b2) < 32,
        eg4(b2, b3) < 32,
        eg5(b3) < 32,
        tg6(b3) < 32,
{
}

/// The 5-bit groups of a whole payload: full 5-byte blocks from the
/// front, then the zero-padded groups of the partial final block.
pub open spec fn enc_groups(s: Seq<u8>) -> Seq<u8>
    decreases s.len(),
{
    if s.len() >= 5 {
        seq![
            eg0(s[0]),
            eg1(s[0], s[1]),
            eg2(s[1]),
            eg3(s[1], s[2]),
            eg4(s[2], s[3]),
            eg5(s[3]),
            eg6(s[3], s[4]),
            eg7(s[4]),
        ] + enc_groups(s.skip(5))
    } else if s.len() == 4 {
        seq![
            eg0(s[0]),
            eg1(s[0], s[1]),
            eg2(s[1]),
            eg3(s[1], s[2]),
            eg4(s[2], s[3]),
            eg5(s[3]),
            tg6(s[3]),
        ]
    } else if s.len() == 3 {
        seq![eg0(s[0]), eg1(s[0], s[1]), eg2(s[1]), eg3(s[1], s[2]), tg4(s[2])]
    } else if s.len() == 2 {
        seq![eg0(s[0]), eg1(s[0], s[1]), eg2(s[1]), tg3(s[1])]
    } else if s.len() == 1 {
        seq![eg0(s[0]), tg1(s[0])]
    } else {
        Seq::empty()
    }
}

/// The bytes reassembled from a sequence of 5-bit groups: full 8-group
/// blocks from the front, then 2, 4, 5 or 7 final groups standing for 1,
/// 2, 3 or 4 final bytes. Only lengths produced by [`enc_groups`] are
/// meaningful; other tails decode to nothing.
pub open spec fn dec_groups(g: Seq<u8>) -> Seq<u8>
    decreases g.len(),
{
    if g.len() >= 8 {
        seq![
            db0(g[0], g[1]),
            db1(g[1], g[2], g[3]),
            db2(g[3], g[4]),
            db3(g[4], g[5], g[6]),
            db4(g[6], g[7]),
        ] + dec_groups(g.skip(8))
    } else if g.len() == 7 {
        seq![db0(g[0], g[1]), db1(g[1], g[2], g[3]), db2(g[3], g[4]), db3(g[4], g[5], g[6])]
    } else if g.len() == 5 {
        seq![db0(g[0], g[1]), db1(g[1], g[2], g[3]), db2(g[3], g[4])]
    } else if g.len() == 4 {
        seq![db0(g[0], g[1]), db1(g[1], g[2], g[3])]
    } else if g.len() == 2 {
        seq![db0(g[0], g[1])]
    } else {
        Seq::empty()
    }
}

/// The number of characters that encoding `n` payload bytes produces.
pub open spec fn enc_len(n: int) -> int
    decreases n,
{
    if n >= 5 {
        8 + enc_len(n - 5)
    } else if n == 4 {
        7
    } else if n == 3 {
        5
    } else if n == 2 {
        4
    } else if n == 1 {
        2
    } else {
        0
    }
}

/// The character counts an encoded payload can have: 0, 2, 4, 5 or 7
/// modulo 8. Counts of 1, 3 or 6 modulo 8 stand for no byte sequence.
pub open spec fn valid_encoded_len(n: int) -> bool {
    n % 8 == 0 || n % 8 == 2 || n % 8 == 4 || n % 8 == 5 || n % 8 == 7
}

pub proof fn lemma_enc_groups_len(s: Seq<u8>)
    ensures
        enc_groups(s).len() == enc_len(s.len() as int),
        valid_encoded_len(enc_len(s.len() as int)),
    decreases s.len(),
{
    if s.len() >= 5 {
        lemma_enc_groups_len(s.skip(5));
    }
}

pub proof fn lemma_enc_groups_bounded(s: Seq<u8>)
    ensures
        forall|i: int| 0 <= i < enc_groups(s).len() ==> #[trigger] enc_groups(s)[i] < 32,
    decreases s.len(),
{
    if s.len() >= 5 {
        lemma_block_rt(s[0], s[1], s[2], s[3], s[4]);
        lemma_enc_groups_bounded(s.skip(5));
        let g = enc_groups(s);
        assert forall|i: int| 0 <= i < g.len() implies #[trigger] g[i] < 32 by {
            if i >= 8 {
                assert(g[i] == enc_groups(s.skip(5))[i - 8]);
            }
        }
    } else if s.len() == 4 {
        lemma_tail4_rt(s[0], s[1], s[2], s[3]);
    } else if s.len() == 3 {
        lemma_tail3_rt(s[0], s[1], s[2]);
    } else if s.len() == 2 {
        lemma_tail2_rt(s[0], s[1]);
    } else if s.len() == 1 {
        lemma_tail1_rt(s[0]);
    }
}

/// Five `enc_len` characters never exceed `8 n + 4`: encoding expands a
/// payload by at most the 8/5 ratio, rounded up once.
pub proof fn lemma_enc_len_bound(n: int)
    requires
        n >= 0,
    ensures
        5 * enc_len(n) <= 8 * n + 4,
        enc_len(n) >= 0,
    decreases n,
{
    if n >= 5 {
        lemma_enc_len_bound(n - 5);
    }
}

/// Five `enc_len` characters are never less than `8 n`: encoding expands
/// a payload by at least the 8/5 ratio.
pub proof fn lemma_enc_len_lower(n: int)
    requires
        n >= 0,
    ensures
        5 * enc_len(n) >= 8 * n,
    decreases n,
{
    if n >= 5 {
        lemma_enc_len_lower(n - 5);
    }
}

/// Reassembling the groups of a payload gives the payload back.
pub proof fn lemma_dec_enc_groups(s: Seq<u8>)
    ensures
        dec_groups(enc_groups(s)) == s,
    decreases s.len(),
{
    if s.len() >= 5 {
        let head = seq![
            eg0(s[0]),
            eg1(s[0], s[1]),
            eg2(s[1]),
            eg3(s[1], s[2]),
            eg4(s[2], s[3]),
            eg5(s[3]),
            eg6(s[3], s[4]),
            eg7(s[4]),
        ];
        let rest = enc_groups(s.skip(5));
        let g = enc_groups(s);
        assert(g == head + rest);
        assert(g.skip(8) =~= rest);
        lemma_block_rt(s[0], s[1], s[2], s[3], s[4]);
        lemma_dec_enc_groups(s.skip(5));
        assert(dec_groups(g) =~= s);
    } else if s.len() == 4 {
        lemma_tail4_rt(s[0], s[1], s[2], s[3]);
        assert(dec_groups(enc_groups(s)) =~= s);
    } else if s.len() == 3 {
        lemma_tail3_rt(s[0], s[1], s[2]);
        assert(dec_groups(enc_groups(s)) =~= s);
    } else if s.len() == 2 {
        lemma_tail2_rt(s[0], s[1]);
        assert(dec_groups(enc_groups(s)) =~= s);
    } else if s.len() == 1 {
        lemma_tail1_rt(s[0]);
        assert(dec_groups(enc_groups(s)) =~= s);
    } else {
        assert(dec_groups(enc_groups(s)) =~= s);
    }
}

/// What the encoder produces for a payload: its 5-bit groups written in
/// the label-safe alphabet.
pub open spec fn spec_encode(s: Seq<u8>) -> Seq<u8> {
    enc_groups(s).map_values(|g: u8| alpha(g))
}

/// Whether every character of `t` belongs to the label-safe alphabet.
pub open spec fn all_tunnel_chars(t: Seq<u8>) -> bool {
    forall|i: int| 0 <= i < t.len() ==> is_tunnel_char(#[trigger] t[i])
}

/// What decoding a character sequence yields: the reassembled payload
/// when the length and every character are legal, nothing otherwise.
pub open spec fn spec_decode(t: Seq<u8>) -> Option<Seq<u8>> {
    if valid_encoded_len(t.len() as int) && all_tunnel_chars(t) {
        Option::Some(dec_groups(t.map_values(|c: u8| unalpha(c))))
    } else {
        Option::None
    }
}

/// Encoding processes the payload in 5-byte blocks, so it distributes
/// over a split at any block boundary.
pub proof fn lemma_enc_groups_concat(a: Seq<u8>, b: Seq<u8>)
    requires
        a.len() % 5 == 0,
    ensures
        enc_groups(a + b) == enc_groups(a) + enc_groups(b),
    decreases a.len(),
{
    if a.len() == 0 {
        assert(a + b =~= b);
        assert(enc_groups(a) + enc_groups(b) =~= enc_groups(b));
    } else {
        assert(a.len() >= 5);
        assert((a + b).skip(5) =~= a.skip(5) + b);
        lemma_enc_groups_concat(a.skip(5), b);
        assert(enc_groups(a + b) =~= enc_groups(a) + enc_groups(b));
    }
}

/// Decoding processes the characters in 8-group blocks, so it
/// distributes over a split at any block boundary.
pub proof fn lemma_dec_groups_concat(a: Seq<u8>, b: Seq<u8>)
    requires
        a.len() % 8 == 0,
    ensures
        dec_groups(a + b) == dec_groups(a) + dec_groups(b),
    decreases a.len(),
{
    if a.len() == 0 {
        assert(a + b =~= b);
        assert(dec_groups(a) + dec_groups(b) =~= dec_groups(b));
    } else {
        assert(a.len() >= 8);
        assert((a + b).skip(8) =~= a.skip(8) + b);
        lemma_dec_groups_concat(a.skip(8), b);
        assert(dec_groups(a + b) =~= dec_groups(a) + dec_groups(b));
    }
}

proof fn lemma_enc_groups_block5(s: Seq<u8>)
    requires
        s.len() == 5,
    ensures
        enc_groups(s) == seq![
            eg0(s[0]),
            eg1(s[0], s[1]),
            eg2(s[1]),
            eg3(s[1], s[2]),
            eg4(s[2], s[3]),
            eg5(s[3]),
            eg6(s[3], s[4]),
            eg7(s[4]),
        ],
{
    let e = Seq::<u8>::empty();
    assert(s.skip(5) =~= e);
    assert(enc_groups(e) == e);
    assert(enc_groups(s) =~= seq![
        eg0(s[0]),
        eg1(s[0], s[1]),
        eg2(s[1]),
        eg3(s[1], s[2]),
        eg4(s[2], s[3]),
        eg5(s[3]),
        eg6(s[3], s[4]),
        eg7(s[4]),
    ]);
}

proof fn lemma_dec_groups_block8(g: Seq<u8>)
    requires
        g.len() == 8,
    ensures
        dec_groups(g) == seq![
            db0(g[0], g[1]),
            db1(g[1], g[2], g[3]),
            db2(g[3], g[4]),
            db3(g[4], g[5], g[6]),
            db4(g[6], g[7]),
        ],
{
    let e = Seq::<u8>::empty();
    assert(g.skip(8) =~= e);
    assert(dec_groups(e) == e);
    assert(dec_groups(g) =~= seq![
        db0(g[0], g[1]),
        db1(g[1], g[2], g[3]),
        db2(g[3], g[4]),
        db3(g[4], g[5], g[6]),
        db4(g[6], g[7]),
    ]);
}

/// Every character the encoder produces is label-safe.
pub proof fn lemma_encode_all_tunnel_chars(s: Seq<u8>)
    ensures
        all_tunnel_chars(spec_encode(s)),
{
    let e = spec_encode(s);
    lemma_enc_groups_bounded(s);
    assert forall|i: int| 0 <= i < e.len() implies is_tunnel_char(#[trigger] e[i]) by {
        lemma_alpha_roundtrip(enc_groups(s)[i]);
    }
}

/// Round trip: decoding an encoded payload gives exactly the payload
/// back, for every payload.
pub proof fn lemma_decode_encode(s: Seq<u8>)
    ensures
        spec_decode(spec_encode(s)) == Option::Some(s),
{
    let e = spec_encode(s);
    lemma_enc_groups_len(s);
    lemma_enc_groups_bounded(s);
    lemma_encode_all_tunnel_chars(s);
    assert(e.map_values(|c: u8| unalpha(c)) =~= enc_groups(s)) by {
        assert forall|i: int| 0 <= i < e.len() implies e.map_values(|c: u8| unalpha(c))[i]
            == enc_groups(s)[i] by {
            lemma_alpha_roundtrip(enc_groups(s)[i]);
        }
    }
    lemma_dec_enc_groups(s);
}

/// Writes the character for one 5-bit group.
fn encode_group(g: u8) -> (c: u8)
    requires
        g < 32,
    ensures
        c == alpha(g),
{
    if g < 26 {
        ALPHA_BASE + g
    } else {
        DIGIT_BASE + (g - 26)
    }
}

/// Reads one character back into its 5-bit group; characters outside the
/// alphabet yield nothing.
fn decode_group(c: u8) -> (r: Option<u8>)
    ensures
        is_tunnel_char(c) ==> r == Option::Some(unalpha(c)) && unalpha(c) < 32,
        !is_tunnel_char(c) ==> r is None,
{
    if 97 <= c && c <= 122 {
        Some(c - 97)
    } else if 50 <= c && c <= 55 {
        Some(c - 24)
    } else {
        None
    }
}

/// Encodes a payload into label-safe characters: 5-bit groups, most
/// significant bit first, written in the alphabet `a`..`z`, `2`..`7`.
pub fn encode_payload(payload: &[u8]) -> (r: Vec<u8>)
    ensures
        r@ == spec_encode(payload@),
        r@.len() == enc_len(payload@.len() as int),
{
    let n = payload.len();
    let mut out: Vec<u8> = Vec::new();
    let mut i: usize = 0;
    while n - i >= 5
        invariant
            i % 5 == 0,
            i <= n,
            n == payload@.len(),
            out@ == spec_encode(payload@.take(i as int)),
        decreases n - i,
    {
        let b0 = payload[i];
        let b1 = payload[i + 1];
        let b2 = payload[i + 2];
        let b3 = payload[i + 3];
        let b4 = payload[i + 4];
        proof {
            lemma_block_rt(b0, b1, b2, b3, b4);
        }
        out.push(encode_group(b0 >> 3));
        out.push(encode_group(((b0 & 7) << 2) | (b1 >> 6)));
        out.push(encode_group((b1 >> 1) & 31));
        out.push(encode_group(((b1 & 1) << 4) | (b2 >> 4)));
        out.push(encode_group(((b2 & 15) << 1) | (b3 >> 7)));
        out.push(encode_group((b3 >> 2) & 31));
        out.push(encode_group(((b3 & 3) << 3) | (b4 >> 5)));
        out.push(encode_group(b4 & 31));
        proof {
            let pre = payload@.take(i as int);
            let blk = payload@.subrange(i as int, i as int + 5);
            assert(payload@.take(i as int + 5) =~= pre + blk);
            lemma_enc_groups_concat(pre, blk);
            lemma_enc_groups_block5(blk);
            assert(enc_groups(blk) =~= seq![
                eg0(b0),
                eg1(b0, b1),
                eg2(b1),
                eg3(b1, b2),
                eg4(b2, b3),
                eg5(b3),
                eg6(b3, b4),
                eg7(b4),
            ]);
            assert(out@ =~= spec_encode(payload@.take(i as int + 5)));
        }
        i = i + 5;
    }
    let rem = n - i;
    if rem == 1 {
        let b0 = payload[i];
        proof {
            lemma_tail1_rt(b0);
        }
        out.push(encode_group(b0 >> 3));
        out.push(encode_group((b0 & 7) << 2));
        proof {
            let pre = payload@.take(i as int);
            let blk = payload@.subrange(i as int, n as int);
            assert(payload@.take(n as int) =~= pre + blk);
            lemma_enc_groups_concat(pre, blk);
            assert(enc_groups(blk) =~= seq![eg0(b0), tg1(b0)]);
            assert(out@ =~= spec_encode(payload@.take(n as int)));
        }
    } else if rem == 2 {
        let b0 = payload[i];
        let b1 = payload[i + 1];
        proof {
            lemma_tail2_rt(b0, b1);
        }
        out.push(encode_group(b0 >> 3));
        out.push(encode_group(((b0 & 7) << 2) | (b1 >> 6)));
        out.push(encode_group((b1 >> 1) & 31));
        out.push(encode_group((b1 & 1) << 4));
        proof {
            let pre = payload@.take(i as int);
            let blk = payload@.subrange(i as int, n as int);
            assert(payload@.take(n as int) =~= pre + blk);
            lemma_enc_groups_concat(pre, blk);
            assert(enc_groups(blk) =~= seq![eg0(b0), eg1(b0, b1), eg2(b1), tg3(b1)]);
            assert(out@ =~= spec_encode(payload@.take(n as int)));
        }
    } else if rem == 3 {
        let b0 = payload[i];
        let b1 = payload[i + 1];
        let b2 = payload[i + 2];
        proof {
            lemma_tail3_rt(b0, b1, b2);
        }
        out.push(encode_group(b0 >> 3));
        out.push(encode_group(((b0 & 7) << 2) | (b1 >> 6)));
        out.push(encode_group((b1 >> 1) & 31));
        out.push(encode_group(((b1 & 1) << 4) | (b2 >> 4)));
        out.push(encode_group((b2 & 15) << 1));
        proof {
            let pre = payload@.take(i as int);
            let blk = payload@.subrange(i as int, n as int);
            assert(payload@.take(n as int) =~= pre + blk);
            lemma_enc_groups_concat(pre, blk);
            assert(enc_groups(blk) =~= seq![eg0(b0), eg1(b0, b1), eg2(b1), eg3(b1, b2), tg4(b2)]);
            assert(out@ =~= spec_encode(payload@.take(n as int)));
        }
    } else if rem == 4 {
        let b0 = payload[i];
        let b1 = payload[i + 1];
        let b2 = payload[i + 2];
        let b3 = payload[i + 3];
        proof {
            lemma_tail4_rt(b0, b1, b2, b3);
        }
        out.push(encode_group(b0 >> 3));
        out.push(encode_group(((b0 & 7) << 2) | (b1 >> 6)));
        out.push(encode_group((b1 >> 1) & 31));
        out.push(encode_group(((b1 & 1) << 4) | (b2 >> 4)));
        out.push(encode_group(((b2 & 15) << 1) | (b3 >> 7)));
        out.push(encode_group((b3 >> 2) & 31));
        out.push(encode_group((b3 & 3) << 3));
        proof {
            let pre = payload@.take(i as int);
            let blk = payload@.subrange(i as int, n as int);
            assert(payload@.take(n as int) =~= pre + blk);
            lemma_enc_groups_concat(pre, blk);
            assert(enc_groups(blk) =~= seq![
                eg0(b0),
                eg1(b0, b1),
                eg2(b1),
                eg3(b1, b2),
                eg4(b2, b3),
                eg5(b3),
                tg6(b3),
            ]);
            assert(out@ =~= spec_encode(payload@.take(n as int)));
        }
    }
    proof {
        assert(payload@.take(n as int) =~= payload@);
        lemma_enc_groups_len(payload@);
    }
    out
}

/// Reads every character back into its 5-bit group, or reports the first
/// character outside the alphabet.
fn decode_all_groups(t: &[u8]) -> (r: Result<Vec<u8>, ClientError>)
    ensures
        r is Ok ==> all_tunnel_chars(t@) && r->Ok_0@ == t@.map_values(|c: u8| unalpha(c)),
        r is Err ==> !all_tunnel_chars(t@) && r->Err_0.kind == ErrorKind::Transport,
{
    let n = t.len();
    let mut groups: Vec<u8> = Vec::new();
    let mut i: usize = 0;
    while i < n
        invariant
            i <= n,
            n == t@.len(),
            groups@.len() == i,
            forall|j: int|
                0 <= j < i ==> is_tunnel_char(#[trigger] t@[j]) && groups@[j] == unalpha(t@[j]),
        decreases n - i,
    {
        let c = t[i];
        match decode_group(c) {
            Some(g) => {
                groups.push(g);
            },
            None => {
                proof {
                    assert(!is_tunnel_char(t@[i as int]));
                }
                return Err(ClientError::new(
                    ErrorKind::Transport,
                    "illegal character in frame payload",
                ));
            },
        }
        i = i + 1;
    }
    proof {
        assert(groups@ =~= t@.map_values(|c: u8| unalpha(c)));
    }
    Ok(groups)
}

/// Decodes label-safe characters back into the payload they encode.
/// A character count that no payload produces, or a character outside
/// the alphabet, is a transport anomaly: the frame is dropped.
#[verifier::rlimit(50)]
pub fn decode_payload(t: &[u8]) -> (r: Result<Vec<u8>, ClientError>)
    ensures
        match spec_decode(t@) {
            Option::Some(p) => r is Ok && r->Ok_0@ == p,
            Option::None => r is Err && r->Err_0.kind == ErrorKind::Transport,
        },
{
    let n = t.len();
    let rem = n % 8;
    if !(rem == 0 || rem == 2 || rem == 4 || rem == 5 || rem == 7) {
        return Err(ClientError::new(
            ErrorKind::Transport,
            "frame payload has an impossible length",
        ));
    }
    let groups = match decode_all_groups(t) {
        Ok(g) => g,
        Err(e) => {
            return Err(e);
        },
    };
    let ghost gv = t@.map_values(|c: u8| unalpha(c));
    proof {
        assert forall|j: int| 0 <= j < gv.len() implies #[trigger] gv[j] < 32 by {
            assert(is_tunnel_char(t@[j]));
        }
    }
    let mut out: Vec<u8> = Vec::new();
    let mut i: usize = 0;
    while n - i >= 8
        invariant
            i % 8 == 0,
            i <= n,
            n == t@.len(),
            n == groups@.len(),
            groups@ == gv,
            forall|j: int| 0 <= j < n ==> #[trigger] groups@[j] < 32,
            out@ == dec_groups(gv.take(i as int)),
        decreases n - i,
    {
        let c0 = groups[i];
        let c1 = groups[i + 1];
        let c2 = groups[i + 2];
        let c3 = groups[i + 3];
        let c4 = groups[i + 4];
        let c5 = groups[i + 5];
        let c6 = groups[i + 6];
        let c7 = groups[i + 7];
        out.push((c0 << 3) | (c1 >> 2));
        out.push(((c1 & 3) << 6) | (c2 << 1) | (c3 >> 4));
        out.push(((c3 & 15) << 4) | (c4 >> 1));
        out.push(((c4 & 1) << 7) | (c5 << 2) | (c6 >> 3));
        out.push(((c6 & 7) << 5) | c7);
        proof {
            let pre = gv.take(i as int);
            let blk = gv.subrange(i as int, i as int + 8);
            assert(gv.take(i as int + 8) =~= pre + blk);
            lemma_dec_groups_concat(pre, blk);
            lemma_dec_groups_block8(blk);
            assert(dec_groups(blk) =~= seq![
                db0(c0, c1),
                db1(c1, c2, c3),
                db2(c3, c4),
                db3(c4, c5, c6),
                db4(c6, c7),
            ]);
            assert(out@ =~= dec_groups(gv.take(i as int + 8)));
        }
        i = i + 8;
    }
    if rem == 2 {
        let c0 = groups[i];
        let c1 = groups[i + 1];
        out.push((c0 << 3) | (c1 >> 2));
        proof {
            let pre = gv.take(i as int);
            let blk = gv.subrange(i as int, n as int);
            assert(gv.take(n as int) =~= pre + blk);
            lemma_dec_groups_concat(pre, blk);
            assert(dec_groups(blk) =~= seq![db0(c0, c1)]);
            assert(out@ =~= dec_groups(gv.take(n as int)));
        }
    } else if rem == 4 {
        let c0 = groups[i];
        let c1 = groups[i + 1];
        let c2 = groups[i + 2];
        let c3 = groups[i + 3];
        out.push((c0 << 3) | (c1 >> 2));
        out.push(((c1 & 3) << 6) | (c2 << 1) | (c3 >> 4));
        proof {
            let pre = gv.take(i as int);
            let blk = gv.subrange(i as int, n as int);
            assert(gv.take(n as int) =~= pre + blk);
            lemma_dec_groups_concat(pre, blk);
            assert(dec_groups(blk) =~= seq![db0(c0, c1), db1(c1, c2, c3)]);
            assert(out@ =~= dec_groups(gv.take(n as int)));
        }
    } else if rem == 5 {
        let c0 = groups[i];
        let c1 = groups[i + 1];
        let c2 = groups[i + 2];
        let c3 = groups[i + 3];
        let c4 = groups[i + 4];
        out.push((c0 << 3) | (c1 >> 2));
        out.push(((c1 & 3) << 6) | (c2 << 1) | (c3 >> 4));
        out.push(((c3 & 15) << 4) | (c4 >> 1));
        proof {
            let pre = gv.take(i as int);
            let blk = gv.subrange(i as int, n as int);
            assert(gv.take(n as int) =~= pre + blk);
            lemma_dec_groups_concat(pre, blk);
            assert(dec_groups(blk) =~= seq![db0(c0, c1), db1(c1, c2, c3), db2(c3, c4)]);
            assert(out@ =~= dec_groups(gv.take(n as int)));
        }
    } else if rem == 7 {
        let c0 = groups[i];
        let c1 = groups[i + 1];
        let c2 = groups[i + 2];
        let c3 = groups[i + 3];
        let c4 = groups[i + 4];
        let c5 = groups[i + 5];
        let c6 = groups[i + 6];
        out.push((c0 << 3) | (c1 >> 2));
        out.push(((c1 & 3) << 6) | (c2 << 1) | (c3 >> 4));
        out.push(((c3 & 15) << 4) | (c4 >> 1));
        out.push(((c4 & 1) << 7) | (c5 << 2) | (c6 >> 3));
        proof {
            let pre = gv.take(i as int);
            let blk = gv.subrange(i as int, n as int);
            assert(gv.take(n as int) =~= pre + blk);
            lemma_dec_groups_concat(pre, blk);
            assert(dec_groups(blk) =~= seq![
                db0(c0, c1),
                db1(c1, c2, c3),
                db2(c3, c4),
                db3(c4, c5, c6),
            ]);
            assert(out@ =~= dec_groups(gv.take(n as int)));
        }
    }
    proof {
        assert(gv.take(n as int) =~= gv);
    }
    Ok(out)
}

} // verus!
