//! Stream forwarder decisions.
//!
//! A forwarded stream pairs one local TCP connection with one QUIC
//! stream inside a Ready session, one to one. The local TCP listener
//! itself is active from configuration on — a client whose pinning
//! verdict later fails still accepts local connections — but a pairing
//! can only be opened while the session is `Ready`, so no byte is ever
//! relayed on a session whose certificate was not accepted. The byte
//! relay is a transparent pipe: whatever one side yields is written to
//! the other side at once, unchanged and unbatched. Either side closing
//! or failing ends both halves together — no half-open leaks — and a
//! stream's failure is scoped to that stream alone: nothing here touches
//! the session. The sockets themselves live with the driver; it reads
//! and writes, and asks here what to do with each outcome.

use vstd::prelude::*;
use vstd::string::StringExecFns;
use crate::session::SessionState;

verus! {

/// One outcome of reading either half of a forwarded stream.
pub enum RelayEvent {
    /// Bytes arrived from the local TCP connection.
    LocalBytes(Vec<u8>),
    /// Bytes arrived from the QUIC stream.
    StreamBytes(Vec<u8>),
    /// The local TCP side closed or failed.
    LocalEnded,
    /// The QUIC stream side closed or failed.
    StreamEnded,
}

/// What the driver must do with a relay event.
pub enum RelayAction {
    /// Write exactly these bytes to the QUIC stream, now.
    WriteToStream(Vec<u8>),
    /// Write exactly these bytes to the local TCP connection, now.
    WriteToLocal(Vec<u8>),
    /// Close both halves of the stream pairing.
    CloseBoth,
    /// The pairing is already over; nothing to do.
    Ignore,
}

/// The pairing of one local TCP connection with one QUIC stream. Both
/// halves live and die together: `active` covers both.
#[derive(Debug)]
pub struct ForwardedStream {
    pub active: bool,
}

impl ForwardedStream {
    /// Opens a pairing for an accepted local connection — but only on a
    /// `Ready` session. Outside `Ready` no pairing exists, so no bytes
    /// can ever be relayed on a session whose certificate was rejected
    /// or whose handshake has not finished; the driver closes the local
    /// connection instead.
    pub fn open(st: SessionState) -> (r: Option<ForwardedStream>)
        ensures
            r is Some <==> st == SessionState::Ready,
            r is Some ==> r->Some_0.active,
    {
        if st == SessionState::Ready {
            Some(ForwardedStream { active: true })
        } else {
            None
        }
    }

    /// Relays one event: bytes cross unchanged to the opposite side the
    /// moment they arrive, and an end on either side ends both.
    pub fn on_event(&mut self, ev: RelayEvent) -> (r: RelayAction)
        ensures
            !old(self).active ==> *final(self) == *old(self) && r is Ignore,
            old(self).active ==> match ev {
                RelayEvent::LocalBytes(b) => final(self).active && (r matches
                    RelayAction::WriteToStream(w) && w@ == b@),
                RelayEvent::StreamBytes(b) => final(self).active && (r matches
                    RelayAction::WriteToLocal(w) && w@ == b@),
                RelayEvent::LocalEnded => !final(self).active && r is CloseBoth,
                RelayEvent::StreamEnded => !final(self).active && r is CloseBoth,
            },
    {
        if !self.active {
            return RelayAction::Ignore;
        }
        match ev {
            RelayEvent::LocalBytes(b) => RelayAction::WriteToStream(b),
            RelayEvent::StreamBytes(b) => RelayAction::WriteToLocal(b),
            RelayEvent::LocalEnded => {
                self.active = false;
                RelayAction::CloseBoth
            },
            RelayEvent::StreamEnded => {
                self.active = false;
                RelayAction::CloseBoth
            },
        }
    }
}

/// Whether the session may carry stream traffic: only in `Ready`.
/// [`ForwardedStream::open`] enforces this; local TCP accepting does
/// not wait on it.
pub fn may_open_stream(st: SessionState) -> (r: bool)
    ensures
        r == (st == SessionState::Ready),
{
    st == SessionState::Ready
}

/// The character a decimal digit is written as.
pub open spec fn digit_char(d: int) -> char
    recommends
        0 <= d < 10,
{
    if d == 0 {
        '0'
    } else if d == 1 {
        '1'
    } else if d == 2 {
        '2'
    } else if d == 3 {
        '3'
    } else if d == 4 {
        '4'
    } else if d == 5 {
        '5'
    } else if d == 6 {
        '6'
    } else if d == 7 {
        '7'
    } else if d == 8 {
        '8'
    } else {
        '9'
    }
}

/// The decimal notation of `n`: most significant digit first, no
/// leading zero except for zero itself.
pub open spec fn spec_decimal(n: int) -> Seq<char>
    recommends
        n >= 0,
    decreases n,
{
    if n < 10 {
        seq![digit_char(n)]
    } else {
        spec_decimal(n / 10) + seq![digit_char(n % 10)]
    }
}

/// One decimal digit as text.
fn digit_str(d: u16) -> (r: &'static str)
    requires
        d < 10,
    ensures
        r@ == seq![digit_char(d as int)],
{
    let r: &'static str = if d == 0 {
        "0"
    } else if d == 1 {
        "1"
    } else if d == 2 {
        "2"
    } else if d == 3 {
        "3"
    } else if d == 4 {
        "4"
    } else if d == 5 {
        "5"
    } else if d == 6 {
        "6"
    } else if d == 7 {
        "7"
    } else if d == 8 {
        "8"
    } else {
        "9"
    };
    proof {
        reveal_strlit("0");
        reveal_strlit("1");
        reveal_strlit("2");
        reveal_strlit("3");
        reveal_strlit("4");
        reveal_strlit("5");
        reveal_strlit("6");
        reveal_strlit("7");
        reveal_strlit("8");
        reveal_strlit("9");
        assert(r@ =~= seq![digit_char(d as int)]);
    }
    r
}

/// Appends the decimal notation of `n`.
fn append_decimal(out: &mut String, n: u16)
    ensures
        final(out)@ == old(out)@ + spec_decimal(n as int),
    decreases n,
{
    if n < 10 {
        out.append(digit_str(n));
        proof {
            assert(out@ =~= old(out)@ + spec_decimal(n as int));
        }
    } else {
        append_decimal(out, n / 10);
        out.append(digit_str(n % 10));
        proof {
            assert(out@ =~= old(out)@ + spec_decimal(n as int));
        }
    }
}

/// The whole log line for an active local TCP listener on `port`: the
/// stable milestone text followed by the port in decimal.
pub fn listening_line(port: u16) -> (r: String)
    ensures
        r@ == "Listening on TCP port "@ + spec_decimal(port as int),
{
    let mut line = String::from_str("Listening on TCP port ");
    append_decimal(&mut line, port);
    line
}

} // verus!
