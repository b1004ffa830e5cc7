//! Transport session: the per-connection state machine
//! (handshaking, active, closing, closed) and the one-time handshake
//! control message advertising the interface address and mask.

use vstd::prelude::*;

verus! {

#[derive(Clone, Copy, PartialEq, Eq, Structural, Debug)]
pub enum SessionState {
    Handshaking,
    Active,
    Closing,
    Closed,
}

/// One observed transport-level event on a session's connection.
#[derive(Clone, Copy, PartialEq, Eq, Structural, Debug)]
pub enum SessionEvent {
    /// The connection was accepted.
    Accepted,
    /// A binary message (one raw tunneled IP frame) arrived.
    BinaryFrame,
    /// A text message arrived (reserved for future control use).
    TextMessage,
    /// A transport ping arrived.
    Ping,
    /// A transport pong arrived.
    Pong,
    /// The peer sent a close frame.
    CloseRequested,
    /// A transport-level read or write failed.
    TransportError,
}

/// What the connection pump must do after a step.
#[derive(Clone, Copy, PartialEq, Eq, Structural, Debug)]
pub enum SessionAction {
    /// Send the one-time handshake text message.
    SendHandshake,
    /// Route the frame through the classify/flow/forward pipeline.
    ProcessFrame,
    /// Answer the ping with a pong.
    SendPong,
    /// Remove every flow the session owns, then release the connection.
    TeardownFlows,
    /// Nothing to do.
    Ignore,
}

/// The transition table of the per-connection state machine: handshake is
/// sent once and leads to `Active` unconditionally; binary frames are
/// pumped while active; a close frame or any transport failure leads to
/// `Closing`; closing tears the session's flows down and the session ends
/// `Closed`, which is terminal.
pub open spec fn spec_session_step(s: SessionState, e: SessionEvent) -> (SessionState, SessionAction) {
    match s {
        SessionState::Handshaking => match e {
            SessionEvent::Accepted => (SessionState::Active, SessionAction::SendHandshake),
            SessionEvent::CloseRequested => (SessionState::Closing, SessionAction::Ignore),
            SessionEvent::TransportError => (SessionState::Closing, SessionAction::Ignore),
            _ => (SessionState::Handshaking, SessionAction::Ignore),
        },
        SessionState::Active => match e {
            SessionEvent::BinaryFrame => (SessionState::Active, SessionAction::ProcessFrame),
            SessionEvent::Ping => (SessionState::Active, SessionAction::SendPong),
            SessionEvent::CloseRequested => (SessionState::Closing, SessionAction::Ignore),
            SessionEvent::TransportError => (SessionState::Closing, SessionAction::Ignore),
            _ => (SessionState::Active, SessionAction::Ignore),
        },
        SessionState::Closing => (SessionState::Closed, SessionAction::TeardownFlows),
        SessionState::Closed => (SessionState::Closed, SessionAction::Ignore),
    }
}

/// Executes one step of the session state machine. A transport error never
/// surfaces as a process failure: from any live state it moves the session
/// towards `Closing`, whose step tears the flows down exactly once.
pub fn session_step(s: SessionState, e: SessionEvent) -> (r: (SessionState, SessionAction))
    ensures
        r == spec_session_step(s, e),
        s == SessionState::Closed ==> r.0 == SessionState::Closed,
        e == SessionEvent::TransportError && s != SessionState::Closed ==> r.0
            == SessionState::Closing || r.0 == SessionState::Closed,
        r.1 == SessionAction::TeardownFlows <==> s == SessionState::Closing,
{
    match s {
        SessionState::Handshaking => match e {
            SessionEvent::Accepted => (SessionState::Active, SessionAction::SendHandshake),
            SessionEvent::CloseRequested => (SessionState::Closing, SessionAction::Ignore),
            SessionEvent::TransportError => (SessionState::Closing, SessionAction::Ignore),
            _ => (SessionState::Handshaking, SessionAction::Ignore),
        },
        SessionState::Active => match e {
            SessionEvent::BinaryFrame => (SessionState::Active, SessionAction::ProcessFrame),
            SessionEvent::Ping => (SessionState::Active, SessionAction::SendPong),
            SessionEvent::CloseRequested => (SessionState::Closing, SessionAction::Ignore),
            SessionEvent::TransportError => (SessionState::Closing, SessionAction::Ignore),
            _ => (SessionState::Active, SessionAction::Ignore),
        },
        SessionState::Closing => (SessionState::Closed, SessionAction::TeardownFlows),
        SessionState::Closed => (SessionState::Closed, SessionAction::Ignore),
    }
}

/// The decimal digit character for `d`.
pub open spec fn digit_char(d: int) -> char {
    if d == 0 { '0' } else if d == 1 { '1' } else if d == 2 { '2' } else if d == 3 { '3' }
    else if d == 4 { '4' } else if d == 5 { '5' } else if d == 6 { '6' } else if d == 7 { '7' }
    else if d == 8 { '8' } else { '9' }
}

/// The decimal digit string of a non-negative number, most significant
/// digit first, no leading zeros (a lone zero for 0).
pub open spec fn dec_digits(n: int) -> Seq<char>
    decreases n,
{
    if n < 10 {
        seq![digit_char(n)]
    } else {
        dec_digits(n / 10) + seq![digit_char(n % 10)]
    }
}

/// An IPv4 address in dotted-quad notation.
pub open spec fn dotted_quad(a: u32) -> Seq<char> {
    dec_digits(a as int / 0x1000000) + seq!['.'] + dec_digits((a as int / 0x10000) % 256)
        + seq!['.'] + dec_digits((a as int / 256) % 256) + seq!['.'] + dec_digits(a as int % 256)
}

/// The one-time handshake control message: `ip: <address>, mask: <mask>`,
/// both in dotted-quad notation.
pub open spec fn handshake_text(ip: u32, mask: u32) -> Seq<char> {
    seq!['i', 'p', ':', ' '] + dotted_quad(ip) + seq![',', ' ', 'm', 'a', 's', 'k', ':', ' ']
        + dotted_quad(mask)
}

fn digit_str(d: u8) -> (r: &'static str)
    requires
        d < 10,
    ensures
        r@ == seq![digit_char(d as int)],
{
    proof {
        reveal_strlit("0");
        reveal_strlit("1");
        reveal_strlit("2");
        reveal_strlit("3");
        reveal_strlit("4");
        reveal_strlit("5");
        reveal_strlit("6");
        reveal_strlit("7");
        reveal_strlit("8");
        reveal_strlit("9");
    }
    let r = match d {
        0 => "0",
        1 => "1",
        2 => "2",
        3 => "3",
        4 => "4",
        5 => "5",
        6 => "6",
        7 => "7",
        8 => "8",
        _ => "9",
    };
    proof {
        assert(r@ =~= seq![digit_char(d as int)]);
    }
    r
}

fn push_dec_u8(s: &mut String, v: u8)
    ensures
        final(s)@ == old(s)@ + dec_digits(v as int),
{
    if v >= 100 {
        s.append(digit_str(v / 100));
        s.append(digit_str((v / 10) % 10));
        s.append(digit_str(v % 10));
        proof {
            assert((v / 10) / 10 == v / 100) by (nonlinear_arith);
            assert(dec_digits(v as int) == dec_digits(v as int / 10) + seq![digit_char(v as int % 10)]);
            assert(dec_digits(v as int / 10) == dec_digits(v as int / 100) + seq![digit_char((v as int / 10) % 10)]);
            assert(dec_digits(v as int / 100) == seq![digit_char(v as int / 100)]);
            assert(final(s)@ =~= old(s)@ + dec_digits(v as int));
        }
    } else if v >= 10 {
        s.append(digit_str(v / 10));
        s.append(digit_str(v % 10));
        proof {
            assert(dec_digits(v as int) == dec_digits(v as int / 10) + seq![digit_char(v as int % 10)]);
            assert(dec_digits(v as int / 10) == seq![digit_char(v as int / 10)]);
            assert(final(s)@ =~= old(s)@ + dec_digits(v as int));
        }
    } else {
        s.append(digit_str(v));
        proof {
            assert(dec_digits(v as int) == seq![digit_char(v as int)]);
            assert(final(s)@ =~= old(s)@ + dec_digits(v as int));
        }
    }
}

fn push_dotted_quad(s: &mut String, a: u32)
    ensures
        final(s)@ == old(s)@ + dotted_quad(a),
{
    proof {
        reveal_strlit(".");
    }
    push_dec_u8(s, (a / 0x1000000) as u8);
    s.append(".");
    push_dec_u8(s, ((a / 0x10000) % 256) as u8);
    s.append(".");
    push_dec_u8(s, ((a / 256) % 256) as u8);
    s.append(".");
    push_dec_u8(s, (a % 256) as u8);
    proof {
        assert("."@ =~= seq!['.']);
        assert(final(s)@ =~= old(s)@ + dotted_quad(a));
    }
}

/// Builds the handshake control message `ip: <address>, mask: <mask>`
/// advertised to the client right after the connection is accepted.
pub fn handshake_message(ip: u32, mask: u32) -> (r: String)
    ensures
        r@ == handshake_text(ip, mask),
{
    let mut s = String::new();
    proof {
        reveal_strlit("ip: ");
        reveal_strlit(", mask: ");
    }
    s.append("ip: ");
    push_dotted_quad(&mut s, ip);
    s.append(", mask: ");
    push_dotted_quad(&mut s, mask);
    proof {
        assert("ip: "@ =~= seq!['i', 'p', ':', ' ']);
        assert(", mask: "@ =~= seq![',', ' ', 'm', 'a', 's', 'k', ':', ' ']);
        assert(s@ =~= handshake_text(ip, mask));
    }
    s
}

} // verus!
