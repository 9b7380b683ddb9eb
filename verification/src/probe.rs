//! Probe outcomes and the decisions around one probe attempt.
//!
//! A probe yields one outcome: a success with its wall-clock latency, or a
//! failure recorded as latency 0. A reachability probe classifies the
//! response's status code; a handshake probe walks a fixed sequence of
//! stages, and an error at any stage ends it as a failure.

use vstd::prelude::*;
use vstd::string::StringSliceAdditionalSpecFns;
use crate::identifier::string_from_ascii;

verus! {

/// The port a handshake target without an explicit port is probed on.
pub const DEFAULT_HANDSHAKE_PORT: u16 = 25565;

/// The scheme marker selecting the handshake probe, as bytes: "mc://".
pub open spec fn handshake_scheme() -> Seq<u8> {
    seq![0x6d, 0x63, 0x3a, 0x2f, 0x2f]
}

/// Whether a target carries the handshake scheme marker.
pub open spec fn is_handshake_target(url: Seq<u8>) -> bool {
    url.len() >= 5 && url.subrange(0, 5) == handshake_scheme()
}

/// The position of the first colon at or after `i`, or the length when there
/// is none.
pub open spec fn colon_index(s: Seq<u8>, i: int) -> int
    decreases s.len() - i,
{
    if i < 0 || i >= s.len() {
        s.len() as int
    } else if s[i] == 0x3a {
        i
    } else {
        colon_index(s, i + 1)
    }
}

/// The decimal value of a digit string.
pub open spec fn digits_value(s: Seq<u8>) -> int
    decreases s.len(),
{
    if s.len() == 0 {
        0
    } else {
        digits_value(s.drop_last()) * 10 + (s.last() - 0x30)
    }
}

/// Whether every byte is an ASCII digit.
pub open spec fn all_digits(s: Seq<u8>) -> bool {
    forall|j: int| 0 <= j < s.len() ==> 0x30 <= #[trigger] s[j] <= 0x39
}

/// The port a digit string stands for: at least one digit, valued within 16
/// bits; anything else is no port.
pub open spec fn parse_digits(digits: Seq<u8>) -> Option<u16> {
    if digits.len() > 0 && all_digits(digits) && digits_value(digits) <= 0xffff {
        Some(digits_value(digits) as u16)
    } else {
        None
    }
}

/// The port a port string stands for: an optional plus sign, then at least
/// one digit, valued within 16 bits; anything else is no port.
pub open spec fn parse_port_spec(s: Seq<u8>) -> Option<u16> {
    if s.len() >= 1 && s[0] == 0x2b {
        parse_digits(s.drop_first())
    } else {
        parse_digits(s)
    }
}

/// The host part of a handshake target's rest (everything up to the first
/// colon, or all of it).
pub open spec fn target_host(rest: Seq<u8>) -> Seq<u8> {
    rest.subrange(0, colon_index(rest, 0))
}

/// The port of a handshake target's rest: what follows the first colon when
/// it parses as a port, the default otherwise.
pub open spec fn target_port(rest: Seq<u8>) -> u16 {
    let c = colon_index(rest, 0);
    if c == rest.len() {
        DEFAULT_HANDSHAKE_PORT
    } else {
        match parse_port_spec(rest.subrange(c + 1, rest.len() as int)) {
            Some(p) => p,
            None => DEFAULT_HANDSHAKE_PORT,
        }
    }
}

/// Parses the digits of a port, starting at `start`: an optional plus sign,
/// then decimal digits within 16 bits.
fn parse_port_from(bytes: &[u8], start: usize) -> (r: Option<u16>)
    requires
        start <= bytes@.len(),
    ensures
        r == parse_port_spec(bytes@.skip(start as int)),
{
    let ghost whole = bytes@.skip(start as int);
    let mut i = start;
    if i < bytes.len() && bytes[i] == 0x2b {
        i = i + 1;
    }
    let ghost digits = bytes@.skip(i as int);
    proof {
        assert(whole.len() == bytes@.len() - start);
        if whole.len() >= 1 {
            assert(whole[0] == bytes@[start as int]);
        }
        if start < bytes@.len() && bytes@[start as int] == 0x2b {
            assert(whole.drop_first() =~= digits);
        } else {
            assert(whole =~= digits);
        }
    }
    if i >= bytes.len() {
        return None;
    }
    let mut val: u32 = 0;
    let mut over: bool = false;
    let mut k = i;
    while k < bytes.len()
        invariant
            i <= k <= bytes@.len(),
            i < bytes@.len(),
            digits == bytes@.skip(i as int),
            parse_port_spec(bytes@.skip(start as int)) == parse_digits(digits),
            all_digits(digits.subrange(0, k - i)),
            !over ==> val == digits_value(digits.subrange(0, k - i)) && val <= 0xffff,
            over ==> digits_value(digits.subrange(0, k - i)) > 0xffff,
        decreases bytes@.len() - k,
    {
        let b = bytes[k];
        if b < 0x30 || b > 0x39 {
            proof {
                assert(digits[k - i] == b);
                assert(!all_digits(digits));
            }
            return None;
        }
        proof {
            assert(digits.subrange(0, k - i + 1).drop_last() =~= digits.subrange(0, k - i));
            assert(digits.subrange(0, k - i + 1).last() == digits[k - i]);
        }
        if !over {
            val = val * 10 + ((b - 0x30) as u32);
            if val > 0xffff {
                over = true;
            }
        }
        k = k + 1;
    }
    proof {
        assert(digits.subrange(0, digits.len() as int) =~= digits);
    }
    if over {
        None
    } else {
        Some(val as u16)
    }
}

/// Splits a probe target: a target under the handshake scheme yields its
/// host bytes and port (the default when none is given or it does not
/// parse); any other target is probed by the reachability probe.
pub fn parse_probe_target(url: &str) -> (r: Option<(Vec<u8>, u16)>)
    ensures
        r is Some <==> is_handshake_target(url.spec_bytes()),
        r matches Some(t) ==> {
            let rest = url.spec_bytes().skip(5);
            &&& t.0@ == target_host(rest)
            &&& t.1 == target_port(rest)
        },
{
    let bytes = url.as_bytes();
    if bytes.len() < 5 || bytes[0] != 0x6d || bytes[1] != 0x63 || bytes[2] != 0x3a || bytes[3]
        != 0x2f || bytes[4] != 0x2f {
        proof {
            if is_handshake_target(bytes@) {
                assert(bytes@.subrange(0, 5)[0] == bytes@[0]);
                assert(bytes@.subrange(0, 5)[1] == bytes@[1]);
                assert(bytes@.subrange(0, 5)[2] == bytes@[2]);
                assert(bytes@.subrange(0, 5)[3] == bytes@[3]);
                assert(bytes@.subrange(0, 5)[4] == bytes@[4]);
            }
        }
        return None;
    }
    proof {
        assert(bytes@.subrange(0, 5) =~= handshake_scheme());
    }
    let ghost rest = bytes@.skip(5);
    let mut c: usize = 5;
    while c < bytes.len() && bytes[c] != 0x3a
        invariant
            5 <= c <= bytes@.len(),
            rest == bytes@.skip(5),
            colon_index(rest, 0) == colon_index(rest, c - 5),
        decreases bytes@.len() - c,
    {
        proof {
            assert(rest[c - 5] == bytes@[c as int]);
        }
        c = c + 1;
    }
    proof {
        if c < bytes@.len() {
            assert(rest[c - 5] == bytes@[c as int]);
        }
        assert(colon_index(rest, 0) == c - 5);
    }
    let mut host: Vec<u8> = Vec::new();
    let mut j: usize = 5;
    while j < c
        invariant
            5 <= j <= c <= bytes@.len(),
            rest == bytes@.skip(5),
            host@ == rest.subrange(0, j - 5),
        decreases c - j,
    {
        host.push(bytes[j]);
        proof {
            assert(rest.subrange(0, j - 5 + 1) =~= rest.subrange(0, j - 5).push(bytes@[j as int]));
        }
        j = j + 1;
    }
    let port: u16 = if c == bytes.len() {
        DEFAULT_HANDSHAKE_PORT
    } else {
        proof {
            assert(bytes@.skip(c + 1) =~= rest.subrange(c - 5 + 1, rest.len() as int));
        }
        match parse_port_from(bytes, c + 1) {
            Some(p) => p,
            None => DEFAULT_HANDSHAKE_PORT,
        }
    };
    Some((host, port))
}

/// The outcome of one probe attempt: the latency of a reachable service in
/// milliseconds, or a failure (whose recorded latency is 0).
#[derive(Debug, Clone, Copy, PartialEq, Eq, Structural)]
pub enum ProbeOutcome {
    Success(i32),
    Failure,
}

/// The latency sample an outcome records into the history: the latency of a
/// success, 0 for a failure.
pub open spec fn outcome_sample(o: ProbeOutcome) -> i32 {
    match o {
        ProbeOutcome::Success(ms) => ms,
        ProbeOutcome::Failure => 0,
    }
}

/// The outcome a raw latency reading stands for: a positive reading is a
/// success, anything else a failure.
pub fn outcome_of_latency(latency_ms: i32) -> (o: ProbeOutcome)
    ensures
        latency_ms > 0 ==> o == ProbeOutcome::Success(latency_ms),
        latency_ms <= 0 ==> o == ProbeOutcome::Failure,
        outcome_sample(o) == if latency_ms > 0 {
            latency_ms
        } else {
            0
        },
{
    if latency_ms > 0 {
        ProbeOutcome::Success(latency_ms)
    } else {
        ProbeOutcome::Failure
    }
}

/// What a reachability probe reports: the latency of a response with a
/// success status, or the status code's text for any other response.
#[derive(Debug)]
pub enum ResponseResult {
    Success(i32),
    StatusError(String),
}

/// The decimal digits of a number, as ASCII bytes, most significant first.
pub open spec fn decimal_digits(n: u32) -> Seq<u8>
    decreases n,
{
    if n < 10 {
        seq![(0x30 + n) as u8]
    } else {
        decimal_digits(n / 10) + seq![(0x30 + n % 10) as u8]
    }
}

/// Every decimal digit byte is an ASCII digit.
proof fn lemma_decimal_digits_ascii(n: u32)
    ensures
        forall|j: int|
            0 <= j < decimal_digits(n).len() ==> 0x30 <= #[trigger] decimal_digits(n)[j] <= 0x39,
    decreases n,
{
    if n >= 10 {
        lemma_decimal_digits_ascii(n / 10);
        assert forall|j: int|
            0 <= j < decimal_digits(n).len() implies 0x30 <= #[trigger] decimal_digits(n)[j]
            <= 0x39 by {
            if j < decimal_digits(n / 10).len() {
                assert(decimal_digits(n)[j] == decimal_digits(n / 10)[j]);
            } else {
                assert(decimal_digits(n)[j] == (0x30 + n % 10) as u8);
            }
        }
    }
}

/// Appends the decimal digits of `n` to `out`.
fn push_decimal(n: u16, out: &mut Vec<u8>)
    ensures
        final(out)@ == old(out)@ + decimal_digits(n as u32),
    decreases n,
{
    if n < 10 {
        out.push(0x30 + (n as u8));
        assert(out@ =~= old(out)@ + decimal_digits(n as u32));
    } else {
        push_decimal(n / 10, out);
        out.push(0x30 + ((n % 10) as u8));
        assert(out@ =~= old(out)@ + decimal_digits(n as u32));
    }
}

/// The decimal text of a status code, such as a probe records into an
/// incident description.
pub fn status_code_string(status: u16) -> (r: String)
    ensures
        r@ == decimal_digits(status as u32).map_values(|b: u8| b as char),
{
    let mut out: Vec<u8> = Vec::new();
    push_decimal(status, &mut out);
    proof {
        lemma_decimal_digits_ascii(status as u32);
    }
    string_from_ascii(out)
}

/// Classifies a response for incident detection: a status in the 200 range
/// is a success with the measured latency; any other status is reported with
/// its code's text, and counts as a failure downstream.
pub fn classify_response(status: u16, elapsed_ms: i32) -> (r: ResponseResult)
    ensures
        200 <= status < 300 ==> r == ResponseResult::Success(elapsed_ms),
        !(200 <= status < 300) ==> (r matches ResponseResult::StatusError(s) && s@
            == decimal_digits(status as u32).map_values(|b: u8| b as char)),
{
    if 200 <= status && status < 300 {
        ResponseResult::Success(elapsed_ms)
    } else {
        ResponseResult::StatusError(status_code_string(status))
    }
}

/// The stages of one handshake probe, in the order they run: open the
/// connection, send the framed handshake, send the framed status request,
/// read the varint length of the forthcoming response.
#[derive(Debug, Clone, Copy, PartialEq, Eq, Structural)]
pub enum HandshakeStage {
    Connect,
    SendHandshake,
    SendStatusRequest,
    ReadLength,
}

/// What one stage's result means for the probe: go on to the next stage, or
/// finish with an outcome.
#[derive(Debug, Clone, Copy, PartialEq, Eq, Structural)]
pub enum ProbeStep {
    Continue(HandshakeStage),
    Finished(ProbeOutcome),
}

/// The handshake probe's transition: an error at any stage finishes it as a
/// failure (recorded latency 0); a completed length read finishes it with
/// the elapsed time since the connection was opened; anything else moves to
/// the next stage.
pub open spec fn handshake_next(stage: HandshakeStage, ok: bool, elapsed_ms: i32) -> ProbeStep {
    if !ok {
        ProbeStep::Finished(ProbeOutcome::Failure)
    } else {
        match stage {
            HandshakeStage::Connect => ProbeStep::Continue(HandshakeStage::SendHandshake),
            HandshakeStage::SendHandshake => ProbeStep::Continue(HandshakeStage::SendStatusRequest),
            HandshakeStage::SendStatusRequest => ProbeStep::Continue(HandshakeStage::ReadLength),
            HandshakeStage::ReadLength => ProbeStep::Finished(
                if elapsed_ms > 0 {
                    ProbeOutcome::Success(elapsed_ms)
                } else {
                    ProbeOutcome::Failure
                },
            ),
        }
    }
}

/// Advances a handshake probe by one stage result. An error at any stage
/// yields a failure, whose recorded latency is 0; only a completed length
/// read yields a success.
pub fn handshake_step(stage: HandshakeStage, ok: bool, elapsed_ms: i32) -> (r: ProbeStep)
    ensures
        r == handshake_next(stage, ok, elapsed_ms),
        !ok ==> r == ProbeStep::Finished(ProbeOutcome::Failure) && outcome_sample(
            ProbeOutcome::Failure,
        ) == 0,
{
    if !ok {
        ProbeStep::Finished(ProbeOutcome::Failure)
    } else {
        match stage {
            HandshakeStage::Connect => ProbeStep::Continue(HandshakeStage::SendHandshake),
            HandshakeStage::SendHandshake => ProbeStep::Continue(HandshakeStage::SendStatusRequest),
            HandshakeStage::SendStatusRequest => ProbeStep::Continue(HandshakeStage::ReadLength),
            HandshakeStage::ReadLength => ProbeStep::Finished(outcome_of_latency(elapsed_ms)),
        }
    }
}

} // verus!
