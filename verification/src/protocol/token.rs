//! Distribution of connection tokens, by a short TCP exchange.
//!
//! Only the server knows its private key: the client asks it for a token
//! before opening the UDP connection.
//!
//! Request: the protocol identifier (a big-endian `u64`), then the server's
//! address as the client sees it, as text ended by `\n`.
//!
//! Response: one status byte, followed by the token when the status is
//! [`STATUS_OK`].

use vstd::prelude::*;
use vstd::string::StringSliceAdditionalSpecFns;

verus! {

/// Identifier of this version of the protocol.
pub const PROTOCOL_ID: u64 = 0x5448_4554_4100_0001;

/// The token follows.
pub const STATUS_OK: u8 = 0;

/// The client does not speak the server's version of the protocol.
pub const STATUS_PROTOCOL_MISMATCH: u8 = 1;

/// Longest address the client may send, `\n` included.
pub const MAX_ADDR_LEN: usize = 64;

/// The eight bytes of a `u64`, most significant first.
pub open spec fn spec_be_bytes(v: u64) -> Seq<u8> {
    seq![
        (v >> 56u64) as u8,
        (v >> 48u64) as u8,
        (v >> 40u64) as u8,
        (v >> 32u64) as u8,
        (v >> 24u64) as u8,
        (v >> 16u64) as u8,
        (v >> 8u64) as u8,
        v as u8,
    ]
}

/// The `u64` whose bytes, most significant first, these are.
pub open spec fn spec_from_be(b: Seq<u8>) -> u64 {
    ((b[0] as u64) << 56u64) | ((b[1] as u64) << 48u64) | ((b[2] as u64) << 40u64) | ((
    b[3] as u64) << 32u64) | ((b[4] as u64) << 24u64) | ((b[5] as u64) << 16u64) | ((
    b[6] as u64) << 8u64) | (b[7] as u64)
}

proof fn lemma_be_round_trip_bv(v: u64, b0: u8, b1: u8, b2: u8, b3: u8, b4: u8, b5: u8, b6: u8, b7: u8)
    by (bit_vector)
    ensures
        (((v >> 56u64) as u8 as u64) << 56u64) | (((v >> 48u64) as u8 as u64) << 48u64) | (((v
            >> 40u64) as u8 as u64) << 40u64) | (((v >> 32u64) as u8 as u64) << 32u64) | (((v
            >> 24u64) as u8 as u64) << 24u64) | (((v >> 16u64) as u8 as u64) << 16u64) | (((v
            >> 8u64) as u8 as u64) << 8u64) | (v as u8 as u64) == v,
        ({
            let w = ((b0 as u64) << 56u64) | ((b1 as u64) << 48u64) | ((b2 as u64) << 40u64) | ((
            b3 as u64) << 32u64) | ((b4 as u64) << 24u64) | ((b5 as u64) << 16u64) | ((
            b6 as u64) << 8u64) | (b7 as u64);
            &&& (w >> 56u64) as u8 == b0
            &&& (w >> 48u64) as u8 == b1
            &&& (w >> 40u64) as u8 == b2
            &&& (w >> 32u64) as u8 == b3
            &&& (w >> 24u64) as u8 == b4
            &&& (w >> 16u64) as u8 == b5
            &&& (w >> 8u64) as u8 == b6
            &&& w as u8 == b7
        }),
{
}

/// Big-endian encoding loses nothing, both ways.
pub proof fn lemma_be_round_trip(v: u64, b: Seq<u8>)
    requires
        b.len() == 8,
    ensures
        spec_from_be(spec_be_bytes(v)) == v,
        spec_be_bytes(spec_from_be(b)) == b,
{
    lemma_be_round_trip_bv(v, b[0], b[1], b[2], b[3], b[4], b[5], b[6], b[7]);
    assert(spec_be_bytes(spec_from_be(b)) =~= b);
}

/// Appends the eight bytes of `v`, most significant first.
fn push_be_u64(out: &mut Vec<u8>, v: u64)
    ensures
        final(out)@ == old(out)@ + spec_be_bytes(v),
{
    out.push((v >> 56u64) as u8);
    out.push((v >> 48u64) as u8);
    out.push((v >> 40u64) as u8);
    out.push((v >> 32u64) as u8);
    out.push((v >> 24u64) as u8);
    out.push((v >> 16u64) as u8);
    out.push((v >> 8u64) as u8);
    out.push(v as u8);
    proof {
        assert(final(out)@ =~= old(out)@ + spec_be_bytes(v));
    }
}

/// The line that reading up to the first `\n` gives: everything up to and
/// including it, or everything when there is none.
pub open spec fn spec_line(s: Seq<u8>) -> Seq<u8>
    decreases s.len(),
{
    if s.len() == 0 {
        Seq::empty()
    } else if s[0] == 10u8 {
        seq![s[0]]
    } else {
        seq![s[0]] + spec_line(s.drop_first())
    }
}

/// Bytes of a token request.
pub open spec fn spec_request(protocol_id: u64, addr: Seq<u8>) -> Seq<u8> {
    spec_be_bytes(protocol_id) + addr.push(10u8)
}

/// Error in reading a token request.
#[derive(Debug, Clone, Copy, PartialEq, Eq, Structural)]
pub enum RequestError {
    /// Fewer bytes than the protocol identifier needs.
    Truncated,
    /// The address line does not end within [`MAX_ADDR_LEN`] bytes, its
    /// `\n` included.
    TooLong,
}

/// What reading a request gives: the protocol identifier, then the address
/// line, up to and including its `\n`, or up to the end of the request when
/// it ends first. An address line that fills [`MAX_ADDR_LEN`] bytes without
/// its `\n` is too long.
pub open spec fn spec_decode_request(bytes: Seq<u8>) -> Result<(u64, Seq<u8>), RequestError> {
    if bytes.len() < 8 {
        Err(RequestError::Truncated)
    } else {
        let rest = bytes.skip(8);
        let limited = if rest.len() <= MAX_ADDR_LEN {
            rest
        } else {
            rest.take(MAX_ADDR_LEN as int)
        };
        let line = spec_line(limited);
        if line.len() == MAX_ADDR_LEN && line[MAX_ADDR_LEN - 1] != 10u8 {
            Err(RequestError::TooLong)
        } else {
            Ok((spec_from_be(bytes.take(8)), line))
        }
    }
}

/// Bytes of a request for a token: `protocol_id` in big-endian order, then
/// the address `addr` as the client sees it, then `\n`.
pub fn encode_request(protocol_id: u64, addr: &str) -> (r: Vec<u8>)
    ensures
        r@ == spec_request(protocol_id, addr.spec_bytes()),
{
    let mut out: Vec<u8> = Vec::new();
    push_be_u64(&mut out, protocol_id);
    let text = addr.as_bytes();
    let mut i: usize = 0;
    let ghost start = out@;
    while i < text.len()
        invariant
            i <= text@.len(),
            out@ == start + text@.take(i as int),
        decreases text@.len() - i,
    {
        out.push(text[i]);
        i = i + 1;
        proof {
            assert(out@ =~= start + text@.take(i as int));
        }
    }
    out.push(10u8);
    proof {
        assert(text@.take(text@.len() as int) =~= text@);
        assert(out@ =~= spec_request(protocol_id, addr.spec_bytes()));
    }
    out
}

/// Reads a token request: the client's protocol identifier and the line
/// holding the address by which it reaches the server. The line keeps its
/// `\n`; a line that fills [`MAX_ADDR_LEN`] bytes without it is refused.
pub fn decode_request(bytes: &[u8]) -> (r: Result<(u64, Vec<u8>), RequestError>)
    ensures
        r matches Ok((id, line)) ==> spec_decode_request(bytes@) == Ok::<(u64, Seq<u8>), RequestError>((id, line@)),
        r matches Err(e) ==> spec_decode_request(bytes@) == Err::<(u64, Seq<u8>), RequestError>(e),
{
    if bytes.len() < 8 {
        return Err(RequestError::Truncated);
    }
    let id = ((bytes[0] as u64) << 56u64) | ((bytes[1] as u64) << 48u64) | ((bytes[2] as u64)
        << 40u64) | ((bytes[3] as u64) << 32u64) | ((bytes[4] as u64) << 24u64) | ((
    bytes[5] as u64) << 16u64) | ((bytes[6] as u64) << 8u64) | (bytes[7] as u64);
    let end = if bytes.len() - 8 <= MAX_ADDR_LEN {
        bytes.len()
    } else {
        8 + MAX_ADDR_LEN
    };
    let ghost limited = bytes@.subrange(8, end as int);
    let mut line: Vec<u8> = Vec::new();
    let mut i: usize = 8;
    proof {
        assert(limited.skip(0) =~= limited);
        assert(line@ + spec_line(limited) =~= spec_line(limited));
    }
    while i < end
        invariant_except_break
            spec_line(limited) == line@ + spec_line(limited.skip(i - 8)),
        invariant
            8 <= i <= end <= bytes@.len(),
            limited == bytes@.subrange(8, end as int),
        ensures
            spec_line(limited) == line@,
        decreases end - i,
    {
        let b = bytes[i];
        let ghost before = line@;
        proof {
            let rest = limited.skip(i - 8);
            assert(rest[0] == b);
            assert(rest.drop_first() =~= limited.skip(i + 1 - 8));
        }
        line.push(b);
        if b == 10u8 {
            proof {
                let rest = limited.skip(i - 8);
                assert(spec_line(rest) =~= seq![b]);
                assert(before + seq![b] =~= line@);
            }
            break;
        }
        proof {
            let rest = limited.skip(i - 8);
            assert(spec_line(rest) == seq![b] + spec_line(limited.skip(i + 1 - 8)));
            assert(before + (seq![b] + spec_line(limited.skip(i + 1 - 8))) =~= line@ + spec_line(
                limited.skip(i + 1 - 8),
            ));
        }
        i = i + 1;
        proof {
            if i == end {
                assert(limited.skip(i - 8).len() == 0);
                assert(line@ + spec_line(limited.skip(i - 8)) =~= line@);
            }
        }
    }
    proof {
        assert(bytes@.take(8) =~= seq![bytes@[0], bytes@[1], bytes@[2], bytes@[3], bytes@[4], bytes@[5], bytes@[6], bytes@[7]]);
        let rest = bytes@.skip(8);
        if rest.len() <= MAX_ADDR_LEN {
            assert(limited =~= rest);
        } else {
            assert(limited =~= rest.take(MAX_ADDR_LEN as int));
        }
    }
    if line.len() == MAX_ADDR_LEN && line[MAX_ADDR_LEN - 1] != 10u8 {
        return Err(RequestError::TooLong);
    }
    Ok((id, line))
}

/// Outcome of a token request, as the server decides it.
#[derive(Debug, Clone, Copy, PartialEq, Eq, Structural)]
pub enum Answer {
    /// The client speaks this protocol: it gets a token.
    Token,
    /// The client speaks another protocol: it is refused with this status.
    Refuse(u8),
}

/// The server's answer to a client announcing `protocol_id`.
pub fn answer_for(protocol_id: u64) -> (r: Answer)
    ensures
        protocol_id == PROTOCOL_ID ==> r == Answer::Token,
        protocol_id != PROTOCOL_ID ==> r == Answer::Refuse(STATUS_PROTOCOL_MISMATCH),
{
    if protocol_id == PROTOCOL_ID {
        Answer::Token
    } else {
        Answer::Refuse(STATUS_PROTOCOL_MISMATCH)
    }
}

/// Writes a refusal: a single status byte.
pub fn write_refusal(out: &mut Vec<u8>, status: u8)
    ensures
        final(out)@ == old(out)@.push(status),
{
    out.push(status);
}

/// Writes a token answer: [`STATUS_OK`], then the token's bytes.
pub fn write_token(out: &mut Vec<u8>, token: &[u8])
    ensures
        final(out)@ == old(out)@.push(STATUS_OK) + token@,
{
    out.push(STATUS_OK);
    let ghost start = out@;
    let mut i: usize = 0;
    while i < token.len()
        invariant
            i <= token@.len(),
            out@ == start + token@.take(i as int),
        decreases token@.len() - i,
    {
        out.push(token[i]);
        i = i + 1;
        proof {
            assert(out@ =~= start + token@.take(i as int));
        }
    }
    proof {
        assert(token@.take(token@.len() as int) =~= token@);
    }
}

/// Reply status that the client does not accept.
#[derive(Debug, Clone, Copy, PartialEq, Eq, Structural)]
pub enum StatusError {
    /// The server speaks another version of the protocol.
    ProtocolMismatch,
    /// The server answered with a status this client does not know.
    Unknown(u8),
}

/// Reads the status byte of the server's reply: `Ok` when the token follows.
pub fn check_status(status: u8) -> (r: Result<(), StatusError>)
    ensures
        status == STATUS_OK ==> r is Ok,
        status == STATUS_PROTOCOL_MISMATCH ==> r == Err::<(), StatusError>(StatusError::ProtocolMismatch),
        status != STATUS_OK && status != STATUS_PROTOCOL_MISMATCH ==> r == Err::<(), StatusError>(StatusError::Unknown(status)),
{
    if status == STATUS_OK {
        Ok(())
    } else if status == STATUS_PROTOCOL_MISMATCH {
        Err(StatusError::ProtocolMismatch)
    } else {
        Err(StatusError::Unknown(status))
    }
}

/// A request decodes to the identifier and address it was built from, when
/// the address has no `\n` and fits in [`MAX_ADDR_LEN`] bytes with it.
pub proof fn lemma_request_round_trip(protocol_id: u64, addr: Seq<u8>)
    requires
        addr.len() < MAX_ADDR_LEN,
        forall|i: int| 0 <= i < addr.len() ==> #[trigger] addr[i] != 10u8,
    ensures
        spec_decode_request(spec_request(protocol_id, addr)) == Ok::<(u64, Seq<u8>), RequestError>((protocol_id, addr.push(10u8))),
{
    let bytes = spec_request(protocol_id, addr);
    assert(bytes.take(8) =~= spec_be_bytes(protocol_id));
    assert(bytes.skip(8) =~= addr.push(10u8));
    lemma_be_round_trip(protocol_id, spec_be_bytes(protocol_id));
    lemma_line_of_line(addr);
}

/// A line made of bytes other than `\n`, then `\n`, reads as itself.
proof fn lemma_line_of_line(addr: Seq<u8>)
    requires
        forall|i: int| 0 <= i < addr.len() ==> #[trigger] addr[i] != 10u8,
    ensures
        spec_line(addr.push(10u8)) == addr.push(10u8),
    decreases addr.len(),
{
    if addr.len() == 0 {
        assert(addr.push(10u8) =~= seq![10u8]);
    } else {
        let tail = addr.drop_first();
        assert forall|i: int| 0 <= i < tail.len() implies #[trigger] tail[i] != 10u8 by {
            assert(tail[i] == addr[i + 1]);
        }
        lemma_line_of_line(tail);
        assert(addr.push(10u8).drop_first() =~= tail.push(10u8));
        assert(addr.push(10u8)[0] == addr[0]);
        assert(seq![addr[0]] + tail.push(10u8) =~= addr.push(10u8));
    }
}

} // verus!
