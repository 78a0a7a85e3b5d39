//! The wire protocol: a fixed little-endian binary encoding of every message,
//! with a verified encoder and decoder for each and a proof that decoding an
//! encoded message gives the message back.
//!
//! Layout conventions: integers are fixed-width little-endian; a byte string
//! travels as a u64 length followed by its bytes; an i32 or i64 travels as its
//! two's-complement unsigned image; the operation travels as a one-byte tag.
//! A decoder accepts exactly the byte strings the matching encoder produces,
//! and nothing else.

use vstd::prelude::*;
use vstd::bytes::*;
use vstd::slice::*;
use crate::msg::{
    ChmodArgs, ChmodArgsView, LseekArgs, LseekReply, OpenArgs, OpenArgsView, OpenReply, Operation,
    ReadArgs, ReadReply, ReadReplyView, RenameArgs, RenameArgsView, Request, RequestView,
    Response, ResponseView, SimpleReply, UnlinkArgs, UnlinkArgsView, WriteArgs, WriteArgsView,
    WriteReply,
};

verus! {

/// View of an `Option` of a viewable type.
pub open spec fn opt_view<T: View>(o: Option<T>) -> Option<T::V> {
    match o {
        Some(v) => Some(v@),
        None => None,
    }
}

// ---------------------------------------------------------------------------
// Primitives
// ---------------------------------------------------------------------------

/// Encoding of a u64: eight bytes, least significant first.
pub open spec fn enc_u64(v: u64) -> Seq<u8> {
    spec_u64_to_le_bytes(v)
}

/// Encoding of a u32: four bytes, least significant first.
pub open spec fn enc_u32(v: u32) -> Seq<u8> {
    spec_u32_to_le_bytes(v)
}

/// Encoding of an i64: the two's-complement image as a u64.
pub open spec fn enc_i64(v: i64) -> Seq<u8> {
    enc_u64(v as u64)
}

/// Encoding of an i32: the two's-complement image as a u32.
pub open spec fn enc_i32(v: i32) -> Seq<u8> {
    enc_u32(v as u32)
}

/// Encoding of a byte string: its length as a u64, then its bytes.
pub open spec fn enc_bytes(b: Seq<u8>) -> Seq<u8> {
    enc_u64(b.len() as u64) + b
}

/// The u64 whose encoding sits at `pos`.
pub open spec fn dec_u64_at(s: Seq<u8>, pos: int) -> u64 {
    spec_u64_from_le_bytes(s.subrange(pos, pos + 8))
}

/// The u32 whose encoding sits at `pos`.
pub open spec fn dec_u32_at(s: Seq<u8>, pos: int) -> u32 {
    spec_u32_from_le_bytes(s.subrange(pos, pos + 4))
}

/// The i64 whose encoding sits at `pos`.
pub open spec fn dec_i64_at(s: Seq<u8>, pos: int) -> i64 {
    dec_u64_at(s, pos) as i64
}

/// The i32 whose encoding sits at `pos`.
pub open spec fn dec_i32_at(s: Seq<u8>, pos: int) -> i32 {
    dec_u32_at(s, pos) as i32
}

/// A round trip through the unsigned image gives an i64 back.
pub proof fn lemma_i64_cast_round_trip(v: i64)
    ensures
        (v as u64) as i64 == v,
{
    assert((v as u64) as i64 == v) by (bit_vector);
}

/// A round trip through the unsigned image gives an i32 back.
pub proof fn lemma_i32_cast_round_trip(v: i32)
    ensures
        (v as u32) as i32 == v,
{
    assert((v as u32) as i32 == v) by (bit_vector);
}

/// Appends the encoding of a u64.
pub fn push_u64(out: &mut Vec<u8>, v: u64)
    ensures
        final(out)@ == old(out)@ + enc_u64(v),
{
    let mut bytes = u64_to_le_bytes(v);
    out.append(&mut bytes);
}

/// Appends the encoding of a u32.
pub fn push_u32(out: &mut Vec<u8>, v: u32)
    ensures
        final(out)@ == old(out)@ + enc_u32(v),
{
    let mut bytes = u32_to_le_bytes(v);
    out.append(&mut bytes);
}

/// Appends the encoding of an i64.
pub fn push_i64(out: &mut Vec<u8>, v: i64)
    ensures
        final(out)@ == old(out)@ + enc_i64(v),
{
    push_u64(out, v as u64);
}

/// Appends the encoding of an i32.
pub fn push_i32(out: &mut Vec<u8>, v: i32)
    ensures
        final(out)@ == old(out)@ + enc_i32(v),
{
    push_u32(out, v as u32);
}

/// Appends a length-prefixed byte string.
pub fn push_bytes(out: &mut Vec<u8>, b: &Vec<u8>)
    ensures
        final(out)@ == old(out)@ + enc_bytes(b@),
{
    push_u64(out, b.len() as u64);
    let ghost mid = out@;
    let mut i: usize = 0;
    while i < b.len()
        invariant
            i <= b.len(),
            out@ == mid + b@.subrange(0, i as int),
        decreases b.len() - i,
    {
        out.push(b[i]);
        i = i + 1;
        proof {
            assert(out@ =~= mid + b@.subrange(0, i as int));
        }
    }
    proof {
        assert(b@.subrange(0, b@.len() as int) =~= b@);
    }
}

/// Reads the u64 encoded at `pos`.
pub fn read_u64_at(s: &[u8], pos: usize) -> (v: u64)
    requires
        pos + 8 <= s@.len(),
    ensures
        v == dec_u64_at(s@, pos as int),
{
    let n = s.len();
    proof {
        assert(pos + 8 <= n);
    }
    let sub = slice_subrange(s, pos, pos + 8);
    u64_from_le_bytes(sub)
}

/// Reads the u32 encoded at `pos`.
pub fn read_u32_at(s: &[u8], pos: usize) -> (v: u32)
    requires
        pos + 4 <= s@.len(),
    ensures
        v == dec_u32_at(s@, pos as int),
{
    let n = s.len();
    proof {
        assert(pos + 4 <= n);
    }
    let sub = slice_subrange(s, pos, pos + 4);
    u32_from_le_bytes(sub)
}

/// Copies `n` bytes starting at `pos` into a fresh vector.
pub fn read_vec_at(s: &[u8], pos: usize, n: usize) -> (out: Vec<u8>)
    requires
        pos + n <= s@.len(),
    ensures
        out@ == s@.subrange(pos as int, pos + n),
{
    let total = s.len();
    let mut out: Vec<u8> = Vec::new();
    let mut i: usize = 0;
    while i < n
        invariant
            i <= n,
            pos + n <= s@.len(),
            s@.len() == total,
            out@ == s@.subrange(pos as int, pos + i),
        decreases n - i,
    {
        out.push(*slice_index_get(s, pos + i));
        i = i + 1;
        proof {
            assert(out@ =~= s@.subrange(pos as int, pos + i));
        }
    }
    out
}

// ---------------------------------------------------------------------------
// Operation tags
// ---------------------------------------------------------------------------

/// The one-byte tag of an operation.
pub open spec fn op_tag(op: Operation) -> u8 {
    match op {
        Operation::Open => 0,
        Operation::Read => 1,
        Operation::Write => 2,
        Operation::Lseek => 3,
        Operation::Chmod => 4,
        Operation::Unlink => 5,
        Operation::Rename => 6,
    }
}

/// The operation a tag names, if any.
pub open spec fn tag_op(t: u8) -> Option<Operation> {
    if t == 0 {
        Some(Operation::Open)
    } else if t == 1 {
        Some(Operation::Read)
    } else if t == 2 {
        Some(Operation::Write)
    } else if t == 3 {
        Some(Operation::Lseek)
    } else if t == 4 {
        Some(Operation::Chmod)
    } else if t == 5 {
        Some(Operation::Unlink)
    } else if t == 6 {
        Some(Operation::Rename)
    } else {
        None
    }
}

/// The tag of every operation names that operation.
pub proof fn lemma_op_tag_round_trip(op: Operation)
    ensures
        tag_op(op_tag(op)) == Some(op),
{
}

/// Computes the tag of an operation.
pub fn op_tag_exec(op: Operation) -> (t: u8)
    ensures
        t == op_tag(op),
{
    match op {
        Operation::Open => 0,
        Operation::Read => 1,
        Operation::Write => 2,
        Operation::Lseek => 3,
        Operation::Chmod => 4,
        Operation::Unlink => 5,
        Operation::Rename => 6,
    }
}

/// Recovers the operation a tag names.
pub fn tag_op_exec(t: u8) -> (op: Option<Operation>)
    ensures
        op == tag_op(t),
{
    if t == 0 {
        Some(Operation::Open)
    } else if t == 1 {
        Some(Operation::Read)
    } else if t == 2 {
        Some(Operation::Write)
    } else if t == 3 {
        Some(Operation::Lseek)
    } else if t == 4 {
        Some(Operation::Chmod)
    } else if t == 5 {
        Some(Operation::Unlink)
    } else if t == 6 {
        Some(Operation::Rename)
    } else {
        None
    }
}

// ---------------------------------------------------------------------------
// Request envelope
// ---------------------------------------------------------------------------

/// A request view whose argument payload is short enough for a length prefix.
pub open spec fn wf_request(r: RequestView) -> bool {
    r.arguments.len() <= u64::MAX
}

/// Encoding of a request: token, sequence number, operation tag, then the
/// length-prefixed argument payload.
pub open spec fn spec_encode_request(r: RequestView) -> Seq<u8> {
    enc_u64(r.auth_token) + enc_u64(r.sequence_number) + seq![op_tag(r.operation)] + enc_bytes(
        r.arguments,
    )
}

/// The request a byte string encodes, if any. The argument length must
/// account for every remaining byte: trailing garbage is rejected.
pub open spec fn spec_decode_request(s: Seq<u8>) -> Option<RequestView> {
    if s.len() < 25 {
        None
    } else {
        let tag = tag_op(s[16]);
        let alen = dec_u64_at(s, 17);
        if tag is Some && alen == s.len() - 25 {
            Some(
                RequestView {
                    auth_token: dec_u64_at(s, 0),
                    sequence_number: dec_u64_at(s, 8),
                    operation: tag->Some_0,
                    arguments: s.subrange(25, s.len() as int),
                },
            )
        } else {
            None
        }
    }
}

/// Decoding inverts encoding on every well-formed request.
pub proof fn lemma_request_round_trip(r: RequestView)
    requires
        wf_request(r),
    ensures
        spec_decode_request(spec_encode_request(r)) == Some(r),
{
    lemma_auto_spec_u64_to_from_le_bytes();
    let s = spec_encode_request(r);
    assert(s.len() == 25 + r.arguments.len());
    assert(s.subrange(0, 8) =~= enc_u64(r.auth_token));
    assert(s.subrange(8, 16) =~= enc_u64(r.sequence_number));
    assert(s[16] == op_tag(r.operation));
    assert(s.subrange(17, 25) =~= enc_u64(r.arguments.len() as u64));
    assert(s.subrange(25, s.len() as int) =~= r.arguments);
    lemma_op_tag_round_trip(r.operation);
    assert(spec_decode_request(s)->Some_0 =~= r);
}

/// Encoding inverts decoding on every byte string that decodes: together
/// with the round trip the other way, encoding is a bijection between
/// well-formed requests and valid request byte strings.
pub proof fn lemma_request_decode_then_encode(s: Seq<u8>)
    requires
        spec_decode_request(s) is Some,
    ensures
        spec_encode_request(spec_decode_request(s)->Some_0) == s,
{
    lemma_auto_spec_u64_to_from_le_bytes();
    let r = spec_decode_request(s)->Some_0;
    let t = spec_encode_request(r);
    assert(s.subrange(0, 8).len() == 8 && s.subrange(8, 16).len() == 8 && s.subrange(17, 25).len()
        == 8);
    assert(op_tag(r.operation) == s[16]) by {
        lemma_op_tag_round_trip(r.operation);
    }
    assert(enc_u64(r.arguments.len() as u64) =~= s.subrange(17, 25));
    assert forall|i: int| 0 <= i < t.len() implies t[i] == s[i] by {
        if i < 8 {
            assert(t[i] == s.subrange(0, 8)[i]);
        } else if i < 16 {
            assert(t[i] == s.subrange(8, 16)[i - 8]);
        } else if i == 16 {
        } else if i < 25 {
            assert(t[i] == s.subrange(17, 25)[i - 17]);
        } else {
            assert(t[i] == s.subrange(25, s.len() as int)[i - 25]);
        }
    }
    assert(t =~= s);
}

/// Encodes a request.
pub fn encode_request(r: &Request) -> (out: Vec<u8>)
    ensures
        out@ == spec_encode_request(r@),
{
    let mut out: Vec<u8> = Vec::new();
    push_u64(&mut out, r.auth_token);
    push_u64(&mut out, r.sequence_number);
    out.push(op_tag_exec(r.operation));
    push_bytes(&mut out, &r.arguments);
    proof {
        assert(out@ =~= spec_encode_request(r@));
    }
    out
}

/// Decodes a request, rejecting every byte string that no well-formed
/// request encodes to.
pub fn decode_request(s: &[u8]) -> (r: Option<Request>)
    ensures
        opt_view(r) == spec_decode_request(s@),
{
    if s.len() < 25 {
        return None;
    }
    let tag_byte = *slice_index_get(s, 16);
    let alen = read_u64_at(s, 17);
    let rest = s.len() - 25;
    if alen != rest as u64 {
        return None;
    }
    match tag_op_exec(tag_byte) {
        None => None,
        Some(op) => {
            let arguments = read_vec_at(s, 25, rest);
            let req = Request {
                auth_token: read_u64_at(s, 0),
                sequence_number: read_u64_at(s, 8),
                operation: op,
                arguments,
            };
            proof {
                assert(req@ =~= spec_decode_request(s@)->Some_0);
            }
            Some(req)
        },
    }
}

// ---------------------------------------------------------------------------
// Response envelope
// ---------------------------------------------------------------------------

/// A response view whose data payload is short enough for a length prefix.
pub open spec fn wf_response(r: ResponseView) -> bool {
    r.data.len() <= u64::MAX
}

/// Encoding of a response: sequence number, status byte, then the
/// length-prefixed data payload.
pub open spec fn spec_encode_response(r: ResponseView) -> Seq<u8> {
    enc_u64(r.sequence_number) + seq![r.status] + enc_bytes(r.data)
}

/// The response a byte string encodes, if any.
pub open spec fn spec_decode_response(s: Seq<u8>) -> Option<ResponseView> {
    if s.len() < 17 {
        None
    } else {
        let dlen = dec_u64_at(s, 9);
        if dlen == s.len() - 17 {
            Some(
                ResponseView {
                    sequence_number: dec_u64_at(s, 0),
                    status: s[8],
                    data: s.subrange(17, s.len() as int),
                },
            )
        } else {
            None
        }
    }
}

/// Decoding inverts encoding on every well-formed response.
pub proof fn lemma_response_round_trip(r: ResponseView)
    requires
        wf_response(r),
    ensures
        spec_decode_response(spec_encode_response(r)) == Some(r),
{
    lemma_auto_spec_u64_to_from_le_bytes();
    let s = spec_encode_response(r);
    assert(s.len() == 17 + r.data.len());
    assert(s.subrange(0, 8) =~= enc_u64(r.sequence_number));
    assert(s[8] == r.status);
    assert(s.subrange(9, 17) =~= enc_u64(r.data.len() as u64));
    assert(s.subrange(17, s.len() as int) =~= r.data);
    assert(spec_decode_response(s)->Some_0 =~= r);
}

/// Encoding inverts decoding on every byte string that decodes, the other
/// half of the bijection for responses.
pub proof fn lemma_response_decode_then_encode(s: Seq<u8>)
    requires
        spec_decode_response(s) is Some,
    ensures
        spec_encode_response(spec_decode_response(s)->Some_0) == s,
{
    lemma_auto_spec_u64_to_from_le_bytes();
    let r = spec_decode_response(s)->Some_0;
    let t = spec_encode_response(r);
    assert(s.subrange(0, 8).len() == 8 && s.subrange(9, 17).len() == 8);
    assert(enc_u64(r.data.len() as u64) =~= s.subrange(9, 17));
    assert forall|i: int| 0 <= i < t.len() implies t[i] == s[i] by {
        if i < 8 {
            assert(t[i] == s.subrange(0, 8)[i]);
        } else if i == 8 {
        } else if i < 17 {
            assert(t[i] == s.subrange(9, 17)[i - 9]);
        } else {
            assert(t[i] == s.subrange(17, s.len() as int)[i - 17]);
        }
    }
    assert(t =~= s);
}

/// Encodes a response.
pub fn encode_response(r: &Response) -> (out: Vec<u8>)
    ensures
        out@ == spec_encode_response(r@),
{
    let mut out: Vec<u8> = Vec::new();
    push_u64(&mut out, r.sequence_number);
    out.push(r.status);
    push_bytes(&mut out, &r.data);
    proof {
        assert(out@ =~= spec_encode_response(r@));
    }
    out
}

/// Decodes a response.
pub fn decode_response(s: &[u8]) -> (r: Option<Response>)
    ensures
        opt_view(r) == spec_decode_response(s@),
{
    if s.len() < 17 {
        return None;
    }
    let dlen = read_u64_at(s, 9);
    let rest = s.len() - 17;
    if dlen != rest as u64 {
        return None;
    }
    let data = read_vec_at(s, 17, rest);
    let resp = Response {
        sequence_number: read_u64_at(s, 0),
        status: *slice_index_get(s, 8),
        data,
    };
    proof {
        assert(resp@ =~= spec_decode_response(s@)->Some_0);
    }
    Some(resp)
}

// ---------------------------------------------------------------------------
// Open
// ---------------------------------------------------------------------------

/// An open-arguments view whose byte strings are short enough for length
/// prefixes.
pub open spec fn wf_open_args(a: OpenArgsView) -> bool {
    a.pathname.len() <= u64::MAX && a.mode.len() <= u64::MAX
}

/// Encoding of open arguments: the length-prefixed pathname, then the
/// length-prefixed mode.
pub open spec fn spec_encode_open_args(a: OpenArgsView) -> Seq<u8> {
    enc_bytes(a.pathname) + enc_bytes(a.mode)
}

/// The open arguments a byte string encodes, if any.
pub open spec fn spec_decode_open_args(s: Seq<u8>) -> Option<OpenArgsView> {
    if s.len() < 8 {
        None
    } else {
        let plen = dec_u64_at(s, 0) as int;
        if 16 + plen > s.len() {
            None
        } else {
            let mlen = dec_u64_at(s, 8 + plen) as int;
            if s.len() == 16 + plen + mlen {
                Some(
                    OpenArgsView {
                        pathname: s.subrange(8, 8 + plen),
                        mode: s.subrange(16 + plen, s.len() as int),
                    },
                )
            } else {
                None
            }
        }
    }
}

/// Decoding inverts encoding on every well-formed open-arguments value.
pub proof fn lemma_open_args_round_trip(a: OpenArgsView)
    requires
        wf_open_args(a),
    ensures
        spec_decode_open_args(spec_encode_open_args(a)) == Some(a),
{
    lemma_auto_spec_u64_to_from_le_bytes();
    let s = spec_encode_open_args(a);
    let p = a.pathname.len() as int;
    let m = a.mode.len() as int;
    assert(s.len() == 16 + p + m);
    assert(s.subrange(0, 8) =~= enc_u64(a.pathname.len() as u64));
    assert(s.subrange(8, 8 + p) =~= a.pathname);
    assert(s.subrange(8 + p, 16 + p) =~= enc_u64(a.mode.len() as u64));
    assert(s.subrange(16 + p, s.len() as int) =~= a.mode);
    assert(spec_decode_open_args(s)->Some_0 =~= a);
}

/// Encodes open arguments.
pub fn encode_open_args(a: &OpenArgs) -> (out: Vec<u8>)
    ensures
        out@ == spec_encode_open_args(a@),
{
    let mut out: Vec<u8> = Vec::new();
    push_bytes(&mut out, &a.pathname);
    push_bytes(&mut out, &a.mode);
    proof {
        assert(out@ =~= spec_encode_open_args(a@));
    }
    out
}

/// Decodes open arguments.
pub fn decode_open_args(s: &[u8]) -> (r: Option<OpenArgs>)
    ensures
        opt_view(r) == spec_decode_open_args(s@),
{
    let n = s.len();
    if n < 8 {
        return None;
    }
    let plen = read_u64_at(s, 0);
    if n < 16 || plen > (n - 16) as u64 {
        return None;
    }
    let p = plen as usize;
    let mlen = read_u64_at(s, 8 + p);
    if mlen != (n - 16 - p) as u64 {
        return None;
    }
    let args = OpenArgs {
        pathname: read_vec_at(s, 8, p),
        mode: read_vec_at(s, 16 + p, n - 16 - p),
    };
    proof {
        assert(args@ =~= spec_decode_open_args(s@)->Some_0);
    }
    Some(args)
}

/// Encoding of an open reply: the handle, then the result code.
pub open spec fn spec_encode_open_reply(r: OpenReply) -> Seq<u8> {
    enc_u64(r.file_id) + enc_i32(r.result)
}

/// The open reply a byte string encodes, if any.
pub open spec fn spec_decode_open_reply(s: Seq<u8>) -> Option<OpenReply> {
    if s.len() == 12 {
        Some(OpenReply { file_id: dec_u64_at(s, 0), result: dec_i32_at(s, 8) })
    } else {
        None
    }
}

/// Decoding inverts encoding on every open reply.
pub proof fn lemma_open_reply_round_trip(r: OpenReply)
    ensures
        spec_decode_open_reply(spec_encode_open_reply(r)) == Some(r),
{
    lemma_auto_spec_u64_to_from_le_bytes();
    lemma_auto_spec_u32_to_from_le_bytes();
    lemma_i32_cast_round_trip(r.result);
    let s = spec_encode_open_reply(r);
    assert(s.subrange(0, 8) =~= enc_u64(r.file_id));
    assert(s.subrange(8, 12) =~= enc_u32(r.result as u32));
}

/// Encodes an open reply.
pub fn encode_open_reply(r: &OpenReply) -> (out: Vec<u8>)
    ensures
        out@ == spec_encode_open_reply(*r),
{
    let mut out: Vec<u8> = Vec::new();
    push_u64(&mut out, r.file_id);
    push_i32(&mut out, r.result);
    proof {
        assert(out@ =~= spec_encode_open_reply(*r));
    }
    out
}

/// Decodes an open reply.
pub fn decode_open_reply(s: &[u8]) -> (r: Option<OpenReply>)
    ensures
        r == spec_decode_open_reply(s@),
{
    if s.len() != 12 {
        return None;
    }
    Some(OpenReply { file_id: read_u64_at(s, 0), result: read_u32_at(s, 8) as i32 })
}

// ---------------------------------------------------------------------------
// Read
// ---------------------------------------------------------------------------

/// Encoding of read arguments: the handle, then the count as a u64.
pub open spec fn spec_encode_read_args(a: ReadArgs) -> Seq<u8> {
    enc_u64(a.file_id) + enc_u64(a.count as u64)
}

/// The read arguments a byte string encodes, if any. A count too large for
/// this machine's sizes is rejected.
pub open spec fn spec_decode_read_args(s: Seq<u8>) -> Option<ReadArgs> {
    if s.len() == 16 && dec_u64_at(s, 8) <= usize::MAX {
        Some(ReadArgs { file_id: dec_u64_at(s, 0), count: dec_u64_at(s, 8) as usize })
    } else {
        None
    }
}

/// Decoding inverts encoding on every read-arguments value.
pub proof fn lemma_read_args_round_trip(a: ReadArgs)
    ensures
        spec_decode_read_args(spec_encode_read_args(a)) == Some(a),
{
    lemma_auto_spec_u64_to_from_le_bytes();
    let s = spec_encode_read_args(a);
    assert(s.subrange(0, 8) =~= enc_u64(a.file_id));
    assert(s.subrange(8, 16) =~= enc_u64(a.count as u64));
}

/// Encodes read arguments.
pub fn encode_read_args(a: &ReadArgs) -> (out: Vec<u8>)
    ensures
        out@ == spec_encode_read_args(*a),
{
    let mut out: Vec<u8> = Vec::new();
    push_u64(&mut out, a.file_id);
    push_u64(&mut out, a.count as u64);
    proof {
        assert(out@ =~= spec_encode_read_args(*a));
    }
    out
}

/// Decodes read arguments.
pub fn decode_read_args(s: &[u8]) -> (r: Option<ReadArgs>)
    ensures
        r == spec_decode_read_args(s@),
{
    if s.len() != 16 {
        return None;
    }
    let count = read_u64_at(s, 8);
    if count > usize::MAX as u64 {
        return None;
    }
    Some(ReadArgs { file_id: read_u64_at(s, 0), count: count as usize })
}

/// A read-reply view whose data is short enough for a length prefix.
pub open spec fn wf_read_reply(r: ReadReplyView) -> bool {
    r.data.len() <= u64::MAX
}

/// Encoding of a read reply: the length-prefixed data, the byte count, then
/// the result code.
pub open spec fn spec_encode_read_reply(r: ReadReplyView) -> Seq<u8> {
    enc_bytes(r.data) + enc_u64(r.bytes_read as u64) + enc_i32(r.result)
}

/// The read reply a byte string encodes, if any.
pub open spec fn spec_decode_read_reply(s: Seq<u8>) -> Option<ReadReplyView> {
    if s.len() < 8 {
        None
    } else {
        let dlen = dec_u64_at(s, 0) as int;
        if s.len() == 20 + dlen && dec_u64_at(s, 8 + dlen) <= usize::MAX {
            Some(
                ReadReplyView {
                    data: s.subrange(8, 8 + dlen),
                    bytes_read: dec_u64_at(s, 8 + dlen) as usize,
                    result: dec_i32_at(s, 16 + dlen),
                },
            )
        } else {
            None
        }
    }
}

/// Decoding inverts encoding on every well-formed read reply.
pub proof fn lemma_read_reply_round_trip(r: ReadReplyView)
    requires
        wf_read_reply(r),
    ensures
        spec_decode_read_reply(spec_encode_read_reply(r)) == Some(r),
{
    lemma_auto_spec_u64_to_from_le_bytes();
    lemma_auto_spec_u32_to_from_le_bytes();
    lemma_i32_cast_round_trip(r.result);
    let s = spec_encode_read_reply(r);
    let d = r.data.len() as int;
    assert(s.len() == 20 + d);
    assert(s.subrange(0, 8) =~= enc_u64(r.data.len() as u64));
    assert(s.subrange(8, 8 + d) =~= r.data);
    assert(s.subrange(8 + d, 16 + d) =~= enc_u64(r.bytes_read as u64));
    assert(s.subrange(16 + d, 20 + d) =~= enc_u32(r.result as u32));
    assert(spec_decode_read_reply(s)->Some_0 =~= r);
}

/// Encodes a read reply.
pub fn encode_read_reply(r: &ReadReply) -> (out: Vec<u8>)
    ensures
        out@ == spec_encode_read_reply(r@),
{
    let mut out: Vec<u8> = Vec::new();
    push_bytes(&mut out, &r.data);
    push_u64(&mut out, r.bytes_read as u64);
    push_i32(&mut out, r.result);
    proof {
        assert(out@ =~= spec_encode_read_reply(r@));
    }
    out
}

/// Decodes a read reply.
pub fn decode_read_reply(s: &[u8]) -> (r: Option<ReadReply>)
    ensures
        opt_view(r) == spec_decode_read_reply(s@),
{
    let n = s.len();
    if n < 8 {
        return None;
    }
    let dlen = read_u64_at(s, 0);
    if n < 20 || dlen != (n - 20) as u64 {
        return None;
    }
    let d = dlen as usize;
    let bytes_read = read_u64_at(s, 8 + d);
    if bytes_read > usize::MAX as u64 {
        return None;
    }
    let reply = ReadReply {
        data: read_vec_at(s, 8, d),
        bytes_read: bytes_read as usize,
        result: read_u32_at(s, 16 + d) as i32,
    };
    proof {
        assert(reply@ =~= spec_decode_read_reply(s@)->Some_0);
    }
    Some(reply)
}

// ---------------------------------------------------------------------------
// Write
// ---------------------------------------------------------------------------

/// A write-arguments view whose data is short enough for a length prefix.
pub open spec fn wf_write_args(a: WriteArgsView) -> bool {
    a.data.len() <= u64::MAX
}

/// Encoding of write arguments: the handle, then the length-prefixed data.
pub open spec fn spec_encode_write_args(a: WriteArgsView) -> Seq<u8> {
    enc_u64(a.file_id) + enc_bytes(a.data)
}

/// The write arguments a byte string encodes, if any.
pub open spec fn spec_decode_write_args(s: Seq<u8>) -> Option<WriteArgsView> {
    if s.len() < 16 {
        None
    } else {
        let dlen = dec_u64_at(s, 8) as int;
        if s.len() == 16 + dlen {
            Some(
                WriteArgsView {
                    file_id: dec_u64_at(s, 0),
                    data: s.subrange(16, s.len() as int),
                },
            )
        } else {
            None
        }
    }
}

/// Decoding inverts encoding on every well-formed write-arguments value.
pub proof fn lemma_write_args_round_trip(a: WriteArgsView)
    requires
        wf_write_args(a),
    ensures
        spec_decode_write_args(spec_encode_write_args(a)) == Some(a),
{
    lemma_auto_spec_u64_to_from_le_bytes();
    let s = spec_encode_write_args(a);
    let d = a.data.len() as int;
    assert(s.len() == 16 + d);
    assert(s.subrange(0, 8) =~= enc_u64(a.file_id));
    assert(s.subrange(8, 16) =~= enc_u64(a.data.len() as u64));
    assert(s.subrange(16, s.len() as int) =~= a.data);
    assert(spec_decode_write_args(s)->Some_0 =~= a);
}

/// Encodes write arguments.
pub fn encode_write_args(a: &WriteArgs) -> (out: Vec<u8>)
    ensures
        out@ == spec_encode_write_args(a@),
{
    let mut out: Vec<u8> = Vec::new();
    push_u64(&mut out, a.file_id);
    push_bytes(&mut out, &a.data);
    proof {
        assert(out@ =~= spec_encode_write_args(a@));
    }
    out
}

/// Decodes write arguments.
pub fn decode_write_args(s: &[u8]) -> (r: Option<WriteArgs>)
    ensures
        opt_view(r) == spec_decode_write_args(s@),
{
    let n = s.len();
    if n < 16 {
        return None;
    }
    let dlen = read_u64_at(s, 8);
    if dlen != (n - 16) as u64 {
        return None;
    }
    let args = WriteArgs { file_id: read_u64_at(s, 0), data: read_vec_at(s, 16, n - 16) };
    proof {
        assert(args@ =~= spec_decode_write_args(s@)->Some_0);
    }
    Some(args)
}

/// Encoding of a write reply: the byte count, then the result code.
pub open spec fn spec_encode_write_reply(r: WriteReply) -> Seq<u8> {
    enc_u64(r.bytes_written as u64) + enc_i32(r.result)
}

/// The write reply a byte string encodes, if any.
pub open spec fn spec_decode_write_reply(s: Seq<u8>) -> Option<WriteReply> {
    if s.len() == 12 && dec_u64_at(s, 0) <= usize::MAX {
        Some(WriteReply { bytes_written: dec_u64_at(s, 0) as usize, result: dec_i32_at(s, 8) })
    } else {
        None
    }
}

/// Decoding inverts encoding on every write reply.
pub proof fn lemma_write_reply_round_trip(r: WriteReply)
    ensures
        spec_decode_write_reply(spec_encode_write_reply(r)) == Some(r),
{
    lemma_auto_spec_u64_to_from_le_bytes();
    lemma_auto_spec_u32_to_from_le_bytes();
    lemma_i32_cast_round_trip(r.result);
    let s = spec_encode_write_reply(r);
    assert(s.subrange(0, 8) =~= enc_u64(r.bytes_written as u64));
    assert(s.subrange(8, 12) =~= enc_u32(r.result as u32));
}

/// Encodes a write reply.
pub fn encode_write_reply(r: &WriteReply) -> (out: Vec<u8>)
    ensures
        out@ == spec_encode_write_reply(*r),
{
    let mut out: Vec<u8> = Vec::new();
    push_u64(&mut out, r.bytes_written as u64);
    push_i32(&mut out, r.result);
    proof {
        assert(out@ =~= spec_encode_write_reply(*r));
    }
    out
}

/// Decodes a write reply.
pub fn decode_write_reply(s: &[u8]) -> (r: Option<WriteReply>)
    ensures
        r == spec_decode_write_reply(s@),
{
    if s.len() != 12 {
        return None;
    }
    let bytes_written = read_u64_at(s, 0);
    if bytes_written > usize::MAX as u64 {
        return None;
    }
    Some(WriteReply { bytes_written: bytes_written as usize, result: read_u32_at(s, 8) as i32 })
}

// ---------------------------------------------------------------------------
// Lseek
// ---------------------------------------------------------------------------

/// Encoding of seek arguments: the handle, the signed offset, then the
/// origin selector.
pub open spec fn spec_encode_lseek_args(a: LseekArgs) -> Seq<u8> {
    enc_u64(a.file_id) + enc_i64(a.offset) + enc_i32(a.whence)
}

/// The seek arguments a byte string encodes, if any.
pub open spec fn spec_decode_lseek_args(s: Seq<u8>) -> Option<LseekArgs> {
    if s.len() == 20 {
        Some(
            LseekArgs {
                file_id: dec_u64_at(s, 0),
                offset: dec_i64_at(s, 8),
                whence: dec_i32_at(s, 16),
            },
        )
    } else {
        None
    }
}

/// Decoding inverts encoding on every seek-arguments value.
pub proof fn lemma_lseek_args_round_trip(a: LseekArgs)
    ensures
        spec_decode_lseek_args(spec_encode_lseek_args(a)) == Some(a),
{
    lemma_auto_spec_u64_to_from_le_bytes();
    lemma_auto_spec_u32_to_from_le_bytes();
    lemma_i64_cast_round_trip(a.offset);
    lemma_i32_cast_round_trip(a.whence);
    let s = spec_encode_lseek_args(a);
    assert(s.subrange(0, 8) =~= enc_u64(a.file_id));
    assert(s.subrange(8, 16) =~= enc_u64(a.offset as u64));
    assert(s.subrange(16, 20) =~= enc_u32(a.whence as u32));
}

/// Encodes seek arguments.
pub fn encode_lseek_args(a: &LseekArgs) -> (out: Vec<u8>)
    ensures
        out@ == spec_encode_lseek_args(*a),
{
    let mut out: Vec<u8> = Vec::new();
    push_u64(&mut out, a.file_id);
    push_i64(&mut out, a.offset);
    push_i32(&mut out, a.whence);
    proof {
        assert(out@ =~= spec_encode_lseek_args(*a));
    }
    out
}

/// Decodes seek arguments.
pub fn decode_lseek_args(s: &[u8]) -> (r: Option<LseekArgs>)
    ensures
        r == spec_decode_lseek_args(s@),
{
    if s.len() != 20 {
        return None;
    }
    Some(
        LseekArgs {
            file_id: read_u64_at(s, 0),
            offset: read_u64_at(s, 8) as i64,
            whence: read_u32_at(s, 16) as i32,
        },
    )
}

/// Encoding of a seek reply: the new position, then the result code.
pub open spec fn spec_encode_lseek_reply(r: LseekReply) -> Seq<u8> {
    enc_u64(r.offset) + enc_i32(r.result)
}

/// The seek reply a byte string encodes, if any.
pub open spec fn spec_decode_lseek_reply(s: Seq<u8>) -> Option<LseekReply> {
    if s.len() == 12 {
        Some(LseekReply { offset: dec_u64_at(s, 0), result: dec_i32_at(s, 8) })
    } else {
        None
    }
}

/// Decoding inverts encoding on every seek reply.
pub proof fn lemma_lseek_reply_round_trip(r: LseekReply)
    ensures
        spec_decode_lseek_reply(spec_encode_lseek_reply(r)) == Some(r),
{
    lemma_auto_spec_u64_to_from_le_bytes();
    lemma_auto_spec_u32_to_from_le_bytes();
    lemma_i32_cast_round_trip(r.result);
    let s = spec_encode_lseek_reply(r);
    assert(s.subrange(0, 8) =~= enc_u64(r.offset));
    assert(s.subrange(8, 12) =~= enc_u32(r.result as u32));
}

/// Encodes a seek reply.
pub fn encode_lseek_reply(r: &LseekReply) -> (out: Vec<u8>)
    ensures
        out@ == spec_encode_lseek_reply(*r),
{
    let mut out: Vec<u8> = Vec::new();
    push_u64(&mut out, r.offset);
    push_i32(&mut out, r.result);
    proof {
        assert(out@ =~= spec_encode_lseek_reply(*r));
    }
    out
}

/// Decodes a seek reply.
pub fn decode_lseek_reply(s: &[u8]) -> (r: Option<LseekReply>)
    ensures
        r == spec_decode_lseek_reply(s@),
{
    if s.len() != 12 {
        return None;
    }
    Some(LseekReply { offset: read_u64_at(s, 0), result: read_u32_at(s, 8) as i32 })
}

// ---------------------------------------------------------------------------
// Chmod, Unlink, Rename, SimpleReply
// ---------------------------------------------------------------------------

/// A chmod-arguments view whose pathname is short enough for a length prefix.
pub open spec fn wf_chmod_args(a: ChmodArgsView) -> bool {
    a.pathname.len() <= u64::MAX
}

/// Encoding of chmod arguments: the length-prefixed pathname, then the
/// permission bits.
pub open spec fn spec_encode_chmod_args(a: ChmodArgsView) -> Seq<u8> {
    enc_bytes(a.pathname) + enc_u32(a.mode)
}

/// The chmod arguments a byte string encodes, if any.
pub open spec fn spec_decode_chmod_args(s: Seq<u8>) -> Option<ChmodArgsView> {
    if s.len() < 8 {
        None
    } else {
        let plen = dec_u64_at(s, 0) as int;
        if s.len() == 12 + plen {
            Some(
                ChmodArgsView { pathname: s.subrange(8, 8 + plen), mode: dec_u32_at(s, 8 + plen) },
            )
        } else {
            None
        }
    }
}

/// Decoding inverts encoding on every well-formed chmod-arguments value.
pub proof fn lemma_chmod_args_round_trip(a: ChmodArgsView)
    requires
        wf_chmod_args(a),
    ensures
        spec_decode_chmod_args(spec_encode_chmod_args(a)) == Some(a),
{
    lemma_auto_spec_u64_to_from_le_bytes();
    lemma_auto_spec_u32_to_from_le_bytes();
    let s = spec_encode_chmod_args(a);
    let p = a.pathname.len() as int;
    assert(s.len() == 12 + p);
    assert(s.subrange(0, 8) =~= enc_u64(a.pathname.len() as u64));
    assert(s.subrange(8, 8 + p) =~= a.pathname);
    assert(s.subrange(8 + p, 12 + p) =~= enc_u32(a.mode));
    assert(spec_decode_chmod_args(s)->Some_0 =~= a);
}

/// Encodes chmod arguments.
pub fn encode_chmod_args(a: &ChmodArgs) -> (out: Vec<u8>)
    ensures
        out@ == spec_encode_chmod_args(a@),
{
    let mut out: Vec<u8> = Vec::new();
    push_bytes(&mut out, &a.pathname);
    push_u32(&mut out, a.mode);
    proof {
        assert(out@ =~= spec_encode_chmod_args(a@));
    }
    out
}

/// Decodes chmod arguments.
pub fn decode_chmod_args(s: &[u8]) -> (r: Option<ChmodArgs>)
    ensures
        opt_view(r) == spec_decode_chmod_args(s@),
{
    let n = s.len();
    if n < 8 {
        return None;
    }
    let plen = read_u64_at(s, 0);
    if n < 12 || plen != (n - 12) as u64 {
        return None;
    }
    let p = plen as usize;
    let args = ChmodArgs { pathname: read_vec_at(s, 8, p), mode: read_u32_at(s, 8 + p) };
    proof {
        assert(args@ =~= spec_decode_chmod_args(s@)->Some_0);
    }
    Some(args)
}

/// An unlink-arguments view whose pathname is short enough for a length
/// prefix.
pub open spec fn wf_unlink_args(a: UnlinkArgsView) -> bool {
    a.pathname.len() <= u64::MAX
}

/// Encoding of unlink arguments: the length-prefixed pathname.
pub open spec fn spec_encode_unlink_args(a: UnlinkArgsView) -> Seq<u8> {
    enc_bytes(a.pathname)
}

/// The unlink arguments a byte string encodes, if any.
pub open spec fn spec_decode_unlink_args(s: Seq<u8>) -> Option<UnlinkArgsView> {
    if s.len() < 8 {
        None
    } else {
        let plen = dec_u64_at(s, 0) as int;
        if s.len() == 8 + plen {
            Some(UnlinkArgsView { pathname: s.subrange(8, s.len() as int) })
        } else {
            None
        }
    }
}

/// Decoding inverts encoding on every well-formed unlink-arguments value.
pub proof fn lemma_unlink_args_round_trip(a: UnlinkArgsView)
    requires
        wf_unlink_args(a),
    ensures
        spec_decode_unlink_args(spec_encode_unlink_args(a)) == Some(a),
{
    lemma_auto_spec_u64_to_from_le_bytes();
    let s = spec_encode_unlink_args(a);
    let p = a.pathname.len() as int;
    assert(s.len() == 8 + p);
    assert(s.subrange(0, 8) =~= enc_u64(a.pathname.len() as u64));
    assert(s.subrange(8, s.len() as int) =~= a.pathname);
    assert(spec_decode_unlink_args(s)->Some_0 =~= a);
}

/// Encodes unlink arguments.
pub fn encode_unlink_args(a: &UnlinkArgs) -> (out: Vec<u8>)
    ensures
        out@ == spec_encode_unlink_args(a@),
{
    let mut out: Vec<u8> = Vec::new();
    push_bytes(&mut out, &a.pathname);
    out
}

/// Decodes unlink arguments.
pub fn decode_unlink_args(s: &[u8]) -> (r: Option<UnlinkArgs>)
    ensures
        opt_view(r) == spec_decode_unlink_args(s@),
{
    let n = s.len();
    if n < 8 {
        return None;
    }
    let plen = read_u64_at(s, 0);
    if plen != (n - 8) as u64 {
        return None;
    }
    let args = UnlinkArgs { pathname: read_vec_at(s, 8, n - 8) };
    proof {
        assert(args@ =~= spec_decode_unlink_args(s@)->Some_0);
    }
    Some(args)
}

/// A rename-arguments view whose pathnames are short enough for length
/// prefixes.
pub open spec fn wf_rename_args(a: RenameArgsView) -> bool {
    a.oldpath.len() <= u64::MAX && a.newpath.len() <= u64::MAX
}

/// Encoding of rename arguments: the length-prefixed old path, then the
/// length-prefixed new path.
pub open spec fn spec_encode_rename_args(a: RenameArgsView) -> Seq<u8> {
    enc_bytes(a.oldpath) + enc_bytes(a.newpath)
}

/// The rename arguments a byte string encodes, if any.
pub open spec fn spec_decode_rename_args(s: Seq<u8>) -> Option<RenameArgsView> {
    if s.len() < 8 {
        None
    } else {
        let olen = dec_u64_at(s, 0) as int;
        if 16 + olen > s.len() {
            None
        } else {
            let nlen = dec_u64_at(s, 8 + olen) as int;
            if s.len() == 16 + olen + nlen {
                Some(
                    RenameArgsView {
                        oldpath: s.subrange(8, 8 + olen),
                        newpath: s.subrange(16 + olen, s.len() as int),
                    },
                )
            } else {
                None
            }
        }
    }
}

/// Decoding inverts encoding on every well-formed rename-arguments value.
pub proof fn lemma_rename_args_round_trip(a: RenameArgsView)
    requires
        wf_rename_args(a),
    ensures
        spec_decode_rename_args(spec_encode_rename_args(a)) == Some(a),
{
    lemma_auto_spec_u64_to_from_le_bytes();
    let s = spec_encode_rename_args(a);
    let p = a.oldpath.len() as int;
    let m = a.newpath.len() as int;
    assert(s.len() == 16 + p + m);
    assert(s.subrange(0, 8) =~= enc_u64(a.oldpath.len() as u64));
    assert(s.subrange(8, 8 + p) =~= a.oldpath);
    assert(s.subrange(8 + p, 16 + p) =~= enc_u64(a.newpath.len() as u64));
    assert(s.subrange(16 + p, s.len() as int) =~= a.newpath);
    assert(spec_decode_rename_args(s)->Some_0 =~= a);
}

/// Encodes rename arguments.
pub fn encode_rename_args(a: &RenameArgs) -> (out: Vec<u8>)
    ensures
        out@ == spec_encode_rename_args(a@),
{
    let mut out: Vec<u8> = Vec::new();
    push_bytes(&mut out, &a.oldpath);
    push_bytes(&mut out, &a.newpath);
    proof {
        assert(out@ =~= spec_encode_rename_args(a@));
    }
    out
}

/// Decodes rename arguments.
pub fn decode_rename_args(s: &[u8]) -> (r: Option<RenameArgs>)
    ensures
        opt_view(r) == spec_decode_rename_args(s@),
{
    let n = s.len();
    if n < 8 {
        return None;
    }
    let olen = read_u64_at(s, 0);
    if n < 16 || olen > (n - 16) as u64 {
        return None;
    }
    let p = olen as usize;
    let nlen = read_u64_at(s, 8 + p);
    if nlen != (n - 16 - p) as u64 {
        return None;
    }
    let args = RenameArgs {
        oldpath: read_vec_at(s, 8, p),
        newpath: read_vec_at(s, 16 + p, n - 16 - p),
    };
    proof {
        assert(args@ =~= spec_decode_rename_args(s@)->Some_0);
    }
    Some(args)
}

/// Encoding of a simple reply: only the result code.
pub open spec fn spec_encode_simple_reply(r: SimpleReply) -> Seq<u8> {
    enc_i32(r.result)
}

/// The simple reply a byte string encodes, if any.
pub open spec fn spec_decode_simple_reply(s: Seq<u8>) -> Option<SimpleReply> {
    if s.len() == 4 {
        Some(SimpleReply { result: dec_i32_at(s, 0) })
    } else {
        None
    }
}

/// Decoding inverts encoding on every simple reply.
pub proof fn lemma_simple_reply_round_trip(r: SimpleReply)
    ensures
        spec_decode_simple_reply(spec_encode_simple_reply(r)) == Some(r),
{
    lemma_auto_spec_u32_to_from_le_bytes();
    lemma_i32_cast_round_trip(r.result);
    let s = spec_encode_simple_reply(r);
    assert(s.subrange(0, 4) =~= enc_u32(r.result as u32));
}

/// Encodes a simple reply.
pub fn encode_simple_reply(r: &SimpleReply) -> (out: Vec<u8>)
    ensures
        out@ == spec_encode_simple_reply(*r),
{
    let mut out: Vec<u8> = Vec::new();
    push_i32(&mut out, r.result);
    out
}

/// Decodes a simple reply.
pub fn decode_simple_reply(s: &[u8]) -> (r: Option<SimpleReply>)
    ensures
        r == spec_decode_simple_reply(s@),
{
    if s.len() != 4 {
        return None;
    }
    Some(SimpleReply { result: read_u32_at(s, 0) as i32 })
}

} // verus!
