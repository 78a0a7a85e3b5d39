//! The client side: building requests under a session's token, matching a
//! response to the request it answers, reading each kind of reply, and the
//! retry discipline of one repeat after a failed attempt.
//!
//! Sending and receiving datagrams is the embedding program's work; every
//! decision the client makes about bytes and replies is here, verified.

use vstd::prelude::*;
use crate::codec::{
    spec_decode_lseek_reply, spec_decode_open_reply, spec_decode_read_reply,
    spec_decode_response, spec_decode_simple_reply, spec_decode_write_reply,
    spec_encode_chmod_args, spec_encode_lseek_args, spec_encode_open_args, spec_encode_read_args,
    spec_encode_rename_args, spec_encode_unlink_args, spec_encode_write_args,
};
use crate::msg::{
    ChmodArgs, ChmodArgsView, LseekArgs, OpenArgs, OpenArgsView, Operation, ReadArgs, ReadReply,
    RenameArgs, RenameArgsView, Request, RequestView, Response, ResponseView, UnlinkArgs,
    UnlinkArgsView, WriteArgs, WriteArgsView,
};

verus! {

/// How a client call fails. Transport loss surfaces as `Timeout` after the
/// retry; a reply answering some other request is a `Mismatch`; bytes that
/// decode to no reply are `Malformed`; a handler that could not run is
/// `Failed`; and a handler that ran and refused carries its result code.
#[derive(Clone, Copy, PartialEq, Eq, Structural, Debug)]
pub enum ClientError {
    Timeout,
    Mismatch,
    Malformed,
    Failed,
    Os(i32),
}

/// One client session: the token stamped on every request it builds.
pub struct ClientSession {
    pub auth_token: u64,
}

impl ClientSession {
    /// A fresh session under a random token, as sessions are created.
    pub fn new() -> (r: Self) {
        ClientSession { auth_token: crate::rng::random_u64() }
    }

    /// A session under a chosen token.
    pub fn with_token(auth_token: u64) -> (r: Self)
        ensures
            r.auth_token == auth_token,
    {
        ClientSession { auth_token }
    }

    /// A request of this session carrying the given operation and payload
    /// under the given sequence number.
    pub fn build_request(&self, operation: Operation, arguments: Vec<u8>, seq: u64) -> (r:
        Request)
        ensures
            r@ == (RequestView {
                auth_token: self.auth_token,
                sequence_number: seq,
                operation,
                arguments: arguments@,
            }),
    {
        Request { auth_token: self.auth_token, sequence_number: seq, operation, arguments }
    }

    /// The Open request for a pathname and mode.
    pub fn open_request(&self, pathname: &Vec<u8>, mode: &Vec<u8>, seq: u64) -> (r: Request)
        ensures
            r@ == (RequestView {
                auth_token: self.auth_token,
                sequence_number: seq,
                operation: Operation::Open,
                arguments: spec_encode_open_args(
                    OpenArgsView { pathname: pathname@, mode: mode@ },
                ),
            }),
    {
        let args = OpenArgs {
            pathname: crate::server::clone_bytes(pathname),
            mode: crate::server::clone_bytes(mode),
        };
        self.build_request(Operation::Open, crate::codec::encode_open_args(&args), seq)
    }

    /// The Read request for a handle and byte count.
    pub fn read_request(&self, file_id: u64, count: usize, seq: u64) -> (r: Request)
        ensures
            r@ == (RequestView {
                auth_token: self.auth_token,
                sequence_number: seq,
                operation: Operation::Read,
                arguments: spec_encode_read_args(ReadArgs { file_id, count }),
            }),
    {
        let args = ReadArgs { file_id, count };
        self.build_request(Operation::Read, crate::codec::encode_read_args(&args), seq)
    }

    /// The Write request for a handle and the bytes to write.
    pub fn write_request(&self, file_id: u64, data: &Vec<u8>, seq: u64) -> (r: Request)
        ensures
            r@ == (RequestView {
                auth_token: self.auth_token,
                sequence_number: seq,
                operation: Operation::Write,
                arguments: spec_encode_write_args(WriteArgsView { file_id, data: data@ }),
            }),
    {
        let args = WriteArgs { file_id, data: crate::server::clone_bytes(data) };
        self.build_request(Operation::Write, crate::codec::encode_write_args(&args), seq)
    }

    /// The Lseek request for a handle, offset and origin.
    pub fn lseek_request(&self, file_id: u64, offset: i64, whence: i32, seq: u64) -> (r: Request)
        ensures
            r@ == (RequestView {
                auth_token: self.auth_token,
                sequence_number: seq,
                operation: Operation::Lseek,
                arguments: spec_encode_lseek_args(LseekArgs { file_id, offset, whence }),
            }),
    {
        let args = LseekArgs { file_id, offset, whence };
        self.build_request(Operation::Lseek, crate::codec::encode_lseek_args(&args), seq)
    }

    /// The Chmod request for a pathname and permission bits.
    pub fn chmod_request(&self, pathname: &Vec<u8>, mode: u32, seq: u64) -> (r: Request)
        ensures
            r@ == (RequestView {
                auth_token: self.auth_token,
                sequence_number: seq,
                operation: Operation::Chmod,
                arguments: spec_encode_chmod_args(ChmodArgsView { pathname: pathname@, mode }),
            }),
    {
        let args = ChmodArgs { pathname: crate::server::clone_bytes(pathname), mode };
        self.build_request(Operation::Chmod, crate::codec::encode_chmod_args(&args), seq)
    }

    /// The Unlink request for a pathname.
    pub fn unlink_request(&self, pathname: &Vec<u8>, seq: u64) -> (r: Request)
        ensures
            r@ == (RequestView {
                auth_token: self.auth_token,
                sequence_number: seq,
                operation: Operation::Unlink,
                arguments: spec_encode_unlink_args(UnlinkArgsView { pathname: pathname@ }),
            }),
    {
        let args = UnlinkArgs { pathname: crate::server::clone_bytes(pathname) };
        self.build_request(Operation::Unlink, crate::codec::encode_unlink_args(&args), seq)
    }

    /// The Rename request for an old and a new pathname.
    pub fn rename_request(&self, oldpath: &Vec<u8>, newpath: &Vec<u8>, seq: u64) -> (r: Request)
        ensures
            r@ == (RequestView {
                auth_token: self.auth_token,
                sequence_number: seq,
                operation: Operation::Rename,
                arguments: spec_encode_rename_args(
                    RenameArgsView { oldpath: oldpath@, newpath: newpath@ },
                ),
            }),
    {
        let args = RenameArgs {
            oldpath: crate::server::clone_bytes(oldpath),
            newpath: crate::server::clone_bytes(newpath),
        };
        self.build_request(Operation::Rename, crate::codec::encode_rename_args(&args), seq)
    }

    /// A fresh sequence number for the next request, drawn at random as the
    /// protocol's design has it; uniqueness is probabilistic, not guaranteed.
    pub fn fresh_sequence_number(&self) -> u64 {
        crate::rng::random_u64()
    }
}

/// What matching received bytes against an awaited sequence number yields:
/// bytes that decode to no response are `Malformed`; a response under any
/// other sequence number is a `Mismatch`; only the awaited response itself
/// comes back as success.
pub open spec fn spec_match_response(expected_seq: u64, bytes: Seq<u8>) -> Result<
    ResponseView,
    ClientError,
> {
    match spec_decode_response(bytes) {
        None => Err(ClientError::Malformed),
        Some(v) => if v.sequence_number == expected_seq {
            Ok(v)
        } else {
            Err(ClientError::Mismatch)
        },
    }
}

/// View of a response-or-error outcome.
pub open spec fn outcome_view(r: Result<Response, ClientError>) -> Result<
    ResponseView,
    ClientError,
> {
    match r {
        Ok(v) => Ok(v@),
        Err(e) => Err(e),
    }
}

/// Matches received bytes against the sequence number of the request just
/// sent.
pub fn match_response(expected_seq: u64, bytes: &[u8]) -> (r: Result<Response, ClientError>)
    ensures
        outcome_view(r) == spec_match_response(expected_seq, bytes@),
{
    match crate::codec::decode_response(bytes) {
        None => Err(ClientError::Malformed),
        Some(resp) => if resp.sequence_number == expected_seq {
            Ok(resp)
        } else {
            Err(ClientError::Mismatch)
        },
    }
}

/// What the two attempts of one request resolve to: the first success wins,
/// and two failures of any kind are a `Timeout`. A failed attempt covers
/// transport loss as well as a mismatched or malformed reply.
pub open spec fn spec_retry_outcome(
    first: Result<ResponseView, ClientError>,
    second: Result<ResponseView, ClientError>,
) -> Result<ResponseView, ClientError> {
    if first is Ok {
        first
    } else if second is Ok {
        second
    } else {
        Err(ClientError::Timeout)
    }
}

/// Resolves the outcomes of the initial attempt and the single retry.
pub fn retry_outcome(
    first: Result<Response, ClientError>,
    second: Result<Response, ClientError>,
) -> (r: Result<Response, ClientError>)
    ensures
        outcome_view(r) == spec_retry_outcome(outcome_view(first), outcome_view(second)),
{
    match first {
        Ok(resp) => Ok(resp),
        Err(_) => match second {
            Ok(resp) => Ok(resp),
            Err(_) => Err(ClientError::Timeout),
        },
    }
}

/// Losing one of the two attempts does not lose the call: where exactly one
/// attempt comes back matched, the call resolves to that attempt's
/// response. The server may still have executed a lost first attempt, so
/// the operation's effect is applied at least once, not exactly once.
pub proof fn lemma_retry_tolerates_one_loss(
    first: Result<ResponseView, ClientError>,
    second: Result<ResponseView, ClientError>,
)
    requires
        (first is Ok) != (second is Ok),
    ensures
        spec_retry_outcome(first, second) is Ok,
        first is Ok ==> spec_retry_outcome(first, second) == first,
        second is Ok ==> spec_retry_outcome(first, second) == second,
{
}

/// What an Open reply means to the caller: a handler that did not run is
/// `Failed`; reply bytes that decode to no open reply are `Malformed`; a
/// nonzero result code is the server's refusal; otherwise the fresh handle.
pub open spec fn spec_interpret_open_reply(resp: ResponseView) -> Result<u64, ClientError> {
    if resp.status != 0 {
        Err(ClientError::Failed)
    } else {
        match spec_decode_open_reply(resp.data) {
            None => Err(ClientError::Malformed),
            Some(rep) => if rep.result == 0 {
                Ok(rep.file_id)
            } else {
                Err(ClientError::Os(rep.result))
            },
        }
    }
}

/// Reads an Open reply out of a matched response.
pub fn interpret_open_reply(resp: &Response) -> (r: Result<u64, ClientError>)
    ensures
        r == spec_interpret_open_reply(resp@),
{
    if resp.status != 0 {
        return Err(ClientError::Failed);
    }
    match crate::codec::decode_open_reply(resp.data.as_slice()) {
        None => Err(ClientError::Malformed),
        Some(rep) => if rep.result == 0 {
            Ok(rep.file_id)
        } else {
            Err(ClientError::Os(rep.result))
        },
    }
}

/// What a Read reply means to the caller: as with Open, and a reply whose
/// data does not agree with its byte count is `Malformed` rather than
/// trusted.
pub open spec fn spec_interpret_read_reply(resp: ResponseView) -> Result<
    crate::msg::ReadReplyView,
    ClientError,
> {
    if resp.status != 0 {
        Err(ClientError::Failed)
    } else {
        match spec_decode_read_reply(resp.data) {
            None => Err(ClientError::Malformed),
            Some(rep) => if rep.result != 0 {
                Err(ClientError::Os(rep.result))
            } else if rep.data.len() != rep.bytes_read {
                Err(ClientError::Malformed)
            } else {
                Ok(rep)
            },
        }
    }
}

/// Reads a Read reply out of a matched response.
pub fn interpret_read_reply(resp: &Response) -> (r: Result<ReadReply, ClientError>)
    ensures
        match r {
            Ok(rep) => spec_interpret_read_reply(resp@) == Ok::<
                crate::msg::ReadReplyView,
                ClientError,
            >(rep@),
            Err(e) => spec_interpret_read_reply(resp@) == Err::<
                crate::msg::ReadReplyView,
                ClientError,
            >(e),
        },
{
    if resp.status != 0 {
        return Err(ClientError::Failed);
    }
    match crate::codec::decode_read_reply(resp.data.as_slice()) {
        None => Err(ClientError::Malformed),
        Some(rep) => if rep.result != 0 {
            Err(ClientError::Os(rep.result))
        } else if rep.data.len() != rep.bytes_read {
            Err(ClientError::Malformed)
        } else {
            Ok(rep)
        },
    }
}

/// What a Write reply means to the caller: the count of bytes written, or
/// the failure.
pub open spec fn spec_interpret_write_reply(resp: ResponseView) -> Result<usize, ClientError> {
    if resp.status != 0 {
        Err(ClientError::Failed)
    } else {
        match spec_decode_write_reply(resp.data) {
            None => Err(ClientError::Malformed),
            Some(rep) => if rep.result == 0 {
                Ok(rep.bytes_written)
            } else {
                Err(ClientError::Os(rep.result))
            },
        }
    }
}

/// Reads a Write reply out of a matched response.
pub fn interpret_write_reply(resp: &Response) -> (r: Result<usize, ClientError>)
    ensures
        r == spec_interpret_write_reply(resp@),
{
    if resp.status != 0 {
        return Err(ClientError::Failed);
    }
    match crate::codec::decode_write_reply(resp.data.as_slice()) {
        None => Err(ClientError::Malformed),
        Some(rep) => if rep.result == 0 {
            Ok(rep.bytes_written)
        } else {
            Err(ClientError::Os(rep.result))
        },
    }
}

/// What an Lseek reply means to the caller: the position after the seek, or
/// the failure.
pub open spec fn spec_interpret_lseek_reply(resp: ResponseView) -> Result<u64, ClientError> {
    if resp.status != 0 {
        Err(ClientError::Failed)
    } else {
        match spec_decode_lseek_reply(resp.data) {
            None => Err(ClientError::Malformed),
            Some(rep) => if rep.result == 0 {
                Ok(rep.offset)
            } else {
                Err(ClientError::Os(rep.result))
            },
        }
    }
}

/// Reads an Lseek reply out of a matched response.
pub fn interpret_lseek_reply(resp: &Response) -> (r: Result<u64, ClientError>)
    ensures
        r == spec_interpret_lseek_reply(resp@),
{
    if resp.status != 0 {
        return Err(ClientError::Failed);
    }
    match crate::codec::decode_lseek_reply(resp.data.as_slice()) {
        None => Err(ClientError::Malformed),
        Some(rep) => if rep.result == 0 {
            Ok(rep.offset)
        } else {
            Err(ClientError::Os(rep.result))
        },
    }
}

/// What a Chmod, Unlink or Rename reply means to the caller: plain success,
/// or the failure.
pub open spec fn spec_interpret_simple_reply(resp: ResponseView) -> Result<(), ClientError> {
    if resp.status != 0 {
        Err(ClientError::Failed)
    } else {
        match spec_decode_simple_reply(resp.data) {
            None => Err(ClientError::Malformed),
            Some(rep) => if rep.result == 0 {
                Ok(())
            } else {
                Err(ClientError::Os(rep.result))
            },
        }
    }
}

/// Reads a Chmod, Unlink or Rename reply out of a matched response.
pub fn interpret_simple_reply(resp: &Response) -> (r: Result<(), ClientError>)
    ensures
        r == spec_interpret_simple_reply(resp@),
{
    if resp.status != 0 {
        return Err(ClientError::Failed);
    }
    match crate::codec::decode_simple_reply(resp.data.as_slice()) {
        None => Err(ClientError::Malformed),
        Some(rep) => if rep.result == 0 {
            Ok(())
        } else {
            Err(ClientError::Os(rep.result))
        },
    }
}

} // verus!
