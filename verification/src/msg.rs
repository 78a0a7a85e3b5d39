//! The messages of the protocol: the request/response envelope and the
//! per-operation argument and reply payloads.
//!
//! Pathnames and open modes are byte strings: the wire carries them as raw
//! bytes, and the server compares them byte for byte.

use vstd::prelude::*;

verus! {

/// The closed set of operations a request can ask for.
#[derive(Clone, Copy, PartialEq, Eq, Structural, Debug)]
pub enum Operation {
    Open,
    Read,
    Write,
    Lseek,
    Chmod,
    Unlink,
    Rename,
}

/// The outer request envelope. `arguments` holds the independently encoded
/// payload of the operation, opaque at this level.
#[derive(Clone, PartialEq, Eq, Debug)]
pub struct Request {
    pub auth_token: u64,
    pub sequence_number: u64,
    pub operation: Operation,
    pub arguments: Vec<u8>,
}

/// Mathematical form of a [`Request`].
#[verifier::ext_equal]
pub struct RequestView {
    pub auth_token: u64,
    pub sequence_number: u64,
    pub operation: Operation,
    pub arguments: Seq<u8>,
}

impl View for Request {
    type V = RequestView;

    open spec fn view(&self) -> RequestView {
        RequestView {
            auth_token: self.auth_token,
            sequence_number: self.sequence_number,
            operation: self.operation,
            arguments: self.arguments@,
        }
    }
}

/// The outer response envelope. `status` is 0 when the handler ran (its own
/// outcome travels inside `data`), nonzero when the server could not run it.
#[derive(Clone, PartialEq, Eq, Debug)]
pub struct Response {
    pub sequence_number: u64,
    pub status: u8,
    pub data: Vec<u8>,
}

/// Mathematical form of a [`Response`].
#[verifier::ext_equal]
pub struct ResponseView {
    pub sequence_number: u64,
    pub status: u8,
    pub data: Seq<u8>,
}

impl View for Response {
    type V = ResponseView;

    open spec fn view(&self) -> ResponseView {
        ResponseView {
            sequence_number: self.sequence_number,
            status: self.status,
            data: self.data@,
        }
    }
}

/// Arguments of Open: a pathname and a mode, `b"r"` or `b"w"`.
#[derive(Clone, PartialEq, Eq, Debug)]
pub struct OpenArgs {
    pub pathname: Vec<u8>,
    pub mode: Vec<u8>,
}

/// Mathematical form of [`OpenArgs`].
#[verifier::ext_equal]
pub struct OpenArgsView {
    pub pathname: Seq<u8>,
    pub mode: Seq<u8>,
}

impl View for OpenArgs {
    type V = OpenArgsView;

    open spec fn view(&self) -> OpenArgsView {
        OpenArgsView { pathname: self.pathname@, mode: self.mode@ }
    }
}

/// Reply of Open: the fresh handle on success, 0 with a nonzero result code
/// on failure.
#[derive(Clone, Copy, PartialEq, Eq, Structural, Debug)]
pub struct OpenReply {
    pub file_id: u64,
    pub result: i32,
}

/// Arguments of Read: the handle and how many bytes to read.
#[derive(Clone, Copy, PartialEq, Eq, Structural, Debug)]
pub struct ReadArgs {
    pub file_id: u64,
    pub count: usize,
}

/// Reply of Read: the bytes read from the current position.
#[derive(Clone, PartialEq, Eq, Debug)]
pub struct ReadReply {
    pub data: Vec<u8>,
    pub bytes_read: usize,
    pub result: i32,
}

/// Mathematical form of [`ReadReply`].
#[verifier::ext_equal]
pub struct ReadReplyView {
    pub data: Seq<u8>,
    pub bytes_read: usize,
    pub result: i32,
}

impl View for ReadReply {
    type V = ReadReplyView;

    open spec fn view(&self) -> ReadReplyView {
        ReadReplyView { data: self.data@, bytes_read: self.bytes_read, result: self.result }
    }
}

/// Arguments of Write: the handle and the bytes to write at the current
/// position.
#[derive(Clone, PartialEq, Eq, Debug)]
pub struct WriteArgs {
    pub file_id: u64,
    pub data: Vec<u8>,
}

/// Mathematical form of [`WriteArgs`].
#[verifier::ext_equal]
pub struct WriteArgsView {
    pub file_id: u64,
    pub data: Seq<u8>,
}

impl View for WriteArgs {
    type V = WriteArgsView;

    open spec fn view(&self) -> WriteArgsView {
        WriteArgsView { file_id: self.file_id, data: self.data@ }
    }
}

/// Reply of Write.
#[derive(Clone, Copy, PartialEq, Eq, Structural, Debug)]
pub struct WriteReply {
    pub bytes_written: usize,
    pub result: i32,
}

/// Arguments of Lseek: the handle, a signed offset, and the origin selector
/// (0 = start, 1 = current, 2 = end).
#[derive(Clone, Copy, PartialEq, Eq, Structural, Debug)]
pub struct LseekArgs {
    pub file_id: u64,
    pub offset: i64,
    pub whence: i32,
}

/// Reply of Lseek: the position after the seek.
#[derive(Clone, Copy, PartialEq, Eq, Structural, Debug)]
pub struct LseekReply {
    pub offset: u64,
    pub result: i32,
}

/// Arguments of Chmod: a pathname and the permission bits to set.
#[derive(Clone, PartialEq, Eq, Debug)]
pub struct ChmodArgs {
    pub pathname: Vec<u8>,
    pub mode: u32,
}

/// Mathematical form of [`ChmodArgs`].
#[verifier::ext_equal]
pub struct ChmodArgsView {
    pub pathname: Seq<u8>,
    pub mode: u32,
}

impl View for ChmodArgs {
    type V = ChmodArgsView;

    open spec fn view(&self) -> ChmodArgsView {
        ChmodArgsView { pathname: self.pathname@, mode: self.mode }
    }
}

/// Arguments of Unlink: the pathname to remove.
#[derive(Clone, PartialEq, Eq, Debug)]
pub struct UnlinkArgs {
    pub pathname: Vec<u8>,
}

/// Mathematical form of [`UnlinkArgs`].
#[verifier::ext_equal]
pub struct UnlinkArgsView {
    pub pathname: Seq<u8>,
}

impl View for UnlinkArgs {
    type V = UnlinkArgsView;

    open spec fn view(&self) -> UnlinkArgsView {
        UnlinkArgsView { pathname: self.pathname@ }
    }
}

/// Arguments of Rename: the path to move and its new name.
#[derive(Clone, PartialEq, Eq, Debug)]
pub struct RenameArgs {
    pub oldpath: Vec<u8>,
    pub newpath: Vec<u8>,
}

/// Mathematical form of [`RenameArgs`].
#[verifier::ext_equal]
pub struct RenameArgsView {
    pub oldpath: Seq<u8>,
    pub newpath: Seq<u8>,
}

impl View for RenameArgs {
    type V = RenameArgsView;

    open spec fn view(&self) -> RenameArgsView {
        RenameArgsView { oldpath: self.oldpath@, newpath: self.newpath@ }
    }
}

/// Reply of Chmod, Unlink and Rename: only a result code.
#[derive(Clone, Copy, PartialEq, Eq, Structural, Debug)]
pub struct SimpleReply {
    pub result: i32,
}

} // verus!
