//! The server side: an in-memory file store, the open-handle table, and the
//! request dispatcher that executes each decoded operation against them.
//!
//! Files live in `files`, an append-only sequence of nodes; `dir` links each
//! live pathname to one node. Open handles reference nodes directly, so a
//! handle keeps working after the pathname is unlinked or renamed, as
//! conventional file semantics have it. Nothing ever closes a handle or
//! drops a node: the protocol has no close operation, a deliberate known
//! limitation of its design.

use vstd::prelude::*;
use crate::handle_table::{spec_find_idx, lemma_find_idx_valid, HandleTable};
use crate::msg::{
    ChmodArgsView, LseekArgs, LseekReply, OpenArgsView, OpenReply, Operation, ReadArgs,
    ReadReplyView, RenameArgsView, Request, RequestView, Response, ResponseView, SimpleReply,
    UnlinkArgsView, WriteArgsView, WriteReply,
};
use crate::codec::{
    spec_decode_chmod_args, spec_decode_lseek_args, spec_decode_open_args, spec_decode_read_args,
    spec_decode_rename_args, spec_decode_request, spec_decode_unlink_args, spec_decode_write_args,
    spec_encode_lseek_reply, spec_encode_open_reply, spec_encode_read_reply,
    spec_encode_response, spec_encode_simple_reply, spec_encode_write_reply,
};
use crate::{
    RESULT_BAD_ACCESS, RESULT_BAD_SEEK, RESULT_INVALID, RESULT_NOT_FOUND, RESULT_OK,
    RESULT_TOO_BIG,
};

verus! {

/// One stored file: its contents and its permission bits.
pub struct FileNode {
    pub data: Vec<u8>,
    pub perm: u32,
}

/// Mathematical form of a [`FileNode`].
#[verifier::ext_equal]
pub struct FileNodeView {
    pub data: Seq<u8>,
    pub perm: u32,
}

impl View for FileNode {
    type V = FileNodeView;

    open spec fn view(&self) -> FileNodeView {
        FileNodeView { data: self.data@, perm: self.perm }
    }
}

/// One directory entry: a pathname and the node it names.
pub struct DirEntry {
    pub path: Vec<u8>,
    pub inode: usize,
}

/// Mathematical form of a [`DirEntry`].
#[verifier::ext_equal]
pub struct DirEntryView {
    pub path: Seq<u8>,
    pub inode: usize,
}

impl View for DirEntry {
    type V = DirEntryView;

    open spec fn view(&self) -> DirEntryView {
        DirEntryView { path: self.path@, inode: self.inode }
    }
}

/// One open handle: the node it reads or writes, the current position, and
/// the access the open mode granted.
#[derive(Clone, Copy, PartialEq, Eq, Structural, Debug)]
pub struct OpenFile {
    pub inode: usize,
    pub position: u64,
    pub readable: bool,
    pub writable: bool,
}

/// The whole server state: the file store, the directory, the handle table,
/// and the registry of authentication tokens seen so far.
pub struct ServerState {
    pub files: Vec<FileNode>,
    pub dir: Vec<DirEntry>,
    pub handles: HandleTable<OpenFile>,
    pub auth_tokens: Vec<u64>,
}

/// Mathematical form of the whole server state.
#[verifier::ext_equal]
pub struct ServerStateView {
    pub files: Seq<FileNodeView>,
    pub dir: Seq<DirEntryView>,
    pub handles: Seq<(u64, OpenFile)>,
    pub auth_tokens: Seq<u64>,
}

impl View for ServerState {
    type V = ServerStateView;

    open spec fn view(&self) -> ServerStateView {
        ServerStateView {
            files: Seq::new(self.files@.len(), |i: int| self.files@[i]@),
            dir: Seq::new(self.dir@.len(), |i: int| self.dir@[i]@),
            handles: self.handles@,
            auth_tokens: self.auth_tokens@,
        }
    }
}

/// Well-formedness of a server state: every directory entry and every handle
/// names a stored node, and no pathname appears in the directory twice.
pub open spec fn wf_server(s: ServerStateView) -> bool {
    &&& forall|i: int| 0 <= i < s.dir.len() ==> (#[trigger] s.dir[i]).inode < s.files.len()
    &&& forall|i: int, j: int|
        0 <= i < j < s.dir.len() ==> (#[trigger] s.dir[i]).path != (#[trigger] s.dir[j]).path
    &&& forall|i: int| 0 <= i < s.handles.len() ==> (#[trigger] s.handles[i]).1.inode
        < s.files.len()
}

// ---------------------------------------------------------------------------
// Directory lookup
// ---------------------------------------------------------------------------

/// The first directory entry from `k` on whose path is `path`.
pub open spec fn spec_dir_find_from(dir: Seq<DirEntryView>, path: Seq<u8>, k: int) -> Option<int>
    decreases dir.len() - k,
{
    if k < 0 || k >= dir.len() {
        None
    } else if dir[k].path == path {
        Some(k)
    } else {
        spec_dir_find_from(dir, path, k + 1)
    }
}

/// The directory entry whose path is `path`, if any.
pub open spec fn spec_dir_find(dir: Seq<DirEntryView>, path: Seq<u8>) -> Option<int> {
    spec_dir_find_from(dir, path, 0)
}

/// A found entry lies in range and carries the path looked for; a miss means
/// no entry from `k` on carries it.
pub proof fn lemma_dir_find_from_valid(dir: Seq<DirEntryView>, path: Seq<u8>, k: int)
    requires
        0 <= k,
    ensures
        match spec_dir_find_from(dir, path, k) {
            Some(i) => k <= i < dir.len() && dir[i].path == path,
            None => forall|j: int| k <= j < dir.len() ==> (#[trigger] dir[j]).path != path,
        },
    decreases dir.len() - k,
{
    if 0 <= k < dir.len() && dir[k].path != path {
        lemma_dir_find_from_valid(dir, path, k + 1);
    }
}

/// Where no entry from `k` on carries the path, the lookup misses.
pub proof fn lemma_dir_find_from_no_match(dir: Seq<DirEntryView>, path: Seq<u8>, k: int)
    requires
        forall|j: int| k <= j < dir.len() ==> (#[trigger] dir[j]).path != path,
    ensures
        spec_dir_find_from(dir, path, k) is None,
    decreases dir.len() - k,
{
    if 0 <= k < dir.len() {
        lemma_dir_find_from_no_match(dir, path, k + 1);
    }
}

/// Compares two byte strings.
pub fn bytes_eq(a: &Vec<u8>, b: &Vec<u8>) -> (r: bool)
    ensures
        r == (a@ == b@),
{
    if a.len() != b.len() {
        proof {
            assert(a@ != b@);
        }
        return false;
    }
    let n = a.len();
    let mut i: usize = 0;
    while i < n
        invariant
            n == a@.len() == b@.len(),
            i <= n,
            forall|j: int| 0 <= j < i ==> a@[j] == b@[j],
        decreases n - i,
    {
        if a[i] != b[i] {
            proof {
                assert(a@[i as int] != b@[i as int]);
            }
            return false;
        }
        i = i + 1;
    }
    proof {
        assert(a@ =~= b@);
    }
    true
}

/// Copies a byte string.
pub fn clone_bytes(v: &Vec<u8>) -> (out: Vec<u8>)
    ensures
        out@ == v@,
{
    let out = crate::codec::read_vec_at(v.as_slice(), 0, v.len());
    proof {
        assert(v@.subrange(0, v@.len() as int) =~= v@);
    }
    out
}

// ---------------------------------------------------------------------------
// The operations, as transitions on the state's mathematical form
// ---------------------------------------------------------------------------

/// The byte of the open mode naming read access, `r` in ASCII.
pub const MODE_R_BYTE: u8 = 114;

/// The byte of the open mode naming write access, `w` in ASCII.
pub const MODE_W_BYTE: u8 = 119;

/// The open mode naming read access.
pub open spec fn mode_read() -> Seq<u8> {
    seq![MODE_R_BYTE]
}

/// The open mode naming write access.
pub open spec fn mode_write() -> Seq<u8> {
    seq![MODE_W_BYTE]
}

/// What Open does: mode `r` opens an existing file for reading and fails
/// with [`RESULT_NOT_FOUND`] on a missing path; mode `w` creates or
/// truncates a file for writing; any other mode fails with
/// [`RESULT_INVALID`]. On success the fresh handle is registered and
/// returned.
pub open spec fn spec_do_open(s: ServerStateView, a: OpenArgsView, fresh_id: u64) -> (
    ServerStateView,
    OpenReply,
) {
    if a.mode == mode_read() {
        match spec_dir_find(s.dir, a.pathname) {
            None => (s, OpenReply { file_id: 0, result: RESULT_NOT_FOUND }),
            Some(i) => {
                let of = OpenFile {
                    inode: s.dir[i].inode,
                    position: 0,
                    readable: true,
                    writable: false,
                };
                (
                    ServerStateView { handles: s.handles.push((fresh_id, of)), ..s },
                    OpenReply { file_id: fresh_id, result: RESULT_OK },
                )
            },
        }
    } else if a.mode == mode_write() {
        match spec_dir_find(s.dir, a.pathname) {
            Some(i) => {
                let inode = s.dir[i].inode;
                let of = OpenFile { inode, position: 0, readable: false, writable: true };
                (
                    ServerStateView {
                        files: s.files.update(
                            inode as int,
                            FileNodeView { data: Seq::empty(), perm: s.files[inode as int].perm },
                        ),
                        handles: s.handles.push((fresh_id, of)),
                        ..s
                    },
                    OpenReply { file_id: fresh_id, result: RESULT_OK },
                )
            },
            None => {
                let inode = s.files.len();
                let of = OpenFile {
                    inode: inode as usize,
                    position: 0,
                    readable: false,
                    writable: true,
                };
                (
                    ServerStateView {
                        files: s.files.push(FileNodeView { data: Seq::empty(), perm: 0o644 }),
                        dir: s.dir.push(
                            DirEntryView { path: a.pathname, inode: inode as usize },
                        ),
                        handles: s.handles.push((fresh_id, of)),
                        ..s
                    },
                    OpenReply { file_id: fresh_id, result: RESULT_OK },
                )
            },
        }
    } else {
        (s, OpenReply { file_id: 0, result: RESULT_INVALID })
    }
}

/// What Unlink does: removes the directory entry of the path, failing with
/// [`RESULT_NOT_FOUND`] when there is none. The node itself stays, so open
/// handles keep working.
pub open spec fn spec_do_unlink(s: ServerStateView, a: UnlinkArgsView) -> (
    ServerStateView,
    SimpleReply,
) {
    match spec_dir_find(s.dir, a.pathname) {
        None => (s, SimpleReply { result: RESULT_NOT_FOUND }),
        Some(i) => (
            ServerStateView { dir: s.dir.remove(i), ..s },
            SimpleReply { result: RESULT_OK },
        ),
    }
}

/// What Chmod does: replaces the permission bits of the named file, failing
/// with [`RESULT_NOT_FOUND`] when the path is missing.
pub open spec fn spec_do_chmod(s: ServerStateView, a: ChmodArgsView) -> (
    ServerStateView,
    SimpleReply,
) {
    match spec_dir_find(s.dir, a.pathname) {
        None => (s, SimpleReply { result: RESULT_NOT_FOUND }),
        Some(i) => {
            let inode = s.dir[i].inode;
            (
                ServerStateView {
                    files: s.files.update(
                        inode as int,
                        FileNodeView { data: s.files[inode as int].data, perm: a.mode },
                    ),
                    ..s
                },
                SimpleReply { result: RESULT_OK },
            )
        },
    }
}

/// What Rename does: points the old path's entry at the new name, replacing
/// any entry the new name had, and fails with [`RESULT_NOT_FOUND`] when the
/// old path is missing. Renaming a path to itself succeeds and changes
/// nothing.
pub open spec fn spec_do_rename(s: ServerStateView, a: RenameArgsView) -> (
    ServerStateView,
    SimpleReply,
) {
    match spec_dir_find(s.dir, a.oldpath) {
        None => (s, SimpleReply { result: RESULT_NOT_FOUND }),
        Some(i) => {
            if a.oldpath == a.newpath {
                (s, SimpleReply { result: RESULT_OK })
            } else {
                let dir1 = s.dir.update(
                    i,
                    DirEntryView { path: a.newpath, inode: s.dir[i].inode },
                );
                let dir2 = match spec_dir_find(s.dir, a.newpath) {
                    Some(j) => dir1.remove(j),
                    None => dir1,
                };
                (ServerStateView { dir: dir2, ..s }, SimpleReply { result: RESULT_OK })
            }
        },
    }
}

impl ServerState {
    /// Well-formedness of this state.
    pub open spec fn inv(&self) -> bool {
        wf_server(self@)
    }

    /// A fresh server with no files, no handles, and no tokens seen.
    pub fn new() -> (r: Self)
        ensures
            r.inv(),
            r@.files == Seq::<FileNodeView>::empty(),
            r@.dir == Seq::<DirEntryView>::empty(),
            r@.handles == Seq::<(u64, OpenFile)>::empty(),
            r@.auth_tokens == Seq::<u64>::empty(),
    {
        let r = ServerState {
            files: Vec::new(),
            dir: Vec::new(),
            handles: HandleTable::new(),
            auth_tokens: Vec::new(),
        };
        proof {
            assert(r@.files =~= Seq::<FileNodeView>::empty());
            assert(r@.dir =~= Seq::<DirEntryView>::empty());
        }
        r
    }

    /// The index of the directory entry carrying `path`, if any.
    pub fn dir_find(&self, path: &Vec<u8>) -> (r: Option<usize>)
        ensures
            match r {
                Some(i) => spec_dir_find(self@.dir, path@) == Some(i as int) && i
                    < self@.dir.len(),
                None => spec_dir_find(self@.dir, path@) is None,
            },
    {
        let n = self.dir.len();
        let mut i: usize = 0;
        while i < n
            invariant
                n == self@.dir.len(),
                i <= n,
                spec_dir_find(self@.dir, path@) == spec_dir_find_from(self@.dir, path@, i as int),
            decreases n - i,
        {
            proof {
                assert(self@.dir[i as int].path == self.dir@[i as int]@.path);
            }
            if bytes_eq(&self.dir[i].path, path) {
                return Some(i);
            }
            i = i + 1;
        }
        None
    }

    /// Executes Open against this state, registering the resource under the
    /// caller-supplied fresh handle identifier.
    pub fn do_open(&mut self, a: &crate::msg::OpenArgs, fresh_id: u64) -> (r: OpenReply)
        requires
            old(self).inv(),
        ensures
            final(self).inv(),
            final(self)@ == spec_do_open(old(self)@, a@, fresh_id).0,
            r == spec_do_open(old(self)@, a@, fresh_id).1,
    {
        let is_r = a.mode.len() == 1 && a.mode[0] == MODE_R_BYTE;
        let is_w = a.mode.len() == 1 && a.mode[0] == MODE_W_BYTE;
        proof {
            assert(is_r == (a.mode@ == mode_read())) by {
                if a.mode@.len() == 1 && a.mode@[0] == MODE_R_BYTE {
                    assert(a.mode@ =~= mode_read());
                }
            }
            assert(is_w == (a.mode@ == mode_write())) by {
                if a.mode@.len() == 1 && a.mode@[0] == MODE_W_BYTE {
                    assert(a.mode@ =~= mode_write());
                }
            }
        }
        if is_r {
            match self.dir_find(&a.pathname) {
                None => OpenReply { file_id: 0, result: RESULT_NOT_FOUND },
                Some(i) => {
                    proof {
                        lemma_dir_find_from_valid(self@.dir, a.pathname@, 0);
                    }
                    let inode = self.dir[i].inode;
                    let of = OpenFile { inode, position: 0, readable: true, writable: false };
                    self.handles.insert(fresh_id, of);
                    proof {
                        assert(self@ =~= spec_do_open(old(self)@, a@, fresh_id).0);
                    }
                    OpenReply { file_id: fresh_id, result: RESULT_OK }
                },
            }
        } else if is_w {
            match self.dir_find(&a.pathname) {
                Some(i) => {
                    proof {
                        lemma_dir_find_from_valid(self@.dir, a.pathname@, 0);
                    }
                    let inode = self.dir[i].inode;
                    let perm = self.files[inode].perm;
                    self.files[inode] = FileNode { data: Vec::new(), perm };
                    let of = OpenFile { inode, position: 0, readable: false, writable: true };
                    self.handles.insert(fresh_id, of);
                    proof {
                        assert(self@.files =~= spec_do_open(
                            old(self)@,
                            a@,
                            fresh_id,
                        ).0.files);
                        assert(self@ =~= spec_do_open(old(self)@, a@, fresh_id).0);
                    }
                    OpenReply { file_id: fresh_id, result: RESULT_OK }
                },
                None => {
                    let inode = self.files.len();
                    self.files.push(FileNode { data: Vec::new(), perm: 0o644 });
                    self.dir.push(DirEntry { path: clone_bytes(&a.pathname), inode });
                    let of = OpenFile { inode, position: 0, readable: false, writable: true };
                    self.handles.insert(fresh_id, of);
                    proof {
                        assert(self@.files =~= spec_do_open(
                            old(self)@,
                            a@,
                            fresh_id,
                        ).0.files);
                        assert(self@.dir =~= spec_do_open(old(self)@, a@, fresh_id).0.dir);
                        assert(self@ =~= spec_do_open(old(self)@, a@, fresh_id).0);
                        lemma_dir_find_from_valid(old(self)@.dir, a.pathname@, 0);
                    }
                    OpenReply { file_id: fresh_id, result: RESULT_OK }
                },
            }
        } else {
            OpenReply { file_id: 0, result: RESULT_INVALID }
        }
    }

    /// Executes Unlink against this state.
    pub fn do_unlink(&mut self, a: &crate::msg::UnlinkArgs) -> (r: SimpleReply)
        requires
            old(self).inv(),
        ensures
            final(self).inv(),
            final(self)@ == spec_do_unlink(old(self)@, a@).0,
            r == spec_do_unlink(old(self)@, a@).1,
    {
        match self.dir_find(&a.pathname) {
            None => SimpleReply { result: RESULT_NOT_FOUND },
            Some(i) => {
                self.dir.remove(i);
                proof {
                    assert(self@.dir =~= spec_do_unlink(old(self)@, a@).0.dir);
                    assert(self@ =~= spec_do_unlink(old(self)@, a@).0);
                }
                SimpleReply { result: RESULT_OK }
            },
        }
    }

    /// Executes Chmod against this state.
    pub fn do_chmod(&mut self, a: &crate::msg::ChmodArgs) -> (r: SimpleReply)
        requires
            old(self).inv(),
        ensures
            final(self).inv(),
            final(self)@ == spec_do_chmod(old(self)@, a@).0,
            r == spec_do_chmod(old(self)@, a@).1,
    {
        match self.dir_find(&a.pathname) {
            None => SimpleReply { result: RESULT_NOT_FOUND },
            Some(i) => {
                proof {
                    lemma_dir_find_from_valid(self@.dir, a.pathname@, 0);
                }
                let inode = self.dir[i].inode;
                let data = clone_bytes(&self.files[inode].data);
                self.files[inode] = FileNode { data, perm: a.mode };
                proof {
                    assert(self@.files =~= spec_do_chmod(old(self)@, a@).0.files);
                    assert(self@ =~= spec_do_chmod(old(self)@, a@).0);
                }
                SimpleReply { result: RESULT_OK }
            },
        }
    }

    /// Executes Rename against this state.
    pub fn do_rename(&mut self, a: &crate::msg::RenameArgs) -> (r: SimpleReply)
        requires
            old(self).inv(),
        ensures
            final(self).inv(),
            final(self)@ == spec_do_rename(old(self)@, a@).0,
            r == spec_do_rename(old(self)@, a@).1,
    {
        match self.dir_find(&a.oldpath) {
            None => SimpleReply { result: RESULT_NOT_FOUND },
            Some(i) => {
                if bytes_eq(&a.oldpath, &a.newpath) {
                    return SimpleReply { result: RESULT_OK };
                }
                proof {
                    lemma_dir_find_from_valid(self@.dir, a.oldpath@, 0);
                }
                let jopt = self.dir_find(&a.newpath);
                proof {
                    lemma_dir_find_from_valid(self@.dir, a.newpath@, 0);
                }
                let inode = self.dir[i].inode;
                self.dir[i] = DirEntry { path: clone_bytes(&a.newpath), inode };
                let ghost dir1 = old(self)@.dir.update(
                    i as int,
                    DirEntryView { path: a.newpath@, inode },
                );
                proof {
                    assert(self@.dir =~= dir1);
                }
                match jopt {
                    Some(j) => {
                        self.dir.remove(j);
                        proof {
                            assert(self@.dir =~= dir1.remove(j as int));
                        }
                    },
                    None => {},
                }
                proof {
                    assert(self@ =~= spec_do_rename(old(self)@, a@).0);
                    lemma_wf_rename(old(self)@, a@);
                }
                SimpleReply { result: RESULT_OK }
            },
        }
    }
}

/// A run of zero bytes, as a write past the end of a file leaves in the gap.
pub open spec fn zero_seq(n: nat) -> Seq<u8> {
    Seq::new(n, |i: int| 0u8)
}

/// The file contents after writing `d` at position `pos`: bytes before the
/// position survive, a gap beyond the old end is filled with zeros, and
/// bytes after the written span survive.
pub open spec fn spec_write_data(old_data: Seq<u8>, pos: int, d: Seq<u8>) -> Seq<u8> {
    let prefix = if pos <= old_data.len() {
        old_data.subrange(0, pos)
    } else {
        old_data + zero_seq((pos - old_data.len()) as nat)
    };
    let suffix = if pos + d.len() < old_data.len() {
        old_data.subrange(pos + d.len(), old_data.len() as int)
    } else {
        Seq::empty()
    };
    prefix + d + suffix
}

/// What Read does: an unknown handle fails with [`RESULT_INVALID`]; a handle
/// opened without read access fails with [`RESULT_BAD_ACCESS`]; a position
/// at or past the end reads zero bytes; otherwise up to `count` bytes from
/// the current position come back and the position advances past them.
pub open spec fn spec_do_read(s: ServerStateView, a: ReadArgs) -> (
    ServerStateView,
    ReadReplyView,
) {
    match spec_find_idx(s.handles, a.file_id) {
        None => (
            s,
            ReadReplyView { data: Seq::empty(), bytes_read: 0, result: RESULT_INVALID },
        ),
        Some(hi) => {
            let of = s.handles[hi].1;
            if !of.readable {
                (
                    s,
                    ReadReplyView { data: Seq::empty(), bytes_read: 0, result: RESULT_BAD_ACCESS },
                )
            } else {
                let data = s.files[of.inode as int].data;
                if of.position >= data.len() {
                    (s, ReadReplyView { data: Seq::empty(), bytes_read: 0, result: RESULT_OK })
                } else {
                    let pos = of.position as int;
                    let avail = data.len() - pos;
                    let n = if a.count <= avail {
                        a.count as int
                    } else {
                        avail
                    };
                    let of2 = OpenFile {
                        inode: of.inode,
                        position: (pos + n) as u64,
                        readable: of.readable,
                        writable: of.writable,
                    };
                    (
                        ServerStateView {
                            handles: s.handles.update(hi, (a.file_id, of2)),
                            ..s
                        },
                        ReadReplyView {
                            data: data.subrange(pos, pos + n),
                            bytes_read: n as usize,
                            result: RESULT_OK,
                        },
                    )
                }
            }
        },
    }
}

/// What Write does: an unknown handle fails with [`RESULT_INVALID`]; a
/// handle opened without write access fails with [`RESULT_BAD_ACCESS`]; a
/// write of nothing succeeds and changes nothing; a write whose end cannot
/// be represented fails with [`RESULT_TOO_BIG`]; otherwise all bytes are
/// written at the current position, which advances past them.
pub open spec fn spec_do_write(s: ServerStateView, a: WriteArgsView) -> (
    ServerStateView,
    WriteReply,
) {
    match spec_find_idx(s.handles, a.file_id) {
        None => (s, WriteReply { bytes_written: 0, result: RESULT_INVALID }),
        Some(hi) => {
            let of = s.handles[hi].1;
            if !of.writable {
                (s, WriteReply { bytes_written: 0, result: RESULT_BAD_ACCESS })
            } else if a.data.len() == 0 {
                (s, WriteReply { bytes_written: 0, result: RESULT_OK })
            } else if of.position + a.data.len() > usize::MAX {
                (s, WriteReply { bytes_written: 0, result: RESULT_TOO_BIG })
            } else {
                let pos = of.position as int;
                let node = s.files[of.inode as int];
                let of2 = OpenFile {
                    inode: of.inode,
                    position: (pos + a.data.len()) as u64,
                    readable: of.readable,
                    writable: of.writable,
                };
                (
                    ServerStateView {
                        files: s.files.update(
                            of.inode as int,
                            FileNodeView {
                                data: spec_write_data(node.data, pos, a.data),
                                perm: node.perm,
                            },
                        ),
                        handles: s.handles.update(hi, (a.file_id, of2)),
                        ..s
                    },
                    WriteReply { bytes_written: a.data.len() as usize, result: RESULT_OK },
                )
            }
        },
    }
}

/// What Lseek does: an unknown handle or an unknown origin selector fails
/// with [`RESULT_INVALID`]; origin 0 takes the offset's unsigned image as
/// the new position; origins 1 and 2 add the offset to the current position
/// or to the file's length, failing with [`RESULT_BAD_SEEK`] when the sum
/// leaves the representable range.
pub open spec fn spec_do_lseek(s: ServerStateView, a: LseekArgs) -> (
    ServerStateView,
    LseekReply,
) {
    match spec_find_idx(s.handles, a.file_id) {
        None => (s, LseekReply { offset: 0, result: RESULT_INVALID }),
        Some(hi) => {
            let of = s.handles[hi].1;
            let base: int = if a.whence == 0 {
                0
            } else if a.whence == 1 {
                of.position as int
            } else {
                s.files[of.inode as int].data.len() as int
            };
            if a.whence == 0 || a.whence == 1 || a.whence == 2 {
                let target = if a.whence == 0 {
                    (a.offset as u64) as int
                } else {
                    base + a.offset
                };
                if 0 <= target <= u64::MAX {
                    let of2 = OpenFile {
                        inode: of.inode,
                        position: target as u64,
                        readable: of.readable,
                        writable: of.writable,
                    };
                    (
                        ServerStateView {
                            handles: s.handles.update(hi, (a.file_id, of2)),
                            ..s
                        },
                        LseekReply { offset: target as u64, result: RESULT_OK },
                    )
                } else {
                    (s, LseekReply { offset: 0, result: RESULT_BAD_SEEK })
                }
            } else {
                (s, LseekReply { offset: 0, result: RESULT_INVALID })
            }
        },
    }
}

impl ServerState {
    /// Executes Read against this state.
    pub fn do_read(&mut self, a: &ReadArgs) -> (r: crate::msg::ReadReply)
        requires
            old(self).inv(),
        ensures
            final(self).inv(),
            final(self)@ == spec_do_read(old(self)@, *a).0,
            r@ == spec_do_read(old(self)@, *a).1,
    {
        proof {
            lemma_find_idx_valid(self@.handles, a.file_id);
        }
        let of = match self.handles.get(a.file_id) {
            None => {
                return crate::msg::ReadReply { data: Vec::new(), bytes_read: 0, result: RESULT_INVALID };
            },
            Some(x) => *x,
        };
        if !of.readable {
            return crate::msg::ReadReply { data: Vec::new(), bytes_read: 0, result: RESULT_BAD_ACCESS };
        }
        let flen = self.files[of.inode].data.len();
        if of.position >= flen as u64 {
            return crate::msg::ReadReply { data: Vec::new(), bytes_read: 0, result: RESULT_OK };
        }
        let pos = of.position as usize;
        let avail = flen - pos;
        let n = if a.count <= avail {
            a.count
        } else {
            avail
        };
        let data = crate::codec::read_vec_at(self.files[of.inode].data.as_slice(), pos, n);
        let of2 = OpenFile {
            inode: of.inode,
            position: (pos + n) as u64,
            readable: of.readable,
            writable: of.writable,
        };
        self.handles.set(a.file_id, of2);
        proof {
            assert(self@ =~= spec_do_read(old(self)@, *a).0);
        }
        crate::msg::ReadReply { data, bytes_read: n, result: RESULT_OK }
    }

    /// Executes Write against this state.
    pub fn do_write(&mut self, a: &crate::msg::WriteArgs) -> (r: WriteReply)
        requires
            old(self).inv(),
        ensures
            final(self).inv(),
            final(self)@ == spec_do_write(old(self)@, a@).0,
            r == spec_do_write(old(self)@, a@).1,
    {
        proof {
            lemma_find_idx_valid(self@.handles, a.file_id);
        }
        let of = match self.handles.get(a.file_id) {
            None => {
                return WriteReply { bytes_written: 0, result: RESULT_INVALID };
            },
            Some(x) => *x,
        };
        if !of.writable {
            return WriteReply { bytes_written: 0, result: RESULT_BAD_ACCESS };
        }
        let len = a.data.len();
        if len == 0 {
            return WriteReply { bytes_written: 0, result: RESULT_OK };
        }
        if of.position > (usize::MAX - len) as u64 {
            return WriteReply { bytes_written: 0, result: RESULT_TOO_BIG };
        }
        let pos = of.position as usize;
        let flen = self.files[of.inode].data.len();
        let perm = self.files[of.inode].perm;
        let ghost old_data = self@.files[of.inode as int].data;
        let ghost spec_nd = spec_write_data(old_data, pos as int, a.data@);

        let mut nd: Vec<u8> = Vec::new();
        let stop = if pos <= flen {
            pos
        } else {
            flen
        };
        let mut i: usize = 0;
        while i < stop
            invariant
                i <= stop,
                stop <= old_data.len(),
                old_data == self@.files[of.inode as int].data,
                of.inode < self@.files.len(),
                nd@ == old_data.subrange(0, i as int),
            decreases stop - i,
        {
            nd.push(self.files[of.inode].data[i]);
            i = i + 1;
            proof {
                assert(nd@ =~= old_data.subrange(0, i as int));
            }
        }
        while nd.len() < pos
            invariant
                stop <= nd@.len() <= pos,
                nd@.subrange(0, stop as int) == old_data.subrange(0, stop as int),
                forall|j: int| stop <= j < nd@.len() ==> nd@[j] == 0u8,
            decreases pos - nd@.len(),
        {
            nd.push(0u8);
            proof {
                assert(nd@.subrange(0, stop as int) =~= old_data.subrange(0, stop as int));
            }
        }
        let ghost prefix = nd@;
        proof {
            if pos <= old_data.len() {
                assert(stop == pos && prefix.len() == pos);
                assert(prefix =~= old_data.subrange(0, pos as int));
            } else {
                assert(stop == old_data.len());
                let full = old_data + zero_seq((pos - old_data.len()) as nat);
                assert forall|j: int| 0 <= j < prefix.len() implies prefix[j] == full[j] by {
                    if j < stop {
                        assert(prefix.subrange(0, stop as int)[j] == prefix[j]);
                        assert(old_data.subrange(0, stop as int)[j] == old_data[j]);
                    }
                }
                assert(prefix =~= full);
            }
        }
        let mut i: usize = 0;
        while i < len
            invariant
                i <= len,
                len == a.data@.len(),
                nd@ == prefix + a.data@.subrange(0, i as int),
            decreases len - i,
        {
            nd.push(a.data[i]);
            i = i + 1;
            proof {
                assert(nd@ =~= prefix + a.data@.subrange(0, i as int));
            }
        }
        proof {
            assert(a.data@.subrange(0, len as int) =~= a.data@);
        }
        let end = pos + len;
        if end < flen {
            let mut j: usize = end;
            while j < flen
                invariant
                    end <= j <= flen,
                    flen == old_data.len(),
                    old_data == self@.files[of.inode as int].data,
                    of.inode < self@.files.len(),
                    nd@ == prefix + a.data@ + old_data.subrange(end as int, j as int),
                decreases flen - j,
            {
                nd.push(self.files[of.inode].data[j]);
                j = j + 1;
                proof {
                    assert(nd@ =~= prefix + a.data@ + old_data.subrange(end as int, j as int));
                }
            }
        }
        proof {
            assert(nd@ =~= spec_nd);
        }
        self.files[of.inode] = FileNode { data: nd, perm };
        let of2 = OpenFile {
            inode: of.inode,
            position: (pos + len) as u64,
            readable: of.readable,
            writable: of.writable,
        };
        self.handles.set(a.file_id, of2);
        proof {
            assert(self@.files =~= spec_do_write(old(self)@, a@).0.files);
            assert(self@ =~= spec_do_write(old(self)@, a@).0);
        }
        WriteReply { bytes_written: len, result: RESULT_OK }
    }

    /// Executes Lseek against this state.
    pub fn do_lseek(&mut self, a: &LseekArgs) -> (r: LseekReply)
        requires
            old(self).inv(),
        ensures
            final(self).inv(),
            final(self)@ == spec_do_lseek(old(self)@, *a).0,
            r == spec_do_lseek(old(self)@, *a).1,
    {
        proof {
            lemma_find_idx_valid(self@.handles, a.file_id);
        }
        let of = match self.handles.get(a.file_id) {
            None => {
                return LseekReply { offset: 0, result: RESULT_INVALID };
            },
            Some(x) => *x,
        };
        if a.whence == 0 || a.whence == 1 || a.whence == 2 {
            let base: i128 = if a.whence == 0 {
                0
            } else if a.whence == 1 {
                of.position as i128
            } else {
                self.files[of.inode].data.len() as i128
            };
            let target: i128 = if a.whence == 0 {
                (a.offset as u64) as i128
            } else {
                base + a.offset as i128
            };
            if 0 <= target && target <= u64::MAX as i128 {
                let newpos = target as u64;
                let of2 = OpenFile {
                    inode: of.inode,
                    position: newpos,
                    readable: of.readable,
                    writable: of.writable,
                };
                self.handles.set(a.file_id, of2);
                proof {
                    assert(self@ =~= spec_do_lseek(old(self)@, *a).0);
                }
                LseekReply { offset: newpos, result: RESULT_OK }
            } else {
                LseekReply { offset: 0, result: RESULT_BAD_SEEK }
            }
        } else {
            LseekReply { offset: 0, result: RESULT_INVALID }
        }
    }
}

/// The token registry after recording `t`: unchanged when `t` was already
/// seen, extended by it otherwise.
pub open spec fn spec_record_token(tokens: Seq<u64>, t: u64) -> Seq<u64> {
    if tokens.contains(t) {
        tokens
    } else {
        tokens.push(t)
    }
}

/// What one request does to the server: its token is recorded, its argument
/// payload decoded, the operation run against the state, and the reply
/// encoded under the request's sequence number with status 0. An argument
/// payload that does not decode yields status 1 with empty data and changes
/// nothing but the token registry.
pub open spec fn spec_handle_request(s: ServerStateView, req: RequestView, fresh_id: u64) -> (
    ServerStateView,
    ResponseView,
) {
    let s1 = ServerStateView {
        auth_tokens: spec_record_token(s.auth_tokens, req.auth_token),
        ..s
    };
    let seq_no = req.sequence_number;
    let failure = ResponseView { sequence_number: seq_no, status: 1, data: Seq::empty() };
    match req.operation {
        Operation::Open => match spec_decode_open_args(req.arguments) {
            None => (s1, failure),
            Some(a) => {
                let o = spec_do_open(s1, a, fresh_id);
                (
                    o.0,
                    ResponseView {
                        sequence_number: seq_no,
                        status: 0,
                        data: spec_encode_open_reply(o.1),
                    },
                )
            },
        },
        Operation::Read => match spec_decode_read_args(req.arguments) {
            None => (s1, failure),
            Some(a) => {
                let o = spec_do_read(s1, a);
                (
                    o.0,
                    ResponseView {
                        sequence_number: seq_no,
                        status: 0,
                        data: spec_encode_read_reply(o.1),
                    },
                )
            },
        },
        Operation::Write => match spec_decode_write_args(req.arguments) {
            None => (s1, failure),
            Some(a) => {
                let o = spec_do_write(s1, a);
                (
                    o.0,
                    ResponseView {
                        sequence_number: seq_no,
                        status: 0,
                        data: spec_encode_write_reply(o.1),
                    },
                )
            },
        },
        Operation::Lseek => match spec_decode_lseek_args(req.arguments) {
            None => (s1, failure),
            Some(a) => {
                let o = spec_do_lseek(s1, a);
                (
                    o.0,
                    ResponseView {
                        sequence_number: seq_no,
                        status: 0,
                        data: spec_encode_lseek_reply(o.1),
                    },
                )
            },
        },
        Operation::Chmod => match spec_decode_chmod_args(req.arguments) {
            None => (s1, failure),
            Some(a) => {
                let o = spec_do_chmod(s1, a);
                (
                    o.0,
                    ResponseView {
                        sequence_number: seq_no,
                        status: 0,
                        data: spec_encode_simple_reply(o.1),
                    },
                )
            },
        },
        Operation::Unlink => match spec_decode_unlink_args(req.arguments) {
            None => (s1, failure),
            Some(a) => {
                let o = spec_do_unlink(s1, a);
                (
                    o.0,
                    ResponseView {
                        sequence_number: seq_no,
                        status: 0,
                        data: spec_encode_simple_reply(o.1),
                    },
                )
            },
        },
        Operation::Rename => match spec_decode_rename_args(req.arguments) {
            None => (s1, failure),
            Some(a) => {
                let o = spec_do_rename(s1, a);
                (
                    o.0,
                    ResponseView {
                        sequence_number: seq_no,
                        status: 0,
                        data: spec_encode_simple_reply(o.1),
                    },
                )
            },
        },
    }
}

impl ServerState {
    /// Whether a request bearing this token has been dispatched before.
    pub fn has_seen_token(&self, t: u64) -> (r: bool)
        ensures
            r == self@.auth_tokens.contains(t),
    {
        let n = self.auth_tokens.len();
        let mut i: usize = 0;
        while i < n
            invariant
                n == self@.auth_tokens.len(),
                i <= n,
                forall|j: int| 0 <= j < i ==> self@.auth_tokens[j] != t,
            decreases n - i,
        {
            if self.auth_tokens[i] == t {
                proof {
                    assert(self@.auth_tokens[i as int] == t);
                }
                return true;
            }
            i = i + 1;
        }
        proof {
            assert(!self@.auth_tokens.contains(t));
        }
        false
    }

    /// Records a token as seen, idempotently.
    pub fn record_token(&mut self, t: u64)
        ensures
            final(self)@ == (ServerStateView {
                auth_tokens: spec_record_token(old(self)@.auth_tokens, t),
                ..old(self)@
            }),
            final(self).inv() == old(self).inv(),
    {
        if !self.has_seen_token(t) {
            self.auth_tokens.push(t);
        }
        proof {
            assert(self@ =~= (ServerStateView {
                auth_tokens: spec_record_token(old(self)@.auth_tokens, t),
                ..old(self)@
            }));
            assert(wf_server(self@) == wf_server(old(self)@)) by {
                assert(self@.files == old(self)@.files);
                assert(self@.dir == old(self)@.dir);
                assert(self@.handles == old(self)@.handles);
            }
        }
    }

    /// Dispatches one decoded request, with the fresh handle identifier an
    /// Open would register supplied by the caller.
    pub fn handle_request_with_id(&mut self, req: &Request, fresh_id: u64) -> (resp: Response)
        requires
            old(self).inv(),
        ensures
            final(self).inv(),
            final(self)@ == spec_handle_request(old(self)@, req@, fresh_id).0,
            resp@ == spec_handle_request(old(self)@, req@, fresh_id).1,
    {
        self.record_token(req.auth_token);
        let seq_no = req.sequence_number;
        let resp = match req.operation {
            Operation::Open => match crate::codec::decode_open_args(req.arguments.as_slice()) {
                None => Response { sequence_number: seq_no, status: 1, data: Vec::new() },
                Some(args) => {
                    let rep = self.do_open(&args, fresh_id);
                    Response {
                        sequence_number: seq_no,
                        status: 0,
                        data: crate::codec::encode_open_reply(&rep),
                    }
                },
            },
            Operation::Read => match crate::codec::decode_read_args(req.arguments.as_slice()) {
                None => Response { sequence_number: seq_no, status: 1, data: Vec::new() },
                Some(args) => {
                    let rep = self.do_read(&args);
                    Response {
                        sequence_number: seq_no,
                        status: 0,
                        data: crate::codec::encode_read_reply(&rep),
                    }
                },
            },
            Operation::Write => match crate::codec::decode_write_args(req.arguments.as_slice()) {
                None => Response { sequence_number: seq_no, status: 1, data: Vec::new() },
                Some(args) => {
                    let rep = self.do_write(&args);
                    Response {
                        sequence_number: seq_no,
                        status: 0,
                        data: crate::codec::encode_write_reply(&rep),
                    }
                },
            },
            Operation::Lseek => match crate::codec::decode_lseek_args(req.arguments.as_slice()) {
                None => Response { sequence_number: seq_no, status: 1, data: Vec::new() },
                Some(args) => {
                    let rep = self.do_lseek(&args);
                    Response {
                        sequence_number: seq_no,
                        status: 0,
                        data: crate::codec::encode_lseek_reply(&rep),
                    }
                },
            },
            Operation::Chmod => match crate::codec::decode_chmod_args(req.arguments.as_slice()) {
                None => Response { sequence_number: seq_no, status: 1, data: Vec::new() },
                Some(args) => {
                    let rep = self.do_chmod(&args);
                    Response {
                        sequence_number: seq_no,
                        status: 0,
                        data: crate::codec::encode_simple_reply(&rep),
                    }
                },
            },
            Operation::Unlink => match crate::codec::decode_unlink_args(req.arguments.as_slice()) {
                None => Response { sequence_number: seq_no, status: 1, data: Vec::new() },
                Some(args) => {
                    let rep = self.do_unlink(&args);
                    Response {
                        sequence_number: seq_no,
                        status: 0,
                        data: crate::codec::encode_simple_reply(&rep),
                    }
                },
            },
            Operation::Rename => match crate::codec::decode_rename_args(req.arguments.as_slice()) {
                None => Response { sequence_number: seq_no, status: 1, data: Vec::new() },
                Some(args) => {
                    let rep = self.do_rename(&args);
                    Response {
                        sequence_number: seq_no,
                        status: 0,
                        data: crate::codec::encode_simple_reply(&rep),
                    }
                },
            },
        };
        proof {
            assert(self@ =~= spec_handle_request(old(self)@, req@, fresh_id).0);
            assert(resp@ =~= spec_handle_request(old(self)@, req@, fresh_id).1);
        }
        resp
    }

    /// Dispatches one decoded request, drawing the fresh handle identifier
    /// at random, as the protocol's design has it; whatever identifier is drawn,
    /// the outcome is that of [`Self::handle_request_with_id`] for it.
    pub fn handle_request(&mut self, req: &Request) -> (resp: Response)
        requires
            old(self).inv(),
        ensures
            final(self).inv(),
            exists|id: u64|
                final(self)@ == spec_handle_request(old(self)@, req@, id).0 && resp@
                    == spec_handle_request(old(self)@, req@, id).1,
    {
        let id = crate::rng::random_u64();
        let resp = self.handle_request_with_id(req, id);
        proof {
            assert(self@ == spec_handle_request(old(self)@, req@, id).0 && resp@
                == spec_handle_request(old(self)@, req@, id).1);
        }
        resp
    }

    /// One full server step from datagram to datagram: decodes the request,
    /// dispatches it, and encodes the response. A datagram that does not
    /// decode is dropped without an answer and changes nothing, so no
    /// incoming bytes can bring the server down.
    pub fn handle_datagram(&mut self, bytes: &[u8]) -> (out: Option<Vec<u8>>)
        requires
            old(self).inv(),
        ensures
            final(self).inv(),
            match spec_decode_request(bytes@) {
                None => out is None && final(self)@ == old(self)@,
                Some(req) => out is Some && exists|id: u64|
                    final(self)@ == spec_handle_request(old(self)@, req, id).0 && (
                    out->Some_0)@ == spec_encode_response(
                        spec_handle_request(old(self)@, req, id).1,
                    ),
            },
    {
        match crate::codec::decode_request(bytes) {
            None => None,
            Some(req) => {
                let resp = self.handle_request(&req);
                let out = crate::codec::encode_response(&resp);
                Some(out)
            },
        }
    }
}

// ---------------------------------------------------------------------------
// Properties of the operations
// ---------------------------------------------------------------------------

/// Where no entry carries a path, pushing an entry carrying it makes the
/// lookup find that entry, from any starting point within the old entries.
proof fn lemma_dir_find_push_match_from(
    dir: Seq<DirEntryView>,
    path: Seq<u8>,
    e: DirEntryView,
    k: int,
)
    requires
        0 <= k <= dir.len(),
        forall|j: int| k <= j < dir.len() ==> (#[trigger] dir[j]).path != path,
        e.path == path,
    ensures
        spec_dir_find_from(dir.push(e), path, k) == Some(dir.len() as int),
    decreases dir.len() - k,
{
    if k < dir.len() {
        assert(dir.push(e)[k] == dir[k]);
        lemma_dir_find_push_match_from(dir, path, e, k + 1);
    } else {
        assert(dir.push(e)[k].path == path);
    }
}

/// A Read naming a handle the server never issued fails with the
/// conventional not-found code, changes nothing, and in particular cannot
/// bring the server down: an identifier is in the handle table exactly when
/// some successful Open returned it.
pub proof fn lemma_read_unknown_handle(s: ServerStateView, a: ReadArgs)
    requires
        spec_find_idx(s.handles, a.file_id) is None,
    ensures
        spec_do_read(s, a).0 == s,
        spec_do_read(s, a).1 == (ReadReplyView {
            data: Seq::<u8>::empty(),
            bytes_read: 0,
            result: RESULT_INVALID,
        }),
{
}

/// A Write naming a handle the server never issued fails with the
/// conventional not-found code and changes nothing, as the Read does.
pub proof fn lemma_write_unknown_handle(s: ServerStateView, a: WriteArgsView)
    requires
        spec_find_idx(s.handles, a.file_id) is None,
    ensures
        spec_do_write(s, a).0 == s,
        spec_do_write(s, a).1 == (WriteReply { bytes_written: 0, result: RESULT_INVALID }),
{
}

/// Unlink removes the path: it succeeds exactly when the path is present,
/// and after a successful Unlink an Open of the path for reading fails with
/// the not-found code and changes nothing.
pub proof fn lemma_unlink_then_open_fails(s: ServerStateView, path: Seq<u8>, id: u64)
    requires
        wf_server(s),
    ensures
        spec_do_unlink(s, UnlinkArgsView { pathname: path }).1.result == RESULT_OK
            <==> spec_dir_find(s.dir, path) is Some,
        spec_do_unlink(s, UnlinkArgsView { pathname: path }).1.result == RESULT_OK ==> ({
            let s1 = spec_do_unlink(s, UnlinkArgsView { pathname: path }).0;
            let o = spec_do_open(s1, OpenArgsView { pathname: path, mode: mode_read() }, id);
            o.0 == s1 && o.1 == (OpenReply { file_id: 0, result: RESULT_NOT_FOUND })
        }),
{
    lemma_dir_find_from_valid(s.dir, path, 0);
    match spec_dir_find(s.dir, path) {
        None => {},
        Some(i) => {
            let dir2 = s.dir.remove(i);
            assert forall|j: int| 0 <= j < dir2.len() implies (#[trigger] dir2[j]).path
                != path by {
                let j1 = if j < i {
                    j
                } else {
                    j + 1
                };
                assert(dir2[j] == s.dir[j1]);
                if j1 != i {
                    assert(s.dir[i].path == path);
                }
            }
            lemma_dir_find_from_no_match(dir2, path, 0);
        },
    }
}

/// Rename moves the path: after renaming, an Open of the old path for
/// reading fails with the not-found code and changes nothing, and an Open
/// of the new path for reading succeeds with the fresh handle.
pub proof fn lemma_rename_then_open(
    s: ServerStateView,
    oldp: Seq<u8>,
    newp: Seq<u8>,
    id1: u64,
    id2: u64,
)
    requires
        wf_server(s),
        oldp != newp,
        spec_dir_find(s.dir, oldp) is Some,
    ensures
        spec_do_rename(s, RenameArgsView { oldpath: oldp, newpath: newp }).1.result == RESULT_OK,
        ({
            let s1 = spec_do_rename(s, RenameArgsView { oldpath: oldp, newpath: newp }).0;
            let miss = spec_do_open(s1, OpenArgsView { pathname: oldp, mode: mode_read() }, id1);
            let hit = spec_do_open(s1, OpenArgsView { pathname: newp, mode: mode_read() }, id2);
            &&& miss.0 == s1
            &&& miss.1 == (OpenReply { file_id: 0, result: RESULT_NOT_FOUND })
            &&& hit.1 == (OpenReply { file_id: id2, result: RESULT_OK })
        }),
{
    lemma_dir_find_from_valid(s.dir, oldp, 0);
    lemma_dir_find_from_valid(s.dir, newp, 0);
    let i = spec_dir_find(s.dir, oldp)->Some_0;
    let dir1 = s.dir.update(i, DirEntryView { path: newp, inode: s.dir[i].inode });
    let s1 = spec_do_rename(s, RenameArgsView { oldpath: oldp, newpath: newp }).0;
    match spec_dir_find(s.dir, newp) {
        Some(j) => {
            assert(j != i);
            let dir2 = dir1.remove(j);
            assert(s1.dir == dir2);
            assert forall|x: int| 0 <= x < dir2.len() implies (#[trigger] dir2[x]).path
                != oldp by {
                let x1 = if x < j {
                    x
                } else {
                    x + 1
                };
                assert(dir2[x] == dir1[x1]);
            }
            lemma_dir_find_from_no_match(dir2, oldp, 0);
            let iafter = if i < j {
                i
            } else {
                i - 1
            };
            assert(dir2[iafter] == dir1[i]);
            lemma_dir_find_from_valid(dir2, newp, 0);
            if spec_dir_find(dir2, newp) is None {
                assert(dir2[iafter].path != newp);
                assert(false);
            }
        },
        None => {
            assert(s1.dir == dir1);
            assert forall|x: int| 0 <= x < dir1.len() implies (#[trigger] dir1[x]).path
                != oldp by {}
            lemma_dir_find_from_no_match(dir1, oldp, 0);
            lemma_dir_find_from_valid(dir1, newp, 0);
            if spec_dir_find(dir1, newp) is None {
                assert(dir1[i].path != newp);
                assert(false);
            }
        },
    }
}

/// Writing a file and reading it back: opening a path for writing, writing
/// bytes through the returned handle, opening the same path for reading,
/// and reading that many bytes through the second handle returns exactly
/// the bytes written, in order.
pub proof fn lemma_write_then_read_back(
    s: ServerStateView,
    path: Seq<u8>,
    d: Seq<u8>,
    id1: u64,
    id2: u64,
)
    requires
        wf_server(s),
        d.len() <= usize::MAX,
        s.files.len() <= usize::MAX,
    ensures
        ({
            let o1 = spec_do_open(s, OpenArgsView { pathname: path, mode: mode_write() }, id1);
            let o2 = spec_do_write(o1.0, WriteArgsView { file_id: id1, data: d });
            let o3 = spec_do_open(o2.0, OpenArgsView { pathname: path, mode: mode_read() }, id2);
            let o4 = spec_do_read(
                o3.0,
                ReadArgs { file_id: id2, count: d.len() as usize },
            );
            &&& o1.1 == (OpenReply { file_id: id1, result: RESULT_OK })
            &&& o2.1 == (WriteReply { bytes_written: d.len() as usize, result: RESULT_OK })
            &&& o3.1 == (OpenReply { file_id: id2, result: RESULT_OK })
            &&& o4.1.result == RESULT_OK
            &&& o4.1.data == d
            &&& o4.1.bytes_read == d.len()
        }),
{
    assert(mode_write() != mode_read()) by {
        assert(mode_write()[0] != mode_read()[0]);
    }
    lemma_dir_find_from_valid(s.dir, path, 0);
    let o1 = spec_do_open(s, OpenArgsView { pathname: path, mode: mode_write() }, id1);
    let s1 = o1.0;
    let k: usize = match spec_dir_find(s.dir, path) {
        Some(i) => s.dir[i].inode,
        None => s.files.len() as usize,
    };
    assert(s1.files[k as int].data == Seq::<u8>::empty());
    assert(s1.handles.last() == (id1, OpenFile { inode: k, position: 0, readable: false, writable: true }));
    crate::handle_table::lemma_find_idx_push(
        s.handles,
        (id1, OpenFile { inode: k, position: 0, readable: false, writable: true }),
        id1,
    );
    let o2 = spec_do_write(s1, WriteArgsView { file_id: id1, data: d });
    let s2 = o2.0;
    if d.len() == 0 {
        assert(s2 == s1);
    } else {
        assert(spec_write_data(Seq::<u8>::empty(), 0, d) =~= d);
        assert(s2.files[k as int].data == d);
    }
    assert(s2.dir == s1.dir);
    match spec_dir_find(s.dir, path) {
        Some(i) => {
            assert(s1.dir == s.dir);
            assert(spec_dir_find(s2.dir, path) == Some(i));
        },
        None => {
            lemma_dir_find_push_match_from(
                s.dir,
                path,
                DirEntryView { path, inode: k },
                0,
            );
            assert(spec_dir_find(s2.dir, path) == Some(s.dir.len() as int));
        },
    }
    let o3 = spec_do_open(s2, OpenArgsView { pathname: path, mode: mode_read() }, id2);
    let s3 = o3.0;
    let of2 = OpenFile { inode: k, position: 0, readable: true, writable: false };
    assert(s3.handles == s2.handles.push((id2, of2)));
    crate::handle_table::lemma_find_idx_push(s2.handles, (id2, of2), id2);
    let o4 = spec_do_read(s3, ReadArgs { file_id: id2, count: d.len() as usize });
    assert(s3.files[k as int].data == (if d.len() == 0 { Seq::<u8>::empty() } else { d }));
    if d.len() == 0 {
        assert(o4.1.data =~= d);
    } else {
        assert(o4.1.data =~= d) by {
            assert(d.subrange(0, d.len() as int) =~= d);
        }
    }
}

/// Seeking back to the start repeats a read: a read from position zero,
/// then a seek to the start, then a read of the same count returns the same
/// bytes as the first read.
pub proof fn lemma_seek_start_reread(s: ServerStateView, id: u64, count: usize)
    requires
        wf_server(s),
        spec_find_idx(s.handles, id) is Some,
        s.handles[spec_find_idx(s.handles, id)->Some_0].1.readable,
        s.handles[spec_find_idx(s.handles, id)->Some_0].1.position == 0,
    ensures
        ({
            let o1 = spec_do_read(s, ReadArgs { file_id: id, count });
            let o2 = spec_do_lseek(o1.0, LseekArgs { file_id: id, offset: 0, whence: 0 });
            let o3 = spec_do_read(o2.0, ReadArgs { file_id: id, count });
            &&& o1.1.result == RESULT_OK
            &&& o2.1 == (LseekReply { offset: 0, result: RESULT_OK })
            &&& o3.1.result == RESULT_OK
            &&& o3.1.data == o1.1.data
            &&& o3.1.bytes_read == o1.1.bytes_read
        }),
{
    crate::handle_table::lemma_find_idx_valid(s.handles, id);
    let hi = spec_find_idx(s.handles, id)->Some_0;
    let of = s.handles[hi].1;
    let data = s.files[of.inode as int].data;
    let o1 = spec_do_read(s, ReadArgs { file_id: id, count });
    let s1 = o1.0;
    if data.len() > 0 {
        let n1: int = if count as int <= data.len() {
            count as int
        } else {
            data.len() as int
        };
        let of1 = OpenFile {
            inode: of.inode,
            position: n1 as u64,
            readable: of.readable,
            writable: of.writable,
        };
        crate::handle_table::lemma_find_idx_update(s.handles, hi, of1, id);
        assert(s1.handles == s.handles.update(hi, (id, of1)));
    }
    assert(spec_find_idx(s1.handles, id) == Some(hi));
    assert(s1.files == s.files);
    let ofr = s1.handles[hi].1;
    assert(ofr.inode == of.inode && ofr.readable && ofr.writable == of.writable);
    let o2 = spec_do_lseek(s1, LseekArgs { file_id: id, offset: 0, whence: 0 });
    let s2 = o2.0;
    let of2 = OpenFile { inode: ofr.inode, position: 0, readable: ofr.readable, writable: ofr.writable };
    crate::handle_table::lemma_find_idx_update(s1.handles, hi, of2, id);
    assert(s2.handles == s1.handles.update(hi, (id, of2)));
    assert(spec_find_idx(s2.handles, id) == Some(hi));
    assert(s2.handles[hi].1 == of2);
    assert(s2.files == s.files);
    let o3 = spec_do_read(s2, ReadArgs { file_id: id, count });
    if data.len() > 0 {
        let of3 = OpenFile {
            inode: of2.inode,
            position: o3.0.handles[hi].1.position,
            readable: of2.readable,
            writable: of2.writable,
        };
        assert(o3.1.data == o1.1.data);
    }
}

/// Every response carries the sequence number of exactly the request it
/// answers, whether the handler ran or not; the client's matching rests on
/// this.
pub proof fn lemma_response_echoes_sequence_number(
    s: ServerStateView,
    req: RequestView,
    fresh_id: u64,
)
    ensures
        spec_handle_request(s, req, fresh_id).1.sequence_number == req.sequence_number,
{
}

/// Renaming preserves well-formedness.
pub proof fn lemma_wf_rename(s: ServerStateView, a: RenameArgsView)
    requires
        wf_server(s),
    ensures
        wf_server(spec_do_rename(s, a).0),
{
    lemma_dir_find_from_valid(s.dir, a.oldpath, 0);
    match spec_dir_find(s.dir, a.oldpath) {
        None => {},
        Some(i) => {
            if a.oldpath == a.newpath {
            } else {
                let dir1 = s.dir.update(i, DirEntryView { path: a.newpath, inode: s.dir[i].inode });
                lemma_dir_find_from_valid(s.dir, a.newpath, 0);
                match spec_dir_find(s.dir, a.newpath) {
                    Some(j) => {
                        let dir2 = dir1.remove(j);
                        assert forall|x: int, y: int|
                            0 <= x < y < dir2.len() implies (#[trigger] dir2[x]).path != (
                        #[trigger] dir2[y]).path by {
                            let x1 = if x < j { x } else { x + 1 };
                            let y1 = if y < j { y } else { y + 1 };
                            assert(dir2[x] == dir1[x1]);
                            assert(dir2[y] == dir1[y1]);
                        }
                    },
                    None => {
                        assert forall|x: int, y: int|
                            0 <= x < y < dir1.len() implies (#[trigger] dir1[x]).path != (
                        #[trigger] dir1[y]).path by {}
                    },
                }
            }
        },
    }
}

} // verus!
