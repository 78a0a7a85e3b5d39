//! Scenario tests against the server's dispatcher and file store.

use remote_fs::msg::{
    ChmodArgs, LseekArgs, OpenArgs, Operation, ReadArgs, RenameArgs, Request, UnlinkArgs,
    WriteArgs,
};
use remote_fs::server::ServerState;
use remote_fs::{
    RESULT_BAD_ACCESS, RESULT_BAD_SEEK, RESULT_INVALID, RESULT_NOT_FOUND, RESULT_OK,
};

fn open(s: &mut ServerState, path: &[u8], mode: &[u8], id: u64) -> remote_fs::msg::OpenReply {
    s.do_open(&OpenArgs { pathname: path.to_vec(), mode: mode.to_vec() }, id)
}

#[test]
fn write_then_read_back() {
    let mut s = ServerState::new();
    let rep = open(&mut s, b"test.txt", b"w", 10);
    assert_eq!(rep.result, RESULT_OK);
    assert_eq!(rep.file_id, 10);
    let w = s.do_write(&WriteArgs { file_id: 10, data: b"Hello, World!".to_vec() });
    assert_eq!(w.result, RESULT_OK);
    assert_eq!(w.bytes_written, 13);
    let rep = open(&mut s, b"test.txt", b"r", 11);
    assert_eq!(rep.result, RESULT_OK);
    let r = s.do_read(&ReadArgs { file_id: 11, count: 13 });
    assert_eq!(r.result, RESULT_OK);
    assert_eq!(r.bytes_read, 13);
    assert_eq!(r.data, b"Hello, World!".to_vec());
}

#[test]
fn seek_to_start_rereads_the_same_bytes() {
    let mut s = ServerState::new();
    open(&mut s, b"test.txt", b"w", 1);
    s.do_write(&WriteArgs { file_id: 1, data: b"Hello, World!".to_vec() });
    open(&mut s, b"test.txt", b"r", 2);
    let first = s.do_read(&ReadArgs { file_id: 2, count: 13 });
    assert_eq!(first.data, b"Hello, World!".to_vec());
    let sk = s.do_lseek(&LseekArgs { file_id: 2, offset: 0, whence: 0 });
    assert_eq!(sk.result, RESULT_OK);
    assert_eq!(sk.offset, 0);
    let second = s.do_read(&ReadArgs { file_id: 2, count: 13 });
    assert_eq!(second.result, RESULT_OK);
    assert_eq!(second.data, first.data);
    assert_eq!(second.bytes_read, first.bytes_read);
}

#[test]
fn unlink_then_open_fails_not_found() {
    let mut s = ServerState::new();
    open(&mut s, b"doomed.txt", b"w", 1);
    let u = s.do_unlink(&UnlinkArgs { pathname: b"doomed.txt".to_vec() });
    assert_eq!(u.result, RESULT_OK);
    let rep = open(&mut s, b"doomed.txt", b"r", 2);
    assert_eq!(rep.result, RESULT_NOT_FOUND);
    assert_eq!(rep.file_id, 0);
    let u = s.do_unlink(&UnlinkArgs { pathname: b"doomed.txt".to_vec() });
    assert_eq!(u.result, RESULT_NOT_FOUND);
}

#[test]
fn rename_moves_the_path() {
    let mut s = ServerState::new();
    open(&mut s, b"old.txt", b"w", 1);
    s.do_write(&WriteArgs { file_id: 1, data: b"kept".to_vec() });
    let r = s.do_rename(&RenameArgs { oldpath: b"old.txt".to_vec(), newpath: b"new.txt".to_vec() });
    assert_eq!(r.result, RESULT_OK);
    let miss = open(&mut s, b"old.txt", b"r", 2);
    assert_eq!(miss.result, RESULT_NOT_FOUND);
    let hit = open(&mut s, b"new.txt", b"r", 3);
    assert_eq!(hit.result, RESULT_OK);
    let rd = s.do_read(&ReadArgs { file_id: 3, count: 4 });
    assert_eq!(rd.data, b"kept".to_vec());
}

#[test]
fn rename_replaces_an_existing_target() {
    let mut s = ServerState::new();
    open(&mut s, b"a.txt", b"w", 1);
    s.do_write(&WriteArgs { file_id: 1, data: b"from a".to_vec() });
    open(&mut s, b"b.txt", b"w", 2);
    s.do_write(&WriteArgs { file_id: 2, data: b"from b".to_vec() });
    let r = s.do_rename(&RenameArgs { oldpath: b"a.txt".to_vec(), newpath: b"b.txt".to_vec() });
    assert_eq!(r.result, RESULT_OK);
    open(&mut s, b"b.txt", b"r", 3);
    let rd = s.do_read(&ReadArgs { file_id: 3, count: 6 });
    assert_eq!(rd.data, b"from a".to_vec());
    assert_eq!(open(&mut s, b"a.txt", b"r", 4).result, RESULT_NOT_FOUND);
}

#[test]
fn rename_missing_source_fails() {
    let mut s = ServerState::new();
    let r = s.do_rename(&RenameArgs { oldpath: b"no".to_vec(), newpath: b"where".to_vec() });
    assert_eq!(r.result, RESULT_NOT_FOUND);
}

#[test]
fn rename_to_itself_succeeds() {
    let mut s = ServerState::new();
    open(&mut s, b"same.txt", b"w", 1);
    let r = s.do_rename(&RenameArgs {
        oldpath: b"same.txt".to_vec(),
        newpath: b"same.txt".to_vec(),
    });
    assert_eq!(r.result, RESULT_OK);
    assert_eq!(open(&mut s, b"same.txt", b"r", 2).result, RESULT_OK);
}

#[test]
fn unknown_handle_is_rejected_not_fatal() {
    let mut s = ServerState::new();
    let r = s.do_read(&ReadArgs { file_id: 42, count: 10 });
    assert_eq!(r.result, RESULT_INVALID);
    assert_eq!(r.bytes_read, 0);
    assert!(r.data.is_empty());
    let w = s.do_write(&WriteArgs { file_id: 42, data: b"x".to_vec() });
    assert_eq!(w.result, RESULT_INVALID);
    assert_eq!(w.bytes_written, 0);
    let sk = s.do_lseek(&LseekArgs { file_id: 42, offset: 0, whence: 0 });
    assert_eq!(sk.result, RESULT_INVALID);
}

#[test]
fn invalid_mode_is_rejected() {
    let mut s = ServerState::new();
    assert_eq!(open(&mut s, b"x", b"rw", 1).result, RESULT_INVALID);
    assert_eq!(open(&mut s, b"x", b"", 2).result, RESULT_INVALID);
    assert_eq!(open(&mut s, b"x", b"a", 3).result, RESULT_INVALID);
}

#[test]
fn invalid_whence_is_rejected() {
    let mut s = ServerState::new();
    open(&mut s, b"x", b"w", 1);
    let sk = s.do_lseek(&LseekArgs { file_id: 1, offset: 0, whence: 3 });
    assert_eq!(sk.result, RESULT_INVALID);
    assert_eq!(sk.offset, 0);
}

#[test]
fn access_mode_is_enforced_per_handle() {
    let mut s = ServerState::new();
    open(&mut s, b"x", b"w", 1);
    s.do_write(&WriteArgs { file_id: 1, data: b"data".to_vec() });
    let r = s.do_read(&ReadArgs { file_id: 1, count: 4 });
    assert_eq!(r.result, RESULT_BAD_ACCESS);
    open(&mut s, b"x", b"r", 2);
    let w = s.do_write(&WriteArgs { file_id: 2, data: b"no".to_vec() });
    assert_eq!(w.result, RESULT_BAD_ACCESS);
}

#[test]
fn read_past_end_returns_zero_bytes() {
    let mut s = ServerState::new();
    open(&mut s, b"x", b"w", 1);
    s.do_write(&WriteArgs { file_id: 1, data: b"abc".to_vec() });
    open(&mut s, b"x", b"r", 2);
    let r = s.do_read(&ReadArgs { file_id: 2, count: 100 });
    assert_eq!(r.bytes_read, 3);
    assert_eq!(r.data, b"abc".to_vec());
    let r = s.do_read(&ReadArgs { file_id: 2, count: 100 });
    assert_eq!(r.result, RESULT_OK);
    assert_eq!(r.bytes_read, 0);
    assert!(r.data.is_empty());
}

#[test]
fn open_for_writing_truncates() {
    let mut s = ServerState::new();
    open(&mut s, b"x", b"w", 1);
    s.do_write(&WriteArgs { file_id: 1, data: b"long content".to_vec() });
    open(&mut s, b"x", b"w", 2);
    open(&mut s, b"x", b"r", 3);
    let r = s.do_read(&ReadArgs { file_id: 3, count: 100 });
    assert_eq!(r.bytes_read, 0);
}

#[test]
fn write_past_end_fills_the_gap_with_zeros() {
    let mut s = ServerState::new();
    open(&mut s, b"x", b"w", 1);
    s.do_write(&WriteArgs { file_id: 1, data: b"ab".to_vec() });
    let sk = s.do_lseek(&LseekArgs { file_id: 1, offset: 5, whence: 0 });
    assert_eq!(sk.offset, 5);
    s.do_write(&WriteArgs { file_id: 1, data: b"cd".to_vec() });
    open(&mut s, b"x", b"r", 2);
    let r = s.do_read(&ReadArgs { file_id: 2, count: 100 });
    assert_eq!(r.data, vec![b'a', b'b', 0, 0, 0, b'c', b'd']);
}

#[test]
fn overwrite_in_the_middle_keeps_the_tail() {
    let mut s = ServerState::new();
    open(&mut s, b"x", b"w", 1);
    s.do_write(&WriteArgs { file_id: 1, data: b"abcdef".to_vec() });
    s.do_lseek(&LseekArgs { file_id: 1, offset: 1, whence: 0 });
    s.do_write(&WriteArgs { file_id: 1, data: b"XY".to_vec() });
    open(&mut s, b"x", b"r", 2);
    let r = s.do_read(&ReadArgs { file_id: 2, count: 100 });
    assert_eq!(r.data, b"aXYdef".to_vec());
}

#[test]
fn lseek_whence_current_and_end() {
    let mut s = ServerState::new();
    open(&mut s, b"x", b"w", 1);
    s.do_write(&WriteArgs { file_id: 1, data: b"0123456789".to_vec() });
    open(&mut s, b"x", b"r", 2);
    s.do_read(&ReadArgs { file_id: 2, count: 4 });
    let sk = s.do_lseek(&LseekArgs { file_id: 2, offset: 2, whence: 1 });
    assert_eq!(sk.offset, 6);
    let sk = s.do_lseek(&LseekArgs { file_id: 2, offset: -3, whence: 2 });
    assert_eq!(sk.offset, 7);
    let r = s.do_read(&ReadArgs { file_id: 2, count: 100 });
    assert_eq!(r.data, b"789".to_vec());
}

#[test]
fn lseek_before_start_fails_without_moving() {
    let mut s = ServerState::new();
    open(&mut s, b"x", b"w", 1);
    s.do_write(&WriteArgs { file_id: 1, data: b"abc".to_vec() });
    let sk = s.do_lseek(&LseekArgs { file_id: 1, offset: -10, whence: 1 });
    assert_eq!(sk.result, RESULT_BAD_SEEK);
    assert_eq!(sk.offset, 0);
    let sk = s.do_lseek(&LseekArgs { file_id: 1, offset: 0, whence: 1 });
    assert_eq!(sk.offset, 3);
}

#[test]
fn chmod_updates_or_fails() {
    let mut s = ServerState::new();
    open(&mut s, b"x", b"w", 1);
    let c = s.do_chmod(&ChmodArgs { pathname: b"x".to_vec(), mode: 0o600 });
    assert_eq!(c.result, RESULT_OK);
    let c = s.do_chmod(&ChmodArgs { pathname: b"missing".to_vec(), mode: 0o600 });
    assert_eq!(c.result, RESULT_NOT_FOUND);
}

#[test]
fn a_handle_survives_unlink_and_rename() {
    let mut s = ServerState::new();
    open(&mut s, b"x", b"w", 1);
    s.do_write(&WriteArgs { file_id: 1, data: b"still here".to_vec() });
    open(&mut s, b"x", b"r", 2);
    s.do_unlink(&UnlinkArgs { pathname: b"x".to_vec() });
    let r = s.do_read(&ReadArgs { file_id: 2, count: 100 });
    assert_eq!(r.result, RESULT_OK);
    assert_eq!(r.data, b"still here".to_vec());
}

#[test]
fn dispatcher_runs_an_operation_end_to_end() {
    let mut s = ServerState::new();
    let req = Request {
        auth_token: 77,
        sequence_number: 123,
        operation: Operation::Open,
        arguments: remote_fs::codec::encode_open_args(&OpenArgs {
            pathname: b"f".to_vec(),
            mode: b"w".to_vec(),
        }),
    };
    let resp = s.handle_request_with_id(&req, 5);
    assert_eq!(resp.sequence_number, 123);
    assert_eq!(resp.status, 0);
    let rep = remote_fs::codec::decode_open_reply(&resp.data).expect("reply must decode");
    assert_eq!(rep.result, RESULT_OK);
    assert_eq!(rep.file_id, 5);
    assert!(s.has_seen_token(77));
    assert!(!s.has_seen_token(78));
}

#[test]
fn dispatcher_reports_a_malformed_payload_as_status_failure() {
    let mut s = ServerState::new();
    let req = Request {
        auth_token: 1,
        sequence_number: 9,
        operation: Operation::Open,
        arguments: vec![1, 2, 3],
    };
    let resp = s.handle_request_with_id(&req, 5);
    assert_eq!(resp.sequence_number, 9);
    assert_eq!(resp.status, 1);
    assert!(resp.data.is_empty());
}

#[test]
fn a_datagram_that_does_not_decode_is_dropped() {
    let mut s = ServerState::new();
    assert!(s.handle_datagram(&[1, 2, 3]).is_none());
    assert!(s.handle_datagram(&[]).is_none());
}

#[test]
fn a_well_formed_datagram_is_answered() {
    let mut s = ServerState::new();
    let req = Request {
        auth_token: 4,
        sequence_number: 44,
        operation: Operation::Unlink,
        arguments: remote_fs::codec::encode_unlink_args(&UnlinkArgs {
            pathname: b"nope".to_vec(),
        }),
    };
    let out = s.handle_datagram(&remote_fs::codec::encode_request(&req)).expect("answered");
    let resp = remote_fs::codec::decode_response(&out).expect("response must decode");
    assert_eq!(resp.sequence_number, 44);
    assert_eq!(resp.status, 0);
    let rep = remote_fs::codec::decode_simple_reply(&resp.data).expect("reply must decode");
    assert_eq!(rep.result, RESULT_NOT_FOUND);
}
