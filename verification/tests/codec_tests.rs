//! Round trips and rejection cases for the wire protocol.

use remote_fs::codec::{
    decode_chmod_args, decode_lseek_args, decode_lseek_reply, decode_open_args,
    decode_open_reply, decode_read_args, decode_read_reply, decode_rename_args, decode_request,
    decode_response, decode_simple_reply, decode_unlink_args, decode_write_args,
    decode_write_reply, encode_chmod_args, encode_lseek_args, encode_lseek_reply,
    encode_open_args, encode_open_reply, encode_read_args, encode_read_reply,
    encode_rename_args, encode_request, encode_response, encode_simple_reply,
    encode_unlink_args, encode_write_args, encode_write_reply,
};
use remote_fs::msg::{
    ChmodArgs, LseekArgs, LseekReply, OpenArgs, OpenReply, Operation, ReadArgs, ReadReply,
    RenameArgs, Request, Response, SimpleReply, UnlinkArgs, WriteArgs, WriteReply,
};

fn sample_request(op: Operation) -> Request {
    Request {
        auth_token: 0x0102030405060708,
        sequence_number: 0x1112131415161718,
        operation: op,
        arguments: vec![0xAA, 0xBB, 0xCC],
    }
}

#[test]
fn request_round_trip_every_operation() {
    let ops = [
        Operation::Open,
        Operation::Read,
        Operation::Write,
        Operation::Lseek,
        Operation::Chmod,
        Operation::Unlink,
        Operation::Rename,
    ];
    for op in ops {
        let r = sample_request(op);
        let bytes = encode_request(&r);
        let back = decode_request(&bytes).expect("an encoded request must decode");
        assert_eq!(back, r);
    }
}

#[test]
fn request_layout_is_little_endian_with_one_byte_tag() {
    let r = Request {
        auth_token: 0x0102030405060708,
        sequence_number: 0x1112131415161718,
        operation: Operation::Read,
        arguments: vec![0xAA, 0xBB],
    };
    let bytes = encode_request(&r);
    let expected: Vec<u8> = vec![
        0x08, 0x07, 0x06, 0x05, 0x04, 0x03, 0x02, 0x01, // auth token
        0x18, 0x17, 0x16, 0x15, 0x14, 0x13, 0x12, 0x11, // sequence number
        0x01, // Read tag
        0x02, 0x00, 0x00, 0x00, 0x00, 0x00, 0x00, 0x00, // payload length
        0xAA, 0xBB, // payload
    ];
    assert_eq!(bytes, expected);
}

#[test]
fn request_decode_rejects_bad_input() {
    let good = encode_request(&sample_request(Operation::Open));
    assert!(decode_request(&good[..good.len() - 1]).is_none(), "truncated");
    let mut trailing = good.clone();
    trailing.push(0);
    assert!(decode_request(&trailing).is_none(), "trailing byte");
    let mut bad_tag = good.clone();
    bad_tag[16] = 7;
    assert!(decode_request(&bad_tag).is_none(), "unknown operation tag");
    let mut bad_len = good;
    bad_len[17] = bad_len[17].wrapping_add(1);
    assert!(decode_request(&bad_len).is_none(), "wrong payload length");
    assert!(decode_request(&[]).is_none(), "empty");
}

#[test]
fn response_round_trip_and_rejects() {
    let r = Response { sequence_number: 99, status: 1, data: vec![1, 2, 3, 4] };
    let bytes = encode_response(&r);
    assert_eq!(decode_response(&bytes).expect("must decode"), r);
    assert!(decode_response(&bytes[..bytes.len() - 1]).is_none());
    let mut trailing = bytes;
    trailing.push(9);
    assert!(decode_response(&trailing).is_none());
}

#[test]
fn open_args_round_trip() {
    let a = OpenArgs { pathname: b"test.txt".to_vec(), mode: b"r".to_vec() };
    let bytes = encode_open_args(&a);
    assert_eq!(decode_open_args(&bytes).expect("must decode"), a);
    let empty = OpenArgs { pathname: Vec::new(), mode: Vec::new() };
    let bytes = encode_open_args(&empty);
    assert_eq!(decode_open_args(&bytes).expect("must decode"), empty);
    assert!(decode_open_args(&bytes[..bytes.len() - 1]).is_none());
}

#[test]
fn open_reply_round_trip_with_negative_result() {
    let r = OpenReply { file_id: u64::MAX, result: -1 };
    assert_eq!(decode_open_reply(&encode_open_reply(&r)).expect("must decode"), r);
    let r = OpenReply { file_id: 7, result: 2 };
    let bytes = encode_open_reply(&r);
    assert_eq!(bytes.len(), 12);
    assert_eq!(decode_open_reply(&bytes).expect("must decode"), r);
    assert!(decode_open_reply(&bytes[..11]).is_none());
}

#[test]
fn read_args_round_trip() {
    let a = ReadArgs { file_id: 42, count: 4096 };
    let bytes = encode_read_args(&a);
    assert_eq!(bytes.len(), 16);
    assert_eq!(decode_read_args(&bytes).expect("must decode"), a);
}

#[test]
fn read_reply_round_trip() {
    let r = ReadReply { data: b"Hello".to_vec(), bytes_read: 5, result: 0 };
    let bytes = encode_read_reply(&r);
    assert_eq!(decode_read_reply(&bytes).expect("must decode"), r);
    let r = ReadReply { data: Vec::new(), bytes_read: 0, result: -1 };
    assert_eq!(decode_read_reply(&encode_read_reply(&r)).expect("must decode"), r);
}

#[test]
fn write_args_round_trip() {
    let a = WriteArgs { file_id: 3, data: b"Hello, World!".to_vec() };
    let bytes = encode_write_args(&a);
    assert_eq!(decode_write_args(&bytes).expect("must decode"), a);
    let mut trailing = bytes;
    trailing.push(0);
    assert!(decode_write_args(&trailing).is_none());
}

#[test]
fn write_reply_round_trip() {
    let r = WriteReply { bytes_written: 13, result: 0 };
    assert_eq!(decode_write_reply(&encode_write_reply(&r)).expect("must decode"), r);
}

#[test]
fn lseek_args_round_trip_with_negative_offset() {
    let a = LseekArgs { file_id: 5, offset: -100, whence: 2 };
    let bytes = encode_lseek_args(&a);
    assert_eq!(bytes.len(), 20);
    assert_eq!(decode_lseek_args(&bytes).expect("must decode"), a);
    let a = LseekArgs { file_id: 5, offset: i64::MIN, whence: 0 };
    assert_eq!(decode_lseek_args(&encode_lseek_args(&a)).expect("must decode"), a);
}

#[test]
fn lseek_reply_round_trip() {
    let r = LseekReply { offset: 12345, result: 0 };
    assert_eq!(decode_lseek_reply(&encode_lseek_reply(&r)).expect("must decode"), r);
}

#[test]
fn chmod_args_round_trip() {
    let a = ChmodArgs { pathname: b"test.txt".to_vec(), mode: 0o644 };
    assert_eq!(decode_chmod_args(&encode_chmod_args(&a)).expect("must decode"), a);
}

#[test]
fn unlink_args_round_trip() {
    let a = UnlinkArgs { pathname: b"gone.txt".to_vec() };
    assert_eq!(decode_unlink_args(&encode_unlink_args(&a)).expect("must decode"), a);
}

#[test]
fn rename_args_round_trip() {
    let a = RenameArgs { oldpath: b"a.txt".to_vec(), newpath: b"b.txt".to_vec() };
    let bytes = encode_rename_args(&a);
    assert_eq!(decode_rename_args(&bytes).expect("must decode"), a);
    assert!(decode_rename_args(&bytes[..bytes.len() - 1]).is_none());
}

#[test]
fn simple_reply_round_trip() {
    let r = SimpleReply { result: -1 };
    let bytes = encode_simple_reply(&r);
    assert_eq!(bytes.len(), 4);
    assert_eq!(decode_simple_reply(&bytes).expect("must decode"), r);
    let r = SimpleReply { result: 13 };
    assert_eq!(decode_simple_reply(&encode_simple_reply(&r)).expect("must decode"), r);
}

#[test]
fn nested_payload_survives_the_envelope() {
    let args = WriteArgs { file_id: 9, data: b"payload".to_vec() };
    let req = Request {
        auth_token: 1,
        sequence_number: 2,
        operation: Operation::Write,
        arguments: encode_write_args(&args),
    };
    let envelope = encode_request(&req);
    let back = decode_request(&envelope).expect("envelope must decode");
    let inner = decode_write_args(&back.arguments).expect("payload must decode");
    assert_eq!(inner, args);
}
