//! Tests of the client's request building, response matching, reply
//! interpretation and retry discipline, including a full loopback against
//! the server with simulated packet loss.

use remote_fs::client::{
    interpret_lseek_reply, interpret_open_reply, interpret_read_reply, interpret_simple_reply,
    interpret_write_reply, match_response, retry_outcome, ClientError, ClientSession,
};
use remote_fs::codec::{
    decode_open_args, decode_read_args, decode_request, decode_write_args, encode_lseek_reply,
    encode_open_reply, encode_read_reply, encode_request, encode_response, encode_simple_reply,
    encode_write_reply,
};
use remote_fs::msg::{
    LseekReply, OpenReply, Operation, ReadReply, Request, Response, SimpleReply, WriteReply,
};
use remote_fs::server::ServerState;
use remote_fs::{RESULT_NOT_FOUND, RESULT_OK};

#[test]
fn builders_stamp_the_session_token_and_encode_the_payload() {
    let session = ClientSession::with_token(500);
    let req = session.open_request(&b"f.txt".to_vec(), &b"r".to_vec(), 9);
    assert_eq!(req.auth_token, 500);
    assert_eq!(req.sequence_number, 9);
    assert!(matches!(req.operation, Operation::Open));
    let args = decode_open_args(&req.arguments).expect("payload must decode");
    assert_eq!(args.pathname, b"f.txt".to_vec());
    assert_eq!(args.mode, b"r".to_vec());

    let req = session.read_request(3, 128, 10);
    let args = decode_read_args(&req.arguments).expect("payload must decode");
    assert_eq!(args.file_id, 3);
    assert_eq!(args.count, 128);

    let req = session.write_request(3, &b"abc".to_vec(), 11);
    let args = decode_write_args(&req.arguments).expect("payload must decode");
    assert_eq!(args.data, b"abc".to_vec());
}

#[test]
fn a_built_request_survives_the_wire() {
    let session = ClientSession::with_token(1);
    let req = session.unlink_request(&b"x".to_vec(), 2);
    let back = decode_request(&encode_request(&req)).expect("must decode");
    assert_eq!(back, req);
}

#[test]
fn match_response_accepts_only_the_awaited_sequence_number() {
    let resp = Response { sequence_number: 7, status: 0, data: vec![] };
    let bytes = encode_response(&resp);
    assert_eq!(match_response(7, &bytes).expect("matched"), resp);
    assert_eq!(match_response(8, &bytes), Err(ClientError::Mismatch));
    assert_eq!(match_response(7, &bytes[1..]), Err(ClientError::Malformed));
}

#[test]
fn interpret_open_reply_covers_every_outcome() {
    let ok = Response {
        sequence_number: 1,
        status: 0,
        data: encode_open_reply(&OpenReply { file_id: 12, result: 0 }),
    };
    assert_eq!(interpret_open_reply(&ok), Ok(12));
    let refused = Response {
        sequence_number: 1,
        status: 0,
        data: encode_open_reply(&OpenReply { file_id: 0, result: 2 }),
    };
    assert_eq!(interpret_open_reply(&refused), Err(ClientError::Os(2)));
    let failed = Response { sequence_number: 1, status: 1, data: vec![] };
    assert_eq!(interpret_open_reply(&failed), Err(ClientError::Failed));
    let malformed = Response { sequence_number: 1, status: 0, data: vec![1, 2] };
    assert_eq!(interpret_open_reply(&malformed), Err(ClientError::Malformed));
}

#[test]
fn interpret_read_reply_checks_the_byte_count() {
    let good = Response {
        sequence_number: 1,
        status: 0,
        data: encode_read_reply(&ReadReply { data: b"ab".to_vec(), bytes_read: 2, result: 0 }),
    };
    let rep = interpret_read_reply(&good).expect("consistent reply");
    assert_eq!(rep.data, b"ab".to_vec());
    let lying = Response {
        sequence_number: 1,
        status: 0,
        data: encode_read_reply(&ReadReply { data: b"ab".to_vec(), bytes_read: 3, result: 0 }),
    };
    assert_eq!(interpret_read_reply(&lying).unwrap_err(), ClientError::Malformed);
    let refused = Response {
        sequence_number: 1,
        status: 0,
        data: encode_read_reply(&ReadReply { data: vec![], bytes_read: 0, result: -1 }),
    };
    assert_eq!(interpret_read_reply(&refused).unwrap_err(), ClientError::Os(-1));
}

#[test]
fn interpret_write_lseek_and_simple_replies() {
    let w = Response {
        sequence_number: 1,
        status: 0,
        data: encode_write_reply(&WriteReply { bytes_written: 5, result: 0 }),
    };
    assert_eq!(interpret_write_reply(&w), Ok(5));
    let sk = Response {
        sequence_number: 1,
        status: 0,
        data: encode_lseek_reply(&LseekReply { offset: 40, result: 0 }),
    };
    assert_eq!(interpret_lseek_reply(&sk), Ok(40));
    let simple = Response {
        sequence_number: 1,
        status: 0,
        data: encode_simple_reply(&SimpleReply { result: 0 }),
    };
    assert_eq!(interpret_simple_reply(&simple), Ok(()));
    let refused = Response {
        sequence_number: 1,
        status: 0,
        data: encode_simple_reply(&SimpleReply { result: 13 }),
    };
    assert_eq!(interpret_simple_reply(&refused), Err(ClientError::Os(13)));
}

#[test]
fn retry_resolves_the_first_success_and_times_out_after_two_losses() {
    let resp = Response { sequence_number: 1, status: 0, data: vec![] };
    let other = Response { sequence_number: 2, status: 0, data: vec![] };
    assert_eq!(
        retry_outcome(Ok(resp.clone()), Err(ClientError::Mismatch)).expect("first wins"),
        resp
    );
    assert_eq!(
        retry_outcome(Ok(resp.clone()), Ok(other.clone())).expect("first wins"),
        resp
    );
    assert_eq!(
        retry_outcome(Err(ClientError::Malformed), Ok(other.clone())).expect("second wins"),
        other
    );
    assert_eq!(
        retry_outcome(
            Err(ClientError::Mismatch),
            Err(ClientError::Malformed),
        ),
        Err(ClientError::Timeout)
    );
}

/// One simulated exchange: the request bytes either reach the server (which
/// answers) or are lost, and the answer either reaches the client or is
/// lost.
fn attempt(
    server: &mut ServerState,
    req: &Request,
    request_lost: bool,
    reply_lost: bool,
) -> Result<Response, ClientError> {
    if request_lost {
        return Err(ClientError::Timeout);
    }
    let answer = server
        .handle_datagram(&encode_request(req))
        .expect("a well-formed request is answered");
    if reply_lost {
        return Err(ClientError::Timeout);
    }
    match_response(req.sequence_number, &answer)
}

#[test]
fn a_call_survives_losing_the_first_request() {
    let mut server = ServerState::new();
    let session = ClientSession::with_token(9);
    let req = session.open_request(&b"f".to_vec(), &b"w".to_vec(), 100);
    let first = attempt(&mut server, &req, true, false);
    let second = attempt(&mut server, &req, false, false);
    let resp = retry_outcome(first, second).expect("the retry saves the call");
    let handle = interpret_open_reply(&resp).expect("open succeeded");
    let wreq = session.write_request(handle, &b"hi".to_vec(), 101);
    let resp = retry_outcome(
        attempt(&mut server, &wreq, false, false),
        Err(ClientError::Timeout),
    )
    .expect("first attempt succeeded");
    assert_eq!(interpret_write_reply(&resp), Ok(2));
}

#[test]
fn a_lost_reply_retries_and_applies_the_write_again() {
    // The documented at-least-once semantics: when the first attempt's
    // reply is lost, the server has already applied the write, and the
    // retry applies it a second time at the advanced position.
    let mut server = ServerState::new();
    let session = ClientSession::with_token(9);
    let open = session.open_request(&b"f".to_vec(), &b"w".to_vec(), 1);
    let resp = attempt(&mut server, &open, false, false).expect("open");
    let handle = interpret_open_reply(&resp).expect("handle");
    let wreq = session.write_request(handle, &b"AB".to_vec(), 2);
    let first = attempt(&mut server, &wreq, false, true);
    let second = attempt(&mut server, &wreq, false, false);
    let resp = retry_outcome(first, second).expect("retry succeeded");
    assert_eq!(interpret_write_reply(&resp), Ok(2));
    let ropen = session.open_request(&b"f".to_vec(), &b"r".to_vec(), 3);
    let resp = attempt(&mut server, &ropen, false, false).expect("open for read");
    let rhandle = interpret_open_reply(&resp).expect("handle");
    let rreq = session.read_request(rhandle, 10, 4);
    let resp = attempt(&mut server, &rreq, false, false).expect("read");
    let rep = interpret_read_reply(&resp).expect("read reply");
    assert_eq!(rep.data, b"ABAB".to_vec());
}

#[test]
fn stale_replies_are_mismatches_not_answers() {
    let mut server = ServerState::new();
    let session = ClientSession::with_token(9);
    let stale = session.unlink_request(&b"x".to_vec(), 50);
    let stale_answer = server
        .handle_datagram(&encode_request(&stale))
        .expect("answered");
    // A reply to an earlier request arrives while awaiting sequence 51.
    assert_eq!(match_response(51, &stale_answer), Err(ClientError::Mismatch));
}
