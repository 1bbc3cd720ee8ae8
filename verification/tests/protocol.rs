use browser_superpeer::protocol::{
    encode_request, get_reply_step, push_be, read_be, have_answer, needs_lookup, reply_bytes, request_step,
    GetReplyError, GetReplyStep, RequestError, RequestReadError, RequestStep, CMD_GET, CMD_HAVE,
    MAX_REPLY_BLOB,
};

#[test]
fn encode_request_lowercases_the_hash() {
    assert_eq!(encode_request(CMD_HAVE, "AbC").unwrap(), vec![1, 3, b'a', b'b', b'c']);
    assert_eq!(encode_request(CMD_GET, "").unwrap(), vec![2, 0]);
    let h = "F".repeat(255);
    let v = encode_request(CMD_GET, &h).unwrap();
    assert_eq!(v.len(), 257);
    assert_eq!(v[1], 255);
    assert!(v[2..].iter().all(|&b| b == b'f'));
}

#[test]
fn encode_request_refuses_long_hashes() {
    assert_eq!(encode_request(CMD_GET, &"a".repeat(256)), Err(RequestError::HashTooLong));
    // byte length counts, not characters
    assert_eq!(encode_request(CMD_GET, &"é".repeat(128)), Err(RequestError::HashTooLong));
    assert!(encode_request(CMD_GET, &"é".repeat(127)).is_ok());
}

fn run_request(frame: &[u8]) -> (usize, Result<(u8, String), RequestReadError>) {
    let mut received: Vec<u8> = Vec::new();
    let mut reads = 0;
    loop {
        match request_step(&received) {
            RequestStep::Read(k) => {
                assert!(k > 0);
                assert!(received.len() + k <= frame.len());
                received.extend_from_slice(&frame[received.len()..received.len() + k]);
                reads += 1;
            }
            RequestStep::Done(r) => return (reads, r.map(|q| (q.cmd, q.hash))),
        }
    }
}

#[test]
fn request_roundtrip() {
    let frame = encode_request(CMD_GET, "ABCD").unwrap();
    let (reads, r) = run_request(&frame);
    assert_eq!(reads, 3);
    assert_eq!(r, Ok((CMD_GET, "abcd".to_string())));
    let frame = encode_request(CMD_HAVE, "").unwrap();
    let (reads, r) = run_request(&frame);
    assert_eq!(reads, 2);
    assert_eq!(r, Ok((CMD_HAVE, String::new())));
}

#[test]
fn request_step_reads_one_byte_at_a_time_then_the_hash() {
    assert!(matches!(request_step(&[]), RequestStep::Read(1)));
    assert!(matches!(request_step(&[2]), RequestStep::Read(1)));
    assert!(matches!(request_step(&[2, 5]), RequestStep::Read(5)));
    assert!(matches!(request_step(&[2, 5, b'a', b'b']), RequestStep::Read(3)));
    // trailing bytes past the frame are ignored
    match request_step(&[9, 1, b'x', 0, 0]) {
        RequestStep::Done(Ok(q)) => {
            assert_eq!(q.cmd, 9);
            assert_eq!(q.hash, "x");
        }
        _ => panic!("expected a complete request"),
    }
}

#[test]
fn request_step_refuses_non_utf8() {
    assert!(matches!(
        request_step(&[1, 2, 0xff, 0xfe]),
        RequestStep::Done(Err(RequestReadError::HashNotUtf8))
    ));
}

#[test]
fn replies_for_each_command() {
    assert!(needs_lookup(CMD_HAVE));
    assert!(needs_lookup(CMD_GET));
    assert!(!needs_lookup(0));
    assert!(!needs_lookup(3));
    assert_eq!(reply_bytes(CMD_HAVE, Some(b"x")), vec![1]);
    assert_eq!(reply_bytes(CMD_HAVE, None), vec![0]);
    assert_eq!(reply_bytes(CMD_GET, None), vec![0, 0, 0, 1]);
    assert_eq!(reply_bytes(7, None), vec![0, 0, 0, 2]);
    assert_eq!(
        reply_bytes(CMD_GET, Some(b"ab")),
        vec![0, 0, 0, 0, 0, 0, 0, 0, 0, 0, 0, 2, b'a', b'b']
    );
    assert_eq!(reply_bytes(CMD_GET, Some(b"")), vec![0; 12]);
}

#[test]
fn have_answer_reads_one() {
    assert!(have_answer(reply_bytes(CMD_HAVE, Some(b""))[0]));
    assert!(!have_answer(reply_bytes(CMD_HAVE, None)[0]));
    assert!(!have_answer(2));
}

fn run_get(reply: &[u8]) -> Result<Vec<u8>, GetReplyError> {
    let mut received: Vec<u8> = Vec::new();
    loop {
        match get_reply_step(&received) {
            GetReplyStep::Read(k) => {
                assert!(k > 0);
                assert!(received.len() + k <= reply.len());
                received.extend_from_slice(&reply[received.len()..received.len() + k]);
            }
            GetReplyStep::Done(r) => return r,
        }
    }
}

#[test]
fn get_reply_roundtrip() {
    let blob: Vec<u8> = (0..1000u32).map(|i| i as u8).collect();
    assert_eq!(run_get(&reply_bytes(CMD_GET, Some(&blob))), Ok(blob));
    assert_eq!(run_get(&reply_bytes(CMD_GET, Some(b""))), Ok(vec![]));
    assert_eq!(run_get(&reply_bytes(CMD_GET, None)), Err(GetReplyError::NotFound));
    assert_eq!(run_get(&reply_bytes(0, None)), Err(GetReplyError::BadStatus(2)));
}

#[test]
fn get_reply_step_stages() {
    assert!(matches!(get_reply_step(&[]), GetReplyStep::Read(4)));
    assert!(matches!(get_reply_step(&[0, 0]), GetReplyStep::Read(2)));
    assert!(matches!(get_reply_step(&[0, 0, 0, 0]), GetReplyStep::Read(8)));
    assert!(matches!(
        get_reply_step(&[0, 0, 0, 0, 0, 0, 0, 0, 0, 0, 1, 0]),
        GetReplyStep::Read(256)
    ));
    assert!(matches!(
        get_reply_step(&[0, 0, 1, 0]),
        GetReplyStep::Done(Err(GetReplyError::BadStatus(256)))
    ));
    assert!(matches!(
        get_reply_step(&[0xff, 0xff, 0xff, 0xff]),
        GetReplyStep::Done(Err(GetReplyError::BadStatus(u32::MAX)))
    ));
}

#[test]
fn get_reply_refuses_oversized_blobs() {
    let mut r = vec![0u8; 4];
    r.extend_from_slice(&(MAX_REPLY_BLOB + 1).to_be_bytes());
    assert!(matches!(
        get_reply_step(&r),
        GetReplyStep::Done(Err(GetReplyError::TooLarge(n))) if n == MAX_REPLY_BLOB + 1
    ));
    let mut r = vec![0u8; 4];
    r.extend_from_slice(&MAX_REPLY_BLOB.to_be_bytes());
    assert!(matches!(get_reply_step(&r), GetReplyStep::Read(n) if n as u64 == MAX_REPLY_BLOB));
    let mut r = vec![0u8; 4];
    r.extend_from_slice(&u64::MAX.to_be_bytes());
    assert!(matches!(
        get_reply_step(&r),
        GetReplyStep::Done(Err(GetReplyError::TooLarge(u64::MAX)))
    ));
}

#[test]
fn big_endian_roundtrip() {
    let mut out = Vec::new();
    push_be(&mut out, 256, 8);
    assert_eq!(out, vec![0, 0, 0, 0, 0, 0, 1, 0]);
    assert_eq!(read_be(&out, 0, 8), 256);
    let mut out = vec![9u8];
    push_be(&mut out, u64::MAX, 8);
    push_be(&mut out, 0xdead_beef, 4);
    assert_eq!(read_be(&out, 1, 8), u64::MAX);
    assert_eq!(read_be(&out, 9, 4), 0xdead_beef);
    assert_eq!(read_be(&out, 0, 0), 0);
    let mut short = Vec::new();
    push_be(&mut short, 0x1_0203, 2);
    assert_eq!(short, vec![2, 3]);
}
