use theta::protocol::token::{
    answer_for, check_status, decode_request, encode_request, write_refusal, write_token, Answer,
    RequestError, StatusError, MAX_ADDR_LEN, PROTOCOL_ID, STATUS_OK, STATUS_PROTOCOL_MISMATCH,
};

fn request(protocol_id: u64, addr: &str) -> Vec<u8> {
    let mut bytes = protocol_id.to_be_bytes().to_vec();
    bytes.extend_from_slice(addr.as_bytes());
    bytes
}

#[test]
fn refusal_is_a_single_status_byte() {
    let mut out = Vec::new();
    write_refusal(&mut out, STATUS_PROTOCOL_MISMATCH);
    assert_eq!(out, [STATUS_PROTOCOL_MISMATCH]);
}

#[test]
fn reads_a_well_formed_request() {
    let (protocol_id, line) = decode_request(&request(PROTOCOL_ID, "10.0.0.1:5000\n")).unwrap();
    assert_eq!(protocol_id, PROTOCOL_ID);
    assert_eq!(line, b"10.0.0.1:5000\n");
}

#[test]
fn rejects_a_truncated_request() {
    assert_eq!(decode_request(&[0u8; 3]), Err(RequestError::Truncated));
}

#[test]
fn rejects_an_address_longer_than_the_limit() {
    let long = format!("{}:5000\n", "1".repeat(MAX_ADDR_LEN));
    assert_eq!(decode_request(&request(PROTOCOL_ID, &long)), Err(RequestError::TooLong));
}

#[test]
fn an_address_padded_past_the_limit_is_refused() {
    let padded = format!("10.0.0.1:5000{}\n", " ".repeat(60));
    assert_eq!(decode_request(&request(PROTOCOL_ID, &padded)), Err(RequestError::TooLong));
}

#[test]
fn the_longest_address_line_is_accepted() {
    let longest = format!("{}\n", "1".repeat(MAX_ADDR_LEN - 1));
    let (_, line) = decode_request(&request(PROTOCOL_ID, &longest)).unwrap();
    assert_eq!(line, longest.as_bytes());
    let too_long = "1".repeat(MAX_ADDR_LEN);
    assert_eq!(decode_request(&request(PROTOCOL_ID, &too_long)), Err(RequestError::TooLong));
}

#[test]
fn the_address_line_stops_after_its_newline() {
    let (protocol_id, line) = decode_request(&request(7, "1.2.3.4:1\nrest")).unwrap();
    assert_eq!(protocol_id, 7);
    assert_eq!(line, b"1.2.3.4:1\n");
    let (_, line) = decode_request(&request(7, "no newline")).unwrap();
    assert_eq!(line, b"no newline");
}

#[test]
fn requests_are_encoded_big_endian_then_the_address() {
    let bytes = encode_request(0x0102_0304_0506_0708, "127.0.0.1:5000");
    assert_eq!(&bytes[..8], &[1, 2, 3, 4, 5, 6, 7, 8]);
    assert_eq!(&bytes[8..], b"127.0.0.1:5000\n");
    assert_eq!(
        decode_request(&bytes).unwrap(),
        (0x0102_0304_0506_0708, b"127.0.0.1:5000\n".to_vec())
    );
}

#[test]
fn server_answers_by_protocol() {
    assert_eq!(answer_for(PROTOCOL_ID), Answer::Token);
    assert_eq!(answer_for(PROTOCOL_ID + 1), Answer::Refuse(STATUS_PROTOCOL_MISMATCH));
}

#[test]
fn token_answer_is_status_then_token() {
    let mut out = Vec::new();
    write_token(&mut out, &[9, 8, 7]);
    assert_eq!(out, [STATUS_OK, 9, 8, 7]);
}

#[test]
fn client_reads_the_status() {
    assert_eq!(check_status(STATUS_OK), Ok(()));
    assert_eq!(check_status(STATUS_PROTOCOL_MISMATCH), Err(StatusError::ProtocolMismatch));
    assert_eq!(check_status(42), Err(StatusError::Unknown(42)));
}

