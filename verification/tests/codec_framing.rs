use word_guesser::codec::{
    decode_client_message, decode_server_message, encode_client_message, encode_server_message,
};
use word_guesser::framing::{frame_bytes, unstuff_bytes, FrameBuffer};
use word_guesser::protocol::{ClientMessage, ClientRequestError, ServerMessage};

fn server_roundtrip(msg: ServerMessage) {
    let bytes = encode_server_message(&msg).expect("encodable");
    let back = decode_server_message(&bytes).expect("decodable");
    assert_eq!(back, msg);
    // the decoded value re-encodes to the same bytes
    let again = encode_server_message(&back).expect("encodable");
    assert_eq!(again, bytes);
}

fn client_roundtrip(msg: ClientMessage) {
    let bytes = encode_client_message(&msg).expect("encodable");
    let back = decode_client_message(&bytes).expect("decodable");
    assert_eq!(back, msg);
    let again = encode_client_message(&back).expect("encodable");
    assert_eq!(again, bytes);
}

#[test]
fn server_variants_roundtrip() {
    server_roundtrip(ServerMessage::AskPassword);
    server_roundtrip(ServerMessage::WrongPassword);
    server_roundtrip(ServerMessage::AssignId(42));
    server_roundtrip(ServerMessage::BadRequest(ClientRequestError::CannotCreateMatch));
    server_roundtrip(ServerMessage::BadRequest(ClientRequestError::Match404));
    server_roundtrip(ServerMessage::BadRequest(ClientRequestError::PermissionDenied));
    server_roundtrip(ServerMessage::ListOpponents(vec![]));
    server_roundtrip(ServerMessage::ListOpponents(vec![1, 2, u128::MAX]));
    server_roundtrip(ServerMessage::MatchAccepted(7));
    server_roundtrip(ServerMessage::MatchStarted(u128::MAX));
    server_roundtrip(ServerMessage::MatchAttempt(9, 3, 1, "apply".to_string()));
    server_roundtrip(ServerMessage::IncorrectGuess(9, 4));
    server_roundtrip(ServerMessage::MatchHint(9, "fruit".to_string()));
    server_roundtrip(ServerMessage::MatchEnded(9, 2, 0, true));
    server_roundtrip(ServerMessage::MatchEnded(9, 2, 0, false));
    server_roundtrip(ServerMessage::Disconnect);
}

#[test]
fn client_variants_roundtrip() {
    client_roundtrip(ClientMessage::AnswerPassword("password".to_string()));
    client_roundtrip(ClientMessage::AnswerPassword(String::new()));
    client_roundtrip(ClientMessage::GetOpponents);
    client_roundtrip(ClientMessage::RequestMatch(3, "apple".to_string()));
    client_roundtrip(ClientMessage::GuessAttempt(3, "apply".to_string()));
    client_roundtrip(ClientMessage::SendHint(3, "a fruit".to_string()));
    client_roundtrip(ClientMessage::GiveUp(3));
    client_roundtrip(ClientMessage::LeaveGame);
}

#[test]
fn non_ascii_strings_roundtrip() {
    client_roundtrip(ClientMessage::GuessAttempt(1, "héllo wörld — 你好".to_string()));
    server_roundtrip(ServerMessage::MatchHint(1, "🎮 ein Tipp".to_string()));
}

#[test]
fn exact_encoding_of_ask_password() {
    let bytes = encode_server_message(&ServerMessage::AskPassword).unwrap();
    assert_eq!(bytes, vec![1u8]);
}

#[test]
fn exact_encoding_of_guess_attempt() {
    // tag 4, 16 id bytes little-endian, length 2, then "hi"
    let bytes = encode_client_message(&ClientMessage::GuessAttempt(5, "hi".to_string())).unwrap();
    let mut expected = vec![4u8, 5u8];
    expected.extend_from_slice(&[0u8; 15]);
    expected.extend_from_slice(&[2, 0, 0, 0]);
    expected.extend_from_slice(b"hi");
    assert_eq!(bytes, expected);
}

#[test]
fn decode_rejects_malformed_bytes() {
    // unknown tag
    assert!(decode_client_message(&[99u8]).is_none());
    assert!(decode_server_message(&[0u8]).is_none());
    // empty input
    assert!(decode_client_message(&[]).is_none());
    // truncated id
    assert!(decode_client_message(&[6u8, 1, 2, 3]).is_none());
    // trailing garbage after a complete message
    assert!(decode_client_message(&[7u8, 0u8]).is_none());
    // string length field larger than the remaining bytes
    assert!(decode_client_message(&[1u8, 10, 0, 0, 0, b'a']).is_none());
    // invalid UTF-8 in a string
    assert!(decode_client_message(&[1u8, 1, 0, 0, 0, 0xFF]).is_none());
    // a boolean byte other than 0 or 1
    let mut ended = vec![11u8, 9];
    ended.extend_from_slice(&[0u8; 15]);
    ended.extend_from_slice(&[2, 0, 0, 0]);
    ended.extend_from_slice(&[0, 0, 0, 0]);
    ended.push(7);
    assert!(decode_server_message(&ended).is_none());
}

#[test]
fn framing_escapes_terminator_bytes() {
    // the raw payload contains terminator (0) and escape (1) bytes
    let raw = vec![0u8, 1, 2, 0, 255];
    let framed = frame_bytes(&raw);
    // exactly one terminator, at the end
    assert_eq!(framed.iter().filter(|&&b| b == 0).count(), 1);
    assert_eq!(*framed.last().unwrap(), 0u8);
    let stuffed = &framed[..framed.len() - 1];
    assert_eq!(unstuff_bytes(stuffed).unwrap(), raw);
}

#[test]
fn unstuff_rejects_malformed_escapes() {
    assert!(unstuff_bytes(&[1u8]).is_none());
    assert!(unstuff_bytes(&[1u8, 9u8]).is_none());
    assert!(unstuff_bytes(&[0u8]).is_none());
}

#[test]
fn frame_buffer_recovers_messages_from_split_reads() {
    let msg1 = ClientMessage::GuessAttempt(3, "apple".to_string());
    let msg2 = ClientMessage::LeaveGame;
    let mut stream = Vec::new();
    stream.extend(frame_bytes(&encode_client_message(&msg1).unwrap()));
    stream.extend(frame_bytes(&encode_client_message(&msg2).unwrap()));

    let mut buf = FrameBuffer::new();
    // feed the two coalesced frames in awkward little chunks
    for chunk in stream.chunks(3) {
        buf.push_chunk(chunk);
    }

    let f1 = buf.take_frame().expect("first frame");
    let raw1 = unstuff_bytes(&f1).expect("well stuffed");
    assert_eq!(decode_client_message(&raw1).unwrap(), msg1);

    let f2 = buf.take_frame().expect("second frame");
    let raw2 = unstuff_bytes(&f2).expect("well stuffed");
    assert_eq!(decode_client_message(&raw2).unwrap(), msg2);

    assert!(buf.take_frame().is_none());
}

#[test]
fn frame_buffer_waits_for_terminator() {
    let mut buf = FrameBuffer::new();
    buf.push_chunk(&[5u8, 6, 7]);
    assert!(buf.take_frame().is_none());
    buf.push_chunk(&[0u8]);
    let f = buf.take_frame().unwrap();
    assert_eq!(f, vec![5u8, 6, 7]);
}
