use bspstack::json_socket::{FrameReader, MESSAGE_END_MARKER, string_to_bytes_with_end_marker};
use bspstack::messages::{
    Command, CommandResponse, decode_command, decode_response, encode_command, encode_response,
};

#[test]
fn end_of_stream_tests() {
    let mut expected = String::from("yoloswag").into_bytes();
    expected.push(MESSAGE_END_MARKER);

    assert_eq!(string_to_bytes_with_end_marker(String::from("yoloswag")), expected);
}

#[test]
fn reader_recovers_payload() {
    let framed = string_to_bytes_with_end_marker(String::from("\"Done\""));
    let mut reader = FrameReader::new();
    reader.push_bytes(&framed);
    assert!(reader.is_complete());
    assert_eq!(reader.payload().as_slice(), "\"Done\"".as_bytes());
}

#[test]
fn reader_waits_for_marker() {
    let mut reader = FrameReader::new();
    reader.push_bytes("\"Do".as_bytes());
    assert!(!reader.is_complete());
    reader.push_bytes("ne\"".as_bytes());
    assert!(!reader.is_complete());
    reader.push_bytes(&[MESSAGE_END_MARKER]);
    assert!(reader.is_complete());
    assert_eq!(reader.payload().as_slice(), "\"Done\"".as_bytes());
}

#[test]
fn partial_write_decodes_like_full_write() {
    let framed = string_to_bytes_with_end_marker(String::from("payload"));

    let mut whole = FrameReader::new();
    whole.push_bytes(&framed);

    let mut pieces = FrameReader::new();
    pieces.push_bytes(&framed[..3]);
    pieces.push_bytes(&framed[3..]);

    assert_eq!(whole.is_complete(), pieces.is_complete());
    assert_eq!(whole.payload(), pieces.payload());
    assert!(whole.is_complete());
    assert_eq!(whole.payload().as_slice(), "payload".as_bytes());
}

#[test]
fn reader_drops_bytes_after_marker() {
    let mut reader = FrameReader::new();
    reader.push_bytes(&[b'a', b'b', MESSAGE_END_MARKER, b'z', b'z']);
    assert!(reader.is_complete());
    assert_eq!(reader.payload().as_slice(), &[b'a', b'b']);
}

#[test]
fn command_encode_decode_round_trip() {
    let commands = [
        Command::CreateStack,
        Command::RemoveFocused,
        Command::IsFocusedInStack,
        Command::FocusCurrent,
        Command::UpdateStacks,
    ];
    for c in commands {
        let text = encode_command(&c);
        assert_eq!(decode_command(text.as_str()), Some(c));
    }
    assert_eq!(encode_command(&Command::CreateStack), "\"CreateStack\"");
    assert_eq!(decode_command("\"NotACommand\""), None);
    assert_eq!(decode_command(""), None);
}

#[test]
fn response_encode_decode_round_trip() {
    let responses = [
        CommandResponse::Done,
        CommandResponse::NoStackExists,
        CommandResponse::EndOfStack,
        CommandResponse::Yes,
        CommandResponse::No,
    ];
    for r in responses {
        let text = encode_response(&r);
        assert_eq!(decode_response(text.as_str()), Some(r));
    }
    assert_eq!(encode_response(&CommandResponse::NoStackExists), "\"NoStackExists\"");
    assert_eq!(decode_response("\"Maybe\""), None);
}

#[test]
fn framed_command_over_the_wire() {
    // The writer's and the reader's halves composed: encode, frame, feed
    // byte by byte, then decode.
    let text = encode_command(&Command::FocusCurrent);
    let framed = string_to_bytes_with_end_marker(text);
    let mut reader = FrameReader::new();
    for b in &framed {
        reader.push_bytes(&[*b]);
    }
    assert!(reader.is_complete());
    let recovered = String::from_utf8(reader.payload().clone()).unwrap();
    assert_eq!(decode_command(recovered.as_str()), Some(Command::FocusCurrent));
}
