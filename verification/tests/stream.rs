use iorelay::event::{ReadEvent, RelayError, StepStatus, WriteEvent};
use iorelay::reader::{handle_read, read_step};
use iorelay::writer::{handle_write, write_step};

#[test]
fn raw_read_line_before_cr() {
    let events = vec![ReadEvent::Data(b"hello\r".to_vec())];
    let r = handle_read(&events, true);
    assert_eq!(r, Ok((true, String::from("hello"))));
}

#[test]
fn raw_read_line_chunked() {
    let events = vec![
        ReadEvent::Data(b"he".to_vec()),
        ReadEvent::Data(b"llo".to_vec()),
        ReadEvent::Data(b"\r".to_vec()),
    ];
    let r = handle_read(&events, true);
    assert_eq!(r, Ok((true, String::from("hello"))));
}

#[test]
fn raw_read_single_cancel_byte() {
    let events = vec![ReadEvent::Data(vec![0x18u8])];
    let r = handle_read(&events, true);
    assert_eq!(r, Ok((false, String::new())));
}

#[test]
fn raw_read_cancel_after_data() {
    let events = vec![ReadEvent::Data(b"ab".to_vec()), ReadEvent::Data(vec![0x18u8])];
    let r = handle_read(&events, true);
    assert_eq!(r, Ok((false, String::from("ab"))));
}

#[test]
fn raw_read_would_block_keeps_open() {
    let events = vec![ReadEvent::Data(b"par".to_vec()), ReadEvent::WouldBlock];
    let r = handle_read(&events, true);
    assert_eq!(r, Ok((true, String::from("par"))));
}

#[test]
fn line_read_keeps_newline() {
    let events = vec![ReadEvent::Data(b"begin\n".to_vec())];
    let r = handle_read(&events, false);
    assert_eq!(r, Ok((true, String::from("begin\n"))));
}

#[test]
fn line_read_two_deliveries() {
    let first = handle_read(&vec![ReadEvent::Data(b"begin\n".to_vec())], false);
    assert_eq!(first, Ok((true, String::from("begin\n"))));
    let second = handle_read(&vec![ReadEvent::Data(b"hi bob\n".to_vec())], false);
    assert_eq!(second, Ok((true, String::from("hi bob\n"))));
}

#[test]
fn line_read_chunked_with_interruptions() {
    let events = vec![
        ReadEvent::Data(b"hi ".to_vec()),
        ReadEvent::Interrupted,
        ReadEvent::Data(b"bob".to_vec()),
        ReadEvent::Data(b"\n".to_vec()),
    ];
    let r = handle_read(&events, false);
    assert_eq!(r, Ok((true, String::from("hi bob\n"))));
}

#[test]
fn line_read_eof_without_newline() {
    let events = vec![ReadEvent::Data(b"en".to_vec()), ReadEvent::Eof];
    let r = handle_read(&events, false);
    assert_eq!(r, Ok((false, String::from("en"))));
}

#[test]
fn read_interrupted_is_retried() {
    let events = vec![
        ReadEvent::Interrupted,
        ReadEvent::Data(b"ok\n".to_vec()),
    ];
    let r = handle_read(&events, false);
    assert_eq!(r, Ok((true, String::from("ok\n"))));
}

#[test]
fn read_fatal_failure_is_io_error() {
    let events = vec![ReadEvent::Data(b"x".to_vec()), ReadEvent::Failed];
    let r = handle_read(&events, true);
    assert_eq!(r, Err(RelayError::Io));
}

#[test]
fn read_garbage_is_decode_error() {
    let events = vec![ReadEvent::Data(vec![0xffu8, 0xfeu8]), ReadEvent::WouldBlock];
    let r = handle_read(&events, true);
    assert_eq!(r, Err(RelayError::Decode));
}

#[test]
fn read_decodes_multibyte_text() {
    let events = vec![ReadEvent::Data("héllo\n".as_bytes().to_vec())];
    let r = handle_read(&events, false);
    assert_eq!(r, Ok((true, String::from("héllo\n"))));
}

#[test]
fn read_step_stops_at_cr_and_drops_it() {
    let mut acc = Vec::new();
    let st = read_step(&mut acc, &ReadEvent::Data(b"hi\r".to_vec()), true);
    assert_eq!(st, StepStatus::Stop(true));
    assert_eq!(acc, b"hi".to_vec());
}

#[test]
fn read_step_keeps_going_on_plain_chunk() {
    let mut acc = b"a".to_vec();
    let st = read_step(&mut acc, &ReadEvent::Data(b"bc".to_vec()), true);
    assert_eq!(st, StepStatus::Going);
    assert_eq!(acc, b"abc".to_vec());
}

#[test]
fn read_step_zero_bytes_means_closed() {
    let mut acc = Vec::new();
    let st = read_step(&mut acc, &ReadEvent::Eof, false);
    assert_eq!(st, StepStatus::Stop(false));
    assert!(acc.is_empty());
}

#[test]
fn write_full_delivery_leaves_sink_open() {
    let events = vec![WriteEvent::Accepted(6)];
    let r = handle_write("hello\n", &events);
    assert_eq!(r, Ok(true));
}

#[test]
fn write_partial_then_rest() {
    let events = vec![WriteEvent::Accepted(2), WriteEvent::Accepted(4)];
    let r = handle_write("hello\n", &events);
    assert_eq!(r, Ok(true));
}

#[test]
fn write_zero_acceptance_means_closed() {
    let events = vec![WriteEvent::Accepted(0)];
    let r = handle_write("hello", &events);
    assert_eq!(r, Ok(false));
}

#[test]
fn write_would_block_gives_up_rest() {
    let events = vec![WriteEvent::Accepted(1), WriteEvent::WouldBlock];
    let r = handle_write("hello", &events);
    assert_eq!(r, Ok(true));
}

#[test]
fn write_interrupted_is_retried() {
    let events = vec![WriteEvent::Interrupted, WriteEvent::Accepted(5)];
    let r = handle_write("hello", &events);
    assert_eq!(r, Ok(true));
}

#[test]
fn write_fatal_failure_is_io_error() {
    let events = vec![WriteEvent::Failed];
    let r = handle_write("hello", &events);
    assert_eq!(r, Err(RelayError::Io));
}

#[test]
fn write_counts_encoded_bytes_not_chars() {
    // "é\n" is three bytes; after two are accepted one remains, so a closed
    // sink is still noticed.
    let events = vec![WriteEvent::Accepted(2), WriteEvent::Accepted(0)];
    let r = handle_write("é\n", &events);
    assert_eq!(r, Ok(false));
}

#[test]
fn write_step_drops_accepted_prefix() {
    let mut remaining = b"hello".to_vec();
    let st = write_step(&mut remaining, &WriteEvent::Accepted(2));
    assert_eq!(st, StepStatus::Going);
    assert_eq!(remaining, b"llo".to_vec());
    let done = write_step(&mut remaining, &WriteEvent::Accepted(3));
    assert_eq!(done, StepStatus::Stop(true));
    assert!(remaining.is_empty());
}

#[test]
fn round_trip_through_writer_and_reader() {
    let text = "round trip\n";
    let delivered = handle_write(text, &vec![WriteEvent::Accepted(text.len())]);
    assert_eq!(delivered, Ok(true));
    // The sink saw exactly the payload's bytes; read them back in line mode.
    let events = vec![ReadEvent::Data(text.as_bytes().to_vec())];
    let r = handle_read(&events, false);
    assert_eq!(r, Ok((true, String::from(text))));
}
