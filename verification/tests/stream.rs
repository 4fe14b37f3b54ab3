use varint_codec::{DecodeError, DecodeState, ReadEvent, Reading, UnsignedVarint};

/// Feeds `bytes` to a decoder one by one, and a failure once they are used
/// up, until the decoder has come to an end.
fn run(bytes: &[u8]) -> (DecodeState, usize) {
    let mut reading = Reading::start();
    let mut asked = 0;
    loop {
        let event = match bytes.get(asked) {
            Some(b) => ReadEvent::Byte(*b),
            None => ReadEvent::Failure,
        };
        asked += 1;
        match reading.step(event) {
            DecodeState::Reading(next) => reading = next,
            end => return (end, asked),
        }
    }
}

#[test]
fn a_final_byte_ends_decoding_at_once() {
    assert_eq!(
        Reading::start().step(ReadEvent::Byte(0x04)),
        DecodeState::Done(4)
    );
    assert_eq!(
        Reading::start().step(ReadEvent::Byte(0x00)),
        DecodeState::Done(0)
    );
}

#[test]
fn a_continuation_byte_asks_for_more() {
    let next = Reading::start().step(ReadEvent::Byte(0x80));
    let reading = match next {
        DecodeState::Reading(r) => r,
        other => panic!("{:?}", other),
    };
    assert_eq!(reading.step(ReadEvent::Byte(0x01)), DecodeState::Done(128));
    assert_eq!(reading.step(ReadEvent::Byte(0x08)), DecodeState::Done(1024));
}

#[test]
fn a_failed_read_ends_decoding_with_io() {
    assert_eq!(
        Reading::start().step(ReadEvent::Failure),
        DecodeState::Failed(DecodeError::Io)
    );
    assert_eq!(
        run(&[0xff, 0xff, 0xff]),
        (DecodeState::Failed(DecodeError::Io), 4)
    );
}

#[test]
fn the_tenth_continuation_byte_ends_decoding_with_too_long() {
    let mut reading = Reading::start();
    for _ in 0..9 {
        reading = match reading.step(ReadEvent::Byte(0x80)) {
            DecodeState::Reading(r) => r,
            other => panic!("{:?}", other),
        };
    }
    assert_eq!(
        reading.step(ReadEvent::Byte(0x80)),
        DecodeState::Failed(DecodeError::TooLong)
    );
    assert_eq!(reading.step(ReadEvent::Byte(0x00)), DecodeState::Done(0));
    assert_eq!(
        reading.step(ReadEvent::Byte(0x01)),
        DecodeState::Done(1 << 63)
    );
    assert_eq!(
        reading.step(ReadEvent::Byte(0x7e)),
        DecodeState::Done(0)
    );
    assert_eq!(
        reading.step(ReadEvent::Failure),
        DecodeState::Failed(DecodeError::Io)
    );
}

#[test]
fn no_byte_is_asked_for_after_the_end() {
    assert_eq!(run(&[0x04, 0xff, 0xff]), (DecodeState::Done(4), 1));
    assert_eq!(
        run(&[0x80; 12]),
        (DecodeState::Failed(DecodeError::TooLong), 10)
    );
}

#[test]
fn byte_by_byte_agrees_with_decoding_a_slice() {
    let inputs: Vec<Vec<u8>> = vec![
        vec![],
        vec![0x00],
        vec![0xAD, 0x01],
        vec![0x80],
        vec![0xff; 9],
        vec![0xff; 10],
        vec![0x80, 0x80, 0x80, 0x80, 0x80, 0x80, 0x80, 0x80, 0x80, 0x7f],
        UnsignedVarint(u64::MAX).encode(),
        UnsignedVarint(0x0123_4567_89AB_CDEF).encode(),
    ];
    for bytes in inputs {
        let expected = match UnsignedVarint::decode(&bytes) {
            Ok((value, used)) => (DecodeState::Done(value.0), used),
            Err(DecodeError::TooLong) => (DecodeState::Failed(DecodeError::TooLong), 10),
            Err(DecodeError::Io) => (DecodeState::Failed(DecodeError::Io), bytes.len() + 1),
        };
        assert_eq!(run(&bytes), expected);
    }
}
