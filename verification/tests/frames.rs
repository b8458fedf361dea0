use thther::proto::crypto::{CryptoError, Opener, Sealer, DIR_SERVER_TO_CLIENT, TAG_LEN};
use thther::proto::frame::{
    read_frame, write_frame, Frame, FrameError, MAX_OUTPUT_BYTES, MAX_RECORD,
};
use thther::proto::Step;

fn samples() -> Vec<(Frame, Vec<u8>)> {
    vec![
        (Frame::Data(b"ab".to_vec()), vec![0, b'a', b'b']),
        (Frame::Data(Vec::new()), vec![0]),
        (Frame::Resize { cols: 80, rows: 0x0118 }, vec![1, 0, 80, 1, 0x18]),
        (Frame::Ping, vec![2]),
        (Frame::Pong, vec![3]),
        (Frame::Ack(0x0102), vec![4, 0, 0, 0, 0, 0, 0, 1, 2]),
        (Frame::Hello, b"\x05THTHER-HELLO-1".to_vec()),
        (Frame::Ended, vec![6]),
        (
            Frame::Output { offset: 256, data: b"x".to_vec() },
            vec![7, 0, 0, 0, 0, 0, 0, 1, 0, b'x'],
        ),
    ]
}

fn text(f: &Frame) -> String {
    format!("{f:?}")
}

#[test]
fn frames_encode_exactly_and_decode_back() {
    for (frame, bytes) in samples() {
        assert_eq!(frame.encode(), bytes);
        assert_eq!(text(&Frame::decode(&bytes).unwrap()), text(&frame));
    }
}

#[test]
fn malformed_plaintexts_are_rejected() {
    assert_eq!(Frame::decode(&[]).unwrap_err(), FrameError::Empty);
    assert_eq!(Frame::decode(&[1, 0, 80, 0]).unwrap_err(), FrameError::BadResize);
    assert_eq!(Frame::decode(&[1, 0, 80, 0, 24, 0]).unwrap_err(), FrameError::BadResize);
    assert_eq!(Frame::decode(&[4, 1]).unwrap_err(), FrameError::BadAck);
    assert_eq!(Frame::decode(b"\x05THTHER-HELLO-2").unwrap_err(), FrameError::BadHello);
    assert_eq!(Frame::decode(&[7, 0, 0, 0, 0, 0, 0, 0]).unwrap_err(), FrameError::BadOutput);
    assert_eq!(Frame::decode(&[8]).unwrap_err(), FrameError::UnknownType(8));
    // Payload after a frame that has none is let pass.
    assert!(matches!(Frame::decode(&[2, 9, 9]), Ok(Frame::Ping)));
}

#[test]
fn frame_errors_read_as_documented() {
    assert_eq!(FrameError::Empty.message(), "empty frame");
    assert_eq!(FrameError::BadResize.message(), "bad resize frame");
    assert_eq!(FrameError::BadAck.message(), "bad ack frame");
    assert_eq!(FrameError::BadHello.message(), "bad hello magic");
    assert_eq!(FrameError::BadOutput.message(), "bad output frame");
    assert_eq!(FrameError::UnknownType(200).message(), "unknown frame type 200");
    assert_eq!(FrameError::BadLength(4194305).message(), "bad record length 4194305");
    assert_eq!(FrameError::TooLarge.message(), "record too large");
    assert_eq!(FrameError::Crypto(CryptoError::AuthFailed).message(), "decrypt/auth failed");
}

#[test]
fn a_stream_of_records_arrives_in_order_however_it_is_cut() {
    let key = [5u8; 32];
    let mut sealer = Sealer::new(&key, DIR_SERVER_TO_CLIENT);
    let mut wire = Vec::new();
    for (frame, _) in samples() {
        write_frame(&mut wire, &mut sealer, &frame).unwrap();
    }
    let mut opener = Opener::new(&key, DIR_SERVER_TO_CLIENT);
    let mut at = 0;
    for (frame, _) in samples() {
        let mut received = Vec::new();
        loop {
            match read_frame(&received, &mut opener).unwrap() {
                Step::Need(n) => {
                    assert!(n > 0);
                    // Hand over one byte at a time.
                    received.push(wire[at]);
                    at += 1;
                }
                Step::Done { value, used } => {
                    assert_eq!(used, received.len());
                    assert_eq!(text(&value), text(&frame));
                    break;
                }
            }
        }
    }
    assert_eq!(at, wire.len());
}

#[test]
fn what_follows_a_record_does_not_matter() {
    let key = [5u8; 32];
    let mut wire = Vec::new();
    write_frame(&mut wire, &mut Sealer::new(&key, DIR_SERVER_TO_CLIENT), &Frame::Ping).unwrap();
    let len = wire.len();
    assert_eq!(len, 4 + 1 + TAG_LEN);
    wire.extend_from_slice(b"and more");
    match read_frame(&wire, &mut Opener::new(&key, DIR_SERVER_TO_CLIENT)).unwrap() {
        Step::Done { value: Frame::Ping, used } => assert_eq!(used, len),
        other => panic!("{other:?}"),
    }
}

#[test]
fn record_lengths_are_bounded() {
    let key = [5u8; 32];
    let mut opener = Opener::new(&key, DIR_SERVER_TO_CLIENT);
    assert!(matches!(read_frame(&[0, 0], &mut opener), Ok(Step::Need(2))));
    assert_eq!(
        read_frame(&[0, 0, 0, 0], &mut opener).unwrap_err(),
        FrameError::BadLength(0)
    );
    assert_eq!(
        read_frame(&(MAX_RECORD + 1).to_be_bytes(), &mut opener).unwrap_err(),
        FrameError::BadLength(MAX_RECORD + 1)
    );
    assert!(matches!(
        read_frame(&MAX_RECORD.to_be_bytes(), &mut opener),
        Ok(Step::Need(4194304))
    ));
    assert_eq!(
        read_frame(&[0, 0, 0, 1, 9], &mut opener).unwrap_err(),
        FrameError::Crypto(CryptoError::AuthFailed)
    );
}

#[test]
fn too_large_a_frame_is_not_sent() {
    let key = [5u8; 32];
    let mut sealer = Sealer::new(&key, DIR_SERVER_TO_CLIENT);
    let mut wire = Vec::new();
    let fits = MAX_RECORD as usize - TAG_LEN - 1;
    assert_eq!(
        write_frame(&mut wire, &mut sealer, &Frame::Data(vec![0; fits + 1])),
        Err(FrameError::TooLarge)
    );
    assert!(wire.is_empty());
    assert_eq!(write_frame(&mut wire, &mut sealer, &Frame::Data(vec![0; fits])), Ok(()));
    assert_eq!(wire.len(), 4 + MAX_RECORD as usize);
}

#[test]
fn a_full_output_frame_fits_a_record() {
    let key = [5u8; 32];
    let mut wire = Vec::new();
    let frame = Frame::Output { offset: u64::MAX, data: vec![1; MAX_OUTPUT_BYTES] };
    write_frame(&mut wire, &mut Sealer::new(&key, DIR_SERVER_TO_CLIENT), &frame).unwrap();
    assert_eq!(wire.len(), 4 + 9 + MAX_OUTPUT_BYTES + TAG_LEN);
}
