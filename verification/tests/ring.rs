use thther::proto::frame::MAX_OUTPUT_BYTES;
use thther::server::session::RingBuf;

#[test]
fn eviction_returns_absolute_start_and_reconnect_stays_caught_up() {
    let mut ring = RingBuf::new(32);
    ring.append(&[b'x'; 100]);
    ring.append(b"\x1b]10;?\x07prompt> ");
    let (offset, bytes) = ring.read_from(0);
    assert_eq!(offset, ring.total() - 32);
    assert_eq!(bytes.len(), 32);
    let mut cursor = offset + bytes.len() as u64;
    for _ in 0..3 {
        assert_eq!(ring.read_from(cursor), (cursor, Vec::new()));
    }
    ring.append(b"next");
    let (offset, bytes) = ring.read_from(cursor);
    assert_eq!(offset, cursor);
    assert_eq!(bytes, b"next");
    cursor = offset + bytes.len() as u64;
    assert_eq!(cursor, ring.total());
}

#[test]
fn output_is_chunked_and_later_eviction_reports_another_gap() {
    let mut ring = RingBuf::new(MAX_OUTPUT_BYTES * 3);
    ring.append(&vec![b'a'; MAX_OUTPUT_BYTES * 3]);
    let (offset, bytes) = ring.read_from(0);
    assert_eq!(offset, 0);
    assert_eq!(bytes.len(), MAX_OUTPUT_BYTES);
    let cursor = offset + bytes.len() as u64;
    ring.append(&vec![b'b'; MAX_OUTPUT_BYTES * 2]);
    let (offset, bytes) = ring.read_from(cursor);
    assert_eq!(offset, (MAX_OUTPUT_BYTES * 2) as u64);
    assert_eq!(bytes.len(), MAX_OUTPUT_BYTES);
}

#[test]
fn zero_capacity_still_reports_absolute_position() {
    let mut ring = RingBuf::new(0);
    ring.append(b"missing");
    assert_eq!(ring.read_from(0), (7, Vec::new()));
    assert_eq!(ring.read_from(7), (7, Vec::new()));
}

#[test]
fn output_in_pieces_is_output_at_once() {
    let mut pieces = RingBuf::new(5);
    pieces.append(b"abc");
    pieces.append(b"");
    pieces.append(b"defg");
    let mut whole = RingBuf::new(5);
    whole.append(b"abcdefg");
    assert_eq!(pieces.total(), 7);
    assert_eq!(whole.total(), 7);
    for offset in 0..10 {
        assert_eq!(pieces.read_from(offset), whole.read_from(offset));
    }
    assert_eq!(whole.read_from(0), (2, b"cdefg".to_vec()));
    assert_eq!(whole.read_from(4), (4, b"efg".to_vec()));
    assert_eq!(whole.read_from(9), (7, Vec::new()));
}

#[test]
fn draining_gives_everything_once() {
    let history: Vec<u8> = (0..MAX_OUTPUT_BYTES * 2 + 17).map(|i| (i % 251) as u8).collect();
    let mut ring = RingBuf::new(history.len());
    ring.append(&history);
    let mut cursor = 3;
    let mut out = Vec::new();
    loop {
        let (from, chunk) = ring.read_from(cursor);
        if chunk.is_empty() {
            break;
        }
        assert_eq!(from, cursor);
        cursor = from + chunk.len() as u64;
        out.extend(chunk);
    }
    assert_eq!(out, &history[3..]);
    assert_eq!(cursor, ring.total());
}
