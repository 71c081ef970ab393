use bytes::Bytes;
use noise_io::{DecodedItem, Output, ReadError, ReadStep, MAX_FRAME_LEN};

/// Hands `frame` to the adapter as the channel's next decoded unit.
fn deliver(o: &mut Output, frame: Vec<u8>) {
    let step = o.on_decoded::<(), ()>(Some(Ok(DecodedItem::Bytes(Bytes::from(frame)))));
    assert!(matches!(step, ReadStep::FrameStored));
}

/// One write call of the stream: sends a full frame into `sent` first.
fn write_call(o: &mut Output, buf: &[u8], sent: &mut Vec<Vec<u8>>) -> usize {
    if o.frame_due() {
        sent.push(o.outgoing_frame());
        o.frame_sent();
    }
    o.write(buf)
}

/// A flush of the stream: sends the pending bytes into `sent`, if any.
fn flush_call(o: &mut Output, sent: &mut Vec<Vec<u8>>) {
    if o.flush_due() {
        sent.push(o.outgoing_frame());
        o.frame_sent();
    }
}

#[test]
fn read_splits_frame_in_order() {
    let mut o = Output::new();
    let frame: Vec<u8> = (0u8..10).collect();
    let mut buf = [0u8; 16];
    assert_eq!(o.read_buffered(&mut buf), None);
    deliver(&mut o, frame.clone());
    let mut got = Vec::new();
    for size in [3usize, 3, 4] {
        let mut dest = vec![0xffu8; size];
        let n = o.read_buffered(&mut dest).unwrap();
        assert_eq!(n, size);
        got.extend_from_slice(&dest[..n]);
    }
    assert_eq!(got, frame);
    assert_eq!(o.read_buffered(&mut buf), None);
}

#[test]
fn read_is_capped_by_the_frame() {
    let mut o = Output::new();
    deliver(&mut o, vec![7, 8, 9]);
    let mut dest = [0u8; 5];
    assert_eq!(o.read_buffered(&mut dest), Some(3));
    assert_eq!(dest, [7, 8, 9, 0, 0]);
    assert_eq!(o.read_buffered(&mut dest), None);
}

#[test]
fn read_into_empty_destination_keeps_frame() {
    let mut o = Output::new();
    deliver(&mut o, vec![1, 2]);
    let mut empty: [u8; 0] = [];
    assert_eq!(o.read_buffered(&mut empty), Some(0));
    let mut dest = [0u8; 2];
    assert_eq!(o.read_buffered(&mut dest), Some(2));
    assert_eq!(dest, [1, 2]);
}

#[test]
fn handshake_payload_is_invalid_data() {
    let mut o = Output::new();
    let step = o.on_decoded::<(), &str>(Some(Ok(DecodedItem::Payload("hello"))));
    assert!(matches!(step, ReadStep::Ready(Err(ReadError::InvalidData))));
    let mut dest = [0u8; 4];
    assert_eq!(o.read_buffered(&mut dest), None);
    assert_eq!(dest, [0u8; 4]);
}

#[test]
fn end_of_stream_reads_zero_bytes() {
    let mut o = Output::new();
    let step = o.on_decoded::<(), ()>(None);
    assert!(matches!(step, ReadStep::Ready(Ok(0))));
}

#[test]
fn channel_error_is_passed_on() {
    let mut o = Output::new();
    let step = o.on_decoded::<u32, ()>(Some(Err(42)));
    assert!(matches!(step, ReadStep::Ready(Err(ReadError::Io(42)))));
    let mut dest = [0u8; 4];
    assert_eq!(o.read_buffered(&mut dest), None);
}

#[test]
fn empty_frame_asks_the_channel_again() {
    let mut o = Output::new();
    deliver(&mut o, Vec::new());
    let mut dest = [0u8; 4];
    assert_eq!(o.read_buffered(&mut dest), None);
}

#[test]
fn default_frame_limit() {
    assert_eq!(MAX_FRAME_LEN, 64511);
    let mut o = Output::new();
    let big = vec![5u8; MAX_FRAME_LEN + 10];
    assert_eq!(o.write(&big), MAX_FRAME_LEN);
    assert!(o.frame_due());
}

#[test]
fn small_writes_send_nothing() {
    let mut o = Output::with_max_frame_len(1024);
    let mut sent = Vec::new();
    let mut total = 0;
    for i in 0..100u8 {
        let chunk = vec![i; 10];
        assert_eq!(write_call(&mut o, &chunk, &mut sent), 10);
        total += 10;
    }
    assert_eq!(total, 1000);
    assert!(sent.is_empty());
    assert!(!o.frame_due());
    assert_eq!(o.outgoing_frame().len(), 1000);
}

#[test]
fn exact_frame_is_sent_once_on_next_write() {
    let mut o = Output::with_max_frame_len(1024);
    let mut sent = Vec::new();
    assert_eq!(write_call(&mut o, &[1u8; 512], &mut sent), 512);
    assert_eq!(write_call(&mut o, &[2u8; 512], &mut sent), 512);
    assert!(sent.is_empty());
    assert!(o.frame_due());
    assert_eq!(write_call(&mut o, &[3u8], &mut sent), 1);
    assert_eq!(sent.len(), 1);
    let mut expected = vec![1u8; 512];
    expected.extend_from_slice(&[2u8; 512]);
    assert_eq!(sent[0], expected);
    assert_eq!(o.outgoing_frame(), vec![3u8]);
}

#[test]
fn exact_frame_is_sent_once_on_flush() {
    let mut o = Output::with_max_frame_len(1024);
    let mut sent = Vec::new();
    assert_eq!(write_call(&mut o, &[9u8; 1024], &mut sent), 1024);
    assert!(sent.is_empty());
    flush_call(&mut o, &mut sent);
    flush_call(&mut o, &mut sent);
    assert_eq!(sent, vec![vec![9u8; 1024]]);
}

#[test]
fn flush_twice_sends_at_most_one_frame() {
    let mut o = Output::with_max_frame_len(1024);
    let mut sent = Vec::new();
    write_call(&mut o, &[4u8; 7], &mut sent);
    flush_call(&mut o, &mut sent);
    assert_eq!(sent.len(), 1);
    flush_call(&mut o, &mut sent);
    assert_eq!(sent.len(), 1);
    assert!(!o.flush_due());
}

#[test]
fn flush_with_nothing_pending_sends_nothing() {
    let mut o = Output::new();
    let mut sent = Vec::new();
    flush_call(&mut o, &mut sent);
    assert!(sent.is_empty());
}

#[test]
fn close_loses_no_accepted_byte() {
    let mut o = Output::with_max_frame_len(8);
    let mut sent = Vec::new();
    let data: Vec<u8> = (0u8..30).collect();
    let mut rest: &[u8] = &data;
    while !rest.is_empty() {
        let n = write_call(&mut o, rest, &mut sent);
        rest = &rest[n..];
    }
    flush_call(&mut o, &mut sent);
    assert_eq!(sent.len(), 4);
    assert!(sent.iter().all(|f| f.len() <= 8));
    assert_eq!(sent.concat(), data);
    assert!(!o.flush_due());
}

#[test]
fn write_accepts_only_what_fits() {
    let mut o = Output::with_max_frame_len(10);
    assert_eq!(o.write(&[1u8; 6]), 6);
    assert_eq!(o.write(&[2u8; 6]), 4);
    assert!(o.frame_due());
    assert_eq!(o.outgoing_frame(), vec![1, 1, 1, 1, 1, 1, 2, 2, 2, 2]);
}

#[test]
fn outgoing_frame_keeps_pending_bytes() {
    let mut o = Output::with_max_frame_len(1024);
    o.write(&[1, 2, 3]);
    let frame = o.outgoing_frame();
    assert_eq!(frame, vec![1, 2, 3]);
    assert!(o.flush_due());
    assert_eq!(o.outgoing_frame(), vec![1, 2, 3]);
}

#[test]
fn scenario_two_writes_then_flush() {
    let mut o = Output::with_max_frame_len(1024);
    let mut sent = Vec::new();
    let first: Vec<u8> = (0u8..5).collect();
    let second: Vec<u8> = (5u8..15).collect();
    assert_eq!(write_call(&mut o, &first, &mut sent), 5);
    assert_eq!(write_call(&mut o, &second, &mut sent), 10);
    assert!(sent.is_empty());
    flush_call(&mut o, &mut sent);
    assert_eq!(sent.len(), 1);
    assert_eq!(sent[0], (0u8..15).collect::<Vec<u8>>());
}

#[test]
fn scenario_full_frame_then_one_byte() {
    let mut o = Output::with_max_frame_len(1024);
    let mut sent = Vec::new();
    assert_eq!(write_call(&mut o, &[0xaau8; 1024], &mut sent), 1024);
    assert!(sent.is_empty());
    assert_eq!(write_call(&mut o, &[0xbbu8], &mut sent), 1);
    assert_eq!(sent.len(), 1);
    assert_eq!(sent[0], vec![0xaau8; 1024]);
    assert!(!o.frame_due());
    assert_eq!(o.outgoing_frame(), vec![0xbbu8]);
    flush_call(&mut o, &mut sent);
    assert_eq!(sent.len(), 2);
    assert_eq!(sent[1], vec![0xbbu8]);
}
