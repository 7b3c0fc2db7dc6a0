use rapid_net::frame::{FrameDecoder, ReadOutcome, ReadStop, MAX_MESSAGE_LEN};

/// A frame: the big-endian total length, then `payload`.
fn frame_of(payload: &[u8]) -> Vec<u8> {
    let total = (payload.len() + 4) as u32;
    let mut f = total.to_be_bytes().to_vec();
    f.extend_from_slice(payload);
    f
}

/// Feeds `stream` in reads of at most `piece` bytes, never more than the
/// decoder asks for; returns the frames and how the stream ended.
fn feed(stream: &[u8], piece: usize) -> (Vec<Vec<u8>>, Option<ReadStop>) {
    let mut d = FrameDecoder::new();
    let mut frames = Vec::new();
    let mut pos = 0;
    while pos < stream.len() {
        let n = d.want().min(piece).min(stream.len() - pos);
        match d.on_read(&stream[pos..pos + n]) {
            ReadOutcome::Pending => {}
            ReadOutcome::Frame(f) => frames.push(f),
            ReadOutcome::Stop(s) => return (frames, Some(s)),
        }
        pos += n;
    }
    (frames, None)
}

#[test]
fn fragmented_frame_read_one_byte_at_a_time() {
    let payload: Vec<u8> = (0..1024).map(|i| (i % 256) as u8).collect();
    let frame = frame_of(&payload);
    let (frames, stop) = feed(&frame, 1);
    assert_eq!(stop, None);
    assert_eq!(frames.len(), 1);
    assert_eq!(frames[0], frame);
    assert_eq!(frames[0].len() - 4, 1024);
}

#[test]
fn fragmentation_does_not_change_the_frames() {
    let mut stream = frame_of(b"first");
    stream.extend(frame_of(b""));
    stream.extend(frame_of(&[9u8; 300]));
    stream.extend_from_slice(&[0, 0]); // start of a frame that never completes
    let (whole, s1) = feed(&stream, usize::MAX);
    for piece in [1, 2, 3, 7, 64] {
        let (frames, s) = feed(&stream, piece);
        assert_eq!(frames, whole);
        assert_eq!(s, s1);
    }
    assert_eq!(whole.len(), 3);
    assert_eq!(whole[0], frame_of(b"first"));
    assert_eq!(whole[1], vec![0, 0, 0, 4]);
    assert_eq!(whole[2].len(), 304);
}

#[test]
fn want_follows_prefix_then_body() {
    let mut d = FrameDecoder::new();
    assert_eq!(d.want(), 4);
    assert!(!d.reading_body());
    assert!(matches!(d.on_read(&[0, 0]), ReadOutcome::Pending));
    assert_eq!(d.want(), 2);
    assert!(matches!(d.on_read(&[0, 10]), ReadOutcome::Pending));
    assert!(d.reading_body());
    assert_eq!(d.want(), 6);
    assert!(matches!(d.on_read(&[1, 2, 3]), ReadOutcome::Pending));
    assert_eq!(d.want(), 3);
    match d.on_read(&[4, 5, 6]) {
        ReadOutcome::Frame(f) => assert_eq!(f, vec![0, 0, 0, 10, 1, 2, 3, 4, 5, 6]),
        other => panic!("expected a frame, got {:?}", other),
    }
    assert_eq!(d.want(), 4);
    assert!(!d.reading_body());
}

#[test]
fn too_large_message_is_refused() {
    let len = (MAX_MESSAGE_LEN + 1) as u32;
    let mut d = FrameDecoder::new();
    match d.on_read(&len.to_be_bytes()) {
        ReadOutcome::Stop(ReadStop::MessageTooLarge(n)) => assert_eq!(n, MAX_MESSAGE_LEN + 1),
        other => panic!("expected MessageTooLarge, got {:?}", other),
    }
}

#[test]
fn largest_message_is_accepted() {
    let len = MAX_MESSAGE_LEN as u32;
    let mut d = FrameDecoder::new();
    assert!(matches!(d.on_read(&len.to_be_bytes()), ReadOutcome::Pending));
    assert_eq!(d.want(), MAX_MESSAGE_LEN - 4);
}

#[test]
fn prefix_shorter_than_itself_stops() {
    let mut d = FrameDecoder::new();
    match d.on_read(&[0, 0, 0, 3]) {
        ReadOutcome::Stop(ReadStop::InvalidLength(n)) => assert_eq!(n, 3),
        other => panic!("expected InvalidLength, got {:?}", other),
    }
}

#[test]
fn empty_read_means_closed() {
    let mut d = FrameDecoder::new();
    assert!(matches!(d.on_read(&[]), ReadOutcome::Stop(ReadStop::ConnectionClosed)));
    assert!(matches!(d.on_read(&[0, 0, 0, 8]), ReadOutcome::Pending));
    assert!(matches!(d.on_read(&[]), ReadOutcome::Stop(ReadStop::ConnectionClosed)));
}

#[test]
fn read_errors_by_phase() {
    let mut d = FrameDecoder::new();
    assert_eq!(d.on_read_error(true), ReadStop::ConnectionClosed);
    assert_eq!(d.on_read_error(false), ReadStop::Io);
    assert!(matches!(d.on_read(&[0, 0, 0, 8]), ReadOutcome::Pending));
    assert_eq!(d.on_read_error(true), ReadStop::Io);
    assert_eq!(d.on_read_error(false), ReadStop::Io);
}
