use ata::frames::FrameBuffer;

fn collect_frames(chunks: &[&[u8]]) -> (Vec<Vec<u8>>, usize) {
    let mut buffer = FrameBuffer::new();
    let mut frames: Vec<Vec<u8>> = Vec::new();
    for chunk in chunks {
        let mut out = buffer.push_chunk(chunk);
        frames.append(&mut out);
    }
    (frames, chunks.iter().map(|c| c.len()).sum())
}

#[test]
fn frames_split_on_blank_line() {
    let mut buffer = FrameBuffer::new();
    let frames = buffer.push_chunk(b"one\n\ntwo\n\nrest");
    assert_eq!(frames, vec![b"one".to_vec(), b"two".to_vec()]);
    let frames = buffer.push_chunk(b"\n\n");
    assert_eq!(frames, vec![b"rest".to_vec()]);
}

#[test]
fn fragmentation_is_invariant() {
    let stream: &[u8] = b"data: {\"a\":1}\n\ndata: {\"b\":2}\n\nda";
    let (whole, _) = collect_frames(&[stream]);
    // Byte-by-byte delivery.
    let single_bytes: Vec<&[u8]> = (0..stream.len()).map(|i| &stream[i..i + 1]).collect();
    let (bytewise, _) = collect_frames(&single_bytes);
    assert_eq!(whole, bytewise);
    // A split right inside the frame delimiter.
    let (mid_delim, _) = collect_frames(&[&stream[..14], &stream[14..]]);
    assert_eq!(whole, mid_delim);
    // An uneven three-way split.
    let (three, _) = collect_frames(&[&stream[..5], &stream[5..23], &stream[23..]]);
    assert_eq!(whole, three);
}

#[test]
fn partial_frame_stays_buffered() {
    let mut buffer = FrameBuffer::new();
    let frames = buffer.push_chunk(b"incomplete");
    assert!(frames.is_empty());
    let frames = buffer.push_chunk(b" frame\n\n");
    assert_eq!(frames, vec![b"incomplete frame".to_vec()]);
}
