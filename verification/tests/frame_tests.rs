use walk_assistant::frame::{checksum, find_marker, FrameAssembler, DEFAULT_CAPACITY};

fn frame_of(payload: &[u8]) -> Vec<u8> {
    let mut bytes = vec![0xAA, 0x55, payload.len() as u8];
    bytes.extend_from_slice(payload);
    bytes.push(payload.iter().fold(0u8, |acc, b| acc ^ b));
    bytes
}

#[test]
fn checksum_is_xor_of_all_bytes() {
    assert_eq!(checksum(&[]), 0);
    assert_eq!(checksum(&[0x01, 0x12, 0x34]), 0x27);
    assert_eq!(checksum(&[0xFF, 0xFF]), 0);
    assert_eq!(checksum(&[0x80]), 0x80);
}

#[test]
fn find_marker_reports_first_offset_at_or_after_start() {
    let buf = [0x00, 0xAA, 0x55, 0xAA, 0x55, 0xAA];
    assert_eq!(find_marker(&buf, 0), Some(1));
    assert_eq!(find_marker(&buf, 1), Some(1));
    assert_eq!(find_marker(&buf, 2), Some(3));
    assert_eq!(find_marker(&buf, 4), None);
    assert_eq!(find_marker(&buf, 6), None);
    assert_eq!(find_marker(&buf, 100), None);
    assert_eq!(find_marker(&[], 0), None);
    assert_eq!(find_marker(&[0xAA], 0), None);
}

#[test]
fn valid_frame_yields_exactly_its_payload() {
    let mut fa = FrameAssembler::new();
    let frames = fa.feed(&[0xAA, 0x55, 0x03, 0x01, 0x12, 0x34, 0x27]);
    assert_eq!(frames, vec![vec![0x01, 0x12, 0x34]]);
    assert_eq!(fa.pending_len(), 0);
}

#[test]
fn corrupted_checksum_yields_nothing_and_empties_buffer() {
    let mut fa = FrameAssembler::new();
    let frames = fa.feed(&[0xAA, 0x55, 0x03, 0x01, 0x12, 0x34, 0x28]);
    assert!(frames.is_empty());
    assert_eq!(fa.pending_len(), 0);
    assert_eq!(fa.pending(), &[] as &[u8]);
}

#[test]
fn two_frames_in_one_buffer_come_out_in_arrival_order() {
    let mut data = frame_of(&[0x01, 0x12, 0x34]);
    data.extend(frame_of(&[0x02, 0xAB]));
    let mut fa = FrameAssembler::new();
    let frames = fa.feed(&data);
    assert_eq!(frames, vec![vec![0x01, 0x12, 0x34], vec![0x02, 0xAB]]);
    assert_eq!(fa.pending_len(), 0);
}

#[test]
fn noise_without_marker_is_drained_to_a_short_tail() {
    let mut fa = FrameAssembler::new();
    let noise: Vec<u8> = (0u8..100).collect();
    let frames = fa.feed(&noise);
    assert!(frames.is_empty());
    assert_eq!(fa.pending(), &[97u8, 98, 99]);
    let frames = fa.feed(&[1, 2]);
    assert!(frames.is_empty());
    assert_eq!(fa.pending(), &[99u8, 1, 2]);
}

#[test]
fn fewer_than_four_bytes_are_left_alone() {
    let mut fa = FrameAssembler::new();
    assert!(fa.feed(&[0x10, 0x20, 0x30]).is_empty());
    assert_eq!(fa.pending(), &[0x10u8, 0x20, 0x30]);
    assert!(fa.feed(&[]).is_empty());
    assert_eq!(fa.pending(), &[0x10u8, 0x20, 0x30]);
}

#[test]
fn bytes_before_the_marker_are_discarded() {
    let mut data = vec![0x01, 0x02, 0x03, 0x04, 0x05];
    data.extend(frame_of(&[0x07, 0x08]));
    let mut fa = FrameAssembler::new();
    let frames = fa.feed(&data);
    assert_eq!(frames, vec![vec![0x07, 0x08]]);
    assert_eq!(fa.pending_len(), 0);
}

#[test]
fn resync_to_marker_keeps_a_short_partial_frame() {
    let mut fa = FrameAssembler::new();
    assert!(fa.feed(&[0x00, 0x00, 0x00, 0xAA, 0x55]).is_empty());
    assert_eq!(fa.pending(), &[0xAAu8, 0x55]);
}

#[test]
fn partial_frame_is_kept_until_it_completes() {
    let whole = frame_of(&[0x05, 0x11, 0x22, 0x33]);
    let mut fa = FrameAssembler::new();
    assert!(fa.feed(&whole[..5]).is_empty());
    assert_eq!(fa.pending(), &whole[..5]);
    assert!(fa.feed(&whole[5..7]).is_empty());
    assert_eq!(fa.pending(), &whole[..7]);
    let frames = fa.feed(&whole[7..]);
    assert_eq!(frames, vec![vec![0x05, 0x11, 0x22, 0x33]]);
    assert_eq!(fa.pending_len(), 0);
}

#[test]
fn marker_split_across_feeds_is_found() {
    let whole = frame_of(&[0x09]);
    let mut fa = FrameAssembler::new();
    let mut first = vec![0x01, 0x02, 0x03, 0x04];
    first.push(whole[0]);
    assert!(fa.feed(&first).is_empty());
    let frames = fa.feed(&whole[1..]);
    assert_eq!(frames, vec![vec![0x09]]);
    assert_eq!(fa.pending_len(), 0);
}

#[test]
fn empty_payload_frame_is_accepted() {
    let mut fa = FrameAssembler::new();
    let frames = fa.feed(&[0xAA, 0x55, 0x00, 0x00]);
    assert_eq!(frames, vec![Vec::<u8>::new()]);
    assert_eq!(fa.pending_len(), 0);
}

#[test]
fn failed_frame_is_not_rescanned() {
    let inner = frame_of(&[0x42]);
    let mut outer = vec![0xAA, 0x55, inner.len() as u8];
    outer.extend_from_slice(&inner);
    let good = inner.iter().fold(0u8, |acc, b| acc ^ b);
    outer.push(good ^ 0xFF);
    let mut fa = FrameAssembler::new();
    let frames = fa.feed(&outer);
    assert!(frames.is_empty());
    assert_eq!(fa.pending_len(), 0);
}

#[test]
fn frame_after_bad_frame_is_still_decoded() {
    let mut data = vec![0xAA, 0x55, 0x01, 0x10, 0x11];
    data.extend(frame_of(&[0x03, 0x04]));
    let mut fa = FrameAssembler::new();
    let frames = fa.feed(&data);
    assert_eq!(frames, vec![vec![0x03, 0x04]]);
}

#[test]
fn longest_frame_round_trips() {
    let payload: Vec<u8> = (0..255u32).map(|i| (i * 7) as u8).collect();
    let mut fa = FrameAssembler::new();
    let frames = fa.feed(&frame_of(&payload));
    assert_eq!(frames, vec![payload]);
    assert_eq!(fa.pending_len(), 0);
}

#[test]
fn pending_beyond_capacity_is_cleared_entirely() {
    let mut fa = FrameAssembler::with_capacity(8);
    assert_eq!(fa.capacity(), 8);
    let mut data = vec![0xAA, 0x55, 0x20];
    data.extend_from_slice(&[0x11; 6]);
    assert!(fa.feed(&data).is_empty());
    assert_eq!(fa.pending_len(), 0);
}

#[test]
fn pending_at_capacity_is_kept() {
    let mut fa = FrameAssembler::with_capacity(8);
    let mut data = vec![0xAA, 0x55, 0x20];
    data.extend_from_slice(&[0x11; 5]);
    assert!(fa.feed(&data).is_empty());
    assert_eq!(fa.pending(), &data[..]);
}

#[test]
fn flood_of_noise_beyond_capacity_is_cleared_entirely() {
    let mut fa = FrameAssembler::new();
    assert_eq!(fa.capacity(), DEFAULT_CAPACITY);
    let noise = vec![0x33u8; 5000];
    assert!(fa.feed(&noise).is_empty());
    assert_eq!(fa.pending_len(), 0);
    assert!(fa.feed(&vec![0x44u8; 1025]).is_empty());
    assert_eq!(fa.pending_len(), 0);
}

#[test]
fn noise_up_to_capacity_is_drained_to_its_tail() {
    let mut fa = FrameAssembler::new();
    let noise: Vec<u8> = (0..1024u32).map(|i| (i % 100) as u8).collect();
    assert!(fa.feed(&noise).is_empty());
    assert_eq!(fa.pending(), &[21u8, 22, 23]);
}

#[test]
fn noise_piling_up_on_pending_bytes_is_cleared() {
    let mut fa = FrameAssembler::new();
    assert!(fa.feed(&[0x01, 0x02, 0x03]).is_empty());
    assert_eq!(fa.pending_len(), 3);
    assert!(fa.feed(&vec![0x05u8; 1022]).is_empty());
    assert_eq!(fa.pending_len(), 0);
}

#[test]
fn frames_inside_a_large_feed_survive_the_cap() {
    let mut data = vec![0x33u8; 3000];
    data.extend(frame_of(&[0x01, 0x12, 0x34]));
    data.extend_from_slice(&[0x33u8; 2000]);
    data.extend(frame_of(&[0x02]));
    data.extend_from_slice(&[0xAA, 0x55, 0x09, 0x01]);
    let mut fa = FrameAssembler::new();
    let frames = fa.feed(&data);
    assert_eq!(frames, vec![vec![0x01, 0x12, 0x34], vec![0x02]]);
    assert_eq!(fa.pending(), &[0xAAu8, 0x55, 0x09, 0x01]);
}

#[test]
fn partial_frame_after_a_flood_is_cleared_with_it() {
    let mut data = vec![0x33u8; 2000];
    data.extend_from_slice(&[0xAA, 0x55, 0x09, 0x01]);
    let mut fa = FrameAssembler::new();
    assert!(fa.feed(&data).is_empty());
    assert_eq!(fa.pending_len(), 0);
}

#[test]
fn zero_capacity_keeps_nothing() {
    let mut fa = FrameAssembler::with_capacity(0);
    assert!(fa.feed(&[0x01]).is_empty());
    assert_eq!(fa.pending_len(), 0);
    let frames = fa.feed(&frame_of(&[0x01, 0x02]));
    assert_eq!(frames, vec![vec![0x01, 0x02]]);
}

#[test]
fn clear_forgets_pending_bytes() {
    let mut fa = FrameAssembler::new();
    fa.feed(&[0xAA, 0x55, 0x05, 0x01]);
    assert_eq!(fa.pending_len(), 4);
    fa.clear();
    assert_eq!(fa.pending_len(), 0);
    assert_eq!(fa.capacity(), DEFAULT_CAPACITY);
}

#[test]
fn hold_appends_without_scanning() {
    let mut fa = FrameAssembler::new();
    let whole = frame_of(&[0x01, 0x02]);
    fa.hold(&whole);
    assert_eq!(fa.pending(), &whole[..]);
    let frames = fa.feed(&[]);
    assert_eq!(frames, vec![vec![0x01, 0x02]]);
    assert_eq!(fa.pending_len(), 0);
}

#[test]
fn hold_beyond_capacity_clears_everything() {
    let mut fa = FrameAssembler::new();
    fa.hold(&vec![0x11u8; 1024]);
    assert_eq!(fa.pending_len(), 1024);
    fa.hold(&[0x22]);
    assert_eq!(fa.pending_len(), 0);
    fa.hold(&vec![0x33u8; 1025]);
    assert_eq!(fa.pending_len(), 0);
}

#[test]
fn every_emitted_payload_has_its_length_and_checksum_in_the_stream() {
    let mut stream = vec![0x13, 0xAA, 0x37];
    stream.extend(frame_of(&[0x01, 0xAA, 0x55, 0x04]));
    stream.extend_from_slice(&[0xAA, 0x55, 0x02, 0x01, 0x02, 0x00]);
    stream.extend(frame_of(&[]));
    stream.extend_from_slice(&[0x55, 0xAA]);
    stream.extend(frame_of(&[0x09, 0x08, 0x07]));
    let mut fa = FrameAssembler::new();
    let frames = fa.feed(&stream);
    assert_eq!(
        frames,
        vec![vec![0x01, 0xAA, 0x55, 0x04], vec![], vec![0x09, 0x08, 0x07]]
    );
    for payload in &frames {
        let framed = frame_of(payload);
        assert_eq!(framed.len(), payload.len() + 4);
        assert!(stream.windows(framed.len()).any(|w| w == &framed[..]));
    }
    assert_eq!(fa.pending_len(), 0);
}

#[test]
fn byte_by_byte_feeding_gives_the_same_frames() {
    let mut stream = vec![0x00, 0x01];
    stream.extend(frame_of(&[0x01, 0x12, 0x34]));
    stream.extend(frame_of(&[0x02, 0x56]));
    let mut fa = FrameAssembler::new();
    let mut frames: Vec<Vec<u8>> = Vec::new();
    for b in &stream {
        frames.extend(fa.feed(&[*b]));
    }
    assert_eq!(frames, vec![vec![0x01, 0x12, 0x34], vec![0x02, 0x56]]);
}
