use mobinogi_timer::capture::{
    handle_packet, process_block, process_buffer, BufferedBuff, CaptureState, END_MARKER,
    MAX_BUFFER_LEN, START_MARKER,
};
use mobinogi_timer::DetectedBuff;

const SEC: u64 = 1_000_000_000;
const DUR: u32 = 0x41A0_0000; // 20.0 seconds as the bits of an f32

fn entry(data_type: u32, content: &[u8]) -> Vec<u8> {
    let mut v = Vec::new();
    v.extend_from_slice(&data_type.to_le_bytes());
    v.extend_from_slice(&(content.len() as u32).to_le_bytes());
    v.push(0);
    v.extend_from_slice(content);
    v
}

fn self_damage(user: u64, target: u64) -> Vec<u8> {
    let mut c = Vec::new();
    c.extend_from_slice(&user.to_le_bytes());
    c.extend_from_slice(&target.to_le_bytes());
    entry(20937, &c)
}

fn buff_start(user: u64, field: [u8; 4]) -> Vec<u8> {
    let mut c = Vec::new();
    c.extend_from_slice(&user.to_le_bytes());
    c.extend_from_slice(&[0u8; 8]);
    c.extend_from_slice(&field);
    c.extend_from_slice(&DUR.to_le_bytes());
    entry(110055, &c)
}

const ARCHMAGE: [u8; 4] = [0x9E, 0x5A, 0x0D, 0x72]; // buff key 122806656
const SWORD: [u8; 4] = [0x4B, 0x61, 0x2A, 0x15]; // buff key 355098955

fn framed(block: &[u8]) -> Vec<u8> {
    let mut v = START_MARKER.to_vec();
    v.extend_from_slice(block);
    v.extend_from_slice(&END_MARKER);
    v
}

#[test]
fn self_damage_sets_candidates_without_emitting() {
    let mut st = CaptureState::new();
    let out = process_block(&self_damage(11, 22), &mut st, 5);
    assert_eq!(out, None);
    assert_eq!(st.candidates, (11, 22));
    assert!(st.buff_queue.is_empty());
}

#[test]
fn emblem_is_queued_without_candidates() {
    let mut st = CaptureState::new();
    let out = process_block(&buff_start(7, ARCHMAGE), &mut st, 100);
    assert_eq!(out, None);
    assert_eq!(st.candidates, (0, 0));
    assert_eq!(st.buff_queue, vec![BufferedBuff { user_id: 7, buff_key: 122806656, duration_bits: DUR, detected_at: 100 }]);
}

#[test]
fn unknown_field_or_short_entry_is_not_queued() {
    let mut st = CaptureState::new();
    assert_eq!(process_block(&buff_start(7, [1, 2, 3, 4]), &mut st, 1), None);
    // A BUFF_START entry shorter than 24 bytes is ignored.
    let short = entry(110055, &[0u8; 23]);
    assert_eq!(process_block(&short, &mut st, 1), None);
    // A SELF_DAMAGE entry shorter than 16 bytes is ignored.
    let short = entry(20937, &[1u8; 15]);
    assert_eq!(process_block(&short, &mut st, 1), None);
    assert!(st.buff_queue.is_empty());
    assert_eq!(st.candidates, (0, 0));
}

#[test]
fn own_emblem_is_emitted_when_candidates_match() {
    let mut st = CaptureState::new();
    let mut block = buff_start(42, SWORD);
    block.extend(self_damage(42, 99));
    let out = process_block(&block, &mut st, 3 * SEC);
    assert_eq!(out, Some(DetectedBuff { buff_key: 355098955, duration_bits: DUR, detected_at: 3 * SEC }));
    assert_eq!(st.candidates, (42, 99));
    assert!(st.buff_queue.is_empty());
}

#[test]
fn target_id_also_counts_as_own() {
    let mut st = CaptureState::new();
    process_block(&buff_start(99, ARCHMAGE), &mut st, SEC);
    let out = process_block(&self_damage(5, 99), &mut st, 2 * SEC);
    assert_eq!(out, Some(DetectedBuff { buff_key: 122806656, duration_bits: DUR, detected_at: SEC }));
}

#[test]
fn other_players_emblems_stay_queued() {
    let mut st = CaptureState::new();
    process_block(&buff_start(1, ARCHMAGE), &mut st, SEC);
    let out = process_block(&self_damage(2, 3), &mut st, 2 * SEC);
    assert_eq!(out, None);
    assert_eq!(st.buff_queue.len(), 1);
    assert_eq!(st.candidates, (2, 3));
}

#[test]
fn match_drops_everything_queued_before_it() {
    let mut st = CaptureState::new();
    process_block(&buff_start(1, ARCHMAGE), &mut st, SEC);
    process_block(&buff_start(2, SWORD), &mut st, 2 * SEC);
    process_block(&buff_start(3, ARCHMAGE), &mut st, 3 * SEC);
    let out = process_block(&self_damage(2, 2), &mut st, 4 * SEC);
    assert_eq!(out, Some(DetectedBuff { buff_key: 355098955, duration_bits: DUR, detected_at: 2 * SEC }));
    assert_eq!(st.buff_queue, vec![BufferedBuff { user_id: 3, buff_key: 122806656, duration_bits: DUR, detected_at: 3 * SEC }]);
}

#[test]
fn stale_buffs_expire_after_35_seconds() {
    let mut st = CaptureState::new();
    process_block(&buff_start(8, ARCHMAGE), &mut st, 0);
    process_block(&buff_start(9, ARCHMAGE), &mut st, 10 * SEC);
    // At 35 s the first one is exactly 35 s old and is dropped.
    let out = process_block(&self_damage(8, 8), &mut st, 35 * SEC);
    assert_eq!(out, None);
    assert_eq!(st.buff_queue, vec![BufferedBuff { user_id: 9, buff_key: 122806656, duration_bits: DUR, detected_at: 10 * SEC }]);
    // Just under 35 s still counts.
    let out = process_block(&self_damage(9, 0), &mut st, 45 * SEC - 1);
    assert_eq!(out, Some(DetectedBuff { buff_key: 122806656, duration_bits: DUR, detected_at: 10 * SEC }));
}

#[test]
fn only_first_emblem_of_block_and_last_self_damage_count() {
    let mut st = CaptureState::new();
    let mut block = buff_start(4, ARCHMAGE);
    block.extend(buff_start(4, SWORD));
    block.extend(self_damage(1, 1));
    block.extend(self_damage(4, 6));
    let out = process_block(&block, &mut st, 7);
    assert_eq!(out, Some(DetectedBuff { buff_key: 122806656, duration_bits: DUR, detected_at: 7 }));
    assert_eq!(st.candidates, (4, 6));
    assert!(st.buff_queue.is_empty());
}

#[test]
fn process_buffer_handles_complete_blocks() {
    let mut st = CaptureState::new();
    let mut buf = vec![0xAA, 0xBB];
    buf.extend(framed(&buff_start(5, ARCHMAGE)));
    buf.extend(framed(&self_damage(5, 6)));
    buf.extend_from_slice(&[1, 2, 3]);
    let out = process_buffer(&mut buf, &mut st, 50);
    assert_eq!(out, vec![DetectedBuff { buff_key: 122806656, duration_bits: DUR, detected_at: 50 }]);
    assert_eq!(buf, vec![1, 2, 3]);
    assert_eq!(st.candidates, (5, 6));
}

#[test]
fn process_buffer_keeps_unfinished_block_from_its_start() {
    let mut st = CaptureState::new();
    let mut buf = vec![9, 9, 9];
    buf.extend_from_slice(&START_MARKER);
    buf.extend_from_slice(&[1, 2]);
    let expected = buf[3..].to_vec();
    let out = process_buffer(&mut buf, &mut st, 0);
    assert!(out.is_empty());
    assert_eq!(buf, expected);
}

#[test]
fn process_buffer_trims_long_garbage() {
    let mut st = CaptureState::new();
    let mut buf: Vec<u8> = (0..MAX_BUFFER_LEN + 1).map(|i| (i % 7) as u8 + 1).collect();
    let tail = buf[buf.len() - 9..].to_vec();
    process_buffer(&mut buf, &mut st, 0);
    assert_eq!(buf, tail);
    // At exactly the limit nothing is cut.
    let mut buf = vec![1u8; MAX_BUFFER_LEN];
    process_buffer(&mut buf, &mut st, 0);
    assert_eq!(buf.len(), MAX_BUFFER_LEN);
}

fn tcp_frame(payload: &[u8]) -> Vec<u8> {
    let mut f = vec![0u8; 54];
    f[14] = 0x45;
    f[14 + 20 + 12] = 0x50;
    f.extend_from_slice(payload);
    f
}

#[test]
fn handle_packet_reassembles_blocks_across_frames() {
    let mut st = CaptureState::new();
    let mut buf = Vec::new();
    let mut stream = framed(&buff_start(77, SWORD));
    stream.extend(framed(&self_damage(1, 77)));
    let (a, b) = stream.split_at(20);
    assert!(handle_packet(&mut buf, &mut st, &tcp_frame(a), 10).is_empty());
    assert_eq!(buf, a.to_vec());
    let out = handle_packet(&mut buf, &mut st, &tcp_frame(b), 20);
    assert_eq!(out, vec![DetectedBuff { buff_key: 355098955, duration_bits: DUR, detected_at: 20 }]);
    assert!(buf.is_empty());
}

#[test]
fn handle_packet_ignores_frames_without_payload() {
    let mut st = CaptureState::new();
    let mut buf = vec![1, 2];
    assert!(handle_packet(&mut buf, &mut st, &[0u8; 40], 0).is_empty());
    assert!(handle_packet(&mut buf, &mut st, &tcp_frame(&[]), 0).is_empty());
    assert_eq!(buf, vec![1, 2]);
}

#[test]
fn documented_markers_and_entry_types() {
    assert_eq!(START_MARKER, [0x83, 0x4E, 0, 0, 0, 0, 0, 0, 0]);
    assert_eq!(END_MARKER, [0x1A, 0x4F, 0, 0, 0, 0, 0, 0, 0]);
    // An empty block is recognised and consumed.
    let mut st = CaptureState::new();
    let mut buf = framed(&[]);
    assert!(process_buffer(&mut buf, &mut st, 0).is_empty());
    assert!(buf.is_empty());
    assert_eq!(st.candidates, (0, 0));
    // A buff start and a self-damage entry of the same character emit the emblem.
    let mut block = buff_start(7, ARCHMAGE);
    block.extend(self_damage(5, 7));
    let out = process_block(&block, &mut st, 1);
    assert_eq!(out, Some(DetectedBuff { buff_key: 122806656, duration_bits: DUR, detected_at: 1 }));
    assert_eq!(st.candidates, (5, 7));
    assert!(st.buff_queue.is_empty());
}

#[test]
fn queued_buff_keeps_the_packet_duration() {
    let mut st = CaptureState::new();
    let mut c = Vec::new();
    c.extend_from_slice(&3u64.to_le_bytes());
    c.extend_from_slice(&[0u8; 8]);
    c.extend_from_slice(&SWORD);
    c.extend_from_slice(&12.5f32.to_le_bytes());
    process_block(&entry(110055, &c), &mut st, 9);
    assert_eq!(st.buff_queue, vec![BufferedBuff { user_id: 3, buff_key: 355098955, duration_bits: 12.5f32.to_bits(), detected_at: 9 }]);
}
