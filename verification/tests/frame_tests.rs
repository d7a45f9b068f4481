use mobinogi_timer::frame::{read_u32_le, read_u64_le};
use mobinogi_timer::{extract_tcp_payload, find_marker, iter_data_entries};

#[test]
fn find_marker_returns_first_match() {
    let data = [1u8, 2, 3, 1, 2, 3, 1, 2];
    assert_eq!(find_marker(&data, &[1, 2]), Some(0));
    assert_eq!(find_marker(&data, &[2, 3, 1]), Some(1));
    assert_eq!(find_marker(&data, &[3, 1, 2]), Some(2));
}

#[test]
fn find_marker_absent_or_too_long() {
    let data = [1u8, 2, 3];
    assert_eq!(find_marker(&data, &[4]), None);
    assert_eq!(find_marker(&data, &[1, 2, 3, 4]), None);
    assert_eq!(find_marker(&[], &[1]), None);
    assert_eq!(find_marker(&data, &[1, 2, 3]), Some(0));
}

fn frame_with(ihl_words: u8, tcp_words: u8, payload: &[u8], total_len: usize) -> Vec<u8> {
    let mut f = vec![0u8; total_len];
    f[14] = 0x40 | ihl_words;
    let tcp = 14 + ihl_words as usize * 4;
    if tcp + 12 < f.len() {
        f[tcp + 12] = tcp_words << 4;
    }
    let start = tcp + tcp_words as usize * 4;
    for (i, b) in payload.iter().enumerate() {
        if start + i < f.len() {
            f[start + i] = *b;
        }
    }
    f
}

#[test]
fn extract_tcp_payload_of_standard_frame() {
    // 14 (Ethernet) + 20 (IPv4) + 20 (TCP) = 54 bytes of headers, then the payload.
    let f = frame_with(5, 5, &[9, 8, 7], 57);
    assert_eq!(extract_tcp_payload(&f), &[9u8, 8, 7][..]);
}

#[test]
fn extract_tcp_payload_with_options() {
    // IPv4 header of 24 bytes and TCP header of 32 bytes.
    let f = frame_with(6, 8, &[0xAA, 0xBB], 14 + 24 + 32 + 2);
    assert_eq!(extract_tcp_payload(&f), &[0xAAu8, 0xBB][..]);
}

#[test]
fn extract_tcp_payload_empty_cases() {
    // Shorter than 54 bytes.
    assert!(extract_tcp_payload(&[0u8; 53]).is_empty());
    // Exactly the headers: no payload.
    let f = frame_with(5, 5, &[], 54);
    assert!(extract_tcp_payload(&f).is_empty());
    // IPv4 header length pushes the TCP header past the end.
    let mut f = vec![0u8; 60];
    f[14] = 0x4F; // 60-byte IPv4 header
    assert!(extract_tcp_payload(&f).is_empty());
    // TCP header length reaches past the end.
    let f = frame_with(5, 15, &[], 80);
    assert!(extract_tcp_payload(&f).is_empty());
}

fn entry(data_type: u32, content: &[u8]) -> Vec<u8> {
    let mut v = Vec::new();
    v.extend_from_slice(&data_type.to_le_bytes());
    v.extend_from_slice(&(content.len() as u32).to_le_bytes());
    v.push(0);
    v.extend_from_slice(content);
    v
}

#[test]
fn iter_data_entries_reads_every_entry() {
    let mut block = entry(7, &[1, 2, 3]);
    block.extend(entry(100055, &[]));
    block.extend(entry(0xFFFF_FFFF, &[4]));
    let es = iter_data_entries(&block);
    assert_eq!(es.len(), 3);
    assert_eq!(es[0].data_type, 7);
    assert_eq!(es[0].content, &[1u8, 2, 3][..]);
    assert_eq!(es[1].data_type, 100055);
    assert!(es[1].content.is_empty());
    assert_eq!(es[2].data_type, 0xFFFF_FFFF);
    assert_eq!(es[2].content, &[4u8][..]);
}

#[test]
fn iter_data_entries_stops_at_truncated_entry() {
    let mut block = entry(1, &[5, 6]);
    // Header says 50 bytes of content, fewer follow.
    block.extend_from_slice(&2u32.to_le_bytes());
    block.extend_from_slice(&50u32.to_le_bytes());
    block.push(0);
    block.extend_from_slice(&[1, 2]);
    block.extend(entry(3, &[7]));
    let es = iter_data_entries(&block);
    assert_eq!(es.len(), 1);
    assert_eq!(es[0].data_type, 1);
    assert_eq!(es[0].content, &[5u8, 6][..]);
}

#[test]
fn iter_data_entries_ignores_partial_header() {
    let mut block = entry(1, &[5]);
    block.extend_from_slice(&[1, 2, 3, 4, 5, 6, 7, 8]); // 8 bytes: header needs 9
    let es = iter_data_entries(&block);
    assert_eq!(es.len(), 1);
    assert!(iter_data_entries(&[]).is_empty());
}

#[test]
fn little_endian_reads() {
    let s = [0x01u8, 0x02, 0x03, 0x04, 0x05, 0x06, 0x07, 0x08, 0xFF];
    assert_eq!(read_u32_le(&s, 0), 0x0403_0201);
    assert_eq!(read_u32_le(&s, 5), 0xFF08_0706);
    assert_eq!(read_u64_le(&s, 0), 0x0807_0605_0403_0201);
    assert_eq!(read_u64_le(&s, 1), 0xFF08_0706_0504_0302);
}

#[test]
fn entries_lie_one_after_the_other() {
    let mut block = entry(1, &[1, 2, 3]);
    block.extend(entry(2, &[]));
    block.extend(entry(3, &[4, 5]));
    block.push(0xEE);
    let es = iter_data_entries(&block);
    let mut start = 0usize;
    for e in &es {
        let len = e.content.len();
        assert_eq!(read_u32_le(&block, start), e.data_type);
        assert_eq!(read_u32_le(&block, start + 4) as usize, len);
        assert_eq!(&block[start + 9..start + 9 + len], e.content);
        start += 9 + len;
    }
    assert_eq!(es.len(), 3);
    assert!(start <= block.len());
    assert!(es.len() <= block.len() / 9);
}
