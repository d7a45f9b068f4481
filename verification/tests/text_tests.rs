use mobinogi_timer::{hex_str, scan_ascii};

#[test]
fn hex_str_short() {
    assert_eq!(hex_str(&[0x00, 0xAB, 0x7F]), "00 AB 7F (3 bytes)");
    assert_eq!(hex_str(&[]), " (0 bytes)");
}

#[test]
fn hex_str_long_is_cut_at_48_bytes() {
    let data: Vec<u8> = (0..100u8).collect();
    let text = hex_str(&data);
    let shown: Vec<String> = (0..48u8).map(|b| format!("{:02X}", b)).collect();
    assert_eq!(text, format!("{} ...(100 bytes)", shown.join(" ")));
    let data = vec![0xFFu8; 48];
    let text = hex_str(&data);
    assert!(text.ends_with("FF (48 bytes)"));
    assert!(!text.contains("..."));
}

#[test]
fn scan_ascii_finds_long_runs() {
    let data = b"\x00hello\x01hi\x02world wide\xFFabcd";
    assert_eq!(scan_ascii(data), vec!["hello".to_string(), "world wide".to_string()]);
}

#[test]
fn scan_ascii_run_at_end_and_edges() {
    assert_eq!(scan_ascii(b"abcde"), vec!["abcde".to_string()]);
    assert!(scan_ascii(b"abcd").is_empty());
    assert!(scan_ascii(&[]).is_empty());
    // Tilde and space are printable; DEL and tab are not.
    assert_eq!(scan_ascii(b"~ ~ ~\x7Fa\tbcdef"), vec!["~ ~ ~".to_string(), "bcdef".to_string()]);
}

#[test]
fn a_zero_byte_splits_the_scan() {
    let a = b"abcdefg\x01xyz".to_vec();
    let b = b"hi there\x02qrstu".to_vec();
    let joined = [&a[..], &[0u8][..], &b[..]].concat();
    let mut expected = scan_ascii(&a);
    expected.extend(scan_ascii(&b));
    assert_eq!(scan_ascii(&joined), expected);
    // Without the separator the two open runs would merge.
    assert_eq!(scan_ascii(&[&b"xyz"[..], &b"qr"[..]].concat()), vec!["xyzqr".to_string()]);
}
