use shot2path::text::{copy_image_path, encode_utf16, fill_tip, wide};

#[test]
fn wide_appends_nul() {
    assert_eq!(wide("ab"), vec![97, 98, 0]);
    assert_eq!(wide(""), vec![0]);
}

#[test]
fn wide_encodes_surrogate_pairs() {
    assert_eq!(wide("\u{1F600}"), vec![0xD83D, 0xDE00, 0]);
}

#[test]
fn encode_utf16_matches_std() {
    let s = "C:\\Users\\Jürgen\\Pictures\\shot2path\\日本\u{10FFFF}.png";
    assert_eq!(encode_utf16(s), s.encode_utf16().collect::<Vec<u16>>());
}

#[test]
fn copy_image_path_is_nul_terminated_utf16() {
    let p = "C:\\Users\\me\\Pictures\\shot2path\\2025-01-02_030405_006.png";
    let payload = copy_image_path(p);
    assert_eq!(payload.len(), p.len() + 1);
    assert_eq!(*payload.last().unwrap(), 0);
    assert_eq!(String::from_utf16(&payload[..payload.len() - 1]).unwrap(), p);
}

#[test]
fn fill_tip_short_tooltip() {
    let tip = fill_tip("shot2path — Ctrl+PrintScreen to capture");
    let units: Vec<u16> = "shot2path — Ctrl+PrintScreen to capture".encode_utf16().collect();
    assert_eq!(&tip[..units.len()], &units[..]);
    assert!(tip[units.len()..].iter().all(|&u| u == 0));
}

#[test]
fn fill_tip_cuts_long_tooltip_and_keeps_nul() {
    let long = "x".repeat(300);
    let tip = fill_tip(&long);
    assert!(tip[..127].iter().all(|&u| u == 'x' as u16));
    assert_eq!(tip[127], 0);
}
