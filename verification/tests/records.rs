use magictaskbar::copydata::{
    startup_status_payload, third_party_status_payload, STARTUP_STATUS_KIND, THIRD_PARTY_STATUS_KIND,
};

fn field(bytes: &[u8], size: usize) -> Vec<u8> {
    let mut f = vec![0u8; size];
    let n = bytes.len().min(size - 1);
    f[..n].copy_from_slice(&bytes[..n]);
    f
}

#[test]
fn startup_record_layout() {
    let r = startup_status_payload("app", "App", "应用", "desc", "描述", true);
    assert_eq!(r.len(), 1796);
    let mut expected = Vec::new();
    expected.extend(field(b"app", 256));
    expected.extend(field(b"App", 256));
    expected.extend(field("应用".as_bytes(), 256));
    expected.extend(field(b"desc", 512));
    expected.extend(field("描述".as_bytes(), 512));
    expected.extend(1i32.to_le_bytes());
    assert_eq!(r, expected);
    let off = startup_status_payload("app", "", "", "", "", false);
    assert_eq!(&off[1792..], &[0, 0, 0, 0]);
}

#[test]
fn startup_record_truncates_long_texts() {
    let long = "x".repeat(300);
    let r = startup_status_payload(&long, "", "", "", "", true);
    assert!(r[..255].iter().all(|&b| b == b'x'));
    assert_eq!(r[255], 0);
    assert_eq!(r[256], 0);
}

#[test]
fn third_party_record_layout() {
    let r = third_party_status_payload("game", "Star 🚀", "blocked");
    assert_eq!(r.len(), 448);
    let units = |s: &str, size: usize| {
        let mut f = vec![0u16; size];
        for (i, u) in s.encode_utf16().take(size - 1).enumerate() {
            f[i] = u;
        }
        f
    };
    let mut all = units("game", 64);
    all.extend(units("Star 🚀", 128));
    all.extend(units("blocked", 32));
    let expected: Vec<u8> = all.iter().flat_map(|u| u.to_le_bytes()).collect();
    assert_eq!(r, expected);
}

#[test]
fn third_party_record_truncates_to_the_field() {
    let long = "a".repeat(100);
    let r = third_party_status_payload(&long, "", "");
    assert_eq!(r[124], b'a');
    assert_eq!(r[126], 0);
    assert_eq!(r[127], 0);
}

#[test]
fn record_kinds() {
    assert_eq!(THIRD_PARTY_STATUS_KIND, 2);
    assert_eq!(STARTUP_STATUS_KIND, 3);
}
