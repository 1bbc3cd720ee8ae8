use browser_superpeer::media::{media_content_type, media_name_allowed, media_names};
use browser_superpeer::ticket::{decode_ticket, encode_ticket, TicketError};

#[test]
fn encode_ticket_known_value() {
    assert_eq!(encode_ticket(b"{}"), "e30");
    assert_eq!(encode_ticket(b""), "");
    assert_eq!(encode_ticket(&[0xfb, 0xff]), "-_8");
}

#[test]
fn ticket_roundtrip() {
    let json = br#"{"id":"abc","addrs":[]}"#;
    let t = encode_ticket(json);
    assert_eq!(decode_ticket(&t).unwrap(), json.to_vec());
    assert_eq!(decode_ticket(&format!("  {t}\n")).unwrap(), json.to_vec());
    let mut padded = t.clone();
    while padded.len() % 4 != 0 {
        padded.push('=');
    }
    assert_ne!(padded, t);
    assert_eq!(decode_ticket(&padded).unwrap(), json.to_vec());
    assert!(t.chars().all(|c| c.is_ascii_alphanumeric() || c == '-' || c == '_'));
}

#[test]
fn decode_ticket_accepts_padding_too() {
    assert_eq!(decode_ticket("YQ").unwrap(), b"a".to_vec());
    assert_eq!(decode_ticket("YQ==").unwrap(), b"a".to_vec());
    assert_eq!(decode_ticket("\u{3000}YQ==\t").unwrap(), b"a".to_vec());
}

#[test]
fn decode_ticket_refuses_non_base64() {
    assert_eq!(decode_ticket("not base64!"), Err(TicketError::Base64));
    assert_eq!(decode_ticket("YQ="), Err(TicketError::Base64));
    assert_eq!(decode_ticket("a+b/"), Err(TicketError::Base64));
}

#[test]
fn media_names_from_descriptor() {
    let sd_hash = "0123456789abcdef0123456789abcdef";
    let n = media_names(sd_hash, &hex::encode("my/clip\\1.wav"));
    assert_eq!(n.filename, "my/clip\\1.wav");
    assert_eq!(n.safe_name, "0123456789abcdef_my_clip_1.wav");
}

#[test]
fn media_names_fallbacks() {
    let n = media_names("abc", "zz");
    assert_eq!(n.filename, "assembled.bin");
    assert_eq!(n.safe_name, "abc_assembled.bin");
    let n = media_names("0123456789abcdefXYZ", "ff41");
    assert_eq!(n.filename, "\u{fffd}A");
    assert_eq!(n.safe_name, "0123456789abcdef_\u{fffd}A");
}

#[test]
fn media_name_allowed_cases() {
    assert!(media_name_allowed("abc_song.mp3"));
    assert!(media_name_allowed("a.b.c"));
    assert!(!media_name_allowed("a..b"));
    assert!(!media_name_allowed(".."));
    assert!(!media_name_allowed("a/b"));
    assert!(!media_name_allowed("a\\b"));
    assert!(media_name_allowed(""));
}

#[test]
fn media_content_types() {
    assert_eq!(media_content_type("x.wav"), "audio/wav");
    assert_eq!(media_content_type("x.mp4"), "video/mp4");
    assert_eq!(media_content_type("x.webm"), "video/webm");
    assert_eq!(media_content_type("x.mp3"), "audio/mpeg");
    assert_eq!(media_content_type("x.WAV"), "application/octet-stream");
    assert_eq!(media_content_type("wav"), "application/octet-stream");
    assert_eq!(media_content_type(".wav"), "audio/wav");
}
