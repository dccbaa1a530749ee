use zenlang::stdlib::{base64, color, hash, native_fn_sigs, native_names};
use zenlang::ast::Type;

#[test]
fn base64_encodes_standard_alphabet() {
    assert_eq!(base64::encode(b"Hello, World!"), "SGVsbG8sIFdvcmxkIQ==");
    assert_eq!(base64::encode(b""), "");
    assert_eq!(base64::encode(b"f"), "Zg==");
    assert_eq!(base64::encode(b"fo"), "Zm8=");
    assert_eq!(base64::encode(b"foo"), "Zm9v");
    assert_eq!(base64::encode(&[0xfb, 0xff]), "+/8=");
}

#[test]
fn base64_decodes_complete_groups() {
    assert_eq!(base64::decode("Zm9vYmFy"), Some("foobar".to_string()));
    assert_eq!(base64::decode("Zm9v\nYmFy"), Some("foobar".to_string()));
    assert_eq!(base64::decode("SGVsbG8sIFdvcmxkIQ=="), Some("Hello, World!".to_string()));
    assert_eq!(base64::decode("Zg=="), Some("f".to_string()));
    assert_eq!(base64::decode("Zm8="), Some("fo".to_string()));
    assert_eq!(base64::decode_bytes(b"//79"), vec![0xff, 0xfe, 0xfd]);
    assert_eq!(base64::decode("//79"), None);
}

#[test]
fn base64_roundtrip_on_whole_groups() {
    let data = "abcdefghi";
    assert_eq!(base64::decode(&base64::encode(data.as_bytes())), Some(data.to_string()));
    for data in ["", "a", "ab", "abcd", "abcde"] {
        assert_eq!(base64::decode(&base64::encode(data.as_bytes())), Some(data.to_string()));
    }
}

#[test]
fn fnv1a_and_crc32() {
    assert_eq!(hash::fnv1a(""), "cbf29ce484222325");
    assert_eq!(hash::fnv1a("a"), "af63dc4c8601ec8c");
    assert_eq!(hash::crc32(""), "00000000");
    assert_eq!(hash::crc32("123456789"), "cbf43926");
    assert_eq!(hash::crc32_checksum(b"The quick brown fox jumps over the lazy dog"), 0x414fa339);
    assert_eq!(hash::hash_str("hello").len(), 16);
    assert_eq!(hash::hash_hex(255), "00000000000000ff");
}

#[test]
fn colors() {
    let c = color::rgba(Some(255), Some(128), Some(64), Some(255));
    assert_eq!(c, 0xFFFF8040);
    assert_eq!(color::color_r(Some(c)), 255);
    assert_eq!(color::color_g(Some(c)), 128);
    assert_eq!(color::color_b(Some(c)), 64);
    assert_eq!(color::color_a(Some(c)), 255);
    assert_eq!(color::rgba(Some(300), Some(-5), None, None), 0xFFFF0000);
    assert_eq!(color::color_r(None), 0);
}

#[test]
fn hex_colors() {
    assert_eq!(color::hex_color("#ff8040"), Some(0xFFFF8040));
    assert_eq!(color::hex_color("80ff8040"), Some(0x80FF8040));
    assert_eq!(color::hex_color("##0a0B0c"), Some(0xFF0A0B0C));
    assert_eq!(color::hex_color("#+f+f+f"), Some(0xFF0F0F0F));
    assert_eq!(color::hex_color("#ff80"), None);
    assert_eq!(color::hex_color("#gg0000"), None);
}

#[test]
fn signature_tables() {
    let sigs = base64::signatures();
    assert_eq!(sigs.len(), 2);
    assert_eq!(sigs[0].name, "base64_encode");
    assert_eq!(sigs[0].params, vec![("data".to_string(), Type::Str)]);
    assert_eq!(sigs[0].return_type, Some(Type::Str));
    let names = native_names();
    let all = native_fn_sigs();
    assert_eq!(names.len(), all.len());
    assert_eq!(names[0], "print");
    assert!(names.contains(&"to_json".to_string()));
    assert!(names.contains(&"log_info".to_string()));
    assert!(names.contains(&"contains".to_string()));
}

#[test]
fn native_names_are_distinct() {
    let names = native_names();
    let mut sorted = names.clone();
    sorted.sort();
    sorted.dedup();
    assert_eq!(sorted.len(), names.len());
    assert_eq!(names.len(), 71);
}
