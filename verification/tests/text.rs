use tauri_plugin_wayland_nvidia_quirk::text::{
    contains_char, file_name, format_hex_label, parse_hex, same_text, split_pieces, starts_with,
    text_less, trimmed, white_space, without_hex_prefixes,
};

#[test]
fn trim_removes_unicode_white_space_only() {
    assert_eq!(trimmed("  nvidia\n"), "nvidia");
    assert_eq!(trimmed("\u{3000}\u{85}x y\u{a0}\t"), "x y");
    assert_eq!(trimmed(" \n\t "), "");
    assert_eq!(trimmed(""), "");
    assert_eq!(trimmed("\u{200b}a"), "\u{200b}a");
    assert!(white_space('\u{2028}'));
    assert!(!white_space('_'));
}

#[test]
fn split_keeps_empty_pieces() {
    assert_eq!(split_pieces("", ','), vec![String::new()]);
    assert_eq!(split_pieces("a,,b,", ','), vec!["a", "", "b", ""]);
}

#[test]
fn hex_parses_as_from_str_radix() {
    assert_eq!(parse_hex("10de"), Some(0x10de));
    assert_eq!(parse_hex("10DE"), Some(0x10de));
    assert_eq!(parse_hex("+ff"), Some(0xff));
    assert_eq!(parse_hex("ffffffff"), Some(u32::MAX));
    assert_eq!(parse_hex("100000000"), None);
    assert_eq!(parse_hex("1000000000g"), None);
    assert_eq!(parse_hex(""), None);
    assert_eq!(parse_hex("+"), None);
    assert_eq!(parse_hex("-1"), None);
    assert_eq!(parse_hex("0x10"), None);
    for s in ["10de", "10DE", "+ff", "ffffffff", "100000000", "", "+", "-1", "0x10", "0g"] {
        assert_eq!(parse_hex(s), u32::from_str_radix(s, 16).ok(), "{s:?}");
    }
}

#[test]
fn hex_prefixes_are_all_stripped() {
    assert_eq!(without_hex_prefixes("0x0x10de"), "10de");
    assert_eq!(without_hex_prefixes("0X10de"), "0X10de");
    assert_eq!(without_hex_prefixes("0x"), "");
    assert_eq!(without_hex_prefixes("00x1"), "00x1");
    assert_eq!(without_hex_prefixes("0x0x10de"), "0x0x10de".trim_start_matches("0x"));
}

#[test]
fn hex_label_is_padded_to_four_digits() {
    assert_eq!(format_hex_label(0x10de), "0x10de");
    assert_eq!(format_hex_label(0), "0x0000");
    assert_eq!(format_hex_label(0xab), "0x00ab");
    assert_eq!(format_hex_label(0x12345), "0x12345");
    for v in [0u32, 1, 0xf, 0x10, 0x10de, 0x8086, 0xffff, 0x10000, u32::MAX] {
        assert_eq!(format_hex_label(v), format!("{v:#06x}"));
    }
}

#[test]
fn file_name_is_the_last_component() {
    assert_eq!(file_name("../../bus/pci/drivers/nvidia").as_deref(), Some("nvidia"));
    assert_eq!(file_name("drivers/i915/").as_deref(), Some("i915"));
    assert_eq!(file_name("drivers/amdgpu/.").as_deref(), Some("amdgpu"));
    assert_eq!(file_name("drivers/.."), None);
    assert_eq!(file_name("/"), None);
    assert_eq!(file_name(""), None);
    assert_eq!(file_name("."), None);
    for p in ["a/b", "a//b//", "/a/./", "..", "./x", "a/../b"] {
        let expected = std::path::Path::new(p)
            .file_name()
            .map(|n| n.to_str().unwrap().to_string());
        assert_eq!(file_name(p), expected, "{p:?}");
    }
}

#[test]
fn small_text_tests() {
    assert!(same_text("card", "card"));
    assert!(!same_text("card", "car"));
    assert!(starts_with("card0", "card"));
    assert!(!starts_with("car", "card"));
    assert!(contains_char("card0-DP-1", '-'));
    assert!(!contains_char("card0", '-'));
    assert!(text_less("card1", "card10"));
    assert!(text_less("card10", "card2"));
    assert!(!text_less("card2", "card2"));
    assert!(text_less("", "a"));
    assert_eq!(text_less("é", "z"), "é" < "z");
}
