use system_monitor::names::{name_le, sort_names};
use system_monitor::text::{
    decimal_string, join_strings, labelled, parse_hex_rgb, path_commands, rgb_to_hex, trim_text,
};

#[test]
fn decimal_string_writes_plain_decimal() {
    assert_eq!(decimal_string(0), "0");
    assert_eq!(decimal_string(7), "7");
    assert_eq!(decimal_string(10), "10");
    assert_eq!(decimal_string(1234), "1234");
    assert_eq!(decimal_string(u64::MAX), u64::MAX.to_string());
}

#[test]
fn labelled_appends_index() {
    assert_eq!(labelled("GPU ", 3), "GPU 3");
    assert_eq!(labelled("NVIDIA GPU ", 12), "NVIDIA GPU 12");
}

#[test]
fn rgb_to_hex_is_lower_case_two_digits() {
    assert_eq!(rgb_to_hex(255, 0, 171), "#ff00ab");
    assert_eq!(rgb_to_hex(1, 2, 3), "#010203");
    assert_eq!(rgb_to_hex(0, 0, 0), "#000000");
}

#[test]
fn parse_hex_rgb_reads_channels() {
    assert_eq!(parse_hex_rgb("#FF00ab"), (255, 0, 171));
    assert_eq!(parse_hex_rgb("#102030"), (16, 32, 48));
}

#[test]
fn parse_hex_rgb_falls_back_to_grey() {
    assert_eq!(parse_hex_rgb("red"), (100, 100, 100));
    assert_eq!(parse_hex_rgb("#1234567"), (100, 100, 100));
    assert_eq!(parse_hex_rgb("1234567"), (100, 100, 100));
    assert_eq!(parse_hex_rgb(""), (100, 100, 100));
}

#[test]
fn parse_hex_rgb_bad_digits_give_grey() {
    assert_eq!(parse_hex_rgb("#gg1020"), (100, 100, 100));
    assert_eq!(parse_hex_rgb("#+f-100"), (100, 100, 100));
    assert_eq!(parse_hex_rgb("# 10203"), (100, 100, 100));
    assert_eq!(parse_hex_rgb("#zz0000"), (100, 100, 100));
    assert_eq!(parse_hex_rgb("#10203g"), (100, 100, 100));
}

#[test]
fn parse_hex_rgb_multibyte_text_gives_grey() {
    // Seven bytes, starting with '#', with multi-byte characters inside.
    assert_eq!(parse_hex_rgb("#a\u{e9}\u{e9}b"), (100, 100, 100));
    assert_eq!(parse_hex_rgb("#\u{e9}\u{e9}\u{e9}"), (100, 100, 100));
}

#[test]
fn hex_round_trip() {
    for (r, g, b) in [(0u8, 0u8, 0u8), (255, 128, 7), (18, 52, 86)] {
        assert_eq!(parse_hex_rgb(&rgb_to_hex(r, g, b)), (r, g, b));
    }
    assert_eq!(
        {
            let (r, g, b) = parse_hex_rgb("#a1b2c3");
            rgb_to_hex(r, g, b)
        },
        "#a1b2c3"
    );
}

#[test]
fn join_strings_separates_neighbours() {
    let v: Vec<String> = vec!["a".to_string(), "bc".to_string(), "d".to_string()];
    assert_eq!(join_strings(&v, ", "), "a, bc, d");
    assert_eq!(join_strings(&Vec::new(), ", "), "");
    assert_eq!(join_strings(&vec!["only".to_string()], ", "), "only");
}

#[test]
fn path_commands_empty_is_empty() {
    assert_eq!(path_commands(&Vec::new()), "");
}

#[test]
fn path_commands_builds_moves_and_lines() {
    let pts: Vec<String> = vec!["100.00".into(), "50.00".into(), "0.00".into()];
    assert_eq!(path_commands(&pts), "M 0 100.00 L 1 50.00 L 2 0.00");
    let one: Vec<String> = vec!["12.50".into()];
    assert_eq!(path_commands(&one), "M 0 12.50");
}

#[test]
fn name_le_is_lexicographic() {
    let a = "eth0".to_string();
    let b = "eth1".to_string();
    let c = "eth".to_string();
    assert!(name_le(&a, &b));
    assert!(!name_le(&b, &a));
    assert!(name_le(&c, &a));
    assert!(!name_le(&a, &c));
    assert!(name_le(&a, &a));
}

#[test]
fn sort_names_matches_std_sort() {
    let names: Vec<String> = ["wlan0", "lo", "eth0", "docker0", "eth0", "Éther", "zz", "br-1"]
        .iter()
        .map(|s| s.to_string())
        .collect();
    let mut want = names.clone();
    want.sort();
    assert_eq!(sort_names(&names), want);
    assert_eq!(sort_names(&Vec::new()), Vec::<String>::new());
}

#[test]
fn trim_text_matches_std_trim() {
    for s in ["  F12 \n", "F12", "", "   ", "\t1.2.3\u{3000}", "\u{a0}a b\u{2029}", "x\u{200b}"] {
        assert_eq!(trim_text(s), s.trim());
    }
}
