use cosmic_world_clock::text::{chars_of, is_white_space_char, split_window, string_of_window};

#[test]
fn white_space_matches_std() {
    for code in 0u32..0x11_0000 {
        if let Some(c) = char::from_u32(code) {
            assert_eq!(is_white_space_char(c), c.is_whitespace(), "for U+{code:04X}");
        }
    }
}

#[test]
fn split_window_matches_std_split() {
    let samples = ["a('b('c", "('", "", "('('", "x(('y", "no marker", "é('ü('"];
    for s in samples {
        let v = chars_of(s);
        let pattern: Vec<char> = "('".chars().collect();
        let pieces = split_window(&v, 0, v.len(), &pattern);
        let expected: Vec<String> = s.split("('").map(|p| p.to_string()).collect();
        assert_eq!(pieces, expected, "for {s:?}");
    }
}

#[test]
fn windows_become_strings() {
    let v = chars_of("héllo wörld");
    assert_eq!(string_of_window(&v, 0, 5), "héllo");
    assert_eq!(string_of_window(&v, 6, 11), "wörld");
    assert_eq!(string_of_window(&v, 3, 3), "");
}
