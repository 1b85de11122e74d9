use local_agent::text::{
    align_right, can_cut, clip, decimal_text, join, same_text, split_lines, split_once,
    text_contains, text_len, text_starts_with, trim, trim_end, trim_start, Trim,
};

#[test]
fn lines_are_split_as_the_standard_library_splits_them() {
    let cases = ["", "\n", "a", "a\n", "a\n\nb", "a\r\nb\r", "\r\n", "a\rb\n", "é\nあ\n\n"];
    for s in cases {
        assert_eq!(split_lines(s), s.lines().collect::<Vec<_>>());
    }
}

#[test]
fn white_space_is_trimmed_as_the_standard_library_trims_it() {
    let cases = ["", " ", " a b ", "\u{3000}x\u{2029}", "\u{200b}a", "\u{1680}\u{85}y\u{a0}\t"];
    for s in cases {
        assert_eq!(trim(s), s.trim());
        assert_eq!(trim_start(s, Trim::Space), s.trim_start());
        assert_eq!(trim_end(s, Trim::Space), s.trim_end());
    }
    assert_eq!(trim_start("##a#", Trim::Only('#')), "a#");
    assert_eq!(trim_end("##a#", Trim::Only('#')), "##a");
}

#[test]
fn texts_are_compared_and_searched() {
    assert!(same_text("é", "é") && !same_text("é", "e") && !same_text("a", "ab"));
    assert!(text_starts_with("---x", "---") && !text_starts_with("--", "---"));
    assert!(text_contains("aab", "ab") && text_contains("", "") && !text_contains("a", "b"));
    assert_eq!(split_once("a:b:c", ':'), Some(("a", "b:c")));
    assert_eq!(split_once("あ=い", '='), Some(("あ", "い")));
    assert_eq!(split_once("abc", ':'), None);
    assert_eq!(text_len("éあ"), 5);
}

#[test]
fn texts_are_cut_between_characters() {
    assert_eq!(clip("abc", 2), "ab");
    assert_eq!(clip("aéb", 2), "a");
    assert_eq!(clip("aéb", 3), "aé");
    assert_eq!(clip("😀", 3), "");
    assert_eq!(clip("abc", 9), "abc");
    assert!(can_cut("aéb", 3) && !can_cut("aéb", 2) && can_cut("aéb", 9));
}

#[test]
fn texts_are_put_together() {
    let v = |s: &[&str]| s.iter().map(|x| x.to_string()).collect::<Vec<String>>();
    assert_eq!(join(&v(&[]), ", "), "");
    assert_eq!(join(&v(&["a"]), ", "), "a");
    assert_eq!(join(&v(&["a", "", "c"]), ", "), "a, , c");
    assert_eq!(decimal_text(0), "0");
    assert_eq!(decimal_text(1234567890), "1234567890");
    assert_eq!(decimal_text(u128::MAX), u128::MAX.to_string());
    assert_eq!(align_right("7", 4), "   7");
    assert_eq!(align_right("12345", 4), "12345");
}
