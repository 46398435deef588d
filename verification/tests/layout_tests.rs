use langfix::layout::convert_layout;
use langfix::text::{chars_of, is_blank, join_strings, split_at_char, string_of, trim_white_space};

#[test]
fn latin_text_becomes_russian() {
    assert_eq!(convert_layout("ghbdtn"), "привет");
    assert_eq!(convert_layout("Ghbdtn? rfr ltkf"), "Привет, как дела");
}

#[test]
fn russian_text_becomes_latin() {
    assert_eq!(convert_layout("руддщ"), "hello");
    assert_eq!(convert_layout("Руддщ цщкдв"), "Hello world");
}

#[test]
fn direction_follows_the_majority_of_letters() {
    // five ASCII letters against three Russian ones: converted to Russian,
    // and the Russian letters, absent from the QWERTY keys, are kept
    assert_eq!(convert_layout("Hello, мир"), "Руддщб мир");
    // three ASCII letters against four Russian ones: converted to QWERTY
    assert_eq!(convert_layout("abc мира"), "abc vbhf");
}

#[test]
fn ties_convert_to_russian() {
    assert_eq!(convert_layout("aф"), "фф");
    assert_eq!(convert_layout("/"), ".");
    assert_eq!(convert_layout("~"), "\u{cb}");
}

#[test]
fn characters_off_the_keys_are_kept() {
    assert_eq!(convert_layout(""), "");
    assert_eq!(convert_layout("123 !@#"), "123 !@#");
    assert_eq!(convert_layout("ё"), "`");
}

#[test]
fn converting_twice_gives_the_text_back() {
    let once = convert_layout("ghbdtn vbh");
    assert_eq!(once, "привет мир");
    assert_eq!(convert_layout(&once), "ghbdtn vbh");
}

#[test]
fn trimming_removes_unicode_white_space() {
    assert_eq!(trim_white_space("  a b \t\n"), "a b");
    assert_eq!(trim_white_space("\u{3000}x\u{a0}"), "x");
    assert_eq!(trim_white_space("   "), "");
    assert!(is_blank(" \t\r\n\u{2028}"));
    assert!(!is_blank(" . "));
    assert!(is_blank(""));
}

#[test]
fn splitting_and_joining() {
    let parts = split_at_char("a++b", '+');
    assert_eq!(parts, vec!["a".to_string(), String::new(), "b".to_string()]);
    assert_eq!(split_at_char("", '+'), vec![String::new()]);
    assert_eq!(join_strings(&parts, "-"), "a--b");
    assert_eq!(chars_of("ёж"), vec!['ё', 'ж']);
    assert_eq!(string_of("текст"), "текст");
}

#[test]
fn white_space_is_that_of_char_is_whitespace() {
    for code in 0u32..=0x10FFFF {
        if let Some(c) = char::from_u32(code) {
            assert_eq!(langfix::text::char_is_white_space(c), c.is_whitespace(), "{code:#x}");
        }
    }
}

#[test]
fn trimming_agrees_with_str_trim() {
    for s in ["", " ", " x ", "\u{85}y\u{2029}", "\u{200b}z\u{200b}", "a b", "\t\n\u{3000}"] {
        assert_eq!(trim_white_space(s), s.trim());
    }
}

#[test]
fn round_trips_with_digits_and_spaces() {
    for s in ["ghbdtn 123", "12 34", "Ghbdtn, 2024", "привет 42", "ёж 7"] {
        assert_eq!(convert_layout(&convert_layout(s)), s);
    }
}

#[test]
fn neutral_text_around_a_text_converts_as_itself() {
    let s = "ghbdtn";
    assert_eq!(convert_layout(&format!("{s} 12!")), format!("{} 12!", convert_layout(s)));
    assert_eq!(convert_layout(&format!("12! {s}")), format!("12! {}", convert_layout(s)));
}
