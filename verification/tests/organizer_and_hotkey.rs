use sukusho::hotkey::{
    add_part, key_code, parse_hotkey_string, split_at_plus, HotkeyModifiers, KeyCode,
};
use sukusho::organizer::{format_date, replace_all, write_digits, CalendarDate};

fn day(year: i32, month: u8, day: u8) -> CalendarDate {
    let date = CalendarDate { year, month, day };
    assert!(date.is_valid());
    date
}

const NONE: HotkeyModifiers =
    HotkeyModifiers { control: false, shift: false, alt: false, meta: false };

#[test]
fn test_format_date() {
    let date = day(2024, 1, 15);

    assert_eq!(format_date(date, "YYYY-MM-DD"), "2024-01-15");
    assert_eq!(format_date(date, "YYYY/MM/DD"), "2024/01/15");
    assert_eq!(format_date(date, "YYYY-MM"), "2024-01");
    assert_eq!(format_date(date, "YY-MM-DD"), "24-01-15");
    assert_eq!(format_date(date, "YYYY.MM.DD"), "2024.01.15");
}

#[test]
fn test_format_date_edge_cases() {
    let date = day(2024, 2, 5);
    assert_eq!(format_date(date, "YYYY-MM-DD"), "2024-02-05");

    let date = day(2023, 12, 31);
    assert_eq!(format_date(date, "YYYY-MM-DD"), "2023-12-31");
}

#[test]
fn format_date_replaces_from_the_left_and_in_turn() {
    let date = day(2024, 3, 9);
    assert_eq!(format_date(date, ""), "");
    assert_eq!(format_date(date, "shots"), "shots");
    assert_eq!(format_date(date, "YYYYY"), "2024Y");
    assert_eq!(format_date(date, "YYY"), "24Y");
    assert_eq!(format_date(date, "YYYYYY"), "202424");
    assert_eq!(format_date(date, "MMM-DDD"), "03M-09D");
    assert_eq!(format_date(date, "DD.MM.YY é"), "09.03.24 é");
    assert_eq!(format_date(date, "yyyy-mm-dd"), "yyyy-mm-dd");
}

#[test]
fn years_out_of_the_common_range() {
    assert_eq!(format_date(day(0, 1, 1), "YYYY YY"), "0000 00");
    assert_eq!(format_date(day(999, 1, 1), "YYYY YY"), "0999 99");
    assert_eq!(format_date(day(9999, 1, 1), "YYYY"), "9999");
    assert_eq!(format_date(day(10000, 1, 1), "YYYY YY"), "+10000 00");
    assert_eq!(format_date(day(262142, 1, 1), "YYYY"), "+262142");
    assert_eq!(format_date(day(-1, 1, 1), "YYYY YY"), "-0001 99");
    assert_eq!(format_date(day(-12345, 1, 1), "YYYY YY"), "-12345 55");
    assert_eq!(format_date(day(i32::MIN, 1, 1), "YYYY"), "-2147483648");
}

#[test]
fn invalid_days_are_told_apart() {
    assert!(!CalendarDate { year: 2024, month: 0, day: 1 }.is_valid());
    assert!(!CalendarDate { year: 2024, month: 13, day: 1 }.is_valid());
    assert!(!CalendarDate { year: 2024, month: 1, day: 0 }.is_valid());
    assert!(!CalendarDate { year: 2024, month: 1, day: 32 }.is_valid());
    assert!(CalendarDate { year: 2024, month: 12, day: 31 }.is_valid());
}

#[test]
fn digits_are_padded_and_cut() {
    assert_eq!(write_digits(7, 2), "07");
    assert_eq!(write_digits(123, 2), "23");
    assert_eq!(write_digits(0, 0), "");
    assert_eq!(write_digits(4_000_000_000, 10), "4000000000");
}

#[test]
fn replace_all_matches_the_standard_library() {
    for (text, pattern, with) in [
        ("aaaa", "aa", "b"),
        ("aaa", "aa", "b"),
        ("abcabc", "bc", ""),
        ("abc", "abcd", "x"),
        ("", "a", "x"),
        ("ééé", "é", "ab"),
        ("aXbXc", "X", "XX"),
    ] {
        assert_eq!(replace_all(text, pattern, with), text.replace(pattern, with));
    }
}

#[test]
fn hotkey_texts_are_read() {
    let ctrl_shift = HotkeyModifiers { control: true, shift: true, ..NONE };
    assert_eq!(parse_hotkey_string("Ctrl+Shift+S"), Some((ctrl_shift, KeyCode::KeyS)));
    assert_eq!(parse_hotkey_string(" control + SHIFT + s "), Some((ctrl_shift, KeyCode::KeyS)));
    assert_eq!(
        parse_hotkey_string("Ctrl+Alt+S"),
        Some((HotkeyModifiers { control: true, alt: true, ..NONE }, KeyCode::KeyS))
    );
    assert_eq!(
        parse_hotkey_string("win+f12"),
        Some((HotkeyModifiers { meta: true, ..NONE }, KeyCode::F12))
    );
    assert_eq!(
        parse_hotkey_string("Super+Meta+`"),
        Some((HotkeyModifiers { meta: true, ..NONE }, KeyCode::Backquote))
    );
    assert_eq!(parse_hotkey_string("PageDown"), Some((NONE, KeyCode::PageDown)));
    assert_eq!(parse_hotkey_string("return"), Some((NONE, KeyCode::Enter)));
    // the key may come first, and the last key named counts
    assert_eq!(
        parse_hotkey_string("S+Ctrl"),
        Some((HotkeyModifiers { control: true, ..NONE }, KeyCode::KeyS))
    );
    assert_eq!(parse_hotkey_string("S+X"), Some((NONE, KeyCode::KeyX)));
}

#[test]
fn hotkey_texts_without_a_key_are_refused() {
    assert_eq!(parse_hotkey_string(""), None);
    assert_eq!(parse_hotkey_string("Ctrl+Shift"), None);
    assert_eq!(parse_hotkey_string("Ctrl+Shift+"), None);
    assert_eq!(parse_hotkey_string("Ctrl++S"), Some((
        HotkeyModifiers { control: true, ..NONE },
        KeyCode::KeyS
    )));
    assert_eq!(parse_hotkey_string("S+foo"), None);
    assert_eq!(parse_hotkey_string("Ctrl+F13"), None);
    assert_eq!(parse_hotkey_string("Ctrl-S"), None);
}

#[test]
fn text_is_cut_at_every_plus() {
    let cut = |s: &str| split_at_plus(s);
    assert_eq!(cut(""), vec![""]);
    assert_eq!(cut("a"), vec!["a"]);
    assert_eq!(cut("a+b"), vec!["a", "b"]);
    assert_eq!(cut("+"), vec!["", ""]);
    assert_eq!(cut("a++b+"), vec!["a", "", "b", ""]);
    for s in ["Ctrl+Shift+S", "++", " a + é ", "x"] {
        let expected: Vec<String> = s.split('+').map(|p| p.to_string()).collect();
        assert_eq!(cut(s), expected);
    }
}

#[test]
fn every_key_name_is_known() {
    for (i, c) in ('A'..='Z').enumerate() {
        let key = key_code(&c.to_string());
        assert!(key.is_some(), "{}", c);
        if i == 0 {
            assert_eq!(key, Some(KeyCode::KeyA));
        }
    }
    assert_eq!(key_code("Z"), Some(KeyCode::KeyZ));
    assert_eq!(key_code("0"), Some(KeyCode::Digit0));
    assert_eq!(key_code("9"), Some(KeyCode::Digit9));
    assert_eq!(key_code("F1"), Some(KeyCode::F1));
    assert_eq!(key_code("F10"), Some(KeyCode::F10));
    for (name, key) in [
        ("SPACE", KeyCode::Space),
        ("TAB", KeyCode::Tab),
        ("ENTER", KeyCode::Enter),
        ("RETURN", KeyCode::Enter),
        ("BACKSPACE", KeyCode::Backspace),
        ("DELETE", KeyCode::Delete),
        ("INSERT", KeyCode::Insert),
        ("HOME", KeyCode::Home),
        ("END", KeyCode::End),
        ("PAGEUP", KeyCode::PageUp),
        ("PAGEDOWN", KeyCode::PageDown),
        ("UP", KeyCode::ArrowUp),
        ("DOWN", KeyCode::ArrowDown),
        ("LEFT", KeyCode::ArrowLeft),
        ("RIGHT", KeyCode::ArrowRight),
        ("`", KeyCode::Backquote),
        ("BACKQUOTE", KeyCode::Backquote),
    ] {
        assert_eq!(key_code(name), Some(key), "{}", name);
    }
    // names are looked up in upper case only
    assert_eq!(key_code("a"), None);
    assert_eq!(key_code("Space"), None);
    assert_eq!(key_code(""), None);
    assert_eq!(key_code("CTRL"), None);
}

#[test]
fn parts_add_up() {
    let (held, key) = add_part(NONE, Some(KeyCode::KeyA), "SHIFT");
    assert_eq!(held, HotkeyModifiers { shift: true, ..NONE });
    assert_eq!(key, Some(KeyCode::KeyA));
    let (held, key) = add_part(held, key, "B");
    assert_eq!(held, HotkeyModifiers { shift: true, ..NONE });
    assert_eq!(key, Some(KeyCode::KeyB));
    let (_, key) = add_part(held, key, "NOPE");
    assert_eq!(key, None);
}
