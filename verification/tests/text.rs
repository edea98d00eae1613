use midi_voices::text::{decimal, digit_str, digit_value, joined, pad_right, str_eq};

#[test]
fn decimal_writes_small_integers() {
    assert_eq!(decimal(0), "0");
    assert_eq!(decimal(7), "7");
    assert_eq!(decimal(-1), "-1");
    assert_eq!(decimal(10), "10");
    assert_eq!(decimal(-10), "-10");
    assert_eq!(decimal(99), "99");
    assert_eq!(decimal(100), "100");
    assert_eq!(decimal(105), "105");
    assert_eq!(decimal(127), "127");
    assert_eq!(decimal(-128), "-128");
    for n in i8::MIN..=i8::MAX {
        assert_eq!(decimal(n), n.to_string());
    }
}

#[test]
fn digits_and_their_values() {
    for d in 0u8..10 {
        let text = digit_str(d);
        assert_eq!(text, d.to_string());
        assert_eq!(digit_value(text.chars().next().unwrap()), Some(d));
    }
    assert_eq!(digit_value('a'), None);
    assert_eq!(digit_value('/'), None);
    assert_eq!(digit_value(':'), None);
    assert_eq!(digit_value('\u{0663}'), None);
}

#[test]
fn pad_right_fills_up_with_spaces() {
    assert_eq!(pad_right("C4".to_string(), 4), "C4  ");
    assert_eq!(pad_right("".to_string(), 4), "    ");
    assert_eq!(pad_right("C#-1".to_string(), 4), "C#-1");
    assert_eq!(pad_right("C#-10".to_string(), 4), "C#-10");
    assert_eq!(pad_right("C\u{266f}4".to_string(), 4), "C\u{266f}4 ");
    assert_eq!(pad_right("x".to_string(), 0), "x");
}

#[test]
fn str_eq_compares_characters() {
    assert!(str_eq("", ""));
    assert!(str_eq("voice", "voice"));
    assert!(!str_eq("voice", "voicf"));
    assert!(!str_eq("voice", "voic"));
    assert!(!str_eq("", "a"));
    assert!(str_eq("C\u{266f}", "C\u{266f}"));
    assert!(!str_eq("C\u{266f}", "C\u{266d}"));
    assert_eq!(joined("Invalid key: ", "H"), "Invalid key: H");
    assert_eq!(joined("", ""), "");
}
