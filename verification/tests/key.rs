use midi_voices::key::{BaseKey, Key, KeyModifier, NamedKey, NamedNote, Note};

fn named(base_key: BaseKey, key_modifier: KeyModifier) -> NamedKey {
    NamedKey::new(base_key, key_modifier)
}

#[test]
fn key_new_folds_into_the_octave() {
    assert_eq!(Key::new(0).value(), 0);
    assert_eq!(Key::new(11).value(), 11);
    assert_eq!(Key::new(12).value(), 0);
    assert_eq!(Key::new(-1).value(), 11);
    assert_eq!(Key::new(-12).value(), 0);
    assert_eq!(Key::new(-13).value(), 11);
    assert_eq!(Key::new(127).value(), 7);
    assert_eq!(Key::new(-128).value(), 4);
}

#[test]
fn key_new_is_periodic() {
    for i in -128i16..=127 {
        let key = Key::new(i as i8);
        assert!((0..12).contains(&key.value()));
        for k in -10i16..=10 {
            let shifted = i + 12 * k;
            if (-128..=127).contains(&shifted) {
                assert_eq!(key, Key::new(shifted as i8));
            }
        }
    }
}

#[test]
fn key_add_wraps_around() {
    assert_eq!((Key::new(11) + &3).value(), 2);
    assert_eq!((Key::new(0) + &-1).value(), 11);
    assert_eq!((Key::new(4) + &0).value(), 4);
    assert_eq!((Key::new(11) + &127).value(), 6);
    assert_eq!((Key::new(0) + &-128).value(), 4);
    assert_eq!(Key::new(7) + &5, Key::new(0));
}

#[test]
fn note_decompose_gives_key_and_octave() {
    assert_eq!(Note(60).decompose(), (Key::new(0), 4));
    assert_eq!(Note(0).decompose(), (Key::new(0), -1));
    assert_eq!(Note(11).decompose(), (Key::new(11), -1));
    assert_eq!(Note(12).decompose(), (Key::new(0), 0));
    assert_eq!(Note(127).decompose(), (Key::new(7), 9));
}

#[test]
fn note_compose_gives_the_pitch() {
    assert_eq!(Note::compose(Key::new(0), 4), Note(60));
    assert_eq!(Note::compose(Key::new(0), -1), Note(0));
    assert_eq!(Note::compose(Key::new(7), 9), Note(127));
    assert_eq!(Note::compose(Key::new(3), 4), Note(63));
}

#[test]
fn note_compose_inverts_decompose() {
    for pitch in 0u8..=127 {
        let (key, octave) = Note(pitch).decompose();
        assert_eq!(Note::compose(key, octave), Note(pitch));
        assert_eq!(Note::compose(key, octave).decompose(), (key, octave));
    }
}

#[test]
fn note_add_moves_by_semitones() {
    assert_eq!(Note(60) + &7, Note(67));
    assert_eq!(Note(60) + &-60, Note(0));
    assert_eq!(Note(0) + &127, Note(127));
    assert_eq!(Note(127) + &-1, Note(126));
}

#[test]
fn modifier_values() {
    assert_eq!(KeyModifier::Flat.get_value(), -1);
    assert_eq!(KeyModifier::Natural.get_value(), 0);
    assert_eq!(KeyModifier::Sharp.get_value(), 1);
    assert_eq!(KeyModifier::DoubleSharp.get_value(), 2);
}

#[test]
fn base_key_to_key() {
    let expected = [
        (BaseKey::C, 0),
        (BaseKey::D, 2),
        (BaseKey::E, 4),
        (BaseKey::F, 5),
        (BaseKey::G, 7),
        (BaseKey::A, 9),
        (BaseKey::B, 11),
    ];
    for (base_key, value) in expected {
        assert_eq!(base_key.to_key().value(), value);
    }
}

#[test]
fn base_keys_in_order_start_from_the_letter() {
    assert_eq!(
        BaseKey::C.get_keys_in_order(),
        vec![
            BaseKey::C,
            BaseKey::D,
            BaseKey::E,
            BaseKey::F,
            BaseKey::G,
            BaseKey::A,
            BaseKey::B
        ]
    );
    assert_eq!(
        BaseKey::A.get_keys_in_order(),
        vec![
            BaseKey::A,
            BaseKey::B,
            BaseKey::C,
            BaseKey::D,
            BaseKey::E,
            BaseKey::F,
            BaseKey::G
        ]
    );
    assert_eq!(BaseKey::B.get_keys_in_order()[1], BaseKey::C);
}

#[test]
fn named_key_components_and_key() {
    let e_flat = named(BaseKey::E, KeyModifier::Flat);
    assert_eq!(e_flat.get_components(), (BaseKey::E, KeyModifier::Flat));
    assert_eq!(e_flat.to_key().value(), 3);
    assert_eq!(named(BaseKey::C, KeyModifier::Flat).to_key().value(), 11);
    assert_eq!(named(BaseKey::B, KeyModifier::Sharp).to_key().value(), 0);
    assert_eq!(named(BaseKey::B, KeyModifier::DoubleSharp).to_key().value(), 1);
    assert_eq!(named(BaseKey::F, KeyModifier::DoubleSharp).to_key().value(), 7);
}

#[test]
fn named_key_starting_with_a_letter() {
    let lookup = |key: i8, letter: BaseKey| Key::new(key).get_named_key_starting_with(&letter);
    assert_eq!(lookup(0, BaseKey::C), Some(named(BaseKey::C, KeyModifier::Natural)));
    assert_eq!(lookup(0, BaseKey::B), Some(named(BaseKey::B, KeyModifier::Sharp)));
    assert_eq!(lookup(0, BaseKey::D), None);
    assert_eq!(lookup(1, BaseKey::C), Some(named(BaseKey::C, KeyModifier::Sharp)));
    assert_eq!(lookup(1, BaseKey::D), Some(named(BaseKey::D, KeyModifier::Flat)));
    assert_eq!(lookup(3, BaseKey::E), Some(named(BaseKey::E, KeyModifier::Flat)));
    assert_eq!(lookup(5, BaseKey::E), Some(named(BaseKey::E, KeyModifier::Sharp)));
    assert_eq!(lookup(11, BaseKey::C), Some(named(BaseKey::C, KeyModifier::Flat)));
    assert_eq!(lookup(11, BaseKey::B), Some(named(BaseKey::B, KeyModifier::Natural)));
    assert_eq!(lookup(6, BaseKey::A), None);
    assert_eq!(lookup(10, BaseKey::C), None);
}

#[test]
fn named_key_starting_with_keeps_the_letter() {
    let letters = [
        BaseKey::C,
        BaseKey::D,
        BaseKey::E,
        BaseKey::F,
        BaseKey::G,
        BaseKey::A,
        BaseKey::B,
    ];
    let mut spelled = 0;
    for key in 0..12 {
        for letter in letters {
            if let Some(found) = Key::new(key).get_named_key_starting_with(&letter) {
                assert_eq!(found.base_key, letter);
                assert_eq!(found.to_key(), Key::new(key));
                spelled += 1;
            }
        }
    }
    assert_eq!(spelled, 28);
}

#[test]
fn double_sharps_start_with_the_letter_asked_for() {
    let lookup = |key: i8, letter: BaseKey| Key::new(key).get_named_key_starting_with(&letter);
    assert_eq!(lookup(2, BaseKey::C), Some(named(BaseKey::C, KeyModifier::DoubleSharp)));
    assert_eq!(lookup(7, BaseKey::F), Some(named(BaseKey::F, KeyModifier::DoubleSharp)));
    assert_eq!(lookup(9, BaseKey::G), Some(named(BaseKey::G, KeyModifier::DoubleSharp)));
    assert_eq!(lookup(1, BaseKey::B), Some(named(BaseKey::B, KeyModifier::DoubleSharp)));
}

#[test]
fn default_named_keys() {
    let expected = [
        "C", "C\u{266f}", "D", "D\u{266f}", "E", "F", "F\u{266f}", "G", "G\u{266f}", "A",
        "A\u{266f}", "B",
    ];
    for (key, text) in expected.iter().enumerate() {
        let key = Key::new(key as i8);
        assert_eq!(key.get_default_named_key().to_string(), *text);
        assert_eq!(key.to_string(), *text);
        assert_eq!(key.get_default_named_key().to_key(), key);
    }
}

#[test]
fn default_spelling_round_trips_through_text() {
    for key in 0..12 {
        let spelling = Key::new(key).get_default_named_key();
        let text = spelling.to_string();
        let read = str::parse::<NamedKey>(&text).unwrap();
        assert_eq!(read, spelling);
        assert_eq!(read.to_string(), text);
    }
}

#[test]
fn every_spelling_round_trips_through_text() {
    let letters = [
        BaseKey::C,
        BaseKey::D,
        BaseKey::E,
        BaseKey::F,
        BaseKey::G,
        BaseKey::A,
        BaseKey::B,
    ];
    let modifiers = [
        KeyModifier::Natural,
        KeyModifier::Flat,
        KeyModifier::Sharp,
        KeyModifier::DoubleSharp,
    ];
    for letter in letters {
        for modifier in modifiers {
            let spelling = named(letter, modifier);
            assert_eq!(NamedKey::parse(&spelling.to_string()), Ok(spelling));
            for octave in -1..=9 {
                let note = NamedNote::new(spelling, octave);
                assert_eq!(NamedNote::parse(&note.to_string()), Ok(note));
            }
        }
    }
}

#[test]
fn named_key_text() {
    assert_eq!(named(BaseKey::C, KeyModifier::Natural).to_string(), "C");
    assert_eq!(named(BaseKey::E, KeyModifier::Flat).to_string(), "E\u{266d}");
    assert_eq!(named(BaseKey::F, KeyModifier::Sharp).to_string(), "F\u{266f}");
    assert_eq!(named(BaseKey::G, KeyModifier::DoubleSharp).to_string(), "G\u{1d12a}");
    assert_eq!(BaseKey::A.to_string(), "A");
    assert_eq!(KeyModifier::Natural.to_string(), "");
    assert_eq!(KeyModifier::Flat.to_string(), "\u{266d}");
}

#[test]
fn named_key_parse_reads_both_ways_of_writing_an_accidental() {
    assert_eq!(NamedKey::parse("C"), Ok(named(BaseKey::C, KeyModifier::Natural)));
    assert_eq!(NamedKey::parse("Eb"), Ok(named(BaseKey::E, KeyModifier::Flat)));
    assert_eq!(NamedKey::parse("E\u{266d}"), Ok(named(BaseKey::E, KeyModifier::Flat)));
    assert_eq!(NamedKey::parse("F#"), Ok(named(BaseKey::F, KeyModifier::Sharp)));
    assert_eq!(NamedKey::parse("F\u{266f}"), Ok(named(BaseKey::F, KeyModifier::Sharp)));
    assert_eq!(NamedKey::parse("Gx"), Ok(named(BaseKey::G, KeyModifier::DoubleSharp)));
    assert_eq!(NamedKey::parse("G\u{1d12a}"), Ok(named(BaseKey::G, KeyModifier::DoubleSharp)));
    assert_eq!(str::parse::<NamedKey>("Bb"), Ok(named(BaseKey::B, KeyModifier::Flat)));
}

#[test]
fn letters_for_accidentals_print_as_signs() {
    assert_eq!(NamedKey::parse("C#").unwrap().to_string(), "C\u{266f}");
    assert_eq!(NamedKey::parse("Cx").unwrap().to_string(), "C\u{1d12a}");
    assert_eq!(NamedNote::parse("Eb4").unwrap().to_string(), "E\u{266d}4");
}

#[test]
fn named_key_parse_refuses_what_is_no_spelling() {
    assert_eq!(NamedKey::parse("H"), Err("Invalid key: H".to_string()));
    assert_eq!(NamedKey::parse(""), Err("Invalid key: ".to_string()));
    assert_eq!(NamedKey::parse("c"), Err("Invalid key: c".to_string()));
    assert_eq!(NamedKey::parse("Cbb"), Err("Invalid key: Cbb".to_string()));
    assert_eq!(NamedKey::parse("C4"), Err("Invalid key: C4".to_string()));
    assert_eq!(NamedKey::parse("#C"), Err("Invalid key: #C".to_string()));
    assert_eq!(NamedKey::parse(" C"), Err("Invalid key:  C".to_string()));
}

#[test]
fn named_note_parse_reads_the_octave() {
    let c = named(BaseKey::C, KeyModifier::Natural);
    assert_eq!(NamedNote::parse("C4"), Ok(NamedNote::new(c, 4)));
    assert_eq!(NamedNote::parse("C-1"), Ok(NamedNote::new(c, -1)));
    assert_eq!(NamedNote::parse("C0"), Ok(NamedNote::new(c, 0)));
    assert_eq!(NamedNote::parse("C9"), Ok(NamedNote::new(c, 9)));
    assert_eq!(
        NamedNote::parse("Eb5"),
        Ok(NamedNote::new(named(BaseKey::E, KeyModifier::Flat), 5))
    );
    assert_eq!(
        str::parse::<NamedNote>("F#-1"),
        Ok(NamedNote::new(named(BaseKey::F, KeyModifier::Sharp), -1))
    );
}

#[test]
fn named_note_parse_refuses_what_is_no_name() {
    assert_eq!(NamedNote::parse("C10"), Err("Invalid note:C10".to_string()));
    assert_eq!(NamedNote::parse("C"), Err("Invalid note:C".to_string()));
    assert_eq!(NamedNote::parse("C-2"), Err("Invalid note:C-2".to_string()));
    assert_eq!(NamedNote::parse("4"), Err("Invalid note:4".to_string()));
    assert_eq!(NamedNote::parse("-1"), Err("Invalid note:-1".to_string()));
    assert_eq!(NamedNote::parse(""), Err("Invalid note:".to_string()));
    assert_eq!(NamedNote::parse("H4"), Err("Invalid note:H4".to_string()));
}

#[test]
fn named_note_text() {
    let e_flat = named(BaseKey::E, KeyModifier::Flat);
    assert_eq!(NamedNote::new(e_flat, 4).to_string(), "E\u{266d}4");
    assert_eq!(NamedNote::new(e_flat, -1).to_string(), "E\u{266d}-1");
    assert_eq!(NamedNote::new(e_flat, 10).to_string(), "E\u{266d}10");
    assert_eq!(NamedNote::new(e_flat, -128).to_string(), "E\u{266d}-128");
    assert_eq!(NamedNote::new(e_flat, 127).to_string(), "E\u{266d}127");
    assert_eq!(Note(60).to_string(), "C4");
    assert_eq!(Note(61).to_string(), "C\u{266f}4");
    assert_eq!(Note(0).to_string(), "C-1");
    assert_eq!(Note(127).to_string(), "G9");
}

#[test]
fn named_note_to_note() {
    assert_eq!(NamedNote::parse("C4").unwrap().to_note(), Note(60));
    assert_eq!(NamedNote::parse("A4").unwrap().to_note(), Note(69));
    assert_eq!(NamedNote::parse("C-1").unwrap().to_note(), Note(0));
    assert_eq!(NamedNote::parse("G9").unwrap().to_note(), Note(127));
    assert_eq!(NamedNote::parse("Eb4").unwrap().to_note(), Note(63));
}

#[test]
fn enharmonic_names_at_the_octave_boundary() {
    let b_sharp_3 = str::parse::<NamedNote>("B#3").unwrap();
    let c_4 = str::parse::<NamedNote>("C4").unwrap();
    assert_eq!(b_sharp_3.to_note(), c_4.to_note());
    assert_eq!(b_sharp_3.to_note(), Note(60));

    let c_flat_4 = str::parse::<NamedNote>("Cb4").unwrap();
    let b_3 = str::parse::<NamedNote>("B3").unwrap();
    assert_eq!(c_flat_4.to_note(), b_3.to_note());
    assert_eq!(c_flat_4.to_note(), Note(59));
}

#[test]
fn named_note_starting_with_a_letter_crosses_the_octave() {
    let spell = |pitch: u8, letter: BaseKey| {
        Note(pitch).get_named_note_starting_with(&letter).map(|note| note.to_string())
    };
    assert_eq!(spell(60, BaseKey::C), Some("C4".to_string()));
    assert_eq!(spell(60, BaseKey::B), Some("B\u{266f}3".to_string()));
    assert_eq!(spell(59, BaseKey::C), Some("C\u{266d}4".to_string()));
    assert_eq!(spell(59, BaseKey::B), Some("B3".to_string()));
    assert_eq!(spell(61, BaseKey::B), Some("B\u{1d12a}3".to_string()));
    assert_eq!(spell(61, BaseKey::D), Some("D\u{266d}4".to_string()));
    assert_eq!(spell(0, BaseKey::B), Some("B\u{266f}-2".to_string()));
    assert_eq!(spell(60, BaseKey::D), None);
}

#[test]
fn named_note_starting_with_a_letter_sounds_the_note() {
    let letters = [
        BaseKey::C,
        BaseKey::D,
        BaseKey::E,
        BaseKey::F,
        BaseKey::G,
        BaseKey::A,
        BaseKey::B,
    ];
    for pitch in 0u8..=127 {
        for letter in letters {
            if let Some(name) = Note(pitch).get_named_note_starting_with(&letter) {
                assert_eq!(name.to_note(), Note(pitch));
            }
        }
    }
}
