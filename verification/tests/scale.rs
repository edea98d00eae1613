use midi_voices::key::{BaseKey, KeyModifier, NamedKey, NamedNote, Note};
use midi_voices::scale::Scale;
use std::iter;

fn major() -> Vec<i8> {
    vec![0, 2, 4, 5, 7, 9, 11]
}

fn names(scale: &Scale, positions: &[i8], octave: i8) -> Vec<String> {
    positions.iter().map(|position| scale.get_named_note(*position, octave).to_string()).collect()
}

#[test]
fn can_init_scales() {
    env_logger::init();

    let major_scales = [
        "C", "Db", "D", "Eb", "E", "F", "F#", "G", "Ab", "A", "Bb", "B",
    ];
    for key_name in major_scales {
        let key = str::parse::<NamedKey>(key_name).unwrap();
        let _scale = Scale::new(key, vec![0, 2, 4, 5, 7, 9, 11]).unwrap();
    }

    let minor_scales = [
        "C", "C#", "D", "Eb", "E", "F", "F#", "G", "G#", "A", "A#", "B",
    ];
    for key_name in minor_scales {
        let key = str::parse::<NamedKey>(key_name).unwrap();
        let _scale = Scale::new(key, vec![0, 2, 3, 5, 7, 8, 11]).unwrap();
    }
}

#[test]
fn can_get_notes() {
    let c = str::parse::<NamedKey>("C").unwrap();
    let c_major_scale = Scale::new(c, vec![0, 2, 4, 5, 7, 9, 11]).unwrap(); // C-major

    let note_positions = [-2, -1, 0, 2, 4, 7, 9];
    let notes = note_positions.into_iter().map(|position| {
        c_major_scale.get_named_note(position, 4)
    });

    let expected_notes =
        ["A3", "B3", "C4", "E4", "G4", "C5", "E5"].map(|s| str::parse::<NamedNote>(s).unwrap());
    for (note, expected_note) in iter::zip(notes, expected_notes) {
        assert_eq!(note, expected_note);
    }

    let eb = str::parse::<NamedKey>("Eb").unwrap();
    let eb_minor_scale = Scale::new(eb, vec![0, 2, 3, 5, 7, 8, 11]).unwrap(); // E-flat minor harmonic

    let note_positions = [0, 1, 2, 3, 4, 5, 6, 7];
    let notes = note_positions.into_iter().map(|position| {
        eb_minor_scale.get_named_note(position, 4)
    });

    let expected_notes = ["Eb4", "F4", "Gb4", "Ab4", "Bb4", "Cb5", "D5", "Eb5"]
        .map(|s| str::parse::<NamedNote>(s).unwrap());
    for (note, expected_note) in iter::zip(notes, expected_notes) {
        assert_eq!(note, expected_note);
    }
}

#[test]
fn scale_positions_wrap_around_the_octave() {
    let c = str::parse::<NamedKey>("C").unwrap();
    let scale = Scale::new(c, major()).unwrap();
    assert_eq!(scale.get_named_note(-1, 4), str::parse::<NamedNote>("B3").unwrap());
    assert_eq!(scale.get_named_note(7, 4), str::parse::<NamedNote>("C5").unwrap());
    assert_eq!(scale.get_named_note(9, 4), str::parse::<NamedNote>("E5").unwrap());
    assert_eq!(scale.get_named_note(-7, 4), str::parse::<NamedNote>("C3").unwrap());
    assert_eq!(scale.get_named_note(-8, 4), str::parse::<NamedNote>("B2").unwrap());
    assert_eq!(scale.get_named_note(14, 4), str::parse::<NamedNote>("C6").unwrap());
    for position in -20i8..=20 {
        assert_eq!(
            scale.get_note(position + 7, 3),
            scale.get_note(position, 4),
        );
    }
}

#[test]
fn scale_get_note_gives_the_pitch() {
    let c = str::parse::<NamedKey>("C").unwrap();
    let scale = Scale::new(c, major()).unwrap();
    assert_eq!(scale.get_note(0, 4), Note(60));
    assert_eq!(scale.get_note(1, 4), Note(62));
    assert_eq!(scale.get_note(6, 4), Note(71));
    assert_eq!(scale.get_note(7, 4), Note(72));
    assert_eq!(scale.get_note(-1, 4), Note(59));
    assert_eq!(scale.get_note(0, -1), Note(0));
    assert_eq!(scale.get_note(4, 9), Note(127));

    let e_flat = str::parse::<NamedKey>("Eb").unwrap();
    let scale = Scale::new(e_flat, vec![0, 2, 3, 5, 7, 8, 11]).unwrap();
    assert_eq!(scale.get_note(0, 4), Note(63));
    assert_eq!(scale.get_note(5, 4), Note(71));
    assert_eq!(scale.get_note(6, 4), Note(74));
}

#[test]
fn scale_knows_which_positions_are_notes() {
    let c = str::parse::<NamedKey>("C").unwrap();
    let scale = Scale::new(c, major()).unwrap();
    assert_eq!(scale.len(), 7);
    assert!(scale.has_note(0, 4));
    assert!(scale.has_note(0, -1));
    assert!(!scale.has_note(-1, -1));
    assert!(scale.has_note(4, 9));
    assert!(!scale.has_note(5, 9));
    assert!(!scale.has_note(0, 10));
    assert!(!scale.has_note(127, 127));
    assert!(!scale.has_note(-128, -128));

    let empty = Scale::new(c, vec![]).unwrap();
    assert_eq!(empty.len(), 0);
    assert!(!empty.has_note(0, 4));
}

#[test]
fn major_scales_repeat_no_letter() {
    let anchors = [
        "C", "Db", "D", "Eb", "E", "F", "F#", "G", "Ab", "A", "Bb", "B", "C#", "Gb", "Cb", "G#",
    ];
    for anchor in anchors {
        let start = str::parse::<NamedKey>(anchor).unwrap();
        let scale = Scale::new(start, major()).unwrap();
        let letters = start.base_key.get_keys_in_order();
        for degree in 0..7usize {
            let name = scale.get_named_note(degree as i8, 4);
            let spelled = name.to_string().chars().next().unwrap();
            assert_eq!(spelled.to_string(), letters[degree].to_string());
            assert_eq!(name.to_note(), scale.get_note(degree as i8, 4));
        }
    }
}

#[test]
fn major_scale_spellings() {
    let d = str::parse::<NamedKey>("D").unwrap();
    let scale = Scale::new(d, major()).unwrap();
    assert_eq!(
        names(&scale, &[0, 1, 2, 3, 4, 5, 6], 4),
        ["D4", "E4", "F\u{266f}4", "G4", "A4", "B4", "C\u{266f}5"]
    );
    let f_sharp = str::parse::<NamedKey>("F#").unwrap();
    let scale = Scale::new(f_sharp, major()).unwrap();
    assert_eq!(
        names(&scale, &[0, 1, 2, 3, 4, 5, 6], 4),
        [
            "F\u{266f}4",
            "G\u{266f}4",
            "A\u{266f}4",
            "B4",
            "C\u{266f}5",
            "D\u{266f}5",
            "E\u{266f}5"
        ]
    );
    let g_sharp = str::parse::<NamedKey>("G#").unwrap();
    let scale = Scale::new(g_sharp, major()).unwrap();
    assert_eq!(scale.get_named_note(6, 4).to_string(), "F\u{1d12a}5");
}

#[test]
fn a_degree_without_its_letter_gets_the_default_spelling() {
    let c = str::parse::<NamedKey>("C").unwrap();
    let scale = Scale::new(c, vec![0, 1, 2, 6]).unwrap();
    assert_eq!(
        names(&scale, &[0, 1, 2, 3], 4),
        ["C4", "D\u{266d}4", "D4", "E\u{1d12a}4"]
    );
}

#[test]
fn a_letter_that_was_not_taken_stays_for_the_next_degree() {
    let c = str::parse::<NamedKey>("C").unwrap();
    let scale = Scale::new(c, vec![0, 1, 2, 4]).unwrap();
    assert_eq!(
        names(&scale, &[0, 1, 2, 3], 4),
        ["C4", "D\u{266d}4", "D4", "E4"]
    );
}

#[test]
fn chromatic_scale_spellings() {
    let c = str::parse::<NamedKey>("C").unwrap();
    let scale = Scale::new(c, vec![0, 1, 2, 3, 4, 5, 6, 7, 8, 9, 10, 11]).unwrap();
    assert_eq!(scale.len(), 12);
    assert_eq!(
        names(&scale, &[0, 1, 2, 3, 4, 5, 6, 7, 8, 9, 10, 11], 4),
        [
            "C4",
            "D\u{266d}4",
            "D4",
            "E\u{266d}4",
            "F\u{266d}4",
            "F4",
            "G\u{266d}4",
            "G4",
            "A\u{266d}4",
            "A4",
            "B\u{266d}4",
            "B4"
        ]
    );
}

#[test]
fn scale_new_refuses_offsets_out_of_range() {
    let c = NamedKey::new(BaseKey::C, KeyModifier::Natural);
    let message = "All offsets must be between 0 and 11!".to_string();
    assert_eq!(Scale::new(c, vec![0, 2, 12]).err(), Some(message.clone()));
    assert_eq!(Scale::new(c, vec![-1, 2, 4]).err(), Some(message.clone()));
    assert_eq!(Scale::new(c, vec![12]).err(), Some(message.clone()));
    assert_eq!(Scale::new(c, vec![3, 12, 1]).err(), Some(message));
}

#[test]
fn scale_new_refuses_offsets_that_do_not_increase() {
    let c = NamedKey::new(BaseKey::C, KeyModifier::Natural);
    let message = "Offsets must be in strictly increasing order!".to_string();
    assert_eq!(Scale::new(c, vec![0, 2, 2]).err(), Some(message.clone()));
    assert_eq!(Scale::new(c, vec![4, 2]).err(), Some(message.clone()));
    assert_eq!(Scale::new(c, vec![5, 3, 12]).err(), Some(message));
}

#[test]
fn scale_new_takes_offsets_that_do_not_start_at_zero() {
    let c = NamedKey::new(BaseKey::C, KeyModifier::Natural);
    let scale = Scale::new(c, vec![2, 11]).unwrap();
    assert_eq!(scale.get_note(0, 4), Note(62));
    assert_eq!(scale.get_note(1, 4), Note(71));
    assert_eq!(scale.get_note(2, 4), Note(74));
}

#[test]
fn scale_parse_reads_anchor_and_mode() {
    let major_names = ["C", "CM", "Cmaj"];
    for name in major_names {
        let scale = str::parse::<Scale>(name).unwrap();
        assert_eq!(scale.get_note(2, 4), Note(64));
        assert_eq!(scale.get_note(5, 4), Note(69));
    }
    let minor_names = ["Cm", "Cmin"];
    for name in minor_names {
        let scale = Scale::parse(name).unwrap();
        assert_eq!(scale.get_note(2, 4), Note(63));
        assert_eq!(scale.get_note(5, 4), Note(68));
        assert_eq!(scale.get_note(6, 4), Note(71));
    }
    let scale = Scale::parse("Ebmin").unwrap();
    assert_eq!(scale.get_named_note(5, 4).to_string(), "C\u{266d}5");
    let scale = Scale::parse("F#m").unwrap();
    assert_eq!(scale.get_named_note(0, 4).to_string(), "F\u{266f}4");
    let scale = Scale::parse("B\u{266d}maj").unwrap();
    assert_eq!(scale.get_named_note(3, 4).to_string(), "E\u{266d}5");
}

#[test]
fn scale_parse_refuses_what_is_no_scale() {
    assert_eq!(Scale::parse("Cmajor").err(), Some("Invalid scale:Cmajor".to_string()));
    assert_eq!(Scale::parse("").err(), Some("Invalid scale:".to_string()));
    assert_eq!(Scale::parse("Hmaj").err(), Some("Invalid scale:Hmaj".to_string()));
    assert_eq!(Scale::parse("Cmi").err(), Some("Invalid scale:Cmi".to_string()));
    assert_eq!(Scale::parse("maj").err(), Some("Invalid scale:maj".to_string()));
    assert_eq!(Scale::parse("C maj").err(), Some("Invalid scale:C maj".to_string()));
}

#[test]
fn scale_clone_is_the_same_scale() {
    let scale = Scale::parse("Ebmin").unwrap();
    let copy = scale.clone();
    for position in -7i8..=14 {
        assert_eq!(copy.get_named_note(position, 4), scale.get_named_note(position, 4));
    }
}

#[test]
fn fallback_degrees_are_those_that_took_no_letter() {
    let c = str::parse::<NamedKey>("C").unwrap();
    assert_eq!(Scale::new(c, major()).unwrap().fallback_degrees(), Vec::<usize>::new());
    assert_eq!(Scale::new(c, vec![0, 1, 2, 4]).unwrap().fallback_degrees(), vec![2]);
    assert_eq!(Scale::new(c, vec![0, 5]).unwrap().fallback_degrees(), vec![1]);
    assert_eq!(
        Scale::new(c, vec![0, 1, 2, 3, 4, 5, 6, 7, 8, 9, 10, 11]).unwrap().fallback_degrees(),
        vec![2, 5, 7, 9, 11]
    );
    assert_eq!(Scale::new(c, vec![]).unwrap().fallback_degrees(), Vec::<usize>::new());
    let f_flat = str::parse::<NamedKey>("Fb").unwrap();
    assert_eq!(Scale::new(f_flat, major()).unwrap().fallback_degrees(), vec![3]);
}
