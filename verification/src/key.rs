//! Pitch classes and absolute pitches, and the names they are spelled with.
//!
//! Nothing here knows about scales: a [`Key`] is one of the twelve semitones,
//! a [`Note`] is a MIDI pitch (0 is C-1, 60 is C4), and the named variants
//! spell them with a letter and an accidental.

use crate::text::{decimal, digit_value, spec_decimal, spec_digit_value};
use core::ops::Add;
use std::str::FromStr;
use vstd::prelude::*;
use vstd::string::StringExecFns;

verus! {

/// One of the twelve pitch classes of equal temperament: 0 is C, 11 is B.
#[derive(PartialEq, Eq, Clone, Copy, Debug, Structural)]
pub struct Key(i8);

impl View for Key {
    type V = int;

    /// The pitch class as a number.
    closed spec fn view(&self) -> int {
        self.0 as int
    }
}

impl Key {
    /// A pitch class lies between 0 and 11. Every `Key` that executable
    /// code holds is well formed.
    #[verifier::type_invariant]
    pub closed spec fn wf(self) -> bool {
        0 <= self.0 < 12
    }

    /// The pitch class that the integer `i` falls on.
    pub closed spec fn spec_new(i: int) -> Key {
        Key((i % 12) as i8)
    }

    /// Folds any integer onto its pitch class; negative numbers wrap
    /// upwards, so -1 is B.
    pub fn new(key: i8) -> (k: Key)
        ensures
            k == Key::spec_new(key as int),
            k@ == key as int % 12,
            0 <= k@ <= 11,
    {
        let r: i8 = key % 12;
        if r < 0 {
            Key(r + 12)
        } else {
            Key(r)
        }
    }

    /// The spelling of this pitch class with the given letter: the one
    /// accidental among flat, natural, sharp and double sharp that brings
    /// the letter onto it, if there is one.
    #[verifier::opaque]
    pub open spec fn spec_named_key_starting_with(self, base_key: BaseKey) -> Option<NamedKey> {
        let distance = (self@ - base_key.spec_semitone()) % 12;
        if distance == 0 {
            Some(NamedKey { base_key, key_modifier: KeyModifier::Natural })
        } else if distance == 1 {
            Some(NamedKey { base_key, key_modifier: KeyModifier::Sharp })
        } else if distance == 2 {
            Some(NamedKey { base_key, key_modifier: KeyModifier::DoubleSharp })
        } else if distance == 11 {
            Some(NamedKey { base_key, key_modifier: KeyModifier::Flat })
        } else {
            None
        }
    }

    /// The spelling used when no letter is asked for: a sharp for the five
    /// pitch classes between the letters, the plain letter otherwise.
    #[verifier::opaque]
    pub open spec fn spec_default_named_key(self) -> NamedKey {
        let k = self@;
        if k == 0 {
            NamedKey { base_key: BaseKey::C, key_modifier: KeyModifier::Natural }
        } else if k == 1 {
            NamedKey { base_key: BaseKey::C, key_modifier: KeyModifier::Sharp }
        } else if k == 2 {
            NamedKey { base_key: BaseKey::D, key_modifier: KeyModifier::Natural }
        } else if k == 3 {
            NamedKey { base_key: BaseKey::D, key_modifier: KeyModifier::Sharp }
        } else if k == 4 {
            NamedKey { base_key: BaseKey::E, key_modifier: KeyModifier::Natural }
        } else if k == 5 {
            NamedKey { base_key: BaseKey::F, key_modifier: KeyModifier::Natural }
        } else if k == 6 {
            NamedKey { base_key: BaseKey::F, key_modifier: KeyModifier::Sharp }
        } else if k == 7 {
            NamedKey { base_key: BaseKey::G, key_modifier: KeyModifier::Natural }
        } else if k == 8 {
            NamedKey { base_key: BaseKey::G, key_modifier: KeyModifier::Sharp }
        } else if k == 9 {
            NamedKey { base_key: BaseKey::A, key_modifier: KeyModifier::Natural }
        } else if k == 10 {
            NamedKey { base_key: BaseKey::A, key_modifier: KeyModifier::Sharp }
        } else {
            NamedKey { base_key: BaseKey::B, key_modifier: KeyModifier::Natural }
        }
    }

    /// Spells this pitch class with the given letter, or finds that no
    /// accidental from flat to double sharp brings the letter onto it.
    pub fn get_named_key_starting_with(&self, base_key: &BaseKey) -> (r: Option<NamedKey>)
        ensures
            r == self.spec_named_key_starting_with(*base_key),
            r matches Some(named) ==> named.base_key == *base_key && named.spec_pitch_class()
                == self@,
            r is None ==> forall|key_modifier: KeyModifier|
                (#[trigger] NamedKey { base_key: *base_key, key_modifier }.spec_pitch_class())
                    != self@,
    {
        proof {
            use_type_invariant(self);
            reveal(Key::spec_named_key_starting_with);
        }
        match (self.0, base_key) {
            (0, BaseKey::B) => Some(NamedKey::new(BaseKey::B, KeyModifier::Sharp)),
            (0, BaseKey::C) => Some(NamedKey::new(BaseKey::C, KeyModifier::Natural)),
            (1, BaseKey::B) => Some(NamedKey::new(BaseKey::B, KeyModifier::DoubleSharp)),
            (1, BaseKey::C) => Some(NamedKey::new(BaseKey::C, KeyModifier::Sharp)),
            (1, BaseKey::D) => Some(NamedKey::new(BaseKey::D, KeyModifier::Flat)),
            (2, BaseKey::C) => Some(NamedKey::new(BaseKey::C, KeyModifier::DoubleSharp)),
            (2, BaseKey::D) => Some(NamedKey::new(BaseKey::D, KeyModifier::Natural)),
            (3, BaseKey::D) => Some(NamedKey::new(BaseKey::D, KeyModifier::Sharp)),
            (3, BaseKey::E) => Some(NamedKey::new(BaseKey::E, KeyModifier::Flat)),
            (4, BaseKey::D) => Some(NamedKey::new(BaseKey::D, KeyModifier::DoubleSharp)),
            (4, BaseKey::E) => Some(NamedKey::new(BaseKey::E, KeyModifier::Natural)),
            (4, BaseKey::F) => Some(NamedKey::new(BaseKey::F, KeyModifier::Flat)),
            (5, BaseKey::E) => Some(NamedKey::new(BaseKey::E, KeyModifier::Sharp)),
            (5, BaseKey::F) => Some(NamedKey::new(BaseKey::F, KeyModifier::Natural)),
            (6, BaseKey::E) => Some(NamedKey::new(BaseKey::E, KeyModifier::DoubleSharp)),
            (6, BaseKey::F) => Some(NamedKey::new(BaseKey::F, KeyModifier::Sharp)),
            (6, BaseKey::G) => Some(NamedKey::new(BaseKey::G, KeyModifier::Flat)),
            (7, BaseKey::F) => Some(NamedKey::new(BaseKey::F, KeyModifier::DoubleSharp)),
            (7, BaseKey::G) => Some(NamedKey::new(BaseKey::G, KeyModifier::Natural)),
            (8, BaseKey::G) => Some(NamedKey::new(BaseKey::G, KeyModifier::Sharp)),
            (8, BaseKey::A) => Some(NamedKey::new(BaseKey::A, KeyModifier::Flat)),
            (9, BaseKey::G) => Some(NamedKey::new(BaseKey::G, KeyModifier::DoubleSharp)),
            (9, BaseKey::A) => Some(NamedKey::new(BaseKey::A, KeyModifier::Natural)),
            (10, BaseKey::A) => Some(NamedKey::new(BaseKey::A, KeyModifier::Sharp)),
            (10, BaseKey::B) => Some(NamedKey::new(BaseKey::B, KeyModifier::Flat)),
            (11, BaseKey::A) => Some(NamedKey::new(BaseKey::A, KeyModifier::DoubleSharp)),
            (11, BaseKey::B) => Some(NamedKey::new(BaseKey::B, KeyModifier::Natural)),
            (11, BaseKey::C) => Some(NamedKey::new(BaseKey::C, KeyModifier::Flat)),
            _ => None,
        }
    }

    /// The spelling of this pitch class when no letter is asked for.
    pub fn get_default_named_key(&self) -> (named: NamedKey)
        ensures
            named == self.spec_default_named_key(),
            named.spec_pitch_class() == self@,
    {
        proof {
            use_type_invariant(self);
            reveal(Key::spec_default_named_key);
        }
        match self.0 {
            0 => NamedKey::new(BaseKey::C, KeyModifier::Natural),
            1 => NamedKey::new(BaseKey::C, KeyModifier::Sharp),
            2 => NamedKey::new(BaseKey::D, KeyModifier::Natural),
            3 => NamedKey::new(BaseKey::D, KeyModifier::Sharp),
            4 => NamedKey::new(BaseKey::E, KeyModifier::Natural),
            5 => NamedKey::new(BaseKey::F, KeyModifier::Natural),
            6 => NamedKey::new(BaseKey::F, KeyModifier::Sharp),
            7 => NamedKey::new(BaseKey::G, KeyModifier::Natural),
            8 => NamedKey::new(BaseKey::G, KeyModifier::Sharp),
            9 => NamedKey::new(BaseKey::A, KeyModifier::Natural),
            10 => NamedKey::new(BaseKey::A, KeyModifier::Sharp),
            _ => NamedKey::new(BaseKey::B, KeyModifier::Natural),
        }
    }

    /// The printed form of a pitch class: its default spelling.
    pub open spec fn spec_text(self) -> Seq<char> {
        self.spec_default_named_key().spec_text()
    }

    /// Prints the pitch class in its default spelling.
    pub fn to_string(&self) -> (s: String)
        ensures
            s@ == self.spec_text(),
    {
        self.get_default_named_key().to_string()
    }

    /// The pitch class as a number from 0 to 11.
    pub fn value(&self) -> (v: i8)
        ensures
            v == self@,
            0 <= v < 12,
    {
        proof {
            use_type_invariant(self);
        }
        self.0
    }
}

/// Moving a pitch class by a number of semitones wraps around the octave.
impl core::ops::Add<&i8> for Key {
    type Output = Key;

    fn add(self, rhs: &i8) -> (k: Key) {
        proof {
            use_type_invariant(&self);
        }
        let sum: i16 = self.0 as i16 + *rhs as i16;
        let r: i16 = sum % 12;
        if r < 0 {
            Key((r + 12) as i8)
        } else {
            Key(r as i8)
        }
    }
}

impl vstd::std_specs::ops::AddSpecImpl<&i8> for Key {
    open spec fn obeys_add_spec() -> bool {
        true
    }

    open spec fn add_req(self, rhs: &i8) -> bool {
        true
    }

    open spec fn add_spec(self, rhs: &i8) -> Key {
        Key::spec_new(self@ + *rhs)
    }
}

/// An absolute pitch, numbered as in MIDI: 0 is C-1, 12 is C0, 60 is C4.
/// Pitches from 0 to 127 are representable.
#[derive(PartialEq, Eq, Clone, Copy, Debug, Structural)]
pub struct Note(pub u8);

impl Note {
    /// The pitches that a note can take.
    pub open spec fn representable(pitch: int) -> bool {
        0 <= pitch <= 127
    }

    /// The pitch class of this note.
    pub open spec fn spec_key(self) -> Key {
        Key::spec_new(self.0 as int)
    }

    /// The octave of this note: pitch 12 is in octave 0, pitch 0 in octave -1.
    pub open spec fn spec_octave(self) -> int {
        self.0 as int / 12 - 1
    }

    /// The pitch of a pitch class in an octave.
    pub open spec fn spec_compose(key: Key, octave: int) -> int {
        key@ + (octave + 1) * 12
    }

    /// Splits a note into its pitch class and its octave.
    pub fn decompose(&self) -> (r: (Key, i8))
        ensures
            r.0 == self.spec_key(),
            r.0@ == self.0 % 12,
            r.1 == self.spec_octave(),
    {
        let key: u8 = self.0 % 12;
        let octave: u8 = (self.0 - key) / 12;
        (Key::new(key as i8), octave as i8 - 1)
    }

    /// The note of a pitch class in an octave.
    pub fn compose(key: Key, octave: i8) -> (n: Note)
        requires
            Note::representable(Note::spec_compose(key, octave as int)),
        ensures
            n.0 == Note::spec_compose(key, octave as int),
    {
        let pitch: i16 = key.value() as i16 + (octave as i16 + 1) * 12;
        Note(pitch as u8)
    }

    /// The name of this note spelled with the given letter, if the pitch
    /// class can be spelled with it. The octave number is the letter's, so
    /// it differs from the note's own where the accidental crosses from B
    /// to C or back.
    pub open spec fn spec_named_note_starting_with(self, base_key: BaseKey) -> Option<
        (NamedKey, int),
    > {
        match self.spec_key().spec_named_key_starting_with(base_key) {
            None => None,
            Some(named) => Some(
                (
                    named,
                    (self.0 - named.key_modifier.spec_value() - base_key.spec_semitone()) / 12
                        - 1,
                ),
            ),
        }
    }

    /// Spells this note with the given letter, or finds that its pitch
    /// class cannot be spelled with it.
    pub fn get_named_note_starting_with(&self, base_key: &BaseKey) -> (r: Option<NamedNote>)
        ensures
            match self.spec_named_note_starting_with(*base_key) {
                None => r is None,
                Some((named, octave)) => r matches Some(note) && note.spec_key() == named
                    && note.spec_octave() == octave,
            },
            r matches Some(note) ==> note.spec_key().base_key == *base_key && note.spec_pitch()
                == self.0,
    {
        let (key, octave) = self.decompose();
        let named_key = key.get_named_key_starting_with(base_key)?;
        Some(
            match (named_key.base_key, named_key.key_modifier) {
                (BaseKey::B, KeyModifier::Sharp) => NamedNote::new(named_key, octave - 1),
                (BaseKey::B, KeyModifier::DoubleSharp) => NamedNote::new(named_key, octave - 1),
                (BaseKey::C, KeyModifier::Flat) => NamedNote::new(named_key, octave + 1),
                _ => NamedNote::new(named_key, octave),
            },
        )
    }

    /// The printed form of a note: its pitch class in the default spelling,
    /// then its octave number.
    pub open spec fn spec_text(self) -> Seq<char> {
        self.spec_key().spec_text() + spec_decimal(self.spec_octave())
    }

    /// Prints the note in its default spelling.
    pub fn to_string(&self) -> (s: String)
        ensures
            s@ == self.spec_text(),
    {
        let (key, octave) = self.decompose();
        let mut s = key.to_string();
        let number = decimal(octave);
        s.append(number.as_str());
        s
    }
}

/// Moving a note by a number of semitones. The result has to be
/// representable: pitches do not wrap.
impl core::ops::Add<&i8> for Note {
    type Output = Note;

    fn add(self, rhs: &i8) -> (n: Note) {
        let pitch: i16 = self.0 as i16 + *rhs as i16;
        Note(pitch as u8)
    }
}

impl vstd::std_specs::ops::AddSpecImpl<&i8> for Note {
    open spec fn obeys_add_spec() -> bool {
        true
    }

    open spec fn add_req(self, rhs: &i8) -> bool {
        Note::representable(self.0 + *rhs)
    }

    open spec fn add_spec(self, rhs: &i8) -> Note {
        Note((self.0 + *rhs) as u8)
    }
}

/// The accidental of a spelled pitch class.
#[derive(PartialEq, Eq, Clone, Copy, Debug, Structural)]
pub enum KeyModifier {
    Natural,
    Flat,
    Sharp,
    DoubleSharp,
}

impl KeyModifier {
    /// The number of semitones by which the accidental moves its letter.
    pub open spec fn spec_value(self) -> int {
        match self {
            KeyModifier::Flat => -1,
            KeyModifier::Natural => 0,
            KeyModifier::Sharp => 1,
            KeyModifier::DoubleSharp => 2,
        }
    }

    /// The number of semitones by which the accidental moves its letter.
    pub fn get_value(&self) -> (v: i8)
        ensures
            v == self.spec_value(),
    {
        match self {
            KeyModifier::Flat => -1,
            KeyModifier::Natural => 0,
            KeyModifier::Sharp => 1,
            KeyModifier::DoubleSharp => 2,
        }
    }

    /// The printed form of the accidental: nothing for a natural, else the
    /// musical sign.
    pub open spec fn spec_text(self) -> Seq<char> {
        match self {
            KeyModifier::Natural => Seq::empty(),
            KeyModifier::Flat => seq!['\u{266d}'],
            KeyModifier::Sharp => seq!['\u{266f}'],
            KeyModifier::DoubleSharp => seq!['\u{1d12a}'],
        }
    }

    /// The accidental that a character is read as: the musical signs, and
    /// `b`, `#` and `x` in their place.
    pub open spec fn spec_from_char(c: char) -> Option<KeyModifier> {
        if c == 'b' || c == '\u{266d}' {
            Some(KeyModifier::Flat)
        } else if c == '#' || c == '\u{266f}' {
            Some(KeyModifier::Sharp)
        } else if c == 'x' || c == '\u{1d12a}' {
            Some(KeyModifier::DoubleSharp)
        } else {
            None
        }
    }

    /// Prints the accidental.
    pub fn to_string(&self) -> (s: String)
        ensures
            s@ == self.spec_text(),
    {
        proof {
            reveal_strlit("");
            reveal_strlit("\u{266d}");
            reveal_strlit("\u{266f}");
            reveal_strlit("\u{1d12a}");
        }
        let text = match self {
            KeyModifier::Natural => "",
            KeyModifier::Flat => "\u{266d}",
            KeyModifier::Sharp => "\u{266f}",
            KeyModifier::DoubleSharp => "\u{1d12a}",
        };
        assert(text@ =~= self.spec_text());
        text.to_owned()
    }

    /// Reads an accidental from one character.
    pub fn from_char(c: char) -> (r: Option<KeyModifier>)
        ensures
            r == KeyModifier::spec_from_char(c),
    {
        match c {
            'b' | '\u{266d}' => Some(KeyModifier::Flat),
            '#' | '\u{266f}' => Some(KeyModifier::Sharp),
            'x' | '\u{1d12a}' => Some(KeyModifier::DoubleSharp),
            _ => None,
        }
    }
}

/// The letter of a spelled pitch class.
#[derive(PartialEq, Eq, Clone, Copy, Debug, Structural)]
pub enum BaseKey {
    C,
    D,
    E,
    F,
    G,
    A,
    B,
}

impl BaseKey {
    /// The pitch class of the letter without an accidental.
    pub open spec fn spec_semitone(self) -> int {
        match self {
            BaseKey::C => 0,
            BaseKey::D => 2,
            BaseKey::E => 4,
            BaseKey::F => 5,
            BaseKey::G => 7,
            BaseKey::A => 9,
            BaseKey::B => 11,
        }
    }

    /// The place of the letter in the order C, D, E, F, G, A, B.
    pub open spec fn spec_index(self) -> int {
        match self {
            BaseKey::C => 0,
            BaseKey::D => 1,
            BaseKey::E => 2,
            BaseKey::F => 3,
            BaseKey::G => 4,
            BaseKey::A => 5,
            BaseKey::B => 6,
        }
    }

    /// The letter at a place in the order C, D, E, F, G, A, B, counted
    /// round and round.
    pub open spec fn spec_from_index(i: int) -> BaseKey {
        let r = i % 7;
        if r == 0 {
            BaseKey::C
        } else if r == 1 {
            BaseKey::D
        } else if r == 2 {
            BaseKey::E
        } else if r == 3 {
            BaseKey::F
        } else if r == 4 {
            BaseKey::G
        } else if r == 5 {
            BaseKey::A
        } else {
            BaseKey::B
        }
    }

    /// The seven letters in order, this one first.
    pub open spec fn spec_keys_in_order(self) -> Seq<BaseKey> {
        Seq::new(7, |i: int| BaseKey::spec_from_index(self.spec_index() + i))
    }

    /// The pitch class of the letter without an accidental.
    pub fn to_key(&self) -> (k: Key)
        ensures
            k@ == self.spec_semitone(),
            k == Key::spec_new(self.spec_semitone()),
    {
        let key: i8 = match self {
            Self::C => 0,
            Self::D => 2,
            Self::E => 4,
            Self::F => 5,
            Self::G => 7,
            Self::A => 9,
            Self::B => 11,
        };
        Key::new(key)
    }

    /// The seven letters in order, starting from this one and going round
    /// from B to C.
    pub fn get_keys_in_order(&self) -> (keys: Vec<BaseKey>)
        ensures
            keys@ == self.spec_keys_in_order(),
    {
        let keys_in_order = [
            Self::C,
            Self::D,
            Self::E,
            Self::F,
            Self::G,
            Self::A,
            Self::B,
        ];
        let start_idx: usize = match self {
            Self::C => 0,
            Self::D => 1,
            Self::E => 2,
            Self::F => 3,
            Self::G => 4,
            Self::A => 5,
            Self::B => 6,
        };
        let mut keys: Vec<BaseKey> = Vec::new();
        let mut i: usize = 0;
        while i < 7
            invariant
                i <= 7,
                start_idx == self.spec_index(),
                keys_in_order@.len() == 7,
                forall|j: int| 0 <= j < 7 ==> keys_in_order@[j] == BaseKey::spec_from_index(j),
                keys@.len() == i,
                forall|j: int| 0 <= j < i ==> keys@[j] == self.spec_keys_in_order()[j],
            decreases 7 - i,
        {
            let at: usize = (start_idx + i) % 7;
            assert(BaseKey::spec_from_index(at as int) == BaseKey::spec_from_index(
                self.spec_index() + i,
            ));
            keys.push(keys_in_order[at]);
            i += 1;
        }
        assert(keys@ =~= self.spec_keys_in_order());
        keys
    }

    /// The letter as a character.
    pub open spec fn spec_char(self) -> char {
        match self {
            BaseKey::C => 'C',
            BaseKey::D => 'D',
            BaseKey::E => 'E',
            BaseKey::F => 'F',
            BaseKey::G => 'G',
            BaseKey::A => 'A',
            BaseKey::B => 'B',
        }
    }

    /// The letter that a character names, if it is one of `A` to `G`.
    pub open spec fn spec_from_char(c: char) -> Option<BaseKey> {
        if c == 'C' {
            Some(BaseKey::C)
        } else if c == 'D' {
            Some(BaseKey::D)
        } else if c == 'E' {
            Some(BaseKey::E)
        } else if c == 'F' {
            Some(BaseKey::F)
        } else if c == 'G' {
            Some(BaseKey::G)
        } else if c == 'A' {
            Some(BaseKey::A)
        } else if c == 'B' {
            Some(BaseKey::B)
        } else {
            None
        }
    }

    /// Prints the letter.
    pub fn to_string(&self) -> (s: String)
        ensures
            s@ == seq![self.spec_char()],
    {
        proof {
            reveal_strlit("C");
            reveal_strlit("D");
            reveal_strlit("E");
            reveal_strlit("F");
            reveal_strlit("G");
            reveal_strlit("A");
            reveal_strlit("B");
        }
        let text = match self {
            BaseKey::C => "C",
            BaseKey::D => "D",
            BaseKey::E => "E",
            BaseKey::F => "F",
            BaseKey::G => "G",
            BaseKey::A => "A",
            BaseKey::B => "B",
        };
        assert(text@ =~= seq![self.spec_char()]);
        text.to_owned()
    }

    /// Reads a letter from one character.
    pub fn from_char(c: char) -> (r: Option<BaseKey>)
        ensures
            r == BaseKey::spec_from_char(c),
    {
        match c {
            'C' => Some(BaseKey::C),
            'D' => Some(BaseKey::D),
            'E' => Some(BaseKey::E),
            'F' => Some(BaseKey::F),
            'G' => Some(BaseKey::G),
            'A' => Some(BaseKey::A),
            'B' => Some(BaseKey::B),
            _ => None,
        }
    }
}

/// A pitch class spelled with a letter and an accidental, such as E flat.
/// Several spellings name the same pitch class.
#[derive(PartialEq, Eq, Clone, Copy, Debug, Structural)]
pub struct NamedKey {
    pub base_key: BaseKey,
    pub key_modifier: KeyModifier,
}

impl NamedKey {
    /// The pitch class that the spelling names, from 0 to 11.
    pub open spec fn spec_pitch_class(self) -> int {
        (self.base_key.spec_semitone() + self.key_modifier.spec_value()) % 12
    }

    /// The spelling with the given letter and accidental.
    pub fn new(base_key: BaseKey, key_modifier: KeyModifier) -> (k: NamedKey)
        ensures
            k == (NamedKey { base_key, key_modifier }),
    {
        NamedKey { base_key, key_modifier }
    }

    /// The letter and the accidental.
    pub fn get_components(&self) -> (c: (BaseKey, KeyModifier))
        ensures
            c == (self.base_key, self.key_modifier),
    {
        (self.base_key, self.key_modifier)
    }

    /// The pitch class that the spelling names.
    pub fn to_key(&self) -> (k: Key)
        ensures
            k@ == self.spec_pitch_class(),
            k == Key::spec_new(self.spec_pitch_class()),
    {
        let value: i8 = self.key_modifier.get_value();
        self.base_key.to_key().add(&value)
    }

    /// The printed form: the letter, then the accidental's sign.
    pub open spec fn spec_text(self) -> Seq<char> {
        seq![self.base_key.spec_char()] + self.key_modifier.spec_text()
    }

    /// The spelling that a text is read as: a letter from `A` to `G`, and
    /// after it at most one accidental character.
    pub open spec fn spec_parse(s: Seq<char>) -> Option<NamedKey> {
        if s.len() == 1 {
            match BaseKey::spec_from_char(s[0]) {
                Some(base_key) => Some(NamedKey { base_key, key_modifier: KeyModifier::Natural }),
                None => None,
            }
        } else if s.len() == 2 {
            match (BaseKey::spec_from_char(s[0]), KeyModifier::spec_from_char(s[1])) {
                (Some(base_key), Some(key_modifier)) => Some(NamedKey { base_key, key_modifier }),
                _ => None,
            }
        } else {
            None
        }
    }

    /// Prints the spelling.
    pub fn to_string(&self) -> (s: String)
        ensures
            s@ == self.spec_text(),
    {
        let mut s = self.base_key.to_string();
        let sign = self.key_modifier.to_string();
        s.append(sign.as_str());
        s
    }

    /// Reads a spelling such as `C`, `Eb` or `F#`. A text that is no
    /// spelling is given back in the error.
    pub fn parse(s: &str) -> (r: Result<NamedKey, String>)
        ensures
            match NamedKey::spec_parse(s@) {
                Some(named) => r == Ok::<NamedKey, String>(named),
                None => r matches Err(e) && e@ == "Invalid key: "@ + s@,
            },
    {
        let len = s.unicode_len();
        if len == 1 {
            if let Some(base_key) = BaseKey::from_char(s.get_char(0)) {
                return Ok(NamedKey::new(base_key, KeyModifier::Natural));
            }
        } else if len == 2 {
            if let Some(base_key) = BaseKey::from_char(s.get_char(0)) {
                if let Some(key_modifier) = KeyModifier::from_char(s.get_char(1)) {
                    return Ok(NamedKey::new(base_key, key_modifier));
                }
            }
        }
        let mut e = "Invalid key: ".to_owned();
        e.append(s);
        Err(e)
    }
}

impl FromStr for NamedKey {
    type Err = String;

    /// Reads a spelling as `NamedKey::parse` does.
    fn from_str(s: &str) -> (r: Result<Self, Self::Err>)
        ensures
            match NamedKey::spec_parse(s@) {
                Some(named) => r == Ok::<NamedKey, String>(named),
                None => r matches Err(e) && e@ == "Invalid key: "@ + s@,
            },
    {
        NamedKey::parse(s)
    }
}

/// An absolute pitch spelled with a letter, an accidental and an octave
/// number. The octave is that of the letter: B sharp 3 sounds as C4, and
/// C flat 4 as B3.
#[derive(PartialEq, Eq, Clone, Copy, Debug, Structural)]
pub struct NamedNote {
    key: NamedKey,
    octave: i8,
}

impl NamedNote {
    /// The spelled pitch class.
    pub closed spec fn spec_key(self) -> NamedKey {
        self.key
    }

    /// The octave number that the name is written with.
    pub closed spec fn spec_octave(self) -> int {
        self.octave as int
    }

    /// The pitch that the name sounds: the letter's own pitch in the
    /// octave, moved by the accidental.
    pub open spec fn spec_pitch(self) -> int {
        self.spec_key().base_key.spec_semitone() + (self.spec_octave() + 1) * 12
            + self.spec_key().key_modifier.spec_value()
    }

    /// The name with the given spelling and octave number.
    pub fn new(key: NamedKey, octave: i8) -> (n: NamedNote)
        ensures
            n.spec_key() == key,
            n.spec_octave() == octave,
    {
        NamedNote { key, octave }
    }

    /// The note that the name sounds.
    pub fn to_note(&self) -> (n: Note)
        requires
            Note::representable(self.spec_pitch()),
        ensures
            n.0 == self.spec_pitch(),
    {
        let letter: i16 = self.key.base_key.to_key().value() as i16;
        let pitch: i16 = letter + (self.octave as i16 + 1) * 12
            + self.key.key_modifier.get_value() as i16;
        Note(pitch as u8)
    }

    /// The printed form: the spelling, then the octave number.
    pub open spec fn spec_text(self) -> Seq<char> {
        self.spec_key().spec_text() + spec_decimal(self.spec_octave())
    }

    /// The spelling and octave number that a text is read as: a spelling,
    /// and after it `-1` or one digit.
    pub open spec fn spec_parse(s: Seq<char>) -> Option<(NamedKey, int)> {
        if s.len() >= 2 && s[s.len() - 2] == '-' && s[s.len() - 1] == '1' {
            match NamedKey::spec_parse(s.subrange(0, s.len() - 2)) {
                Some(named) => Some((named, -1)),
                None => None,
            }
        } else if s.len() >= 1 {
            match (
                NamedKey::spec_parse(s.subrange(0, s.len() - 1)),
                spec_digit_value(s[s.len() - 1]),
            ) {
                (Some(named), Some(octave)) => Some((named, octave)),
                _ => None,
            }
        } else {
            None
        }
    }

    /// Prints the name.
    pub fn to_string(&self) -> (s: String)
        ensures
            s@ == self.spec_text(),
    {
        let mut s = self.key.to_string();
        let number = decimal(self.octave);
        s.append(number.as_str());
        s
    }

    /// Reads a name such as `C4`, `Eb5` or `B-1`: a spelling and an octave
    /// number from -1 to 9. A text that is no name is given back in the
    /// error.
    pub fn parse(s: &str) -> (r: Result<NamedNote, String>)
        ensures
            match NamedNote::spec_parse(s@) {
                Some((named, octave)) => r matches Ok(note) && note.spec_key() == named
                    && note.spec_octave() == octave,
                None => r matches Err(e) && e@ == "Invalid note:"@ + s@,
            },
    {
        let len = s.unicode_len();
        if len >= 2 && s.get_char(len - 2) == '-' && s.get_char(len - 1) == '1' {
            if let Ok(key) = NamedKey::parse(s.substring_char(0, len - 2)) {
                return Ok(NamedNote::new(key, -1));
            }
        } else if len >= 1 {
            if let Some(octave) = digit_value(s.get_char(len - 1)) {
                if let Ok(key) = NamedKey::parse(s.substring_char(0, len - 1)) {
                    return Ok(NamedNote::new(key, octave as i8));
                }
            }
        }
        let mut e = "Invalid note:".to_owned();
        e.append(s);
        Err(e)
    }
}

impl FromStr for NamedNote {
    type Err = String;

    /// Reads a name as `NamedNote::parse` does.
    fn from_str(s: &str) -> (r: Result<Self, Self::Err>)
        ensures
            match NamedNote::spec_parse(s@) {
                Some((named, octave)) => r matches Ok(note) && note.spec_key() == named
                    && note.spec_octave() == octave,
                None => r matches Err(e) && e@ == "Invalid note:"@ + s@,
            },
    {
        NamedNote::parse(s)
    }
}

/// Two names with the same spelling and octave number are the same name.
pub proof fn lemma_named_note_same(a: NamedNote, b: NamedNote)
    requires
        a.spec_key() == b.spec_key(),
        a.spec_octave() == b.spec_octave(),
    ensures
        a == b,
{
}

/// Every integer falls on a pitch class between 0 and 11, and integers a
/// whole number of octaves apart fall on the same one.
pub proof fn lemma_key_new_periodic(i: int, k: int)
    ensures
        Key::spec_new(i).wf(),
        Key::spec_new(i)@ == i % 12,
        Key::spec_new(i) == Key::spec_new(i + 12 * k),
{
    assert((i + 12 * k) % 12 == i % 12) by (nonlinear_arith);
}

/// A pitch class spelled with a letter keeps the letter and names the pitch
/// class; where it cannot be spelled with the letter, no accidental from
/// flat to double sharp brings the letter onto it.
pub proof fn lemma_named_key_starting_with(key: Key, base_key: BaseKey)
    requires
        key.wf(),
    ensures
        match key.spec_named_key_starting_with(base_key) {
            Some(named) => named.base_key == base_key && named.spec_pitch_class() == key@,
            None => forall|key_modifier: KeyModifier|
                (#[trigger] NamedKey { base_key, key_modifier }.spec_pitch_class()) != key@,
        },
{
    reveal(Key::spec_named_key_starting_with);
}

/// The default spelling of a pitch class names that pitch class, with a
/// natural or a sharp.
pub proof fn lemma_default_named_key(key: Key)
    requires
        key.wf(),
    ensures
        key.spec_default_named_key().spec_pitch_class() == key@,
        key.spec_default_named_key().key_modifier == KeyModifier::Natural
            || key.spec_default_named_key().key_modifier == KeyModifier::Sharp,
{
    reveal(Key::spec_default_named_key);
}

/// A pitch class asked for with the letter of one of its spellings is
/// given that spelling.
pub proof fn lemma_spelling_has_own_letter(named: NamedKey)
    ensures
        Key::spec_new(named.spec_pitch_class()).spec_named_key_starting_with(named.base_key)
            == Some(named),
{
    reveal(Key::spec_named_key_starting_with);
}

/// Integers with the same remainder by twelve fall on the same pitch class.
pub proof fn lemma_key_new_same(i: int, j: int)
    requires
        i % 12 == j % 12,
    ensures
        Key::spec_new(i) == Key::spec_new(j),
{
}

/// Splitting a note into pitch class and octave and composing them again
/// gives the note back.
pub proof fn lemma_compose_decompose(p: Note)
    ensures
        p.spec_key().wf(),
        Note::spec_compose(p.spec_key(), p.spec_octave()) == p.0,
{
}

/// Composing a pitch class and an octave and splitting the note gives both
/// back.
pub proof fn lemma_decompose_compose(key: Key, octave: int)
    requires
        key.wf(),
        Note::representable(Note::spec_compose(key, octave)),
    ensures
        Note(Note::spec_compose(key, octave) as u8).spec_key() == key,
        Note(Note::spec_compose(key, octave) as u8).spec_octave() == octave,
{
}

/// The printed form of a spelling reads back as that spelling.
pub proof fn lemma_named_key_round_trip(named: NamedKey)
    ensures
        NamedKey::spec_parse(named.spec_text()) == Some(named),
{
}

/// A text that reads as a spelling is that spelling's printed form, unless
/// it writes the accidental with one of the letters `b`, `#` or `x`.
pub proof fn lemma_named_key_text_unique(s: Seq<char>)
    requires
        NamedKey::spec_parse(s) is Some,
        s.len() == 2 ==> s[1] != 'b' && s[1] != '#' && s[1] != 'x',
    ensures
        NamedKey::spec_parse(s).unwrap().spec_text() == s,
{
    assert(NamedKey::spec_parse(s).unwrap().spec_text() =~= s);
}

/// The printed form of a pitch class reads back as its default spelling,
/// which prints as the same text again.
pub proof fn lemma_default_name_round_trip(key: Key)
    ensures
        NamedKey::spec_parse(key.spec_text()) == Some(key.spec_default_named_key()),
        NamedKey::spec_parse(key.spec_text()).unwrap().spec_text() == key.spec_text(),
{
    lemma_named_key_round_trip(key.spec_default_named_key());
}

/// The printed form of a name in the octaves from -1 to 9 reads back as
/// that name.
pub proof fn lemma_named_note_round_trip(note: NamedNote)
    requires
        -1 <= note.spec_octave() <= 9,
    ensures
        NamedNote::spec_parse(note.spec_text()) == Some((note.spec_key(), note.spec_octave())),
{
    let key_text = note.spec_key().spec_text();
    let text = note.spec_text();
    lemma_named_key_round_trip(note.spec_key());
    reveal_with_fuel(crate::text::spec_decimal_nat, 2);
    if note.spec_octave() == -1 {
        assert(text.subrange(0, text.len() - 2) =~= key_text);
    } else {
        assert(text.subrange(0, text.len() - 1) =~= key_text);
    }
}

} // verus!
