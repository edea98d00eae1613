//! Scales: an anchor and an ordered set of offsets from it, with one
//! spelling for each degree.

use crate::key::{
    lemma_default_named_key, lemma_key_new_periodic, lemma_key_new_same,
    lemma_named_key_starting_with, lemma_spelling_has_own_letter, BaseKey, Key, KeyModifier,
    NamedKey, NamedNote, Note,
};
use core::ops::Add;
use std::str::FromStr;
use vstd::arithmetic::div_mod::{
    lemma_fundamental_div_mod, lemma_fundamental_div_mod_converse, lemma_mod_bound,
};
use vstd::prelude::*;
use vstd::string::StringExecFns;

verus! {

/// What can be wrong with an offset of a scale: the first stands for a
/// value outside 0 to 11, the second for a value not above the one before.
pub enum OffsetFault {
    OutOfRange,
    NotIncreasing,
}

/// What a scale holds: the anchor, the offsets of the degrees, and their
/// spellings.
pub struct ScaleView {
    pub start: NamedKey,
    pub offsets: Seq<i8>,
    pub elements: Seq<NamedKey>,
}

/// An anchor with the offsets of its degrees in semitones, strictly
/// increasing and between 0 and 11, and the spelling of each degree.
///
/// The spellings are worked out when the scale is made: as far as the pitch
/// classes allow, the degrees take the letters in order from the anchor's
/// own, one letter each.
pub struct Scale {
    start: NamedKey,
    offsets: Vec<i8>,
    elements: Vec<NamedKey>,
}

impl View for Scale {
    type V = ScaleView;

    closed spec fn view(&self) -> ScaleView {
        ScaleView { start: self.start, offsets: self.offsets@, elements: self.elements@ }
    }
}

impl Scale {
    /// What is wrong with the offset at place `i`, if anything.
    pub open spec fn spec_offset_fault(offsets: Seq<i8>, i: int) -> Option<OffsetFault> {
        if offsets[i] < 0 || offsets[i] > 11 {
            Some(OffsetFault::OutOfRange)
        } else if i > 0 && offsets[i - 1] >= offsets[i] {
            Some(OffsetFault::NotIncreasing)
        } else {
            None
        }
    }

    /// Offsets that a scale can have: each between 0 and 11 and above the
    /// one before.
    pub open spec fn spec_offsets_valid(offsets: Seq<i8>) -> bool {
        forall|i: int| 0 <= i < offsets.len() ==> Scale::spec_offset_fault(offsets, i) is None
    }

    /// The pitch class of the degree at place `i`.
    pub open spec fn spec_degree_key(start: NamedKey, offsets: Seq<i8>, i: int) -> Key {
        Key::spec_new(start.spec_pitch_class() + offsets[i])
    }

    /// The spellings of the first `n` degrees, and how many letters they
    /// have taken.
    ///
    /// Each degree is tried with the next letter after those taken, counted
    /// from the anchor's own. Where its pitch class can be spelled with that
    /// letter, it takes the letter. Where it cannot, or all seven letters
    /// are taken, it gets its default spelling and the letter stays for the
    /// next degree.
    pub open spec fn spec_spell(start: NamedKey, offsets: Seq<i8>, n: nat) -> (Seq<NamedKey>, nat)
        decreases n,
    {
        if n == 0 {
            (Seq::empty(), 0)
        } else {
            let (spelled, taken) = Scale::spec_spell(start, offsets, (n - 1) as nat);
            let key = Scale::spec_degree_key(start, offsets, n - 1);
            let with_letter = if taken < 7 {
                key.spec_named_key_starting_with(
                    BaseKey::spec_from_index(start.base_key.spec_index() + taken),
                )
            } else {
                None
            };
            match with_letter {
                Some(named) => (spelled.push(named), taken + 1),
                None => (spelled.push(key.spec_default_named_key()), taken),
            }
        }
    }

    /// The spelling of every degree.
    pub open spec fn spec_generate_elements(start: NamedKey, offsets: Seq<i8>) -> Seq<NamedKey> {
        Scale::spec_spell(start, offsets, offsets.len()).0
    }

    /// Whether the degree at place `i` found no letter to take and got its
    /// default spelling.
    pub open spec fn spec_is_fallback(start: NamedKey, offsets: Seq<i8>, i: int) -> bool {
        let taken = Scale::spec_spell(start, offsets, i as nat).1;
        taken >= 7 || Scale::spec_degree_key(start, offsets, i).spec_named_key_starting_with(
            BaseKey::spec_from_index(start.base_key.spec_index() + taken),
        ) is None
    }

    /// The places among the first `n` degrees of those that got their
    /// default spelling, in order.
    pub open spec fn spec_fallbacks(start: NamedKey, offsets: Seq<i8>, n: nat) -> Seq<usize>
        decreases n,
    {
        if n == 0 {
            Seq::empty()
        } else {
            let before = Scale::spec_fallbacks(start, offsets, (n - 1) as nat);
            if Scale::spec_is_fallback(start, offsets, n - 1) {
                before.push((n - 1) as usize)
            } else {
                before
            }
        }
    }

    /// The anchor.
    pub open spec fn spec_start(self) -> NamedKey {
        self@.start
    }

    /// The offsets of the degrees.
    pub open spec fn spec_offsets(self) -> Seq<i8> {
        self@.offsets
    }

    /// The spellings of the degrees.
    pub open spec fn spec_elements(self) -> Seq<NamedKey> {
        self@.elements
    }

    /// What a scale made from an anchor and valid offsets holds.
    pub open spec fn spec_view_of(start: NamedKey, offsets: Seq<i8>) -> ScaleView {
        ScaleView { start, offsets, elements: Scale::spec_generate_elements(start, offsets) }
    }

    /// The offsets are valid and the spellings are those that the anchor
    /// and the offsets give. Every `Scale` that executable code holds is
    /// well formed.
    #[verifier::type_invariant]
    pub closed spec fn wf(self) -> bool {
        &&& Scale::spec_offsets_valid(self.offsets@)
        &&& self.elements@ == Scale::spec_generate_elements(self.start, self.offsets@)
    }

    /// Whether the offset at place `i` has the given fault and none before
    /// it has any.
    pub open spec fn spec_first_fault(offsets: Seq<i8>, i: int, fault: OffsetFault) -> bool {
        &&& 0 <= i < offsets.len()
        &&& Scale::spec_offset_fault(offsets, i) == Some(fault)
        &&& forall|j: int| 0 <= j < i ==> Scale::spec_offset_fault(offsets, j) is None
    }

    /// Makes the scale that starts on `start` and has the given offsets,
    /// and spells its degrees.
    ///
    /// The offsets are gone through in order, and the first one at fault
    /// decides the error: an offset outside 0 to 11, or one that is not
    /// above the offset before it. A degree that cannot take its letter is
    /// no error.
    pub fn new(start: NamedKey, offsets: Vec<i8>) -> (r: Result<Scale, String>)
        ensures
            match r {
                Ok(scale) => {
                    &&& Scale::spec_offsets_valid(offsets@)
                    &&& scale@ == Scale::spec_view_of(start, offsets@)
                },
                Err(e) => {
                    ||| e@ == "All offsets must be between 0 and 11!"@ && exists|i: int|
                        Scale::spec_first_fault(offsets@, i, OffsetFault::OutOfRange)
                    ||| e@ == "Offsets must be in strictly increasing order!"@ && exists|i: int|
                        Scale::spec_first_fault(offsets@, i, OffsetFault::NotIncreasing)
                },
            },
    {
        let mut previous_offset: Option<i8> = None;
        let mut i: usize = 0;
        while i < offsets.len()
            invariant
                i <= offsets.len(),
                forall|j: int| 0 <= j < i ==> Scale::spec_offset_fault(offsets@, j) is None,
                previous_offset == if i == 0 {
                    None
                } else {
                    Some(offsets@[i - 1])
                },
            decreases offsets.len() - i,
        {
            let offset = offsets[i];
            if offset < 0 || offset > 11 {
                assert(Scale::spec_first_fault(offsets@, i as int, OffsetFault::OutOfRange));
                return Err("All offsets must be between 0 and 11!".to_owned());
            }
            if let Some(previous_offset) = previous_offset {
                if previous_offset >= offset {
                    assert(Scale::spec_first_fault(
                        offsets@,
                        i as int,
                        OffsetFault::NotIncreasing,
                    ));
                    return Err("Offsets must be in strictly increasing order!".to_owned());
                }
            }
            previous_offset = Some(offset);
            i += 1;
        }

        let elements = Self::generate_elements(&start, &offsets);

        Ok(Self { start, offsets, elements })
    }

    /// Spells the degrees: each takes the next letter where its pitch class
    /// can be spelled with it, and its default spelling where it cannot.
    fn generate_elements(start: &NamedKey, offsets: &Vec<i8>) -> (elements: Vec<NamedKey>)
        ensures
            elements@ == Scale::spec_generate_elements(*start, offsets@),
    {
        let (base_key, _) = start.get_components();
        let keys_in_order: Vec<BaseKey> = base_key.get_keys_in_order();
        let mut taken: usize = 0;

        let mut elements = Vec::<NamedKey>::new();
        let mut i: usize = 0;
        while i < offsets.len()
            invariant
                i <= offsets.len(),
                taken <= 7,
                keys_in_order@ == start.base_key.spec_keys_in_order(),
                (elements@, taken as nat) == Scale::spec_spell(*start, offsets@, i as nat),
            decreases offsets.len() - i,
        {
            let key = start.to_key().add(&offsets[i]);
            let with_letter = if taken < 7 {
                key.get_named_key_starting_with(&keys_in_order[taken])
            } else {
                None
            };
            let named_key: NamedKey = match with_letter {
                Some(named_key) => {
                    taken += 1;
                    named_key
                },
                None => key.get_default_named_key(),
            };
            elements.push(named_key);
            i += 1;
        }
        elements
    }

    /// The number of degrees.
    pub open spec fn spec_len(self) -> nat {
        self.spec_offsets().len()
    }

    /// The degree that a position falls on: positions count on past the
    /// last degree into the next octave, and below the first into the
    /// octave below.
    pub open spec fn spec_index(self, position: int) -> int {
        position % (self.spec_len() as int)
    }

    /// The number of octaves by which a position lies above the scale's
    /// own; negative below it.
    pub open spec fn spec_additional_octaves(self, position: int) -> int {
        position / (self.spec_len() as int)
    }

    /// The pitch at a position, with the scale's own octave numbered
    /// `octave`: the anchor's pitch class in the octave that the position
    /// reaches, raised by the offset of the degree.
    pub open spec fn spec_pitch(self, position: int, octave: int) -> int {
        self.spec_start().spec_pitch_class() + (octave + self.spec_additional_octaves(position)
            + 1) * 12 + self.spec_offsets()[self.spec_index(position)]
    }

    /// Whether a position names a note: the scale has degrees and the
    /// pitch at the position is representable.
    pub open spec fn spec_has_note(self, position: int, octave: int) -> bool {
        self.spec_len() > 0 && Note::representable(self.spec_pitch(position, octave))
    }

    /// The spelling and the octave number of the name at a position: the
    /// spelling of the degree, and the octave in which its letter makes the
    /// name sound the pitch.
    pub open spec fn spec_named_note(self, position: int, octave: int) -> (NamedKey, int) {
        let named = self.spec_elements()[self.spec_index(position)];
        (
            named,
            (self.spec_pitch(position, octave) - named.key_modifier.spec_value()
                - named.base_key.spec_semitone()) / 12 - 1,
        )
    }

    /// The places of the degrees that found no letter to take and got
    /// their default spelling, in order. A scale with such degrees is
    /// spelled less readably than one without.
    pub fn fallback_degrees(&self) -> (degrees: Vec<usize>)
        ensures
            degrees@ == Scale::spec_fallbacks(
                self.spec_start(),
                self.spec_offsets(),
                self.spec_len(),
            ),
    {
        let keys_in_order: Vec<BaseKey> = self.start.base_key.get_keys_in_order();
        let mut taken: usize = 0;
        let mut degrees: Vec<usize> = Vec::new();
        let mut i: usize = 0;
        while i < self.offsets.len()
            invariant
                i <= self.offsets@.len(),
                taken <= 7,
                keys_in_order@ == self.start.base_key.spec_keys_in_order(),
                taken == Scale::spec_spell(self.start, self.offsets@, i as nat).1,
                degrees@ == Scale::spec_fallbacks(self.start, self.offsets@, i as nat),
            decreases self.offsets.len() - i,
        {
            let key = self.start.to_key().add(&self.offsets[i]);
            if taken < 7 && key.get_named_key_starting_with(&keys_in_order[taken]).is_some() {
                taken += 1;
            } else {
                degrees.push(i);
            }
            i += 1;
        }
        degrees
    }

    /// The number of degrees.
    pub fn len(&self) -> (n: usize)
        ensures
            n == self.spec_len(),
            n <= 12,
    {
        proof {
            use_type_invariant(self);
            lemma_valid_offsets_are_few(self.offsets@);
        }
        self.offsets.len()
    }

    /// The degree that a position falls on, and the number of octaves by
    /// which it lies above the scale's own.
    fn get_index_and_additional_octaves(&self, position: i8) -> (r: (usize, i8))
        requires
            self.spec_len() > 0,
        ensures
            r.0 == self.spec_index(position as int),
            r.0 < self.spec_len(),
            r.1 == self.spec_additional_octaves(position as int),
    {
        let len: i8 = self.len() as i8;
        proof {
            lemma_mod_bound(position as int, len as int);
            lemma_fundamental_div_mod(position as int, len as int);
            let q = position as int / len as int;
            let r = position as int % len as int;
            assert(-128 <= q <= 127) by (nonlinear_arith)
                requires
                    position == len * q + r,
                    0 <= r < len,
                    -128 <= position <= 127,
            ;
        }
        let index: i8 = match position.checked_rem_euclid(len) {
            Some(index) => index,
            None => 0,
        };
        let additional_octaves: i8 = match position.checked_div_euclid(len) {
            Some(additional_octaves) => additional_octaves,
            None => 0,
        };
        (index as usize, additional_octaves)
    }

    /// Whether a position names a note: the scale has degrees and the
    /// pitch at the position is representable.
    pub fn has_note(&self, position: i8, octave: i8) -> (ok: bool)
        ensures
            ok == self.spec_has_note(position as int, octave as int),
    {
        if self.len() == 0 {
            return false;
        }
        let (index, additional_octaves) = self.get_index_and_additional_octaves(position);
        let anchor: i32 = self.start.to_key().value() as i32;
        let pitch: i32 = anchor + (octave as i32 + additional_octaves as i32 + 1) * 12
            + self.offsets[index] as i32;
        0 <= pitch && pitch <= 127
    }

    /// The note at a position, with the scale's own octave numbered
    /// `octave`. Position 0 is the first degree; the positions go on into
    /// the octaves above and, below 0, into those beneath.
    pub fn get_note(&self, position: i8, octave: i8) -> (n: Note)
        requires
            self.spec_has_note(position as int, octave as int),
        ensures
            n.0 == self.spec_pitch(position as int, octave as int),
    {
        let (index, additional_octaves) = self.get_index_and_additional_octaves(position);
        let anchor: i32 = self.start.to_key().value() as i32;
        let pitch: i32 = anchor + (octave as i32 + additional_octaves as i32 + 1) * 12
            + self.offsets[index] as i32;
        Note(pitch as u8)
    }

    /// The name of the note at a position: its pitch spelled with the
    /// letter of its degree.
    pub fn get_named_note(&self, position: i8, octave: i8) -> (n: NamedNote)
        requires
            self.spec_has_note(position as int, octave as int),
        ensures
            n.spec_key() == self.spec_named_note(position as int, octave as int).0,
            n.spec_octave() == self.spec_named_note(position as int, octave as int).1,
            n.spec_pitch() == self.spec_pitch(position as int, octave as int),
    {
        let (index, _) = self.get_index_and_additional_octaves(position);
        let note = self.get_note(position, octave);
        proof {
            use_type_invariant(self);
            lemma_spelling_keeps_pitch_class(self.start, self.offsets@, self.offsets@.len());
            let named = self.elements@[index as int];
            let degree = self.start.spec_pitch_class() + self.offsets@[index as int];
            let shift = octave + self.spec_additional_octaves(position as int) + 1;
            assert(named.spec_pitch_class() == Scale::spec_degree_key(
                self.start,
                self.offsets@,
                index as int,
            )@);
            lemma_key_new_periodic(degree, shift);
            lemma_key_new_periodic(degree, 0);
            assert(note.0 == degree + 12 * shift);
            lemma_key_new_same(named.spec_pitch_class(), degree);
            lemma_spelling_has_own_letter(named);
            assert(note.spec_key().spec_named_key_starting_with(named.base_key) == Some(named));
        }
        match note.get_named_note_starting_with(&self.elements[index].base_key) {
            Some(named_note) => named_note,
            None => NamedNote::new(self.elements[index], octave),
        }
    }

    /// The offsets of the major scale.
    pub open spec fn spec_major_offsets() -> Seq<i8> {
        seq![0i8, 2i8, 4i8, 5i8, 7i8, 9i8, 11i8]
    }

    /// The offsets of the harmonic minor scale.
    pub open spec fn spec_minor_offsets() -> Seq<i8> {
        seq![0i8, 2i8, 3i8, 5i8, 7i8, 8i8, 11i8]
    }

    /// The offsets that the name of a mode stands for: nothing, `M` or
    /// `maj` for major; `m` or `min` for minor.
    pub open spec fn spec_parse_mode(s: Seq<char>) -> Option<Seq<i8>> {
        if s.len() == 0 || s == seq!['M'] || s == seq!['m', 'a', 'j'] {
            Some(Scale::spec_major_offsets())
        } else if s == seq!['m'] || s == seq!['m', 'i', 'n'] {
            Some(Scale::spec_minor_offsets())
        } else {
            None
        }
    }

    /// The number of characters at the start of a text that belong to the
    /// anchor's spelling: the letter, and an accidental character if one
    /// follows it.
    pub open spec fn spec_anchor_len(s: Seq<char>) -> int {
        if s.len() >= 2 && KeyModifier::spec_from_char(s[1]) is Some {
            2
        } else {
            1
        }
    }

    /// The anchor and the offsets that a text is read as: a spelling, and
    /// after it the name of a mode.
    pub open spec fn spec_parse(s: Seq<char>) -> Option<(NamedKey, Seq<i8>)> {
        if s.len() == 0 {
            None
        } else {
            let at = Scale::spec_anchor_len(s);
            match (
                NamedKey::spec_parse(s.subrange(0, at)),
                Scale::spec_parse_mode(s.subrange(at, s.len() as int)),
            ) {
                (Some(start), Some(offsets)) => Some((start, offsets)),
                _ => None,
            }
        }
    }

    fn parse_mode(s: &str) -> (r: Option<Vec<i8>>)
        ensures
            match Scale::spec_parse_mode(s@) {
                Some(offsets) => r matches Some(v) && v@ == offsets,
                None => r is None,
            },
    {
        let len = s.unicode_len();
        let major = if len == 0 {
            true
        } else if len == 1 {
            if s.get_char(0) == 'M' {
                true
            } else if s.get_char(0) == 'm' {
                false
            } else {
                return None;
            }
        } else if len == 3 && s.get_char(0) == 'm' {
            if s.get_char(1) == 'a' && s.get_char(2) == 'j' {
                true
            } else if s.get_char(1) == 'i' && s.get_char(2) == 'n' {
                false
            } else {
                return None;
            }
        } else {
            return None;
        };
        let offsets: Vec<i8> = if major {
            vec![0, 2, 4, 5, 7, 9, 11]
        } else {
            vec![0, 2, 3, 5, 7, 8, 11]
        };
        proof {
            if major {
                assert(s@.len() == 0 || s@ =~= seq!['M'] || s@ =~= seq!['m', 'a', 'j']);
                assert(offsets@ =~= Scale::spec_major_offsets());
            } else {
                assert(s@ =~= seq!['m'] || s@ =~= seq!['m', 'i', 'n']);
                assert(offsets@ =~= Scale::spec_minor_offsets());
            }
        }
        Some(offsets)
    }

    /// Reads a scale such as `C`, `Cmaj`, `EbM`, `F#m` or `Amin`: the
    /// anchor's spelling, then the mode. Minor is the harmonic minor. A
    /// text that is no scale is given back in the error.
    pub fn parse(s: &str) -> (r: Result<Scale, String>)
        ensures
            match Scale::spec_parse(s@) {
                Some((start, offsets)) => r matches Ok(scale) && scale@ == Scale::spec_view_of(
                    start,
                    offsets,
                ),
                None => r matches Err(e) && e@ == "Invalid scale:"@ + s@,
            },
    {
        let len = s.unicode_len();
        if len >= 1 {
            let at: usize = if len >= 2 && KeyModifier::from_char(s.get_char(1)).is_some() {
                2
            } else {
                1
            };
            if let Ok(start) = NamedKey::parse(s.substring_char(0, at)) {
                if let Some(offsets) = Self::parse_mode(s.substring_char(at, len)) {
                    proof {
                        lemma_modes_are_valid();
                    }
                    if let Ok(scale) = Self::new(start, offsets) {
                        return Ok(scale);
                    }
                }
            }
        }
        let mut e = "Invalid scale:".to_owned();
        e.append(s);
        Err(e)
    }
}

impl FromStr for Scale {
    type Err = String;

    /// Reads a scale as `Scale::parse` does.
    fn from_str(s: &str) -> (r: Result<Self, Self::Err>)
        ensures
            match Scale::spec_parse(s@) {
                Some((start, offsets)) => r matches Ok(scale) && scale@ == Scale::spec_view_of(
                    start,
                    offsets,
                ),
                None => r matches Err(e) && e@ == "Invalid scale:"@ + s@,
            },
    {
        Scale::parse(s)
    }
}

impl Clone for Scale {
    fn clone(&self) -> (copy: Self)
        ensures
            copy@ == self@,
    {
        proof {
            use_type_invariant(self);
        }
        let offsets = self.offsets.clone();
        let mut elements: Vec<NamedKey> = Vec::new();
        let mut i: usize = 0;
        while i < self.elements.len()
            invariant
                i <= self.elements.len(),
                elements@ == self.elements@.subrange(0, i as int),
            decreases self.elements.len() - i,
        {
            elements.push(self.elements[i]);
            i += 1;
            assert(elements@ =~= self.elements@.subrange(0, i as int));
        }
        assert(elements@ =~= self.elements@);
        assert(offsets@ =~= self.offsets@);
        Scale { start: self.start, offsets, elements }
    }
}

/// The offsets of the major and of the harmonic minor scale are valid.
pub proof fn lemma_modes_are_valid()
    ensures
        Scale::spec_offsets_valid(Scale::spec_major_offsets()),
        Scale::spec_offsets_valid(Scale::spec_minor_offsets()),
{
}

/// A well-formed scale has valid offsets, and holds what its anchor and its
/// offsets give: one spelling for each degree.
pub proof fn lemma_scale_view(scale: Scale)
    requires
        scale.wf(),
    ensures
        Scale::spec_offsets_valid(scale.spec_offsets()),
        scale@ == Scale::spec_view_of(scale.spec_start(), scale.spec_offsets()),
        scale.spec_elements().len() == scale.spec_len(),
        scale.spec_len() <= 12,
{
    lemma_spelling_keeps_pitch_class(
        scale.spec_start(),
        scale.spec_offsets(),
        scale.spec_offsets().len(),
    );
    lemma_valid_offsets_are_few(scale.spec_offsets());
}

/// Offsets that are valid are at least as large as their places, so there
/// are at most twelve of them.
pub proof fn lemma_valid_offsets_are_few(offsets: Seq<i8>)
    requires
        Scale::spec_offsets_valid(offsets),
    ensures
        offsets.len() <= 12,
        forall|i: int| 0 <= i < offsets.len() ==> i <= #[trigger] offsets[i] <= 11,
    decreases offsets.len(),
{
    if offsets.len() > 0 {
        let shorter = offsets.drop_last();
        assert forall|i: int| 0 <= i < shorter.len() implies Scale::spec_offset_fault(
            shorter,
            i,
        ) is None by {
            assert(Scale::spec_offset_fault(offsets, i) is None);
        }
        lemma_valid_offsets_are_few(shorter);
        let last = offsets.len() - 1;
        assert(Scale::spec_offset_fault(offsets, last) is None);
        if last > 0 {
            assert(shorter[last - 1] == offsets[last - 1]);
        }
        assert forall|i: int| 0 <= i < offsets.len() implies i <= #[trigger] offsets[i]
            <= 11 by {
            if i < last {
                assert(shorter[i] == offsets[i]);
            }
        }
    }
}

/// Each degree is spelled as its own pitch class, whether it took a letter
/// or not.
pub proof fn lemma_spelling_keeps_pitch_class(start: NamedKey, offsets: Seq<i8>, n: nat)
    requires
        n <= offsets.len(),
    ensures
        Scale::spec_spell(start, offsets, n).0.len() == n,
        Scale::spec_spell(start, offsets, n).1 <= 7,
        forall|i: int|
            0 <= i < n ==> (#[trigger] Scale::spec_spell(start, offsets, n).0[i]).spec_pitch_class()
                == Scale::spec_degree_key(start, offsets, i)@,
    decreases n,
{
    if n > 0 {
        lemma_spelling_keeps_pitch_class(start, offsets, (n - 1) as nat);
        let (spelled, taken) = Scale::spec_spell(start, offsets, (n - 1) as nat);
        let key = Scale::spec_degree_key(start, offsets, n - 1);
        let letter = BaseKey::spec_from_index(start.base_key.spec_index() + taken);
        lemma_key_new_periodic(start.spec_pitch_class() + offsets[n - 1], 0);
        lemma_named_key_starting_with(key, letter);
        lemma_default_named_key(key);
    }
}

/// A position a whole number of scale lengths further on falls on the same
/// degree, that many octaves higher. So position -1 is the last degree, one
/// octave down.
pub proof fn lemma_position_wraps(scale: Scale, position: int, octave: int, k: int)
    requires
        scale.spec_len() > 0,
    ensures
        0 <= scale.spec_index(position) < scale.spec_len(),
        scale.spec_index(position + k * scale.spec_len()) == scale.spec_index(position),
        scale.spec_additional_octaves(position + k * scale.spec_len())
            == scale.spec_additional_octaves(position) + k,
        scale.spec_pitch(position + k * scale.spec_len(), octave) == scale.spec_pitch(
            position,
            octave,
        ) + 12 * k,
        scale.spec_pitch(position, octave + k) == scale.spec_pitch(position, octave) + 12 * k,
        scale.spec_index(-1) == scale.spec_len() - 1,
        scale.spec_additional_octaves(-1) == -1,
{
    let len = scale.spec_len() as int;
    lemma_mod_bound(position, len);
    lemma_fundamental_div_mod(position, len);
    let q = position / len;
    let r = position % len;
    assert(position + k * len == len * (q + k) + r) by (nonlinear_arith)
        requires
            position == len * q + r,
    ;
    lemma_fundamental_div_mod_converse(position + k * len, len, q + k, r);
    lemma_fundamental_div_mod_converse(-1, len, -1, len - 1);
}

/// The anchors whose major scale can be spelled with the accidentals from
/// flat to double sharp: every natural and sharp one, the flat ones but
/// F flat, and of the double sharp ones C and F. The others would need a
/// double flat or a triple sharp.
pub open spec fn spec_major_anchor(start: NamedKey) -> bool {
    ||| start.key_modifier == KeyModifier::Natural
    ||| start.key_modifier == KeyModifier::Sharp
    ||| start.key_modifier == KeyModifier::Flat && start.base_key != BaseKey::F
    ||| start.key_modifier == KeyModifier::DoubleSharp && (start.base_key == BaseKey::C
        || start.base_key == BaseKey::F)
}

/// Each degree of such an anchor's major scale can be spelled with the
/// letter of its place.
proof fn lemma_major_degree_takes_letter(start: NamedKey, i: int)
    requires
        spec_major_anchor(start),
        0 <= i < 7,
    ensures
        Scale::spec_degree_key(
            start,
            Scale::spec_major_offsets(),
            i,
        ).spec_named_key_starting_with(BaseKey::spec_from_index(start.base_key.spec_index() + i))
            is Some,
{
    let key = Scale::spec_degree_key(start, Scale::spec_major_offsets(), i);
    let letter = BaseKey::spec_from_index(start.base_key.spec_index() + i);
    lemma_key_new_periodic(start.spec_pitch_class() + Scale::spec_major_offsets()[i], 0);
    reveal(Key::spec_named_key_starting_with);
}

/// The first degrees of such an anchor's major scale take one letter each.
proof fn lemma_major_spelling_takes_letters(start: NamedKey, n: nat)
    requires
        spec_major_anchor(start),
        n <= 7,
    ensures
        Scale::spec_spell(start, Scale::spec_major_offsets(), n).0.len() == n,
        Scale::spec_spell(start, Scale::spec_major_offsets(), n).1 == n,
        forall|i: int|
            0 <= i < n ==> (#[trigger] Scale::spec_spell(
                start,
                Scale::spec_major_offsets(),
                n,
            ).0[i]).base_key == BaseKey::spec_from_index(start.base_key.spec_index() + i),
    decreases n,
{
    if n > 0 {
        let offsets = Scale::spec_major_offsets();
        lemma_major_spelling_takes_letters(start, (n - 1) as nat);
        lemma_major_degree_takes_letter(start, n - 1);
        let key = Scale::spec_degree_key(start, offsets, n - 1);
        let letter = BaseKey::spec_from_index(start.base_key.spec_index() + (n - 1));
        lemma_key_new_periodic(start.spec_pitch_class() + offsets[n - 1], 0);
        lemma_named_key_starting_with(key, letter);
    }
}

/// The seven degrees of a major scale are spelled with the seven letters in
/// order from the anchor's own, so no letter comes twice, and each spelling
/// names the pitch class of its degree. This holds of every anchor whose
/// major scale needs no accidental beyond flat and double sharp.
pub proof fn lemma_major_scale_letters(start: NamedKey)
    requires
        spec_major_anchor(start),
    ensures
        Scale::spec_generate_elements(start, Scale::spec_major_offsets()).len() == 7,
        forall|i: int|
            0 <= i < 7 ==> (#[trigger] Scale::spec_generate_elements(
                start,
                Scale::spec_major_offsets(),
            )[i]).base_key == BaseKey::spec_from_index(start.base_key.spec_index() + i),
        forall|i: int|
            0 <= i < 7 ==> (#[trigger] Scale::spec_generate_elements(
                start,
                Scale::spec_major_offsets(),
            )[i]).spec_pitch_class() == (start.spec_pitch_class()
                + Scale::spec_major_offsets()[i]) % 12,
        forall|i: int, j: int|
            0 <= i < j < 7 ==> (#[trigger] Scale::spec_generate_elements(
                start,
                Scale::spec_major_offsets(),
            )[i]).base_key != (#[trigger] Scale::spec_generate_elements(
                start,
                Scale::spec_major_offsets(),
            )[j]).base_key,
{
    let offsets = Scale::spec_major_offsets();
    let elements = Scale::spec_generate_elements(start, offsets);
    lemma_major_spelling_takes_letters(start, 7);
    lemma_spelling_keeps_pitch_class(start, offsets, 7);
    assert forall|i: int| 0 <= i < 7 implies (#[trigger] elements[i]).spec_pitch_class() == (
    start.spec_pitch_class() + offsets[i]) % 12 by {
        lemma_key_new_periodic(start.spec_pitch_class() + offsets[i], 0);
    }
    assert forall|i: int, j: int| 0 <= i < j < 7 implies (#[trigger] elements[i]).base_key != (
    #[trigger] elements[j]).base_key by {
        let a = start.base_key.spec_index();
        assert(BaseKey::spec_from_index(a + i) != BaseKey::spec_from_index(a + j));
    }
}

/// No degree of such an anchor's major scale gets its default spelling for
/// want of a letter.
pub proof fn lemma_major_scale_has_no_fallback(start: NamedKey, n: nat)
    requires
        spec_major_anchor(start),
        n <= 7,
    ensures
        Scale::spec_fallbacks(start, Scale::spec_major_offsets(), n) == Seq::<usize>::empty(),
    decreases n,
{
    if n > 0 {
        lemma_major_scale_has_no_fallback(start, (n - 1) as nat);
        lemma_major_spelling_takes_letters(start, (n - 1) as nat);
        lemma_major_degree_takes_letter(start, n - 1);
    }
}

} // verus!
