//! Reading a piece from its description as a JSON value.
//!
//! A piece is an object with a tempo `bpm` and an array `tracks`. A track
//! is an object with an `id`, a `type` (`voice` or `chord`), a `scale`, an
//! `octave`, a `start` and `notes`; a chord also has its shape `chord`.
//!
//! The `start` is a beat, or an object that names an earlier track and the
//! number of beats after the start of that track.
//!
//! The `notes` are a number (a position of the scale), `null` or an empty
//! string (a rest), a boolean (the first degree, or a rest), an array of
//! notes, or an object whose keys scale the duration of the notes under
//! them: `3` for three times as long, `1/3` or `/3` for a third. Every note
//! starts out one beat long, and the notes of an array within an array are
//! half as long as those around it.

use crate::chord::{Chord, ChordView};
use crate::scale::{Scale, ScaleView};
use crate::text::{digit_value, joined, spec_digit_value, str_eq};
use crate::track::{
    AnyTrack, Piece, PieceView, TimedNote, Track, TrackView, Voice, VoiceView, TICKS_PER_BEAT,
};
use indexmap::IndexMap;
use vstd::prelude::*;

verus! {

/// A JSON number as far as a piece reads it: a whole number that is not
/// negative, a negative whole number, or a number with a fraction, of which
/// nothing more is kept.
pub enum JsonNumber {
    PosInt(u64),
    NegInt(i64),
    Float,
}

/// A JSON value. An object holds its entries in the order in which they
/// are gone through.
pub enum Json {
    Null,
    Bool(bool),
    Number(JsonNumber),
    String(String),
    Array(Vec<Json>),
    Object(Vec<(String, Json)>),
}

impl JsonNumber {
    /// The number as a signed integer, if it is whole and fits.
    pub open spec fn spec_as_i64(self) -> Option<i64> {
        match self {
            JsonNumber::PosInt(n) => if n <= i64::MAX {
                Some(n as i64)
            } else {
                None
            },
            JsonNumber::NegInt(n) => Some(n),
            JsonNumber::Float => None,
        }
    }

    /// The number as an unsigned integer, if it is whole and not negative.
    pub open spec fn spec_as_u64(self) -> Option<u64> {
        match self {
            JsonNumber::PosInt(n) => Some(n),
            _ => None,
        }
    }

    /// The number as a signed integer, if it is whole and fits.
    pub fn as_i64(&self) -> (r: Option<i64>)
        ensures
            r == self.spec_as_i64(),
    {
        match self {
            JsonNumber::PosInt(n) => if *n <= i64::MAX as u64 {
                Some(*n as i64)
            } else {
                None
            },
            JsonNumber::NegInt(n) => Some(*n),
            JsonNumber::Float => None,
        }
    }

    /// The number as an unsigned integer, if it is whole and not negative.
    pub fn as_u64(&self) -> (r: Option<u64>)
        ensures
            r == self.spec_as_u64(),
    {
        match self {
            JsonNumber::PosInt(n) => Some(*n),
            _ => None,
        }
    }
}

impl Json {
    /// The value as a signed integer, if it is a number that is one.
    pub open spec fn spec_as_i64(self) -> Option<i64> {
        match self {
            Json::Number(number) => number.spec_as_i64(),
            _ => None,
        }
    }

    /// The value as an unsigned integer, if it is a number that is one.
    pub open spec fn spec_as_u64(self) -> Option<u64> {
        match self {
            Json::Number(number) => number.spec_as_u64(),
            _ => None,
        }
    }

    /// The value as a text, if it is a string.
    pub open spec fn spec_as_str(self) -> Option<Seq<char>> {
        match self {
            Json::String(text) => Some(text@),
            _ => None,
        }
    }

    /// The value of the first entry with the given key among the first `n`
    /// entries of an object.
    pub open spec fn spec_get(entries: Seq<(String, Json)>, key: Seq<char>, n: nat) -> Option<
        Json,
    >
        decreases n,
    {
        if n == 0 || n > entries.len() {
            None
        } else {
            match Json::spec_get(entries, key, (n - 1) as nat) {
                Some(found) => Some(found),
                None => if entries[n - 1].0@ == key {
                    Some(entries[n - 1].1)
                } else {
                    None
                },
            }
        }
    }

    /// The value of the first entry of an object with the given key.
    pub open spec fn spec_field(entries: Seq<(String, Json)>, key: Seq<char>) -> Option<Json> {
        Json::spec_get(entries, key, entries.len())
    }

    /// The value as a signed integer, if it is a number that is one.
    pub fn as_i64(&self) -> (r: Option<i64>)
        ensures
            r == self.spec_as_i64(),
    {
        match self {
            Json::Number(number) => number.as_i64(),
            _ => None,
        }
    }

    /// The value as an unsigned integer, if it is a number that is one.
    pub fn as_u64(&self) -> (r: Option<u64>)
        ensures
            r == self.spec_as_u64(),
    {
        match self {
            Json::Number(number) => number.as_u64(),
            _ => None,
        }
    }

    /// The value as a text, if it is a string.
    pub fn as_str(&self) -> (r: Option<&str>)
        ensures
            match self.spec_as_str() {
                Some(text) => r matches Some(found) && found@ == text,
                None => r is None,
            },
    {
        match self {
            Json::String(text) => Some(text.as_str()),
            _ => None,
        }
    }

    /// The value of the first entry of an object with the given key.
    pub fn field<'a>(entries: &'a Vec<(String, Json)>, key: &str) -> (r: Option<&'a Json>)
        ensures
            match Json::spec_field(entries@, key@) {
                Some(found) => r == Some(&found),
                None => r is None,
            },
    {
        let mut i: usize = 0;
        while i < entries.len()
            invariant
                i <= entries@.len(),
                Json::spec_get(entries@, key@, i as nat) is None,
            decreases entries.len() - i,
        {
            if str_eq(entries[i].0.as_str(), key) {
                proof {
                    lemma_get_found(entries@, key@, (i + 1) as nat, entries@.len());
                }
                return Some(&entries[i].1);
            }
            i += 1;
        }
        None
    }
}

/// A key found among the first entries of an object is found among all of
/// them, with the same value.
pub proof fn lemma_get_found(entries: Seq<(String, Json)>, key: Seq<char>, n: nat, m: nat)
    requires
        n <= m <= entries.len(),
        Json::spec_get(entries, key, n) is Some,
    ensures
        Json::spec_get(entries, key, m) == Json::spec_get(entries, key, n),
    decreases m,
{
    if n < m {
        lemma_get_found(entries, key, n, (m - 1) as nat);
    }
}

/// The number that the first `n` characters of a text write in decimal. A
/// character that is no digit counts as a zero.
pub open spec fn spec_number(s: Seq<char>, n: nat) -> nat
    decreases n,
{
    if n == 0 || n > s.len() {
        0
    } else {
        10 * spec_number(s, (n - 1) as nat) + match spec_digit_value(s[n - 1]) {
            Some(d) => d as nat,
            None => 0,
        }
    }
}

/// Whether a text holds decimal digits and nothing else.
pub open spec fn spec_all_digits(s: Seq<char>) -> bool {
    forall|i: int| 0 <= i < s.len() ==> spec_digit_value(#[trigger] s[i]) is Some
}

/// The number from 0 to 255 that a text writes in decimal digits.
pub open spec fn spec_small_number(s: Seq<char>) -> Option<u8> {
    if spec_all_digits(s) && spec_number(s, s.len()) <= 255 {
        Some(spec_number(s, s.len()) as u8)
    } else {
        None
    }
}

/// The place of the first `/` in a text; its length if it has none.
pub open spec fn spec_slash(s: Seq<char>) -> nat
    decreases s.len(),
{
    if s.len() == 0 {
        0
    } else if s[0] == '/' {
        0
    } else {
        1 + spec_slash(s.drop_first())
    }
}

/// The factor that a key of a notes object stands for, as numerator and
/// denominator: digits, or digits, `/` and digits. Either may be up to 255;
/// a numerator may be left out and is then 1. The denominator is 1 where
/// the key has no `/`, and never 0.
pub open spec fn spec_parse_specifier(key: Seq<char>) -> Option<(u8, u8)> {
    let at = spec_slash(key) as int;
    let head = key.subrange(0, at);
    let numerator = if head.len() == 0 {
        Some(1u8)
    } else {
        spec_small_number(head)
    };
    let denominator = if at == key.len() {
        Some(1u8)
    } else if at + 1 == key.len() {
        None
    } else {
        spec_small_number(key.subrange(at + 1, key.len() as int))
    };
    match (numerator, denominator) {
        (Some(numerator), Some(denominator)) => if denominator == 0 {
            None
        } else {
            Some((numerator, denominator))
        },
        _ => None,
    }
}

/// The duration of the notes under a key of a notes object: the duration
/// around them times the factor of the key. A key that is no factor is
/// refused, and so is a duration that does not fit in a byte before the
/// division.
pub open spec fn spec_scaled_duration(duration: u8, key: Seq<char>) -> Result<u8, Seq<char>> {
    match spec_parse_specifier(key) {
        None => Err("Invalid duration specifier: "@ + key),
        Some((numerator, denominator)) => if duration * numerator > 255 {
            Err("Duration out of range: "@ + key)
        } else {
            Ok((duration * numerator / (denominator as int)) as u8)
        },
    }
}

/// The number that a stretch of a text writes does not shrink as the
/// stretch grows.
pub proof fn lemma_number_grows(s: Seq<char>, n: nat, m: nat)
    requires
        n <= m <= s.len(),
    ensures
        spec_number(s, n) <= spec_number(s, m),
    decreases m,
{
    if n < m {
        lemma_number_grows(s, n, (m - 1) as nat);
    }
}

/// A place before which a text has no `/`, and at which it has one or
/// ends, is the place of its first `/`.
pub proof fn lemma_slash_found(s: Seq<char>, at: nat)
    requires
        at <= s.len(),
        forall|i: int| 0 <= i < at ==> s[i] != '/',
        at < s.len() ==> s[at as int] == '/',
    ensures
        spec_slash(s) == at,
    decreases s.len(),
{
    if at > 0 {
        let rest = s.drop_first();
        assert forall|i: int| 0 <= i < at - 1 implies rest[i] != '/' by {
            assert(rest[i] == s[i + 1]);
        }
        lemma_slash_found(rest, (at - 1) as nat);
    }
}

/// Reads the number from 0 to 255 that a stretch of a text writes.
fn small_number(s: &str, from: usize, to: usize) -> (r: Option<u8>)
    requires
        from <= to <= s@.len(),
    ensures
        r == spec_small_number(s@.subrange(from as int, to as int)),
{
    let ghost digits = s@.subrange(from as int, to as int);
    let mut value: u32 = 0;
    let mut i: usize = from;
    while i < to
        invariant
            from <= i <= to <= s@.len(),
            digits == s@.subrange(from as int, to as int),
            value == spec_number(digits, (i - from) as nat),
            value <= 255,
            forall|j: int| 0 <= j < i - from ==> spec_digit_value(#[trigger] digits[j]) is Some,
        decreases to - i,
    {
        match digit_value(s.get_char(i)) {
            None => {
                assert(spec_digit_value(digits[i - from]) is None);
                return None;
            },
            Some(d) => {
                value = value * 10 + d as u32;
                if value > 255 {
                    proof {
                        lemma_number_grows(digits, (i - from + 1) as nat, digits.len());
                    }
                    return None;
                }
            },
        }
        i += 1;
    }
    Some(value as u8)
}

/// Scales a duration by the factor that a key of a notes object stands for.
fn scaled_duration(duration: u8, key: &str) -> (r: Result<u8, String>)
    ensures
        match spec_scaled_duration(duration, key@) {
            Ok(scaled) => r == Ok::<u8, String>(scaled),
            Err(message) => r matches Err(e) && e@ == message,
        },
{
    let len = key.unicode_len();
    let mut at: usize = 0;
    while at < len && key.get_char(at) != '/'
        invariant
            at <= len,
            len == key@.len(),
            forall|i: int| 0 <= i < at ==> key@[i] != '/',
        decreases len - at,
    {
        at += 1;
    }
    proof {
        lemma_slash_found(key@, at as nat);
    }
    let numerator = if at == 0 {
        Some(1u8)
    } else {
        small_number(key, 0, at)
    };
    let denominator = if at == len {
        Some(1u8)
    } else if at + 1 == len {
        None
    } else {
        small_number(key, at + 1, len)
    };
    match (numerator, denominator) {
        (Some(numerator), Some(denominator)) => {
            if denominator == 0 {
                return Err(joined("Invalid duration specifier: ", key));
            }
            assert(duration * numerator <= 255 * 255) by (nonlinear_arith)
                requires
                    0 <= duration <= 255,
                    0 <= numerator <= 255,
            ;
            let product: u32 = duration as u32 * numerator as u32;
            if product > 255 {
                return Err(joined("Duration out of range: ", key));
            }
            Ok((product / denominator as u32) as u8)
        },
        _ => Err(joined("Invalid duration specifier: ", key)),
    }
}

/// The notes that a JSON value stands for, each of the given duration
/// unless an object or an array within an array changes it.
///
/// A number is a note at that position; `true` is a note at the first
/// degree; `false`, `null` and the empty string are rests. The notes of an
/// array follow one another, and so do those under the keys of an object.
pub open spec fn spec_parse_notes(json: Json, duration: u8, halve_array: bool) -> Result<
    Seq<TimedNote>,
    Seq<char>,
>
    decreases json, 0nat,
{
    match json {
        Json::Number(number) => match number.spec_as_i64() {
            None => Err("Note value must be int!"@),
            Some(position) => if -128 <= position <= 127 {
                Ok(seq![(Some(position as i8), duration)])
            } else {
                Err("Could not cast note value to i8!"@)
            },
        },
        Json::Bool(sounds) => Ok(
            seq![
                (
                    if sounds {
                        Some(0i8)
                    } else {
                        None
                    },
                    duration,
                ),
            ],
        ),
        Json::String(text) => if text@.len() == 0 {
            Ok(seq![(None, duration)])
        } else {
            Err("Only an empty string can be used to signify a silence!"@)
        },
        Json::Null => Ok(seq![(None, duration)]),
        Json::Array(items) => spec_parse_notes_array(
            items,
            if halve_array {
                duration / 2
            } else {
                duration
            },
            items@.len(),
        ),
        Json::Object(entries) => spec_parse_notes_object(entries, duration, entries@.len()),
    }
}

/// The notes of the first `n` items of an array. The first item that is
/// refused decides the error.
pub open spec fn spec_parse_notes_array(items: Vec<Json>, duration: u8, n: nat) -> Result<
    Seq<TimedNote>,
    Seq<char>,
>
    decreases items, n,
{
    if n == 0 || n > items@.len() {
        Ok(Seq::empty())
    } else {
        match spec_parse_notes_array(items, duration, (n - 1) as nat) {
            Err(message) => Err(message),
            Ok(before) => match spec_parse_notes(items@[n - 1], duration, true) {
                Err(message) => Err(message),
                Ok(deeper) => Ok(before + deeper),
            },
        }
    }
}

/// The notes of the first `n` entries of an object, each entry with the
/// duration that its key gives. The first entry that is refused decides the
/// error.
pub open spec fn spec_parse_notes_object(
    entries: Vec<(String, Json)>,
    duration: u8,
    n: nat,
) -> Result<Seq<TimedNote>, Seq<char>>
    decreases entries, n,
{
    if n == 0 || n > entries@.len() {
        Ok(Seq::empty())
    } else {
        match spec_parse_notes_object(entries, duration, (n - 1) as nat) {
            Err(message) => Err(message),
            Ok(before) => match spec_scaled_duration(duration, entries@[n - 1].0@) {
                Err(message) => Err(message),
                Ok(scaled) => match spec_parse_notes(entries@[n - 1].1, scaled, false) {
                    Err(message) => Err(message),
                    Ok(deeper) => Ok(before + deeper),
                },
            },
        }
    }
}

/// Reads the notes that a JSON value stands for. `halve_array` says that
/// the value is an item of an array, whose own arrays are half as long.
fn parse_voice_notes_recursive(json: &Json, duration: u8, halve_array: bool) -> (r: Result<
    Vec<TimedNote>,
    String,
>)
    ensures
        spec_is(r, spec_parse_notes(*json, duration, halve_array)),
    decreases json,
{
    let mut notes: Vec<TimedNote> = Vec::new();
    match json {
        Json::Number(number) => {
            let position = match number.as_i64() {
                Some(position) => position,
                None => return Err("Note value must be int!".to_owned()),
            };
            if position < -128 || position > 127 {
                return Err("Could not cast note value to i8!".to_owned());
            }
            notes.push((Some(position as i8), duration));
        },
        Json::Bool(sounds) => {
            let note = if *sounds {
                Some(0)
            } else {
                None
            };
            notes.push((note, duration));
        },
        Json::String(text) => {
            if text.as_str().unicode_len() != 0 {
                return Err(
                    "Only an empty string can be used to signify a silence!".to_owned(),
                );
            }
            notes.push((None, duration));
        },
        Json::Null => {
            notes.push((None, duration));
        },
        Json::Array(items) => {
            let item_duration = if halve_array {
                duration / 2
            } else {
                duration
            };
            let mut i: usize = 0;
            while i < items.len()
                invariant
                    i <= items@.len(),
                    *json == Json::Array(*items),
                    item_duration == if halve_array {
                        duration / 2
                    } else {
                        duration
                    },
                    spec_parse_notes_array(*items, item_duration, i as nat) == Ok::<
                        Seq<TimedNote>,
                        Seq<char>,
                    >(notes@),
                decreases items.len() - i,
            {
                let mut notes_deeper = match parse_voice_notes_recursive(
                    &items[i],
                    item_duration,
                    true,
                ) {
                    Ok(notes_deeper) => notes_deeper,
                    Err(e) => {
                        proof {
                            lemma_array_error_stays(
                                *items,
                                item_duration,
                                (i + 1) as nat,
                                items@.len(),
                            );
                        }
                        return Err(e);
                    },
                };
                notes.append(&mut notes_deeper);
                i += 1;
            }
        },
        Json::Object(entries) => {
            let mut i: usize = 0;
            while i < entries.len()
                invariant
                    i <= entries@.len(),
                    *json == Json::Object(*entries),
                    spec_parse_notes_object(*entries, duration, i as nat) == Ok::<
                        Seq<TimedNote>,
                        Seq<char>,
                    >(notes@),
                decreases entries.len() - i,
            {
                let scaled = match scaled_duration(duration, entries[i].0.as_str()) {
                    Ok(scaled) => scaled,
                    Err(e) => {
                        proof {
                            lemma_object_error_stays(
                                *entries,
                                duration,
                                (i + 1) as nat,
                                entries@.len(),
                            );
                        }
                        return Err(e);
                    },
                };
                let mut notes_deeper = match parse_voice_notes_recursive(
                    &entries[i].1,
                    scaled,
                    false,
                ) {
                    Ok(notes_deeper) => notes_deeper,
                    Err(e) => {
                        proof {
                            lemma_object_error_stays(
                                *entries,
                                duration,
                                (i + 1) as nat,
                                entries@.len(),
                            );
                        }
                        return Err(e);
                    },
                };
                notes.append(&mut notes_deeper);
                i += 1;
            }
        },
    };
    Ok(notes)
}

/// An error among the first items of an array is the error of the array.
pub proof fn lemma_array_error_stays(items: Vec<Json>, duration: u8, n: nat, m: nat)
    requires
        n <= m <= items@.len(),
        spec_parse_notes_array(items, duration, n) is Err,
    ensures
        spec_parse_notes_array(items, duration, m) == spec_parse_notes_array(items, duration, n),
    decreases m,
{
    if n < m {
        lemma_array_error_stays(items, duration, n, (m - 1) as nat);
    }
}

/// An error among the first entries of an object is the error of the
/// object.
pub proof fn lemma_object_error_stays(
    entries: Vec<(String, Json)>,
    duration: u8,
    n: nat,
    m: nat,
)
    requires
        n <= m <= entries@.len(),
        spec_parse_notes_object(entries, duration, n) is Err,
    ensures
        spec_parse_notes_object(entries, duration, m) == spec_parse_notes_object(
            entries,
            duration,
            n,
        ),
    decreases m,
{
    if n < m {
        lemma_object_error_stays(entries, duration, n, (m - 1) as nat);
    }
}

/// Whether a result is the one that was specified: a value with the
/// specified view, or the specified message.
pub open spec fn spec_is<T: View>(r: Result<T, String>, expected: Result<T::V, Seq<char>>) -> bool {
    match expected {
        Ok(value) => r matches Ok(found) && found@ == value,
        Err(message) => r matches Err(e) && e@ == message,
    }
}

/// The place of the first of the first `n` entries that has the given key.
pub open spec fn spec_position<T>(entries: Seq<(Seq<char>, T)>, key: Seq<char>, n: nat) -> Option<
    int,
>
    decreases n,
{
    if n == 0 || n > entries.len() {
        None
    } else {
        match spec_position(entries, key, (n - 1) as nat) {
            Some(at) => Some(at),
            None => if entries[n - 1].0 == key {
                Some(n - 1)
            } else {
                None
            },
        }
    }
}

/// The entries after a value has been put in under a key: in the place of
/// the entry that had the key, or after all the others if none had it.
pub open spec fn spec_inserted<T>(entries: Seq<(Seq<char>, T)>, key: Seq<char>, value: T) -> Seq<
    (Seq<char>, T),
> {
    match spec_position(entries, key, entries.len()) {
        Some(at) => entries.update(at, (key, value)),
        None => entries.push((key, value)),
    }
}

/// `indexmap::IndexMap`, a map that keeps its entries in the order in which
/// their keys were first put in. What it holds is known through
/// `index_map_entries` alone.
#[verifier::external_type_specification]
#[verifier::external_body]
#[verifier::reject_recursive_types(K)]
#[verifier::reject_recursive_types(V)]
#[verifier::reject_recursive_types(S)]
pub struct ExIndexMap<K, V, S>(IndexMap<K, V, S>);

/// The keys and values that an `indexmap::IndexMap` holds, in its order,
/// each key as its characters.
pub uninterp spec fn index_map_entries(map: IndexMap<String, AnyTrack>) -> Seq<
    (Seq<char>, AnyTrack),
>;

/// `IndexMap::new`: a map without entries.
#[verifier::external_body]
fn index_map_new() -> (map: IndexMap<String, AnyTrack>)
    ensures
        index_map_entries(map) == Seq::<(Seq<char>, AnyTrack)>::empty(),
{
    IndexMap::new()
}

/// `IndexMap::get`: the value of the entry with an equal key, if the map
/// has one. No two entries of a map have equal keys.
#[verifier::external_body]
fn index_map_get<'a>(map: &'a IndexMap<String, AnyTrack>, key: &str) -> (r: Option<&'a AnyTrack>)
    ensures
        match spec_position(index_map_entries(*map), key@, index_map_entries(*map).len()) {
            Some(at) => r == Some(&index_map_entries(*map)[at].1),
            None => r is None,
        },
{
    map.get(key)
}

/// `IndexMap::insert`: where the map has an entry with an equal key, that
/// entry keeps its place and gets the new value; where it has none, the new
/// entry comes last.
#[verifier::external_body]
fn index_map_insert(map: &mut IndexMap<String, AnyTrack>, key: String, value: AnyTrack)
    ensures
        index_map_entries(*final(map)) == spec_inserted(
            index_map_entries(*old(map)),
            key@,
            value,
        ),
{
    map.insert(key, value);
}

/// `IndexMap::into_values`, collected into a vector: the values in the
/// order of the map.
#[verifier::external_body]
fn index_map_into_values(map: IndexMap<String, AnyTrack>) -> (values: Vec<AnyTrack>)
    ensures
        values@ == Seq::new(
            index_map_entries(map).len(),
            |i: int| index_map_entries(map)[i].1,
        ),
{
    map.into_values().collect()
}

/// The tracks read so far, each under its id, as the tracks after them see
/// them.
pub open spec fn spec_known(entries: Seq<(Seq<char>, AnyTrack)>) -> Seq<(Seq<char>, TrackView)> {
    Seq::new(entries.len(), |i: int| (entries[i].0, entries[i].1@))
}

/// The keys decide the place at which a key is found.
pub proof fn lemma_position_of_known(entries: Seq<(Seq<char>, AnyTrack)>, key: Seq<char>, n: nat)
    requires
        n <= entries.len(),
    ensures
        spec_position(spec_known(entries), key, n) == spec_position(entries, key, n),
        spec_position(entries, key, n) matches Some(at) ==> 0 <= at < n,
    decreases n,
{
    if n > 0 {
        lemma_position_of_known(entries, key, (n - 1) as nat);
    }
}

/// The start of the track among the first `n` entries of a start object:
/// each entry names an earlier track and a number of beats after its
/// start. The last entry decides; the first that is refused decides the
/// error.
pub open spec fn spec_parse_track_start_entries(
    entries: Seq<(String, Json)>,
    known: Seq<(Seq<char>, TrackView)>,
    n: nat,
) -> Result<Option<u32>, Seq<char>>
    decreases n,
{
    if n == 0 || n > entries.len() {
        Ok(None)
    } else {
        match spec_parse_track_start_entries(entries, known, (n - 1) as nat) {
            Err(message) => Err(message),
            Ok(_) => match spec_position(known, entries[n - 1].0@, known.len()) {
                None => Err("Invalid reference track!"@),
                Some(at) => match entries[n - 1].1.spec_as_i64() {
                    None => Err("Offset to reference track must be int!"@),
                    Some(offset) => if 0 <= known[at].1.start() + offset <= u32::MAX {
                        Ok(Some((known[at].1.start() + offset) as u32))
                    } else {
                        Err("Could not cast start to u32!"@)
                    },
                },
            },
        }
    }
}

/// The beat on which a track starts: a number that is not negative, or an
/// object that refers to an earlier track.
pub open spec fn spec_parse_track_start(json: Json, known: Seq<(Seq<char>, TrackView)>) -> Result<
    u32,
    Seq<char>,
> {
    match json {
        Json::Number(number) => match number.spec_as_u64() {
            None => Err("Voice start should be a uint!"@),
            Some(start) => if start <= u32::MAX {
                Ok(start as u32)
            } else {
                Err("Could not cast track start to u8!"@)
            },
        },
        Json::Object(entries) => match spec_parse_track_start_entries(
            entries@,
            known,
            entries@.len(),
        ) {
            Err(message) => Err(message),
            Ok(None) => Err("Empty object!"@),
            Ok(Some(start)) => Ok(start),
        },
        _ => Err("start should be int or Json object!"@),
    }
}

/// An error among the first entries of a start object is the error of the
/// object.
pub proof fn lemma_start_error_stays(
    entries: Seq<(String, Json)>,
    known: Seq<(Seq<char>, TrackView)>,
    n: nat,
    m: nat,
)
    requires
        n <= m <= entries.len(),
        spec_parse_track_start_entries(entries, known, n) is Err,
    ensures
        spec_parse_track_start_entries(entries, known, m) == spec_parse_track_start_entries(
            entries,
            known,
            n,
        ),
    decreases m,
{
    if n < m {
        lemma_start_error_stays(entries, known, n, (m - 1) as nat);
    }
}

/// Reads the beat on which a track starts; `tracks_by_id` holds the tracks
/// before it.
fn parse_track_start(track_start_json: &Json, tracks_by_id: &IndexMap<String, AnyTrack>) -> (r:
    Result<u32, String>)
    ensures
        spec_is(
            r,
            spec_parse_track_start(*track_start_json, spec_known(index_map_entries(*tracks_by_id))),
        ),
{
    let ghost known = spec_known(index_map_entries(*tracks_by_id));
    match track_start_json {
        Json::Number(start) => {
            let start = match start.as_u64() {
                Some(start) => start,
                None => return Err("Voice start should be a uint!".to_owned()),
            };
            if start > u32::MAX as u64 {
                return Err("Could not cast track start to u8!".to_owned());
            }
            Ok(start as u32)
        },
        Json::Object(map_track_start) => {
            let mut track_start: Option<u32> = None;
            let mut i: usize = 0;
            while i < map_track_start.len()
                invariant
                    i <= map_track_start@.len(),
                    *track_start_json == Json::Object(*map_track_start),
                    known == spec_known(index_map_entries(*tracks_by_id)),
                    spec_parse_track_start_entries(map_track_start@, known, i as nat) == Ok::<
                        Option<u32>,
                        Seq<char>,
                    >(track_start),
                decreases map_track_start.len() - i,
            {
                let key = map_track_start[i].0.as_str();
                let value = &map_track_start[i].1;
                proof {
                    lemma_position_of_known(
                        index_map_entries(*tracks_by_id),
                        key@,
                        index_map_entries(*tracks_by_id).len(),
                    );
                }
                let reference_track = match index_map_get(tracks_by_id, key) {
                    Some(reference_track) => reference_track,
                    None => {
                        proof {
                            lemma_start_error_stays(
                                map_track_start@,
                                known,
                                (i + 1) as nat,
                                map_track_start@.len(),
                            );
                        }
                        return Err("Invalid reference track!".to_owned());
                    },
                };
                let offset = match value.as_i64() {
                    Some(offset) => offset,
                    None => {
                        proof {
                            lemma_start_error_stays(
                                map_track_start@,
                                known,
                                (i + 1) as nat,
                                map_track_start@.len(),
                            );
                        }
                        return Err("Offset to reference track must be int!".to_owned());
                    },
                };
                let offset: i128 = *reference_track.get_start() as i128 + offset as i128;
                if offset < 0 || offset > u32::MAX as i128 {
                    proof {
                        lemma_start_error_stays(
                            map_track_start@,
                            known,
                            (i + 1) as nat,
                            map_track_start@.len(),
                        );
                    }
                    return Err("Could not cast start to u32!".to_owned());
                }
                track_start = Some(offset as u32);
                i += 1;
            }
            if let Some(track_start) = track_start {
                Ok(track_start)
            } else {
                Err("Empty object!".to_owned())
            }
        },
        _ => Err("start should be int or Json object!".to_owned()),
    }
}

/// The text under a key of an object; one message where the key is
/// missing, another where its value is no string.
pub open spec fn spec_string_field(
    entries: Seq<(String, Json)>,
    key: Seq<char>,
    missing: Seq<char>,
    wrong: Seq<char>,
) -> Result<Seq<char>, Seq<char>> {
    match Json::spec_field(entries, key) {
        None => Err(missing),
        Some(value) => match value.spec_as_str() {
            None => Err(wrong),
            Some(text) => Ok(text),
        },
    }
}

/// The small integer under a key of an object; one message where the key
/// is missing, another where its value is no integer, a third where the
/// integer does not fit.
pub open spec fn spec_i8_field(
    entries: Seq<(String, Json)>,
    key: Seq<char>,
    missing: Seq<char>,
    wrong: Seq<char>,
    too_large: Seq<char>,
) -> Result<i8, Seq<char>> {
    match Json::spec_field(entries, key) {
        None => Err(missing),
        Some(value) => match value.spec_as_i64() {
            None => Err(wrong),
            Some(number) => if -128 <= number <= 127 {
                Ok(number as i8)
            } else {
                Err(too_large)
            },
        },
    }
}

/// The scale of a track, read from the text under `scale`.
pub open spec fn spec_scale_field(entries: Seq<(String, Json)>) -> Result<ScaleView, Seq<char>> {
    match spec_string_field(
        entries,
        "scale"@,
        "scale missing!"@,
        "scale should be string!"@,
    ) {
        Err(message) => Err(message),
        Ok(text) => match Scale::spec_parse(text) {
            None => Err("Invalid scale:"@ + text),
            Some((start, offsets)) => Ok(Scale::spec_view_of(start, offsets)),
        },
    }
}

/// The octave of a track.
pub open spec fn spec_octave_field(entries: Seq<(String, Json)>) -> Result<i8, Seq<char>> {
    spec_i8_field(
        entries,
        "octave"@,
        "octave missing!"@,
        "octave should be int!"@,
        "Could not convert octave to i8!"@,
    )
}

/// The start of a track.
pub open spec fn spec_start_field(
    entries: Seq<(String, Json)>,
    known: Seq<(Seq<char>, TrackView)>,
) -> Result<u32, Seq<char>> {
    match Json::spec_field(entries, "start"@) {
        None => Err("start missing!"@),
        Some(start) => spec_parse_track_start(start, known),
    }
}

/// The notes of a track, each a beat long unless the notes say otherwise.
pub open spec fn spec_notes_field(entries: Seq<(String, Json)>) -> Result<
    Seq<TimedNote>,
    Seq<char>,
> {
    match Json::spec_field(entries, "notes"@) {
        None => Err("notes missing!"@),
        Some(notes) => spec_parse_notes(notes, TICKS_PER_BEAT, false),
    }
}

/// The voice that an object describes. Its parts are read in the order id,
/// scale, octave, start, notes, and the first that is refused decides the
/// error.
pub open spec fn spec_parse_voice(
    entries: Seq<(String, Json)>,
    known: Seq<(Seq<char>, TrackView)>,
) -> Result<VoiceView, Seq<char>> {
    match spec_string_field(entries, "id"@, "id missing!"@, "id should be string!"@) {
        Err(message) => Err(message),
        Ok(id) => match spec_scale_field(entries) {
            Err(message) => Err(message),
            Ok(scale) => match spec_octave_field(entries) {
                Err(message) => Err(message),
                Ok(octave) => match spec_start_field(entries, known) {
                    Err(message) => Err(message),
                    Ok(start) => match spec_notes_field(entries) {
                        Err(message) => Err(message),
                        Ok(notes) => Ok(VoiceView { id, scale, octave, start, notes }),
                    },
                },
            },
        },
    }
}

/// The items of the shape of a chord.
pub open spec fn spec_chord_field(entries: Seq<(String, Json)>) -> Result<Seq<Json>, Seq<char>> {
    match Json::spec_field(entries, "chord"@) {
        None => Err("start missing!"@),
        Some(Json::Array(items)) => Ok(items@),
        Some(_) => Err("chord should be array!"@),
    }
}

/// The positions that the first `n` items of the shape of a chord stand
/// for.
pub open spec fn spec_chord_positions(items: Seq<Json>, n: nat) -> Result<Seq<i8>, Seq<char>>
    decreases n,
{
    if n == 0 || n > items.len() {
        Ok(Seq::empty())
    } else {
        match spec_chord_positions(items, (n - 1) as nat) {
            Err(message) => Err(message),
            Ok(before) => match items[n - 1].spec_as_i64() {
                None => Err("each chord value should be int!"@),
                Some(position) => if -128 <= position <= 127 {
                    Ok(before.push(position as i8))
                } else {
                    Err("Could not convert chord value to i8!"@)
                },
            },
        }
    }
}

/// The strokes of a chord: each note of its notes is a stroke, each rest a
/// silence.
pub open spec fn spec_strokes(notes: Seq<TimedNote>) -> Seq<(bool, u8)> {
    Seq::new(notes.len(), |i: int| (notes[i].0 is Some, notes[i].1))
}

/// The chord that an object describes. Its parts are read in the order id,
/// scale, octave, chord, start, then the positions of the chord and the
/// notes, and the first that is refused decides the error.
pub open spec fn spec_parse_chord(
    entries: Seq<(String, Json)>,
    known: Seq<(Seq<char>, TrackView)>,
) -> Result<ChordView, Seq<char>> {
    match spec_string_field(entries, "id"@, "id missing!"@, "id should be string!"@) {
        Err(message) => Err(message),
        Ok(id) => match spec_scale_field(entries) {
            Err(message) => Err(message),
            Ok(scale) => match spec_octave_field(entries) {
                Err(message) => Err(message),
                Ok(octave) => match spec_chord_field(entries) {
                    Err(message) => Err(message),
                    Ok(items) => match spec_start_field(entries, known) {
                        Err(message) => Err(message),
                        Ok(start) => match spec_chord_positions(items, items.len()) {
                            Err(message) => Err(message),
                            Ok(chord) => match spec_notes_field(entries) {
                                Err(message) => Err(message),
                                Ok(notes) => Ok(
                                    ChordView {
                                        id,
                                        scale,
                                        chord,
                                        octave,
                                        start,
                                        notes: spec_strokes(notes),
                                    },
                                ),
                            },
                        },
                    },
                },
            },
        },
    }
}

/// The track that a JSON value describes: an object whose `type` is
/// `voice` or `chord`.
pub open spec fn spec_parse_track(json: Json, known: Seq<(Seq<char>, TrackView)>) -> Result<
    TrackView,
    Seq<char>,
> {
    match json {
        Json::Object(entries) => match spec_string_field(
            entries@,
            "type"@,
            "type missing!"@,
            "type shoudl be string!"@,
        ) {
            Err(message) => Err(message),
            Ok(kind) => if kind == "voice"@ {
                match spec_parse_voice(entries@, known) {
                    Err(message) => Err(message),
                    Ok(voice) => Ok(TrackView::Voice(voice)),
                }
            } else if kind == "chord"@ {
                match spec_parse_chord(entries@, known) {
                    Err(message) => Err(message),
                    Ok(chord) => Ok(TrackView::Chord(chord)),
                }
            } else {
                Err("Invalid track type!"@)
            },
        },
        _ => Err("Each track should be a JSON object!"@),
    }
}

/// The tracks that the first `n` items of the array of tracks describe,
/// each under its id. A track takes the place of an earlier one with the
/// same id; any other comes after those before it. A track can refer to
/// the tracks before it, and the first that is refused decides the error.
pub open spec fn spec_parse_tracks(items: Seq<Json>, n: nat) -> Result<
    Seq<(Seq<char>, TrackView)>,
    Seq<char>,
>
    decreases n,
{
    if n == 0 || n > items.len() {
        Ok(Seq::empty())
    } else {
        match spec_parse_tracks(items, (n - 1) as nat) {
            Err(message) => Err(message),
            Ok(known) => match spec_parse_track(items[n - 1], known) {
                Err(message) => Err(message),
                Ok(track) => Ok(spec_inserted(known, track.id(), track)),
            },
        }
    }
}

/// The tempo of a piece, from 0 to 255 beats per minute.
pub open spec fn spec_bpm_field(entries: Seq<(String, Json)>) -> Result<u8, Seq<char>> {
    match Json::spec_field(entries, "bpm"@) {
        None => Err("bpm missing!"@),
        Some(bpm) => match bpm.spec_as_u64() {
            None => Err("bpm must be uint!"@),
            Some(bpm) => if bpm <= 255 {
                Ok(bpm as u8)
            } else {
                Err("Could not cast bpm to u8!"@)
            },
        },
    }
}

/// The items of the array of tracks of a piece.
pub open spec fn spec_tracks_field(entries: Seq<(String, Json)>) -> Result<Seq<Json>, Seq<char>> {
    match Json::spec_field(entries, "tracks"@) {
        None => Err("tracks missing!"@),
        Some(Json::Array(items)) => Ok(items@),
        Some(_) => Err("tracks should be an array!"@),
    }
}

/// The piece that a JSON value describes: an object with the tempo `bpm`
/// and the array `tracks`.
pub open spec fn spec_parse_piece(json: Json) -> Result<PieceView, Seq<char>> {
    match json {
        Json::Object(entries) => match spec_bpm_field(entries@) {
            Err(message) => Err(message),
            Ok(bpm) => match spec_tracks_field(entries@) {
                Err(message) => Err(message),
                Ok(items) => match spec_parse_tracks(items, items.len()) {
                    Err(message) => Err(message),
                    Ok(known) => Ok(
                        PieceView { bpm, tracks: Seq::new(known.len(), |i: int| known[i].1) },
                    ),
                },
            },
        },
        _ => Err("JSON should be an object!"@),
    }
}

fn string_field<'a>(
    entries: &'a Vec<(String, Json)>,
    key: &str,
    missing: &str,
    wrong: &str,
) -> (r: Result<&'a str, String>)
    ensures
        spec_is(r, spec_string_field(entries@, key@, missing@, wrong@)),
{
    match Json::field(entries, key) {
        None => Err(missing.to_owned()),
        Some(value) => match value.as_str() {
            None => Err(wrong.to_owned()),
            Some(text) => Ok(text),
        },
    }
}

fn i8_field(
    entries: &Vec<(String, Json)>,
    key: &str,
    missing: &str,
    wrong: &str,
    too_large: &str,
) -> (r: Result<i8, String>)
    ensures
        spec_is(r, spec_i8_field(entries@, key@, missing@, wrong@, too_large@)),
{
    match Json::field(entries, key) {
        None => Err(missing.to_owned()),
        Some(value) => match value.as_i64() {
            None => Err(wrong.to_owned()),
            Some(number) => if -128 <= number && number <= 127 {
                Ok(number as i8)
            } else {
                Err(too_large.to_owned())
            },
        },
    }
}

fn scale_field(entries: &Vec<(String, Json)>) -> (r: Result<Scale, String>)
    ensures
        spec_is(r, spec_scale_field(entries@)),
{
    let scale = string_field(entries, "scale", "scale missing!", "scale should be string!")?;
    Scale::parse(scale)
}

fn octave_field(entries: &Vec<(String, Json)>) -> (r: Result<i8, String>)
    ensures
        spec_is(r, spec_octave_field(entries@)),
{
    i8_field(
        entries,
        "octave",
        "octave missing!",
        "octave should be int!",
        "Could not convert octave to i8!",
    )
}

fn start_field(entries: &Vec<(String, Json)>, tracks_by_id: &IndexMap<String, AnyTrack>) -> (r:
    Result<u32, String>)
    ensures
        spec_is(r, spec_start_field(entries@, spec_known(index_map_entries(*tracks_by_id)))),
{
    match Json::field(entries, "start") {
        None => Err("start missing!".to_owned()),
        Some(start) => parse_track_start(start, tracks_by_id),
    }
}

/// Reads the notes of a track, a beat long each to start with.
fn parse_voice_notes(track_notes_json: &Json) -> (r: Result<Vec<TimedNote>, String>)
    ensures
        spec_is(r, spec_parse_notes(*track_notes_json, TICKS_PER_BEAT, false)),
{
    parse_voice_notes_recursive(track_notes_json, TICKS_PER_BEAT, false)
}

fn notes_field(entries: &Vec<(String, Json)>) -> (r: Result<Vec<TimedNote>, String>)
    ensures
        spec_is(r, spec_notes_field(entries@)),
{
    match Json::field(entries, "notes") {
        None => Err("notes missing!".to_owned()),
        Some(notes) => parse_voice_notes(notes),
    }
}

/// Reads a voice from the entries of its object.
fn parse_voice(voice_json: &Vec<(String, Json)>, tracks_by_id: &IndexMap<String, AnyTrack>) -> (r:
    Result<Voice, String>)
    ensures
        spec_is(r, spec_parse_voice(voice_json@, spec_known(index_map_entries(*tracks_by_id)))),
{
    let id = string_field(voice_json, "id", "id missing!", "id should be string!")?.to_owned();
    let scale = scale_field(voice_json)?;
    let octave = octave_field(voice_json)?;
    let start = start_field(voice_json, tracks_by_id)?;
    let notes = notes_field(voice_json)?;

    Ok(Voice { id, scale, octave, start, notes })
}

fn chord_field(entries: &Vec<(String, Json)>) -> (r: Result<&Vec<Json>, String>)
    ensures
        spec_is(r, spec_chord_field(entries@)),
{
    match Json::field(entries, "chord") {
        None => Err("start missing!".to_owned()),
        Some(Json::Array(items)) => Ok(items),
        Some(_) => Err("chord should be array!".to_owned()),
    }
}

/// An error among the first positions of a chord is the error of the
/// chord.
pub proof fn lemma_positions_error_stays(items: Seq<Json>, n: nat, m: nat)
    requires
        n <= m <= items.len(),
        spec_chord_positions(items, n) is Err,
    ensures
        spec_chord_positions(items, m) == spec_chord_positions(items, n),
    decreases m,
{
    if n < m {
        lemma_positions_error_stays(items, n, (m - 1) as nat);
    }
}

fn chord_positions(chord_array: &Vec<Json>) -> (r: Result<Vec<i8>, String>)
    ensures
        spec_is(r, spec_chord_positions(chord_array@, chord_array@.len())),
{
    let mut chord_positions: Vec<i8> = Vec::new();
    let mut i: usize = 0;
    while i < chord_array.len()
        invariant
            i <= chord_array@.len(),
            spec_chord_positions(chord_array@, i as nat) == Ok::<Seq<i8>, Seq<char>>(
                chord_positions@,
            ),
        decreases chord_array.len() - i,
    {
        let chord_position = match chord_array[i].as_i64() {
            Some(chord_position) => chord_position,
            None => {
                proof {
                    lemma_positions_error_stays(chord_array@, (i + 1) as nat, chord_array@.len());
                }
                return Err("each chord value should be int!".to_owned());
            },
        };
        if chord_position < -128 || chord_position > 127 {
            proof {
                lemma_positions_error_stays(chord_array@, (i + 1) as nat, chord_array@.len());
            }
            return Err("Could not convert chord value to i8!".to_owned());
        }
        chord_positions.push(chord_position as i8);
        i += 1;
    }
    Ok(chord_positions)
}

fn strokes(notes: &Vec<TimedNote>) -> (r: Vec<(bool, u8)>)
    ensures
        r@ == spec_strokes(notes@),
{
    let mut strokes: Vec<(bool, u8)> = Vec::new();
    let mut i: usize = 0;
    while i < notes.len()
        invariant
            i <= notes@.len(),
            strokes@ == spec_strokes(notes@).subrange(0, i as int),
        decreases notes.len() - i,
    {
        let value = notes[i];
        strokes.push((value.0.is_some(), value.1));
        i += 1;
        assert(strokes@ =~= spec_strokes(notes@).subrange(0, i as int));
    }
    assert(strokes@ =~= spec_strokes(notes@));
    strokes
}

/// Reads a chord from the entries of its object.
fn parse_chord(chord_json: &Vec<(String, Json)>, tracks_by_id: &IndexMap<String, AnyTrack>) -> (r:
    Result<Chord, String>)
    ensures
        spec_is(r, spec_parse_chord(chord_json@, spec_known(index_map_entries(*tracks_by_id)))),
{
    let id = string_field(chord_json, "id", "id missing!", "id should be string!")?.to_owned();
    let scale = scale_field(chord_json)?;
    let octave = octave_field(chord_json)?;
    let chord_array = chord_field(chord_json)?;
    let start = start_field(chord_json, tracks_by_id)?;
    let chord_positions = chord_positions(chord_array)?;
    let notes = strokes(&notes_field(chord_json)?);

    Ok(Chord { id, scale, start, octave, chord: chord_positions, notes })
}

/// Reads a track: a voice or a chord, as its `type` says.
fn parse_track(track_json: &Json, tracks_by_id: &IndexMap<String, AnyTrack>) -> (r: Result<
    AnyTrack,
    String,
>)
    ensures
        spec_is(r, spec_parse_track(*track_json, spec_known(index_map_entries(*tracks_by_id)))),
{
    let track_json = match track_json {
        Json::Object(entries) => entries,
        _ => return Err("Each track should be a JSON object!".to_owned()),
    };
    let track_type = string_field(
        track_json,
        "type",
        "type missing!",
        "type shoudl be string!",
    )?;
    if str_eq(track_type, "voice") {
        match parse_voice(track_json, tracks_by_id) {
            Ok(voice) => Ok(AnyTrack::Voice(voice)),
            Err(e) => Err(e),
        }
    } else if str_eq(track_type, "chord") {
        match parse_chord(track_json, tracks_by_id) {
            Ok(chord) => Ok(AnyTrack::Chord(chord)),
            Err(e) => Err(e),
        }
    } else {
        Err("Invalid track type!".to_owned())
    }
}

/// An error among the first tracks is the error of all the tracks.
pub proof fn lemma_tracks_error_stays(items: Seq<Json>, n: nat, m: nat)
    requires
        n <= m <= items.len(),
        spec_parse_tracks(items, n) is Err,
    ensures
        spec_parse_tracks(items, m) == spec_parse_tracks(items, n),
    decreases m,
{
    if n < m {
        lemma_tracks_error_stays(items, n, (m - 1) as nat);
    }
}

/// Putting a track in among the tracks read so far shows to the tracks
/// after it as putting in what it holds.
pub proof fn lemma_known_inserted(
    entries: Seq<(Seq<char>, AnyTrack)>,
    key: Seq<char>,
    track: AnyTrack,
)
    ensures
        spec_known(spec_inserted(entries, key, track)) == spec_inserted(
            spec_known(entries),
            key,
            track@,
        ),
{
    lemma_position_of_known(entries, key, entries.len());
    assert(spec_known(spec_inserted(entries, key, track)) =~= spec_inserted(
        spec_known(entries),
        key,
        track@,
    ));
}

fn bpm_field(entries: &Vec<(String, Json)>) -> (r: Result<u8, String>)
    ensures
        spec_is(r, spec_bpm_field(entries@)),
{
    let bpm = match Json::field(entries, "bpm") {
        Some(bpm) => bpm,
        None => return Err("bpm missing!".to_owned()),
    };
    let bpm = match bpm.as_u64() {
        Some(bpm) => bpm,
        None => return Err("bpm must be uint!".to_owned()),
    };
    if bpm > 255 {
        return Err("Could not cast bpm to u8!".to_owned());
    }
    Ok(bpm as u8)
}

fn tracks_field(entries: &Vec<(String, Json)>) -> (r: Result<&Vec<Json>, String>)
    ensures
        spec_is(r, spec_tracks_field(entries@)),
{
    match Json::field(entries, "tracks") {
        None => Err("tracks missing!".to_owned()),
        Some(Json::Array(items)) => Ok(items),
        Some(_) => Err("tracks should be an array!".to_owned()),
    }
}

/// Reads a piece from its description as a JSON value.
///
/// The parts of the description are read in order, and the first that is
/// refused decides the error; the message says what was expected. A track
/// whose id an earlier track has takes the place of that track.
pub fn parse_piece(json: &Json) -> (r: Result<Piece, String>)
    ensures
        spec_is(r, spec_parse_piece(*json)),
{
    let piece_json = match json {
        Json::Object(entries) => entries,
        _ => return Err("JSON should be an object!".to_owned()),
    };

    let bpm = bpm_field(piece_json)?;
    let tracks_json = tracks_field(piece_json)?;

    let mut tracks_by_id = index_map_new();
    assert(spec_known(index_map_entries(tracks_by_id)) =~= Seq::<
        (Seq<char>, TrackView),
    >::empty());

    let mut i: usize = 0;
    while i < tracks_json.len()
        invariant
            i <= tracks_json@.len(),
            *json == Json::Object(*piece_json),
            spec_bpm_field(piece_json@) == Ok::<u8, Seq<char>>(bpm),
            spec_tracks_field(piece_json@) == Ok::<Seq<Json>, Seq<char>>(tracks_json@),
            spec_parse_tracks(tracks_json@, i as nat) == Ok::<
                Seq<(Seq<char>, TrackView)>,
                Seq<char>,
            >(spec_known(index_map_entries(tracks_by_id))),
        decreases tracks_json.len() - i,
    {
        let track = match parse_track(&tracks_json[i], &tracks_by_id) {
            Ok(track) => track,
            Err(e) => {
                proof {
                    lemma_tracks_error_stays(tracks_json@, (i + 1) as nat, tracks_json@.len());
                }
                return Err(e);
            },
        };
        let id = track.get_id().to_owned();
        proof {
            lemma_known_inserted(index_map_entries(tracks_by_id), id@, track);
        }
        index_map_insert(&mut tracks_by_id, id, track);
        i += 1;
    }
    let ghost known = spec_known(index_map_entries(tracks_by_id));
    let tracks: Vec<AnyTrack> = index_map_into_values(tracks_by_id);

    let piece = Piece { bpm, tracks };
    assert(piece@.tracks =~= Seq::new(known.len(), |i: int| known[i].1));
    Ok(piece)
}

} // verus!
