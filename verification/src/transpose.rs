//! The transposition engine: chromatic-scale arithmetic with enharmonically
//! correct respelling.
//!
//! Every pitch is mapped to its class `0..12` on the canonical chromatic
//! scale `C, Db, D, Eb, E, F, Gb, G, Ab, A, Bb, B`; shifting adds the
//! semitone count modulo twelve and reads back the canonical, flat-preferring
//! spelling.

use vstd::prelude::*;
use vstd::arithmetic::div_mod::{
    lemma_add_mod_noop,
    lemma_add_mod_noop_right,
    lemma_fundamental_div_mod,
    lemma_fundamental_div_mod_converse_mod,
    lemma_mod_add_multiples_vanish,
    lemma_mod_division_less_than_divisor,
};
use vstd::arithmetic::div_mod::lemma_small_mod;
use crate::ast::{
    Accidental, Block, BlockV, Chord, ChordOrText, ChordOrTextV, ChordV, LyricLine, LyricLineV,
    Note, NoteLetter, Segment, SegmentV, Song, SongV, dirs_wf, sp_dirs_get, sp_dirs_set,
    view_items,
};
use crate::strutil::{sp_split_ws, split_ws};

verus! {

/// Why a transposition request was rejected.
#[derive(Debug, Clone, Copy, PartialEq, Eq, Structural)]
pub enum TransposeError {
    /// The song has no `key` directive.
    MissingKeyDirective,
    /// The `key` directive is not exactly two whitespace-separated tokens,
    /// or its note token is not a letter with an optional accidental.
    MalformedKeyDirective,
    /// The note token of the `key` directive starts with a letter outside A-G.
    UnknownNoteLetter,
}

// ---------------------------------------------------------------------------
// Pitch classes and canonical spellings
// ---------------------------------------------------------------------------

pub open spec fn letter_index(l: NoteLetter) -> int {
    match l {
        NoteLetter::C => 0,
        NoteLetter::D => 2,
        NoteLetter::E => 4,
        NoteLetter::F => 5,
        NoteLetter::G => 7,
        NoteLetter::A => 9,
        NoteLetter::B => 11,
    }
}

pub open spec fn accidental_offset(a: Accidental) -> int {
    match a {
        Accidental::Sharp => 1,
        Accidental::Flat => -1,
        Accidental::Natural => 0,
    }
}

/// The pitch class of a spelled note, in `0..12`.
pub open spec fn pitch_class(n: Note) -> int {
    (letter_index(n.letter) + accidental_offset(n.accidental)) % 12
}

/// The canonical, flat-preferring spelling of a pitch class.
pub open spec fn canonical_note(pc: int) -> Note {
    if pc == 0 {
        Note { letter: NoteLetter::C, accidental: Accidental::Natural }
    } else if pc == 1 {
        Note { letter: NoteLetter::D, accidental: Accidental::Flat }
    } else if pc == 2 {
        Note { letter: NoteLetter::D, accidental: Accidental::Natural }
    } else if pc == 3 {
        Note { letter: NoteLetter::E, accidental: Accidental::Flat }
    } else if pc == 4 {
        Note { letter: NoteLetter::E, accidental: Accidental::Natural }
    } else if pc == 5 {
        Note { letter: NoteLetter::F, accidental: Accidental::Natural }
    } else if pc == 6 {
        Note { letter: NoteLetter::G, accidental: Accidental::Flat }
    } else if pc == 7 {
        Note { letter: NoteLetter::G, accidental: Accidental::Natural }
    } else if pc == 8 {
        Note { letter: NoteLetter::A, accidental: Accidental::Flat }
    } else if pc == 9 {
        Note { letter: NoteLetter::A, accidental: Accidental::Natural }
    } else if pc == 10 {
        Note { letter: NoteLetter::B, accidental: Accidental::Flat }
    } else {
        Note { letter: NoteLetter::B, accidental: Accidental::Natural }
    }
}

/// Shift a note by `k` semitones, respelling canonically.
pub open spec fn sp_shift_note(n: Note, k: int) -> Note {
    canonical_note((pitch_class(n) + k) % 12)
}

/// Shift a chord: root and bass move, everything else is copied.
pub open spec fn sp_transpose_chord(c: ChordV, k: int) -> ChordV {
    ChordV {
        root: sp_shift_note(c.root, k),
        inversion: c.inversion,
        quality: c.quality,
        extensions: c.extensions,
        bass: match c.bass {
            Option::Some(b) => Option::Some(sp_shift_note(b, k)),
            Option::None => Option::None,
        },
    }
}

pub open spec fn sp_transpose_item(x: ChordOrTextV, k: int) -> ChordOrTextV {
    match x {
        ChordOrTextV::Chord(c) => ChordOrTextV::Chord(sp_transpose_chord(c, k)),
        ChordOrTextV::Text(t) => ChordOrTextV::Text(t),
    }
}

pub open spec fn sp_transpose_items(s: Seq<ChordOrTextV>, k: int) -> Seq<ChordOrTextV> {
    s.map_values(|x: ChordOrTextV| sp_transpose_item(x, k))
}

pub open spec fn sp_transpose_segment(s: SegmentV, k: int) -> SegmentV {
    match s {
        SegmentV::Measure(items) => SegmentV::Measure(sp_transpose_items(items, k)),
        SegmentV::Inline(items) => SegmentV::Inline(sp_transpose_items(items, k)),
    }
}

pub open spec fn sp_transpose_line(l: LyricLineV, k: int) -> LyricLineV {
    LyricLineV { segments: l.segments.map_values(|s: SegmentV| sp_transpose_segment(s, k)) }
}

pub open spec fn sp_transpose_block(b: BlockV, k: int) -> BlockV {
    BlockV {
        section_name: b.section_name,
        lines: b.lines.map_values(|l: LyricLineV| sp_transpose_line(l, k)),
    }
}

// ---------------------------------------------------------------------------
// The key directive
// ---------------------------------------------------------------------------

pub open spec fn is_upper_letter(c: char) -> bool {
    c == 'A' || c == 'B' || c == 'C' || c == 'D' || c == 'E' || c == 'F' || c == 'G'
}

pub open spec fn letter_from_char(c: char) -> NoteLetter {
    match c {
        'B' => NoteLetter::B,
        'C' => NoteLetter::C,
        'D' => NoteLetter::D,
        'E' => NoteLetter::E,
        'F' => NoteLetter::F,
        'G' => NoteLetter::G,
        _ => NoteLetter::A,
    }
}

pub open spec fn letter_char(l: NoteLetter) -> char {
    match l {
        NoteLetter::A => 'A',
        NoteLetter::B => 'B',
        NoteLetter::C => 'C',
        NoteLetter::D => 'D',
        NoteLetter::E => 'E',
        NoteLetter::F => 'F',
        NoteLetter::G => 'G',
    }
}

pub open spec fn accidental_seq(a: Accidental) -> Seq<char> {
    match a {
        Accidental::Sharp => seq!['#'],
        Accidental::Flat => seq!['b'],
        Accidental::Natural => seq![],
    }
}

/// The written form of a note: its letter, then its accidental mark.
pub open spec fn sp_note_str(n: Note) -> Seq<char> {
    seq![letter_char(n.letter)] + accidental_seq(n.accidental)
}

/// Read the note token of a `key` directive: a letter A-G, then at most one
/// `#` or `b`.
pub open spec fn sp_parse_key_note(tok: Seq<char>) -> Result<Note, TransposeError> {
    if tok.len() == 0 {
        Result::Err(TransposeError::MalformedKeyDirective)
    } else if !is_upper_letter(tok[0]) {
        Result::Err(TransposeError::UnknownNoteLetter)
    } else if tok.len() == 1 {
        Result::Ok(Note { letter: letter_from_char(tok[0]), accidental: Accidental::Natural })
    } else if tok.len() == 2 && tok[1] == '#' {
        Result::Ok(Note { letter: letter_from_char(tok[0]), accidental: Accidental::Sharp })
    } else if tok.len() == 2 && tok[1] == 'b' {
        Result::Ok(Note { letter: letter_from_char(tok[0]), accidental: Accidental::Flat })
    } else {
        Result::Err(TransposeError::MalformedKeyDirective)
    }
}

/// Shift a `key` directive value: its note token moves by `k` semitones, its
/// mode token is kept, and the two are rejoined with one space.
pub open spec fn sp_relative_key(key: Seq<char>, k: int) -> Result<Seq<char>, TransposeError> {
    let toks = sp_split_ws(key);
    if toks.len() != 2 {
        Result::Err(TransposeError::MalformedKeyDirective)
    } else {
        match sp_parse_key_note(toks[0]) {
            Result::Err(e) => Result::Err(e),
            Result::Ok(n) => Result::Ok(
                sp_note_str(sp_shift_note(n, k)) + seq![' '] + toks[1],
            ),
        }
    }
}

/// What transposing a whole song yields: the new tree on success, or the
/// error that the `key` directive forces.
pub open spec fn sp_transpose_song(s: SongV, k: int) -> Result<SongV, TransposeError> {
    match sp_dirs_get(s.directives, "key"@) {
        Option::None => Result::Err(TransposeError::MissingKeyDirective),
        Option::Some(kv) => match sp_relative_key(kv, k) {
            Result::Err(e) => Result::Err(e),
            Result::Ok(nk) => Result::Ok(
                SongV {
                    directives: sp_dirs_set(s.directives, "key"@, nk),
                    blocks: s.blocks.map_values(|b: BlockV| sp_transpose_block(b, k)),
                },
            ),
        },
    }
}

// ---------------------------------------------------------------------------
// Executable pitch arithmetic
// ---------------------------------------------------------------------------

fn note_pitch(note: Note) -> (p: usize)
    ensures
        p < 12,
        p as int == pitch_class(note),
{
    let base: usize = match note.letter {
        NoteLetter::C => 0,
        NoteLetter::D => 2,
        NoteLetter::E => 4,
        NoteLetter::F => 5,
        NoteLetter::G => 7,
        NoteLetter::A => 9,
        NoteLetter::B => 11,
    };
    match note.accidental {
        Accidental::Sharp => if base == 11 {
            0
        } else {
            base + 1
        },
        Accidental::Flat => if base == 0 {
            11
        } else {
            base - 1
        },
        Accidental::Natural => base,
    }
}

fn canonical_of(pc: usize) -> (n: Note)
    requires
        pc < 12,
    ensures
        n == canonical_note(pc as int),
{
    if pc == 0 {
        Note { letter: NoteLetter::C, accidental: Accidental::Natural }
    } else if pc == 1 {
        Note { letter: NoteLetter::D, accidental: Accidental::Flat }
    } else if pc == 2 {
        Note { letter: NoteLetter::D, accidental: Accidental::Natural }
    } else if pc == 3 {
        Note { letter: NoteLetter::E, accidental: Accidental::Flat }
    } else if pc == 4 {
        Note { letter: NoteLetter::E, accidental: Accidental::Natural }
    } else if pc == 5 {
        Note { letter: NoteLetter::F, accidental: Accidental::Natural }
    } else if pc == 6 {
        Note { letter: NoteLetter::G, accidental: Accidental::Flat }
    } else if pc == 7 {
        Note { letter: NoteLetter::G, accidental: Accidental::Natural }
    } else if pc == 8 {
        Note { letter: NoteLetter::A, accidental: Accidental::Flat }
    } else if pc == 9 {
        Note { letter: NoteLetter::A, accidental: Accidental::Natural }
    } else if pc == 10 {
        Note { letter: NoteLetter::B, accidental: Accidental::Flat }
    } else {
        Note { letter: NoteLetter::B, accidental: Accidental::Natural }
    }
}

/// Reduce a signed semitone count to its class `0..12`.
fn steps_of(semitones: isize) -> (st: usize)
    ensures
        st < 12,
        st as int == (semitones as int) % 12,
{
    if semitones >= 0 {
        let st = (semitones as usize) % 12;
        proof {
            lemma_fundamental_div_mod(semitones as int, 12);
            lemma_mod_division_less_than_divisor(semitones as int, 12);
        }
        st
    } else {
        let a: usize = ((-(semitones + 1)) as usize) + 1;
        let r = a % 12;
        let ghost q = a as int / 12;
        proof {
            lemma_fundamental_div_mod(a as int, 12);
            lemma_mod_division_less_than_divisor(a as int, 12);
        }
        if r == 0 {
            proof {
                lemma_fundamental_div_mod_converse_mod(semitones as int, 12, -q, 0);
            }
            0
        } else {
            proof {
                assert(semitones as int == (-q - 1) * 12 + (12 - r)) by {
                    assert(a as int == q * 12 + r);
                };
                lemma_fundamental_div_mod_converse_mod(semitones as int, 12, -q - 1, 12 - r);
            }
            12 - r
        }
    }
}

/// Shift one spelled note by `steps` semitones.
fn relative_note(chord_note: Note, steps: usize) -> (r: Note)
    requires
        steps < 12,
    ensures
        r == sp_shift_note(chord_note, steps as int),
{
    let p = note_pitch(chord_note);
    let pc = (p + steps) % 12;
    proof {
        lemma_fundamental_div_mod((p + steps) as int, 12);
        lemma_mod_division_less_than_divisor((p + steps) as int, 12);
    }
    canonical_of(pc)
}

proof fn lemma_shift_note_mod(n: Note, a: int, b: int)
    requires
        a % 12 == b % 12,
    ensures
        sp_shift_note(n, a) == sp_shift_note(n, b),
{
    let p = pitch_class(n);
    lemma_add_mod_noop_right(p, a, 12);
    lemma_add_mod_noop_right(p, b, 12);
    assert((p + a) % 12 == (p + a % 12) % 12);
    assert((p + b) % 12 == (p + b % 12) % 12);
}

proof fn lemma_transpose_chord_mod(c: ChordV, a: int, b: int)
    requires
        a % 12 == b % 12,
    ensures
        sp_transpose_chord(c, a) == sp_transpose_chord(c, b),
{
    lemma_shift_note_mod(c.root, a, b);
    match c.bass {
        Option::Some(bn) => lemma_shift_note_mod(bn, a, b),
        Option::None => (),
    }
}

/// Shift a chord's root and bass by `steps` semitones; all other fields are
/// moved through unchanged.
fn transpose_chord(chord: Chord, steps: usize) -> (r: Chord)
    requires
        steps < 12,
    ensures
        r@ == sp_transpose_chord(chord@, steps as int),
{
    let new_root = relative_note(chord.root, steps);
    let new_bass = match chord.bass {
        Option::Some(b) => Option::Some(relative_note(b, steps)),
        Option::None => Option::None,
    };
    Chord {
        root: new_root,
        inversion: chord.inversion,
        quality: chord.quality,
        extensions: chord.extensions,
        bass: new_bass,
    }
}

/// Shift a chord by a signed semitone count.
fn relative_transpose(chord: Chord, semitones: isize) -> (r: Chord)
    ensures
        r@ == sp_transpose_chord(chord@, semitones as int),
{
    let st = steps_of(semitones);
    let r = transpose_chord(chord, st);
    proof {
        lemma_transpose_chord_mod(chord@, st as int, semitones as int);
    }
    r
}

// ---------------------------------------------------------------------------
// Note names
// ---------------------------------------------------------------------------

/// The written form of a note: its letter, then `#`, `b` or nothing.
pub fn note_to_string(letter: NoteLetter, accidental: Accidental) -> (r: String)
    ensures
        r@ == sp_note_str(Note { letter, accidental }),
{
    proof {
        reveal_strlit("A");
        reveal_strlit("B");
        reveal_strlit("C");
        reveal_strlit("D");
        reveal_strlit("E");
        reveal_strlit("F");
        reveal_strlit("G");
        reveal_strlit("#");
        reveal_strlit("b");
    }
    let mut output = match letter {
        NoteLetter::A => "A".to_owned(),
        NoteLetter::B => "B".to_owned(),
        NoteLetter::C => "C".to_owned(),
        NoteLetter::D => "D".to_owned(),
        NoteLetter::E => "E".to_owned(),
        NoteLetter::F => "F".to_owned(),
        NoteLetter::G => "G".to_owned(),
    };
    proof {
        assert(output@ =~= seq![letter_char(letter)]);
    }
    match accidental {
        Accidental::Sharp => output.append("#"),
        Accidental::Flat => output.append("b"),
        Accidental::Natural => (),
    }
    proof {
        assert(output@ =~= sp_note_str(Note { letter, accidental }));
    }
    output
}

/// What reading a note name yields: the letter from the first character
/// (A by default), the accidental from the second, if any.
pub open spec fn sp_string_to_note(s: Seq<char>) -> Note {
    let letter = if s.len() > 0 {
        letter_from_char(s[0])
    } else {
        NoteLetter::A
    };
    let accidental = if s.len() > 1 {
        if s[1] == '#' {
            Accidental::Sharp
        } else if s[1] == 'b' {
            Accidental::Flat
        } else {
            Accidental::Natural
        }
    } else {
        Accidental::Natural
    };
    Note { letter, accidental }
}

/// Read a note name: the first character picks the letter (A when it is not
/// an uppercase letter A-G), the second the accidental.
pub fn string_to_note(key: &str) -> (r: Note)
    requires
        key@.len() >= 1,
    ensures
        r == sp_string_to_note(key@),
{
    let c0 = key.get_char(0);
    let letter = match c0 {
        'A' => NoteLetter::A,
        'B' => NoteLetter::B,
        'C' => NoteLetter::C,
        'D' => NoteLetter::D,
        'E' => NoteLetter::E,
        'F' => NoteLetter::F,
        'G' => NoteLetter::G,
        _ => NoteLetter::A,
    };
    let accidental = if key.unicode_len() > 1 {
        let c1 = key.get_char(1);
        if c1 == '#' {
            Accidental::Sharp
        } else if c1 == 'b' {
            Accidental::Flat
        } else {
            Accidental::Natural
        }
    } else {
        Accidental::Natural
    };
    Note { letter, accidental }
}

/// The canonical enharmonic respelling table: sharps and the unusual
/// spellings move to the flat-preferring chromatic scale entry.
pub open spec fn sp_enharmonic(s: Seq<char>) -> Seq<char> {
    if s == "Cb"@ {
        "B"@
    } else if s == "C#"@ {
        "Db"@
    } else if s == "D#"@ {
        "Eb"@
    } else if s == "E#"@ {
        "F"@
    } else if s == "Fb"@ {
        "E"@
    } else if s == "F#"@ {
        "Gb"@
    } else if s == "G#"@ {
        "Ab"@
    } else if s == "A#"@ {
        "Bb"@
    } else if s == "B#"@ {
        "C"@
    } else {
        s
    }
}

/// Respell a note name to its canonical chromatic-scale entry; names already
/// canonical pass through unchanged.
pub fn find_enharmonic_spelling(key: &str) -> (r: String)
    ensures
        r@ == sp_enharmonic(key@),
{
    if crate::strutil::eq_str(key, "Cb") {
        "B".to_owned()
    } else if crate::strutil::eq_str(key, "C#") {
        "Db".to_owned()
    } else if crate::strutil::eq_str(key, "D#") {
        "Eb".to_owned()
    } else if crate::strutil::eq_str(key, "E#") {
        "F".to_owned()
    } else if crate::strutil::eq_str(key, "Fb") {
        "E".to_owned()
    } else if crate::strutil::eq_str(key, "F#") {
        "Gb".to_owned()
    } else if crate::strutil::eq_str(key, "G#") {
        "Ab".to_owned()
    } else if crate::strutil::eq_str(key, "A#") {
        "Bb".to_owned()
    } else if crate::strutil::eq_str(key, "B#") {
        "C".to_owned()
    } else {
        key.to_owned()
    }
}

// ---------------------------------------------------------------------------
// Shifting the key directive
// ---------------------------------------------------------------------------

/// Shift a `key` directive value by a signed semitone count.
fn relative_key(key: &str, semitones: isize) -> (r: Result<String, TransposeError>)
    ensures
        match r {
            Result::Ok(v) => sp_relative_key(key@, semitones as int) == Result::<
                Seq<char>,
                TransposeError,
            >::Ok(v@),
            Result::Err(e) => sp_relative_key(key@, semitones as int) == Result::<
                Seq<char>,
                TransposeError,
            >::Err(e),
        },
{
    let parts = split_ws(key);
    let ghost toks = sp_split_ws(key@);
    proof {
        assert(parts@.map_values(|t: String| t@) == toks);
        assert(parts@.len() == toks.len());
    }
    if parts.len() != 2 {
        return Result::Err(TransposeError::MalformedKeyDirective);
    }
    proof {
        assert(parts@[0]@ == toks[0]);
        assert(parts@[1]@ == toks[1]);
    }
    let tok0 = &parts[0];
    let n0 = tok0.as_str().unicode_len();
    if n0 == 0 {
        return Result::Err(TransposeError::MalformedKeyDirective);
    }
    let c0 = tok0.as_str().get_char(0);
    let letter_ok = c0 == 'A' || c0 == 'B' || c0 == 'C' || c0 == 'D' || c0 == 'E' || c0 == 'F'
        || c0 == 'G';
    if !letter_ok {
        return Result::Err(TransposeError::UnknownNoteLetter);
    }
    if n0 > 2 {
        return Result::Err(TransposeError::MalformedKeyDirective);
    }
    if n0 == 2 {
        let c1 = tok0.as_str().get_char(1);
        if c1 != '#' && c1 != 'b' {
            return Result::Err(TransposeError::MalformedKeyDirective);
        }
    }
    let note = string_to_note(tok0.as_str());
    proof {
        assert(sp_parse_key_note(toks[0]) == Result::<Note, TransposeError>::Ok(note));
    }
    let st = steps_of(semitones);
    let shifted = relative_note(note, st);
    proof {
        lemma_shift_note_mod(note, st as int, semitones as int);
    }
    let mut out = note_to_string(shifted.letter, shifted.accidental);
    out.append(" ");
    out.append(parts[1].as_str());
    proof {
        reveal_strlit(" ");
        assert(" "@ =~= seq![' ']);
        assert(out@ =~= sp_note_str(sp_shift_note(note, semitones as int)) + seq![' '] + toks[1]);
    }
    Result::Ok(out)
}

// ---------------------------------------------------------------------------
// Walking the tree
// ---------------------------------------------------------------------------

fn transpose_items(items: Vec<ChordOrText>, steps: usize) -> (r: Vec<ChordOrText>)
    requires
        steps < 12,
    ensures
        view_items(r@) == sp_transpose_items(view_items(items@), steps as int),
{
    let ghost items0 = items@;
    let ghost k = steps as int;
    let mut rest = items;
    let mut out: Vec<ChordOrText> = Vec::new();
    proof {
        assert(rest@ =~= items0.skip(0));
    }
    while rest.len() > 0
        invariant
            steps < 12,
            k == steps as int,
            out@.len() + rest@.len() == items0.len(),
            rest@ =~= items0.skip(out@.len() as int),
            forall|j: int|
                0 <= j < out@.len() ==> (#[trigger] out@[j])@ == sp_transpose_item(
                    items0[j]@,
                    k,
                ),
        decreases rest.len(),
    {
        let ghost i = out@.len() as int;
        proof {
            crate::strutil::lemma_remove0_skip(items0, i);
        }
        let x = rest.remove(0);
        proof {
            assert(x == items0[i]);
            assert(rest@ =~= items0.skip(i + 1));
        }
        let y = match x {
            ChordOrText::Chord(c) => ChordOrText::Chord(transpose_chord(c, steps)),
            ChordOrText::Text(t) => ChordOrText::Text(t),
        };
        proof {
            assert(y@ == sp_transpose_item(items0[i]@, k));
        }
        out.push(y);
    }
    proof {
        assert forall|j: int| 0 <= j < items0.len() implies view_items(out@)[j]
            == sp_transpose_items(view_items(items0), k)[j] by {
            assert(view_items(out@)[j] == out@[j]@);
            assert(sp_transpose_items(view_items(items0), k)[j] == sp_transpose_item(
                view_items(items0)[j],
                k,
            ));
            assert(view_items(items0)[j] == items0[j]@);
        }
        assert(view_items(out@) =~= sp_transpose_items(view_items(items0), k));
    }
    out
}

fn transpose_segment(seg: Segment, steps: usize) -> (r: Segment)
    requires
        steps < 12,
    ensures
        r@ == sp_transpose_segment(seg@, steps as int),
{
    match seg {
        Segment::Measure(items) => {
            let r = Segment::Measure(transpose_items(items, steps));
            proof {
                assert(r@ =~= sp_transpose_segment(SegmentV::Measure(view_items(items@)), steps as int));
            }
            r
        },
        Segment::Inline(items) => {
            let r = Segment::Inline(transpose_items(items, steps));
            proof {
                assert(r@ =~= sp_transpose_segment(SegmentV::Inline(view_items(items@)), steps as int));
            }
            r
        },
    }
}

fn transpose_line(line: LyricLine, steps: usize) -> (r: LyricLine)
    requires
        steps < 12,
    ensures
        r@ == sp_transpose_line(line@, steps as int),
{
    let ghost segs0 = line.segments@;
    let ghost lv = line@;
    let ghost k = steps as int;
    let mut rest = line.segments;
    let mut out: Vec<Segment> = Vec::new();
    proof {
        assert(rest@ =~= segs0.skip(0));
    }
    while rest.len() > 0
        invariant
            steps < 12,
            k == steps as int,
            out@.len() + rest@.len() == segs0.len(),
            rest@ =~= segs0.skip(out@.len() as int),
            forall|j: int|
                0 <= j < out@.len() ==> (#[trigger] out@[j])@ == sp_transpose_segment(
                    segs0[j]@,
                    k,
                ),
        decreases rest.len(),
    {
        let ghost i = out@.len() as int;
        proof {
            crate::strutil::lemma_remove0_skip(segs0, i);
        }
        let x = rest.remove(0);
        proof {
            assert(x == segs0[i]);
            assert(rest@ =~= segs0.skip(i + 1));
        }
        let y = transpose_segment(x, steps);
        out.push(y);
    }
    let r = LyricLine { segments: out };
    proof {
        assert forall|j: int| 0 <= j < segs0.len() implies r@.segments[j]
            == sp_transpose_line(lv, k).segments[j] by {
            assert(r@.segments[j] == out@[j]@);
            assert(lv.segments[j] == segs0[j]@);
        }
        assert(r@.segments =~= sp_transpose_line(lv, k).segments);
        assert(r@ =~= sp_transpose_line(lv, k));
    }
    r
}

fn transpose_block(block: Block, steps: usize) -> (r: Block)
    requires
        steps < 12,
    ensures
        r@ == sp_transpose_block(block@, steps as int),
{
    let ghost lines0 = block.lines@;
    let ghost bv = block@;
    let ghost k = steps as int;
    let mut rest = block.lines;
    let mut out: Vec<LyricLine> = Vec::new();
    proof {
        assert(rest@ =~= lines0.skip(0));
    }
    while rest.len() > 0
        invariant
            steps < 12,
            k == steps as int,
            out@.len() + rest@.len() == lines0.len(),
            rest@ =~= lines0.skip(out@.len() as int),
            forall|j: int|
                0 <= j < out@.len() ==> (#[trigger] out@[j])@ == sp_transpose_line(
                    lines0[j]@,
                    k,
                ),
        decreases rest.len(),
    {
        let ghost i = out@.len() as int;
        proof {
            crate::strutil::lemma_remove0_skip(lines0, i);
        }
        let x = rest.remove(0);
        proof {
            assert(x == lines0[i]);
            assert(rest@ =~= lines0.skip(i + 1));
        }
        let y = transpose_line(x, steps);
        out.push(y);
    }
    let r = Block { section_name: block.section_name, lines: out };
    proof {
        assert forall|j: int| 0 <= j < lines0.len() implies r@.lines[j]
            == sp_transpose_block(bv, k).lines[j] by {
            assert(r@.lines[j] == out@[j]@);
            assert(bv.lines[j] == lines0[j]@);
        }
        assert(r@.lines =~= sp_transpose_block(bv, k).lines);
        assert(r@ =~= sp_transpose_block(bv, k));
    }
    r
}

/// Transpose a whole song by a signed semitone count.
///
/// Every chord's root and bass move; quality, extensions and inversion are
/// copied; the `key` directive is shifted the same way, and all other
/// directives are kept. A missing or malformed `key` directive rejects the
/// whole request, and the song is then never partially rebuilt.
pub fn transpose_song(song: Song, semitones: isize) -> (r: Result<Song, TransposeError>)
    ensures
        match r {
            Result::Ok(t) => sp_transpose_song(song@, semitones as int) == Result::<
                SongV,
                TransposeError,
            >::Ok(t@),
            Result::Err(e) => sp_transpose_song(song@, semitones as int) == Result::<
                SongV,
                TransposeError,
            >::Err(e),
        },
        r matches Result::Ok(t) ==> (dirs_wf(song@.directives) ==> dirs_wf(t@.directives)),
{
    let ghost sv = song@;
    let key_value = match song.directives.get("key") {
        Option::Some(v) => v.clone(),
        Option::None => {
            return Result::Err(TransposeError::MissingKeyDirective);
        },
    };
    let new_key = match relative_key(key_value.as_str(), semitones) {
        Result::Ok(v) => v,
        Result::Err(e) => {
            return Result::Err(e);
        },
    };
    let st = steps_of(semitones);
    let ghost k = semitones as int;
    let ghost blocks0 = song.blocks@;
    let mut rest = song.blocks;
    let mut out: Vec<Block> = Vec::new();
    proof {
        assert(rest@ =~= blocks0.skip(0));
    }
    while rest.len() > 0
        invariant
            st < 12,
            st as int == k % 12,
            out@.len() + rest@.len() == blocks0.len(),
            rest@ =~= blocks0.skip(out@.len() as int),
            forall|j: int|
                0 <= j < out@.len() ==> (#[trigger] out@[j])@ == sp_transpose_block(
                    blocks0[j]@,
                    k,
                ),
        decreases rest.len(),
    {
        let ghost i = out@.len() as int;
        proof {
            crate::strutil::lemma_remove0_skip(blocks0, i);
        }
        let x = rest.remove(0);
        proof {
            assert(x == blocks0[i]);
            assert(rest@ =~= blocks0.skip(i + 1));
        }
        let y = transpose_block(x, st);
        proof {
            lemma_transpose_block_mod(x@, st as int, k);
        }
        out.push(y);
    }
    let mut directives = song.directives;
    directives.insert("key".to_owned(), new_key);
    let t = Song { directives, blocks: out };
    proof {
        let tv = match sp_transpose_song(sv, k) {
            Result::Ok(v) => v,
            Result::Err(_) => t@,
        };
        assert(t@.directives =~= tv.directives);
        assert forall|j: int| 0 <= j < blocks0.len() implies t@.blocks[j] == tv.blocks[j] by {
            assert(t@.blocks[j] == out@[j]@);
            assert(sv.blocks[j] == blocks0[j]@);
        }
        assert(t@.blocks =~= tv.blocks);
        assert(t@ =~= tv);
    }
    Result::Ok(t)
}

// ---------------------------------------------------------------------------
// Laws of transposition
// ---------------------------------------------------------------------------

/// A note spelled exactly as the canonical chromatic scale spells its pitch.
pub open spec fn note_canonical(n: Note) -> bool {
    n == canonical_note(pitch_class(n))
}

pub open spec fn chord_canonical(c: ChordV) -> bool {
    note_canonical(c.root) && match c.bass {
        Option::Some(b) => note_canonical(b),
        Option::None => true,
    }
}

pub open spec fn item_canonical(x: ChordOrTextV) -> bool {
    match x {
        ChordOrTextV::Chord(c) => chord_canonical(c),
        ChordOrTextV::Text(_) => true,
    }
}

pub open spec fn segment_canonical(s: SegmentV) -> bool {
    match s {
        SegmentV::Measure(items) => forall|j: int|
            0 <= j < items.len() ==> item_canonical(#[trigger] items[j]),
        SegmentV::Inline(items) => forall|j: int|
            0 <= j < items.len() ==> item_canonical(#[trigger] items[j]),
    }
}

pub open spec fn line_canonical(l: LyricLineV) -> bool {
    forall|j: int| 0 <= j < l.segments.len() ==> segment_canonical(#[trigger] l.segments[j])
}

pub open spec fn block_canonical(b: BlockV) -> bool {
    forall|j: int| 0 <= j < b.lines.len() ==> line_canonical(#[trigger] b.lines[j])
}

/// A key value in the exact shape transposition writes: a canonically
/// spelled note, one space, and a mode token.
pub open spec fn key_canonical(kv: Seq<char>) -> bool {
    let toks = sp_split_ws(kv);
    toks.len() == 2 && match sp_parse_key_note(toks[0]) {
        Result::Ok(n) => note_canonical(n) && kv == sp_note_str(n) + seq![' '] + toks[1],
        Result::Err(_) => false,
    }
}

/// A song on which transposing by zero is the identity: every chord is
/// canonically spelled and the key directive is in canonical shape.
pub open spec fn song_canonical(s: SongV) -> bool {
    &&& match sp_dirs_get(s.directives, "key"@) {
        Option::Some(kv) => key_canonical(kv),
        Option::None => false,
    }
    &&& forall|j: int| 0 <= j < s.blocks.len() ==> block_canonical(#[trigger] s.blocks[j])
}

proof fn lemma_pitch_class_bounds(n: Note)
    ensures
        0 <= pitch_class(n) < 12,
{
    lemma_mod_division_less_than_divisor(
        letter_index(n.letter) + accidental_offset(n.accidental),
        12,
    );
}

proof fn lemma_pitch_of_canonical(pc: int)
    requires
        0 <= pc < 12,
    ensures
        pitch_class(canonical_note(pc)) == pc,
{
}

/// Shifting twice adds the shifts.
proof fn lemma_shift_shift(n: Note, a: int, b: int)
    ensures
        sp_shift_note(sp_shift_note(n, a), b) == sp_shift_note(n, a + b),
{
    let p = pitch_class(n);
    lemma_pitch_class_bounds(n);
    lemma_mod_division_less_than_divisor(p + a, 12);
    let p1 = (p + a) % 12;
    lemma_pitch_of_canonical(p1);
    assert(pitch_class(sp_shift_note(n, a)) == p1);
    lemma_add_mod_noop_right(p1, b, 12);
    lemma_add_mod_noop(p + a, b, 12);
    lemma_mod_division_less_than_divisor(b, 12);
    lemma_add_mod_noop_right(p + a, b, 12);
    assert((p1 + b) % 12 == (p + a + b) % 12) by {
        assert((p1 + b) % 12 == (p1 + b % 12) % 12);
        assert((p + a + b) % 12 == ((p + a) % 12 + b % 12) % 12);
    }
}

/// Shifting a canonically spelled note by zero changes nothing.
proof fn lemma_shift_zero(n: Note)
    requires
        note_canonical(n),
    ensures
        sp_shift_note(n, 0) == n,
{
    let p = pitch_class(n);
    lemma_pitch_class_bounds(n);
    lemma_small_mod(p as nat, 12);
    assert((p + 0) % 12 == p);
}

/// A shifted note is always canonically spelled.
proof fn lemma_shift_canonical(n: Note, k: int)
    ensures
        note_canonical(sp_shift_note(n, k)),
{
    let p = pitch_class(n);
    lemma_mod_division_less_than_divisor(p + k, 12);
    lemma_pitch_of_canonical((p + k) % 12);
}

/// Reading back the written form of any note yields that note.
proof fn lemma_parse_note_str(n: Note)
    ensures
        sp_parse_key_note(sp_note_str(n)) == Result::<Note, TransposeError>::Ok(n),
        crate::strutil::token_ok(sp_note_str(n)),
{
    let t = sp_note_str(n);
    assert(t[0] == letter_char(n.letter));
    match n.accidental {
        Accidental::Sharp => {
            assert(t.len() == 2);
            assert(t[1] == '#');
        },
        Accidental::Flat => {
            assert(t.len() == 2);
            assert(t[1] == 'b');
        },
        Accidental::Natural => {
            assert(t.len() == 1);
        },
    }
}

proof fn lemma_transpose_chord_zero(c: ChordV)
    requires
        chord_canonical(c),
    ensures
        sp_transpose_chord(c, 0) == c,
{
    lemma_shift_zero(c.root);
    match c.bass {
        Option::Some(b) => lemma_shift_zero(b),
        Option::None => (),
    }
    assert(sp_transpose_chord(c, 0) =~= c);
}

proof fn lemma_transpose_chord_chord(c: ChordV, a: int, b: int)
    ensures
        sp_transpose_chord(sp_transpose_chord(c, a), b) == sp_transpose_chord(c, a + b),
{
    lemma_shift_shift(c.root, a, b);
    match c.bass {
        Option::Some(bn) => lemma_shift_shift(bn, a, b),
        Option::None => (),
    }
    assert(sp_transpose_chord(sp_transpose_chord(c, a), b) =~= sp_transpose_chord(c, a + b));
}

proof fn lemma_transpose_item_zero(x: ChordOrTextV)
    requires
        item_canonical(x),
    ensures
        sp_transpose_item(x, 0) == x,
{
    match x {
        ChordOrTextV::Chord(c) => lemma_transpose_chord_zero(c),
        ChordOrTextV::Text(_) => (),
    }
}

proof fn lemma_transpose_item_item(x: ChordOrTextV, a: int, b: int)
    ensures
        sp_transpose_item(sp_transpose_item(x, a), b) == sp_transpose_item(x, a + b),
{
    match x {
        ChordOrTextV::Chord(c) => lemma_transpose_chord_chord(c, a, b),
        ChordOrTextV::Text(_) => (),
    }
}

proof fn lemma_transpose_segment_zero(s: SegmentV)
    requires
        segment_canonical(s),
    ensures
        sp_transpose_segment(s, 0) == s,
{
    match s {
        SegmentV::Measure(items) => {
            assert forall|j: int| 0 <= j < items.len() implies sp_transpose_items(items, 0)[j]
                == items[j] by {
                lemma_transpose_item_zero(items[j]);
            }
            assert(sp_transpose_items(items, 0) =~= items);
        },
        SegmentV::Inline(items) => {
            assert forall|j: int| 0 <= j < items.len() implies sp_transpose_items(items, 0)[j]
                == items[j] by {
                lemma_transpose_item_zero(items[j]);
            }
            assert(sp_transpose_items(items, 0) =~= items);
        },
    }
}

proof fn lemma_transpose_segment_segment(s: SegmentV, a: int, b: int)
    ensures
        sp_transpose_segment(sp_transpose_segment(s, a), b) == sp_transpose_segment(s, a + b),
{
    match s {
        SegmentV::Measure(items) => {
            assert forall|j: int| 0 <= j < items.len() implies sp_transpose_items(
                sp_transpose_items(items, a),
                b,
            )[j] == sp_transpose_items(items, a + b)[j] by {
                lemma_transpose_item_item(items[j], a, b);
            }
            assert(sp_transpose_items(sp_transpose_items(items, a), b) =~= sp_transpose_items(
                items,
                a + b,
            ));
        },
        SegmentV::Inline(items) => {
            assert forall|j: int| 0 <= j < items.len() implies sp_transpose_items(
                sp_transpose_items(items, a),
                b,
            )[j] == sp_transpose_items(items, a + b)[j] by {
                lemma_transpose_item_item(items[j], a, b);
            }
            assert(sp_transpose_items(sp_transpose_items(items, a), b) =~= sp_transpose_items(
                items,
                a + b,
            ));
        },
    }
}

proof fn lemma_transpose_line_zero(l: LyricLineV)
    requires
        line_canonical(l),
    ensures
        sp_transpose_line(l, 0) == l,
{
    assert forall|j: int| 0 <= j < l.segments.len() implies sp_transpose_line(l, 0).segments[j]
        == l.segments[j] by {
        lemma_transpose_segment_zero(l.segments[j]);
    }
    assert(sp_transpose_line(l, 0) =~= l);
}

proof fn lemma_transpose_line_line(l: LyricLineV, a: int, b: int)
    ensures
        sp_transpose_line(sp_transpose_line(l, a), b) == sp_transpose_line(l, a + b),
{
    assert forall|j: int| 0 <= j < l.segments.len() implies sp_transpose_line(
        sp_transpose_line(l, a),
        b,
    ).segments[j] == sp_transpose_line(l, a + b).segments[j] by {
        lemma_transpose_segment_segment(l.segments[j], a, b);
    }
    assert(sp_transpose_line(sp_transpose_line(l, a), b) =~= sp_transpose_line(l, a + b));
}

proof fn lemma_transpose_block_zero(b: BlockV)
    requires
        block_canonical(b),
    ensures
        sp_transpose_block(b, 0) == b,
{
    assert forall|j: int| 0 <= j < b.lines.len() implies sp_transpose_block(b, 0).lines[j]
        == b.lines[j] by {
        lemma_transpose_line_zero(b.lines[j]);
    }
    assert(sp_transpose_block(b, 0) =~= b);
}

proof fn lemma_transpose_block_block(b0: BlockV, a: int, b: int)
    ensures
        sp_transpose_block(sp_transpose_block(b0, a), b) == sp_transpose_block(b0, a + b),
{
    assert forall|j: int| 0 <= j < b0.lines.len() implies sp_transpose_block(
        sp_transpose_block(b0, a),
        b,
    ).lines[j] == sp_transpose_block(b0, a + b).lines[j] by {
        lemma_transpose_line_line(b0.lines[j], a, b);
    }
    assert(sp_transpose_block(sp_transpose_block(b0, a), b) =~= sp_transpose_block(b0, a + b));
}

/// Transposing by zero semitones leaves a canonically spelled song exactly
/// as it is.
pub proof fn lemma_transpose_identity(s: SongV)
    requires
        song_canonical(s),
    ensures
        sp_transpose_song(s, 0) == Result::<SongV, TransposeError>::Ok(s),
{
    let kv = sp_dirs_get(s.directives, "key"@)->Some_0;
    let toks = sp_split_ws(kv);
    let n = sp_parse_key_note(toks[0])->Ok_0;
    lemma_shift_zero(n);
    assert(sp_relative_key(kv, 0) == Result::<Seq<char>, TransposeError>::Ok(kv));
    crate::ast::lemma_dirs_set_get_id(s.directives, "key"@, kv);
    assert forall|j: int| #![trigger s.blocks[j]] 0 <= j < s.blocks.len() implies s.blocks.map_values(
        |b: BlockV| sp_transpose_block(b, 0),
    )[j] == s.blocks[j] by {
        lemma_transpose_block_zero(s.blocks[j]);
    }
    assert(s.blocks.map_values(|b: BlockV| sp_transpose_block(b, 0)) =~= s.blocks);
    let t = sp_transpose_song(s, 0)->Ok_0;
    assert(t =~= s);
}

/// Transposing by `n` and by `n + 12` are the same operation.
pub proof fn lemma_transpose_periodicity(s: SongV, n: int)
    ensures
        sp_transpose_song(s, n) == sp_transpose_song(s, n + 12),
{
    assert(n % 12 == (n + 12) % 12) by {
        lemma_mod_add_multiples_vanish(n, 12);
    }
    match sp_dirs_get(s.directives, "key"@) {
        Option::None => {},
        Option::Some(kv) => {
            let toks = sp_split_ws(kv);
            if toks.len() == 2 {
                match sp_parse_key_note(toks[0]) {
                    Result::Err(_) => {},
                    Result::Ok(note) => {
                        lemma_shift_note_mod(note, n, n + 12);
                        assert forall|j: int| #![trigger s.blocks[j]] 0 <= j < s.blocks.len() implies s.blocks.map_values(
                            |b: BlockV| sp_transpose_block(b, n),
                        )[j] == s.blocks.map_values(|b: BlockV| sp_transpose_block(b, n + 12))[j] by {
                            lemma_transpose_block_mod(s.blocks[j], n, n + 12);
                        }
                        assert(s.blocks.map_values(|b: BlockV| sp_transpose_block(b, n))
                            =~= s.blocks.map_values(|b: BlockV| sp_transpose_block(b, n + 12)));
                        let t1 = sp_transpose_song(s, n)->Ok_0;
                        let t2 = sp_transpose_song(s, n + 12)->Ok_0;
                        assert(t1 =~= t2);
                    },
                }
            }
        },
    }
}

/// Transposing by `a` and then by `b` is transposing by `a + b`.
pub proof fn lemma_transpose_composition(s: SongV, a: int, b: int)
    requires
        sp_transpose_song(s, a) is Ok,
    ensures
        sp_transpose_song(sp_transpose_song(s, a)->Ok_0, b) == sp_transpose_song(s, a + b),
{
    let kv = sp_dirs_get(s.directives, "key"@)->Some_0;
    let toks = sp_split_ws(kv);
    let n0 = sp_parse_key_note(toks[0])->Ok_0;
    let n1 = sp_shift_note(n0, a);
    let mode = toks[1];
    let nk = sp_note_str(n1) + seq![' '] + mode;
    let t = sp_transpose_song(s, a)->Ok_0;
    assert(t.directives == sp_dirs_set(s.directives, "key"@, nk));
    crate::ast::lemma_dirs_get_set_same(s.directives, "key"@, nk);
    assert(sp_dirs_get(t.directives, "key"@) == Option::Some(nk));
    lemma_parse_note_str(n1);
    crate::strutil::lemma_split_ws_tokens(kv, 0);
    assert(crate::strutil::token_ok(mode));
    crate::strutil::lemma_split_join2(sp_note_str(n1), mode);
    let ntoks = sp_split_ws(nk);
    assert(ntoks == seq![sp_note_str(n1), mode]);
    assert(ntoks[0] == sp_note_str(n1));
    assert(ntoks[1] == mode);
    lemma_shift_shift(n0, a, b);
    assert(sp_relative_key(nk, b) == Result::<Seq<char>, TransposeError>::Ok(
        sp_note_str(sp_shift_note(n0, a + b)) + seq![' '] + mode,
    ));
    crate::ast::lemma_dirs_set_set(
        s.directives,
        "key"@,
        nk,
        sp_note_str(sp_shift_note(n0, a + b)) + seq![' '] + mode,
    );
    assert forall|j: int| #![trigger s.blocks[j]] 0 <= j < s.blocks.len() implies t.blocks.map_values(
        |blk: BlockV| sp_transpose_block(blk, b),
    )[j] == s.blocks.map_values(|blk: BlockV| sp_transpose_block(blk, a + b))[j] by {
        assert(t.blocks[j] == sp_transpose_block(s.blocks[j], a));
        lemma_transpose_block_block(s.blocks[j], a, b);
    }
    assert(t.blocks.map_values(|blk: BlockV| sp_transpose_block(blk, b)) =~= s.blocks.map_values(
        |blk: BlockV| sp_transpose_block(blk, a + b),
    ));
    let u1 = sp_transpose_song(t, b)->Ok_0;
    let u2 = sp_transpose_song(s, a + b)->Ok_0;
    assert(u1 =~= u2);
}

/// Transposing always yields canonically spelled chords and a key in the
/// canonical shape, so transposing the result by zero gives it back
/// unchanged.
pub proof fn lemma_transpose_canonical(s: SongV, k: int)
    requires
        sp_transpose_song(s, k) is Ok,
    ensures
        song_canonical(sp_transpose_song(s, k)->Ok_0),
{
    let kv = sp_dirs_get(s.directives, "key"@)->Some_0;
    let toks = sp_split_ws(kv);
    let n0 = sp_parse_key_note(toks[0])->Ok_0;
    let n1 = sp_shift_note(n0, k);
    let mode = toks[1];
    let nk = sp_note_str(n1) + seq![' '] + mode;
    let t = sp_transpose_song(s, k)->Ok_0;
    crate::ast::lemma_dirs_get_set_same(s.directives, "key"@, nk);
    assert(sp_dirs_get(t.directives, "key"@) == Option::Some(nk));
    lemma_parse_note_str(n1);
    crate::strutil::lemma_split_ws_tokens(kv, 0);
    assert(crate::strutil::token_ok(mode));
    crate::strutil::lemma_split_join2(sp_note_str(n1), mode);
    let ntoks = sp_split_ws(nk);
    assert(ntoks[0] == sp_note_str(n1));
    assert(ntoks[1] == mode);
    lemma_shift_canonical(n0, k);
    assert(key_canonical(nk));
    assert forall|j: int| 0 <= j < t.blocks.len() implies block_canonical(
        #[trigger] t.blocks[j],
    ) by {
        let b0 = s.blocks[j];
        assert(t.blocks[j] == sp_transpose_block(b0, k));
        let tb = sp_transpose_block(b0, k);
        assert forall|li: int| 0 <= li < tb.lines.len() implies line_canonical(
            #[trigger] tb.lines[li],
        ) by {
            let tl = sp_transpose_line(b0.lines[li], k);
            assert(tb.lines[li] == tl);
            assert forall|si: int| 0 <= si < tl.segments.len() implies segment_canonical(
                #[trigger] tl.segments[si],
            ) by {
                let ts = sp_transpose_segment(b0.lines[li].segments[si], k);
                assert(tl.segments[si] == ts);
                let items0 = crate::ast::seg_items(b0.lines[li].segments[si]);
                let titems = sp_transpose_items(items0, k);
                assert forall|ii: int| 0 <= ii < titems.len() implies item_canonical(
                    #[trigger] titems[ii],
                ) by {
                    match items0[ii] {
                        ChordOrTextV::Chord(c) => {
                            lemma_shift_canonical(c.root, k);
                            match c.bass {
                                Option::Some(bn) => lemma_shift_canonical(bn, k),
                                Option::None => (),
                            }
                        },
                        ChordOrTextV::Text(_) => (),
                    }
                }
            }
        }
    }
}

proof fn lemma_transpose_items_mod(s: Seq<ChordOrTextV>, a: int, b: int)
    requires
        a % 12 == b % 12,
    ensures
        sp_transpose_items(s, a) =~= sp_transpose_items(s, b),
{
    assert forall|i: int| 0 <= i < s.len() implies sp_transpose_items(s, a)[i]
        == sp_transpose_items(s, b)[i] by {
        match s[i] {
            ChordOrTextV::Chord(c) => lemma_transpose_chord_mod(c, a, b),
            ChordOrTextV::Text(_) => (),
        }
    }
}

proof fn lemma_transpose_segment_mod(s: SegmentV, a: int, b: int)
    requires
        a % 12 == b % 12,
    ensures
        sp_transpose_segment(s, a) == sp_transpose_segment(s, b),
{
    match s {
        SegmentV::Measure(items) => lemma_transpose_items_mod(items, a, b),
        SegmentV::Inline(items) => lemma_transpose_items_mod(items, a, b),
    }
}

proof fn lemma_transpose_line_mod(l: LyricLineV, a: int, b: int)
    requires
        a % 12 == b % 12,
    ensures
        sp_transpose_line(l, a) == sp_transpose_line(l, b),
{
    assert forall|i: int| 0 <= i < l.segments.len() implies sp_transpose_line(l, a).segments[i]
        == sp_transpose_line(l, b).segments[i] by {
        lemma_transpose_segment_mod(l.segments[i], a, b);
    }
    assert(sp_transpose_line(l, a).segments =~= sp_transpose_line(l, b).segments);
    assert(sp_transpose_line(l, a) =~= sp_transpose_line(l, b));
}

proof fn lemma_transpose_block_mod(b0: BlockV, a: int, b: int)
    requires
        a % 12 == b % 12,
    ensures
        sp_transpose_block(b0, a) == sp_transpose_block(b0, b),
{
    assert forall|i: int| 0 <= i < b0.lines.len() implies sp_transpose_block(b0, a).lines[i]
        == sp_transpose_block(b0, b).lines[i] by {
        lemma_transpose_line_mod(b0.lines[i], a, b);
    }
    assert(sp_transpose_block(b0, a).lines =~= sp_transpose_block(b0, b).lines);
    assert(sp_transpose_block(b0, a) =~= sp_transpose_block(b0, b));
}

} // verus!
