//! A recursive-descent parser for the lead-sheet notation.
//!
//! The grammar is stated as spec-level parsing functions over `Seq<char>`
//! (`sp_...`), with the ordered-choice reading throughout: each rule tries
//! its alternatives in a fixed order and never reconsiders a committed
//! match. The executable parser mirrors those functions one for one and is
//! proved to return exactly what they denote.
//!
//! Shape of the notation:
//! - a song is zero or more `@name: value` directives, then one or more
//!   blocks;
//! - a block is a `#...` section header line and a run of measures
//!   (`| ... |`) and inline chord/text runs;
//! - a chord token is `[` root quality? ext* (`/` bass)? `]`;
//! - a text token is any run free of the structural characters
//!   `[ ] | # @`, and may span line breaks.

use vstd::prelude::*;
use crate::ast::{
    Accidental, Block, BlockV, Chord, ChordOrText, ChordOrTextV, ChordV, Directive, DirectiveV,
    Directives, LyricLine, LyricLineV, Note, NoteLetter, Segment, SegmentV, Song, SongV,
    sp_dirs_set, view_items, view_segments,
};
use crate::strutil::{is_ws_char, ws_char};

verus! {

/// A grammar mismatch: where it happened and what was expected there.
#[derive(Debug)]
pub struct SyntaxError {
    /// Character position of the mismatch in the input.
    pub pos: usize,
    /// The construct that was expected at that position.
    pub expected: String,
}

// ---------------------------------------------------------------------------
// Character classes
// ---------------------------------------------------------------------------

/// Characters that may stand in a text token: anything but the structural
/// delimiters.
pub open spec fn is_text_char(c: char) -> bool {
    c != '[' && c != ']' && c != '|' && c != '#' && c != '@'
}

pub open spec fn is_hspace(c: char) -> bool {
    c == ' ' || c == '\t'
}

/// Characters that may stand in a directive name.
pub open spec fn is_name_char(c: char) -> bool {
    c != ':' && !is_ws_char(c)
}

fn text_char(c: char) -> (r: bool)
    ensures
        r == is_text_char(c),
{
    c != '[' && c != ']' && c != '|' && c != '#' && c != '@'
}

fn hspace_char(c: char) -> (r: bool)
    ensures
        r == is_hspace(c),
{
    c == ' ' || c == '\t'
}

fn name_char(c: char) -> (r: bool)
    ensures
        r == is_name_char(c),
{
    c != ':' && !ws_char(c)
}

// ---------------------------------------------------------------------------
// Scanners
// ---------------------------------------------------------------------------

/// The end of the run of text characters starting at `i`.
pub open spec fn sp_text_end(s: Seq<char>, i: int) -> int
    decreases s.len() - i,
{
    if 0 <= i < s.len() && is_text_char(s[i]) {
        sp_text_end(s, i + 1)
    } else {
        i
    }
}

/// The end of the run of name characters starting at `i`.
pub open spec fn sp_name_end(s: Seq<char>, i: int) -> int
    decreases s.len() - i,
{
    if 0 <= i < s.len() && is_name_char(s[i]) {
        sp_name_end(s, i + 1)
    } else {
        i
    }
}

/// The position of the next line break at or after `i` (or the end).
pub open spec fn sp_line_end(s: Seq<char>, i: int) -> int
    decreases s.len() - i,
{
    if 0 <= i < s.len() && s[i] != '\n' {
        sp_line_end(s, i + 1)
    } else {
        i
    }
}

/// The first position at or after `i` that is not horizontal space.
pub open spec fn sp_hskip(s: Seq<char>, i: int) -> int
    decreases s.len() - i,
{
    if 0 <= i < s.len() && is_hspace(s[i]) {
        sp_hskip(s, i + 1)
    } else {
        i
    }
}

/// The first position at or after `i` that is not whitespace.
pub open spec fn sp_wskip(s: Seq<char>, i: int) -> int
    decreases s.len() - i,
{
    if 0 <= i < s.len() && is_ws_char(s[i]) {
        sp_wskip(s, i + 1)
    } else {
        i
    }
}

proof fn lemma_line_end_bounds(s: Seq<char>, i: int)
    requires
        0 <= i <= s.len(),
    ensures
        i <= sp_line_end(s, i) <= s.len(),
    decreases s.len() - i,
{
    if i < s.len() && s[i] != '\n' {
        lemma_line_end_bounds(s, i + 1);
    }
}

proof fn lemma_hskip_bounds(s: Seq<char>, i: int)
    requires
        0 <= i <= s.len(),
    ensures
        i <= sp_hskip(s, i) <= s.len(),
    decreases s.len() - i,
{
    if i < s.len() && is_hspace(s[i]) {
        lemma_hskip_bounds(s, i + 1);
    }
}

fn text_end(s: &str, i: usize) -> (e: usize)
    requires
        i <= s@.len(),
    ensures
        e as int == sp_text_end(s@, i as int),
        i <= e <= s@.len(),
{
    let n = s.unicode_len();
    let mut cur = i;
    while cur < n && text_char(s.get_char(cur))
        invariant
            i <= cur <= n,
            n == s@.len(),
            sp_text_end(s@, i as int) == sp_text_end(s@, cur as int),
        decreases n - cur,
    {
        cur = cur + 1;
    }
    cur
}

fn name_end(s: &str, i: usize) -> (e: usize)
    requires
        i <= s@.len(),
    ensures
        e as int == sp_name_end(s@, i as int),
        i <= e <= s@.len(),
{
    let n = s.unicode_len();
    let mut cur = i;
    while cur < n && name_char(s.get_char(cur))
        invariant
            i <= cur <= n,
            n == s@.len(),
            sp_name_end(s@, i as int) == sp_name_end(s@, cur as int),
        decreases n - cur,
    {
        cur = cur + 1;
    }
    cur
}

fn line_end(s: &str, i: usize) -> (e: usize)
    requires
        i <= s@.len(),
    ensures
        e as int == sp_line_end(s@, i as int),
        i <= e <= s@.len(),
{
    let n = s.unicode_len();
    let mut cur = i;
    while cur < n && s.get_char(cur) != '\n'
        invariant
            i <= cur <= n,
            n == s@.len(),
            sp_line_end(s@, i as int) == sp_line_end(s@, cur as int),
        decreases n - cur,
    {
        cur = cur + 1;
    }
    cur
}

fn hskip(s: &str, i: usize) -> (e: usize)
    requires
        i <= s@.len(),
    ensures
        e as int == sp_hskip(s@, i as int),
        i <= e <= s@.len(),
{
    let n = s.unicode_len();
    let mut cur = i;
    while cur < n && hspace_char(s.get_char(cur))
        invariant
            i <= cur <= n,
            n == s@.len(),
            sp_hskip(s@, i as int) == sp_hskip(s@, cur as int),
        decreases n - cur,
    {
        cur = cur + 1;
    }
    cur
}

fn wskip(s: &str, i: usize) -> (e: usize)
    requires
        i <= s@.len(),
    ensures
        e as int == sp_wskip(s@, i as int),
        i <= e <= s@.len(),
{
    let n = s.unicode_len();
    let mut cur = i;
    while cur < n && ws_char(s.get_char(cur))
        invariant
            i <= cur <= n,
            n == s@.len(),
            sp_wskip(s@, i as int) == sp_wskip(s@, cur as int),
        decreases n - cur,
    {
        cur = cur + 1;
    }
    cur
}

// ---------------------------------------------------------------------------
// Literal matching
// ---------------------------------------------------------------------------

/// The literal `lit` stands in `s` at position `i`.
pub open spec fn sp_match_lit(s: Seq<char>, i: int, lit: Seq<char>) -> bool {
    0 <= i && i + lit.len() <= s.len() && s.subrange(i, i + lit.len()) == lit
}

fn match_lit(s: &str, i: usize, lit: &str) -> (r: bool)
    requires
        i <= s@.len(),
    ensures
        r == sp_match_lit(s@, i as int, lit@),
        r ==> s@.len() <= usize::MAX,
{
    let n = s.unicode_len();
    let m = lit.unicode_len();
    if m > n - i {
        assert(!sp_match_lit(s@, i as int, lit@));
        return false;
    }
    let mut j: usize = 0;
    while j < m
        invariant
            i + m <= n,
            n == s@.len(),
            m == lit@.len(),
            0 <= j <= m,
            forall|k: int| 0 <= k < j ==> s@[i + k] == lit@[k],
        decreases m - j,
    {
        if s.get_char(i + j) != lit.get_char(j) {
            assert(s@.subrange(i as int, i as int + lit@.len())[j as int] != lit@[j as int]);
            return false;
        }
        j = j + 1;
    }
    proof {
        assert(s@.subrange(i as int, i as int + lit@.len()) =~= lit@);
    }
    true
}

// ---------------------------------------------------------------------------
// Notes inside chords
// ---------------------------------------------------------------------------

/// The note letter a character names, in either case.
pub open spec fn sp_letter_of(c: char) -> Option<NoteLetter> {
    match c {
        'A' | 'a' => Option::Some(NoteLetter::A),
        'B' | 'b' => Option::Some(NoteLetter::B),
        'C' | 'c' => Option::Some(NoteLetter::C),
        'D' | 'd' => Option::Some(NoteLetter::D),
        'E' | 'e' => Option::Some(NoteLetter::E),
        'F' | 'f' => Option::Some(NoteLetter::F),
        'G' | 'g' => Option::Some(NoteLetter::G),
        _ => Option::None,
    }
}

fn letter_of(c: char) -> (r: Option<NoteLetter>)
    ensures
        r == sp_letter_of(c),
{
    match c {
        'A' | 'a' => Option::Some(NoteLetter::A),
        'B' | 'b' => Option::Some(NoteLetter::B),
        'C' | 'c' => Option::Some(NoteLetter::C),
        'D' | 'd' => Option::Some(NoteLetter::D),
        'E' | 'e' => Option::Some(NoteLetter::E),
        'F' | 'f' => Option::Some(NoteLetter::F),
        'G' | 'g' => Option::Some(NoteLetter::G),
        _ => Option::None,
    }
}

/// A note inside a chord: a letter in either case, then an optional
/// accidental; the accidental is taken greedily.
pub open spec fn sp_chord_note(s: Seq<char>, i: int) -> Option<(Note, int)> {
    if 0 <= i < s.len() {
        match sp_letter_of(s[i]) {
            Option::Some(l) => {
                if i + 1 < s.len() && s[i + 1] == '#' {
                    Option::Some((Note { letter: l, accidental: Accidental::Sharp }, i + 2))
                } else if i + 1 < s.len() && s[i + 1] == 'b' {
                    Option::Some((Note { letter: l, accidental: Accidental::Flat }, i + 2))
                } else {
                    Option::Some((Note { letter: l, accidental: Accidental::Natural }, i + 1))
                }
            },
            Option::None => Option::None,
        }
    } else {
        Option::None
    }
}

fn chord_note_at(s: &str, i: usize) -> (r: Option<(Note, usize)>)
    requires
        i <= s@.len(),
    ensures
        match r {
            Option::Some((n, j)) => sp_chord_note(s@, i as int) == Option::Some((n, j as int))
                && i < j <= s@.len(),
            Option::None => sp_chord_note(s@, i as int) is None,
        },
{
    let n = s.unicode_len();
    if i >= n {
        return Option::None;
    }
    match letter_of(s.get_char(i)) {
        Option::Some(l) => {
            if i + 1 < n && s.get_char(i + 1) == '#' {
                Option::Some((Note { letter: l, accidental: Accidental::Sharp }, i + 2))
            } else if i + 1 < n && s.get_char(i + 1) == 'b' {
                Option::Some((Note { letter: l, accidental: Accidental::Flat }, i + 2))
            } else {
                Option::Some((Note { letter: l, accidental: Accidental::Natural }, i + 1))
            }
        },
        Option::None => Option::None,
    }
}

// ---------------------------------------------------------------------------
// Quality and extension vocabulary
// ---------------------------------------------------------------------------

/// The quality token at `i`, tried in the fixed order of the vocabulary.
pub open spec fn sp_quality(s: Seq<char>, i: int) -> Option<(Seq<char>, int)> {
    if sp_match_lit(s, i, "maj"@) {
        Option::Some(("maj"@, i + "maj"@.len()))
    } else if sp_match_lit(s, i, "min"@) {
        Option::Some(("min"@, i + "min"@.len()))
    } else if sp_match_lit(s, i, "dim"@) {
        Option::Some(("dim"@, i + "dim"@.len()))
    } else if sp_match_lit(s, i, "aug"@) {
        Option::Some(("aug"@, i + "aug"@.len()))
    } else if sp_match_lit(s, i, "m"@) {
        Option::Some(("m"@, i + "m"@.len()))
    } else if sp_match_lit(s, i, "+"@) {
        Option::Some(("+"@, i + "+"@.len()))
    } else {
        Option::None
    }
}

/// The extension token at `i`, tried in the fixed order of the vocabulary.
pub open spec fn sp_ext(s: Seq<char>, i: int) -> Option<(Seq<char>, int)> {
    if sp_match_lit(s, i, "7"@) {
        Option::Some(("7"@, i + "7"@.len()))
    } else if sp_match_lit(s, i, "9"@) {
        Option::Some(("9"@, i + "9"@.len()))
    } else if sp_match_lit(s, i, "11"@) {
        Option::Some(("11"@, i + "11"@.len()))
    } else if sp_match_lit(s, i, "13"@) {
        Option::Some(("13"@, i + "13"@.len()))
    } else if sp_match_lit(s, i, "maj7"@) {
        Option::Some(("maj7"@, i + "maj7"@.len()))
    } else if sp_match_lit(s, i, "maj9"@) {
        Option::Some(("maj9"@, i + "maj9"@.len()))
    } else if sp_match_lit(s, i, "min7"@) {
        Option::Some(("min7"@, i + "min7"@.len()))
    } else if sp_match_lit(s, i, "min9"@) {
        Option::Some(("min9"@, i + "min9"@.len()))
    } else if sp_match_lit(s, i, "b5"@) {
        Option::Some(("b5"@, i + "b5"@.len()))
    } else if sp_match_lit(s, i, "b9"@) {
        Option::Some(("b9"@, i + "b9"@.len()))
    } else if sp_match_lit(s, i, "b11"@) {
        Option::Some(("b11"@, i + "b11"@.len()))
    } else if sp_match_lit(s, i, "b13"@) {
        Option::Some(("b13"@, i + "b13"@.len()))
    } else if sp_match_lit(s, i, "#5"@) {
        Option::Some(("#5"@, i + "#5"@.len()))
    } else if sp_match_lit(s, i, "#9"@) {
        Option::Some(("#9"@, i + "#9"@.len()))
    } else if sp_match_lit(s, i, "#11"@) {
        Option::Some(("#11"@, i + "#11"@.len()))
    } else if sp_match_lit(s, i, "#13"@) {
        Option::Some(("#13"@, i + "#13"@.len()))
    } else if sp_match_lit(s, i, "dim7"@) {
        Option::Some(("dim7"@, i + "dim7"@.len()))
    } else if sp_match_lit(s, i, "dim9"@) {
        Option::Some(("dim9"@, i + "dim9"@.len()))
    } else if sp_match_lit(s, i, "sus2"@) {
        Option::Some(("sus2"@, i + "sus2"@.len()))
    } else if sp_match_lit(s, i, "sus4"@) {
        Option::Some(("sus4"@, i + "sus4"@.len()))
    } else if sp_match_lit(s, i, "dim"@) {
        Option::Some(("dim"@, i + "dim"@.len()))
    } else if sp_match_lit(s, i, "aug"@) {
        Option::Some(("aug"@, i + "aug"@.len()))
    } else {
        Option::None
    }
}

proof fn lemma_quality_advance(s: Seq<char>, i: int)
    ensures
        sp_quality(s, i) matches Option::Some(t) ==> i < t.1 <= s.len(),
{
    reveal_strlit("maj");
    reveal_strlit("min");
    reveal_strlit("dim");
    reveal_strlit("aug");
    reveal_strlit("m");
    reveal_strlit("+");
}

proof fn lemma_ext_advance(s: Seq<char>, i: int)
    ensures
        sp_ext(s, i) matches Option::Some(t) ==> i < t.1 <= s.len(),
{
    reveal_strlit("7");
    reveal_strlit("9");
    reveal_strlit("11");
    reveal_strlit("13");
    reveal_strlit("maj7");
    reveal_strlit("maj9");
    reveal_strlit("min7");
    reveal_strlit("min9");
    reveal_strlit("b5");
    reveal_strlit("b9");
    reveal_strlit("b11");
    reveal_strlit("b13");
    reveal_strlit("#5");
    reveal_strlit("#9");
    reveal_strlit("#11");
    reveal_strlit("#13");
    reveal_strlit("dim7");
    reveal_strlit("dim9");
    reveal_strlit("sus2");
    reveal_strlit("sus4");
    reveal_strlit("dim");
    reveal_strlit("aug");
}

/// Match one literal and return the position after it.
fn try_lit(s: &str, i: usize, lit: &str) -> (r: Option<usize>)
    requires
        i <= s@.len(),
    ensures
        match r {
            Option::Some(j) => sp_match_lit(s@, i as int, lit@) && j as int == i + lit@.len()
                && i <= j <= s@.len(),
            Option::None => !sp_match_lit(s@, i as int, lit@),
        },
{
    if match_lit(s, i, lit) {
        let m = lit.unicode_len();
        Option::Some(i + m)
    } else {
        Option::None
    }
}

fn quality_at(s: &str, i: usize) -> (r: Option<(String, usize)>)
    requires
        i <= s@.len(),
    ensures
        match r {
            Option::Some((q, j)) => sp_quality(s@, i as int) == Option::Some((q@, j as int)),
            Option::None => sp_quality(s@, i as int) is None,
        },
{
    if let Option::Some(j) = try_lit(s, i, "maj") {
        Option::Some(("maj".to_owned(), j))
    } else if let Option::Some(j) = try_lit(s, i, "min") {
        Option::Some(("min".to_owned(), j))
    } else if let Option::Some(j) = try_lit(s, i, "dim") {
        Option::Some(("dim".to_owned(), j))
    } else if let Option::Some(j) = try_lit(s, i, "aug") {
        Option::Some(("aug".to_owned(), j))
    } else if let Option::Some(j) = try_lit(s, i, "m") {
        Option::Some(("m".to_owned(), j))
    } else if let Option::Some(j) = try_lit(s, i, "+") {
        Option::Some(("+".to_owned(), j))
    } else {
        Option::None
    }
}

fn ext_at(s: &str, i: usize) -> (r: Option<(String, usize)>)
    requires
        i <= s@.len(),
    ensures
        match r {
            Option::Some((t, j)) => sp_ext(s@, i as int) == Option::Some((t@, j as int)),
            Option::None => sp_ext(s@, i as int) is None,
        },
{
    if let Option::Some(j) = try_lit(s, i, "7") {
        Option::Some(("7".to_owned(), j))
    } else if let Option::Some(j) = try_lit(s, i, "9") {
        Option::Some(("9".to_owned(), j))
    } else if let Option::Some(j) = try_lit(s, i, "11") {
        Option::Some(("11".to_owned(), j))
    } else if let Option::Some(j) = try_lit(s, i, "13") {
        Option::Some(("13".to_owned(), j))
    } else if let Option::Some(j) = try_lit(s, i, "maj7") {
        Option::Some(("maj7".to_owned(), j))
    } else if let Option::Some(j) = try_lit(s, i, "maj9") {
        Option::Some(("maj9".to_owned(), j))
    } else if let Option::Some(j) = try_lit(s, i, "min7") {
        Option::Some(("min7".to_owned(), j))
    } else if let Option::Some(j) = try_lit(s, i, "min9") {
        Option::Some(("min9".to_owned(), j))
    } else if let Option::Some(j) = try_lit(s, i, "b5") {
        Option::Some(("b5".to_owned(), j))
    } else if let Option::Some(j) = try_lit(s, i, "b9") {
        Option::Some(("b9".to_owned(), j))
    } else if let Option::Some(j) = try_lit(s, i, "b11") {
        Option::Some(("b11".to_owned(), j))
    } else if let Option::Some(j) = try_lit(s, i, "b13") {
        Option::Some(("b13".to_owned(), j))
    } else if let Option::Some(j) = try_lit(s, i, "#5") {
        Option::Some(("#5".to_owned(), j))
    } else if let Option::Some(j) = try_lit(s, i, "#9") {
        Option::Some(("#9".to_owned(), j))
    } else if let Option::Some(j) = try_lit(s, i, "#11") {
        Option::Some(("#11".to_owned(), j))
    } else if let Option::Some(j) = try_lit(s, i, "#13") {
        Option::Some(("#13".to_owned(), j))
    } else if let Option::Some(j) = try_lit(s, i, "dim7") {
        Option::Some(("dim7".to_owned(), j))
    } else if let Option::Some(j) = try_lit(s, i, "dim9") {
        Option::Some(("dim9".to_owned(), j))
    } else if let Option::Some(j) = try_lit(s, i, "sus2") {
        Option::Some(("sus2".to_owned(), j))
    } else if let Option::Some(j) = try_lit(s, i, "sus4") {
        Option::Some(("sus4".to_owned(), j))
    } else if let Option::Some(j) = try_lit(s, i, "dim") {
        Option::Some(("dim".to_owned(), j))
    } else if let Option::Some(j) = try_lit(s, i, "aug") {
        Option::Some(("aug".to_owned(), j))
    } else {
        Option::None
    }
}

// ---------------------------------------------------------------------------
// Chords
// ---------------------------------------------------------------------------

/// The run of extension tokens at `i`, each classified and kept in order.
pub open spec fn sp_exts(s: Seq<char>, i: int) -> (Seq<Option<Seq<char>>>, int)
    decreases s.len() - i,
{
    match sp_ext(s, i) {
        Option::Some(t) => {
            if i < t.1 && t.1 <= s.len() {
                let rest = sp_exts(s, t.1);
                (seq![Option::Some(t.0)] + rest.0, rest.1)
            } else {
                (seq![], i)
            }
        },
        Option::None => (seq![], i),
    }
}

fn exts_at(s: &str, i: usize) -> (r: (Vec<Option<String>>, usize))
    requires
        i <= s@.len(),
    ensures
        crate::ast::view_exts(r.0@) == sp_exts(s@, i as int).0,
        r.1 as int == sp_exts(s@, i as int).1,
        i <= r.1 <= s@.len(),
    decreases s@.len() - i,
{
    match ext_at(s, i) {
        Option::Some((t, j)) => {
            proof {
                lemma_ext_advance(s@, i as int);
            }
            let (mut rest, e) = exts_at(s, j);
            rest.insert(0, Option::Some(t));
            proof {
                assert(crate::ast::view_exts(rest@) =~= sp_exts(s@, i as int).0);
            }
            (rest, e)
        },
        Option::None => {
            let r: Vec<Option<String>> = Vec::new();
            proof {
                assert(crate::ast::view_exts(r@) =~= sp_exts(s@, i as int).0);
            }
            (r, i)
        },
    }
}

/// A chord body: root note, optional quality, extensions, optional slash
/// bass.
pub open spec fn sp_chord(s: Seq<char>, i: int) -> Option<(ChordV, int)> {
    match sp_chord_note(s, i) {
        Option::None => Option::None,
        Option::Some((root, j)) => {
            let after_q = match sp_quality(s, j) {
                Option::Some(t) => (Option::Some(t.0), t.1),
                Option::None => (Option::None, j),
            };
            let exts = sp_exts(s, after_q.1);
            let j3 = exts.1;
            if j3 < s.len() && s[j3] == '/' {
                match sp_chord_note(s, j3 + 1) {
                    Option::Some((bass, j4)) => Option::Some(
                        (
                            ChordV {
                                root,
                                inversion: Option::None,
                                quality: after_q.0,
                                extensions: exts.0,
                                bass: Option::Some(bass),
                            },
                            j4,
                        ),
                    ),
                    Option::None => Option::None,
                }
            } else {
                Option::Some(
                    (
                        ChordV {
                            root,
                            inversion: Option::None,
                            quality: after_q.0,
                            extensions: exts.0,
                            bass: Option::None,
                        },
                        j3,
                    ),
                )
            }
        },
    }
}

fn chord_at(s: &str, i: usize) -> (r: Option<(Chord, usize)>)
    requires
        i <= s@.len(),
    ensures
        match r {
            Option::Some((c, j)) => sp_chord(s@, i as int) == Option::Some((c@, j as int))
                && i < j <= s@.len(),
            Option::None => sp_chord(s@, i as int) is None,
        },
{
    let root = match chord_note_at(s, i) {
        Option::Some((n, j)) => (n, j),
        Option::None => {
            return Option::None;
        },
    };
    let (root_note, j) = root;
    let after_q = match quality_at(s, j) {
        Option::Some((q, k)) => {
            proof {
                lemma_quality_advance(s@, j as int);
            }
            (Option::Some(q), k)
        },
        Option::None => (Option::None, j),
    };
    let (quality, j2) = after_q;
    let (extensions, j3) = exts_at(s, j2);
    let ghost spc = sp_chord(s@, i as int);
    if j3 < s.unicode_len() && s.get_char(j3) == '/' {
        match chord_note_at(s, j3 + 1) {
            Option::Some((bass, j4)) => {
                let c = Chord {
                    root: root_note,
                    inversion: Option::None,
                    quality,
                    extensions,
                    bass: Option::Some(bass),
                };
                proof {
                    assert(c@ =~= spc->Some_0.0);
                }
                Option::Some((c, j4))
            },
            Option::None => Option::None,
        }
    } else {
        let c = Chord {
            root: root_note,
            inversion: Option::None,
            quality,
            extensions,
            bass: Option::None,
        };
        proof {
            assert(c@ =~= spc->Some_0.0);
        }
        Option::Some((c, j3))
    }
}

/// A chord token: a chord body between `[` and `]`.
pub open spec fn sp_chord_token(s: Seq<char>, i: int) -> Option<(ChordV, int)> {
    if 0 <= i < s.len() && s[i] == '[' {
        match sp_chord(s, i + 1) {
            Option::Some((c, j)) => {
                if j < s.len() && s[j] == ']' {
                    Option::Some((c, j + 1))
                } else {
                    Option::None
                }
            },
            Option::None => Option::None,
        }
    } else {
        Option::None
    }
}

fn chord_token_at(s: &str, i: usize) -> (r: Option<(Chord, usize)>)
    requires
        i <= s@.len(),
    ensures
        match r {
            Option::Some((c, j)) => sp_chord_token(s@, i as int) == Option::Some((c@, j as int))
                && i < j <= s@.len(),
            Option::None => sp_chord_token(s@, i as int) is None,
        },
{
    if i < s.unicode_len() && s.get_char(i) == '[' {
        match chord_at(s, i + 1) {
            Option::Some((c, j)) => {
                if j < s.unicode_len() && s.get_char(j) == ']' {
                    Option::Some((c, j + 1))
                } else {
                    Option::None
                }
            },
            Option::None => Option::None,
        }
    } else {
        Option::None
    }
}

// ---------------------------------------------------------------------------
// Text tokens, items, item runs
// ---------------------------------------------------------------------------

/// A text token: a nonempty run of non-structural characters.
pub open spec fn sp_text_tok(s: Seq<char>, i: int) -> Option<(Seq<char>, int)> {
    let e = sp_text_end(s, i);
    if 0 <= i && i < e && e <= s.len() {
        Option::Some((s.subrange(i, e), e))
    } else {
        Option::None
    }
}

fn text_tok_at(s: &str, i: usize) -> (r: Option<(String, usize)>)
    requires
        i <= s@.len(),
    ensures
        match r {
            Option::Some((t, j)) => sp_text_tok(s@, i as int) == Option::Some((t@, j as int))
                && i < j <= s@.len(),
            Option::None => sp_text_tok(s@, i as int) is None,
        },
{
    let e = text_end(s, i);
    if i < e {
        let t = s.substring_char(i, e).to_owned();
        Option::Some((t, e))
    } else {
        Option::None
    }
}

/// One chord-or-text item: a chord token where `[` opens one, else a text
/// token.
pub open spec fn sp_item(s: Seq<char>, i: int) -> Option<(ChordOrTextV, int)> {
    if 0 <= i < s.len() && s[i] == '[' {
        match sp_chord_token(s, i) {
            Option::Some((c, j)) => Option::Some((ChordOrTextV::Chord(c), j)),
            Option::None => Option::None,
        }
    } else {
        match sp_text_tok(s, i) {
            Option::Some((t, j)) => Option::Some((ChordOrTextV::Text(t), j)),
            Option::None => Option::None,
        }
    }
}

fn item_at(s: &str, i: usize) -> (r: Option<(ChordOrText, usize)>)
    requires
        i <= s@.len(),
    ensures
        match r {
            Option::Some((x, j)) => sp_item(s@, i as int) == Option::Some((x@, j as int)) && i < j
                <= s@.len(),
            Option::None => sp_item(s@, i as int) is None,
        },
{
    if i < s.unicode_len() && s.get_char(i) == '[' {
        match chord_token_at(s, i) {
            Option::Some((c, j)) => Option::Some((ChordOrText::Chord(c), j)),
            Option::None => Option::None,
        }
    } else {
        match text_tok_at(s, i) {
            Option::Some((t, j)) => Option::Some((ChordOrText::Text(t), j)),
            Option::None => Option::None,
        }
    }
}

/// The run of items at `i`, horizontal space before each item skipped.
pub open spec fn sp_items(s: Seq<char>, i: int) -> (Seq<ChordOrTextV>, int)
    decreases s.len() - i,
{
    let k = sp_hskip(s, i);
    match sp_item(s, k) {
        Option::Some((x, j)) => {
            if i < j && j <= s.len() {
                let rest = sp_items(s, j);
                (seq![x] + rest.0, rest.1)
            } else {
                (seq![], i)
            }
        },
        Option::None => (seq![], i),
    }
}

fn items_at(s: &str, i: usize) -> (r: (Vec<ChordOrText>, usize))
    requires
        i <= s@.len(),
    ensures
        view_items(r.0@) == sp_items(s@, i as int).0,
        r.1 as int == sp_items(s@, i as int).1,
        i <= r.1 <= s@.len(),
    decreases s@.len() - i,
{
    let k = hskip(s, i);
    match item_at(s, k) {
        Option::Some((x, j)) => {
            let (mut rest, e) = items_at(s, j);
            rest.insert(0, x);
            proof {
                assert(view_items(rest@) =~= sp_items(s@, i as int).0);
            }
            (rest, e)
        },
        Option::None => {
            let r: Vec<ChordOrText> = Vec::new();
            proof {
                assert(view_items(r@) =~= sp_items(s@, i as int).0);
            }
            (r, i)
        },
    }
}

// ---------------------------------------------------------------------------
// Measures and segments
// ---------------------------------------------------------------------------

/// A measure: one or more items between two bars.
pub open spec fn sp_measure(s: Seq<char>, i: int) -> Option<(Seq<ChordOrTextV>, int)> {
    if 0 <= i < s.len() && s[i] == '|' {
        let r = sp_items(s, i + 1);
        if r.0.len() >= 1 && r.1 < s.len() && s[r.1] == '|' {
            Option::Some((r.0, r.1 + 1))
        } else {
            Option::None
        }
    } else {
        Option::None
    }
}

fn measure_at(s: &str, i: usize) -> (r: Option<(Vec<ChordOrText>, usize)>)
    requires
        i <= s@.len(),
    ensures
        match r {
            Option::Some((items, j)) => sp_measure(s@, i as int) == Option::Some(
                (view_items(items@), j as int),
            ) && i < j <= s@.len(),
            Option::None => sp_measure(s@, i as int) is None,
        },
{
    if i < s.unicode_len() && s.get_char(i) == '|' {
        let (items, e) = items_at(s, i + 1);
        if items.len() >= 1 && e < s.unicode_len() && s.get_char(e) == '|' {
            proof {
                assert(view_items(items@).len() == items@.len());
            }
            Option::Some((items, e + 1))
        } else {
            proof {
                assert(view_items(items@).len() == items@.len());
            }
            Option::None
        }
    } else {
        Option::None
    }
}

/// The run of segments at `i`: measures and inline runs, in source order.
pub open spec fn sp_segments(s: Seq<char>, i: int) -> (Seq<SegmentV>, int)
    decreases s.len() - i,
{
    let k = sp_hskip(s, i);
    if 0 <= k < s.len() && s[k] == '|' {
        match sp_measure(s, k) {
            Option::Some((items, j)) => {
                if i < j && j <= s.len() {
                    let rest = sp_segments(s, j);
                    (seq![SegmentV::Measure(items)] + rest.0, rest.1)
                } else {
                    (seq![], i)
                }
            },
            Option::None => (seq![], i),
        }
    } else {
        let r = sp_items(s, i);
        if r.0.len() >= 1 && i < r.1 && r.1 <= s.len() {
            let rest = sp_segments(s, r.1);
            (seq![SegmentV::Inline(r.0)] + rest.0, rest.1)
        } else {
            (seq![], i)
        }
    }
}

fn segments_at(s: &str, i: usize) -> (r: (Vec<Segment>, usize))
    requires
        i <= s@.len(),
    ensures
        view_segments(r.0@) == sp_segments(s@, i as int).0,
        r.1 as int == sp_segments(s@, i as int).1,
        i <= r.1 <= s@.len(),
    decreases s@.len() - i,
{
    let k = hskip(s, i);
    if k < s.unicode_len() && s.get_char(k) == '|' {
        match measure_at(s, k) {
            Option::Some((items, j)) => {
                let seg = Segment::Measure(items);
                let (mut rest, e) = segments_at(s, j);
                rest.insert(0, seg);
                proof {
                    assert(view_segments(rest@) =~= sp_segments(s@, i as int).0);
                }
                (rest, e)
            },
            Option::None => {
                let r: Vec<Segment> = Vec::new();
                proof {
                    assert(view_segments(r@) =~= sp_segments(s@, i as int).0);
                }
                (r, i)
            },
        }
    } else {
        let (items, e0) = items_at(s, i);
        if items.len() >= 1 && i < e0 {
            proof {
                assert(view_items(items@).len() == items@.len());
            }
            let seg = Segment::Inline(items);
            let (mut rest, e) = segments_at(s, e0);
            rest.insert(0, seg);
            proof {
                assert(view_segments(rest@) =~= sp_segments(s@, i as int).0);
            }
            (rest, e)
        } else {
            proof {
                assert(view_items(items@).len() == items@.len());
            }
            let r: Vec<Segment> = Vec::new();
            proof {
                assert(view_segments(r@) =~= sp_segments(s@, i as int).0);
            }
            (r, i)
        }
    }
}

// ---------------------------------------------------------------------------
// Section headers and blocks
// ---------------------------------------------------------------------------

/// A section header: a `#` line, kept raw with its marker; the line break
/// after it is consumed.
pub open spec fn sp_section_header(s: Seq<char>, i: int) -> Option<(Seq<char>, int)> {
    if 0 <= i < s.len() && s[i] == '#' {
        let e = sp_line_end(s, i);
        let nxt = if e < s.len() {
            e + 1
        } else {
            e
        };
        Option::Some((s.subrange(i, e), nxt))
    } else {
        Option::None
    }
}

fn section_header_at(s: &str, i: usize) -> (r: Option<(String, usize)>)
    requires
        i <= s@.len(),
    ensures
        match r {
            Option::Some((raw, j)) => sp_section_header(s@, i as int) == Option::Some(
                (raw@, j as int),
            ) && i < j <= s@.len(),
            Option::None => sp_section_header(s@, i as int) is None,
        },
{
    if i < s.unicode_len() && s.get_char(i) == '#' {
        let e = line_end(s, i);
        proof {
            assert(sp_line_end(s@, i as int) == sp_line_end(s@, i as int + 1));
            lemma_line_end_bounds(s@, i as int + 1);
        }
        let raw = s.substring_char(i, e).to_owned();
        let nxt = if e < s.unicode_len() {
            e + 1
        } else {
            e
        };
        Option::Some((raw, nxt))
    } else {
        Option::None
    }
}

/// A block: a section header, then at least one segment; all the block's
/// segments form one authored lyric line.
pub open spec fn sp_block(s: Seq<char>, i: int) -> Option<(BlockV, int)> {
    match sp_section_header(s, i) {
        Option::None => Option::None,
        Option::Some((raw, c)) => {
            if 0 <= c <= s.len() {
                let r = sp_segments(s, c);
                if r.0.len() >= 1 {
                    Option::Some(
                        (
                            BlockV {
                                section_name: raw,
                                lines: seq![LyricLineV { segments: r.0 }],
                            },
                            r.1,
                        ),
                    )
                } else {
                    Option::None
                }
            } else {
                Option::None
            }
        },
    }
}

fn block_at(s: &str, i: usize) -> (r: Option<(Block, usize)>)
    requires
        i <= s@.len(),
    ensures
        match r {
            Option::Some((b, j)) => sp_block(s@, i as int) == Option::Some((b@, j as int)) && i < j
                <= s@.len(),
            Option::None => sp_block(s@, i as int) is None,
        },
{
    match section_header_at(s, i) {
        Option::None => Option::None,
        Option::Some((raw, c)) => {
            let (segs, e) = segments_at(s, c);
            if segs.len() >= 1 {
                proof {
                    assert(view_segments(segs@).len() == segs@.len());
                }
                let line = LyricLine { segments: segs };
                let mut lines: Vec<LyricLine> = Vec::new();
                let ghost lv = line@;
                lines.push(line);
                let b = Block { section_name: raw, lines };
                proof {
                    assert(crate::ast::view_lines(lines@) =~= seq![lv]);
                    assert(b@ =~= sp_block(s@, i as int)->Some_0.0);
                }
                Option::Some((b, e))
            } else {
                proof {
                    assert(view_segments(segs@).len() == segs@.len());
                }
                Option::None
            }
        },
    }
}

/// The run of blocks at `i`, whitespace before each block skipped.
pub open spec fn sp_blocks(s: Seq<char>, i: int) -> (Seq<BlockV>, int)
    decreases s.len() - i,
{
    let k = sp_wskip(s, i);
    if 0 <= k < s.len() && s[k] == '#' {
        match sp_block(s, k) {
            Option::Some((b, j)) => {
                if i < j && j <= s.len() {
                    let rest = sp_blocks(s, j);
                    (seq![b] + rest.0, rest.1)
                } else {
                    (seq![], i)
                }
            },
            Option::None => (seq![], i),
        }
    } else {
        (seq![], i)
    }
}

fn blocks_at(s: &str, i: usize) -> (r: (Vec<Block>, usize))
    requires
        i <= s@.len(),
    ensures
        crate::ast::view_blocks(r.0@) == sp_blocks(s@, i as int).0,
        r.1 as int == sp_blocks(s@, i as int).1,
        i <= r.1 <= s@.len(),
    decreases s@.len() - i,
{
    let k = wskip(s, i);
    if k < s.unicode_len() && s.get_char(k) == '#' {
        match block_at(s, k) {
            Option::Some((b, j)) => {
                let (mut rest, e) = blocks_at(s, j);
                rest.insert(0, b);
                proof {
                    assert(crate::ast::view_blocks(rest@) =~= sp_blocks(s@, i as int).0);
                }
                (rest, e)
            },
            Option::None => {
                let r: Vec<Block> = Vec::new();
                proof {
                    assert(crate::ast::view_blocks(r@) =~= sp_blocks(s@, i as int).0);
                }
                (r, i)
            },
        }
    } else {
        let r: Vec<Block> = Vec::new();
        proof {
            assert(crate::ast::view_blocks(r@) =~= sp_blocks(s@, i as int).0);
        }
        (r, i)
    }
}

// ---------------------------------------------------------------------------
// Directives
// ---------------------------------------------------------------------------

/// A directive line: `@`, a name, an optional colon, horizontal space, then
/// the value up to the end of the line.
pub open spec fn sp_directive(s: Seq<char>, i: int) -> Option<(DirectiveV, int)> {
    if 0 <= i < s.len() && s[i] == '@' {
        let ne = sp_name_end(s, i + 1);
        if ne > i + 1 && ne <= s.len() {
            let name = s.subrange(i + 1, ne);
            let after_colon = if ne < s.len() && s[ne] == ':' {
                ne + 1
            } else {
                ne
            };
            let vs = sp_hskip(s, after_colon);
            let ve = sp_line_end(s, vs);
            if vs <= ve <= s.len() {
                let value = s.subrange(vs, ve);
                let nxt = if ve < s.len() {
                    ve + 1
                } else {
                    ve
                };
                Option::Some((DirectiveV { name, value }, nxt))
            } else {
                Option::None
            }
        } else {
            Option::None
        }
    } else {
        Option::None
    }
}

fn directive_at(s: &str, i: usize) -> (r: Option<(Directive, usize)>)
    requires
        i <= s@.len(),
    ensures
        match r {
            Option::Some((d, j)) => sp_directive(s@, i as int) == Option::Some((d@, j as int))
                && i < j <= s@.len(),
            Option::None => sp_directive(s@, i as int) is None,
        },
{
    if i < s.unicode_len() && s.get_char(i) == '@' {
        let ne = name_end(s, i + 1);
        if ne > i + 1 {
            let name = s.substring_char(i + 1, ne).to_owned();
            let after_colon = if ne < s.unicode_len() && s.get_char(ne) == ':' {
                ne + 1
            } else {
                ne
            };
            let vs = hskip(s, after_colon);
            let ve = line_end(s, vs);
            let value = s.substring_char(vs, ve).to_owned();
            let nxt = if ve < s.unicode_len() {
                ve + 1
            } else {
                ve
            };
            Option::Some((Directive { name, value }, nxt))
        } else {
            Option::None
        }
    } else {
        Option::None
    }
}

/// The run of directives at `i`, whitespace before each one skipped.
pub open spec fn sp_directives(s: Seq<char>, i: int) -> (Seq<DirectiveV>, int)
    decreases s.len() - i,
{
    let k = sp_wskip(s, i);
    if 0 <= k < s.len() && s[k] == '@' {
        match sp_directive(s, k) {
            Option::Some((d, j)) => {
                if i < j && j <= s.len() {
                    let rest = sp_directives(s, j);
                    (seq![d] + rest.0, rest.1)
                } else {
                    (seq![], i)
                }
            },
            Option::None => (seq![], i),
        }
    } else {
        (seq![], i)
    }
}

fn directives_at(s: &str, i: usize) -> (r: (Vec<Directive>, usize))
    requires
        i <= s@.len(),
    ensures
        crate::ast::view_dir_list(r.0@) == sp_directives(s@, i as int).0,
        r.1 as int == sp_directives(s@, i as int).1,
        i <= r.1 <= s@.len(),
    decreases s@.len() - i,
{
    let k = wskip(s, i);
    if k < s.unicode_len() && s.get_char(k) == '@' {
        match directive_at(s, k) {
            Option::Some((d, j)) => {
                let (mut rest, e) = directives_at(s, j);
                rest.insert(0, d);
                proof {
                    assert(crate::ast::view_dir_list(rest@) =~= sp_directives(s@, i as int).0);
                }
                (rest, e)
            },
            Option::None => {
                let r: Vec<Directive> = Vec::new();
                proof {
                    assert(crate::ast::view_dir_list(r@) =~= sp_directives(s@, i as int).0);
                }
                (r, i)
            },
        }
    } else {
        let r: Vec<Directive> = Vec::new();
        proof {
            assert(crate::ast::view_dir_list(r@) =~= sp_directives(s@, i as int).0);
        }
        (r, i)
    }
}

// ---------------------------------------------------------------------------
// The whole song
// ---------------------------------------------------------------------------

/// Fold a directive list into the directive mapping, later bindings of a
/// name overriding earlier ones.
pub open spec fn sp_fold_dirs(ds: Seq<DirectiveV>) -> Seq<DirectiveV>
    decreases ds.len(),
{
    if ds.len() == 0 {
        Seq::empty()
    } else {
        sp_dirs_set(sp_fold_dirs(ds.drop_last()), ds.last().name, ds.last().value)
    }
}

/// What parsing a whole song yields: its directive mapping and blocks, or
/// nothing on any grammar mismatch. The input must be consumed entirely and
/// hold at least one block.
pub open spec fn sp_song(s: Seq<char>) -> Option<SongV> {
    let d = sp_directives(s, 0);
    let b = sp_blocks(s, d.1);
    if b.0.len() >= 1 && b.1 == s.len() {
        Option::Some(SongV { directives: sp_fold_dirs(d.0), blocks: b.0 })
    } else {
        Option::None
    }
}

// ---------------------------------------------------------------------------
// Chord elements and slash chords as rules of their own
// ---------------------------------------------------------------------------

/// A chord body without a slash bass: root, optional quality, extensions.
pub open spec fn sp_chord_element(s: Seq<char>, i: int) -> Option<(ChordV, int)> {
    match sp_chord_note(s, i) {
        Option::None => Option::None,
        Option::Some((root, j)) => {
            let after_q = match sp_quality(s, j) {
                Option::Some(t) => (Option::Some(t.0), t.1),
                Option::None => (Option::None, j),
            };
            let exts = sp_exts(s, after_q.1);
            Option::Some(
                (
                    ChordV {
                        root,
                        inversion: Option::None,
                        quality: after_q.0,
                        extensions: exts.0,
                        bass: Option::None,
                    },
                    exts.1,
                ),
            )
        },
    }
}

fn chord_element_at(s: &str, i: usize) -> (r: Option<(Chord, usize)>)
    requires
        i <= s@.len(),
    ensures
        match r {
            Option::Some((c, j)) => sp_chord_element(s@, i as int) == Option::Some(
                (c@, j as int),
            ) && i < j <= s@.len(),
            Option::None => sp_chord_element(s@, i as int) is None,
        },
{
    let root = match chord_note_at(s, i) {
        Option::Some((n, j)) => (n, j),
        Option::None => {
            return Option::None;
        },
    };
    let (root_note, j) = root;
    let after_q = match quality_at(s, j) {
        Option::Some((q, k)) => {
            proof {
                lemma_quality_advance(s@, j as int);
            }
            (Option::Some(q), k)
        },
        Option::None => (Option::None, j),
    };
    let (quality, j2) = after_q;
    let (extensions, j3) = exts_at(s, j2);
    let c = Chord {
        root: root_note,
        inversion: Option::None,
        quality,
        extensions,
        bass: Option::None,
    };
    proof {
        assert(c@ =~= sp_chord_element(s@, i as int)->Some_0.0);
    }
    Option::Some((c, j3))
}

/// A slash-chord suffix: `/` and the bass note.
pub open spec fn sp_slash_chord(s: Seq<char>, i: int) -> Option<(Note, int)> {
    if 0 <= i < s.len() && s[i] == '/' {
        sp_chord_note(s, i + 1)
    } else {
        Option::None
    }
}

fn slash_chord_at(s: &str, i: usize) -> (r: Option<(Note, usize)>)
    requires
        i <= s@.len(),
    ensures
        match r {
            Option::Some((n, j)) => sp_slash_chord(s@, i as int) == Option::Some((n, j as int))
                && i < j <= s@.len(),
            Option::None => sp_slash_chord(s@, i as int) is None,
        },
{
    if i < s.unicode_len() && s.get_char(i) == '/' {
        chord_note_at(s, i + 1)
    } else {
        Option::None
    }
}

// ---------------------------------------------------------------------------
// The classification tables
// ---------------------------------------------------------------------------

/// The quality vocabulary as a total classifier: recognized tokens map to
/// themselves, everything else to nothing.
pub open spec fn sp_classify_quality(t: Seq<char>) -> Option<Seq<char>> {
    if t == "maj"@ || t == "min"@ || t == "dim"@ || t == "aug"@ || t == "m"@ || t == "+"@ {
        Option::Some(t)
    } else {
        Option::None
    }
}

/// Classify a quality token; tokens outside the vocabulary are absent, not
/// errors.
pub fn parse_quality(token: &str) -> (r: Option<String>)
    ensures
        match r {
            Option::Some(q) => sp_classify_quality(token@) == Option::Some(q@),
            Option::None => sp_classify_quality(token@) is None,
        },
{
    if crate::strutil::eq_str(token, "maj") || crate::strutil::eq_str(token, "min")
        || crate::strutil::eq_str(token, "dim") || crate::strutil::eq_str(token, "aug")
        || crate::strutil::eq_str(token, "m") || crate::strutil::eq_str(token, "+") {
        Option::Some(token.to_owned())
    } else {
        Option::None
    }
}

/// The extension vocabulary as a total classifier.
pub open spec fn sp_classify_extension(t: Seq<char>) -> Option<Seq<char>> {
    if t == "7"@ || t == "9"@ || t == "maj7"@ || t == "maj9"@ || t == "min7"@ || t == "min9"@
        || t == "11"@ || t == "13"@ || t == "b5"@ || t == "b9"@ || t == "b11"@ || t == "b13"@
        || t == "#5"@ || t == "#9"@ || t == "#11"@ || t == "#13"@ || t == "dim7"@ || t == "dim9"@
        || t == "sus2"@ || t == "sus4"@ || t == "dim"@ || t == "aug"@ {
        Option::Some(t)
    } else {
        Option::None
    }
}

/// Classify an extension token; tokens outside the vocabulary are absent,
/// not errors.
pub fn parse_extension(token: &str) -> (r: Option<String>)
    ensures
        match r {
            Option::Some(e) => sp_classify_extension(token@) == Option::Some(e@),
            Option::None => sp_classify_extension(token@) is None,
        },
{
    if crate::strutil::eq_str(token, "7") || crate::strutil::eq_str(token, "9")
        || crate::strutil::eq_str(token, "maj7") || crate::strutil::eq_str(token, "maj9")
        || crate::strutil::eq_str(token, "min7") || crate::strutil::eq_str(token, "min9")
        || crate::strutil::eq_str(token, "11") || crate::strutil::eq_str(token, "13")
        || crate::strutil::eq_str(token, "b5") || crate::strutil::eq_str(token, "b9")
        || crate::strutil::eq_str(token, "b11") || crate::strutil::eq_str(token, "b13")
        || crate::strutil::eq_str(token, "#5") || crate::strutil::eq_str(token, "#9")
        || crate::strutil::eq_str(token, "#11") || crate::strutil::eq_str(token, "#13")
        || crate::strutil::eq_str(token, "dim7") || crate::strutil::eq_str(token, "dim9")
        || crate::strutil::eq_str(token, "sus2") || crate::strutil::eq_str(token, "sus4")
        || crate::strutil::eq_str(token, "dim") || crate::strutil::eq_str(token, "aug") {
        Option::Some(token.to_owned())
    } else {
        Option::None
    }
}

/// The accidental a token names: `#`, `b`, or nothing.
pub open spec fn sp_classify_accidental(t: Seq<char>) -> Accidental {
    if t == "#"@ {
        Accidental::Sharp
    } else if t == "b"@ {
        Accidental::Flat
    } else {
        Accidental::Natural
    }
}

/// Classify an accidental token; anything else is natural.
pub fn parse_accidental(token: &str) -> (r: Accidental)
    ensures
        r == sp_classify_accidental(token@),
{
    if crate::strutil::eq_str(token, "#") {
        Accidental::Sharp
    } else if crate::strutil::eq_str(token, "b") {
        Accidental::Flat
    } else {
        Accidental::Natural
    }
}

// ---------------------------------------------------------------------------
// Public rule entry points
// ---------------------------------------------------------------------------

fn full_err(pos: usize, what: &str) -> (r: SyntaxError)
    ensures
        r.pos == pos,
{
    SyntaxError { pos, expected: what.to_owned() }
}

/// Read a single note letter token.
pub fn parse_letter(token: &str) -> (r: Result<NoteLetter, SyntaxError>)
    ensures
        match r {
            Result::Ok(l) => token@.len() == 1 && sp_letter_of(token@[0]) == Option::Some(l),
            Result::Err(_) => !(token@.len() == 1 && sp_letter_of(token@[0]) is Some),
        },
{
    if token.unicode_len() == 1 {
        match letter_of(token.get_char(0)) {
            Option::Some(l) => Result::Ok(l),
            Option::None => Result::Err(full_err(0, "a note letter A-G")),
        }
    } else {
        Result::Err(full_err(0, "a note letter A-G"))
    }
}

/// Read a whole string as one note: a letter and an optional accidental.
pub fn parse_note(input: &str) -> (r: Result<Note, SyntaxError>)
    ensures
        match r {
            Result::Ok(n) => sp_chord_note(input@, 0) == Option::Some((n, input@.len() as int)),
            Result::Err(_) => !(sp_chord_note(input@, 0) matches Option::Some(t) && t.1
                == input@.len()),
        },
{
    match chord_note_at(input, 0) {
        Option::Some((n, j)) => {
            if j == input.unicode_len() {
                Result::Ok(n)
            } else {
                Result::Err(full_err(j, "end of note"))
            }
        },
        Option::None => Result::Err(full_err(0, "a note")),
    }
}

/// Read a whole string as a slash-chord suffix and yield its bass note.
pub fn parse_slash_chord(input: &str) -> (r: Result<Note, SyntaxError>)
    ensures
        match r {
            Result::Ok(n) => sp_slash_chord(input@, 0) == Option::Some((n, input@.len() as int)),
            Result::Err(_) => !(sp_slash_chord(input@, 0) matches Option::Some(t) && t.1
                == input@.len()),
        },
{
    match slash_chord_at(input, 0) {
        Option::Some((n, j)) => {
            if j == input.unicode_len() {
                Result::Ok(n)
            } else {
                Result::Err(full_err(j, "end of slash chord"))
            }
        },
        Option::None => Result::Err(full_err(0, "a slash chord")),
    }
}

/// Read a whole string as a chord body without brackets.
pub fn parse_chord(input: &str) -> (r: Result<Chord, SyntaxError>)
    ensures
        match r {
            Result::Ok(c) => sp_chord(input@, 0) matches Option::Some(t) && t.0 == c@ && t.1
                == input@.len(),
            Result::Err(_) => !(sp_chord(input@, 0) matches Option::Some(t) && t.1
                == input@.len()),
        },
{
    match chord_at(input, 0) {
        Option::Some((c, j)) => {
            if j == input.unicode_len() {
                Result::Ok(c)
            } else {
                Result::Err(full_err(j, "end of chord"))
            }
        },
        Option::None => Result::Err(full_err(0, "a chord")),
    }
}

/// Read a whole string as a chord body without a slash bass.
pub fn parse_chord_element(input: &str) -> (r: Result<Chord, SyntaxError>)
    ensures
        match r {
            Result::Ok(c) => sp_chord_element(input@, 0) matches Option::Some(t) && t.0 == c@
                && t.1 == input@.len(),
            Result::Err(_) => !(sp_chord_element(input@, 0) matches Option::Some(t) && t.1
                == input@.len()),
        },
{
    match chord_element_at(input, 0) {
        Option::Some((c, j)) => {
            if j == input.unicode_len() {
                Result::Ok(c)
            } else {
                Result::Err(full_err(j, "end of chord"))
            }
        },
        Option::None => Result::Err(full_err(0, "a chord")),
    }
}

/// Read a whole string as one bracketed chord token.
pub fn parse_chord_token(input: &str) -> (r: Result<Chord, SyntaxError>)
    ensures
        match r {
            Result::Ok(c) => sp_chord_token(input@, 0) matches Option::Some(t) && t.0 == c@ && t.1
                == input@.len(),
            Result::Err(_) => !(sp_chord_token(input@, 0) matches Option::Some(t) && t.1
                == input@.len()),
        },
{
    match chord_token_at(input, 0) {
        Option::Some((c, j)) => {
            if j == input.unicode_len() {
                Result::Ok(c)
            } else {
                Result::Err(full_err(j, "end of chord token"))
            }
        },
        Option::None => Result::Err(full_err(0, "a chord token")),
    }
}

/// Read a whole string as one text token.
pub fn parse_text_token(input: &str) -> (r: Result<ChordOrText, SyntaxError>)
    ensures
        match r {
            Result::Ok(x) => sp_text_tok(input@, 0) matches Option::Some(t) && x@
                == ChordOrTextV::Text(t.0) && t.1 == input@.len(),
            Result::Err(_) => !(sp_text_tok(input@, 0) matches Option::Some(t) && t.1
                == input@.len()),
        },
{
    match text_tok_at(input, 0) {
        Option::Some((t, j)) => {
            if j == input.unicode_len() {
                Result::Ok(ChordOrText::Text(t))
            } else {
                Result::Err(full_err(j, "end of text"))
            }
        },
        Option::None => Result::Err(full_err(0, "text")),
    }
}

/// Read a whole string as one chord-or-text item.
pub fn parse_chords_or_text(input: &str) -> (r: Result<ChordOrText, SyntaxError>)
    ensures
        match r {
            Result::Ok(x) => sp_item(input@, 0) matches Option::Some(t) && t.0 == x@ && t.1
                == input@.len(),
            Result::Err(_) => !(sp_item(input@, 0) matches Option::Some(t) && t.1
                == input@.len()),
        },
{
    match item_at(input, 0) {
        Option::Some((x, j)) => {
            if j == input.unicode_len() {
                Result::Ok(x)
            } else {
                Result::Err(full_err(j, "end of item"))
            }
        },
        Option::None => Result::Err(full_err(0, "a chord or text")),
    }
}

/// Read a whole string as a nonempty run of chord-or-text items.
pub fn parse_line_lyric(input: &str) -> (r: Result<Vec<ChordOrText>, SyntaxError>)
    ensures
        match r {
            Result::Ok(items) => sp_items(input@, 0).0 == view_items(items@) && sp_items(
                input@,
                0,
            ).1 == input@.len() && items@.len() >= 1,
            Result::Err(_) => !(sp_items(input@, 0).0.len() >= 1 && sp_items(input@, 0).1
                == input@.len()),
        },
{
    let (items, e) = items_at(input, 0);
    proof {
        assert(view_items(items@).len() == items@.len());
    }
    if items.len() >= 1 && e == input.unicode_len() {
        Result::Ok(items)
    } else {
        Result::Err(full_err(e, "a chord or text item"))
    }
}

/// Read a whole string as one measure.
pub fn parse_measure(input: &str) -> (r: Result<Segment, SyntaxError>)
    ensures
        match r {
            Result::Ok(seg) => sp_measure(input@, 0) matches Option::Some(t) && seg@
                == SegmentV::Measure(t.0) && t.1 == input@.len(),
            Result::Err(_) => !(sp_measure(input@, 0) matches Option::Some(t) && t.1
                == input@.len()),
        },
{
    match measure_at(input, 0) {
        Option::Some((items, j)) => {
            if j == input.unicode_len() {
                let seg = Segment::Measure(items);
                proof {
                    assert(seg@ =~= SegmentV::Measure(view_items(items@)));
                }
                Result::Ok(seg)
            } else {
                Result::Err(full_err(j, "end of measure"))
            }
        },
        Option::None => Result::Err(full_err(0, "a measure")),
    }
}

/// Read a whole string as one inline run of items.
pub fn parse_lyric_block(input: &str) -> (r: Result<Segment, SyntaxError>)
    ensures
        match r {
            Result::Ok(seg) => sp_items(input@, 0).0.len() >= 1 && sp_items(input@, 0).1
                == input@.len() && seg@ == SegmentV::Inline(sp_items(input@, 0).0),
            Result::Err(_) => !(sp_items(input@, 0).0.len() >= 1 && sp_items(input@, 0).1
                == input@.len()),
        },
{
    let (items, e) = items_at(input, 0);
    proof {
        assert(view_items(items@).len() == items@.len());
    }
    if items.len() >= 1 && e == input.unicode_len() {
        let seg = Segment::Inline(items);
        proof {
            assert(seg@ =~= SegmentV::Inline(view_items(items@)));
        }
        Result::Ok(seg)
    } else {
        Result::Err(full_err(e, "a chord or text item"))
    }
}

/// Read a whole string as one authored lyric line of segments.
pub fn parse_line(input: &str) -> (r: Result<LyricLine, SyntaxError>)
    ensures
        match r {
            Result::Ok(line) => sp_segments(input@, 0).0.len() >= 1 && sp_segments(input@, 0).1
                == input@.len() && line@ == (LyricLineV { segments: sp_segments(input@, 0).0 }),
            Result::Err(_) => !(sp_segments(input@, 0).0.len() >= 1 && sp_segments(input@, 0).1
                == input@.len()),
        },
{
    let (segs, e) = segments_at(input, 0);
    proof {
        assert(view_segments(segs@).len() == segs@.len());
    }
    if segs.len() >= 1 && e == input.unicode_len() {
        let line = LyricLine { segments: segs };
        proof {
            assert(line@ =~= (LyricLineV { segments: view_segments(segs@) }));
        }
        Result::Ok(line)
    } else {
        Result::Err(full_err(e, "a measure or lyric run"))
    }
}

/// Read a whole string as a section header line.
pub fn parse_section_header(input: &str) -> (r: Result<String, SyntaxError>)
    ensures
        match r {
            Result::Ok(raw) => sp_section_header(input@, 0) matches Option::Some(t) && t.0 == raw@
                && t.1 == input@.len(),
            Result::Err(_) => !(sp_section_header(input@, 0) matches Option::Some(t) && t.1
                == input@.len()),
        },
{
    match section_header_at(input, 0) {
        Option::Some((raw, j)) => {
            if j == input.unicode_len() {
                Result::Ok(raw)
            } else {
                Result::Err(full_err(j, "end of section header"))
            }
        },
        Option::None => Result::Err(full_err(0, "a section header")),
    }
}

/// Read a whole string as one block.
pub fn parse_block(input: &str) -> (r: Result<Block, SyntaxError>)
    ensures
        match r {
            Result::Ok(b) => sp_block(input@, 0) matches Option::Some(t) && t.0 == b@ && t.1
                == input@.len(),
            Result::Err(_) => !(sp_block(input@, 0) matches Option::Some(t) && t.1
                == input@.len()),
        },
{
    match block_at(input, 0) {
        Option::Some((b, j)) => {
            if j == input.unicode_len() {
                Result::Ok(b)
            } else {
                Result::Err(full_err(j, "end of block"))
            }
        },
        Option::None => Result::Err(full_err(0, "a block")),
    }
}

/// Read a whole string as a nonempty run of blocks.
pub fn parse_blocks(input: &str) -> (r: Result<Vec<Block>, SyntaxError>)
    ensures
        match r {
            Result::Ok(bs) => sp_blocks(input@, 0).0 == crate::ast::view_blocks(bs@) && sp_blocks(
                input@,
                0,
            ).1 == input@.len() && bs@.len() >= 1,
            Result::Err(_) => !(sp_blocks(input@, 0).0.len() >= 1 && sp_blocks(input@, 0).1
                == input@.len()),
        },
{
    let (bs, e) = blocks_at(input, 0);
    proof {
        assert(crate::ast::view_blocks(bs@).len() == bs@.len());
    }
    if bs.len() >= 1 && e == input.unicode_len() {
        Result::Ok(bs)
    } else {
        Result::Err(full_err(e, "a block"))
    }
}

/// Read a whole string as one directive line.
pub fn parse_directive(input: &str) -> (r: Result<Directive, SyntaxError>)
    ensures
        match r {
            Result::Ok(d) => sp_directive(input@, 0) matches Option::Some(t) && t.0 == d@ && t.1
                == input@.len(),
            Result::Err(_) => !(sp_directive(input@, 0) matches Option::Some(t) && t.1
                == input@.len()),
        },
{
    match directive_at(input, 0) {
        Option::Some((d, j)) => {
            if j == input.unicode_len() {
                Result::Ok(d)
            } else {
                Result::Err(full_err(j, "end of directive"))
            }
        },
        Option::None => Result::Err(full_err(0, "a directive")),
    }
}

/// Parse a whole song: zero or more directives, then one or more blocks,
/// consuming the entire input. Succeeds exactly when the grammar matches,
/// and then yields the tree the grammar denotes; no partial tree ever
/// escapes.
pub fn parse_song(input: &str) -> (r: Result<Song, SyntaxError>)
    ensures
        match r {
            Result::Ok(song) => sp_song(input@) == Option::Some(song@) && crate::ast::dirs_wf(
                song@.directives,
            ),
            Result::Err(_) => sp_song(input@) is None,
        },
{
    let (dlist, dpos) = directives_at(input, 0);
    let (blocks, bpos) = blocks_at(input, dpos);
    proof {
        assert(crate::ast::view_blocks(blocks@).len() == blocks@.len());
    }
    if blocks.len() == 0 || bpos != input.unicode_len() {
        return Result::Err(full_err(bpos, "a section header or the end of the input"));
    }
    let ghost dl = dlist@;
    let ghost folded = sp_fold_dirs(crate::ast::view_dir_list(dl));
    let mut directives = Directives::new();
    let mut rest = dlist;
    let dn = rest.len();
    proof {
        assert(dl.len() == dn);
        assert(rest@ =~= dl.skip(0));
        assert(crate::ast::view_dir_list(dl.take(0)) =~= Seq::<DirectiveV>::empty());
    }
    let mut i: usize = 0;
    while rest.len() > 0
        invariant
            dl.len() <= usize::MAX,
            i + rest@.len() == dl.len(),
            rest@ =~= dl.skip(i as int),
            directives@ == sp_fold_dirs(crate::ast::view_dir_list(dl.take(i as int))),
            crate::ast::dirs_wf(directives@),
        decreases rest.len(),
    {
        proof {
            crate::strutil::lemma_remove0_skip(dl, i as int);
        }
        let d = rest.remove(0);
        proof {
            assert(d == dl[i as int]);
            assert(rest@ =~= dl.skip(i as int + 1));
            assert(crate::ast::view_dir_list(dl.take(i as int + 1)).drop_last()
                =~= crate::ast::view_dir_list(dl.take(i as int)));
            assert(crate::ast::view_dir_list(dl.take(i as int + 1)).last() == dl[i as int]@);
        }
        directives.insert(d.name, d.value);
        i = i + 1;
    }
    proof {
        assert(dl.take(dl.len() as int) =~= dl);
    }
    let song = Song { directives, blocks };
    proof {
        assert(song@ =~= sp_song(input@)->Some_0);
    }
    Result::Ok(song)
}

/// Parse a whole song from source text.
pub fn parse_song_from_str(input: &str) -> (r: Result<Song, SyntaxError>)
    ensures
        match r {
            Result::Ok(song) => sp_song(input@) == Option::Some(song@) && crate::ast::dirs_wf(
                song@.directives,
            ),
            Result::Err(_) => sp_song(input@) is None,
        },
{
    parse_song(input)
}

// ---------------------------------------------------------------------------
// Rule-level acceptance
// ---------------------------------------------------------------------------

/// The grammar's named rules.
#[allow(non_camel_case_types)]
#[derive(Debug, Clone, Copy, PartialEq, Eq, Structural)]
pub enum Rule {
    song,
    directive_list,
    directive,
    name,
    value,
    blocks,
    block,
    section_header,
    lyric_line,
    measure,
    lyric_block,
    chord_or_text,
    chord_token,
    text_token,
    chord,
    chord_elements,
    slash_chord,
    key,
    note,
    accidental,
    quality,
    extension,
}

/// A whole input matches a rule exactly.
pub open spec fn sp_rule_ok(rule: Rule, s: Seq<char>) -> bool {
    match rule {
        Rule::song => sp_song(s) is Some,
        Rule::directive_list => sp_directives(s, 0).0.len() >= 1 && sp_directives(s, 0).1
            == s.len(),
        Rule::directive => match sp_directive(s, 0) {
            Option::Some(t) => t.1 == s.len(),
            Option::None => false,
        },
        Rule::name => s.len() > 0 && sp_name_end(s, 0) == s.len(),
        Rule::value => sp_line_end(s, 0) == s.len(),
        Rule::blocks => sp_blocks(s, 0).0.len() >= 1 && sp_blocks(s, 0).1 == s.len(),
        Rule::block => match sp_block(s, 0) {
            Option::Some(t) => t.1 == s.len(),
            Option::None => false,
        },
        Rule::section_header => match sp_section_header(s, 0) {
            Option::Some(t) => t.1 == s.len(),
            Option::None => false,
        },
        Rule::lyric_line => sp_segments(s, 0).0.len() >= 1 && sp_segments(s, 0).1 == s.len(),
        Rule::measure => match sp_measure(s, 0) {
            Option::Some(t) => t.1 == s.len(),
            Option::None => false,
        },
        Rule::lyric_block => sp_items(s, 0).0.len() >= 1 && sp_items(s, 0).1 == s.len(),
        Rule::chord_or_text => match sp_item(s, 0) {
            Option::Some(t) => t.1 == s.len(),
            Option::None => false,
        },
        Rule::chord_token => match sp_chord_token(s, 0) {
            Option::Some(t) => t.1 == s.len(),
            Option::None => false,
        },
        Rule::text_token => match sp_text_tok(s, 0) {
            Option::Some(t) => t.1 == s.len(),
            Option::None => false,
        },
        Rule::chord => match sp_chord(s, 0) {
            Option::Some(t) => t.1 == s.len(),
            Option::None => false,
        },
        Rule::chord_elements => match sp_chord_element(s, 0) {
            Option::Some(t) => t.1 == s.len(),
            Option::None => false,
        },
        Rule::slash_chord => match sp_slash_chord(s, 0) {
            Option::Some(t) => t.1 == s.len(),
            Option::None => false,
        },
        Rule::key => match sp_chord_note(s, 0) {
            Option::Some(t) => t.1 == s.len(),
            Option::None => false,
        },
        Rule::note => match sp_chord_note(s, 0) {
            Option::Some(t) => t.1 == s.len(),
            Option::None => false,
        },
        Rule::accidental => s == "#"@ || s == "b"@,
        Rule::quality => match sp_quality(s, 0) {
            Option::Some(t) => t.1 == s.len(),
            Option::None => false,
        },
        Rule::extension => match sp_ext(s, 0) {
            Option::Some(t) => t.1 == s.len(),
            Option::None => false,
        },
    }
}

/// The parser's front door for single rules: check that the whole input
/// matches the given grammar rule.
pub struct LeadSheetMLParser;

impl LeadSheetMLParser {
    /// Accept exactly the inputs that match `rule` in full.
    pub fn parse(rule: Rule, input: &str) -> (r: Result<(), SyntaxError>)
        ensures
            r is Ok == sp_rule_ok(rule, input@),
    {
        let n = input.unicode_len();
        match rule {
            Rule::song => match parse_song(input) {
                Result::Ok(_) => Result::Ok(()),
                Result::Err(e) => Result::Err(e),
            },
            Rule::directive_list => {
                let (ds, e) = directives_at(input, 0);
                proof {
                    assert(crate::ast::view_dir_list(ds@).len() == ds@.len());
                }
                if ds.len() >= 1 && e == n {
                    Result::Ok(())
                } else {
                    Result::Err(full_err(e, "a directive"))
                }
            },
            Rule::directive => match parse_directive(input) {
                Result::Ok(_) => Result::Ok(()),
                Result::Err(e) => Result::Err(e),
            },
            Rule::name => {
                if n > 0 && name_end(input, 0) == n {
                    Result::Ok(())
                } else {
                    Result::Err(full_err(0, "a name"))
                }
            },
            Rule::value => {
                if line_end(input, 0) == n {
                    Result::Ok(())
                } else {
                    Result::Err(full_err(0, "a value"))
                }
            },
            Rule::blocks => match parse_blocks(input) {
                Result::Ok(_) => Result::Ok(()),
                Result::Err(e) => Result::Err(e),
            },
            Rule::block => match parse_block(input) {
                Result::Ok(_) => Result::Ok(()),
                Result::Err(e) => Result::Err(e),
            },
            Rule::section_header => match parse_section_header(input) {
                Result::Ok(_) => Result::Ok(()),
                Result::Err(e) => Result::Err(e),
            },
            Rule::lyric_line => match parse_line(input) {
                Result::Ok(_) => Result::Ok(()),
                Result::Err(e) => Result::Err(e),
            },
            Rule::measure => match parse_measure(input) {
                Result::Ok(_) => Result::Ok(()),
                Result::Err(e) => Result::Err(e),
            },
            Rule::lyric_block => match parse_lyric_block(input) {
                Result::Ok(_) => Result::Ok(()),
                Result::Err(e) => Result::Err(e),
            },
            Rule::chord_or_text => match parse_chords_or_text(input) {
                Result::Ok(_) => Result::Ok(()),
                Result::Err(e) => Result::Err(e),
            },
            Rule::chord_token => match parse_chord_token(input) {
                Result::Ok(_) => Result::Ok(()),
                Result::Err(e) => Result::Err(e),
            },
            Rule::text_token => match parse_text_token(input) {
                Result::Ok(_) => Result::Ok(()),
                Result::Err(e) => Result::Err(e),
            },
            Rule::chord => match parse_chord(input) {
                Result::Ok(_) => Result::Ok(()),
                Result::Err(e) => Result::Err(e),
            },
            Rule::chord_elements => match parse_chord_element(input) {
                Result::Ok(_) => Result::Ok(()),
                Result::Err(e) => Result::Err(e),
            },
            Rule::slash_chord => match parse_slash_chord(input) {
                Result::Ok(_) => Result::Ok(()),
                Result::Err(e) => Result::Err(e),
            },
            Rule::key => match parse_note(input) {
                Result::Ok(_) => Result::Ok(()),
                Result::Err(e) => Result::Err(e),
            },
            Rule::note => match parse_note(input) {
                Result::Ok(_) => Result::Ok(()),
                Result::Err(e) => Result::Err(e),
            },
            Rule::accidental => {
                if crate::strutil::eq_str(input, "#") || crate::strutil::eq_str(input, "b") {
                    Result::Ok(())
                } else {
                    Result::Err(full_err(0, "an accidental"))
                }
            },
            Rule::quality => {
                match quality_at(input, 0) {
                    Option::Some((_, j)) => {
                        if j == n {
                            Result::Ok(())
                        } else {
                            Result::Err(full_err(j, "end of quality"))
                        }
                    },
                    Option::None => Result::Err(full_err(0, "a quality")),
                }
            },
            Rule::extension => {
                match ext_at(input, 0) {
                    Option::Some((_, j)) => {
                        if j == n {
                            Result::Ok(())
                        } else {
                            Result::Err(full_err(j, "end of extension"))
                        }
                    },
                    Option::None => Result::Err(full_err(0, "an extension")),
                }
            },
        }
    }
}

} // verus!
