//! The rendering engine: chord symbols aligned above the lyric syllables
//! they annotate, emitted through a small markup capability interface.
//!
//! The five markup operations (header, italic, line break, line segment,
//! verbatim block) come from the `markup_engine` crate, in its markdown and
//! HTML dialects; each call is wrapped in a trusted function whose contract
//! states the exact text the crate builds. Everything above those five
//! calls — the alignment algorithm and the walk over the song — is verified.

use vstd::prelude::*;
use markup_engine::engine::MarkupEngine;
use crate::ast::{
    BlockV, Chord, ChordOrText, ChordOrTextV, ChordV, LyricLine, LyricLineV, Segment,
    SegmentV, Song, SongV, seg_items, sp_dirs_get,
};
use crate::strutil::{is_ws_char, spaces_seq, spaces, ws_char};
use crate::transpose::{accidental_seq, letter_char};

verus! {

/// The two markup dialects a song can be rendered into.
#[derive(Debug, Clone, Copy, PartialEq, Eq, Structural)]
pub enum Engine {
    Markdown,
    Html,
}

// ---------------------------------------------------------------------------
// What each markup operation returns
// ---------------------------------------------------------------------------

/// `n` copies of one character.
pub open spec fn rep_char(c: char, n: nat) -> Seq<char> {
    Seq::new(n, |i: int| c)
}

/// The digit character of a single-digit header level.
pub open spec fn digit_char(l: int) -> char {
    if l == 1 {
        '1'
    } else if l == 2 {
        '2'
    } else if l == 3 {
        '3'
    } else if l == 4 {
        '4'
    } else if l == 5 {
        '5'
    } else if l == 6 {
        '6'
    } else if l == 7 {
        '7'
    } else if l == 8 {
        '8'
    } else {
        '9'
    }
}

/// How the HTML dialect escapes one character.
pub open spec fn html_escape_char(c: char) -> Seq<char> {
    if c == '&' {
        "&amp;"@
    } else if c == '<' {
        "&lt;"@
    } else if c == '>' {
        "&gt;"@
    } else if c == '"' {
        "&quot;"@
    } else if c == '\'' {
        "&#39;"@
    } else {
        seq![c]
    }
}

/// How the HTML dialect escapes text.
pub open spec fn html_escape(s: Seq<char>) -> Seq<char>
    decreases s.len(),
{
    if s.len() == 0 {
        seq![]
    } else {
        html_escape_char(s[0]) + html_escape(s.drop_first())
    }
}

/// What `header(level, text)` returns in each dialect.
pub open spec fn sp_header(e: Engine, level: int, text: Seq<char>) -> Seq<char> {
    match e {
        Engine::Markdown => rep_char('#', level as nat) + seq![' '] + text,
        Engine::Html => seq!['<', 'h', digit_char(level), '>'] + html_escape(text) + seq![
            '<',
            '/',
            'h',
            digit_char(level),
            '>',
            '\n',
        ],
    }
}

/// What `italic(text)` returns in each dialect.
pub open spec fn sp_italic(e: Engine, text: Seq<char>) -> Seq<char> {
    match e {
        Engine::Markdown => seq!['*'] + text + seq!['*'],
        Engine::Html => "<i>"@ + html_escape(text) + "</i>"@,
    }
}

/// What `linebreak()` returns in each dialect.
pub open spec fn sp_linebreak(e: Engine) -> Seq<char> {
    match e {
        Engine::Markdown => "\n"@,
        Engine::Html => "<br/>"@,
    }
}

/// What `line_segment(text)` returns in each dialect.
pub open spec fn sp_line_segment(e: Engine, text: Seq<char>) -> Seq<char> {
    match e {
        Engine::Markdown => text,
        Engine::Html => html_escape(text),
    }
}

/// What `pre_block(text)` returns in each dialect; the HTML dialect does
/// not escape here.
pub open spec fn sp_pre_block(e: Engine, text: Seq<char>) -> Seq<char> {
    match e {
        Engine::Markdown => "```\n"@ + text + "\n```"@,
        Engine::Html => "<pre>"@ + text + "</pre>\n"@,
    }
}

// ---------------------------------------------------------------------------
// Trusted wrappers around the markup crate
// ---------------------------------------------------------------------------

/// Relies on `MarkdownEngine::header`: `level` hash marks, a space, the text.
#[verifier::external_body]
fn md_header(level: u8, text: &str) -> (r: String)
    requires
        1 <= level <= 9,
    ensures
        r@ == sp_header(Engine::Markdown, level as int, text@),
{
    markup_engine::MarkdownEngine.header(level, text)
}

/// Relies on `HtmlEngine::header`: the text escaped inside `<hN>...</hN>`
/// and a line break.
#[verifier::external_body]
fn html_header(level: u8, text: &str) -> (r: String)
    requires
        1 <= level <= 9,
    ensures
        r@ == sp_header(Engine::Html, level as int, text@),
{
    markup_engine::HtmlEngine.header(level, text)
}

/// Relies on `MarkdownEngine::italic`: the text between single stars.
#[verifier::external_body]
fn md_italic(text: &str) -> (r: String)
    ensures
        r@ == sp_italic(Engine::Markdown, text@),
{
    markup_engine::MarkdownEngine.italic(text)
}

/// Relies on `HtmlEngine::italic`: the text escaped inside `<i>...</i>`.
#[verifier::external_body]
fn html_italic(text: &str) -> (r: String)
    ensures
        r@ == sp_italic(Engine::Html, text@),
{
    markup_engine::HtmlEngine.italic(text)
}

/// Relies on `MarkdownEngine::linebreak`: one newline.
#[verifier::external_body]
fn md_linebreak() -> (r: String)
    ensures
        r@ == sp_linebreak(Engine::Markdown),
{
    markup_engine::MarkdownEngine.linebreak()
}

/// Relies on `HtmlEngine::linebreak`: a `<br/>` tag.
#[verifier::external_body]
fn html_linebreak() -> (r: String)
    ensures
        r@ == sp_linebreak(Engine::Html),
{
    markup_engine::HtmlEngine.linebreak()
}

/// Relies on `MarkdownEngine::line_segment`: the text unchanged.
#[verifier::external_body]
fn md_line_segment(text: &str) -> (r: String)
    ensures
        r@ == sp_line_segment(Engine::Markdown, text@),
{
    markup_engine::MarkdownEngine.line_segment(text)
}

/// Relies on `HtmlEngine::line_segment`: the text escaped.
#[verifier::external_body]
fn html_line_segment(text: &str) -> (r: String)
    ensures
        r@ == sp_line_segment(Engine::Html, text@),
{
    markup_engine::HtmlEngine.line_segment(text)
}

/// Relies on `MarkdownEngine::pre_block`: the text between code fences.
#[verifier::external_body]
fn md_pre_block(text: &str) -> (r: String)
    ensures
        r@ == sp_pre_block(Engine::Markdown, text@),
{
    markup_engine::MarkdownEngine.pre_block(text)
}

/// Relies on `HtmlEngine::pre_block`: the text unescaped inside
/// `<pre>...</pre>` and a line break.
#[verifier::external_body]
fn html_pre_block(text: &str) -> (r: String)
    ensures
        r@ == sp_pre_block(Engine::Html, text@),
{
    markup_engine::HtmlEngine.pre_block(text)
}

// ---------------------------------------------------------------------------
// Dispatch over the dialect
// ---------------------------------------------------------------------------

fn engine_header(engine: &Engine, level: u8, text: &str) -> (r: String)
    requires
        1 <= level <= 9,
    ensures
        r@ == sp_header(*engine, level as int, text@),
{
    match engine {
        Engine::Markdown => md_header(level, text),
        Engine::Html => html_header(level, text),
    }
}

fn engine_italic(engine: &Engine, text: &str) -> (r: String)
    ensures
        r@ == sp_italic(*engine, text@),
{
    match engine {
        Engine::Markdown => md_italic(text),
        Engine::Html => html_italic(text),
    }
}

fn engine_linebreak(engine: &Engine) -> (r: String)
    ensures
        r@ == sp_linebreak(*engine),
{
    match engine {
        Engine::Markdown => md_linebreak(),
        Engine::Html => html_linebreak(),
    }
}

fn engine_line_segment(engine: &Engine, text: &str) -> (r: String)
    ensures
        r@ == sp_line_segment(*engine, text@),
{
    match engine {
        Engine::Markdown => md_line_segment(text),
        Engine::Html => html_line_segment(text),
    }
}

fn engine_pre_block(engine: &Engine, text: &str) -> (r: String)
    ensures
        r@ == sp_pre_block(*engine, text@),
{
    match engine {
        Engine::Markdown => md_pre_block(text),
        Engine::Html => html_pre_block(text),
    }
}

// ---------------------------------------------------------------------------
// Chord symbols
// ---------------------------------------------------------------------------

/// The written extensions of a chord, concatenated in order; absent slots
/// contribute nothing.
pub open spec fn sp_exts_str(exts: Seq<Option<Seq<char>>>) -> Seq<char>
    decreases exts.len(),
{
    if exts.len() == 0 {
        seq![]
    } else {
        sp_exts_str(exts.drop_last()) + match exts.last() {
            Option::Some(e) => e,
            Option::None => seq![],
        }
    }
}

/// The chord symbol: root letter and accidental, quality, extensions, and
/// the optional `/bass`.
pub open spec fn sp_format_chord(c: ChordV) -> Seq<char> {
    seq![letter_char(c.root.letter)] + accidental_seq(c.root.accidental) + (match c.quality {
        Option::Some(q) => q,
        Option::None => seq![],
    }) + sp_exts_str(c.extensions) + (match c.bass {
        Option::Some(b) => seq!['/', letter_char(b.letter)] + accidental_seq(b.accidental),
        Option::None => seq![],
    })
}

fn letter_str(l: crate::ast::NoteLetter) -> (r: &'static str)
    ensures
        r@ == seq![letter_char(l)],
{
    proof {
        reveal_strlit("A");
        reveal_strlit("B");
        reveal_strlit("C");
        reveal_strlit("D");
        reveal_strlit("E");
        reveal_strlit("F");
        reveal_strlit("G");
    }
    let r = match l {
        crate::ast::NoteLetter::A => "A",
        crate::ast::NoteLetter::B => "B",
        crate::ast::NoteLetter::C => "C",
        crate::ast::NoteLetter::D => "D",
        crate::ast::NoteLetter::E => "E",
        crate::ast::NoteLetter::F => "F",
        crate::ast::NoteLetter::G => "G",
    };
    proof {
        assert(r@ =~= seq![letter_char(l)]);
    }
    r
}

fn accidental_str(a: crate::ast::Accidental) -> (r: &'static str)
    ensures
        r@ == accidental_seq(a),
{
    proof {
        reveal_strlit("#");
        reveal_strlit("b");
        reveal_strlit("");
    }
    let r = match a {
        crate::ast::Accidental::Sharp => "#",
        crate::ast::Accidental::Flat => "b",
        crate::ast::Accidental::Natural => "",
    };
    proof {
        assert(r@ =~= accidental_seq(a));
    }
    r
}

/// The chord symbol as written above the lyrics.
pub fn format_chord(chord: &Chord) -> (r: String)
    ensures
        r@ == sp_format_chord(chord@),
{
    let mut s = letter_str(chord.root.letter).to_owned();
    s.append(accidental_str(chord.root.accidental));
    match &chord.quality {
        Option::Some(q) => s.append(q.as_str()),
        Option::None => (),
    }
    let ghost head = s@;
    let mut i: usize = 0;
    let n = chord.extensions.len();
    while i < n
        invariant
            n == chord.extensions.len(),
            0 <= i <= n,
            s@ == head + sp_exts_str(chord.extensions@.map_values(
                |o: Option<String>| crate::ast::opt_str_view(o),
            ).take(i as int)),
        decreases n - i,
    {
        let ghost ev = chord.extensions@.map_values(
            |o: Option<String>| crate::ast::opt_str_view(o),
        );
        match &chord.extensions[i] {
            Option::Some(e) => s.append(e.as_str()),
            Option::None => (),
        }
        proof {
            assert(ev.take(i as int + 1).drop_last() =~= ev.take(i as int));
            assert(ev.take(i as int + 1).last() == ev[i as int]);
            assert(ev[i as int] == crate::ast::opt_str_view(chord.extensions@[i as int]));
        }
        i = i + 1;
    }
    proof {
        reveal_strlit("/");
        let ev = chord.extensions@.map_values(|o: Option<String>| crate::ast::opt_str_view(o));
        assert(ev.take(n as int) =~= ev);
    }
    match &chord.bass {
        Option::Some(b) => {
            s.append("/");
            s.append(letter_str(b.letter));
            s.append(accidental_str(b.accidental));
            proof {
                assert("/"@ =~= seq!['/']);
                assert(s@ =~= sp_format_chord(chord@));
            }
        },
        Option::None => {
            proof {
                assert(s@ =~= sp_format_chord(chord@));
            }
        },
    }
    s
}

// ---------------------------------------------------------------------------
// The alignment algorithm
// ---------------------------------------------------------------------------

/// The alignment state while one authored line is laid out: the chord row
/// and lyric row being grown, whether any lyric text has appeared in the
/// current visual row, and the finished rows.
#[verifier::ext_equal]
pub struct RowsState {
    pub chords: Seq<char>,
    pub lyrics: Seq<char>,
    pub started: bool,
    pub rows: Seq<(Seq<char>, Seq<char>)>,
}

pub open spec fn st_init() -> RowsState {
    RowsState { chords: seq![], lyrics: seq![], started: false, rows: seq![] }
}

/// Lay out one chord: its symbol is padded to at least four columns in the
/// chord row; the lyric row is padded the same width only once lyric text
/// has appeared in this row.
pub open spec fn sp_step_chord(st: RowsState, c: ChordV) -> RowsState {
    let sym = sp_format_chord(c);
    let w: int = if sym.len() < 4 {
        4
    } else {
        sym.len() as int
    };
    RowsState {
        chords: st.chords + sym + spaces_seq((w - sym.len()) as nat),
        lyrics: if st.started {
            st.lyrics + spaces_seq(w as nat)
        } else {
            st.lyrics
        },
        started: st.started,
        rows: st.rows,
    }
}

/// Finish the current visual row and start a fresh one.
pub open spec fn sp_flush(st: RowsState) -> RowsState {
    RowsState {
        chords: seq![],
        lyrics: seq![],
        started: false,
        rows: st.rows.push((st.chords, st.lyrics)),
    }
}

/// Lay out one piece of lyric text: it goes into the lyric row, mirrored by
/// spaces in the chord row.
pub open spec fn sp_append_part(st: RowsState, part: Seq<char>) -> RowsState {
    RowsState {
        chords: st.chords + spaces_seq(part.len()),
        lyrics: st.lyrics + part,
        started: st.started || part.len() > 0,
        rows: st.rows,
    }
}

/// Lay out the pieces of a text item: every piece after the first was
/// preceded by a line break in the source and forces a new visual row.
pub open spec fn sp_step_parts(st: RowsState, parts: Seq<Seq<char>>) -> RowsState
    decreases parts.len(),
{
    if parts.len() == 0 {
        st
    } else {
        let prev = sp_step_parts(st, parts.drop_last());
        let st1 = if parts.len() >= 2 {
            sp_flush(prev)
        } else {
            prev
        };
        sp_append_part(st1, parts.last())
    }
}

pub open spec fn sp_step_item(st: RowsState, x: ChordOrTextV) -> RowsState {
    match x {
        ChordOrTextV::Chord(c) => sp_step_chord(st, c),
        ChordOrTextV::Text(t) => sp_step_parts(st, crate::strutil::sp_split_char(t, '\n')),
    }
}

pub open spec fn sp_run_items(st: RowsState, items: Seq<ChordOrTextV>) -> RowsState
    decreases items.len(),
{
    if items.len() == 0 {
        st
    } else {
        sp_step_item(sp_run_items(st, items.drop_last()), items.last())
    }
}

pub open spec fn sp_run_segments(st: RowsState, segs: Seq<SegmentV>) -> RowsState
    decreases segs.len(),
{
    if segs.len() == 0 {
        st
    } else {
        sp_run_items(sp_run_segments(st, segs.drop_last()), seg_items(segs.last()))
    }
}

/// The visual rows of one authored line: the items are laid out in source
/// order and a last nonempty row is flushed at the end.
pub open spec fn sp_line_rows(l: LyricLineV) -> Seq<(Seq<char>, Seq<char>)> {
    let st = sp_run_segments(st_init(), l.segments);
    if st.chords.len() > 0 || st.lyrics.len() > 0 {
        st.rows.push((st.chords, st.lyrics))
    } else {
        st.rows
    }
}

/// The views of a list of row pairs.
pub open spec fn view_rows(s: Seq<(String, String)>) -> Seq<(Seq<char>, Seq<char>)> {
    s.map_values(|p: (String, String)| (p.0@, p.1@))
}

fn run_parts_exec(
    parts: &Vec<String>,
    chords: String,
    lyrics: String,
    started: bool,
    rows: Vec<(String, String)>,
) -> (r: (String, String, bool, Vec<(String, String)>))
    ensures
        (RowsState { chords: r.0@, lyrics: r.1@, started: r.2, rows: view_rows(r.3@) })
            == sp_step_parts(
            RowsState { chords: chords@, lyrics: lyrics@, started, rows: view_rows(rows@) },
            crate::strutil::view_strs(parts@),
        ),
{
    let ghost pv = crate::strutil::view_strs(parts@);
    let ghost st0 = RowsState {
        chords: chords@,
        lyrics: lyrics@,
        started,
        rows: view_rows(rows@),
    };
    let mut chords = chords;
    let mut lyrics = lyrics;
    let mut started = started;
    let mut rows = rows;
    let n = parts.len();
    let mut k: usize = 0;
    proof {
        assert(pv.take(0) =~= Seq::<Seq<char>>::empty());
    }
    while k < n
        invariant
            n == parts@.len(),
            pv == crate::strutil::view_strs(parts@),
            0 <= k <= n,
            (RowsState { chords: chords@, lyrics: lyrics@, started, rows: view_rows(rows@) })
                == sp_step_parts(st0, pv.take(k as int)),
        decreases n - k,
    {
        let ghost st_before = RowsState {
            chords: chords@,
            lyrics: lyrics@,
            started,
            rows: view_rows(rows@),
        };
        if k > 0 {
            let done_chords = chords;
            let done_lyrics = lyrics;
            chords = String::new();
            lyrics = String::new();
            started = false;
            rows.push((done_chords, done_lyrics));
            proof {
                assert(view_rows(rows@) =~= st_before.rows.push(
                    (st_before.chords, st_before.lyrics),
                ));
            }
        }
        let part = &parts[k];
        let plen = part.as_str().unicode_len();
        chords.append(spaces(plen).as_str());
        lyrics.append(part.as_str());
        if plen > 0 {
            started = true;
        }
        proof {
            assert(pv[k as int] == parts@[k as int]@);
            assert(pv.take(k as int + 1).drop_last() =~= pv.take(k as int));
            assert(pv.take(k as int + 1).last() == pv[k as int]);
            let cur = RowsState { chords: chords@, lyrics: lyrics@, started, rows: view_rows(rows@) };
            if k > 0 {
                assert(cur =~= sp_append_part(sp_flush(sp_step_parts(st0, pv.take(k as int))), pv[k as int]));
            } else {
                assert(cur =~= sp_append_part(sp_step_parts(st0, pv.take(k as int)), pv[k as int]));
            }
            assert(cur =~= sp_step_parts(st0, pv.take(k as int + 1)));
        }
        k = k + 1;
    }
    proof {
        assert(pv.take(n as int) =~= pv);
    }
    (chords, lyrics, started, rows)
}

fn run_items_exec(
    items: &Vec<ChordOrText>,
    chords: String,
    lyrics: String,
    started: bool,
    rows: Vec<(String, String)>,
) -> (r: (String, String, bool, Vec<(String, String)>))
    ensures
        (RowsState { chords: r.0@, lyrics: r.1@, started: r.2, rows: view_rows(r.3@) })
            == sp_run_items(
            RowsState { chords: chords@, lyrics: lyrics@, started, rows: view_rows(rows@) },
            crate::ast::view_items(items@),
        ),
{
    let ghost iv = crate::ast::view_items(items@);
    let ghost st0 = RowsState {
        chords: chords@,
        lyrics: lyrics@,
        started,
        rows: view_rows(rows@),
    };
    let mut chords = chords;
    let mut lyrics = lyrics;
    let mut started = started;
    let mut rows = rows;
    let n = items.len();
    let mut k: usize = 0;
    proof {
        assert(iv.take(0) =~= Seq::<ChordOrTextV>::empty());
    }
    while k < n
        invariant
            n == items@.len(),
            iv == crate::ast::view_items(items@),
            0 <= k <= n,
            (RowsState { chords: chords@, lyrics: lyrics@, started, rows: view_rows(rows@) })
                == sp_run_items(st0, iv.take(k as int)),
        decreases n - k,
    {
        let ghost st_before = RowsState {
            chords: chords@,
            lyrics: lyrics@,
            started,
            rows: view_rows(rows@),
        };
        proof {
            assert(iv[k as int] == items@[k as int]@);
            assert(iv.take(k as int + 1).drop_last() =~= iv.take(k as int));
            assert(iv.take(k as int + 1).last() == iv[k as int]);
        }
        match &items[k] {
            ChordOrText::Chord(c) => {
                let sym = format_chord(c);
                let symlen = sym.as_str().unicode_len();
                let w = if symlen < 4 {
                    4
                } else {
                    symlen
                };
                chords.append(sym.as_str());
                chords.append(spaces(w - symlen).as_str());
                if started {
                    lyrics.append(spaces(w).as_str());
                }
                proof {
                    let cur = RowsState {
                        chords: chords@,
                        lyrics: lyrics@,
                        started,
                        rows: view_rows(rows@),
                    };
                    assert(cur =~= sp_step_chord(st_before, c@));
                    assert(cur =~= sp_run_items(st0, iv.take(k as int + 1)));
                }
            },
            ChordOrText::Text(t) => {
                let parts = crate::strutil::split_char(t.as_str(), '\n');
                let st = run_parts_exec(&parts, chords, lyrics, started, rows);
                chords = st.0;
                lyrics = st.1;
                started = st.2;
                rows = st.3;
                proof {
                    let cur = RowsState {
                        chords: chords@,
                        lyrics: lyrics@,
                        started,
                        rows: view_rows(rows@),
                    };
                    assert(cur =~= sp_step_item(st_before, iv[k as int]));
                    assert(cur =~= sp_run_items(st0, iv.take(k as int + 1)));
                }
            },
        }
        k = k + 1;
    }
    proof {
        assert(iv.take(n as int) =~= iv);
    }
    (chords, lyrics, started, rows)
}

/// Lay one authored line out as visual (chord row, lyric row) pairs, in
/// order; rows forced by embedded line breaks come first, and a last
/// nonempty row is flushed at the end.
pub fn render_chord_lyric_lines(line: &LyricLine) -> (r: Vec<(String, String)>)
    ensures
        view_rows(r@) == sp_line_rows(line@),
{
    let ghost segs = line@.segments;
    let mut chords = String::new();
    let mut lyrics = String::new();
    let mut started = false;
    let mut rows: Vec<(String, String)> = Vec::new();
    let n = line.segments.len();
    let mut k: usize = 0;
    proof {
        assert(segs.take(0) =~= Seq::<SegmentV>::empty());
        assert(view_rows(rows@) =~= Seq::<(Seq<char>, Seq<char>)>::empty());
        assert((RowsState { chords: chords@, lyrics: lyrics@, started, rows: view_rows(rows@) })
            =~= st_init());
    }
    while k < n
        invariant
            n == line.segments@.len(),
            segs == line@.segments,
            0 <= k <= n,
            (RowsState { chords: chords@, lyrics: lyrics@, started, rows: view_rows(rows@) })
                == sp_run_segments(st_init(), segs.take(k as int)),
        decreases n - k,
    {
        let ghost st_before = RowsState {
            chords: chords@,
            lyrics: lyrics@,
            started,
            rows: view_rows(rows@),
        };
        proof {
            assert(segs[k as int] == line.segments@[k as int]@);
            assert(segs.take(k as int + 1).drop_last() =~= segs.take(k as int));
            assert(segs.take(k as int + 1).last() == segs[k as int]);
        }
        let st = match &line.segments[k] {
            Segment::Measure(items) => {
                proof {
                    assert(seg_items(segs[k as int]) == crate::ast::view_items(items@));
                }
                run_items_exec(items, chords, lyrics, started, rows)
            },
            Segment::Inline(items) => {
                proof {
                    assert(seg_items(segs[k as int]) == crate::ast::view_items(items@));
                }
                run_items_exec(items, chords, lyrics, started, rows)
            },
        };
        chords = st.0;
        lyrics = st.1;
        started = st.2;
        rows = st.3;
        proof {
            let cur = RowsState {
                chords: chords@,
                lyrics: lyrics@,
                started,
                rows: view_rows(rows@),
            };
            assert(cur =~= sp_run_segments(st_init(), segs.take(k as int + 1)));
        }
        k = k + 1;
    }
    proof {
        assert(segs.take(n as int) =~= segs);
    }
    if !chords.as_str().is_empty() || !lyrics.as_str().is_empty() {
        rows.push((chords, lyrics));
        proof {
            assert(view_rows(rows@) =~= sp_line_rows(line@));
        }
        rows
    } else {
        proof {
            assert(view_rows(rows@) =~= sp_line_rows(line@));
        }
        rows
    }
}

// ---------------------------------------------------------------------------
// Rendering a whole song
// ---------------------------------------------------------------------------

/// A section name with its leading `#` markers removed.
pub open spec fn sp_strip_hashes(s: Seq<char>) -> Seq<char>
    decreases s.len(),
{
    if s.len() > 0 && s[0] == '#' {
        sp_strip_hashes(s.drop_first())
    } else {
        s
    }
}

/// Entirely whitespace (or empty).
pub open spec fn sp_all_ws(s: Seq<char>) -> bool {
    forall|i: int| 0 <= i < s.len() ==> is_ws_char(#[trigger] s[i])
}

/// The text with its trailing line breaks removed.
pub open spec fn sp_trim_nl_end(s: Seq<char>) -> Seq<char>
    decreases s.len(),
{
    if s.len() > 0 && s.last() == '\n' {
        sp_trim_nl_end(s.drop_last())
    } else {
        s
    }
}

/// One visual row as verbatim text; a row whose two halves are entirely
/// whitespace is suppressed.
pub open spec fn sp_row_text(r: (Seq<char>, Seq<char>)) -> Seq<char> {
    if sp_all_ws(r.0) && sp_all_ws(r.1) {
        seq![]
    } else {
        r.0 + seq!['\n'] + r.1 + seq!['\n']
    }
}

pub open spec fn sp_rows_text(rows: Seq<(Seq<char>, Seq<char>)>) -> Seq<char>
    decreases rows.len(),
{
    if rows.len() == 0 {
        seq![]
    } else {
        sp_rows_text(rows.drop_last()) + sp_row_text(rows.last())
    }
}

/// The verbatim chord-over-lyric text of a block's lines.
pub open spec fn sp_pre_text(lines: Seq<LyricLineV>) -> Seq<char>
    decreases lines.len(),
{
    if lines.len() == 0 {
        seq![]
    } else {
        sp_pre_text(lines.drop_last()) + sp_rows_text(sp_line_rows(lines.last()))
    }
}

/// One rendered block: its section header, then its rows as one verbatim
/// block — omitted entirely when they are all whitespace.
pub open spec fn sp_render_block(b: BlockV, e: Engine) -> Seq<char> {
    sp_header(e, 3, sp_strip_hashes(b.section_name)) + sp_linebreak(e) + {
        let pre = sp_pre_text(b.lines);
        if sp_all_ws(pre) {
            seq![]
        } else {
            sp_pre_block(e, sp_trim_nl_end(pre)) + sp_linebreak(e)
        }
    }
}

pub open spec fn sp_render_blocks(bs: Seq<BlockV>, e: Engine) -> Seq<char>
    decreases bs.len(),
{
    if bs.len() == 0 {
        seq![]
    } else {
        sp_render_blocks(bs.drop_last(), e) + sp_render_block(bs.last(), e)
    }
}

/// The title row, when a `title` directive exists; nothing otherwise.
pub open spec fn sp_title_part(s: SongV, e: Engine) -> Seq<char> {
    match sp_dirs_get(s.directives, "title"@) {
        Option::Some(t) => sp_header(e, 1, t) + sp_linebreak(e),
        Option::None => seq![],
    }
}

/// The italic artist byline, when an `artist` directive exists; nothing
/// otherwise.
pub open spec fn sp_artist_part(s: SongV, e: Engine) -> Seq<char> {
    match sp_dirs_get(s.directives, "artist"@) {
        Option::Some(a) => sp_italic(e, a) + sp_linebreak(e),
        Option::None => seq![],
    }
}

/// The whole rendered song: title, byline, then every block in order.
pub open spec fn sp_render_song(s: SongV, e: Engine) -> Seq<char> {
    sp_title_part(s, e) + sp_artist_part(s, e) + sp_render_blocks(s.blocks, e)
}

pub fn strip_hashes<'a>(s: &'a str) -> (r: &'a str)
    ensures
        r@ == sp_strip_hashes(s@),
{
    let n = s.unicode_len();
    let mut i: usize = 0;
    proof {
        assert(s@.skip(0) =~= s@);
    }
    while i < n && s.get_char(i) == '#'
        invariant
            0 <= i <= n,
            n == s@.len(),
            sp_strip_hashes(s@) == sp_strip_hashes(s@.skip(i as int)),
        decreases n - i,
    {
        proof {
            assert(s@.skip(i as int)[0] == s@[i as int]);
            assert(s@.skip(i as int).drop_first() =~= s@.skip(i as int + 1));
        }
        i = i + 1;
    }
    let r = s.substring_char(i, n);
    proof {
        assert(r@ =~= s@.skip(i as int));
        if i < n {
            assert(s@.skip(i as int)[0] == s@[i as int]);
        }
        assert(sp_strip_hashes(s@.skip(i as int)) == s@.skip(i as int));
    }
    r
}

pub fn all_ws_str(s: &str) -> (r: bool)
    ensures
        r == sp_all_ws(s@),
{
    let n = s.unicode_len();
    let mut i: usize = 0;
    while i < n
        invariant
            0 <= i <= n,
            n == s@.len(),
            forall|k: int| 0 <= k < i ==> is_ws_char(#[trigger] s@[k]),
        decreases n - i,
    {
        if !ws_char(s.get_char(i)) {
            assert(!sp_all_ws(s@));
            return false;
        }
        i = i + 1;
    }
    true
}

fn trim_nl_end<'a>(s: &'a str) -> (r: &'a str)
    ensures
        r@ == sp_trim_nl_end(s@),
{
    let n = s.unicode_len();
    let mut e = n;
    proof {
        assert(s@.take(n as int) =~= s@);
    }
    while e > 0 && s.get_char(e - 1) == '\n'
        invariant
            0 <= e <= n,
            n == s@.len(),
            sp_trim_nl_end(s@) == sp_trim_nl_end(s@.take(e as int)),
        decreases e,
    {
        proof {
            assert(s@.take(e as int).last() == s@[e as int - 1]);
            assert(s@.take(e as int).drop_last() =~= s@.take(e as int - 1));
        }
        e = e - 1;
    }
    let r = s.substring_char(0, e);
    proof {
        assert(r@ =~= s@.take(e as int));
        if e > 0 {
            assert(s@.take(e as int).last() == s@[e as int - 1]);
        }
        assert(sp_trim_nl_end(s@.take(e as int)) == s@.take(e as int));
    }
    r
}

/// The capability a lead-sheet renderer offers: turn a song into text in a
/// chosen markup dialect.
pub trait LeadSheetRenderer {
    fn render_song(&self, engine: &Engine, song: &Song) -> String;
}

/// The renderer this crate ships: title, byline, and per-block verbatim
/// chord-over-lyric rows.
pub struct DefaultLeadSheetRenderer;

impl DefaultLeadSheetRenderer {
    /// Render `song` into the dialect of `engine`.
    ///
    /// The title and artist rows appear exactly when their directives are
    /// present; every block contributes its header and, unless they are all
    /// whitespace, its aligned rows as one verbatim block.
    pub fn render_song(&self, engine: &Engine, song: &Song) -> (r: String)
        ensures
            r@ == sp_render_song(song@, *engine),
    {
        let ghost sv = song@;
        let ghost e = *engine;
        let mut output = String::new();
        match song.directives.get("title") {
            Option::Some(title) => {
                let h = engine_header(engine, 1, title.as_str());
                output.append(h.as_str());
                let lb = engine_linebreak(engine);
                output.append(lb.as_str());
            },
            Option::None => (),
        }
        proof {
            assert(output@ =~= sp_title_part(sv, e));
        }
        match song.directives.get("artist") {
            Option::Some(artist) => {
                let it = engine_italic(engine, artist.as_str());
                output.append(it.as_str());
                let lb = engine_linebreak(engine);
                output.append(lb.as_str());
            },
            Option::None => (),
        }
        proof {
            assert(output@ =~= sp_title_part(sv, e) + sp_artist_part(sv, e));
        }
        let ghost head = output@;
        let nb = song.blocks.len();
        let mut bi: usize = 0;
        proof {
            assert(sv.blocks.take(0) =~= Seq::<BlockV>::empty());
            assert(output@ =~= head + sp_render_blocks(sv.blocks.take(0), e));
        }
        while bi < nb
            invariant
                nb == song.blocks@.len(),
                sv == song@,
                e == *engine,
                0 <= bi <= nb,
                output@ == head + sp_render_blocks(sv.blocks.take(bi as int), e),
            decreases nb - bi,
        {
            let block = &song.blocks[bi];
            let ghost bv = sv.blocks[bi as int];
            proof {
                assert(bv == song.blocks@[bi as int]@);
                assert(sv.blocks.take(bi as int + 1).drop_last() =~= sv.blocks.take(bi as int));
                assert(sv.blocks.take(bi as int + 1).last() == bv);
            }
            let header_text = strip_hashes(block.section_name.as_str());
            let h = engine_header(engine, 3, header_text);
            output.append(h.as_str());
            let lb = engine_linebreak(engine);
            output.append(lb.as_str());
            let mut pre = String::new();
            let nl = block.lines.len();
            let mut li: usize = 0;
            proof {
                reveal_strlit("\n");
                assert(bv.lines.take(0) =~= Seq::<LyricLineV>::empty());
                assert(pre@ =~= sp_pre_text(bv.lines.take(0)));
            }
            while li < nl
                invariant
                    nl == block.lines@.len(),
                    bv == block@,
                    0 <= li <= nl,
                    pre@ == sp_pre_text(bv.lines.take(li as int)),
                    "\n"@ == seq!['\n'],
                decreases nl - li,
            {
                let line = &block.lines[li];
                let ghost lv = bv.lines[li as int];
                proof {
                    assert(lv == block.lines@[li as int]@);
                    assert(bv.lines.take(li as int + 1).drop_last() =~= bv.lines.take(li as int));
                    assert(bv.lines.take(li as int + 1).last() == lv);
                }
                let rows = render_chord_lyric_lines(line);
                let ghost rv = view_rows(rows@);
                let nr = rows.len();
                let mut ri: usize = 0;
                let ghost pre_head = pre@;
                proof {
                    assert(rv.take(0) =~= Seq::<(Seq<char>, Seq<char>)>::empty());
                    assert(pre@ =~= pre_head + sp_rows_text(rv.take(0)));
                }
                while ri < nr
                    invariant
                        nr == rows@.len(),
                        rv == view_rows(rows@),
                        0 <= ri <= nr,
                        pre@ == pre_head + sp_rows_text(rv.take(ri as int)),
                        "\n"@ == seq!['\n'],
                    decreases nr - ri,
                {
                    proof {
                        assert(rv[ri as int] == (rows@[ri as int].0@, rows@[ri as int].1@));
                        assert(rv.take(ri as int + 1).drop_last() =~= rv.take(ri as int));
                        assert(rv.take(ri as int + 1).last() == rv[ri as int]);
                    }
                    let chord_row = &rows[ri].0;
                    let lyric_row = &rows[ri].1;
                    if !(all_ws_str(chord_row.as_str()) && all_ws_str(lyric_row.as_str())) {
                        pre.append(chord_row.as_str());
                        pre.append("\n");
                        pre.append(lyric_row.as_str());
                        pre.append("\n");
                        proof {
                            assert(pre@ =~= pre_head + sp_rows_text(rv.take(ri as int + 1)));
                        }
                    } else {
                        proof {
                            assert(pre@ =~= pre_head + sp_rows_text(rv.take(ri as int + 1)));
                        }
                    }
                    ri = ri + 1;
                }
                proof {
                    assert(rv.take(nr as int) =~= rv);
                    assert(pre@ =~= sp_pre_text(bv.lines.take(li as int + 1)));
                }
                li = li + 1;
            }
            proof {
                assert(bv.lines.take(nl as int) =~= bv.lines);
            }
            if !all_ws_str(pre.as_str()) {
                let trimmed = trim_nl_end(pre.as_str());
                let pb = engine_pre_block(engine, trimmed);
                output.append(pb.as_str());
                let lb2 = engine_linebreak(engine);
                output.append(lb2.as_str());
            }
            proof {
                assert(output@ =~= head + sp_render_blocks(sv.blocks.take(bi as int + 1), e));
            }
            bi = bi + 1;
        }
        proof {
            assert(sv.blocks.take(nb as int) =~= sv.blocks);
        }
        output
    }
}

impl LeadSheetRenderer for DefaultLeadSheetRenderer {
    fn render_song(&self, engine: &Engine, song: &Song) -> String {
        DefaultLeadSheetRenderer::render_song(self, engine, song)
    }
}

// ---------------------------------------------------------------------------
// Laws of rendering
// ---------------------------------------------------------------------------

/// Rendering is deterministic: the rendered text is a function of the song
/// and the dialect alone, so any two renderings of the same song in the
/// same dialect are byte-identical.
pub proof fn lemma_render_deterministic(
    s: SongV,
    e: Engine,
    r1: Seq<char>,
    r2: Seq<char>,
)
    requires
        r1 == sp_render_song(s, e),
        r2 == sp_render_song(s, e),
    ensures
        r1 == r2,
{
}

/// Graceful omission: a song without an `artist` directive renders with no
/// italic byline row — its rendering is just the title part and the blocks.
pub proof fn lemma_render_no_artist(s: SongV, e: Engine)
    requires
        sp_dirs_get(s.directives, "artist"@) is None,
    ensures
        sp_render_song(s, e) == sp_title_part(s, e) + sp_render_blocks(s.blocks, e),
{
    assert(sp_artist_part(s, e) =~= Seq::<char>::empty());
    assert(sp_title_part(s, e) + Seq::<char>::empty() =~= sp_title_part(s, e));
    assert(sp_render_song(s, e) =~= sp_title_part(s, e) + sp_render_blocks(s.blocks, e));
}

} // verus!
