use leadsheetml::ast::{Accidental, NoteLetter};
use leadsheetml::markdown;
use leadsheetml::parser::{
    parse_accidental, parse_chord_token, parse_extension, parse_letter, parse_line,
    parse_quality, parse_song_from_str,
};
use leadsheetml::render::{render_chord_lyric_lines, DefaultLeadSheetRenderer, Engine};
use leadsheetml::strutil::{eq_str, spaces};
use leadsheetml::transpose::{
    find_enharmonic_spelling, note_to_string, string_to_note, transpose_song, TransposeError,
};

// ---------------------------------------------------------------------------
// Alignment
// ---------------------------------------------------------------------------

#[test]
fn alignment_chord_text_chord_text() {
    let line = parse_line("[C]Hello, [G]world!").unwrap();
    let rows = render_chord_lyric_lines(&line);
    assert_eq!(rows.len(), 1);
    let (chord_row, lyric_row) = &rows[0];
    // C opens the chord row at column 0.
    assert!(chord_row.starts_with('C'));
    // "Hello, " is mirrored into the chord row at columns 4..11, so G stands
    // at the column right after it.
    assert_eq!(chord_row.find('G'), Some(11));
    assert_eq!(4 + "Hello, ".len(), 11);
    assert_eq!(chord_row.as_str(), format!("C{}G{}", " ".repeat(10), " ".repeat(9)));
    assert_eq!(lyric_row.as_str(), "Hello,     world!");
    // The lyric row skips the pad of a chord that comes before any lyric
    // text, so the chord row ends up exactly that pad wider.
    assert_eq!(chord_row.len(), lyric_row.len() + 4);
}

#[test]
fn alignment_embedded_break_forces_new_row() {
    let line = parse_line("[C]one\ntwo").unwrap();
    let rows = render_chord_lyric_lines(&line);
    assert_eq!(rows.len(), 2);
    assert_eq!(rows[0].0.as_str(), "C      ");
    assert_eq!(rows[0].1.as_str(), "one");
    assert_eq!(rows[1].0.as_str(), "   ");
    assert_eq!(rows[1].1.as_str(), "two");
}

#[test]
fn alignment_measure_and_inline_are_equivalent() {
    let inline = parse_line("[C]Hello").unwrap();
    let measure = parse_line("|[C]Hello|").unwrap();
    let r1 = render_chord_lyric_lines(&inline);
    let r2 = render_chord_lyric_lines(&measure);
    assert_eq!(r1, r2);
}

// ---------------------------------------------------------------------------
// Rendering
// ---------------------------------------------------------------------------

#[test]
fn render_is_deterministic() {
    let input = "@title: T\n@artist: A\n#Intro\n[C]Hi";
    let song1 = parse_song_from_str(input).unwrap();
    let song2 = parse_song_from_str(input).unwrap();
    let engine = Engine::Markdown;
    let md1 = DefaultLeadSheetRenderer.render_song(&engine, &song1);
    let md2 = DefaultLeadSheetRenderer.render_song(&engine, &song2);
    assert_eq!(md1, md2);
    let engine = Engine::Html;
    let h1 = DefaultLeadSheetRenderer.render_song(&engine, &song1);
    let h2 = DefaultLeadSheetRenderer.render_song(&engine, &song2);
    assert_eq!(h1, h2);
}

#[test]
fn render_markdown_exact() {
    let song = parse_song_from_str("@title: T\n#Intro\n[C]Hi").unwrap();
    let engine = Engine::Markdown;
    let md = DefaultLeadSheetRenderer.render_song(&engine, &song);
    assert_eq!(md, "# T\n### Intro\n```\nC     \nHi\n```\n");
}

#[test]
fn render_html_exact() {
    let song = parse_song_from_str("@title: T\n#Intro\n[C]Hi").unwrap();
    let engine = Engine::Html;
    let html = DefaultLeadSheetRenderer.render_song(&engine, &song);
    assert_eq!(html, "<h1>T</h1>\n<br/><h3>Intro</h3>\n<br/><pre>C     \nHi</pre>\n<br/>");
}

#[test]
fn render_html_escapes_title() {
    let song = parse_song_from_str("@title: A & B\n#Intro\nHi").unwrap();
    let engine = Engine::Html;
    let html = DefaultLeadSheetRenderer.render_song(&engine, &song);
    assert!(html.contains("A &amp; B"));
}

#[test]
fn render_without_artist_has_no_byline() {
    let song = parse_song_from_str("@title: T\n#Intro\nHi").unwrap();
    let engine = Engine::Markdown;
    let md = DefaultLeadSheetRenderer.render_song(&engine, &song);
    assert!(!md.contains('*'));
    let engine = Engine::Html;
    let html = DefaultLeadSheetRenderer.render_song(&engine, &song);
    assert!(!html.contains("<i>"));
}

#[test]
fn render_with_artist_has_byline() {
    let song = parse_song_from_str("@title: T\n@artist: Me\n#Intro\nHi").unwrap();
    let engine = Engine::Markdown;
    let md = DefaultLeadSheetRenderer.render_song(&engine, &song);
    assert!(md.contains("*Me*"));
    let engine = Engine::Html;
    let html = DefaultLeadSheetRenderer.render_song(&engine, &song);
    assert!(html.contains("<i>Me</i>"));
}

#[test]
fn render_without_title_omits_header() {
    let song = parse_song_from_str("#Intro\nHi").unwrap();
    let engine = Engine::Markdown;
    let md = DefaultLeadSheetRenderer.render_song(&engine, &song);
    assert_eq!(md, "### Intro\n```\n  \nHi\n```\n");
}

#[test]
fn flat_markdown_render_exact() {
    let song = parse_song_from_str("@title: T\n#Intro\n[C]Hi").unwrap();
    let md = markdown::render_song(&song);
    assert_eq!(md, "# T\n## Intro\nC     \nHi\n");
}

#[test]
fn flat_markdown_suppresses_whitespace_rows() {
    let song = parse_song_from_str("@title: T\n#A\nHi\n\n\n").unwrap();
    let md = markdown::render_song(&song);
    assert_eq!(md, "# T\n## A\n  \nHi\n");
}

// ---------------------------------------------------------------------------
// Transposition
// ---------------------------------------------------------------------------

#[test]
fn transpose_identity_on_canonical_song() {
    let input = "@title: T\n@key: C Major\n#V\n[C] x";
    let plain = parse_song_from_str(input).unwrap();
    let same = transpose_song(parse_song_from_str(input).unwrap(), 0).unwrap();
    assert_eq!(same.directives.get("key").unwrap(), "C Major");
    let engine = Engine::Markdown;
    let md1 = DefaultLeadSheetRenderer.render_song(&engine, &plain);
    let md2 = DefaultLeadSheetRenderer.render_song(&engine, &same);
    assert_eq!(md1, md2);
}

#[test]
fn transpose_periodicity_concrete() {
    let input = "@key: E Major\n#V\n[E]la [A]la";
    let t5 = transpose_song(parse_song_from_str(input).unwrap(), 5).unwrap();
    let t17 = transpose_song(parse_song_from_str(input).unwrap(), 17).unwrap();
    assert_eq!(t5.directives.get("key").unwrap(), t17.directives.get("key").unwrap());
    let engine = Engine::Markdown;
    let md5 = DefaultLeadSheetRenderer.render_song(&engine, &t5);
    let md17 = DefaultLeadSheetRenderer.render_song(&engine, &t17);
    assert_eq!(md5, md17);
}

#[test]
fn transpose_composition_concrete() {
    let input = "@key: D Major\n#V\n[D]do [G]sol";
    let twice = transpose_song(
        transpose_song(parse_song_from_str(input).unwrap(), 3).unwrap(),
        4,
    )
    .unwrap();
    let once = transpose_song(parse_song_from_str(input).unwrap(), 7).unwrap();
    assert_eq!(twice.directives.get("key").unwrap(), once.directives.get("key").unwrap());
    let engine = Engine::Markdown;
    let md_twice = DefaultLeadSheetRenderer.render_song(&engine, &twice);
    let md_once = DefaultLeadSheetRenderer.render_song(&engine, &once);
    assert_eq!(md_twice, md_once);
}

#[test]
fn transpose_moves_chords_and_bass() {
    let song = parse_song_from_str("@key: B Major\n#V\n[B/F#]Hello").unwrap();
    let up = transpose_song(song, 1).unwrap();
    assert_eq!(up.directives.get("key").unwrap(), "C Major");
    let engine = Engine::Markdown;
    let md = DefaultLeadSheetRenderer.render_song(&engine, &up);
    assert!(md.contains("C/G"));
}

#[test]
fn transpose_missing_key_is_rejected() {
    let song = parse_song_from_str("@title: T\n#V\n[C]x").unwrap();
    let err = transpose_song(song, 1).unwrap_err();
    assert_eq!(err, TransposeError::MissingKeyDirective);
}

#[test]
fn transpose_one_token_key_is_rejected() {
    let song = parse_song_from_str("@key: C\n#V\n[C]x").unwrap();
    let err = transpose_song(song, 1).unwrap_err();
    assert_eq!(err, TransposeError::MalformedKeyDirective);
}

#[test]
fn transpose_three_token_key_is_rejected() {
    let song = parse_song_from_str("@key: C Major Extra\n#V\n[C]x").unwrap();
    let err = transpose_song(song, 1).unwrap_err();
    assert_eq!(err, TransposeError::MalformedKeyDirective);
}

#[test]
fn transpose_unknown_letter_is_rejected() {
    let song = parse_song_from_str("@key: H Major\n#V\n[C]x").unwrap();
    let err = transpose_song(song, 1).unwrap_err();
    assert_eq!(err, TransposeError::UnknownNoteLetter);
}

#[test]
fn transpose_bad_accidental_is_rejected() {
    let song = parse_song_from_str("@key: Cx Major\n#V\n[C]x").unwrap();
    let err = transpose_song(song, 1).unwrap_err();
    assert_eq!(err, TransposeError::MalformedKeyDirective);
}

#[test]
fn transpose_large_negative_amounts() {
    let song = parse_song_from_str("@key: C Major\n#V\n[C]x").unwrap();
    let down = transpose_song(song, -25).unwrap();
    assert_eq!(down.directives.get("key").unwrap(), "B Major");
}

// ---------------------------------------------------------------------------
// Note names
// ---------------------------------------------------------------------------

#[test]
fn note_names_round_trip() {
    assert_eq!(note_to_string(NoteLetter::D, Accidental::Flat), "Db");
    assert_eq!(note_to_string(NoteLetter::F, Accidental::Sharp), "F#");
    assert_eq!(note_to_string(NoteLetter::A, Accidental::Natural), "A");
    let n = string_to_note("Eb");
    assert_eq!(n.letter, NoteLetter::E);
    assert_eq!(n.accidental, Accidental::Flat);
    let n = string_to_note("G#");
    assert_eq!(n.letter, NoteLetter::G);
    assert_eq!(n.accidental, Accidental::Sharp);
}

#[test]
fn enharmonic_table() {
    assert_eq!(find_enharmonic_spelling("C#"), "Db");
    assert_eq!(find_enharmonic_spelling("G#"), "Ab");
    assert_eq!(find_enharmonic_spelling("Cb"), "B");
    assert_eq!(find_enharmonic_spelling("B#"), "C");
    assert_eq!(find_enharmonic_spelling("D"), "D");
}

// ---------------------------------------------------------------------------
// Classification
// ---------------------------------------------------------------------------

#[test]
fn classify_quality_tokens() {
    assert_eq!(parse_quality("maj"), Some("maj".to_string()));
    assert_eq!(parse_quality("m"), Some("m".to_string()));
    assert_eq!(parse_quality("+"), Some("+".to_string()));
    assert_eq!(parse_quality("weird"), None);
}

#[test]
fn classify_extension_tokens() {
    assert_eq!(parse_extension("7"), Some("7".to_string()));
    assert_eq!(parse_extension("b13"), Some("b13".to_string()));
    assert_eq!(parse_extension("sus4"), Some("sus4".to_string()));
    assert_eq!(parse_extension("5"), None);
}

#[test]
fn classify_accidental_tokens() {
    assert_eq!(parse_accidental("#"), Accidental::Sharp);
    assert_eq!(parse_accidental("b"), Accidental::Flat);
    assert_eq!(parse_accidental("x"), Accidental::Natural);
}

#[test]
fn classify_letters() {
    assert_eq!(parse_letter("G").unwrap(), NoteLetter::G);
    assert_eq!(parse_letter("e").unwrap(), NoteLetter::E);
    assert!(parse_letter("H").is_err());
    assert!(parse_letter("").is_err());
}

#[test]
fn chord_quality_before_extension() {
    let c = parse_chord_token("[Cmaj7]").unwrap();
    assert_eq!(c.quality, Some("maj".to_string()));
    assert_eq!(c.extensions, vec![Some("7".to_string())]);
    let c = parse_chord_token("[C#m]").unwrap();
    assert_eq!(c.root.accidental, Accidental::Sharp);
    assert_eq!(c.quality, Some("m".to_string()));
}

// ---------------------------------------------------------------------------
// Grammar errors
// ---------------------------------------------------------------------------

#[test]
fn empty_input_is_a_syntax_error() {
    assert!(parse_song_from_str("").is_err());
}

#[test]
fn song_without_blocks_is_a_syntax_error() {
    assert!(parse_song_from_str("@title: X").is_err());
}

#[test]
fn stray_bracket_is_a_syntax_error() {
    let err = parse_song_from_str("#A\n[C]x]").unwrap_err();
    assert_eq!(err.pos, 7);
}

#[test]
fn unclosed_measure_is_a_syntax_error() {
    assert!(parse_song_from_str("#A\n| [C]x").is_err());
}

#[test]
fn later_directive_binding_wins() {
    let song = parse_song_from_str("@key: A Major\n@key: B Major\n#V\nx").unwrap();
    assert_eq!(song.directives.get("key").unwrap(), "B Major");
    assert!(song.directives.get("tempo").is_none());
}

// ---------------------------------------------------------------------------
// Text helpers
// ---------------------------------------------------------------------------

#[test]
fn wrap_markdown_concatenates() {
    assert_eq!(
        markdown::wrap_markdown("x".to_string(), "y".to_string(), "z".to_string(), true),
        "xyz\n"
    );
    assert_eq!(
        markdown::wrap_markdown("*".to_string(), "a".to_string(), "*".to_string(), false),
        "*a*"
    );
}

#[test]
fn contains_newline_finds_breaks() {
    assert!(markdown::contains_newline(&"a\nb".to_string()));
    assert!(!markdown::contains_newline(&"ab".to_string()));
}

#[test]
fn simple_split_behavior() {
    let parts = markdown::simple_split(&"a,b,c".to_string(), ',');
    assert_eq!(parts, vec!["a".to_string(), "b".to_string(), "c".to_string()]);
    let parts = markdown::simple_split(&"abc".to_string(), ',');
    assert_eq!(parts, vec!["abc".to_string(), "".to_string()]);
}

#[test]
fn string_helpers() {
    assert!(eq_str("abc", "abc"));
    assert!(!eq_str("abc", "abd"));
    assert!(!eq_str("abc", "ab"));
    assert_eq!(spaces(3), "   ");
    assert_eq!(spaces(0), "");
}
