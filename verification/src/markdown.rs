//! A flat markdown renderer: the song as plain marked-up text, each aligned
//! chord row directly above its lyric row.

use vstd::prelude::*;
use crate::ast::{Song, SongV, BlockV, LyricLineV, Chord, sp_dirs_get};
use crate::render::{
    render_chord_lyric_lines, sp_format_chord, sp_rows_text, sp_strip_hashes, sp_pre_text,
    view_rows,
};
use crate::strutil::{sp_split_char, split_char, view_strs};

verus! {

/// Wrap text in markdown punctuation: `front`, the text, `back`, and an
/// optional line break.
pub fn wrap_markdown(front: String, string: String, back: String, newline: bool) -> (r: String)
    ensures
        r@ == front@ + string@ + back@ + (if newline {
            seq!['\n']
        } else {
            Seq::<char>::empty()
        }),
{
    let mut s = front;
    s.append(string.as_str());
    s.append(back.as_str());
    if newline {
        proof {
            reveal_strlit("\n");
            assert("\n"@ =~= seq!['\n']);
        }
        s.append("\n");
    } else {
        proof {
            assert(s@ =~= s@ + Seq::<char>::empty());
        }
    }
    s
}

/// `c` occurs in `s`.
pub open spec fn sp_contains_char(s: Seq<char>, c: char) -> bool {
    exists|i: int| 0 <= i < s.len() && s[i] == c
}

/// The text holds an embedded line break.
pub fn contains_newline(p0: &String) -> (r: bool)
    ensures
        r == sp_contains_char(p0@, '\n'),
{
    let s = p0.as_str();
    let n = s.unicode_len();
    let mut i: usize = 0;
    while i < n
        invariant
            0 <= i <= n,
            n == s@.len(),
            s@ == p0@,
            forall|k: int| 0 <= k < i ==> s@[k] != '\n',
        decreases n - i,
    {
        if s.get_char(i) == '\n' {
            assert(p0@[i as int] == '\n');
            return true;
        }
        i = i + 1;
    }
    false
}

/// What `simple_split` yields: the pieces of the text at `c` when `c`
/// occurs, else the text and one empty piece.
pub open spec fn sp_simple_split(s: Seq<char>, c: char) -> Seq<Seq<char>> {
    if sp_contains_char(s, c) {
        sp_split_char(s, c)
    } else {
        seq![s, Seq::<char>::empty()]
    }
}

/// Split at `c` when the text holds one; otherwise the text itself followed
/// by an empty piece.
pub fn simple_split(p0: &String, split_char_arg: char) -> (r: Vec<String>)
    ensures
        view_strs(r@) == sp_simple_split(p0@, split_char_arg),
{
    let mut contains = false;
    let s = p0.as_str();
    let n = s.unicode_len();
    let mut i: usize = 0;
    while i < n
        invariant
            0 <= i <= n,
            n == s@.len(),
            s@ == p0@,
            contains == exists|k: int| 0 <= k < i && s@[k] == split_char_arg,
        decreases n - i,
    {
        if s.get_char(i) == split_char_arg {
            contains = true;
        }
        i = i + 1;
    }
    if contains {
        split_char(p0.as_str(), split_char_arg)
    } else {
        let mut r: Vec<String> = Vec::new();
        r.push(p0.clone());
        r.push(String::new());
        proof {
            assert(view_strs(r@) =~= seq![p0@, Seq::<char>::empty()]);
        }
        r
    }
}

/// The chord symbol as written above the lyrics.
pub fn format_chord(chord: Chord) -> (r: String)
    ensures
        r@ == sp_format_chord(chord@),
{
    crate::render::format_chord(&chord)
}

/// One block as flat markdown: a `## ` header, then the kept rows.
pub open spec fn sp_md_block(b: BlockV) -> Seq<char> {
    "## "@ + sp_strip_hashes(b.section_name) + seq!['\n'] + sp_pre_text(b.lines)
}

pub open spec fn sp_md_blocks(bs: Seq<BlockV>) -> Seq<char>
    decreases bs.len(),
{
    if bs.len() == 0 {
        seq![]
    } else {
        sp_md_blocks(bs.drop_last()) + sp_md_block(bs.last())
    }
}

/// The whole song as flat markdown: `# ` title and `*...*` byline when
/// their directives exist, then every block.
pub open spec fn sp_md_render(s: SongV) -> Seq<char> {
    (match sp_dirs_get(s.directives, "title"@) {
        Option::Some(t) => "# "@ + t + seq!['\n'],
        Option::None => seq![],
    }) + (match sp_dirs_get(s.directives, "artist"@) {
        Option::Some(a) => seq!['*'] + a + seq!['*', '\n'],
        Option::None => seq![],
    }) + sp_md_blocks(s.blocks)
}

/// Render a song as flat markdown text.
///
/// The title and byline rows appear exactly when their directives are
/// present; each block contributes its header and its aligned rows, rows of
/// pure whitespace suppressed.
pub fn render_song(song: &Song) -> (r: String)
    ensures
        r@ == sp_md_render(song@),
{
    let ghost sv = song@;
    let mut output = String::new();
    proof {
        reveal_strlit("\n");
        reveal_strlit("");
        reveal_strlit("*");
        assert("\n"@ =~= seq!['\n']);
        assert("*"@ =~= seq!['*']);
        assert(""@ =~= Seq::<char>::empty());
    }
    match song.directives.get("title") {
        Option::Some(title) => {
            let piece = wrap_markdown("# ".to_owned(), title.clone(), "".to_owned(), true);
            output.append(piece.as_str());
        },
        Option::None => (),
    }
    match song.directives.get("artist") {
        Option::Some(artist) => {
            let piece = wrap_markdown("*".to_owned(), artist.clone(), "*".to_owned(), true);
            output.append(piece.as_str());
        },
        Option::None => (),
    }
    proof {
        assert(output@ =~= sp_md_render(sv).subrange(0, output@.len() as int)) by {
            assert(sp_md_render(sv) =~= output@ + sp_md_blocks(sv.blocks));
        }
    }
    let ghost head = output@;
    proof {
        assert(sp_md_render(sv) == head + sp_md_blocks(sv.blocks));
    }
    let nb = song.blocks.len();
    let mut bi: usize = 0;
    proof {
        assert(sv.blocks.take(0) =~= Seq::<BlockV>::empty());
        assert(output@ =~= head + sp_md_blocks(sv.blocks.take(0)));
    }
    while bi < nb
        invariant
            nb == song.blocks@.len(),
            sv == song@,
            0 <= bi <= nb,
            output@ == head + sp_md_blocks(sv.blocks.take(bi as int)),
            "\n"@ == seq!['\n'],
            ""@ == Seq::<char>::empty(),
        decreases nb - bi,
    {
        let block = &song.blocks[bi];
        let ghost bv = sv.blocks[bi as int];
        proof {
            assert(bv == song.blocks@[bi as int]@);
            assert(sv.blocks.take(bi as int + 1).drop_last() =~= sv.blocks.take(bi as int));
            assert(sv.blocks.take(bi as int + 1).last() == bv);
        }
        let section_name = crate::render::strip_hashes(block.section_name.as_str());
        let piece = wrap_markdown("## ".to_owned(), section_name.to_owned(), "".to_owned(), true);
        output.append(piece.as_str());
        let nl = block.lines.len();
        let mut li: usize = 0;
        let ghost bhead = output@;
        proof {
            assert(bv.lines.take(0) =~= Seq::<LyricLineV>::empty());
            assert(output@ =~= bhead + sp_pre_text(bv.lines.take(0)));
        }
        while li < nl
            invariant
                nl == block.lines@.len(),
                bv == block@,
                0 <= li <= nl,
                output@ == bhead + sp_pre_text(bv.lines.take(li as int)),
                "\n"@ == seq!['\n'],
            decreases nl - li,
        {
            let line = &block.lines[li];
            let ghost lv = bv.lines[li as int];
            proof {
                assert(lv == block.lines@[li as int]@);
                assert(bv.lines.take(li as int + 1).drop_last() =~= bv.lines.take(li as int));
                assert(bv.lines.take(li as int + 1).last() == lv);
            }
            let rows = render_chord_lyric_lines(line);
            let ghost rv = view_rows(rows@);
            let nr = rows.len();
            let mut ri: usize = 0;
            let ghost lhead = output@;
            proof {
                assert(rv.take(0) =~= Seq::<(Seq<char>, Seq<char>)>::empty());
                assert(output@ =~= lhead + sp_rows_text(rv.take(0)));
            }
            while ri < nr
                invariant
                    nr == rows@.len(),
                    rv == view_rows(rows@),
                    0 <= ri <= nr,
                    output@ == lhead + sp_rows_text(rv.take(ri as int)),
                    "\n"@ == seq!['\n'],
                decreases nr - ri,
            {
                proof {
                    assert(rv[ri as int] == (rows@[ri as int].0@, rows@[ri as int].1@));
                    assert(rv.take(ri as int + 1).drop_last() =~= rv.take(ri as int));
                    assert(rv.take(ri as int + 1).last() == rv[ri as int]);
                }
                let chord_row = &rows[ri].0;
                let lyric_row = &rows[ri].1;
                if !(crate::render::all_ws_str(chord_row.as_str()) && crate::render::all_ws_str(
                    lyric_row.as_str(),
                )) {
                    output.append(chord_row.as_str());
                    output.append("\n");
                    output.append(lyric_row.as_str());
                    output.append("\n");
                    proof {
                        assert(output@ =~= lhead + sp_rows_text(rv.take(ri as int + 1)));
                    }
                } else {
                    proof {
                        assert(output@ =~= lhead + sp_rows_text(rv.take(ri as int + 1)));
                    }
                }
                ri = ri + 1;
            }
            proof {
                assert(rv.take(nr as int) =~= rv);
                assert(output@ =~= bhead + sp_pre_text(bv.lines.take(li as int + 1)));
            }
            li = li + 1;
        }
        proof {
            assert(bv.lines.take(nl as int) =~= bv.lines);
            assert(output@ =~= head + sp_md_blocks(sv.blocks.take(bi as int + 1)));
        }
        bi = bi + 1;
    }
    proof {
        assert(sv.blocks.take(nb as int) =~= sv.blocks);
    }
    output
}

} // verus!
