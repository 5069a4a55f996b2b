//! Small verified helpers for working with `&str` and `String` values.

use vstd::prelude::*;

verus! {

/// A run of `n` space characters.
pub open spec fn spaces_seq(n: nat) -> Seq<char> {
    Seq::new(n, |i: int| ' ')
}

/// The whitespace characters this notation cares about.
pub open spec fn is_ws_char(c: char) -> bool {
    c == ' ' || c == '\t' || c == '\n' || c == '\r'
}

/// Decide whitespace for one character.
pub fn ws_char(c: char) -> (r: bool)
    ensures
        r == is_ws_char(c),
{
    c == ' ' || c == '\t' || c == '\n' || c == '\r'
}

/// The first position at or after `i` that holds whitespace (or the end).
pub open spec fn sp_token_end(s: Seq<char>, i: int) -> int
    decreases s.len() - i,
{
    if 0 <= i < s.len() && !is_ws_char(s[i]) {
        sp_token_end(s, i + 1)
    } else {
        i
    }
}

/// The maximal whitespace-separated tokens of `s`, from position `i` on.
pub open spec fn sp_split_ws_from(s: Seq<char>, i: int) -> Seq<Seq<char>>
    decreases s.len() - i,
{
    if !(0 <= i < s.len()) {
        seq![]
    } else if is_ws_char(s[i]) {
        sp_split_ws_from(s, i + 1)
    } else {
        let e = sp_token_end(s, i);
        if i < e <= s.len() {
            seq![s.subrange(i, e)] + sp_split_ws_from(s, e)
        } else {
            seq![]
        }
    }
}

/// The maximal whitespace-separated tokens of `s`.
pub open spec fn sp_split_ws(s: Seq<char>) -> Seq<Seq<char>> {
    sp_split_ws_from(s, 0)
}

pub proof fn lemma_token_end_bounds(s: Seq<char>, i: int)
    requires
        0 <= i <= s.len(),
    ensures
        i <= sp_token_end(s, i) <= s.len(),
    decreases s.len() - i,
{
    if i < s.len() && !is_ws_char(s[i]) {
        lemma_token_end_bounds(s, i + 1);
    }
}

/// A well-formed token: nonempty, with no whitespace in it.
pub open spec fn token_ok(t: Seq<char>) -> bool {
    t.len() > 0 && forall|j: int| 0 <= j < t.len() ==> !is_ws_char(#[trigger] t[j])
}

/// The scan for a token's end stops exactly at the first whitespace.
pub proof fn lemma_token_end_region(s: Seq<char>, i: int, e: int)
    requires
        0 <= i <= e <= s.len(),
        forall|j: int| i <= j < e ==> !is_ws_char(#[trigger] s[j]),
        e == s.len() || is_ws_char(s[e]),
    ensures
        sp_token_end(s, i) == e,
    decreases e - i,
{
    if i < e {
        lemma_token_end_region(s, i + 1, e);
    }
}

/// No character before a token's end is whitespace.
pub proof fn lemma_token_end_chars(s: Seq<char>, i: int)
    requires
        0 <= i <= s.len(),
    ensures
        forall|j: int| i <= j < sp_token_end(s, i) ==> !is_ws_char(#[trigger] s[j]),
    decreases s.len() - i,
{
    if i < s.len() && !is_ws_char(s[i]) {
        lemma_token_end_chars(s, i + 1);
    }
}

/// Every token that splitting yields is nonempty and free of whitespace.
pub proof fn lemma_split_ws_tokens(s: Seq<char>, i: int)
    requires
        0 <= i,
    ensures
        forall|j: int|
            0 <= j < sp_split_ws_from(s, i).len() ==> token_ok(
                #[trigger] sp_split_ws_from(s, i)[j],
            ),
    decreases s.len() - i,
{
    if !(0 <= i < s.len()) {
    } else if is_ws_char(s[i]) {
        lemma_split_ws_tokens(s, i + 1);
        assert(sp_split_ws_from(s, i) == sp_split_ws_from(s, i + 1));
        assert forall|j: int| 0 <= j < sp_split_ws_from(s, i).len() implies token_ok(
            sp_split_ws_from(s, i)[j],
        ) by {
            assert(sp_split_ws_from(s, i)[j] == sp_split_ws_from(s, i + 1)[j]);
        }
    } else {
        let e = sp_token_end(s, i);
        lemma_token_end_bounds(s, i);
        assert(sp_token_end(s, i) == sp_token_end(s, i + 1));
        lemma_token_end_bounds(s, i + 1);
        if i < e <= s.len() {
            lemma_token_end_chars(s, i);
            lemma_split_ws_tokens(s, e);
            let tok = s.subrange(i, e);
            assert(token_ok(tok)) by {
                assert(forall|j: int| 0 <= j < tok.len() ==> tok[j] == s[i + j]);
            }
            let rest = sp_split_ws_from(s, e);
            assert forall|j: int| 0 <= j < sp_split_ws_from(s, i).len() implies token_ok(
                sp_split_ws_from(s, i)[j],
            ) by {
                if j == 0 {
                    assert(sp_split_ws_from(s, i)[0] == tok);
                } else {
                    assert(sp_split_ws_from(s, i)[j] == rest[j - 1]);
                }
            }
        }
    }
}

/// Splitting two tokens joined with a single space gives those two tokens.
pub proof fn lemma_split_join2(t0: Seq<char>, t1: Seq<char>)
    requires
        token_ok(t0),
        token_ok(t1),
    ensures
        sp_split_ws(t0 + seq![' '] + t1) == seq![t0, t1],
{
    let w = t0 + seq![' '] + t1;
    let n0 = t0.len() as int;
    let n = w.len() as int;
    assert(w[n0] == ' ');
    assert(forall|j: int| 0 <= j < n0 ==> w[j] == t0[j]);
    assert(forall|j: int| n0 + 1 <= j < n ==> w[j] == t1[j - n0 - 1]);
    lemma_token_end_region(w, 0, n0);
    assert(w.subrange(0, n0) =~= t0);
    assert(sp_split_ws_from(w, 0) == seq![t0] + sp_split_ws_from(w, n0));
    assert(is_ws_char(w[n0]));
    assert(sp_split_ws_from(w, n0) == sp_split_ws_from(w, n0 + 1));
    lemma_token_end_region(w, n0 + 1, n);
    assert(w.subrange(n0 + 1, n) =~= t1);
    assert(sp_split_ws_from(w, n0 + 1) == seq![t1] + sp_split_ws_from(w, n));
    assert(sp_split_ws_from(w, n) =~= Seq::<Seq<char>>::empty());
    assert(sp_split_ws(w) =~= seq![t0, t1]);
}

fn token_end(s: &str, i: usize) -> (e: usize)
    requires
        i <= s@.len(),
    ensures
        e as int == sp_token_end(s@, i as int),
        i <= e,
        e <= s@.len(),
{
    let n = s.unicode_len();
    let mut cur = i;
    while cur < n && !ws_char(s.get_char(cur))
        invariant
            i <= cur <= n,
            n == s@.len(),
            sp_token_end(s@, i as int) == sp_token_end(s@, cur as int),
        decreases n - cur,
    {
        cur = cur + 1;
    }
    cur
}

/// Split `s` on runs of whitespace, dropping empty pieces.
pub fn split_ws(s: &str) -> (r: Vec<String>)
    ensures
        r@.map_values(|t: String| t@) == sp_split_ws(s@),
{
    let r = split_ws_from(s, 0);
    r
}

fn split_ws_from(s: &str, i: usize) -> (r: Vec<String>)
    requires
        i <= s@.len(),
    ensures
        r@.map_values(|t: String| t@) == sp_split_ws_from(s@, i as int),
    decreases s@.len() - i,
{
    let n = s.unicode_len();
    if i >= n {
        let r: Vec<String> = Vec::new();
        proof {
            assert(r@.map_values(|t: String| t@) =~= sp_split_ws_from(s@, i as int));
        }
        r
    } else if ws_char(s.get_char(i)) {
        split_ws_from(s, i + 1)
    } else {
        let e = token_end(s, i);
        proof {
            assert(i < e) by {
                assert(sp_token_end(s@, i as int) == sp_token_end(s@, i as int + 1));
                lemma_token_end_bounds(s@, i as int + 1);
            }
        }
        let tok = s.substring_char(i, e).to_owned();
        let mut rest = split_ws_from(s, e);
        rest.insert(0, tok);
        proof {
            assert(rest@.map_values(|t: String| t@) =~= sp_split_ws_from(s@, i as int));
        }
        rest
    }
}

/// Taking one element off the front of a suffix shortens the suffix by one.
pub proof fn lemma_remove0_skip<T>(s: Seq<T>, i: int)
    requires
        0 <= i < s.len(),
    ensures
        s.skip(i).remove(0) =~= s.skip(i + 1),
        s.skip(i)[0] == s[i],
{
}

/// The views of a sequence of owned strings.
pub open spec fn view_strs(s: Seq<String>) -> Seq<Seq<char>> {
    s.map_values(|t: String| t@)
}

/// The first position at or after `i` holding `c` (or the end).
pub open spec fn sp_scan_to(s: Seq<char>, i: int, c: char) -> int
    decreases s.len() - i,
{
    if 0 <= i < s.len() && s[i] != c {
        sp_scan_to(s, i + 1, c)
    } else {
        i
    }
}

/// The pieces of `s` from position `i` on, split at every `c`; empty pieces
/// are kept, and there is always at least one piece.
pub open spec fn sp_split_char_from(s: Seq<char>, i: int, c: char) -> Seq<Seq<char>>
    decreases s.len() - i,
{
    if !(0 <= i <= s.len()) {
        seq![]
    } else {
        let e = sp_scan_to(s, i, c);
        if i <= e < s.len() {
            seq![s.subrange(i, e)] + sp_split_char_from(s, e + 1, c)
        } else {
            seq![s.subrange(i, s.len() as int)]
        }
    }
}

/// The pieces of `s`, split at every `c`.
pub open spec fn sp_split_char(s: Seq<char>, c: char) -> Seq<Seq<char>> {
    sp_split_char_from(s, 0, c)
}

fn scan_to(s: &str, i: usize, c: char) -> (e: usize)
    requires
        i <= s@.len(),
    ensures
        e as int == sp_scan_to(s@, i as int, c),
        i <= e <= s@.len(),
{
    let n = s.unicode_len();
    let mut cur = i;
    while cur < n && s.get_char(cur) != c
        invariant
            i <= cur <= n,
            n == s@.len(),
            sp_scan_to(s@, i as int, c) == sp_scan_to(s@, cur as int, c),
        decreases n - cur,
    {
        cur = cur + 1;
    }
    cur
}

fn split_char_from(s: &str, i: usize, c: char) -> (r: Vec<String>)
    requires
        i <= s@.len(),
    ensures
        view_strs(r@) == sp_split_char_from(s@, i as int, c),
    decreases s@.len() - i,
{
    let n = s.unicode_len();
    let e = scan_to(s, i, c);
    if e < n {
        let piece = s.substring_char(i, e).to_owned();
        let mut rest = split_char_from(s, e + 1, c);
        rest.insert(0, piece);
        proof {
            assert(view_strs(rest@) =~= sp_split_char_from(s@, i as int, c));
        }
        rest
    } else {
        let piece = s.substring_char(i, n).to_owned();
        let mut r: Vec<String> = Vec::new();
        r.push(piece);
        proof {
            assert(view_strs(r@) =~= sp_split_char_from(s@, i as int, c));
        }
        r
    }
}

/// Split `s` at every occurrence of `c`, keeping empty pieces.
pub fn split_char(s: &str, c: char) -> (r: Vec<String>)
    ensures
        view_strs(r@) == sp_split_char(s@, c),
{
    split_char_from(s, 0, c)
}

/// Decide whether two string slices hold the same characters.
pub fn eq_str(a: &str, b: &str) -> (r: bool)
    ensures
        r == (a@ == b@),
{
    let na = a.unicode_len();
    let nb = b.unicode_len();
    if na != nb {
        assert(a@ != b@);
        return false;
    }
    let mut i: usize = 0;
    while i < na
        invariant
            na == a@.len(),
            na == b@.len(),
            0 <= i <= na,
            forall|k: int| 0 <= k < i ==> a@[k] == b@[k],
        decreases na - i,
    {
        if a.get_char(i) != b.get_char(i) {
            assert(a@[i as int] != b@[i as int]);
            return false;
        }
        i = i + 1;
    }
    proof {
        assert(a@ =~= b@);
    }
    true
}

/// A string of `n` spaces.
pub fn spaces(n: usize) -> (r: String)
    ensures
        r@ == spaces_seq(n as nat),
{
    let mut s = String::new();
    proof {
        reveal_strlit(" ");
    }
    let mut i: usize = 0;
    while i < n
        invariant
            0 <= i <= n,
            s@ =~= spaces_seq(i as nat),
            " "@ =~= seq![' '],
        decreases n - i,
    {
        s.append(" ");
        proof {
            assert(s@ =~= spaces_seq((i + 1) as nat));
        }
        i = i + 1;
    }
    proof {
        assert(s@ =~= spaces_seq(n as nat));
    }
    s
}

} // verus!
