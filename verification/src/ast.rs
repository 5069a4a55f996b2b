//! The abstract syntax tree for a lead sheet: a song made of directives and
//! sectioned blocks of lyric lines, with chords placed among the lyric text.
//!
//! Each executable type has a mathematical view (`...V`) over which all
//! contracts in this crate are stated.

use vstd::prelude::*;
use crate::strutil::eq_str;

verus! {

// ---------------------------------------------------------------------------
// Mathematical views
// ---------------------------------------------------------------------------

#[verifier::ext_equal]
pub struct DirectiveV {
    pub name: Seq<char>,
    pub value: Seq<char>,
}

#[verifier::ext_equal]
pub struct ChordV {
    pub root: Note,
    pub inversion: Option<Seq<char>>,
    pub quality: Option<Seq<char>>,
    pub extensions: Seq<Option<Seq<char>>>,
    pub bass: Option<Note>,
}

#[verifier::ext_equal]
pub enum ChordOrTextV {
    Chord(ChordV),
    Text(Seq<char>),
}

#[verifier::ext_equal]
pub enum SegmentV {
    Measure(Seq<ChordOrTextV>),
    Inline(Seq<ChordOrTextV>),
}

#[verifier::ext_equal]
pub struct LyricLineV {
    pub segments: Seq<SegmentV>,
}

#[verifier::ext_equal]
pub struct BlockV {
    pub section_name: Seq<char>,
    pub lines: Seq<LyricLineV>,
}

#[verifier::ext_equal]
pub struct SongV {
    pub directives: Seq<DirectiveV>,
    pub blocks: Seq<BlockV>,
}

// ---------------------------------------------------------------------------
// Executable types
// ---------------------------------------------------------------------------

#[derive(Debug, Clone, Copy, PartialEq, Eq, Structural)]
pub enum NoteLetter {
    A,
    B,
    C,
    D,
    E,
    F,
    G,
}

#[derive(Debug, Clone, Copy, PartialEq, Eq, Structural)]
pub enum Accidental {
    Sharp,
    Flat,
    Natural,
}

#[derive(Debug, Clone, Copy, PartialEq, Eq, Structural)]
pub struct Note {
    pub letter: NoteLetter,
    pub accidental: Accidental,
}

#[derive(Debug, Clone, PartialEq, Eq)]
pub struct Chord {
    pub root: Note,
    pub inversion: Option<String>,
    pub quality: Option<String>,
    pub extensions: Vec<Option<String>>,
    pub bass: Option<Note>,
}

#[derive(Debug)]
pub enum ChordOrText {
    Chord(Chord),
    Text(String),
}

#[derive(Debug)]
pub enum Segment {
    Measure(Vec<ChordOrText>),
    Inline(Vec<ChordOrText>),
}

#[derive(Debug)]
pub struct LyricLine {
    pub segments: Vec<Segment>,
}

#[derive(Debug)]
pub struct Block {
    pub section_name: String,
    pub lines: Vec<LyricLine>,
}

#[derive(Debug)]
pub struct Directive {
    pub name: String,
    pub value: String,
}

/// The song-level metadata: a name-to-value mapping with unique names,
/// kept in insertion order.
#[derive(Debug)]
pub struct Directives {
    pairs: Vec<Directive>,
}

#[derive(Debug)]
pub struct Song {
    pub directives: Directives,
    pub blocks: Vec<Block>,
}

// ---------------------------------------------------------------------------
// Views
// ---------------------------------------------------------------------------

pub open spec fn opt_str_view(o: Option<String>) -> Option<Seq<char>> {
    match o {
        Option::Some(s) => Option::Some(s@),
        Option::None => Option::None,
    }
}

impl View for Directive {
    type V = DirectiveV;

    open spec fn view(&self) -> DirectiveV {
        DirectiveV { name: self.name@, value: self.value@ }
    }
}

impl View for Chord {
    type V = ChordV;

    open spec fn view(&self) -> ChordV {
        ChordV {
            root: self.root,
            inversion: opt_str_view(self.inversion),
            quality: opt_str_view(self.quality),
            extensions: self.extensions@.map_values(|o: Option<String>| opt_str_view(o)),
            bass: self.bass,
        }
    }
}

impl View for ChordOrText {
    type V = ChordOrTextV;

    open spec fn view(&self) -> ChordOrTextV {
        match self {
            ChordOrText::Chord(c) => ChordOrTextV::Chord(c@),
            ChordOrText::Text(t) => ChordOrTextV::Text(t@),
        }
    }
}

impl View for Segment {
    type V = SegmentV;

    open spec fn view(&self) -> SegmentV {
        match self {
            Segment::Measure(items) => SegmentV::Measure(
                items@.map_values(|x: ChordOrText| x@),
            ),
            Segment::Inline(items) => SegmentV::Inline(items@.map_values(|x: ChordOrText| x@)),
        }
    }
}

impl View for LyricLine {
    type V = LyricLineV;

    open spec fn view(&self) -> LyricLineV {
        LyricLineV { segments: self.segments@.map_values(|s: Segment| s@) }
    }
}

impl View for Block {
    type V = BlockV;

    open spec fn view(&self) -> BlockV {
        BlockV {
            section_name: self.section_name@,
            lines: self.lines@.map_values(|l: LyricLine| l@),
        }
    }
}

impl View for Directives {
    type V = Seq<DirectiveV>;

    closed spec fn view(&self) -> Seq<DirectiveV> {
        self.pairs@.map_values(|d: Directive| d@)
    }
}

impl View for Song {
    type V = SongV;

    open spec fn view(&self) -> SongV {
        SongV { directives: self.directives@, blocks: self.blocks@.map_values(|b: Block| b@) }
    }
}

// ---------------------------------------------------------------------------
// Named views of sequences of nodes
// ---------------------------------------------------------------------------

pub open spec fn view_exts(s: Seq<Option<String>>) -> Seq<Option<Seq<char>>> {
    s.map_values(|o: Option<String>| opt_str_view(o))
}

pub open spec fn view_dir_list(s: Seq<Directive>) -> Seq<DirectiveV> {
    s.map_values(|d: Directive| d@)
}

/// The items a segment holds: a measure and an inline run carry them the
/// same way, so the two kinds are alignment-equivalent.
pub open spec fn seg_items(s: SegmentV) -> Seq<ChordOrTextV> {
    match s {
        SegmentV::Measure(items) => items,
        SegmentV::Inline(items) => items,
    }
}

pub open spec fn view_items(s: Seq<ChordOrText>) -> Seq<ChordOrTextV> {
    s.map_values(|x: ChordOrText| x@)
}

pub open spec fn view_segments(s: Seq<Segment>) -> Seq<SegmentV> {
    s.map_values(|x: Segment| x@)
}

pub open spec fn view_lines(s: Seq<LyricLine>) -> Seq<LyricLineV> {
    s.map_values(|x: LyricLine| x@)
}

pub open spec fn view_blocks(s: Seq<Block>) -> Seq<BlockV> {
    s.map_values(|x: Block| x@)
}

// ---------------------------------------------------------------------------
// The directive mapping
// ---------------------------------------------------------------------------

/// The value bound to `name`: the value of its first occurrence.
pub open spec fn sp_dirs_get(ds: Seq<DirectiveV>, name: Seq<char>) -> Option<Seq<char>>
    decreases ds.len(),
{
    if ds.len() == 0 {
        Option::None
    } else if ds[0].name == name {
        Option::Some(ds[0].value)
    } else {
        sp_dirs_get(ds.drop_first(), name)
    }
}

/// Bind `name` to `value`: update its first occurrence in place, or append.
pub open spec fn sp_dirs_set(ds: Seq<DirectiveV>, name: Seq<char>, value: Seq<char>) -> Seq<
    DirectiveV,
>
    decreases ds.len(),
{
    if ds.len() == 0 {
        seq![DirectiveV { name, value }]
    } else if ds[0].name == name {
        seq![DirectiveV { name, value }] + ds.drop_first()
    } else {
        seq![ds[0]] + sp_dirs_set(ds.drop_first(), name, value)
    }
}

/// Directive names are pairwise distinct.
pub open spec fn dirs_wf(ds: Seq<DirectiveV>) -> bool {
    forall|i: int, j: int| 0 <= i < j < ds.len() ==> ds[i].name != ds[j].name
}

proof fn lemma_dirs_set_skip(ds: Seq<DirectiveV>, name: Seq<char>, value: Seq<char>, i: int)
    requires
        0 <= i <= ds.len(),
        forall|k: int| 0 <= k < i ==> ds[k].name != name,
    ensures
        sp_dirs_set(ds, name, value) =~= ds.take(i) + sp_dirs_set(ds.skip(i), name, value),
    decreases i,
{
    if i == 0 {
        assert(ds.skip(0) =~= ds);
        assert(ds.take(0) + sp_dirs_set(ds, name, value) =~= sp_dirs_set(ds, name, value));
    } else {
        lemma_dirs_set_skip(ds, name, value, i - 1);
        assert(ds.skip(i - 1).len() > 0);
        assert(ds.skip(i - 1)[0] == ds[i - 1]);
        assert(ds[i - 1].name != name);
        assert(ds.skip(i - 1).drop_first() =~= ds.skip(i));
        assert(sp_dirs_set(ds.skip(i - 1), name, value) =~= seq![ds[i - 1]] + sp_dirs_set(
            ds.skip(i),
            name,
            value,
        ));
        assert(ds.take(i - 1) + (seq![ds[i - 1]] + sp_dirs_set(ds.skip(i), name, value)) =~= ds.take(
            i,
        ) + sp_dirs_set(ds.skip(i), name, value));
    }
}

/// Looking a name up right after binding it yields the bound value.
pub proof fn lemma_dirs_get_set_same(ds: Seq<DirectiveV>, name: Seq<char>, value: Seq<char>)
    ensures
        sp_dirs_get(sp_dirs_set(ds, name, value), name) == Option::Some(value),
    decreases ds.len(),
{
    let nv = DirectiveV { name, value };
    if ds.len() == 0 {
        assert(sp_dirs_set(ds, name, value) == seq![nv]);
        assert(seq![nv][0] == nv);
    } else if ds[0].name == name {
        assert((seq![nv] + ds.drop_first())[0] == nv);
    } else {
        lemma_dirs_get_set_same(ds.drop_first(), name, value);
        let rec = sp_dirs_set(ds.drop_first(), name, value);
        assert((seq![ds[0]] + rec)[0] == ds[0]);
        assert((seq![ds[0]] + rec).drop_first() =~= rec);
    }
}

/// A second binding of the same name overrides the first.
pub proof fn lemma_dirs_set_set(
    ds: Seq<DirectiveV>,
    name: Seq<char>,
    v1: Seq<char>,
    v2: Seq<char>,
)
    ensures
        sp_dirs_set(sp_dirs_set(ds, name, v1), name, v2) == sp_dirs_set(ds, name, v2),
    decreases ds.len(),
{
    let nv1 = DirectiveV { name, value: v1 };
    if ds.len() == 0 {
        assert(sp_dirs_set(ds, name, v1) == seq![nv1]);
        assert(seq![nv1][0] == nv1);
        assert(seq![nv1].drop_first() =~= Seq::<DirectiveV>::empty());
        assert(sp_dirs_set(seq![nv1], name, v2) =~= sp_dirs_set(ds, name, v2));
    } else if ds[0].name == name {
        let s1 = seq![nv1] + ds.drop_first();
        assert(s1[0] == nv1);
        assert(s1.drop_first() =~= ds.drop_first());
        assert(sp_dirs_set(s1, name, v2) =~= sp_dirs_set(ds, name, v2));
    } else {
        lemma_dirs_set_set(ds.drop_first(), name, v1, v2);
        let rec1 = sp_dirs_set(ds.drop_first(), name, v1);
        let s1 = seq![ds[0]] + rec1;
        assert(s1[0] == ds[0]);
        assert(s1.drop_first() =~= rec1);
        assert(sp_dirs_set(s1, name, v2) =~= seq![ds[0]] + sp_dirs_set(rec1, name, v2));
        assert(sp_dirs_set(s1, name, v2) =~= sp_dirs_set(ds, name, v2));
    }
}

/// Rebinding a name to the value it already has changes nothing.
pub proof fn lemma_dirs_set_get_id(ds: Seq<DirectiveV>, name: Seq<char>, value: Seq<char>)
    requires
        sp_dirs_get(ds, name) == Option::Some(value),
    ensures
        sp_dirs_set(ds, name, value) == ds,
    decreases ds.len(),
{
    if ds.len() == 0 {
    } else if ds[0].name == name {
        assert(ds[0] == DirectiveV { name, value });
        assert(seq![ds[0]] + ds.drop_first() =~= ds);
    } else {
        lemma_dirs_set_get_id(ds.drop_first(), name, value);
        assert(seq![ds[0]] + ds.drop_first() =~= ds);
    }
}

impl Directives {
    /// An empty mapping.
    pub fn new() -> (d: Directives)
        ensures
            d@ =~= Seq::<DirectiveV>::empty(),
    {
        Directives { pairs: Vec::new() }
    }

    /// Look `name` up.
    pub fn get(&self, name: &str) -> (r: Option<&String>)
        ensures
            match r {
                Option::Some(v) => sp_dirs_get(self@, name@) == Option::Some(v@),
                Option::None => sp_dirs_get(self@, name@) is None,
            },
    {
        let ghost ds = self@;
        proof {
            assert(ds.skip(0) =~= ds);
        }
        let mut i: usize = 0;
        while i < self.pairs.len()
            invariant
                ds == self@,
                ds.len() == self.pairs.len(),
                0 <= i <= self.pairs.len(),
                forall|k: int| 0 <= k < ds.len() ==> ds[k] == self.pairs@[k]@,
                sp_dirs_get(ds, name@) == sp_dirs_get(ds.skip(i as int), name@),
            decreases self.pairs.len() - i,
        {
            if eq_str(self.pairs[i].name.as_str(), name) {
                assert(ds.skip(i as int)[0] == ds[i as int]);
                return Option::Some(&self.pairs[i].value);
            }
            proof {
                assert(ds.skip(i as int)[0] == ds[i as int]);
                assert(ds.skip(i as int).drop_first() =~= ds.skip(i as int + 1));
            }
            i = i + 1;
        }
        proof {
            assert(ds.skip(i as int) =~= Seq::<DirectiveV>::empty());
        }
        Option::None
    }

    /// Bind `name` to `value`, replacing any earlier binding.
    pub fn insert(&mut self, name: String, value: String)
        ensures
            final(self)@ =~= sp_dirs_set(old(self)@, name@, value@),
            dirs_wf(old(self)@) ==> dirs_wf(final(self)@),
    {
        let ghost ds = self@;
        let ghost nm = name@;
        let ghost vl = value@;
        let ghost nv = DirectiveV { name: nm, value: vl };
        let n = self.pairs.len();
        let mut i: usize = 0;
        while i < n
            invariant
                ds == self@,
                ds == old(self)@,
                n == self.pairs.len(),
                ds.len() == n,
                0 <= i <= n,
                nm == name@,
                vl == value@,
                nv == (DirectiveV { name: nm, value: vl }),
                forall|k: int| 0 <= k < ds.len() ==> ds[k] == self.pairs@[k]@,
                forall|k: int| 0 <= k < i ==> ds[k].name != nm,
            decreases n - i,
        {
            if eq_str(self.pairs[i].name.as_str(), name.as_str()) {
                proof {
                    lemma_dirs_set_skip(ds, nm, vl, i as int);
                    assert(ds.skip(i as int)[0] == ds[i as int]);
                    assert(ds[i as int].name == nm);
                    assert(ds.skip(i as int).drop_first() =~= ds.skip(i as int + 1));
                    assert(sp_dirs_set(ds.skip(i as int), nm, vl) =~= seq![nv] + ds.skip(
                        i as int + 1,
                    ));
                    assert(sp_dirs_set(ds, nm, vl) =~= ds.take(i as int) + (seq![nv] + ds.skip(
                        i as int + 1,
                    )));
                    assert(ds.take(i as int) + (seq![nv] + ds.skip(i as int + 1)) =~= ds.update(
                        i as int,
                        nv,
                    ));
                }
                self.pairs.set(i, Directive { name, value });
                proof {
                    assert(self@ =~= ds.update(i as int, nv));
                    assert(forall|k: int|
                        0 <= k < self@.len() ==> #[trigger] self@[k].name == ds[k].name);
                    if dirs_wf(ds) {
                        assert forall|p: int, q: int| 0 <= p < q < self@.len() implies self@[p].name
                            != self@[q].name by {
                            assert(ds[p].name != ds[q].name);
                        }
                    }
                }
                return ;
            }
            i = i + 1;
        }
        proof {
            lemma_dirs_set_skip(ds, nm, vl, ds.len() as int);
            assert(ds.skip(ds.len() as int) =~= Seq::<DirectiveV>::empty());
            assert(ds.take(ds.len() as int) =~= ds);
            assert(sp_dirs_set(ds, nm, vl) =~= ds + seq![nv]);
        }
        self.pairs.push(Directive { name, value });
        proof {
            assert(self@ =~= ds.push(nv));
            assert(ds.push(nv) =~= ds + seq![nv]);
            if dirs_wf(ds) {
                assert forall|p: int, q: int| 0 <= p < q < self@.len() implies self@[p].name
                    != self@[q].name by {
                    if q < ds.len() {
                        assert(ds[p].name != ds[q].name);
                    } else {
                        assert(self@[q] == nv);
                        assert(ds[p].name != nm);
                    }
                }
            }
        }
    }
}

} // verus!
