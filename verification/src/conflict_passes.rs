use vstd::prelude::*;
use crate::conflict::{
    blocks_of, lemma_take_step, resolved_text, seg_output, segs_view, BlockV, ConflictBlock,
    ConflictChoice, ConflictPickSide, ConflictSegment, SegV,
};
use crate::text::push_str;

verus! {

/// The number of blocks among the first `i` segments.
pub open spec fn blocks_before(v: Seq<SegV>, i: int) -> nat {
    blocks_of(v.take(i)).len()
}

/// The choice for a picked side.
pub open spec fn side_choice(s: ConflictPickSide) -> ConflictChoice {
    match s {
        ConflictPickSide::Ours => ConflictChoice::Ours,
        ConflictPickSide::Theirs => ConflictChoice::Theirs,
    }
}

/// Segment `i` after the regex rules: an unresolved block whose pick (by block position) is
/// given takes that side and counts as resolved.
pub open spec fn regex_seg(v: Seq<SegV>, picks: Seq<Option<ConflictPickSide>>, i: int) -> SegV {
    match v[i] {
        SegV::Block(b) => {
            let k = blocks_before(v, i) as int;
            if !b.resolved && picks[k] is Some {
                SegV::Block(BlockV { choice: side_choice(picks[k]->0), resolved: true, ..b })
            } else {
                v[i]
            }
        },
        SegV::Text(_) => v[i],
    }
}

/// How many of the first `i` segments the regex rules resolve.
pub open spec fn regex_count(v: Seq<SegV>, picks: Seq<Option<ConflictPickSide>>, i: int) -> nat
    decreases i,
{
    if i <= 0 {
        0
    } else {
        regex_count(v, picks, i - 1) + match v[i - 1] {
            SegV::Block(b) => if !b.resolved && picks[blocks_before(v, i - 1) as int] is Some {
                1nat
            } else {
                0nat
            },
            SegV::Text(_) => 0nat,
        }
    }
}

proof fn lemma_regex_count_le(v: Seq<SegV>, picks: Seq<Option<ConflictPickSide>>, i: int)
    requires
        0 <= i <= v.len(),
    ensures
        regex_count(v, picks, i) <= i,
    decreases i,
{
    if i > 0 {
        lemma_regex_count_le(v, picks, i - 1);
    }
}

/// Applies the side picks that the regex-assisted rules found, one entry per conflict block
/// in order (`None` where the rules found none): each unresolved block with a pick takes
/// that side and counts as resolved; resolved blocks stay as they are. Returns how many
/// blocks it resolved.
pub fn apply_regex_autosolve_picks(
    segments: &mut Vec<ConflictSegment>,
    picks: &[Option<ConflictPickSide>],
) -> (count: usize)
    requires
        picks@.len() == blocks_of(segs_view(old(segments)@)).len(),
    ensures
        segs_view(final(segments)@) == Seq::new(
            old(segments)@.len(),
            |i: int| regex_seg(segs_view(old(segments)@), picks@, i),
        ),
        count == regex_count(segs_view(old(segments)@), picks@, old(segments)@.len() as int),
{
    let ghost s0 = segs_view(segments@);
    let ghost orig = segments@;
    let mut count: usize = 0;
    let mut k: usize = 0;
    let mut i: usize = 0;
    while i < segments.len()
        invariant
            i <= segments@.len(),
            s0.len() == segments@.len(),
            s0 == segs_view(orig),
            orig.len() == segments@.len(),
            picks@.len() == blocks_of(s0).len(),
            k == blocks_before(s0, i as int),
            forall|j: int| 0 <= j < i ==> #[trigger] segments@[j]@ == regex_seg(s0, picks@, j),
            forall|j: int| i <= j < segments@.len() ==> #[trigger] segments@[j] == orig[j],
            count == regex_count(s0, picks@, i as int),
            count <= i,
        decreases segments@.len() - i,
    {
        proof {
            lemma_take_step(orig, i as int);
            crate::conflict::lemma_blocks_prefix(s0, i as int + 1);
            lemma_regex_count_le(s0, picks@, i as int);
        }
        let ghost old_segs = segments@;
        match &mut segments[i] {
            ConflictSegment::Block(block) => {
                let ghost before = *block;
                assert(old_segs[i as int] == ConflictSegment::Block(before));
                assert(k < picks@.len());
                if !block.resolved {
                    if let Some(side) = picks[k] {
                        block.choice = match side {
                            ConflictPickSide::Ours => ConflictChoice::Ours,
                            ConflictPickSide::Theirs => ConflictChoice::Theirs,
                        };
                        block.resolved = true;
                        count = count + 1;
                        assert(block@ == BlockV {
                            choice: side_choice(side),
                            resolved: true,
                            ..before@
                        });
                    }
                }
                k = k + 1;
            },
            ConflictSegment::Text(_) => {},
        }
        assert(old_segs[i as int] is Text ==> segments@[i as int] == old_segs[i as int]);
        assert(old_segs[i as int] is Block ==> segments@[i as int] is Block);
        assert(segments@[i as int]@ == regex_seg(s0, picks@, i as int));
        assert(forall|j: int| 0 <= j < segments@.len() && j != i ==> segments@[j] == old_segs[j]);
        i = i + 1;
    }
    proof {
        assert(segs_view(segments@) =~= Seq::new(
            orig.len(),
            |j: int| regex_seg(s0, picks@, j),
        ));
    }
    count
}

} // verus!

verus! {

fn clone_opt_string(o: &Option<String>) -> (r: Option<String>)
    ensures
        crate::conflict::opt_str_view(r) == crate::conflict::opt_str_view(*o),
{
    match o {
        Some(s) => Some(s.clone()),
        None => None,
    }
}

fn clone_segment(s: &ConflictSegment) -> (r: ConflictSegment)
    ensures
        r@ == s@,
{
    match s {
        ConflictSegment::Text(t) => ConflictSegment::Text(t.clone()),
        ConflictSegment::Block(b) => ConflictSegment::Block(
            ConflictBlock {
                base: clone_opt_string(&b.base),
                ours: b.ours.clone(),
                theirs: b.theirs.clone(),
                choice: b.choice,
                resolved: b.resolved,
            },
        ),
    }
}

/// `out` with text `t` added: appended to a text segment at the end, else as a new one.
pub open spec fn push_text(out: Seq<SegV>, t: Seq<char>) -> Seq<SegV> {
    if out.len() > 0 && out.last() is Text {
        out.drop_last().push(SegV::Text(out.last()->Text_0 + t))
    } else {
        out.push(SegV::Text(t))
    }
}

fn push_text_exec(out: &mut Vec<ConflictSegment>, t: &str)
    ensures
        segs_view(final(out)@) == push_text(segs_view(old(out)@), t@),
{
    let n = out.len();
    if n > 0 {
        let ghost o0 = out@;
        match &mut out[n - 1] {
            ConflictSegment::Text(prev) => {
                push_str(prev, t);
                assert(segs_view(out@) =~= push_text(segs_view(o0), t@));
                return;
            },
            ConflictSegment::Block(_) => {},
        }
        assert(out@ == o0);
    }
    let ghost o1 = out@;
    out.push(ConflictSegment::Text(t.to_owned()));
    assert(segs_view(out@) =~= push_text(segs_view(o1), t@));
}

/// The segments after history-aware merging, over the first `i` segments, and how many
/// blocks it merged: an unresolved block whose merged text (by block position) is given
/// becomes that text, joined to a text segment before it.
pub open spec fn history_run(v: Seq<SegV>, merged: Seq<Option<Seq<char>>>, i: int) -> (Seq<SegV>, nat)
    decreases i,
{
    if i <= 0 {
        (Seq::empty(), 0)
    } else {
        let (o, c) = history_run(v, merged, i - 1);
        match v[i - 1] {
            SegV::Block(b) => {
                let k = blocks_before(v, i - 1) as int;
                if !b.resolved && merged[k] is Some {
                    (push_text(o, merged[k]->0), c + 1)
                } else {
                    (o.push(v[i - 1]), c)
                }
            },
            SegV::Text(_) => (o.push(v[i - 1]), c),
        }
    }
}

proof fn lemma_history_count_le(v: Seq<SegV>, merged: Seq<Option<Seq<char>>>, i: int)
    requires
        0 <= i,
    ensures
        history_run(v, merged, i).1 <= i,
    decreases i,
{
    if i > 0 {
        lemma_history_count_le(v, merged, i - 1);
    }
}

/// The merged texts as values.
pub open spec fn opt_texts(m: Seq<Option<String>>) -> Seq<Option<Seq<char>>> {
    m.map_values(|o: Option<String>| crate::conflict::opt_str_view(o))
}

/// Applies the merges that history-aware resolution found, one entry per conflict block in
/// order (`None` where it found none): each unresolved block with a merge becomes that
/// text, joined to a text segment right before it. Returns how many blocks it merged.
pub fn apply_history_merges(segments: &mut Vec<ConflictSegment>, merged: &[Option<String>]) -> (count:
    usize)
    requires
        merged@.len() == blocks_of(segs_view(old(segments)@)).len(),
    ensures
        segs_view(final(segments)@) == history_run(
            segs_view(old(segments)@),
            opt_texts(merged@),
            old(segments)@.len() as int,
        ).0,
        count == history_run(
            segs_view(old(segments)@),
            opt_texts(merged@),
            old(segments)@.len() as int,
        ).1,
{
    let ghost s0 = segs_view(segments@);
    let ghost ms = opt_texts(merged@);
    let mut out: Vec<ConflictSegment> = Vec::new();
    let mut count: usize = 0;
    let mut k: usize = 0;
    let mut i: usize = 0;
    while i < segments.len()
        invariant
            i <= segments@.len(),
            s0 == segs_view(segments@),
            ms == opt_texts(merged@),
            merged@.len() == blocks_of(s0).len(),
            k == blocks_before(s0, i as int),
            segs_view(out@) == history_run(s0, ms, i as int).0,
            count == history_run(s0, ms, i as int).1,
        decreases segments@.len() - i,
    {
        proof {
            lemma_take_step(segments@, i as int);
            crate::conflict::lemma_blocks_prefix(s0, i as int + 1);
            lemma_history_count_le(s0, ms, i as int);
        }
        let ghost o0 = segs_view(out@);
        match &segments[i] {
            ConflictSegment::Block(b) => {
                let mlen = merged.len();
                assert(k < mlen);
                let done = if !b.resolved {
                    match &merged[k] {
                        Some(m) => {
                            push_text_exec(&mut out, m.as_str());
                            count = count + 1;
                            true
                        },
                        None => false,
                    }
                } else {
                    false
                };
                if !done {
                    let c = clone_segment(&segments[i]);
                    out.push(c);
                    assert(segs_view(out@) =~= o0.push(s0[i as int]));
                }
                k = k + 1;
            },
            ConflictSegment::Text(_) => {
                let c = clone_segment(&segments[i]);
                out.push(c);
                assert(segs_view(out@) =~= o0.push(s0[i as int]));
            },
        }
        i = i + 1;
    }
    *segments = out;
    count
}

/// A piece of a conflict block after line-level splitting: text both sides agree on, or a
/// smaller conflict.
#[derive(Clone, Debug, PartialEq, Eq)]
pub enum Subchunk {
    Resolved(String),
    Conflict { base: String, ours: String, theirs: String },
}

/// The value of a piece.
pub enum SubV {
    Resolved(Seq<char>),
    Conflict(Seq<char>, Seq<char>, Seq<char>),
}

/// The value of a piece.
pub open spec fn sub_view(s: Subchunk) -> SubV {
    match s {
        Subchunk::Resolved(t) => SubV::Resolved(t@),
        Subchunk::Conflict { base, ours, theirs } => SubV::Conflict(base@, ours@, theirs@),
    }
}

/// `out` with the first `n` pieces added: agreed text joins a text segment before it, and a
/// smaller conflict becomes a new unresolved block with `Ours` chosen.
pub open spec fn add_pieces(out: Seq<SegV>, subs: Seq<SubV>, n: int) -> Seq<SegV>
    decreases n,
{
    if n <= 0 {
        out
    } else {
        let o = add_pieces(out, subs, n - 1);
        match subs[n - 1] {
            SubV::Resolved(t) => push_text(o, t),
            SubV::Conflict(base, ours, theirs) => o.push(
                SegV::Block(
                    BlockV {
                        base: Some(base),
                        ours,
                        theirs,
                        choice: ConflictChoice::Ours,
                        resolved: false,
                    },
                ),
            ),
        }
    }
}

/// The splits as values.
pub open spec fn splits_view(s: Seq<Option<Vec<Subchunk>>>) -> Seq<Option<Seq<SubV>>> {
    s.map_values(
        |o: Option<Vec<Subchunk>>|
            match o {
                Some(v) => Some(v@.map_values(|x: Subchunk| sub_view(x))),
                None => None,
            },
    )
}

/// The segments after splitting, over the first `i` segments, and how many blocks were
/// split: an unresolved block with an ancestor section whose split (by block position) is
/// given is replaced by its pieces.
pub open spec fn split_run(v: Seq<SegV>, splits: Seq<Option<Seq<SubV>>>, i: int) -> (Seq<SegV>, nat)
    decreases i,
{
    if i <= 0 {
        (Seq::empty(), 0)
    } else {
        let (o, c) = split_run(v, splits, i - 1);
        match v[i - 1] {
            SegV::Block(b) => {
                let k = blocks_before(v, i - 1) as int;
                if !b.resolved && b.base is Some && splits[k] is Some {
                    (add_pieces(o, splits[k]->0, splits[k]->0.len() as int), c + 1)
                } else {
                    (o.push(v[i - 1]), c)
                }
            },
            SegV::Text(_) => (o.push(v[i - 1]), c),
        }
    }
}

proof fn lemma_split_count_le(v: Seq<SegV>, splits: Seq<Option<Seq<SubV>>>, i: int)
    requires
        0 <= i,
    ensures
        split_run(v, splits, i).1 <= i,
    decreases i,
{
    if i > 0 {
        lemma_split_count_le(v, splits, i - 1);
    }
}

fn push_pieces(out: &mut Vec<ConflictSegment>, subs: &Vec<Subchunk>)
    ensures
        segs_view(final(out)@) == add_pieces(
            segs_view(old(out)@),
            subs@.map_values(|x: Subchunk| sub_view(x)),
            subs@.len() as int,
        ),
{
    let ghost o0 = segs_view(out@);
    let ghost sv = subs@.map_values(|x: Subchunk| sub_view(x));
    let mut j: usize = 0;
    while j < subs.len()
        invariant
            j <= subs@.len(),
            sv == subs@.map_values(|x: Subchunk| sub_view(x)),
            segs_view(out@) == add_pieces(o0, sv, j as int),
        decreases subs@.len() - j,
    {
        let ghost before = segs_view(out@);
        match &subs[j] {
            Subchunk::Resolved(t) => {
                push_text_exec(out, t.as_str());
            },
            Subchunk::Conflict { base, ours, theirs } => {
                let blk = ConflictSegment::Block(
                    ConflictBlock {
                        base: Some(base.clone()),
                        ours: ours.clone(),
                        theirs: theirs.clone(),
                        choice: ConflictChoice::Ours,
                        resolved: false,
                    },
                );
                out.push(blk);
                assert(segs_view(out@) =~= before.push(blk@));
            },
        }
        j = j + 1;
    }
}

/// Applies the line-level splits found for conflict blocks, one entry per block in order
/// (`None` where no split was found): each unresolved block with an ancestor section and a
/// split is replaced by its pieces, agreed text joining a text segment before it. Returns
/// how many blocks were split.
pub fn apply_subchunk_splits(segments: &mut Vec<ConflictSegment>, splits: &[Option<Vec<Subchunk>>]) -> (count:
    usize)
    requires
        splits@.len() == blocks_of(segs_view(old(segments)@)).len(),
    ensures
        segs_view(final(segments)@) == split_run(
            segs_view(old(segments)@),
            splits_view(splits@),
            old(segments)@.len() as int,
        ).0,
        count == split_run(
            segs_view(old(segments)@),
            splits_view(splits@),
            old(segments)@.len() as int,
        ).1,
{
    let ghost s0 = segs_view(segments@);
    let ghost sp = splits_view(splits@);
    let mut out: Vec<ConflictSegment> = Vec::new();
    let mut count: usize = 0;
    let mut k: usize = 0;
    let mut i: usize = 0;
    while i < segments.len()
        invariant
            i <= segments@.len(),
            s0 == segs_view(segments@),
            sp == splits_view(splits@),
            splits@.len() == blocks_of(s0).len(),
            k == blocks_before(s0, i as int),
            segs_view(out@) == split_run(s0, sp, i as int).0,
            count == split_run(s0, sp, i as int).1,
        decreases segments@.len() - i,
    {
        proof {
            lemma_take_step(segments@, i as int);
            crate::conflict::lemma_blocks_prefix(s0, i as int + 1);
            lemma_split_count_le(s0, sp, i as int);
        }
        let ghost o0 = segs_view(out@);
        match &segments[i] {
            ConflictSegment::Block(b) => {
                let slen = splits.len();
                assert(k < slen);
                let done = if !b.resolved && b.base.is_some() {
                    match &splits[k] {
                        Some(subs) => {
                            push_pieces(&mut out, subs);
                            count = count + 1;
                            true
                        },
                        None => false,
                    }
                } else {
                    false
                };
                if !done {
                    let c = clone_segment(&segments[i]);
                    out.push(c);
                    assert(segs_view(out@) =~= o0.push(s0[i as int]));
                }
                k = k + 1;
            },
            ConflictSegment::Text(_) => {
                let c = clone_segment(&segments[i]);
                out.push(c);
                assert(segs_view(out@) =~= o0.push(s0[i as int]));
            },
        }
        i = i + 1;
    }
    *segments = out;
    count
}

/// Block `v[j]` is merged by history-aware resolution: unresolved, with a merged text given.
pub open spec fn merged_here(v: Seq<SegV>, merged: Seq<Option<Seq<char>>>, j: int) -> bool {
    v[j] matches SegV::Block(b) && !b.resolved && merged[blocks_before(v, j) as int] is Some
}

/// The resolved text after history-aware merging, over the first `i` segments: a merged
/// block gives its merged text, every other segment its own resolved text.
pub open spec fn merge_output(v: Seq<SegV>, merged: Seq<Option<Seq<char>>>, i: int) -> Seq<char>
    decreases i,
{
    if i <= 0 {
        Seq::empty()
    } else {
        merge_output(v, merged, i - 1) + if merged_here(v, merged, i - 1) {
            merged[blocks_before(v, i - 1) as int]->0
        } else {
            seg_output(v[i - 1])
        }
    }
}

/// The blocks left after history-aware merging, over the first `i` segments, in order.
pub open spec fn kept_blocks(v: Seq<SegV>, merged: Seq<Option<Seq<char>>>, i: int) -> Seq<BlockV>
    decreases i,
{
    if i <= 0 {
        Seq::empty()
    } else {
        kept_blocks(v, merged, i - 1) + match v[i - 1] {
            SegV::Block(b) => if merged_here(v, merged, i - 1) {
                Seq::empty()
            } else {
                seq![b]
            },
            SegV::Text(_) => Seq::empty(),
        }
    }
}

proof fn lemma_push_text_output(o: Seq<SegV>, t: Seq<char>)
    ensures
        resolved_text(push_text(o, t)) == resolved_text(o) + t,
        blocks_of(push_text(o, t)) == blocks_of(o),
{
    if o.len() > 0 && o.last() is Text {
        let p = o.drop_last();
        let a = o.last()->Text_0;
        let q = p.push(SegV::Text(a + t));
        assert(q.drop_last() =~= p);
        assert(resolved_text(o) == resolved_text(p) + a);
        assert(resolved_text(q) == resolved_text(p) + (a + t));
        assert(resolved_text(p) + (a + t) =~= resolved_text(p) + a + t);
    } else {
        let q = o.push(SegV::Text(t));
        assert(q.drop_last() =~= o);
    }
}

proof fn lemma_blocks_before_step(v: Seq<SegV>, i: int)
    requires
        0 <= i < v.len(),
    ensures
        blocks_before(v, i + 1) == blocks_before(v, i) + if v[i] is Block { 1nat } else { 0nat },
{
    assert(v.take(i + 1).drop_last() =~= v.take(i));
    assert(v.take(i + 1).last() == v[i]);
}

proof fn lemma_history_run_output(v: Seq<SegV>, merged: Seq<Option<Seq<char>>>, i: int)
    requires
        0 <= i <= v.len(),
    ensures
        resolved_text(history_run(v, merged, i).0) == merge_output(v, merged, i),
        blocks_of(history_run(v, merged, i).0) == kept_blocks(v, merged, i),
        kept_blocks(v, merged, i).len() + history_run(v, merged, i).1 == blocks_before(v, i),
    decreases i,
{
    if i == 0 {
        assert(v.take(0) =~= Seq::<SegV>::empty());
    } else {
        lemma_history_run_output(v, merged, i - 1);
        lemma_blocks_before_step(v, i - 1);
        let (o, c) = history_run(v, merged, i - 1);
        if merged_here(v, merged, i - 1) {
            lemma_push_text_output(o, merged[blocks_before(v, i - 1) as int]->0);
            assert(kept_blocks(v, merged, i) =~= kept_blocks(v, merged, i - 1));
        } else {
            let q = o.push(v[i - 1]);
            assert(q.drop_last() =~= o);
            match v[i - 1] {
                SegV::Block(b) => {
                    assert(kept_blocks(v, merged, i) =~= kept_blocks(v, merged, i - 1).push(b));
                },
                SegV::Text(_) => {
                    assert(kept_blocks(v, merged, i) =~= kept_blocks(v, merged, i - 1));
                },
            }
        }
    }
}

/// History-aware merging, given one merged text (or none) per block: the count is the
/// number of unresolved blocks with a merged text; exactly those blocks go, the others stay
/// unchanged and in order (so the conflict count drops by the count); and the resolved
/// text is each merged block's merged text in its place, every other segment resolving as
/// before.
pub proof fn law_history_merge_output(v: Seq<SegV>, merged: Seq<Option<Seq<char>>>)
    ensures
        resolved_text(history_run(v, merged, v.len() as int).0) == merge_output(v, merged, v.len() as int),
        blocks_of(history_run(v, merged, v.len() as int).0) == kept_blocks(v, merged, v.len() as int),
        blocks_of(history_run(v, merged, v.len() as int).0).len() + history_run(v, merged, v.len() as int).1
            == blocks_of(v).len(),
{
    lemma_history_run_output(v, merged, v.len() as int);
    assert(v.take(v.len() as int) =~= v);
}

} // verus!
