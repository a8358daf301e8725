use vstd::prelude::*;
use crate::conflict::{
    apply_choice_seg, autosolve_count, autosolve_pick, autosolve_seg, autosolves, blocks_of,
    is_marker_line, parse_finish, parse_run, parse_step, pick_applies, pick_count, resolved_count,
    resolved_text, seg_output, spec_parse_conflict_markers, text_seg, BlockV, ConflictChoice,
    ParseState, SegV,
};
use crate::text::{flatten, lemma_flatten_split_lines, split_lines};

verus! {

proof fn lemma_blocks_concat(a: Seq<SegV>, b: Seq<SegV>)
    ensures
        blocks_of(a + b) == blocks_of(a) + blocks_of(b),
    decreases b.len(),
{
    if b.len() == 0 {
        assert(a + b =~= a);
        assert(blocks_of(a) + blocks_of(b) =~= blocks_of(a));
    } else {
        assert((a + b).drop_last() =~= a + b.drop_last());
        assert((a + b).last() == b.last());
        lemma_blocks_concat(a, b.drop_last());
        match b.last() {
            SegV::Block(x) => {
                assert(blocks_of(a) + blocks_of(b.drop_last()).push(x) =~= (blocks_of(a)
                    + blocks_of(b.drop_last())).push(x));
            },
            SegV::Text(_) => {},
        }
    }
}

proof fn lemma_resolved_text_concat(a: Seq<SegV>, b: Seq<SegV>)
    ensures
        resolved_text(a + b) == resolved_text(a) + resolved_text(b),
    decreases b.len(),
{
    if b.len() == 0 {
        assert(a + b =~= a);
        assert(resolved_text(a) + resolved_text(b) =~= resolved_text(a));
    } else {
        assert((a + b).drop_last() =~= a + b.drop_last());
        assert((a + b).last() == b.last());
        lemma_resolved_text_concat(a, b.drop_last());
        assert(resolved_text(a) + (resolved_text(b.drop_last()) + seg_output(b.last())) =~= (
        resolved_text(a) + resolved_text(b.drop_last())) + seg_output(b.last()));
    }
}

proof fn lemma_single_blocks(x: SegV)
    ensures
        blocks_of(seq![x]) == match x {
            SegV::Block(b) => seq![b],
            SegV::Text(_) => Seq::<BlockV>::empty(),
        },
{
    let t = seq![x];
    assert(t.drop_last() =~= Seq::<SegV>::empty());
    assert(t.last() == x);
    assert(blocks_of(t.drop_last()) == Seq::<BlockV>::empty());
    match x {
        SegV::Block(b) => {
            assert(Seq::<BlockV>::empty().push(b) =~= seq![b]);
        },
        SegV::Text(_) => {},
    }
}

proof fn lemma_step_blocks_fresh(st: ParseState, l: Seq<char>)
    ensures
        forall|k: int|
            0 <= k < blocks_of(parse_step(st, l).0).len() ==> !(#[trigger] blocks_of(
                parse_step(st, l).0,
            )[k]).resolved && blocks_of(parse_step(st, l).0)[k].choice == ConflictChoice::Ours,
{
    let o = parse_step(st, l).0;
    if o.len() == 0 {
        assert(blocks_of(o) =~= Seq::<BlockV>::empty());
    } else {
        assert(o =~= seq![o[0]]);
        lemma_single_blocks(o[0]);
    }
}

/// Every block that `parse_run` produces is unresolved with `Ours` chosen.
proof fn lemma_parse_run_blocks_fresh(ls: Seq<Seq<char>>, st: ParseState)
    ensures
        forall|k: int|
            0 <= k < blocks_of(parse_run(ls, st)).len() ==> !(#[trigger] blocks_of(
                parse_run(ls, st),
            )[k]).resolved && blocks_of(parse_run(ls, st))[k].choice == ConflictChoice::Ours,
    decreases ls.len(),
{
    if ls.len() == 0 {
        match st {
            ParseState::Normal(buf) => {
                if buf.len() > 0 {
                    lemma_single_blocks(SegV::Text(buf));
                }
            },
            _ => {
                let t = parse_finish(st);
                assert(t =~= seq![t[0]]);
                lemma_single_blocks(t[0]);
            },
        }
    } else {
        let (o, next) = parse_step(st, ls[0]);
        lemma_parse_run_blocks_fresh(ls.drop_first(), next);
        let rest = parse_run(ls.drop_first(), next);
        lemma_blocks_concat(o, rest);
        lemma_step_blocks_fresh(st, ls[0]);
        assert(parse_run(ls, st) == o + rest);
        let all = blocks_of(o) + blocks_of(rest);
        assert forall|k: int| 0 <= k < all.len() implies !(#[trigger] all[k]).resolved
            && all[k].choice == ConflictChoice::Ours by {
            if k < blocks_of(o).len() {
                assert(all[k] == blocks_of(o)[k]);
            } else {
                assert(all[k] == blocks_of(rest)[k - blocks_of(o).len()]);
            }
        }
    }
}

/// A parsed text starts with every conflict unresolved and `Ours` chosen, so no conflict
/// counts as resolved.
pub proof fn law_parsed_conflicts_start_unresolved(text: Seq<char>)
    ensures
        forall|k: int|
            0 <= k < blocks_of(spec_parse_conflict_markers(text)).len() ==> !(#[trigger] blocks_of(
                spec_parse_conflict_markers(text),
            )[k]).resolved && blocks_of(spec_parse_conflict_markers(text))[k].choice
                == ConflictChoice::Ours,
        resolved_count(blocks_of(spec_parse_conflict_markers(text))) == 0,
{
    lemma_parse_run_blocks_fresh(split_lines(text), ParseState::Normal(Seq::empty()));
    lemma_resolved_count_zero(blocks_of(spec_parse_conflict_markers(text)));
}

proof fn lemma_resolved_count_zero(bs: Seq<BlockV>)
    requires
        forall|k: int| 0 <= k < bs.len() ==> !(#[trigger] bs[k]).resolved,
    ensures
        resolved_count(bs) == 0,
    decreases bs.len(),
{
    if bs.len() > 0 {
        lemma_resolved_count_zero(bs.drop_last());
    }
}

/// Reading lines that hold no `<<<<<<<` line keeps one text segment growing.
proof fn lemma_parse_plain_lines(ls: Seq<Seq<char>>, buf: Seq<char>)
    requires
        forall|k: int| 0 <= k < ls.len() ==> !is_marker_line(#[trigger] ls[k], '<'),
    ensures
        parse_run(ls, ParseState::Normal(buf)) == text_seg(buf + flatten(ls)),
    decreases ls.len(),
{
    if ls.len() == 0 {
        assert(buf + flatten(ls) =~= buf);
    } else {
        let rest = ls.drop_first();
        assert forall|k: int| 0 <= k < rest.len() implies !is_marker_line(#[trigger] rest[k], '<') by {
            assert(rest[k] == ls[k + 1]);
        }
        lemma_parse_plain_lines(rest, buf + ls[0]);
        lemma_flatten_first(ls);
        assert(buf + ls[0] + flatten(rest) =~= buf + flatten(ls));
    }
}

proof fn lemma_flatten_first(ls: Seq<Seq<char>>)
    requires
        ls.len() > 0,
    ensures
        flatten(ls) == ls[0] + flatten(ls.drop_first()),
    decreases ls.len(),
{
    if ls.len() == 1 {
        assert(ls.drop_first() =~= Seq::<Seq<char>>::empty());
        assert(ls.drop_last() =~= Seq::<Seq<char>>::empty());
        assert(flatten(ls) == flatten(ls.drop_last()) + ls.last());
        assert(ls[0] + flatten(ls.drop_first()) =~= ls[0]);
        assert(flatten(ls.drop_last()) + ls.last() =~= ls[0]);
    } else {
        lemma_flatten_first(ls.drop_last());
        assert(ls.drop_last().drop_first() =~= ls.drop_first().drop_last());
        assert(ls.drop_first().last() == ls.last());
        assert(flatten(ls) == flatten(ls.drop_last()) + ls.last());
        assert(flatten(ls.drop_first()) == flatten(ls.drop_first().drop_last()) + ls.drop_first().last());
        assert(ls[0] + (flatten(ls.drop_last().drop_first()) + ls.last()) =~= (ls[0] + flatten(
            ls.drop_last().drop_first(),
        )) + ls.last());
    }
}

/// A text in which no line starts a conflict parses into plain text only, and generating
/// the resolved text gives the text back unchanged.
pub proof fn law_marker_free_text_round_trips(text: Seq<char>)
    requires
        forall|k: int|
            0 <= k < split_lines(text).len() ==> !is_marker_line(#[trigger] split_lines(text)[k], '<'),
    ensures
        blocks_of(spec_parse_conflict_markers(text)).len() == 0,
        resolved_text(spec_parse_conflict_markers(text)) == text,
{
    lemma_parse_plain_lines(split_lines(text), Seq::empty());
    lemma_flatten_split_lines(text);
    assert(Seq::<char>::empty() + flatten(split_lines(text)) =~= text);
    let v = text_seg(text);
    if text.len() > 0 {
        lemma_single_blocks(SegV::Text(text));
        assert(v.drop_last() =~= Seq::<SegV>::empty());
        assert(resolved_text(v) == resolved_text(v.drop_last()) + seg_output(v.last()));
        assert(resolved_text(v) =~= text);
    } else {
        assert(text =~= Seq::<char>::empty());
    }
}

/// The text read so far in state `st` that no segment holds yet, as written.
pub open spec fn pending_text(st: ParseState) -> Seq<char> {
    match st {
        ParseState::Normal(buf) => buf,
        ParseState::Ours(start, ours) => start + ours,
        ParseState::Base(start, ours, bm, base) => start + ours + bm + base,
        ParseState::Theirs(start, ours, _base, mid, theirs) => start + ours + mid + theirs,
    }
}

proof fn lemma_one_text(t: Seq<char>)
    ensures
        blocks_of(seq![SegV::Text(t)]).len() == 0,
        resolved_text(seq![SegV::Text(t)]) == t,
{
    let v = seq![SegV::Text(t)];
    lemma_single_blocks(SegV::Text(t));
    assert(v.drop_last() =~= Seq::<SegV>::empty());
    assert(resolved_text(v) == resolved_text(v.drop_last()) + seg_output(v.last()));
    assert(resolved_text(v) =~= t);
}

proof fn lemma_text_seg(t: Seq<char>)
    ensures
        blocks_of(text_seg(t)).len() == 0,
        resolved_text(text_seg(t)) == t,
{
    if t.len() > 0 {
        lemma_one_text(t);
    } else {
        assert(text_seg(t) =~= Seq::<SegV>::empty());
        assert(t =~= Seq::<char>::empty());
    }
}

/// Reading lines among which none closes a block gives no block, and every line read
/// comes back as written, after the pending text of the state read from.
proof fn lemma_parse_unclosed(ls: Seq<Seq<char>>, st: ParseState)
    requires
        forall|k: int| 0 <= k < ls.len() ==> !is_marker_line(#[trigger] ls[k], '>'),
    ensures
        blocks_of(parse_run(ls, st)).len() == 0,
        resolved_text(parse_run(ls, st)) == pending_text(st) + flatten(ls),
    decreases ls.len(),
{
    if ls.len() == 0 {
        assert(pending_text(st) + flatten(ls) =~= pending_text(st));
        match st {
            ParseState::Normal(buf) => lemma_text_seg(buf),
            _ => lemma_one_text(pending_text(st)),
        }
    } else {
        let l = ls[0];
        let rest = ls.drop_first();
        let (o, next) = parse_step(st, l);
        assert forall|k: int| 0 <= k < rest.len() implies !is_marker_line(#[trigger] rest[k], '>') by {
            assert(rest[k] == ls[k + 1]);
        }
        assert(!is_marker_line(ls[0], '>'));
        lemma_parse_unclosed(rest, next);
        lemma_blocks_concat(o, parse_run(rest, next));
        lemma_resolved_text_concat(o, parse_run(rest, next));
        lemma_flatten_first(ls);
        match st {
            ParseState::Normal(buf) => {
                if is_marker_line(l, '<') {
                    lemma_text_seg(buf);
                } else {
                    assert(o =~= Seq::<SegV>::empty());
                    assert(blocks_of(o) =~= Seq::<BlockV>::empty());
                }
            },
            _ => {
                assert(o =~= Seq::<SegV>::empty());
                assert(blocks_of(o) =~= Seq::<BlockV>::empty());
            },
        }
        assert(resolved_text(o) + pending_text(next) =~= pending_text(st) + l);
        assert(resolved_text(o) + (pending_text(next) + flatten(rest)) =~= pending_text(st) + (l
            + flatten(rest)));
    }
}

/// A text in which no line closes a conflict block parses into plain text only: a block
/// left open is kept as written, so generating the resolved text gives the text back.
pub proof fn law_unclosed_text_round_trips(text: Seq<char>)
    requires
        forall|k: int|
            0 <= k < split_lines(text).len() ==> !is_marker_line(#[trigger] split_lines(text)[k], '>'),
    ensures
        blocks_of(spec_parse_conflict_markers(text)).len() == 0,
        resolved_text(spec_parse_conflict_markers(text)) == text,
{
    lemma_parse_unclosed(split_lines(text), ParseState::Normal(Seq::empty()));
    lemma_flatten_split_lines(text);
    assert(Seq::<char>::empty() + flatten(split_lines(text)) =~= text);
}

/// The block that a bulk pick of `c` leaves in place of `b`.
pub open spec fn picked_block(b: BlockV, c: ConflictChoice) -> BlockV {
    if pick_applies(b, c) {
        BlockV { choice: c, resolved: true, ..b }
    } else {
        b
    }
}

proof fn lemma_blocks_after_pick(v: Seq<SegV>, c: ConflictChoice)
    ensures
        blocks_of(v.map_values(|s: SegV| apply_choice_seg(s, c))) == blocks_of(v).map_values(
            |b: BlockV| picked_block(b, c),
        ),
    decreases v.len(),
{
    let f = |s: SegV| apply_choice_seg(s, c);
    let g = |b: BlockV| picked_block(b, c);
    if v.len() == 0 {
        assert(v.map_values(f) =~= Seq::<SegV>::empty());
        assert(blocks_of(v).map_values(g) =~= Seq::<BlockV>::empty());
    } else {
        lemma_blocks_after_pick(v.drop_last(), c);
        assert(v.map_values(f).drop_last() =~= v.drop_last().map_values(f));
        assert(v.map_values(f).last() == f(v.last()));
        match v.last() {
            SegV::Block(b) => {
                assert(blocks_of(v.drop_last()).push(b).map_values(g) =~= blocks_of(
                    v.drop_last(),
                ).map_values(g).push(g(b)));
            },
            SegV::Text(_) => {},
        }
    }
}

proof fn lemma_resolved_after_pick(bs: Seq<BlockV>, c: ConflictChoice)
    ensures
        resolved_count(bs.map_values(|b: BlockV| picked_block(b, c))) == resolved_count(bs)
            + pick_count(bs, c),
    decreases bs.len(),
{
    let g = |b: BlockV| picked_block(b, c);
    if bs.len() > 0 {
        lemma_resolved_after_pick(bs.drop_last(), c);
        assert(bs.map_values(g).drop_last() =~= bs.drop_last().map_values(g));
    }
}

/// A bulk pick keeps the conflicts where they are, resolves exactly the unresolved ones it
/// applies to (all of them unless it picks `Base`, which passes over blocks without an
/// ancestor section), never touches a resolved conflict, and raises the resolved count by
/// the number of blocks it updates.
pub proof fn law_bulk_pick_resolves(v: Seq<SegV>, c: ConflictChoice)
    ensures
        ({
            let before = blocks_of(v);
            let after = blocks_of(v.map_values(|s: SegV| apply_choice_seg(s, c)));
            &&& after.len() == before.len()
            &&& forall|k: int|
                0 <= k < before.len() ==> (#[trigger] after[k]).resolved == (before[k].resolved
                    || pick_applies(before[k], c))
            &&& forall|k: int|
                0 <= k < before.len() && before[k].resolved ==> #[trigger] after[k] == before[k]
            &&& c != ConflictChoice::Base ==> forall|k: int|
                0 <= k < after.len() ==> (#[trigger] after[k]).resolved
            &&& resolved_count(after) == resolved_count(before) + pick_count(before, c)
        }),
{
    lemma_blocks_after_pick(v, c);
    lemma_resolved_after_pick(blocks_of(v), c);
}

/// The block that the safe rules leave in place of `b`.
pub open spec fn autosolved_block(b: BlockV, ws: bool) -> BlockV {
    if autosolves(b, ws) {
        BlockV { choice: autosolve_pick(b, ws)->0, resolved: true, ..b }
    } else {
        b
    }
}

proof fn lemma_blocks_after_autosolve(v: Seq<SegV>, ws: bool)
    ensures
        blocks_of(v.map_values(|s: SegV| autosolve_seg(s, ws))) == blocks_of(v).map_values(
            |b: BlockV| autosolved_block(b, ws),
        ),
    decreases v.len(),
{
    let f = |s: SegV| autosolve_seg(s, ws);
    let g = |b: BlockV| autosolved_block(b, ws);
    if v.len() == 0 {
        assert(v.map_values(f) =~= Seq::<SegV>::empty());
        assert(blocks_of(v).map_values(g) =~= Seq::<BlockV>::empty());
    } else {
        lemma_blocks_after_autosolve(v.drop_last(), ws);
        assert(v.map_values(f).drop_last() =~= v.drop_last().map_values(f));
        assert(v.map_values(f).last() == f(v.last()));
        match v.last() {
            SegV::Block(b) => {
                assert(blocks_of(v.drop_last()).push(b).map_values(g) =~= blocks_of(
                    v.drop_last(),
                ).map_values(g).push(g(b)));
            },
            SegV::Text(_) => {},
        }
    }
}

proof fn lemma_autosolve_count_zero(bs: Seq<BlockV>, ws: bool)
    requires
        forall|k: int| 0 <= k < bs.len() ==> !autosolves(#[trigger] bs[k], ws),
    ensures
        autosolve_count(bs, ws) == 0,
    decreases bs.len(),
{
    if bs.len() > 0 {
        lemma_autosolve_count_zero(bs.drop_last(), ws);
    }
}

/// The safe auto-resolve rules leave resolved conflicts alone and are idempotent: a second
/// run changes nothing and resolves no further block.
pub proof fn law_autosolve_idempotent(v: Seq<SegV>, ws: bool)
    ensures
        ({
            let once = v.map_values(|s: SegV| autosolve_seg(s, ws));
            &&& once.map_values(|s: SegV| autosolve_seg(s, ws)) == once
            &&& autosolve_count(blocks_of(once), ws) == 0
            &&& blocks_of(once).len() == blocks_of(v).len()
            &&& forall|k: int|
                0 <= k < blocks_of(v).len() && blocks_of(v)[k].resolved ==> #[trigger] blocks_of(
                    once,
                )[k] == blocks_of(v)[k]
        }),
{
    let f = |s: SegV| autosolve_seg(s, ws);
    let once = v.map_values(f);
    assert forall|k: int| 0 <= k < once.len() implies #[trigger] f(once[k]) == once[k] by {
        match v[k] {
            SegV::Block(b) => {},
            SegV::Text(_) => {},
        }
    }
    assert(once.map_values(f) =~= once);
    lemma_blocks_after_autosolve(v, ws);
    let bs = blocks_of(once);
    assert forall|k: int| 0 <= k < bs.len() implies !autosolves(#[trigger] bs[k], ws) by {
        assert(bs[k] == autosolved_block(blocks_of(v)[k], ws));
    }
    lemma_autosolve_count_zero(bs, ws);
}


proof fn lemma_pick_count_zero(bs: Seq<BlockV>, c: ConflictChoice)
    requires
        forall|k: int| 0 <= k < bs.len() ==> !pick_applies(#[trigger] bs[k], c),
    ensures
        pick_count(bs, c) == 0,
    decreases bs.len(),
{
    if bs.len() > 0 {
        lemma_pick_count_zero(bs.drop_last(), c);
    }
}

/// A second bulk pick of the same side right after the first updates no block and leaves
/// every segment as the first one left it.
pub proof fn law_bulk_pick_idempotent(v: Seq<SegV>, c: ConflictChoice)
    ensures
        ({
            let once = v.map_values(|s: SegV| apply_choice_seg(s, c));
            &&& once.map_values(|s: SegV| apply_choice_seg(s, c)) == once
            &&& pick_count(blocks_of(once), c) == 0
        }),
{
    let f = |s: SegV| apply_choice_seg(s, c);
    let once = v.map_values(f);
    assert forall|k: int| 0 <= k < once.len() implies #[trigger] f(once[k]) == once[k] by {
        match v[k] {
            SegV::Block(b) => {},
            SegV::Text(_) => {},
        }
    }
    assert(once.map_values(f) =~= once);
    lemma_blocks_after_pick(v, c);
    let bs = blocks_of(once);
    assert forall|k: int| 0 <= k < bs.len() implies !pick_applies(#[trigger] bs[k], c) by {
        assert(bs[k] == picked_block(blocks_of(v)[k], c));
    }
    lemma_pick_count_zero(bs, c);
}

proof fn lemma_resolved_after_autosolve(bs: Seq<BlockV>, ws: bool)
    ensures
        resolved_count(bs.map_values(|b: BlockV| autosolved_block(b, ws))) == resolved_count(bs)
            + autosolve_count(bs, ws),
    decreases bs.len(),
{
    let g = |b: BlockV| autosolved_block(b, ws);
    if bs.len() > 0 {
        lemma_resolved_after_autosolve(bs.drop_last(), ws);
        assert(bs.map_values(g).drop_last() =~= bs.drop_last().map_values(g));
    }
}

/// The safe auto-resolve rules keep the conflicts where they are and raise the resolved
/// count by exactly the number of blocks they report resolving.
pub proof fn law_autosolve_counts(v: Seq<SegV>, ws: bool)
    ensures
        ({
            let once = v.map_values(|s: SegV| autosolve_seg(s, ws));
            &&& blocks_of(once).len() == blocks_of(v).len()
            &&& resolved_count(blocks_of(once)) == resolved_count(blocks_of(v)) + autosolve_count(
                blocks_of(v),
                ws,
            )
        }),
{
    lemma_blocks_after_autosolve(v, ws);
    lemma_resolved_after_autosolve(blocks_of(v), ws);
}

proof fn lemma_autosolve_count_mono(bs: Seq<BlockV>)
    ensures
        autosolve_count(bs, false) <= autosolve_count(bs, true),
    decreases bs.len(),
{
    if bs.len() > 0 {
        lemma_autosolve_count_mono(bs.drop_last());
    }
}

/// Turning whitespace normalization on only adds to what the safe rules do: every block
/// resolved without it is resolved the same way with it, every other block is resolved as
/// `Ours` exactly when it is unresolved and its sides differ in whitespace only, and so at
/// least as many blocks are resolved.
pub proof fn law_whitespace_option_extends(v: Seq<SegV>)
    ensures
        ({
            let plain = blocks_of(v.map_values(|s: SegV| autosolve_seg(s, false)));
            let norm = blocks_of(v.map_values(|s: SegV| autosolve_seg(s, true)));
            let bs = blocks_of(v);
            &&& plain.len() == bs.len()
            &&& norm.len() == bs.len()
            &&& forall|k: int|
                0 <= k < bs.len() && autosolves(bs[k], false) ==> #[trigger] norm[k] == plain[k]
            &&& forall|k: int|
                0 <= k < bs.len() && !autosolves(bs[k], false) ==> #[trigger] norm[k] == (
                if !bs[k].resolved && crate::conflict::ws_only_diff(bs[k].ours, bs[k].theirs) {
                    BlockV { choice: ConflictChoice::Ours, resolved: true, ..bs[k] }
                } else {
                    bs[k]
                })
            &&& autosolve_count(bs, false) <= autosolve_count(bs, true)
        }),
{
    lemma_blocks_after_autosolve(v, false);
    lemma_blocks_after_autosolve(v, true);
    lemma_autosolve_count_mono(blocks_of(v));
}

} // verus!
