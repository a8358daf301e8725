use vstd::prelude::*;
use crate::text::{chars_eq, strip_whitespace, strip_ws, push_str, chars_to_string, extend_chars, lines_view, split_lines, split_lines_exec, str_to_chars};

verus! {

/// Which side of a conflict block ends up in the resolved text.
#[derive(Clone, Copy, Debug, PartialEq, Eq, Structural)]
pub enum ConflictChoice {
    Base,
    Ours,
    Theirs,
    Both,
}

/// How the two sides of a conflict are laid out in the two-way view.
#[derive(Clone, Copy, Debug, PartialEq, Eq, Structural)]
pub enum ConflictDiffMode {
    Split,
    Inline,
}

/// The resolver's view: three panes, or a two-way diff.
#[derive(Clone, Copy, Debug, PartialEq, Eq, Structural)]
pub enum ConflictResolverViewMode {
    ThreeWay,
    TwoWayDiff,
}

/// A side a line can be picked from.
#[derive(Clone, Copy, Debug, PartialEq, Eq, Structural, Hash, PartialOrd, Ord)]
pub enum ConflictPickSide {
    Ours,
    Theirs,
}

/// The rule set an autosolve run used.
#[derive(Clone, Copy, Debug, PartialEq, Eq, Structural)]
pub enum AutosolveTraceMode {
    Safe,
    Regex,
    History,
}

/// One conflict region between `<<<<<<<` and `>>>>>>>` markers.
#[derive(Clone, Debug, PartialEq, Eq)]
pub struct ConflictBlock {
    pub base: Option<String>,
    pub ours: String,
    pub theirs: String,
    pub choice: ConflictChoice,
    /// Whether this block has been explicitly resolved (by user pick or auto-resolve).
    /// Blocks start unresolved; becomes `true` when the user picks a side or auto-resolve runs.
    pub resolved: bool,
}

/// A piece of a conflicted file: plain text, or a conflict block.
#[derive(Clone, Debug, PartialEq, Eq)]
pub enum ConflictSegment {
    Text(String),
    Block(ConflictBlock),
}

/// The mathematical content of a [`ConflictBlock`].
pub struct BlockV {
    pub base: Option<Seq<char>>,
    pub ours: Seq<char>,
    pub theirs: Seq<char>,
    pub choice: ConflictChoice,
    pub resolved: bool,
}

/// The mathematical content of a [`ConflictSegment`].
pub enum SegV {
    Text(Seq<char>),
    Block(BlockV),
}

pub open spec fn opt_str_view(o: Option<String>) -> Option<Seq<char>> {
    match o {
        Some(s) => Some(s@),
        None => None,
    }
}

impl View for ConflictBlock {
    type V = BlockV;

    open spec fn view(&self) -> BlockV {
        BlockV {
            base: opt_str_view(self.base),
            ours: self.ours@,
            theirs: self.theirs@,
            choice: self.choice,
            resolved: self.resolved,
        }
    }
}

impl View for ConflictSegment {
    type V = SegV;

    open spec fn view(&self) -> SegV {
        match self {
            ConflictSegment::Text(t) => SegV::Text(t@),
            ConflictSegment::Block(b) => SegV::Block(b@),
        }
    }
}

pub open spec fn segs_view(s: Seq<ConflictSegment>) -> Seq<SegV> {
    s.map_values(|x: ConflictSegment| x@)
}

pub proof fn lemma_segs_view_push(s: Seq<ConflictSegment>, x: ConflictSegment)
    ensures
        segs_view(s.push(x)) == segs_view(s).push(x@),
{
    assert(segs_view(s.push(x)) =~= segs_view(s).push(x@));
}

fn push_seg(out: &mut Vec<ConflictSegment>, seg: ConflictSegment)
    ensures
        segs_view(final(out)@) == segs_view(old(out)@).push(seg@),
        final(out)@ == old(out)@.push(seg),
{
    proof {
        lemma_segs_view_push(out@, seg);
    }
    out.push(seg);
}

// ---------------------------------------------------------------------------
// Parsing conflict markers
// ---------------------------------------------------------------------------

/// A line that begins with seven copies of `c` (a conflict marker line).
pub open spec fn is_marker_line(l: Seq<char>, c: char) -> bool {
    l.len() >= 7 && forall|k: int| 0 <= k < 7 ==> l[k] == c
}

/// Where the line-by-line reading of a conflicted text stands.
pub enum ParseState {
    /// Outside any block, with the text read since the last block.
    Normal(Seq<char>),
    /// Inside our side: the start marker line and our lines so far.
    Ours(Seq<char>, Seq<char>),
    /// Inside the ancestor section: start marker, our side, the `|||||||` line, base lines so far.
    Base(Seq<char>, Seq<char>, Seq<char>, Seq<char>),
    /// Inside their side: start marker, our side, the ancestor section if any, the text
    /// as written from the end of our side through the `=======` line, their lines so far.
    Theirs(Seq<char>, Seq<char>, Option<Seq<char>>, Seq<char>, Seq<char>),
}

/// A text segment for `buf`, or nothing when `buf` is empty.
pub open spec fn text_seg(buf: Seq<char>) -> Seq<SegV> {
    if buf.len() > 0 {
        seq![SegV::Text(buf)]
    } else {
        Seq::empty()
    }
}

/// Reading one line: the segments it completes and the next state.
pub open spec fn parse_step(st: ParseState, l: Seq<char>) -> (Seq<SegV>, ParseState) {
    match st {
        ParseState::Normal(buf) => if is_marker_line(l, '<') {
            (text_seg(buf), ParseState::Ours(l, Seq::empty()))
        } else {
            (Seq::empty(), ParseState::Normal(buf + l))
        },
        ParseState::Ours(start, ours) => if is_marker_line(l, '=') {
            (Seq::empty(), ParseState::Theirs(start, ours, None, l, Seq::empty()))
        } else if is_marker_line(l, '|') {
            (Seq::empty(), ParseState::Base(start, ours, l, Seq::empty()))
        } else {
            (Seq::empty(), ParseState::Ours(start, ours + l))
        },
        ParseState::Base(start, ours, bm, base) => if is_marker_line(l, '=') {
            (Seq::empty(), ParseState::Theirs(start, ours, Some(base), bm + base + l, Seq::empty()))
        } else {
            (Seq::empty(), ParseState::Base(start, ours, bm, base + l))
        },
        ParseState::Theirs(start, ours, base, mid, theirs) => if is_marker_line(l, '>') {
            (
                seq![
                    SegV::Block(
                        BlockV {
                            base,
                            ours,
                            theirs,
                            choice: ConflictChoice::Ours,
                            resolved: false,
                        },
                    ),
                ],
                ParseState::Normal(Seq::empty()),
            )
        } else {
            (Seq::empty(), ParseState::Theirs(start, ours, base, mid, theirs + l))
        },
    }
}

/// The segments left when the text ends in state `st`: an unfinished block
/// is kept as plain text, exactly as written.
pub open spec fn parse_finish(st: ParseState) -> Seq<SegV> {
    match st {
        ParseState::Normal(buf) => text_seg(buf),
        ParseState::Ours(start, ours) => seq![SegV::Text(start + ours)],
        ParseState::Base(start, ours, bm, base) => seq![SegV::Text(start + ours + bm + base)],
        ParseState::Theirs(start, ours, _base, mid, theirs) => seq![
            SegV::Text(start + ours + mid + theirs),
        ],
    }
}

/// The segments read from `ls` starting in state `st`.
pub open spec fn parse_run(ls: Seq<Seq<char>>, st: ParseState) -> Seq<SegV>
    decreases ls.len(),
{
    if ls.len() == 0 {
        parse_finish(st)
    } else {
        let (o, next) = parse_step(st, ls[0]);
        o + parse_run(ls.drop_first(), next)
    }
}

/// The segments of a conflicted text.
pub open spec fn spec_parse_conflict_markers(text: Seq<char>) -> Seq<SegV> {
    parse_run(split_lines(text), ParseState::Normal(Seq::empty()))
}

fn line_has_marker(l: &Vec<char>, c: char) -> (b: bool)
    ensures
        b == is_marker_line(l@, c),
{
    if l.len() < 7 {
        return false;
    }
    let mut k: usize = 0;
    while k < 7
        invariant
            k <= 7,
            l@.len() >= 7,
            forall|j: int| 0 <= j < k ==> l@[j] == c,
        decreases 7 - k,
    {
        if l[k] != c {
            return false;
        }
        k = k + 1;
    }
    true
}

spec fn exec_state(
    mode: u8,
    buf: Seq<char>,
    start: Seq<char>,
    ours: Seq<char>,
    bm: Seq<char>,
    base: Seq<char>,
    has_base: bool,
    mid: Seq<char>,
    theirs: Seq<char>,
) -> ParseState {
    if mode == 0 {
        ParseState::Normal(buf)
    } else if mode == 1 {
        ParseState::Ours(start, ours)
    } else if mode == 2 {
        ParseState::Base(start, ours, bm, base)
    } else {
        ParseState::Theirs(start, ours, if has_base { Some(base) } else { None }, mid, theirs)
    }
}

/// Split a text into plain-text segments and conflict blocks.
///
/// A block runs from a `<<<<<<<` line over our side, an optional `|||||||`
/// ancestor section and a `=======` line to their side and a `>>>>>>>` line.
/// Blocks come out unresolved, with `Ours` chosen. A block whose markers are
/// not complete is kept as plain text.
pub fn parse_conflict_markers(text: &str) -> (out: Vec<ConflictSegment>)
    ensures
        segs_view(out@) == spec_parse_conflict_markers(text@),
{
    let chars = str_to_chars(text);
    let lines = split_lines_exec(&chars);
    let ghost ls = lines_view(lines@);
    let mut out: Vec<ConflictSegment> = Vec::new();
    let mut mode: u8 = 0;
    let mut buf: Vec<char> = Vec::new();
    let mut start: Vec<char> = Vec::new();
    let mut ours: Vec<char> = Vec::new();
    let mut bm: Vec<char> = Vec::new();
    let mut base: Vec<char> = Vec::new();
    let mut has_base = false;
    let mut mid: Vec<char> = Vec::new();
    let mut theirs: Vec<char> = Vec::new();
    let mut i: usize = 0;
    assert(ls.skip(0) =~= ls);
    while i < lines.len()
        invariant
            i <= lines@.len(),
            ls == lines_view(lines@),
            ls == split_lines(text@),
            mode <= 3,
            segs_view(out@) + parse_run(
                ls.skip(i as int),
                exec_state(mode, buf@, start@, ours@, bm@, base@, has_base, mid@, theirs@),
            ) == parse_run(ls, ParseState::Normal(Seq::empty())),
        decreases lines@.len() - i,
    {
        let ghost st = exec_state(mode, buf@, start@, ours@, bm@, base@, has_base, mid@, theirs@);
        let ghost out0 = segs_view(out@);
        let line = &lines[i];
        assert(line@ == ls[i as int]);
        assert(ls.skip(i as int)[0] == ls[i as int]);
        assert(ls.skip(i as int).drop_first() =~= ls.skip(i as int + 1));
        let ghost step = parse_step(st, line@);
        if mode == 0 {
            if line_has_marker(line, '<') {
                if buf.len() > 0 {
                    let seg = ConflictSegment::Text(chars_to_string(&buf));
                    push_seg(&mut out, seg);
                }
                assert(segs_view(out@) =~= out0 + step.0);
                buf = Vec::new();
                start = Vec::new();
                extend_chars(&mut start, line);
                ours = Vec::new();
                mode = 1;
            } else {
                extend_chars(&mut buf, line);
                assert(segs_view(out@) =~= out0 + step.0);
            }
        } else if mode == 1 {
            if line_has_marker(line, '=') {
                has_base = false;
                base = Vec::new();
                mid = Vec::new();
                extend_chars(&mut mid, line);
                theirs = Vec::new();
                mode = 3;
            } else if line_has_marker(line, '|') {
                bm = Vec::new();
                extend_chars(&mut bm, line);
                base = Vec::new();
                mode = 2;
            } else {
                extend_chars(&mut ours, line);
            }
            assert(segs_view(out@) =~= out0 + step.0);
        } else if mode == 2 {
            if line_has_marker(line, '=') {
                has_base = true;
                mid = Vec::new();
                extend_chars(&mut mid, &bm);
                extend_chars(&mut mid, &base);
                extend_chars(&mut mid, line);
                theirs = Vec::new();
                mode = 3;
            } else {
                extend_chars(&mut base, line);
            }
            assert(segs_view(out@) =~= out0 + step.0);
        } else {
            if line_has_marker(line, '>') {
                let block = ConflictBlock {
                    base: if has_base { Some(chars_to_string(&base)) } else { None },
                    ours: chars_to_string(&ours),
                    theirs: chars_to_string(&theirs),
                    choice: ConflictChoice::Ours,
                    resolved: false,
                };
                push_seg(&mut out, ConflictSegment::Block(block));
                assert(segs_view(out@) =~= out0 + step.0);
                buf = Vec::new();
                mode = 0;
            } else {
                extend_chars(&mut theirs, line);
                assert(segs_view(out@) =~= out0 + step.0);
            }
        }
        assert(exec_state(mode, buf@, start@, ours@, bm@, base@, has_base, mid@, theirs@) == step.1);
        assert(parse_run(ls.skip(i as int), st) == step.0 + parse_run(ls.skip(i as int + 1), step.1));
        assert(segs_view(out@) + parse_run(ls.skip(i as int + 1), step.1) =~= out0 + parse_run(
            ls.skip(i as int),
            st,
        ));
        i = i + 1;
    }
    let ghost st = exec_state(mode, buf@, start@, ours@, bm@, base@, has_base, mid@, theirs@);
    let ghost out0 = segs_view(out@);
    assert(ls.skip(i as int).len() == 0);
    if mode == 0 {
        if buf.len() > 0 {
            push_seg(&mut out, ConflictSegment::Text(chars_to_string(&buf)));
        }
    } else {
        let mut rest: Vec<char> = Vec::new();
        extend_chars(&mut rest, &start);
        extend_chars(&mut rest, &ours);
        if mode == 2 {
            extend_chars(&mut rest, &bm);
            extend_chars(&mut rest, &base);
        } else if mode == 3 {
            extend_chars(&mut rest, &mid);
            extend_chars(&mut rest, &theirs);
        }
        assert(mode == 3 ==> rest@ =~= start@ + ours@ + mid@ + theirs@);
        push_seg(&mut out, ConflictSegment::Text(chars_to_string(&rest)));
    }
    assert(segs_view(out@) =~= out0 + parse_finish(st));
    out
}

} // verus!

verus! {

// ---------------------------------------------------------------------------
// Blocks, counts and navigation
// ---------------------------------------------------------------------------

/// The conflict blocks among the segments, in order; the position of a block
/// in this sequence is its conflict index.
pub open spec fn blocks_of(v: Seq<SegV>) -> Seq<BlockV>
    decreases v.len(),
{
    if v.len() == 0 {
        Seq::empty()
    } else {
        match v.last() {
            SegV::Block(b) => blocks_of(v.drop_last()).push(b),
            SegV::Text(_) => blocks_of(v.drop_last()),
        }
    }
}

/// How many of the blocks are resolved.
pub open spec fn resolved_count(bs: Seq<BlockV>) -> nat
    decreases bs.len(),
{
    if bs.len() == 0 {
        0
    } else {
        resolved_count(bs.drop_last()) + if bs.last().resolved { 1nat } else { 0nat }
    }
}

/// Block `k` exists and is not resolved.
pub open spec fn is_unresolved(bs: Seq<BlockV>, k: int) -> bool {
    0 <= k < bs.len() && !bs[k].resolved
}

pub proof fn lemma_blocks_len(v: Seq<SegV>)
    ensures
        blocks_of(v).len() <= v.len(),
    decreases v.len(),
{
    if v.len() > 0 {
        lemma_blocks_len(v.drop_last());
    }
}

pub proof fn lemma_resolved_count_le(bs: Seq<BlockV>)
    ensures
        resolved_count(bs) <= bs.len(),
    decreases bs.len(),
{
    if bs.len() > 0 {
        lemma_resolved_count_le(bs.drop_last());
    }
}

/// Stepping from `i` to `i + 1` segments.
pub proof fn lemma_take_step(s: Seq<ConflictSegment>, i: int)
    requires
        0 <= i < s.len(),
    ensures
        segs_view(s).take(i + 1).drop_last() == segs_view(s).take(i),
        segs_view(s).take(i + 1).last() == s[i]@,
        blocks_of(segs_view(s).take(i + 1)) == match s[i]@ {
            SegV::Block(b) => blocks_of(segs_view(s).take(i)).push(b),
            SegV::Text(_) => blocks_of(segs_view(s).take(i)),
        },
{
    assert(segs_view(s).take(i + 1).drop_last() =~= segs_view(s).take(i));
}

pub proof fn lemma_take_all(s: Seq<ConflictSegment>)
    ensures
        segs_view(s).take(s.len() as int) == segs_view(s),
{
    assert(segs_view(s).take(s.len() as int) =~= segs_view(s));
}

/// The blocks of a prefix of the segments are a prefix of all the blocks.
pub proof fn lemma_blocks_prefix(v: Seq<SegV>, i: int)
    requires
        0 <= i <= v.len(),
    ensures
        blocks_of(v.take(i)).len() <= blocks_of(v).len(),
        blocks_of(v.take(i)) == blocks_of(v).take(blocks_of(v.take(i)).len() as int),
    decreases v.len(),
{
    if i == v.len() {
        assert(v.take(i) =~= v);
        assert(blocks_of(v).take(blocks_of(v).len() as int) =~= blocks_of(v));
    } else {
        let p = v.drop_last();
        assert(v.take(i) =~= p.take(i));
        lemma_blocks_prefix(p, i);
        let n = blocks_of(p.take(i)).len() as int;
        match v.last() {
            SegV::Block(b) => {
                assert(blocks_of(p).push(b).take(n) =~= blocks_of(p).take(n));
            },
            SegV::Text(_) => {},
        }
    }
}

/// The number of conflict blocks.
pub fn conflict_count(segments: &[ConflictSegment]) -> (n: usize)
    ensures
        n == blocks_of(segs_view(segments@)).len(),
{
    let mut n: usize = 0;
    let mut i: usize = 0;
    while i < segments.len()
        invariant
            i <= segments@.len(),
            n == blocks_of(segs_view(segments@).take(i as int)).len(),
        decreases segments@.len() - i,
    {
        proof {
            lemma_take_step(segments@, i as int);
            lemma_blocks_len(segs_view(segments@).take(i as int));
        }
        if let ConflictSegment::Block(_) = &segments[i] {
            n = n + 1;
        }
        i = i + 1;
    }
    proof {
        lemma_take_all(segments@);
    }
    n
}

/// Count how many conflict blocks have been explicitly resolved.
pub fn resolved_conflict_count(segments: &[ConflictSegment]) -> (n: usize)
    ensures
        n == resolved_count(blocks_of(segs_view(segments@))),
{
    let mut n: usize = 0;
    let mut i: usize = 0;
    while i < segments.len()
        invariant
            i <= segments@.len(),
            n == resolved_count(blocks_of(segs_view(segments@).take(i as int))),
        decreases segments@.len() - i,
    {
        proof {
            lemma_take_step(segments@, i as int);
            let bs = blocks_of(segs_view(segments@).take(i as int));
            lemma_blocks_len(segs_view(segments@).take(i as int));
            lemma_resolved_count_le(bs);
            if let SegV::Block(b) = segments@[i as int]@ {
                assert(bs.push(b).drop_last() =~= bs);
            }
        }
        if let ConflictSegment::Block(b) = &segments[i] {
            if b.resolved {
                n = n + 1;
            }
        }
        i = i + 1;
    }
    proof {
        lemma_take_all(segments@);
    }
    n
}

/// The conflict indices of the unresolved blocks, in increasing order.
fn unresolved_conflict_indices(segments: &[ConflictSegment]) -> (out: Vec<usize>)
    ensures
        forall|a: int, b: int| 0 <= a < b < out@.len() ==> out@[a] < out@[b],
        forall|a: int|
            0 <= a < out@.len() ==> is_unresolved(blocks_of(segs_view(segments@)), out@[a] as int),
        forall|k: int|
            is_unresolved(blocks_of(segs_view(segments@)), k) ==> exists|a: int|
                0 <= a < out@.len() && out@[a] as int == k,
{
    let ghost v = segs_view(segments@);
    let ghost all = blocks_of(v);
    let mut out: Vec<usize> = Vec::new();
    let mut conflict_ix: usize = 0;
    let mut i: usize = 0;
    while i < segments.len()
        invariant
            i <= segments@.len(),
            v == segs_view(segments@),
            all == blocks_of(v),
            conflict_ix == blocks_of(v.take(i as int)).len(),
            conflict_ix <= all.len(),
            forall|a: int, b: int| 0 <= a < b < out@.len() ==> out@[a] < out@[b],
            forall|a: int| 0 <= a < out@.len() ==> out@[a] < conflict_ix,
            forall|a: int| 0 <= a < out@.len() ==> is_unresolved(all, out@[a] as int),
            forall|k: int|
                0 <= k < conflict_ix && !all[k].resolved ==> exists|a: int|
                    0 <= a < out@.len() && out@[a] as int == k,
        decreases segments@.len() - i,
    {
        proof {
            lemma_take_step(segments@, i as int);
            lemma_blocks_prefix(v, i as int + 1);
            lemma_blocks_prefix(v, i as int);
        }
        if let ConflictSegment::Block(block) = &segments[i] {
            let ghost old_out = out@;
            proof {
                assert(blocks_of(v.take(i as int + 1)) == blocks_of(v.take(i as int)).push(block@));
                assert(blocks_of(v.take(i as int + 1))[conflict_ix as int] == block@);
                assert(all.take(conflict_ix as int + 1)[conflict_ix as int] == all[conflict_ix as int]);
                assert(conflict_ix < all.len());
                lemma_blocks_len(v);
            }
            if !block.resolved {
                out.push(conflict_ix);
                assert forall|k: int|
                    0 <= k < conflict_ix + 1 && !all[k].resolved implies exists|a: int|
                        0 <= a < out@.len() && out@[a] as int == k by {
                    if k < conflict_ix {
                        let a = choose|a: int| 0 <= a < old_out.len() && old_out[a] as int == k;
                        assert(out@[a] == old_out[a]);
                    } else {
                        assert(out@[old_out.len() as int] as int == k);
                    }
                }
            }
            conflict_ix = conflict_ix + 1;
        }
        i = i + 1;
    }
    proof {
        lemma_take_all(segments@);
    }
    out
}

/// Find the next unresolved conflict index after `current`.
/// Wraps around to the first unresolved conflict.
pub fn next_unresolved_conflict_index(segments: &[ConflictSegment], current: usize) -> (r:
    Option<usize>)
    ensures
        ({
            let bs = blocks_of(segs_view(segments@));
            match r {
                None => forall|k: int| !is_unresolved(bs, k),
                Some(x) => is_unresolved(bs, x as int) && if exists|k: int|
                    is_unresolved(bs, k) && k > current {
                    x > current && forall|k: int| is_unresolved(bs, k) && k > current ==> x <= k
                } else {
                    forall|k: int| is_unresolved(bs, k) ==> x <= k
                },
            }
        }),
{
    let unresolved = unresolved_conflict_indices(segments);
    let ghost bs = blocks_of(segs_view(segments@));
    let mut j: usize = 0;
    while j < unresolved.len()
        invariant
            j <= unresolved@.len(),
            bs == blocks_of(segs_view(segments@)),
            forall|a: int, b: int| 0 <= a < b < unresolved@.len() ==> unresolved@[a] < unresolved@[b],
            forall|a: int| 0 <= a < unresolved@.len() ==> is_unresolved(bs, unresolved@[a] as int),
            forall|k: int|
                is_unresolved(bs, k) ==> exists|a: int|
                    0 <= a < unresolved@.len() && unresolved@[a] as int == k,
            forall|a: int| 0 <= a < j ==> unresolved@[a] <= current,
        decreases unresolved@.len() - j,
    {
        if unresolved[j] > current {
            proof {
                assert forall|k: int| is_unresolved(bs, k) && k > current implies unresolved[j as int] <= k by {
                    let a = choose|a: int| 0 <= a < unresolved@.len() && unresolved@[a] as int == k;
                    if a < j {
                    } else if a > j {
                    }
                }
            }
            return Some(unresolved[j]);
        }
        j = j + 1;
    }
    if unresolved.len() > 0 {
        proof {
            assert forall|k: int| is_unresolved(bs, k) implies unresolved[0] <= k by {
                let a = choose|a: int| 0 <= a < unresolved@.len() && unresolved@[a] as int == k;
                if a > 0 {
                }
            }
            assert forall|k: int| is_unresolved(bs, k) implies !(k > current) by {
                let a = choose|a: int| 0 <= a < unresolved@.len() && unresolved@[a] as int == k;
            }
        }
        Some(unresolved[0])
    } else {
        proof {
            assert forall|k: int| !is_unresolved(bs, k) by {
                if is_unresolved(bs, k) {
                    let a = choose|a: int| 0 <= a < unresolved@.len() && unresolved@[a] as int == k;
                }
            }
        }
        None
    }
}

/// Find the previous unresolved conflict index before `current`.
/// Wraps around to the last unresolved conflict.
pub fn prev_unresolved_conflict_index(segments: &[ConflictSegment], current: usize) -> (r:
    Option<usize>)
    ensures
        ({
            let bs = blocks_of(segs_view(segments@));
            match r {
                None => forall|k: int| !is_unresolved(bs, k),
                Some(x) => is_unresolved(bs, x as int) && if exists|k: int|
                    is_unresolved(bs, k) && k < current {
                    x < current && forall|k: int| is_unresolved(bs, k) && k < current ==> k <= x
                } else {
                    forall|k: int| is_unresolved(bs, k) ==> k <= x
                },
            }
        }),
{
    let unresolved = unresolved_conflict_indices(segments);
    let ghost bs = blocks_of(segs_view(segments@));
    let mut j: usize = unresolved.len();
    while j > 0
        invariant
            j <= unresolved@.len(),
            bs == blocks_of(segs_view(segments@)),
            forall|a: int, b: int| 0 <= a < b < unresolved@.len() ==> unresolved@[a] < unresolved@[b],
            forall|a: int| 0 <= a < unresolved@.len() ==> is_unresolved(bs, unresolved@[a] as int),
            forall|k: int|
                is_unresolved(bs, k) ==> exists|a: int|
                    0 <= a < unresolved@.len() && unresolved@[a] as int == k,
            forall|a: int| j <= a < unresolved@.len() ==> unresolved@[a] >= current,
        decreases j,
    {
        let x = unresolved[j - 1];
        if x < current {
            proof {
                assert forall|k: int| is_unresolved(bs, k) && k < current implies k <= x by {
                    let a = choose|a: int| 0 <= a < unresolved@.len() && unresolved@[a] as int == k;
                    if a < j - 1 {
                    } else if a > j - 1 {
                    }
                }
            }
            return Some(x);
        }
        j = j - 1;
    }
    if unresolved.len() > 0 {
        let last = unresolved[unresolved.len() - 1];
        proof {
            assert forall|k: int| is_unresolved(bs, k) implies k <= last by {
                let a = choose|a: int| 0 <= a < unresolved@.len() && unresolved@[a] as int == k;
                if a < unresolved@.len() - 1 {
                }
            }
            assert forall|k: int| is_unresolved(bs, k) implies !(k < current) by {
                let a = choose|a: int| 0 <= a < unresolved@.len() && unresolved@[a] as int == k;
            }
        }
        Some(last)
    } else {
        proof {
            assert forall|k: int| !is_unresolved(bs, k) by {
                if is_unresolved(bs, k) {
                    let a = choose|a: int| 0 <= a < unresolved@.len() && unresolved@[a] as int == k;
                }
            }
        }
        None
    }
}

} // verus!

verus! {

// ---------------------------------------------------------------------------
// Resolved text
// ---------------------------------------------------------------------------

/// What a segment contributes to the resolved text.
pub open spec fn seg_output(s: SegV) -> Seq<char> {
    match s {
        SegV::Text(t) => t,
        SegV::Block(b) => match b.choice {
            ConflictChoice::Base => match b.base {
                Some(base) => base,
                None => Seq::empty(),
            },
            ConflictChoice::Ours => b.ours,
            ConflictChoice::Theirs => b.theirs,
            ConflictChoice::Both => b.ours + b.theirs,
        },
    }
}

/// The resolved text: each segment's contribution, in order.
pub open spec fn resolved_text(v: Seq<SegV>) -> Seq<char>
    decreases v.len(),
{
    if v.len() == 0 {
        Seq::empty()
    } else {
        resolved_text(v.drop_last()) + seg_output(v.last())
    }
}

/// The text that results from each block's current choice: text segments as
/// they are, a block as its chosen side (`Both`: ours then theirs; `Base`
/// without an ancestor section: nothing).
pub fn generate_resolved_text(segments: &[ConflictSegment]) -> (out: String)
    ensures
        out@ == resolved_text(segs_view(segments@)),
{
    let mut out = String::new();
    let mut i: usize = 0;
    while i < segments.len()
        invariant
            i <= segments@.len(),
            out@ == resolved_text(segs_view(segments@).take(i as int)),
        decreases segments@.len() - i,
    {
        proof {
            lemma_take_step(segments@, i as int);
        }
        match &segments[i] {
            ConflictSegment::Text(t) => push_str(&mut out, t.as_str()),
            ConflictSegment::Block(block) => match block.choice {
                ConflictChoice::Base => {
                    if let Some(base) = &block.base {
                        push_str(&mut out, base.as_str());
                    }
                    assert(out@ =~= resolved_text(segs_view(segments@).take(i as int + 1)));
                },
                ConflictChoice::Ours => push_str(&mut out, block.ours.as_str()),
                ConflictChoice::Theirs => push_str(&mut out, block.theirs.as_str()),
                ConflictChoice::Both => {
                    push_str(&mut out, block.ours.as_str());
                    push_str(&mut out, block.theirs.as_str());
                    assert(out@ =~= resolved_text(segs_view(segments@).take(i as int + 1)));
                },
            },
        }
        i = i + 1;
    }
    proof {
        lemma_take_all(segments@);
    }
    out
}

// ---------------------------------------------------------------------------
// Bulk picks
// ---------------------------------------------------------------------------

/// Whether a bulk pick of `c` applies to block `b`.
pub open spec fn pick_applies(b: BlockV, c: ConflictChoice) -> bool {
    !b.resolved && !(c == ConflictChoice::Base && b.base is None)
}

/// A segment after a bulk pick of `c`.
pub open spec fn apply_choice_seg(s: SegV, c: ConflictChoice) -> SegV {
    match s {
        SegV::Block(b) => if pick_applies(b, c) {
            SegV::Block(BlockV { choice: c, resolved: true, ..b })
        } else {
            s
        },
        SegV::Text(_) => s,
    }
}

/// How many blocks a bulk pick of `c` applies to.
pub open spec fn pick_count(bs: Seq<BlockV>, c: ConflictChoice) -> nat
    decreases bs.len(),
{
    if bs.len() == 0 {
        0
    } else {
        pick_count(bs.drop_last(), c) + if pick_applies(bs.last(), c) { 1nat } else { 0nat }
    }
}

pub proof fn lemma_pick_count_le(bs: Seq<BlockV>, c: ConflictChoice)
    ensures
        pick_count(bs, c) <= bs.len(),
    decreases bs.len(),
{
    if bs.len() > 0 {
        lemma_pick_count_le(bs.drop_last(), c);
    }
}

/// Apply a choice to all unresolved conflict blocks.
///
/// Already-resolved blocks are preserved. Choosing `Base` skips unresolved
/// 2-way blocks that don't have an ancestor section.
///
/// Returns the number of blocks updated.
pub fn apply_choice_to_unresolved_segments(
    segments: &mut Vec<ConflictSegment>,
    choice: ConflictChoice,
) -> (updated: usize)
    ensures
        segs_view(final(segments)@) == segs_view(old(segments)@).map_values(
            |s: SegV| apply_choice_seg(s, choice),
        ),
        updated == pick_count(blocks_of(segs_view(old(segments)@)), choice),
{
    let ghost s0 = segs_view(segments@);
    let mut updated: usize = 0;
    let mut i: usize = 0;
    while i < segments.len()
        invariant
            i <= segments@.len(),
            s0.len() == segments@.len(),
            forall|k: int| 0 <= k < i ==> #[trigger] segments@[k]@ == apply_choice_seg(s0[k], choice),
            forall|k: int| i <= k < segments@.len() ==> #[trigger] segments@[k]@ == s0[k],
            updated == pick_count(blocks_of(s0.take(i as int)), choice),
        decreases segments@.len() - i,
    {
        proof {
            assert(s0.take(i as int + 1).drop_last() =~= s0.take(i as int));
            lemma_blocks_len(s0.take(i as int));
            lemma_pick_count_le(blocks_of(s0.take(i as int)), choice);
            if let SegV::Block(b) = s0[i as int] {
                assert(blocks_of(s0.take(i as int)).push(b).drop_last() =~= blocks_of(s0.take(i as int)));
            }
        }
        let ghost old_segs = segments@;
        match &mut segments[i] {
            ConflictSegment::Block(block) => {
                let ghost before = *block;
                assert(old_segs[i as int] == ConflictSegment::Block(before));
                if !block.resolved && !(choice == ConflictChoice::Base && block.base.is_none()) {
                    block.choice = choice;
                    block.resolved = true;
                    updated = updated + 1;
                    assert(block@ == BlockV { choice: choice, resolved: true, ..before@ });
                }
            },
            ConflictSegment::Text(_) => {},
        }
        assert(segments@.len() == s0.len());
        assert(old_segs[i as int]@ == s0[i as int]);
        assert(old_segs[i as int] is Text ==> segments@[i as int] == old_segs[i as int]);
        assert(old_segs[i as int] is Block ==> segments@[i as int] is Block);
        assert(segments@[i as int]@ == apply_choice_seg(s0[i as int], choice));
        assert(forall|k: int| 0 <= k < segments@.len() && k != i ==> segments@[k] == old_segs[k]);
        i = i + 1;
    }
    proof {
        assert(s0.take(i as int) =~= s0);
        assert(segs_view(segments@) =~= s0.map_values(|s: SegV| apply_choice_seg(s, choice)));
    }
    updated
}

} // verus!

verus! {

// ---------------------------------------------------------------------------
// Safe auto-resolve (pass 1)
// ---------------------------------------------------------------------------

/// The two sides differ in whitespace only.
pub open spec fn ws_only_diff(a: Seq<char>, b: Seq<char>) -> bool {
    strip_ws(a) == strip_ws(b)
}

/// The side the safe rules pick for a block, if any.
pub open spec fn autosolve_pick(b: BlockV, whitespace_normalize: bool) -> Option<ConflictChoice> {
    if b.ours == b.theirs {
        Some(ConflictChoice::Ours)
    } else if b.base is Some && b.ours == b.base->0 && b.theirs != b.base->0 {
        Some(ConflictChoice::Theirs)
    } else if b.base is Some && b.theirs == b.base->0 && b.ours != b.base->0 {
        Some(ConflictChoice::Ours)
    } else if whitespace_normalize && ws_only_diff(b.ours, b.theirs) {
        Some(ConflictChoice::Ours)
    } else {
        None
    }
}

/// Whether the safe rules resolve block `b`.
pub open spec fn autosolves(b: BlockV, whitespace_normalize: bool) -> bool {
    !b.resolved && autosolve_pick(b, whitespace_normalize) is Some
}

/// A segment after the safe rules ran over it.
pub open spec fn autosolve_seg(s: SegV, whitespace_normalize: bool) -> SegV {
    match s {
        SegV::Block(b) => if autosolves(b, whitespace_normalize) {
            SegV::Block(
                BlockV {
                    choice: autosolve_pick(b, whitespace_normalize)->0,
                    resolved: true,
                    ..b
                },
            )
        } else {
            s
        },
        SegV::Text(_) => s,
    }
}

/// How many blocks the safe rules resolve.
pub open spec fn autosolve_count(bs: Seq<BlockV>, whitespace_normalize: bool) -> nat
    decreases bs.len(),
{
    if bs.len() == 0 {
        0
    } else {
        autosolve_count(bs.drop_last(), whitespace_normalize) + if autosolves(
            bs.last(),
            whitespace_normalize,
        ) {
            1nat
        } else {
            0nat
        }
    }
}

pub proof fn lemma_autosolve_count_le(bs: Seq<BlockV>, ws: bool)
    ensures
        autosolve_count(bs, ws) <= bs.len(),
    decreases bs.len(),
{
    if bs.len() > 0 {
        lemma_autosolve_count_le(bs.drop_last(), ws);
    }
}

fn whitespace_only_diff(a: &String, b: &String) -> (r: bool)
    ensures
        r == ws_only_diff(a@, b@),
{
    let ac = str_to_chars(a.as_str());
    let bc = str_to_chars(b.as_str());
    let sa = strip_whitespace(&ac);
    let sb = strip_whitespace(&bc);
    chars_eq(&sa, &sb)
}

fn autosolve_pick_exec(block: &ConflictBlock, whitespace_normalize: bool) -> (r: Option<
    ConflictChoice,
>)
    ensures
        r == autosolve_pick(block@, whitespace_normalize),
{
    if block.ours == block.theirs {
        return Some(ConflictChoice::Ours);
    }
    if let Some(base) = &block.base {
        if block.ours == *base && block.theirs != *base {
            return Some(ConflictChoice::Theirs);
        }
        if block.theirs == *base && block.ours != *base {
            return Some(ConflictChoice::Ours);
        }
    }
    if whitespace_normalize && whitespace_only_diff(&block.ours, &block.theirs) {
        return Some(ConflictChoice::Ours);
    }
    None
}

/// Apply safe auto-resolve rules (Pass 1) to all unresolved conflict blocks.
///
/// Safe rules:
/// 1. `ours == theirs` — both sides made the same change → pick ours.
/// 2. `ours == base` and `theirs != base` — only theirs changed → pick theirs.
/// 3. `theirs == base` and `ours != base` — only ours changed → pick ours.
///
/// Returns the number of blocks auto-resolved.
pub fn auto_resolve_segments(segments: &mut Vec<ConflictSegment>) -> (count: usize)
    ensures
        segs_view(final(segments)@) == segs_view(old(segments)@).map_values(
            |s: SegV| autosolve_seg(s, false),
        ),
        count == autosolve_count(blocks_of(segs_view(old(segments)@)), false),
{
    auto_resolve_segments_with_options(segments, false)
}

/// Like [`auto_resolve_segments`] but with an optional whitespace-normalization
/// toggle: 4. (if `whitespace_normalize`) the sides differ in whitespace only →
/// pick ours.
pub fn auto_resolve_segments_with_options(
    segments: &mut Vec<ConflictSegment>,
    whitespace_normalize: bool,
) -> (count: usize)
    ensures
        segs_view(final(segments)@) == segs_view(old(segments)@).map_values(
            |s: SegV| autosolve_seg(s, whitespace_normalize),
        ),
        count == autosolve_count(blocks_of(segs_view(old(segments)@)), whitespace_normalize),
{
    let ghost s0 = segs_view(segments@);
    let mut count: usize = 0;
    let mut i: usize = 0;
    while i < segments.len()
        invariant
            i <= segments@.len(),
            s0.len() == segments@.len(),
            forall|k: int|
                0 <= k < i ==> #[trigger] segments@[k]@ == autosolve_seg(s0[k], whitespace_normalize),
            forall|k: int| i <= k < segments@.len() ==> #[trigger] segments@[k]@ == s0[k],
            count == autosolve_count(blocks_of(s0.take(i as int)), whitespace_normalize),
        decreases segments@.len() - i,
    {
        proof {
            assert(s0.take(i as int + 1).drop_last() =~= s0.take(i as int));
            lemma_blocks_len(s0.take(i as int));
            lemma_autosolve_count_le(blocks_of(s0.take(i as int)), whitespace_normalize);
            if let SegV::Block(b) = s0[i as int] {
                assert(blocks_of(s0.take(i as int)).push(b).drop_last() =~= blocks_of(
                    s0.take(i as int),
                ));
            }
        }
        let ghost old_segs = segments@;
        match &mut segments[i] {
            ConflictSegment::Block(block) => {
                let ghost before = *block;
                assert(old_segs[i as int] == ConflictSegment::Block(before));
                if !block.resolved {
                    if let Some(pick) = autosolve_pick_exec(block, whitespace_normalize) {
                        block.choice = pick;
                        block.resolved = true;
                        count = count + 1;
                        assert(block@ == BlockV { choice: pick, resolved: true, ..before@ });
                    }
                }
            },
            ConflictSegment::Text(_) => {},
        }
        assert(segments@.len() == s0.len());
        assert(old_segs[i as int]@ == s0[i as int]);
        assert(old_segs[i as int] is Text ==> segments@[i as int] == old_segs[i as int]);
        assert(old_segs[i as int] is Block ==> segments@[i as int] is Block);
        assert(segments@[i as int]@ == autosolve_seg(s0[i as int], whitespace_normalize));
        assert(forall|k: int| 0 <= k < segments@.len() && k != i ==> segments@[k] == old_segs[k]);
        i = i + 1;
    }
    proof {
        assert(s0.take(i as int) =~= s0);
        assert(segs_view(segments@) =~= s0.map_values(
            |s: SegV| autosolve_seg(s, whitespace_normalize),
        ));
    }
    count
}

} // verus!
