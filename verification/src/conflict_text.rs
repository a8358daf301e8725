use vstd::prelude::*;
use crate::conflict::{
    blocks_of, is_marker_line, lemma_take_all, lemma_take_step, segs_view, BlockV, ConflictSegment,
    SegV,
};
use crate::text::{
    decimal, lines_acc, push_decimal, push_str, chars_to_string, find_chars, find_from, split_lines,
    str_to_chars, sub_chars,
};

verus! {

// ---------------------------------------------------------------------------
// Ancestor sections for two-way conflict markers
// ---------------------------------------------------------------------------

/// How many text segments there are.
pub open spec fn text_count(v: Seq<SegV>) -> nat
    decreases v.len(),
{
    if v.len() == 0 {
        0
    } else {
        text_count(v.drop_last()) + if v.last() is Text { 1nat } else { 0nat }
    }
}

pub proof fn lemma_text_count_prefix(v: Seq<SegV>, i: int)
    requires
        0 <= i <= v.len(),
    ensures
        text_count(v.take(i)) <= text_count(v),
        text_count(v) <= v.len(),
    decreases v.len(),
{
    if v.len() > 0 {
        if i == v.len() {
            assert(v.take(i) =~= v);
            lemma_text_count_prefix(v.drop_last(), 0);
        } else {
            assert(v.take(i) =~= v.drop_last().take(i));
            lemma_text_count_prefix(v.drop_last(), i);
        }
    }
}

/// Where the text segments sit in the ancestor `h`: each is looked for at or
/// after the end of the previous one. `None` when one is not found.
pub open spec fn text_anchors(v: Seq<SegV>, h: Seq<char>) -> Option<Seq<(int, int)>>
    decreases v.len(),
{
    if v.len() == 0 {
        Some(Seq::empty())
    } else {
        match text_anchors(v.drop_last(), h) {
            None => None,
            Some(a) => match v.last() {
                SegV::Block(_) => Some(a),
                SegV::Text(t) => {
                    let cursor = if a.len() > 0 { a.last().1 } else { 0 };
                    match find_from(h, t, cursor) {
                        Some(p) => Some(a.push((p, p + t.len()))),
                        None => None,
                    }
                },
            },
        }
    }
}

/// Once the anchors of a prefix are missing, so are those of the whole.
pub proof fn lemma_anchors_none_prefix(v: Seq<SegV>, h: Seq<char>, i: int)
    requires
        0 <= i <= v.len(),
        text_anchors(v.take(i), h) is None,
    ensures
        text_anchors(v, h) is None,
    decreases v.len() - i,
{
    if i < v.len() {
        assert(v.take(i + 1).drop_last() =~= v.take(i));
        lemma_anchors_none_prefix(v, h, i + 1);
    } else {
        assert(v.take(i) =~= v);
    }
}

/// The ancestor text that a block at segment `i` stands for: between the end
/// of the text before it and the start of the text after it.
pub open spec fn filled_base(v: Seq<SegV>, h: Seq<char>, a: Seq<(int, int)>, i: int) -> Seq<char> {
    let tb = text_count(v.take(i));
    let prev_end = if tb > 0 { a[tb - 1].1 } else { 0 };
    let next_start = if tb < a.len() { a[tb as int].0 } else { h.len() as int };
    h.subrange(prev_end, next_start)
}

/// Segment `i` after the missing ancestor sections were filled in.
pub open spec fn populate_seg(v: Seq<SegV>, h: Seq<char>, a: Seq<(int, int)>, i: int) -> SegV {
    match v[i] {
        SegV::Block(b) => if b.base is None {
            SegV::Block(BlockV { base: Some(filled_base(v, h, a, i)), ..b })
        } else {
            v[i]
        },
        SegV::Text(_) => v[i],
    }
}

/// Some block has no ancestor section.
pub open spec fn any_missing_base(v: Seq<SegV>) -> bool {
    exists|i: int| 0 <= i < v.len() && (#[trigger] v[i]) is Block && v[i]->Block_0.base is None
}

/// Anchors that lie in order inside `h`.
pub open spec fn anchors_ordered(a: Seq<(int, int)>, h_len: int) -> bool {
    &&& forall|k: int| 0 <= k < a.len() ==> 0 <= #[trigger] a[k].0 <= a[k].1 <= h_len
    &&& forall|k: int| 0 <= k < a.len() - 1 ==> #[trigger] a[k].1 <= a[k + 1].0
}

/// When conflict markers use 2-way style (no `|||||||` base section), `block.base`
/// will be `None` even though the git ancestor content (index stage :1:) is available.
/// This function populates `block.base` by using the Text segments as anchors to
/// locate the corresponding base content in the ancestor file.
pub fn populate_block_bases_from_ancestor(segments: &mut Vec<ConflictSegment>, ancestor_text: &str)
    ensures
        ({
            let v = segs_view(old(segments)@);
            let h = ancestor_text@;
            if h.len() == 0 || !any_missing_base(v) || text_anchors(v, h) is None {
                segs_view(final(segments)@) == v
            } else {
                &&& segs_view(final(segments)@).len() == v.len()
                &&& forall|i: int|
                    0 <= i < v.len() ==> #[trigger] segs_view(final(segments)@)[i] == populate_seg(
                        v,
                        h,
                        text_anchors(v, h)->0,
                        i,
                    )
            }
        }),
{
    let ghost v = segs_view(segments@);
    let ghost hv = ancestor_text@;
    if ancestor_text.is_empty() {
        return;
    }
    let mut any_missing = false;
    let mut i: usize = 0;
    while i < segments.len()
        invariant
            i <= segments@.len(),
            v == segs_view(segments@),
            any_missing == exists|j: int|
                0 <= j < i && (#[trigger] v[j]) is Block && v[j]->Block_0.base is None,
        decreases segments@.len() - i,
    {
        if let ConflictSegment::Block(b) = &segments[i] {
            if b.base.is_none() {
                any_missing = true;
            }
        }
        assert(v[i as int] == segments@[i as int]@);
        assert(any_missing == exists|j: int|
            0 <= j < i + 1 && (#[trigger] v[j]) is Block && v[j]->Block_0.base is None);
        i = i + 1;
    }
    if !any_missing {
        return;
    }
    let h = str_to_chars(ancestor_text);
    let hlen = h.len();
    let mut anchors: Vec<(usize, usize)> = Vec::new();
    let mut cursor: usize = 0;
    let mut i: usize = 0;
    while i < segments.len()
        invariant
            i <= segments@.len(),
            v == segs_view(segments@),
            h@ == hv,
            hv == ancestor_text@,
            hlen == hv.len(),
            text_anchors(v.take(i as int), hv) == Some(
                anchors@.map_values(|e: (usize, usize)| (e.0 as int, e.1 as int)),
            ),
            anchors@.len() == text_count(v.take(i as int)),
            anchors_ordered(anchors@.map_values(|e: (usize, usize)| (e.0 as int, e.1 as int)), hv.len() as int),
            cursor == if anchors@.len() > 0 { anchors@.last().1 } else { 0 },
            cursor <= hv.len(),
        decreases segments@.len() - i,
    {
        proof {
            lemma_take_step(segments@, i as int);
        }
        let ghost a0 = anchors@.map_values(|e: (usize, usize)| (e.0 as int, e.1 as int));
        if let ConflictSegment::Text(t) = &segments[i] {
            let tc = str_to_chars(t.as_str());
            match find_chars(&h, &tc, cursor) {
                Some(p) => {
                    let end = p + tc.len();
                    anchors.push((p, end));
                    cursor = end;
                    assert(anchors@.map_values(|e: (usize, usize)| (e.0 as int, e.1 as int)) =~= a0.push(
                        (p as int, end as int),
                    ));
                },
                None => {
                    proof {
                        assert(v.take(i as int + 1).drop_last() =~= v.take(i as int));
                        assert(v.take(i as int + 1).last() == v[i as int]);
                        assert(text_anchors(v.take(i as int + 1), hv) is None);
                        lemma_anchors_none_prefix(v, hv, i as int + 1);
                    }
                    return;
                },
            }
        }
        i = i + 1;
    }
    proof {
        lemma_take_all(segments@);
    }
    let ghost a = anchors@.map_values(|e: (usize, usize)| (e.0 as int, e.1 as int));
    assert(text_anchors(v, hv) == Some(a));
    let ghost s0 = segments@;
    let mut text_idx: usize = 0;
    let mut prev_end: usize = 0;
    let mut i: usize = 0;
    while i < segments.len()
        invariant
            i <= segments@.len(),
            s0.len() == segments@.len(),
            v == segs_view(s0),
            h@ == hv,
            a == anchors@.map_values(|e: (usize, usize)| (e.0 as int, e.1 as int)),
            anchors@.len() == text_count(v),
            anchors_ordered(a, hv.len() as int),
            text_idx == text_count(v.take(i as int)),
            text_idx <= anchors@.len(),
            prev_end == if text_idx > 0 { a[text_idx - 1].1 } else { 0 },
            forall|k: int| 0 <= k < i ==> #[trigger] segments@[k]@ == populate_seg(v, hv, a, k),
            forall|k: int| i <= k < segments@.len() ==> #[trigger] segments@[k] == s0[k],
        decreases segments@.len() - i,
    {
        proof {
            lemma_take_step(s0, i as int);
            lemma_text_count_prefix(v, i as int + 1);
            assert(v.take(i as int + 1).drop_last() =~= v.take(i as int));
        }
        let ghost old_segs = segments@;
        let is_text = match &segments[i] {
            ConflictSegment::Text(_) => true,
            ConflictSegment::Block(_) => false,
        };
        if is_text {
            prev_end = anchors[text_idx].1;
            text_idx = text_idx + 1;
        } else {
            let next_start = if text_idx < anchors.len() { anchors[text_idx].0 } else { h.len() };
            proof {
                if text_idx > 0 && text_idx < anchors@.len() {
                    assert(a[text_idx - 1].1 <= a[text_idx as int].0);
                }
                if text_idx > 0 {
                    assert(a[text_idx - 1].1 <= hv.len());
                }
            }
            match &mut segments[i] {
                ConflictSegment::Block(block) => {
                    if block.base.is_none() {
                        let base = sub_chars(&h, prev_end, next_start);
                        block.base = Some(chars_to_string(&base));
                    }
                },
                ConflictSegment::Text(_) => {},
            }
        }
        assert(segments@[i as int]@ == populate_seg(v, hv, a, i as int));
        assert(forall|k: int| 0 <= k < segments@.len() && k != i ==> segments@[k] == old_segs[k]);
        i = i + 1;
    }
    assert(segs_view(segments@) =~= Seq::new(v.len(), |k: int| populate_seg(v, hv, a, k)));
}

} // verus!

verus! {

// ---------------------------------------------------------------------------
// Stage safety
// ---------------------------------------------------------------------------

/// A line starts with one of git's four conflict markers.
pub open spec fn is_any_marker_line(l: Seq<char>) -> bool {
    is_marker_line(l, '<') || is_marker_line(l, '=') || is_marker_line(l, '>') || is_marker_line(
        l,
        '|',
    )
}

/// Some line of the text starts with a conflict marker.
pub open spec fn has_conflict_markers(text: Seq<char>) -> bool {
    exists|k: int| 0 <= k < split_lines(text).len() && is_any_marker_line(#[trigger] split_lines(text)[k])
}

fn is_any_marker_line_exec(l: &Vec<char>) -> (b: bool)
    ensures
        b == is_any_marker_line(l@),
{
    if l.len() < 7 {
        return false;
    }
    let c = l[0];
    if c != '<' && c != '=' && c != '>' && c != '|' {
        return false;
    }
    let mut k: usize = 1;
    while k < 7
        invariant
            1 <= k <= 7,
            l@.len() >= 7,
            c == l@[0],
            forall|j: int| 0 <= j < k ==> l@[j] == c,
        decreases 7 - k,
    {
        if l[k] != c {
            return false;
        }
        k = k + 1;
    }
    true
}

/// Check whether the given text still contains git conflict markers: a line
/// starting with `<<<<<<<`, `=======`, `>>>>>>>` or `|||||||`.
/// Used as a safety gate before "Save & stage" to warn the user about unresolved conflicts.
pub fn text_contains_conflict_markers(text: &str) -> (b: bool)
    ensures
        b == has_conflict_markers(text@),
{
    let chars = str_to_chars(text);
    let lines = crate::text::split_lines_exec(&chars);
    let ghost ls = crate::text::lines_view(lines@);
    let mut k: usize = 0;
    while k < lines.len()
        invariant
            k <= lines@.len(),
            ls == crate::text::lines_view(lines@),
            ls == split_lines(text@),
            forall|j: int| 0 <= j < k ==> !is_any_marker_line(#[trigger] ls[j]),
        decreases lines@.len() - k,
    {
        if is_any_marker_line_exec(&lines[k]) {
            assert(ls[k as int] == lines@[k as int]@);
            return true;
        }
        k = k + 1;
    }
    false
}

/// Whether staging the resolver's output is safe without asking.
#[derive(Clone, Copy, Debug, Default, PartialEq, Eq, Structural)]
pub struct ConflictStageSafetyCheck {
    pub has_conflict_markers: bool,
    pub unresolved_blocks: usize,
}

impl ConflictStageSafetyCheck {
    /// Confirmation is needed when markers remain or blocks are unresolved.
    pub fn requires_confirmation(self) -> (r: bool)
        ensures
            r == (self.has_conflict_markers || self.unresolved_blocks > 0),
    {
        self.has_conflict_markers || self.unresolved_blocks > 0
    }
}

/// Compute stage-safety status for the current conflict resolver output/state.
///
/// This gate is stricter than marker-only checks: unresolved conflict blocks
/// should still require explicit confirmation even if the current output text
/// no longer contains marker lines.
pub fn conflict_stage_safety_check(output_text: &str, segments: &[ConflictSegment]) -> (r:
    ConflictStageSafetyCheck)
    ensures
        r.has_conflict_markers == has_conflict_markers(output_text@),
        r.unresolved_blocks == blocks_of(segs_view(segments@)).len() - crate::conflict::resolved_count(
            blocks_of(segs_view(segments@)),
        ),
{
    let total_blocks = crate::conflict::conflict_count(segments);
    let resolved_blocks = crate::conflict::resolved_conflict_count(segments);
    proof {
        crate::conflict::lemma_resolved_count_le(blocks_of(segs_view(segments@)));
    }
    ConflictStageSafetyCheck {
        has_conflict_markers: text_contains_conflict_markers(output_text),
        unresolved_blocks: total_blocks.saturating_sub(resolved_blocks),
    }
}

// ---------------------------------------------------------------------------
// Appending picked lines
// ---------------------------------------------------------------------------

/// The lines joined with `'\n'` between them.
pub open spec fn join_lines(ls: Seq<Seq<char>>) -> Seq<char>
    decreases ls.len(),
{
    if ls.len() == 0 {
        Seq::empty()
    } else if ls.len() == 1 {
        ls[0]
    } else {
        join_lines(ls.drop_last()).push('\n') + ls.last()
    }
}

/// `output` with the lines appended, each on a line of its own: a newline is
/// added first when `output` does not end in one, and the result ends in one.
pub open spec fn appended_output(output: Seq<char>, ls: Seq<Seq<char>>) -> Seq<char> {
    if ls.len() == 0 {
        output
    } else {
        let sep = if output.len() > 0 && output.last() != '\n' {
            seq!['\n']
        } else {
            Seq::empty()
        };
        (output + sep + join_lines(ls)).push('\n')
    }
}

pub fn append_lines_to_output(output: &str, lines: &[String]) -> (out: String)
    ensures
        out@ == appended_output(output@, crate::conflict_rows::strings_view(lines@)),
{
    let ghost ls = crate::conflict_rows::strings_view(lines@);
    if lines.len() == 0 {
        return output.to_owned();
    }
    let chars = str_to_chars(output);
    let mut out = output.to_owned();
    if chars.len() > 0 && chars[chars.len() - 1] != '\n' {
        crate::text::push_char(&mut out, '\n');
    }
    let ghost base = out@;
    let mut i: usize = 0;
    while i < lines.len()
        invariant
            i <= lines@.len(),
            lines@.len() > 0,
            ls == crate::conflict_rows::strings_view(lines@),
            out@ == base + join_lines(ls.take(i as int)),
        decreases lines@.len() - i,
    {
        if i > 0 {
            crate::text::push_char(&mut out, '\n');
        }
        crate::text::push_str(&mut out, lines[i].as_str());
        proof {
            let t = ls.take(i as int + 1);
            assert(t.drop_last() =~= ls.take(i as int));
            if i == 0 {
                assert(join_lines(ls.take(0)) =~= Seq::<char>::empty());
                assert(join_lines(t) == t[0]);
            }
            assert(out@ =~= base + join_lines(t));
        }
        i = i + 1;
    }
    crate::text::push_char(&mut out, '\n');
    assert(ls.take(lines@.len() as int) =~= ls);
    assert(out@ =~= appended_output(output@, ls));
    out
}

} // verus!

verus! {

// ---------------------------------------------------------------------------
// Autosolve trace summary
// ---------------------------------------------------------------------------

/// How many blocks each autosolve pass resolved in one run.
#[derive(Clone, Copy, Debug, Default, PartialEq, Eq, Structural)]
pub struct ConflictAutosolveStats {
    pub pass1: usize,
    pub pass2_split: usize,
    pub pass1_after_split: usize,
    pub regex: usize,
    pub history: usize,
}

/// `a - b`, or 0 when `b` is larger.
pub open spec fn sat_sub(a: nat, b: nat) -> nat {
    if a >= b {
        (a - b) as nat
    } else {
        0
    }
}

/// The opening words of a summary, naming the rule set.
pub open spec fn summary_intro(mode: crate::conflict::AutosolveTraceMode) -> Seq<char> {
    match mode {
        crate::conflict::AutosolveTraceMode::Safe => "Last autosolve (safe): "@,
        crate::conflict::AutosolveTraceMode::Regex => "Last autosolve (regex): "@,
        crate::conflict::AutosolveTraceMode::History => "Last autosolve (history): "@,
    }
}

/// The counts part of a summary: blocks resolved and unresolved before and after.
pub open spec fn summary_head(before: nat, after: nat) -> Seq<char> {
    let resolved = sat_sub(before, after);
    let word = if resolved == 1 { "block"@ } else { "blocks"@ };
    "resolved "@ + decimal(resolved) + " "@ + word + ", unresolved "@ + decimal(before) + " -> "@
        + decimal(after)
}

/// The per-pass statistics part of a summary.
pub open spec fn summary_tail(
    mode: crate::conflict::AutosolveTraceMode,
    stats: ConflictAutosolveStats,
) -> Seq<char> {
    match mode {
        crate::conflict::AutosolveTraceMode::History => " (history "@ + decimal(
            stats.history as nat,
        ) + ")."@,
        crate::conflict::AutosolveTraceMode::Safe => " (pass1 "@ + decimal(stats.pass1 as nat)
            + ", split "@ + decimal(stats.pass2_split as nat) + ", pass1-after-split "@ + decimal(
            stats.pass1_after_split as nat,
        ) + ")."@,
        crate::conflict::AutosolveTraceMode::Regex => " (pass1 "@ + decimal(stats.pass1 as nat)
            + ", split "@ + decimal(stats.pass2_split as nat) + ", pass1-after-split "@ + decimal(
            stats.pass1_after_split as nat,
        ) + ", regex "@ + decimal(stats.regex as nat) + ")."@,
    }
}

/// The user-facing summary of an autosolve run.
pub open spec fn trace_summary(
    mode: crate::conflict::AutosolveTraceMode,
    before: nat,
    after: nat,
    stats: ConflictAutosolveStats,
) -> Seq<char> {
    summary_intro(mode) + summary_head(before, after) + summary_tail(mode, stats)
}

fn push_summary_head(out: &mut String, before: usize, after: usize)
    ensures
        final(out)@ == old(out)@ + summary_head(before as nat, after as nat),
{
    let ghost o = out@;
    let resolved = before.saturating_sub(after);
    push_str(out, "resolved ");
    push_decimal(out, resolved as u64);
    push_str(out, " ");
    if resolved == 1 {
        push_str(out, "block");
    } else {
        push_str(out, "blocks");
    }
    push_str(out, ", unresolved ");
    push_decimal(out, before as u64);
    push_str(out, " -> ");
    push_decimal(out, after as u64);
    assert(out@ =~= o + summary_head(before as nat, after as nat));
}

fn push_summary_tail(
    out: &mut String,
    mode: crate::conflict::AutosolveTraceMode,
    stats: &ConflictAutosolveStats,
)
    ensures
        final(out)@ == old(out)@ + summary_tail(mode, *stats),
{
    let ghost o = out@;
    match mode {
        crate::conflict::AutosolveTraceMode::History => {
            push_str(out, " (history ");
            push_decimal(out, stats.history as u64);
            push_str(out, ").");
        },
        _ => {
            push_str(out, " (pass1 ");
            push_decimal(out, stats.pass1 as u64);
            push_str(out, ", split ");
            push_decimal(out, stats.pass2_split as u64);
            push_str(out, ", pass1-after-split ");
            push_decimal(out, stats.pass1_after_split as u64);
            if let crate::conflict::AutosolveTraceMode::Regex = mode {
                push_str(out, ", regex ");
                push_decimal(out, stats.regex as u64);
            }
            push_str(out, ").");
        },
    }
    assert(out@ =~= o + summary_tail(mode, *stats));
}

/// Build a user-facing summary for the most recent autosolve run.
///
/// The summary is shown in the resolver UI so autosolve behavior remains
/// auditable without opening command logs.
pub fn format_autosolve_trace_summary(
    mode: crate::conflict::AutosolveTraceMode,
    unresolved_before: usize,
    unresolved_after: usize,
    stats: &ConflictAutosolveStats,
) -> (out: String)
    ensures
        out@ == trace_summary(mode, unresolved_before as nat, unresolved_after as nat, *stats),
{
    let mut out = String::new();
    match mode {
        crate::conflict::AutosolveTraceMode::Safe => push_str(&mut out, "Last autosolve (safe): "),
        crate::conflict::AutosolveTraceMode::Regex => push_str(
            &mut out,
            "Last autosolve (regex): ",
        ),
        crate::conflict::AutosolveTraceMode::History => push_str(
            &mut out,
            "Last autosolve (history): ",
        ),
    }
    assert(out@ =~= summary_intro(mode));
    push_summary_head(&mut out, unresolved_before, unresolved_after);
    push_summary_tail(&mut out, mode, stats);
    out
}

} // verus!

verus! {

// ---------------------------------------------------------------------------
// Laws of the stage-safety check and of appending picked lines
// ---------------------------------------------------------------------------

/// Splitting a text read to the end of a line, then more text: the lines so far followed
/// by those of the rest.
proof fn lemma_lines_acc_append(a: Seq<char>, b: Seq<char>)
    requires
        lines_acc(a).1.len() == 0,
    ensures
        lines_acc(a + b) == (lines_acc(a).0 + lines_acc(b).0, lines_acc(b).1),
    decreases b.len(),
{
    if b.len() == 0 {
        assert(a + b =~= a);
        assert(lines_acc(a).0 + lines_acc(b).0 =~= lines_acc(a).0);
    } else {
        lemma_lines_acc_append(a, b.drop_last());
        assert((a + b).drop_last() =~= a + b.drop_last());
        assert((a + b).last() == b.last());
        let (la, _) = lines_acc(a);
        let (lb, cb) = lines_acc(b.drop_last());
        if b.last() == '\n' {
            assert((la + lb).push(cb.push('\n')) =~= la + lb.push(cb.push('\n')));
        }
    }
}

/// A text without a newline is all unfinished tail.
proof fn lemma_lines_acc_no_nl(l: Seq<char>)
    requires
        forall|q: int| 0 <= q < l.len() ==> l[q] != '\n',
    ensures
        lines_acc(l) == (Seq::<Seq<char>>::empty(), l),
    decreases l.len(),
{
    if l.len() > 0 {
        lemma_lines_acc_no_nl(l.drop_last());
        assert(l.drop_last().push(l.last()) =~= l);
    }
}

/// A line ended with a newline is one finished line.
proof fn lemma_lines_acc_one_line(l: Seq<char>)
    requires
        forall|q: int| 0 <= q < l.len() ==> l[q] != '\n',
    ensures
        lines_acc(l.push('\n')) == (seq![l.push('\n')], Seq::<char>::empty()),
{
    lemma_lines_acc_no_nl(l);
    assert(l.push('\n').drop_last() =~= l);
    assert(Seq::<Seq<char>>::empty().push(l.push('\n')) =~= seq![l.push('\n')]);
}

/// Where the first newline of a text that has one stands.
proof fn lemma_first_nl(t: Seq<char>) -> (j: int)
    requires
        exists|q: int| 0 <= q < t.len() && t[q] == '\n',
    ensures
        0 <= j < t.len(),
        t[j] == '\n',
        forall|q: int| 0 <= q < j ==> t[q] != '\n',
    decreases t.len(),
{
    let p = t.drop_last();
    if exists|q: int| 0 <= q < p.len() && p[q] == '\n' {
        let j = lemma_first_nl(p);
        assert(t[j] == p[j]);
        assert forall|q: int| 0 <= q < j implies t[q] != '\n' by {
            assert(t[q] == p[q]);
        }
        j
    } else {
        let w = choose|q: int| 0 <= q < t.len() && t[q] == '\n';
        if w < t.len() - 1 {
            assert(p[w] == t[w]);
        }
        assert forall|q: int| 0 <= q < t.len() - 1 implies t[q] != '\n' by {
            assert(t[q] == p[q]);
        }
        t.len() - 1
    }
}

/// A marker line starts at `i` of `t`: `i` begins a line, and seven equal marker
/// characters begin there.
spec fn marker_start(t: Seq<char>, i: int) -> bool {
    &&& 0 <= i
    &&& i + 7 <= t.len()
    &&& (i == 0 || t[i - 1] == '\n')
    &&& (t[i] == '<' || t[i] == '=' || t[i] == '>' || t[i] == '|')
    &&& forall|q: int| 0 <= q < 7 ==> #[trigger] t[i + q] == t[i]
}

proof fn lemma_markers_at_line_starts(t: Seq<char>)
    ensures
        has_conflict_markers(t) <==> exists|i: int| #[trigger] marker_start(t, i),
    decreases t.len(),
{
    if exists|q: int| 0 <= q < t.len() && t[q] == '\n' {
        let j = lemma_first_nl(t);
        let a = t.take(j + 1);
        let b = t.skip(j + 1);
        assert(t =~= a + b);
        assert(a =~= a.drop_last().push('\n'));
        lemma_lines_acc_one_line(a.drop_last());
        lemma_lines_acc_append(a, b);
        let lb = split_lines(b);
        assert(split_lines(t) =~= seq![a] + lb);
        lemma_markers_at_line_starts(b);
        // The first line is a marker line exactly when a marker starts the text.
        assert(is_any_marker_line(a) <==> marker_start(t, 0)) by {
            if is_any_marker_line(a) {
                assert(a.len() >= 7);
                assert forall|q: int| 0 <= q < 7 implies #[trigger] t[0 + q] == t[0] by {
                    assert(t[q] == a[q]);
                    assert(t[0] == a[0]);
                }
            }
            if marker_start(t, 0) {
                if j < 6 {
                    assert(t[0 + j] == t[0]);
                    assert(false);
                }
                if t[0] == '<' {
                    assert forall|q: int| 0 <= q < 7 implies #[trigger] a[q] == '<' by {
                        assert(t[0 + q] == t[0]);
                    }
                    assert(is_marker_line(a, '<'));
                } else if t[0] == '=' {
                    assert forall|q: int| 0 <= q < 7 implies #[trigger] a[q] == '=' by {
                        assert(t[0 + q] == t[0]);
                    }
                    assert(is_marker_line(a, '='));
                } else if t[0] == '>' {
                    assert forall|q: int| 0 <= q < 7 implies #[trigger] a[q] == '>' by {
                        assert(t[0 + q] == t[0]);
                    }
                    assert(is_marker_line(a, '>'));
                } else {
                    assert forall|q: int| 0 <= q < 7 implies #[trigger] a[q] == '|' by {
                        assert(t[0 + q] == t[0]);
                    }
                    assert(is_marker_line(a, '|'));
                }
            }
        }
        // Markers of the text after the first line are those of the rest.
        assert forall|i: int| marker_start(b, i) implies #[trigger] marker_start(t, i + j + 1) by {
            assert forall|q: int| 0 <= q < 7 implies #[trigger] t[i + j + 1 + q] == t[i + j + 1] by {
                assert(b[i + q] == b[i]);
            }
            if i > 0 {
                assert(t[i + j] == b[i - 1]);
            }
        }
        assert forall|i: int| marker_start(t, i) && i > 0 implies #[trigger] marker_start(b, i - j - 1) by {
            if i <= j {
                assert(t[i - 1] != '\n');
            }
            assert forall|q: int| 0 <= q < 7 implies #[trigger] b[i - j - 1 + q] == b[i - j - 1] by {
                assert(t[i + q] == t[i]);
            }
        }
        if has_conflict_markers(t) {
            let k = choose|k: int|
                0 <= k < split_lines(t).len() && is_any_marker_line(#[trigger] split_lines(t)[k]);
            if k == 0 {
                assert(marker_start(t, 0));
            } else {
                assert(split_lines(t)[k] == lb[k - 1]);
                assert(has_conflict_markers(b));
                let i = choose|i: int| #[trigger] marker_start(b, i);
                assert(marker_start(t, i + j + 1));
            }
        }
        if exists|i: int| #[trigger] marker_start(t, i) {
            let i = choose|i: int| #[trigger] marker_start(t, i);
            if i == 0 {
                assert(split_lines(t)[0] == a);
                assert(has_conflict_markers(t));
            } else {
                assert(marker_start(b, i - j - 1));
                let k = choose|k: int| 0 <= k < lb.len() && is_any_marker_line(#[trigger] lb[k]);
                assert(split_lines(t)[k + 1] == lb[k]);
                assert(has_conflict_markers(t));
            }
        }
    } else {
        lemma_lines_acc_no_nl(t);
        if t.len() == 0 {
            assert(split_lines(t).len() == 0);
        } else {
            assert(split_lines(t) =~= seq![t]);
            if is_any_marker_line(t) {
                assert forall|q: int| 0 <= q < 7 implies #[trigger] t[0 + q] == t[0] by {}
                assert(marker_start(t, 0));
            }
            if exists|i: int| #[trigger] marker_start(t, i) {
                let i = choose|i: int| #[trigger] marker_start(t, i);
                if i > 0 {
                    assert(t[i - 1] != '\n');
                }
                assert(t[0int + 0int] == t[0]);
                if t[0] == '<' {
                    assert forall|q: int| 0 <= q < 7 implies t[q] == '<' by { assert(t[0 + q] == t[0]); }
                    assert(is_marker_line(t, '<'));
                } else if t[0] == '=' {
                    assert forall|q: int| 0 <= q < 7 implies t[q] == '=' by { assert(t[0 + q] == t[0]); }
                    assert(is_marker_line(t, '='));
                } else if t[0] == '>' {
                    assert forall|q: int| 0 <= q < 7 implies t[q] == '>' by { assert(t[0 + q] == t[0]); }
                    assert(is_marker_line(t, '>'));
                } else {
                    assert forall|q: int| 0 <= q < 7 implies t[q] == '|' by { assert(t[0 + q] == t[0]); }
                    assert(is_marker_line(t, '|'));
                }
                assert(split_lines(t)[0] == t);
            }
        }
    }
}

/// The stage-safety check finds conflict markers exactly where git writes them: it
/// reports markers when, and only when, some line of the text (the text's start, or the
/// character after a newline) begins with seven `<`, `=`, `>` or `|` characters, on any
/// line however far down.
pub proof fn law_markers_found_on_every_line(text: Seq<char>)
    ensures
        has_conflict_markers(text) <==> exists|i: int|
            #![trigger text[i]]
            0 <= i && i + 7 <= text.len() && (i == 0 || text[i - 1] == '\n') && (text[i] == '<'
                || text[i] == '=' || text[i] == '>' || text[i] == '|') && forall|q: int|
                0 <= q < 7 ==> #[trigger] text[i + q] == text[i],
{
    lemma_markers_at_line_starts(text);
    if exists|i: int| #[trigger] marker_start(text, i) {
        let i = choose|i: int| #[trigger] marker_start(text, i);
        assert(text[i] == text[i]);
    }
    if exists|i: int|
        #![trigger text[i]]
        0 <= i && i + 7 <= text.len() && (i == 0 || text[i - 1] == '\n') && (text[i] == '<' || text[i]
            == '=' || text[i] == '>' || text[i] == '|') && forall|q: int|
            0 <= q < 7 ==> #[trigger] text[i + q] == text[i] {
        let i = choose|i: int|
            #![trigger text[i]]
            0 <= i && i + 7 <= text.len() && (i == 0 || text[i - 1] == '\n') && (text[i] == '<'
                || text[i] == '=' || text[i] == '>' || text[i] == '|') && forall|q: int|
                0 <= q < 7 ==> #[trigger] text[i + q] == text[i];
        assert(marker_start(text, i));
    }
}

/// Lines without newlines, joined and ended with a newline, split back into those lines
/// each ended with a newline.
proof fn lemma_lines_acc_joined(ls: Seq<Seq<char>>)
    requires
        ls.len() > 0,
        forall|k: int, q: int| 0 <= k < ls.len() && 0 <= q < ls[k].len() ==> #[trigger] ls[k][q] != '\n',
    ensures
        lines_acc(join_lines(ls).push('\n')) == (
            ls.map_values(|l: Seq<char>| l.push('\n')),
            Seq::<char>::empty(),
        ),
    decreases ls.len(),
{
    let f = |l: Seq<char>| l.push('\n');
    let last = ls.last();
    assert forall|q: int| 0 <= q < last.len() implies last[q] != '\n' by {
        assert(ls[ls.len() - 1][q] != '\n');
    }
    lemma_lines_acc_one_line(last);
    if ls.len() == 1 {
        assert(join_lines(ls) == ls[0]);
        assert(ls.map_values(f) =~= seq![last.push('\n')]);
    } else {
        let d = ls.drop_last();
        assert forall|k: int, q: int| 0 <= k < d.len() && 0 <= q < d[k].len() implies #[trigger] d[k][q]
            != '\n' by {
            assert(d[k] == ls[k]);
        }
        lemma_lines_acc_joined(d);
        let a = join_lines(d).push('\n');
        assert(join_lines(ls).push('\n') =~= a + last.push('\n'));
        lemma_lines_acc_append(a, last.push('\n'));
        assert(d.map_values(f) + seq![last.push('\n')] =~= ls.map_values(f));
    }
}

/// Appending picked lines keeps what the output holds and adds exactly those lines: the
/// output is a prefix of the result, and the result's lines are the output's lines (its
/// last one ended with a newline when it had none, and nothing added before the first
/// line of an empty output) followed by each picked line on a line of its own, the last
/// one ended with a newline too.
pub proof fn law_appended_lines_follow_output(o: Seq<char>, ls: Seq<Seq<char>>)
    requires
        forall|k: int, q: int| 0 <= k < ls.len() && 0 <= q < ls[k].len() ==> #[trigger] ls[k][q] != '\n',
    ensures
        ls.len() == 0 ==> appended_output(o, ls) == o,
        ls.len() > 0 ==> ({
            let r = appended_output(o, ls);
            let before = split_lines(o);
            let after = split_lines(r);
            &&& r.take(o.len() as int) == o
            &&& r.len() > 0 && r.last() == '\n'
            &&& after.len() == before.len() + ls.len()
            &&& forall|k: int|
                0 <= k < before.len() ==> #[trigger] after[k] == if before[k].last() == '\n' {
                    before[k]
                } else {
                    before[k].push('\n')
                }
            &&& forall|k: int| 0 <= k < ls.len() ==> #[trigger] after[before.len() + k] == ls[k].push('\n')
        }),
{
    if ls.len() > 0 {
        let f = |l: Seq<char>| l.push('\n');
        let r = appended_output(o, ls);
        let jl = join_lines(ls).push('\n');
        lemma_lines_acc_joined(ls);
        crate::text::lemma_lines_acc(o);
        let (lo, cur) = lines_acc(o);
        assert(r.take(o.len() as int) =~= o);
        if o.len() > 0 && o.last() != '\n' {
            let c = o.push('\n');
            assert(r =~= c + jl);
            assert(c.drop_last() =~= o);
            assert(lines_acc(c) == (lo.push(cur.push('\n')), Seq::<char>::empty()));
            lemma_lines_acc_append(c, jl);
            assert(cur.len() > 0 && cur.last() == o.last()) by {
                let p = o.drop_last();
                assert(o =~= p.push(o.last()));
            }
            assert(split_lines(o) == lo.push(cur));
            assert(split_lines(r) =~= lo.push(cur.push('\n')) + ls.map_values(f));
            assert forall|k: int| 0 <= k < split_lines(o).len() implies #[trigger] split_lines(r)[k] == if split_lines(o)[k].last() == '\n' {
                split_lines(o)[k]
            } else {
                split_lines(o)[k].push('\n')
            } by {
                if k < lo.len() {
                    assert(lo[k].last() == '\n');
                }
            }
        } else {
            assert(r =~= o + jl);
            if o.len() > 0 {
                assert(o =~= o.drop_last().push(o.last()));
            }
            assert(cur.len() == 0);
            lemma_lines_acc_append(o, jl);
            assert(split_lines(o) == lo);
            assert(split_lines(r) =~= lo + ls.map_values(f));
            assert forall|k: int| 0 <= k < split_lines(o).len() implies #[trigger] split_lines(r)[k] == if split_lines(o)[k].last() == '\n' {
                split_lines(o)[k]
            } else {
                split_lines(o)[k].push('\n')
            } by {
                assert(lo[k].last() == '\n');
            }
        }
        assert(r.last() == '\n');
    }
}

} // verus!
