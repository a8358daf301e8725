use vstd::prelude::*;
use crate::conflict_rows::{ConflictInlineRow, DiffLineKind, FileDiffRow, FileDiffRowKind};

verus! {

/// Scanning the first `k` entries from the back, the first one below `current`.
pub open spec fn last_below(entries: Seq<usize>, current: usize, k: int) -> Option<usize>
    decreases k,
{
    if k <= 0 || k > entries.len() {
        None
    } else if entries[k - 1] < current {
        Some(entries[k - 1])
    } else {
        last_below(entries, current, k - 1)
    }
}

/// Scanning the entries from position `k` on, the first one above `current`.
pub open spec fn first_above(entries: Seq<usize>, current: usize, k: int) -> Option<usize>
    decreases entries.len() - k,
{
    if k < 0 || k >= entries.len() {
        None
    } else if entries[k] > current {
        Some(entries[k])
    } else {
        first_above(entries, current, k + 1)
    }
}

/// The entry before `current` to jump to: the last entry (in list order) below
/// `current`. No wrapping.
pub fn diff_nav_prev_target(entries: &[usize], current: usize) -> (r: Option<usize>)
    ensures
        match r {
            Some(x) => exists|k: int|
                0 <= k < entries@.len() && entries@[k] == x && x < current && forall|j: int|
                    k < j < entries@.len() ==> entries@[j] >= current,
            None => forall|k: int| 0 <= k < entries@.len() ==> entries@[k] >= current,
        },
        r == last_below(entries@, current, entries@.len() as int),
{
    let mut k: usize = entries.len();
    while k > 0
        invariant
            k <= entries@.len(),
            forall|j: int| k <= j < entries@.len() ==> entries@[j] >= current,
            last_below(entries@, current, entries@.len() as int) == last_below(entries@, current, k as int),
        decreases k,
    {
        if entries[k - 1] < current {
            return Some(entries[k - 1]);
        }
        k = k - 1;
    }
    None
}

/// The entry after `current` to jump to: the first entry (in list order)
/// above `current`. No wrapping.
pub fn diff_nav_next_target(entries: &[usize], current: usize) -> (r: Option<usize>)
    ensures
        match r {
            Some(x) => exists|k: int|
                0 <= k < entries@.len() && entries@[k] == x && x > current && forall|j: int|
                    0 <= j < k ==> entries@[j] <= current,
            None => forall|k: int| 0 <= k < entries@.len() ==> entries@[k] <= current,
        },
        r == first_above(entries@, current, 0),
{
    let mut k: usize = 0;
    while k < entries.len()
        invariant
            k <= entries@.len(),
            forall|j: int| 0 <= j < k ==> entries@[j] <= current,
            first_above(entries@, current, 0) == first_above(entries@, current, k as int),
        decreases entries@.len() - k,
    {
        if entries[k] > current {
            return Some(entries[k]);
        }
        k = k + 1;
    }
    None
}

/// The indices where a run of changed rows starts.
pub open spec fn block_starts(flags: Seq<bool>) -> Seq<usize>
    decreases flags.len(),
{
    if flags.len() == 0 {
        Seq::empty()
    } else {
        let prev = block_starts(flags.drop_last());
        if flags.last() && (flags.len() == 1 || !flags[flags.len() - 2]) {
            prev.push((flags.len() - 1) as usize)
        } else {
            prev
        }
    }
}

/// The start of each run of rows for which `is_change` holds, in order.
pub fn conflict_nav_entries<T>(rows: &[T], is_change: impl Fn(&T) -> bool) -> (out: Vec<usize>)
    requires
        forall|i: int| 0 <= i < rows@.len() ==> call_requires(is_change, (&rows@[i],)),
    ensures
        exists|flags: Seq<bool>|
            {
                &&& flags.len() == rows@.len()
                &&& forall|i: int|
                    0 <= i < rows@.len() ==> call_ensures(is_change, (&rows@[i],), #[trigger] flags[i])
                &&& out@ == block_starts(flags)
            },
{
    let mut out: Vec<usize> = Vec::new();
    let mut in_block = false;
    let ghost mut flags: Seq<bool> = Seq::empty();
    let mut ix: usize = 0;
    while ix < rows.len()
        invariant
            ix <= rows@.len(),
            forall|i: int| 0 <= i < rows@.len() ==> call_requires(is_change, (&rows@[i],)),
            flags.len() == ix,
            forall|i: int| 0 <= i < ix ==> call_ensures(is_change, (&rows@[i],), #[trigger] flags[i]),
            out@ == block_starts(flags),
            in_block == (ix > 0 && flags[ix - 1]),
        decreases rows@.len() - ix,
    {
        let c = is_change(&rows[ix]);
        proof {
            let nf = flags.push(c);
            assert(nf.drop_last() =~= flags);
            flags = nf;
        }
        if c && !in_block {
            out.push(ix);
            in_block = true;
        } else if !c {
            in_block = false;
        }
        ix = ix + 1;
    }
    out
}

/// The start of each run of indices below `len` for which `is_change` holds, in order.
pub fn change_block_entries(len: usize, is_change: impl Fn(usize) -> bool) -> (out: Vec<usize>)
    requires
        forall|i: usize| i < len ==> call_requires(is_change, (i,)),
    ensures
        exists|flags: Seq<bool>|
            {
                &&& flags.len() == len
                &&& forall|i: int|
                    0 <= i < len ==> call_ensures(is_change, (i as usize,), #[trigger] flags[i])
                &&& out@ == block_starts(flags)
            },
{
    let mut out: Vec<usize> = Vec::new();
    let mut in_block = false;
    let ghost mut flags: Seq<bool> = Seq::empty();
    let mut ix: usize = 0;
    while ix < len
        invariant
            ix <= len,
            forall|i: usize| i < len ==> call_requires(is_change, (i,)),
            flags.len() == ix,
            forall|i: int| 0 <= i < ix ==> call_ensures(is_change, (i as usize,), #[trigger] flags[i]),
            out@ == block_starts(flags),
            in_block == (ix > 0 && flags[ix - 1]),
        decreases len - ix,
    {
        let c = is_change(ix);
        proof {
            let nf = flags.push(c);
            assert(nf.drop_last() =~= flags);
            flags = nf;
        }
        if c && !in_block {
            out.push(ix);
            in_block = true;
        } else if !c {
            in_block = false;
        }
        ix = ix + 1;
    }
    out
}

/// Where each change block starts in the split (side-by-side) rows: runs of
/// rows that are not context.
pub fn conflict_nav_entries_for_split(rows: &[FileDiffRow]) -> (out: Vec<usize>)
    ensures
        out@ == block_starts(rows@.map_values(|r: FileDiffRow| r.kind != FileDiffRowKind::Context)),
{
    let is_change = |row: &FileDiffRow| -> (b: bool)
        ensures
            b == (row.kind != FileDiffRowKind::Context),
        { row.kind != FileDiffRowKind::Context };
    let out = conflict_nav_entries(rows, is_change);
    proof {
        let flags = choose|flags: Seq<bool>|
            {
                &&& flags.len() == rows@.len()
                &&& forall|i: int|
                    0 <= i < rows@.len() ==> call_ensures(is_change, (&rows@[i],), #[trigger] flags[i])
                &&& out@ == block_starts(flags)
            };
        assert(flags =~= rows@.map_values(|r: FileDiffRow| r.kind != FileDiffRowKind::Context));
    }
    out
}

/// Where each change block starts in the inline rows: runs of rows that are not context.
pub fn conflict_nav_entries_for_inline(rows: &[ConflictInlineRow]) -> (out: Vec<usize>)
    ensures
        out@ == block_starts(rows@.map_values(|r: ConflictInlineRow| r.kind != DiffLineKind::Context)),
{
    let is_change = |row: &ConflictInlineRow| -> (b: bool)
        ensures
            b == (row.kind != DiffLineKind::Context),
        { row.kind != DiffLineKind::Context };
    let out = conflict_nav_entries(rows, is_change);
    proof {
        let flags = choose|flags: Seq<bool>|
            {
                &&& flags.len() == rows@.len()
                &&& forall|i: int|
                    0 <= i < rows@.len() ==> call_ensures(is_change, (&rows@[i],), #[trigger] flags[i])
                &&& out@ == block_starts(flags)
            };
        assert(flags =~= rows@.map_values(|r: ConflictInlineRow| r.kind != DiffLineKind::Context));
    }
    out
}

} // verus!
