use vstd::prelude::*;
use crate::branch_sidebar::{sorted_insert_exec, sorted_unique};
use crate::date_time::{datetime_utc_text, format_datetime_utc, DateTimeFormat};
use crate::diff_text::char_at_byte;
use crate::text::{chars_eq, chars_to_string, extend_chars, str_to_chars};
use crate::word_diff::{byte_offset, char_boundary};

verus! {

/// What the history view was (or is being) built for: the repository, a fingerprint of its
/// log, the revisions of its head branch, branches and tags, and the date format.
#[derive(Clone, Copy, Debug, PartialEq, Eq, Structural)]
pub struct HistoryCacheRequest {
    pub repo_id: u64,
    pub log_fingerprint: u64,
    pub head_branch_rev: u64,
    pub branches_rev: u64,
    pub tags_rev: u64,
    pub date_time_format: DateTimeFormat,
}

/// What bringing the history view up to date needs.
#[derive(Clone, Copy, Debug, PartialEq, Eq, Structural)]
pub enum HistoryCacheNext {
    /// No repository with a loaded log: drop the built view.
    Clear,
    /// The built view is for the current request.
    CacheOk,
    /// A build for the current request is under way.
    Inflight,
    /// A build for the current request is to be started.
    Build,
}

/// The state of building the history view: the request the built view is for, the request
/// a build is under way for, and the number of the latest build started.
#[derive(Clone, Copy, Debug, PartialEq, Eq)]
pub struct HistoryCacheState {
    pub cached: Option<HistoryCacheRequest>,
    pub inflight: Option<HistoryCacheRequest>,
    pub seq: u64,
}

/// What the history view needs for the `current` request (none without a repository whose
/// log is loaded).
pub open spec fn next_step(state: HistoryCacheState, current: Option<HistoryCacheRequest>) -> HistoryCacheNext {
    match current {
        None => HistoryCacheNext::Clear,
        Some(r) => if state.cached == Some(r) {
            HistoryCacheNext::CacheOk
        } else if state.inflight == Some(r) {
            HistoryCacheNext::Inflight
        } else {
            HistoryCacheNext::Build
        },
    }
}

/// The number after `seq`, wrapping around.
pub open spec fn next_seq(seq: u64) -> u64 {
    if seq == u64::MAX {
        0
    } else {
        (seq + 1) as u64
    }
}

/// Brings the history view up to date with `current`: drops it without a loaded log,
/// forgets a build under way once the view is current, and otherwise starts a build when
/// none is under way for `current`, returning the new build's number for the caller to run
/// it under.
pub fn ensure_history_cache(state: &mut HistoryCacheState, current: Option<HistoryCacheRequest>) -> (started: Option<u64>)
    ensures
        match next_step(*old(state), current) {
            HistoryCacheNext::Clear => started is None && *final(state) == (HistoryCacheState {
                cached: None,
                inflight: None,
                seq: old(state).seq,
            }),
            HistoryCacheNext::CacheOk => started is None && *final(state) == (HistoryCacheState {
                inflight: None,
                ..*old(state)
            }),
            HistoryCacheNext::Inflight => started is None && *final(state) == *old(state),
            HistoryCacheNext::Build => started == Some(next_seq(old(state).seq)) && *final(state) == (
            HistoryCacheState {
                cached: old(state).cached,
                inflight: current,
                seq: next_seq(old(state).seq),
            }),
        },
{
    match current {
        None => {
            state.inflight = None;
            state.cached = None;
            None
        },
        Some(r) => {
            if state.cached == Some(r) {
                state.inflight = None;
                None
            } else if state.inflight == Some(r) {
                None
            } else {
                state.seq = state.seq.wrapping_add(1);
                state.inflight = Some(r);
                Some(state.seq)
            }
        },
    }
}

/// Takes a finished build: it becomes the built view only when it is the latest build,
/// still the one under way, and its repository is still the active one.
pub fn accept_history_cache(
    state: &mut HistoryCacheState,
    seq: u64,
    request: HistoryCacheRequest,
    active_repo_id: Option<u64>,
) -> (accepted: bool)
    ensures
        accepted == (old(state).seq == seq && old(state).inflight == Some(request) && active_repo_id
            == Some(request.repo_id)),
        accepted ==> *final(state) == (HistoryCacheState {
            cached: Some(request),
            inflight: None,
            seq: old(state).seq,
        }),
        !accepted ==> *final(state) == *old(state),
{
    if state.seq != seq {
        return false;
    }
    if state.inflight != Some(request) {
        return false;
    }
    if active_repo_id != Some(request.repo_id) {
        return false;
    }
    state.inflight = None;
    state.cached = Some(request);
    true
}

/// A build that is taken leaves the history view current: asking again for the same
/// request needs nothing more; a build whose number is not the latest is never taken.
pub proof fn law_accepted_build_is_current(
    state: HistoryCacheState,
    request: HistoryCacheRequest,
    seq: u64,
    active_repo_id: Option<u64>,
)
    ensures
        ({
            let accepted = state.seq == seq && state.inflight == Some(request) && active_repo_id
                == Some(request.repo_id);
            let after = HistoryCacheState { cached: Some(request), inflight: None, seq: state.seq };
            &&& accepted ==> next_step(after, Some(request)) == HistoryCacheNext::CacheOk
            &&& seq != state.seq ==> !accepted
        }),
{
}

} // verus!

verus! {

/// A commit of the history: its id and its time in seconds since the Unix epoch.
#[derive(Clone, Debug, PartialEq, Eq)]
pub struct HistoryCommit {
    pub id: String,
    pub time: i64,
}

/// A branch or tag: its name and the commit it points at.
#[derive(Clone, Debug, PartialEq, Eq)]
pub struct RefTarget {
    pub name: String,
    pub target: String,
}

/// What a row of the history shows besides the graph: the branches at the commit, its
/// tags, its date, and its short id.
#[derive(Clone, Debug, PartialEq, Eq)]
pub struct HistoryCommitRowVm {
    pub branches_text: String,
    pub tag_names: Vec<String>,
    pub when: String,
    pub short_sha: String,
}

/// The texts of a list of strings.
pub open spec fn texts(v: Seq<String>) -> Seq<Seq<char>> {
    v.map_values(|s: String| s@)
}

/// The value of a history row.
pub open spec fn row_vm_view(r: HistoryCommitRowVm) -> (Seq<char>, Seq<Seq<char>>, Seq<char>, Seq<char>) {
    (r.branches_text@, texts(r.tag_names@), r.when@, r.short_sha@)
}

/// The commit the first branch named `head` points at, among the branches from `i` on.
pub open spec fn head_target(branches: Seq<RefTarget>, head: Seq<char>, i: int) -> Option<Seq<char>>
    decreases branches.len() - i,
{
    if i < 0 || i >= branches.len() {
        None
    } else if branches[i].name@ == head {
        Some(branches[i].target@)
    } else {
        head_target(branches, head, i + 1)
    }
}

/// The label of the head branch in the history: `HEAD → ` and its name.
pub open spec fn head_label(head: Seq<char>) -> Seq<char> {
    seq!['H', 'E', 'A', 'D', ' ', '→', ' '] + head
}

/// The head branch is left out of the branch names where its label stands instead.
pub open spec fn skipped(b: RefTarget, head: Option<Seq<char>>, ht: Option<Seq<char>>) -> bool {
    match head {
        Some(h) => b.name@ == h && ht == Some(b.target@),
        None => false,
    }
}

/// The names of the first `n` refs that point at `id` (and are not skipped), in order.
pub open spec fn names_at(
    refs: Seq<RefTarget>,
    id: Seq<char>,
    head: Option<Seq<char>>,
    ht: Option<Seq<char>>,
    n: int,
) -> Seq<Seq<char>>
    decreases n,
{
    if n <= 0 {
        Seq::empty()
    } else {
        names_at(refs, id, head, ht, n - 1) + if refs[n - 1].target@ == id && !skipped(
            refs[n - 1],
            head,
            ht,
        ) {
            seq![refs[n - 1].name@]
        } else {
            Seq::empty()
        }
    }
}

/// The names joined with `, `.
pub open spec fn joined(names: Seq<Seq<char>>) -> Seq<char>
    decreases names.len(),
{
    if names.len() == 0 {
        Seq::empty()
    } else if names.len() == 1 {
        names[0]
    } else {
        joined(names.drop_last()) + seq![',', ' '] + names.last()
    }
}

/// The branch text of a commit: the head label where the head branch points, and the other
/// branches pointing there, sorted, each once, joined with `, `.
pub open spec fn branches_text(
    id: Seq<char>,
    head: Option<Seq<char>>,
    branches: Seq<RefTarget>,
) -> Seq<char> {
    let ht = match head {
        Some(h) => head_target(branches, h, 0),
        None => None,
    };
    let first = if ht == Some(id) && head is Some {
        seq![head_label(head.unwrap())]
    } else {
        Seq::empty()
    };
    let candidates = first + names_at(branches, id, head, ht, branches.len() as int);
    joined(sorted_unique(candidates, candidates.len() as int))
}

/// The tags of a commit, sorted, each once.
pub open spec fn tag_names_at(id: Seq<char>, tags: Seq<RefTarget>) -> Seq<Seq<char>> {
    let ns = names_at(tags, id, None, None, tags.len() as int);
    sorted_unique(ns, ns.len() as int)
}

/// The short form of a commit id: its first eight bytes, or the whole id where those do not
/// end on a character.
pub open spec fn short_sha(id: Seq<char>) -> Seq<char> {
    if char_boundary(id, 8) {
        id.take(char_at_byte(id, 8))
    } else {
        id
    }
}

/// The row of a commit in the history.
pub open spec fn row_vm(
    c: HistoryCommit,
    head: Option<Seq<char>>,
    branches: Seq<RefTarget>,
    tags: Seq<RefTarget>,
    format: DateTimeFormat,
) -> (Seq<char>, Seq<Seq<char>>, Seq<char>, Seq<char>) {
    (
        branches_text(c.id@, head, branches),
        tag_names_at(c.id@, tags),
        datetime_utc_text(c.time as int, format),
        short_sha(c.id@),
    )
}

fn head_target_exec(branches: &[RefTarget], head: &Vec<char>) -> (r: Option<Vec<char>>)
    ensures
        match r {
            Some(t) => head_target(branches@, head@, 0) == Some(t@),
            None => head_target(branches@, head@, 0) is None,
        },
{
    let mut i: usize = 0;
    while i < branches.len()
        invariant
            i <= branches@.len(),
            head_target(branches@, head@, 0) == head_target(branches@, head@, i as int),
        decreases branches@.len() - i,
    {
        let name = str_to_chars(branches[i].name.as_str());
        if chars_eq(&name, head) {
            return Some(str_to_chars(branches[i].target.as_str()));
        }
        i = i + 1;
    }
    None
}

fn names_at_exec(
    refs: &[RefTarget],
    id: &Vec<char>,
    head: &Option<Vec<char>>,
    ht: &Option<Vec<char>>,
    out: &mut Vec<String>,
)
    ensures
        texts(final(out)@) == texts(old(out)@) + names_at(
            refs@,
            id@,
            match head {
                Some(h) => Some(h@),
                None => None,
            },
            match ht {
                Some(t) => Some(t@),
                None => None,
            },
            refs@.len() as int,
        ),
{
    let ghost hv = match head {
        Some(h) => Some(h@),
        None => None::<Seq<char>>,
    };
    let ghost htv = match ht {
        Some(t) => Some(t@),
        None => None::<Seq<char>>,
    };
    let ghost o0 = texts(out@);
    let mut i: usize = 0;
    while i < refs.len()
        invariant
            i <= refs@.len(),
            hv == match head {
                Some(h) => Some(h@),
                None => None::<Seq<char>>,
            },
            htv == match ht {
                Some(t) => Some(t@),
                None => None::<Seq<char>>,
            },
            texts(out@) == o0 + names_at(refs@, id@, hv, htv, i as int),
        decreases refs@.len() - i,
    {
        let target = str_to_chars(refs[i].target.as_str());
        let name = str_to_chars(refs[i].name.as_str());
        let skip = match head {
            Some(h) => chars_eq(&name, h) && match ht {
                Some(t) => chars_eq(t, &target),
                None => false,
            },
            None => false,
        };
        let ghost before = texts(out@);
        if chars_eq(&target, id) && !skip {
            out.push(refs[i].name.clone());
            assert(texts(out@) =~= before.push(refs@[i as int].name@));
        }
        assert(texts(out@) =~= o0 + names_at(refs@, id@, hv, htv, i + 1));
        i = i + 1;
    }
}

fn sort_unique_exec(v: &Vec<String>) -> (out: Vec<String>)
    ensures
        texts(out@) == sorted_unique(texts(v@), v@.len() as int),
{
    let mut out: Vec<String> = Vec::new();
    let mut i: usize = 0;
    while i < v.len()
        invariant
            i <= v@.len(),
            texts(out@) == sorted_unique(texts(v@), i as int),
        decreases v@.len() - i,
    {
        sorted_insert_exec(&mut out, &v[i]);
        i = i + 1;
    }
    out
}

fn join_exec(names: &Vec<String>) -> (out: String)
    ensures
        out@ == joined(texts(names@)),
{
    let mut acc: Vec<char> = Vec::new();
    let mut i: usize = 0;
    while i < names.len()
        invariant
            i <= names@.len(),
            acc@ == joined(texts(names@).take(i as int)),
        decreases names@.len() - i,
    {
        let c = str_to_chars(names[i].as_str());
        let ghost prev = texts(names@).take(i as int);
        assert(texts(names@).take(i + 1).drop_last() =~= prev);
        if i > 0 {
            acc.push(',');
            acc.push(' ');
        }
        extend_chars(&mut acc, &c);
        proof {
            let nt = texts(names@).take(i + 1);
            if i == 0 {
                assert(acc@ =~= nt[0]);
            } else {
                assert(acc@ =~= joined(prev) + seq![',', ' '] + nt.last());
            }
        }
        i = i + 1;
    }
    assert(texts(names@).take(i as int) =~= texts(names@));
    chars_to_string(&acc)
}

pub(crate) fn short_sha_exec(id: &String) -> (out: String)
    ensures
        out@ == short_sha(id@),
{
    let cs = str_to_chars(id.as_str());
    let n = cs.len();
    let mut k: usize = 0;
    let mut acc: usize = 0;
    while k < n && acc < 8
        invariant
            n == cs@.len(),
            cs@ == id@,
            k <= n,
            acc == byte_offset(cs@, k as int),
            forall|j: int| 0 <= j < k ==> byte_offset(cs@, j) < 8,
        decreases n - k,
    {
        let c = cs[k];
        let w: usize = if (c as u32) < 0x80 {
            1
        } else if (c as u32) < 0x800 {
            2
        } else if (c as u32) < 0x10000 {
            3
        } else {
            4
        };
        acc = acc + w;
        k = k + 1;
    }
    proof {
        lemma_boundary_scan(cs@, k as int);
    }
    if acc == 8 {
        proof {
            crate::diff_text::lemma_char_at_byte_pub(cs@, k as int);
        }
        let v = crate::text::sub_chars(&cs, 0, k);
        assert(v@ =~= cs@.take(k as int));
        chars_to_string(&v)
    } else {
        chars_to_string(&cs)
    }
}

proof fn lemma_boundary_scan(cs: Seq<char>, k: int)
    requires
        0 <= k <= cs.len(),
        forall|j: int| 0 <= j < k ==> byte_offset(cs, j) < 8,
        k == cs.len() || byte_offset(cs, k) >= 8,
    ensures
        char_boundary(cs, 8) <==> byte_offset(cs, k) == 8,
{
    if byte_offset(cs, k) == 8 {
        assert(char_boundary(cs, 8));
    } else if char_boundary(cs, 8) {
        let j = choose|j: int| 0 <= j <= cs.len() && byte_offset(cs, j) == 8;
        if j < k {
        } else if j > k {
            crate::diff_text::lemma_byte_offset_strict_pub(cs, k, j);
        }
    }
}

/// The rows of the history for `commits`, in order (see `row_vm`).
pub fn history_commit_row_vms(
    commits: &[HistoryCommit],
    head_branch: &Option<String>,
    branches: &[RefTarget],
    tags: &[RefTarget],
    format: DateTimeFormat,
) -> (rows: Vec<HistoryCommitRowVm>)
    ensures
        rows@.len() == commits@.len(),
        forall|i: int|
            0 <= i < commits@.len() ==> row_vm_view(#[trigger] rows@[i]) == row_vm(
                commits@[i],
                match head_branch {
                    Some(h) => Some(h@),
                    None => None,
                },
                branches@,
                tags@,
                format,
            ),
{
    let head: Option<Vec<char>> = match head_branch {
        Some(h) => Some(str_to_chars(h.as_str())),
        None => None,
    };
    let ht: Option<Vec<char>> = match &head {
        Some(h) => head_target_exec(branches, h),
        None => None,
    };
    let ghost hv = match head_branch {
        Some(h) => Some(h@),
        None => None::<Seq<char>>,
    };
    let ghost htv = match hv {
        Some(h) => head_target(branches@, h, 0),
        None => None,
    };
    proof {
        assert(match head {
            Some(h) => Some(h@),
            None => None::<Seq<char>>,
        } == hv);
        assert(match ht {
            Some(t) => Some(t@),
            None => None::<Seq<char>>,
        } == htv);
    }
    let no_head: Option<Vec<char>> = None;
    let mut rows: Vec<HistoryCommitRowVm> = Vec::new();
    let mut i: usize = 0;
    while i < commits.len()
        invariant
            i <= commits@.len(),
            rows@.len() == i,
            hv == match head_branch {
                Some(h) => Some(h@),
                None => None::<Seq<char>>,
            },
            hv == match head {
                Some(h) => Some(h@),
                None => None::<Seq<char>>,
            },
            htv == match ht {
                Some(t) => Some(t@),
                None => None::<Seq<char>>,
            },
            htv == match hv {
                Some(h) => head_target(branches@, h, 0),
                None => None,
            },
            no_head is None,
            forall|j: int|
                0 <= j < i ==> row_vm_view(#[trigger] rows@[j]) == row_vm(commits@[j], hv, branches@, tags@, format),
        decreases commits@.len() - i,
    {
        let c = &commits[i];
        let id = str_to_chars(c.id.as_str());
        let mut candidates: Vec<String> = Vec::new();
        let at_head = match (&ht, head_branch) {
            (Some(t), Some(_)) => chars_eq(t, &id),
            _ => false,
        };
        if at_head {
            match head_branch {
                Some(h) => {
                    let mut label: Vec<char> = vec!['H', 'E', 'A', 'D', ' ', '→', ' '];
                    let hc = str_to_chars(h.as_str());
                    extend_chars(&mut label, &hc);
                    assert(label@ =~= head_label(h@));
                    candidates.push(chars_to_string(&label));
                },
                None => {},
            }
        }
        let ghost first = texts(candidates@);
        names_at_exec(branches, &id, &head, &ht, &mut candidates);
        let names = sort_unique_exec(&candidates);
        let branches_text = join_exec(&names);
        let mut tag_list: Vec<String> = Vec::new();
        names_at_exec(tags, &id, &no_head, &no_head, &mut tag_list);
        let tag_names = sort_unique_exec(&tag_list);
        let when = format_datetime_utc(c.time, format);
        let short = short_sha_exec(&c.id);
        proof {
            let f = if htv == Some(c.id@) && hv is Some {
                seq![head_label(hv.unwrap())]
            } else {
                Seq::<Seq<char>>::empty()
            };
            assert(first =~= f);
            assert(texts(tag_list@) =~= names_at(tags@, c.id@, None, None, tags@.len() as int));
        }
        let ghost before = rows@;
        rows.push(HistoryCommitRowVm { branches_text, tag_names, when, short_sha: short });
        assert forall|j: int| 0 <= j < i + 1 implies row_vm_view(#[trigger] rows@[j]) == row_vm(
            commits@[j],
            hv,
            branches@,
            tags@,
            format,
        ) by {
            if j < i {
                assert(rows@[j] == before[j]);
            }
        }
        i = i + 1;
    }
    rows
}

} // verus!

verus! {

/// The ids that fingerprint a history, in the order they are hashed: the first three,
/// then the last three from the end backwards (fewer when the history is shorter).
pub open spec fn fingerprint_ids(ids: Seq<Seq<char>>) -> Seq<Seq<char>> {
    let k = vstd::math::min(3, ids.len() as int);
    ids.take(k) + ids.skip(ids.len() - k).reverse()
}

/// What a history's fingerprint is made of, cheap even for a long history: its length and
/// `fingerprint_ids`; the caller hashes them in this order.
pub fn log_fingerprint_parts(ids: &[String]) -> (r: (usize, Vec<String>))
    ensures
        r.0 == ids@.len(),
        crate::text::strings_v(r.1@) == fingerprint_ids(crate::text::strings_v(ids@)),
{
    let ghost v = crate::text::strings_v(ids@);
    let n = ids.len();
    let k: usize = if n < 3 {
        n
    } else {
        3
    };
    let mut out: Vec<String> = Vec::new();
    let mut i: usize = 0;
    while i < k
        invariant
            i <= k,
            k <= n,
            n == ids@.len(),
            v == crate::text::strings_v(ids@),
            crate::text::strings_v(out@) == v.take(i as int),
        decreases k - i,
    {
        let ghost before = crate::text::strings_v(out@);
        out.push(ids[i].clone());
        assert(crate::text::strings_v(out@) =~= before.push(v[i as int]));
        assert(v.take(i + 1) =~= v.take(i as int).push(v[i as int]));
        i = i + 1;
    }
    let ghost first = crate::text::strings_v(out@);
    let mut j: usize = 0;
    while j < k
        invariant
            j <= k,
            k <= n,
            n == ids@.len(),
            v == crate::text::strings_v(ids@),
            first == v.take(k as int),
            crate::text::strings_v(out@) == first + v.skip(n - k).reverse().take(j as int),
        decreases k - j,
    {
        let ghost before = crate::text::strings_v(out@);
        out.push(ids[n - 1 - j].clone());
        assert(v.skip(n - k).reverse()[j as int] == v[n - 1 - j]);
        assert(crate::text::strings_v(out@) =~= before.push(v[n - 1 - j]));
        assert(v.skip(n - k).reverse().take(j + 1) =~= v.skip(n - k).reverse().take(j as int).push(
            v[n - 1 - j],
        ));
        j = j + 1;
    }
    assert(v.skip(n - k).reverse().take(k as int) =~= v.skip(n - k).reverse());
    (n, out)
}

} // verus!
