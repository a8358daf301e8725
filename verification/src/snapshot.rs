use vstd::prelude::*;
use crate::diff_target::{
    clone_opt_target, opt_diff_target_eq, opt_target_v, same_opt_target, str_eq, DiffTarget,
};
use crate::text::{push_str, strings_v};
use crate::toasts::{next_id, toasts_view, ttl_secs, without_id, with_message, ToastKind, Toasts};

verus! {

/// A message the repository reports, and whether it reports an error.
#[derive(Clone, Debug, PartialEq, Eq)]
pub struct Diagnostic {
    pub is_error: bool,
    pub message: String,
}

/// A git command that ran: whether it succeeded, and its summary.
#[derive(Clone, Debug, PartialEq, Eq)]
pub struct CommandLogEntry {
    pub ok: bool,
    pub summary: String,
}

/// What the view takes from a repository of the application state: its id, its reports
/// and command log (which only grow), what its diff view shows and the revision of that
/// diff, and the selected commit.
#[derive(Clone, Debug)]
pub struct SnapshotRepo {
    pub id: u64,
    pub diagnostics: Vec<Diagnostic>,
    pub command_log: Vec<CommandLogEntry>,
    pub diff_target: Option<DiffTarget>,
    pub diff_rev: u64,
    pub selected_commit: Option<String>,
}

/// How a clone is going.
#[derive(Clone, Debug, PartialEq, Eq)]
pub enum CloneOpStatus {
    Running,
    FinishedOk,
    FinishedErr(String),
}

/// A clone under way or finished: from where, to where, how it goes, a number that changes
/// with each update, and the last lines it printed.
#[derive(Clone, Debug)]
pub struct CloneOp {
    pub url: String,
    pub dest: String,
    pub status: CloneOpStatus,
    pub seq: u64,
    pub output_tail: Vec<String>,
}

/// What the view takes from the application state: the active repository, the open
/// repositories and the clone, if any.
#[derive(Clone, Debug)]
pub struct AppSnapshot {
    pub active_repo: Option<u64>,
    pub repos: Vec<SnapshotRepo>,
    pub clone: Option<CloneOp>,
}

/// The toast that follows a clone: its id, the number of the clone update last shown, and
/// where the clone goes.
#[derive(Clone, Debug)]
pub struct CloneProgress {
    pub toast_id: Option<u64>,
    pub last_seq: u64,
    pub dest: Option<String>,
}

/// The value of a clone's progress.
pub open spec fn progress_v(p: CloneProgress) -> (Option<u64>, u64, Option<Seq<char>>) {
    (
        p.toast_id,
        p.last_seq,
        match p.dest {
            Some(d) => Some(d@),
            None => None,
        },
    )
}

/// The toasts values, as `toasts_view` gives them.
pub type ToastsV = Seq<(u64, ToastKind, Seq<char>)>;

/// The toasts after pushing `msgs` in order, each with the id `next_id` gives.
pub open spec fn pushed(ts: ToastsV, msgs: Seq<(ToastKind, Seq<char>)>) -> ToastsV
    decreases msgs.len(),
{
    if msgs.len() == 0 {
        ts
    } else {
        let t = pushed(ts, msgs.drop_last());
        t.push((next_id(t), msgs.last().0, msgs.last().1))
    }
}

/// The timers of the toasts pushed by `pushed(ts, msgs)`: each one's id and how many
/// seconds it stays.
pub open spec fn push_timers(ts: ToastsV, msgs: Seq<(ToastKind, Seq<char>)>) -> Seq<(u64, u64)>
    decreases msgs.len(),
{
    if msgs.len() == 0 {
        Seq::empty()
    } else {
        let t = pushed(ts, msgs.drop_last());
        push_timers(ts, msgs.drop_last()).push((next_id(t), ttl_secs(msgs.last().0)))
    }
}

/// The values of a list of toast messages.
pub open spec fn msgs_v(msgs: Seq<(ToastKind, String)>) -> Seq<(ToastKind, Seq<char>)> {
    msgs.map_values(|m: (ToastKind, String)| (m.0, m.1@))
}

/// Pushes toasts that go away on their own for `msgs`, in order; returns the timers the
/// caller runs to remove them (see `pushed` and `push_timers`).
pub fn push_toasts(toasts: &mut Toasts, msgs: &[(ToastKind, String)]) -> (timers: Vec<(u64, u64)>)
    ensures
        toasts_view(final(toasts).toasts@) == pushed(toasts_view(old(toasts).toasts@), msgs_v(msgs@)),
        timers@ == push_timers(toasts_view(old(toasts).toasts@), msgs_v(msgs@)),
{
    let ghost t0 = toasts_view(toasts.toasts@);
    let mut timers: Vec<(u64, u64)> = Vec::new();
    let mut i: usize = 0;
    while i < msgs.len()
        invariant
            i <= msgs@.len(),
            toasts_view(toasts.toasts@) == pushed(t0, msgs_v(msgs@).take(i as int)),
            timers@ == push_timers(t0, msgs_v(msgs@).take(i as int)),
        decreases msgs@.len() - i,
    {
        let kind = msgs[i].0;
        let message = msgs[i].1.clone();
        let r = toasts.push_toast(kind, message);
        timers.push(r);
        proof {
            let mv = msgs_v(msgs@);
            assert(mv.take(i + 1).drop_last() =~= mv.take(i as int));
            assert(mv.take(i + 1).last() == mv[i as int]);
        }
        i = i + 1;
    }
    proof {
        assert(msgs_v(msgs@).take(msgs@.len() as int) =~= msgs_v(msgs@));
    }
    timers
}

/// The first repository among `repos` from `i` on whose id is `id`.
pub open spec fn find_repo(repos: Seq<SnapshotRepo>, id: u64, i: int) -> Option<int>
    decreases repos.len() - i,
{
    if i < 0 || i >= repos.len() {
        None
    } else if repos[i].id == id {
        Some(i)
    } else {
        find_repo(repos, id, i + 1)
    }
}

/// How many reports and command log entries the view has seen of repository `id`: those
/// of its first entry in `prev`, or none.
pub open spec fn seen_lens(prev: Seq<SnapshotRepo>, id: u64) -> (nat, nat) {
    match find_repo(prev, id, 0) {
        Some(k) => (prev[k].diagnostics@.len(), prev[k].command_log@.len()),
        None => (0, 0),
    }
}

/// The error toasts for the error reports among reports `from` to `n`.
pub open spec fn error_msgs(ds: Seq<Diagnostic>, from: int, n: int) -> Seq<(ToastKind, Seq<char>)>
    decreases n - from,
{
    if n <= from {
        Seq::empty()
    } else {
        error_msgs(ds, from, n - 1) + if ds[n - 1].is_error {
            seq![(ToastKind::Error, ds[n - 1].message@)]
        } else {
            Seq::empty()
        }
    }
}

/// The toasts for the command log entries `from` to `n`: a success or an error toast with
/// each one's summary.
pub open spec fn command_msgs(cs: Seq<CommandLogEntry>, from: int, n: int) -> Seq<(ToastKind, Seq<char>)>
    decreases n - from,
{
    if n <= from {
        Seq::empty()
    } else {
        command_msgs(cs, from, n - 1) + seq![
            (
                if cs[n - 1].ok {
                    ToastKind::Success
                } else {
                    ToastKind::Error
                },
                cs[n - 1].summary@,
            ),
        ]
    }
}

/// The toasts for what a repository reports anew past the `seen` counts: its new error
/// reports, then its new command log entries.
pub open spec fn repo_msgs(r: SnapshotRepo, seen: (nat, nat)) -> Seq<(ToastKind, Seq<char>)> {
    let dn = r.diagnostics@.len() as int;
    let cn = r.command_log@.len() as int;
    error_msgs(r.diagnostics@, vstd::math::min(seen.0 as int, dn), dn) + command_msgs(
        r.command_log@,
        vstd::math::min(seen.1 as int, cn),
        cn,
    )
}

/// The toasts for the first `n` repositories of the next state, in order, each against
/// what `prev` shows of it.
pub open spec fn event_msgs(prev: Seq<SnapshotRepo>, next: Seq<SnapshotRepo>, n: int) -> Seq<(ToastKind, Seq<char>)>
    decreases n,
{
    if n <= 0 {
        Seq::empty()
    } else {
        event_msgs(prev, next, n - 1) + repo_msgs(next[n - 1], seen_lens(prev, next[n - 1].id))
    }
}

fn seen_lens_exec(prev: &[SnapshotRepo], id: u64) -> (r: (usize, usize))
    ensures
        (r.0 as nat, r.1 as nat) == seen_lens(prev@, id),
{
    let mut i: usize = 0;
    while i < prev.len()
        invariant
            i <= prev@.len(),
            find_repo(prev@, id, 0) == find_repo(prev@, id, i as int),
        decreases prev@.len() - i,
    {
        if prev[i].id == id {
            return (prev[i].diagnostics.len(), prev[i].command_log.len());
        }
        i = i + 1;
    }
    (0, 0)
}

fn push_repo_msgs(r: &SnapshotRepo, seen: (usize, usize), out: &mut Vec<(ToastKind, String)>)
    ensures
        msgs_v(final(out)@) == msgs_v(old(out)@) + repo_msgs(*r, (seen.0 as nat, seen.1 as nat)),
{
    let ghost o0 = msgs_v(out@);
    let dn = r.diagnostics.len();
    let mut i: usize = if seen.0 < dn {
        seen.0
    } else {
        dn
    };
    let ghost from = i as int;
    while i < dn
        invariant
            from <= i <= dn,
            dn == r.diagnostics@.len(),
            msgs_v(out@) == o0 + error_msgs(r.diagnostics@, from, i as int),
        decreases dn - i,
    {
        let ghost before = msgs_v(out@);
        if r.diagnostics[i].is_error {
            out.push((ToastKind::Error, r.diagnostics[i].message.clone()));
            assert(msgs_v(out@) =~= before.push((ToastKind::Error, r.diagnostics@[i as int].message@)));
        }
        assert(msgs_v(out@) =~= o0 + error_msgs(r.diagnostics@, from, i + 1));
        i = i + 1;
    }
    let ghost o1 = msgs_v(out@);
    let cn = r.command_log.len();
    let mut k: usize = if seen.1 < cn {
        seen.1
    } else {
        cn
    };
    let ghost cfrom = k as int;
    while k < cn
        invariant
            cfrom <= k <= cn,
            cn == r.command_log@.len(),
            msgs_v(out@) == o1 + command_msgs(r.command_log@, cfrom, k as int),
        decreases cn - k,
    {
        let ghost before = msgs_v(out@);
        let e = &r.command_log[k];
        let kind = if e.ok {
            ToastKind::Success
        } else {
            ToastKind::Error
        };
        out.push((kind, e.summary.clone()));
        assert(msgs_v(out@) =~= before.push((kind, e.summary@)));
        assert(msgs_v(out@) =~= o1 + command_msgs(r.command_log@, cfrom, k + 1));
        k = k + 1;
    }
}

/// The toasts for what the repositories of the next state report anew against `prev`
/// (see `event_msgs`).
pub fn snapshot_event_toasts(prev: &[SnapshotRepo], next: &[SnapshotRepo]) -> (out: Vec<(ToastKind, String)>)
    ensures
        msgs_v(out@) == event_msgs(prev@, next@, next@.len() as int),
{
    let mut out: Vec<(ToastKind, String)> = Vec::new();
    let mut i: usize = 0;
    while i < next.len()
        invariant
            i <= next@.len(),
            msgs_v(out@) == event_msgs(prev@, next@, i as int),
        decreases next@.len() - i,
    {
        let seen = seen_lens_exec(prev, next[i].id);
        push_repo_msgs(&next[i], seen, &mut out);
        i = i + 1;
    }
    out
}

/// The lines joined with `'\n'` between them.
pub open spec fn join_lines(ls: Seq<Seq<char>>) -> Seq<char>
    decreases ls.len(),
{
    if ls.len() == 0 {
        Seq::empty()
    } else if ls.len() == 1 {
        ls[0]
    } else {
        join_lines(ls.drop_last()) + seq!['\n'] + ls.last()
    }
}

/// The last twelve lines a clone printed, joined with `'\n'`.
pub open spec fn clone_tail(output: Seq<Seq<char>>) -> Seq<char> {
    join_lines(output.skip(vstd::math::max(0, output.len() - 12)))
}

/// The message of a clone under way: `Cloning repository…`, the URL, and `→ ` with where
/// it goes, on three lines.
pub open spec fn running_message(url: Seq<char>, dest: Seq<char>) -> Seq<char> {
    "Cloning repository…\n"@ + url + "\n→ "@ + dest
}

/// The running message, followed after an empty line by the clone's last output if any.
pub open spec fn progress_message(url: Seq<char>, dest: Seq<char>, tail: Seq<char>) -> Seq<char> {
    if tail.len() == 0 {
        running_message(url, dest)
    } else {
        running_message(url, dest) + "\n\n"@ + tail
    }
}

/// The toasts without the one with id `id`, if any.
pub open spec fn drop_toast(ts: ToastsV, id: Option<u64>) -> ToastsV {
    match id {
        Some(i) => without_id(ts, i),
        None => ts,
    }
}

/// How the clone's toast follows the clone `op`, from progress `p` and toasts `ts`: the new
/// progress, toasts, and timers to run.
/// - No clone: the toast goes and the progress is forgotten.
/// - Running: when no toast follows this clone yet, any other toast goes and a lasting one
///   for this clone comes, with the running message; then, on a new update, the toast
///   shows the progress message and the update's number is kept.
/// - Finished: on a new update, the toast goes and one that goes away on its own says how
///   the clone ended (`Clone finished: ` and where, or `Clone failed: ` and the error).
pub open spec fn clone_step(p: (Option<u64>, u64, Option<Seq<char>>), ts: ToastsV, op: Option<CloneOp>) -> (
    (Option<u64>, u64, Option<Seq<char>>),
    ToastsV,
    Seq<(u64, u64)>,
) {
    match op {
        None => ((None, 0, None), drop_toast(ts, p.0), Seq::empty()),
        Some(op) => match op.status {
            CloneOpStatus::Running => {
                let reset = p.0 is None || p.2 != Some(op.dest@);
                let ts0 = drop_toast(ts, p.0);
                let p1 = if reset {
                    (Some(next_id(ts0)), 0u64, Some(op.dest@))
                } else {
                    p
                };
                let ts1 = if reset {
                    ts0.push((next_id(ts0), ToastKind::Success, running_message(op.url@, op.dest@)))
                } else {
                    ts
                };
                if p1.1 != op.seq {
                    (
                        (p1.0, op.seq, p1.2),
                        with_message(
                            ts1,
                            p1.0.unwrap(),
                            progress_message(op.url@, op.dest@, clone_tail(strings_v(op.output_tail@))),
                        ),
                        Seq::empty(),
                    )
                } else {
                    (p1, ts1, Seq::empty())
                }
            },
            CloneOpStatus::FinishedOk => if p.1 != op.seq {
                let ts0 = drop_toast(ts, p.0);
                (
                    (None, op.seq, None),
                    ts0.push((next_id(ts0), ToastKind::Success, "Clone finished: "@ + op.dest@)),
                    seq![(next_id(ts0), ttl_secs(ToastKind::Success))],
                )
            } else {
                (p, ts, Seq::empty())
            },
            CloneOpStatus::FinishedErr(e) => if p.1 != op.seq {
                let ts0 = drop_toast(ts, p.0);
                (
                    (None, op.seq, None),
                    ts0.push((next_id(ts0), ToastKind::Error, "Clone failed: "@ + e@)),
                    seq![(next_id(ts0), ttl_secs(ToastKind::Error))],
                )
            } else {
                (p, ts, Seq::empty())
            },
        },
    }
}

fn join_tail(output: &Vec<String>) -> (s: String)
    ensures
        s@ == clone_tail(strings_v(output@)),
{
    let n = output.len();
    let start: usize = if n > 12 {
        n - 12
    } else {
        0
    };
    let ghost ls = strings_v(output@);
    let ghost tail = ls.skip(start as int);
    let mut s = String::new();
    let mut i: usize = start;
    while i < n
        invariant
            start <= i <= n,
            n == output@.len(),
            ls == strings_v(output@),
            tail == ls.skip(start as int),
            s@ == join_lines(tail.take(i - start)),
        decreases n - i,
    {
        let ghost before = s@;
        if i > start {
            proof {
                reveal_strlit("\n");
            }
            push_str(&mut s, "\n");
        }
        push_str(&mut s, output[i].as_str());
        proof {
            let t1 = tail.take(i - start + 1);
            assert(t1.drop_last() =~= tail.take(i - start));
            assert(t1.last() == output@[i as int]@);
            if i > start {
                assert(s@ =~= before + seq!['\n'] + output@[i as int]@);
            } else {
                assert(tail.take(0) =~= Seq::<Seq<char>>::empty());
                assert(s@ =~= output@[i as int]@);
            }
        }
        i = i + 1;
    }
    proof {
        assert(tail.take(n - start) =~= tail);
        assert(vstd::math::max(0, ls.len() - 12) == start);
    }
    s
}

fn running_message_exec(url: &str, dest: &str) -> (s: String)
    ensures
        s@ == running_message(url@, dest@),
{
    let mut s = String::from_str("Cloning repository…\n");
    push_str(&mut s, url);
    push_str(&mut s, "\n→ ");
    push_str(&mut s, dest);
    s
}

fn take_toast(toasts: &mut Toasts, id: &mut Option<u64>)
    ensures
        toasts_view(final(toasts).toasts@) == drop_toast(toasts_view(old(toasts).toasts@), *old(id)),
        *final(id) is None,
{
    match *id {
        Some(i) => {
            toasts.remove_toast(i);
        },
        None => {},
    }
    *id = None;
}

/// Follows the clone `op` with its toast (see `clone_step`); returns the timers the caller
/// runs to remove the toasts that go away on their own.
pub fn clone_progress_step(progress: &mut CloneProgress, toasts: &mut Toasts, op: Option<&CloneOp>) -> (timers: Vec<(u64, u64)>)
    ensures
        ({
            let o = match op {
                Some(o) => Some(*o),
                None => None,
            };
            (progress_v(*final(progress)), toasts_view(final(toasts).toasts@), timers@) == clone_step(
                progress_v(*old(progress)),
                toasts_view(old(toasts).toasts@),
                o,
            )
        }),
{
    let mut timers: Vec<(u64, u64)> = Vec::new();
    let op = match op {
        None => {
            take_toast(toasts, &mut progress.toast_id);
            progress.last_seq = 0;
            progress.dest = None;
            return timers;
        },
        Some(op) => op,
    };
    match &op.status {
        CloneOpStatus::Running => {
            let same_dest = match &progress.dest {
                Some(d) => str_eq(d.as_str(), op.dest.as_str()),
                None => false,
            };
            if progress.toast_id.is_none() || !same_dest {
                take_toast(toasts, &mut progress.toast_id);
                progress.last_seq = 0;
                progress.dest = Some(op.dest.clone());
                let msg = running_message_exec(op.url.as_str(), op.dest.as_str());
                let id = toasts.push_persistent_toast(ToastKind::Success, msg);
                progress.toast_id = Some(id);
            }
            match progress.toast_id {
                Some(id) => {
                    if progress.last_seq != op.seq {
                        progress.last_seq = op.seq;
                        let tail = join_tail(&op.output_tail);
                        let tail_chars = crate::text::str_to_chars(tail.as_str());
                        let message = if tail_chars.len() == 0 {
                            running_message_exec(op.url.as_str(), op.dest.as_str())
                        } else {
                            let mut m = running_message_exec(op.url.as_str(), op.dest.as_str());
                            push_str(&mut m, "\n\n");
                            push_str(&mut m, tail.as_str());
                            m
                        };
                        toasts.update_toast_text(id, message);
                    }
                },
                None => {},
            }
        },
        CloneOpStatus::FinishedOk => {
            if progress.last_seq != op.seq {
                take_toast(toasts, &mut progress.toast_id);
                progress.dest = None;
                progress.last_seq = op.seq;
                let mut m = String::from_str("Clone finished: ");
                push_str(&mut m, op.dest.as_str());
                let t = toasts.push_toast(ToastKind::Success, m);
                timers.push(t);
            }
        },
        CloneOpStatus::FinishedErr(e) => {
            if progress.last_seq != op.seq {
                take_toast(toasts, &mut progress.toast_id);
                progress.dest = None;
                progress.last_seq = op.seq;
                let mut m = String::from_str("Clone failed: ");
                push_str(&mut m, e.as_str());
                let t = toasts.push_toast(ToastKind::Error, m);
                timers.push(t);
            }
        },
    }
    proof {
        assert(timers@.len() <= 1);
    }
    timers
}

/// What the diff cache was built for: the repository, the revision of its diff, and what
/// its diff view showed.
#[derive(Clone, Debug)]
pub struct DiffCacheKey {
    pub repo_id: Option<u64>,
    pub rev: u64,
    pub target: Option<DiffTarget>,
}

/// Which lists go back to their top after a new state.
#[derive(Clone, Copy, Debug, PartialEq, Eq, Structural)]
pub enum ScrollReset {
    /// Nothing moves.
    Keep,
    /// The active repository changed: the history and the commit details go to the top.
    All,
    /// The selected commit changed: the commit details go to the top.
    CommitDetails,
}

/// What the view keeps across states: the last state taken, the toasts, the clone's
/// toast, the diff's row selection, and whether the diff is to scroll to its first change.
pub struct SnapshotView {
    pub state: AppSnapshot,
    pub toasts: Toasts,
    pub clone_progress: CloneProgress,
    pub selection: crate::row_nav::RowSelection,
    pub autoscroll_pending: bool,
}

/// What the caller does after taking a new state: run the toast timers, move the lists,
/// and rebuild the diff cache when it is not for the new state's diff.
pub struct SnapshotEffects {
    pub timers: Vec<(u64, u64)>,
    pub scroll: ScrollReset,
    pub rebuild_diff_cache: bool,
}

/// The active repository of a state: the first with the active id.
pub open spec fn active_of(s: AppSnapshot) -> Option<SnapshotRepo> {
    match s.active_repo {
        Some(id) => match find_repo(s.repos@, id, 0) {
            Some(k) => Some(s.repos@[k]),
            None => None,
        },
        None => None,
    }
}

/// What the diff view of a state's active repository shows.
pub open spec fn active_target(s: AppSnapshot) -> Option<crate::diff_target::DiffTargetV> {
    match active_of(s) {
        Some(r) => opt_target_v(r.diff_target),
        None => None,
    }
}

/// The selected commit of a state's active repository.
pub open spec fn active_selected(s: AppSnapshot) -> Option<Seq<char>> {
    match active_of(s) {
        Some(r) => match r.selected_commit {
            Some(c) => Some(c@),
            None => None,
        },
        None => None,
    }
}

/// The diff revision of a state's active repository, 0 without one.
pub open spec fn active_diff_rev(s: AppSnapshot) -> u64 {
    match active_of(s) {
        Some(r) => r.diff_rev,
        None => 0,
    }
}

fn active_index(s: &AppSnapshot) -> (r: Option<usize>)
    ensures
        match r {
            Some(k) => s.active_repo matches Some(id) && find_repo(s.repos@, id, 0) == Some(k as int)
                && k < s.repos@.len(),
            None => active_of(*s) is None,
        },
{
    let id = match s.active_repo {
        Some(id) => id,
        None => return None,
    };
    let mut i: usize = 0;
    while i < s.repos.len()
        invariant
            i <= s.repos@.len(),
            s.active_repo == Some(id),
            find_repo(s.repos@, id, 0) == find_repo(s.repos@, id, i as int),
        decreases s.repos@.len() - i,
    {
        if s.repos[i].id == id {
            return Some(i);
        }
        i = i + 1;
    }
    None
}

fn active_target_of(s: &AppSnapshot) -> (r: Option<DiffTarget>)
    ensures
        opt_target_v(r) == active_target(*s),
{
    match active_index(s) {
        Some(k) => clone_opt_target(&s.repos[k].diff_target),
        None => None,
    }
}

fn active_selected_of(s: &AppSnapshot) -> (r: Option<String>)
    ensures
        match r {
            Some(c) => active_selected(*s) == Some(c@),
            None => active_selected(*s) is None,
        },
{
    match active_index(s) {
        Some(k) => match &s.repos[k].selected_commit {
            Some(c) => Some(c.clone()),
            None => None,
        },
        None => None,
    }
}

/// Takes a new application state `next`: toasts what its repositories report anew (see
/// `event_msgs`), follows the clone with its toast (see `clone_step`), drops the diff's
/// row selection and asks for a scroll to the first change when the shown diff changes,
/// keeps the state, and says which lists go to the top and whether the diff cache, built
/// for `diff_cache`, is to be rebuilt.
pub fn apply_state_snapshot(view: &mut SnapshotView, next: AppSnapshot, diff_cache: &DiffCacheKey) -> (e:
    SnapshotEffects)
    ensures
        ({
            let prev = old(view).state;
            let msgs = event_msgs(prev.repos@, next.repos@, next.repos@.len() as int);
            let ts0 = toasts_view(old(view).toasts.toasts@);
            let ts1 = pushed(ts0, msgs);
            let step = clone_step(progress_v(old(view).clone_progress), ts1, next.clone);
            &&& final(view).state == next
            &&& toasts_view(final(view).toasts.toasts@) == step.1
            &&& progress_v(final(view).clone_progress) == step.0
            &&& e.timers@ == push_timers(ts0, msgs) + step.2
            &&& if !same_opt_target(active_target(prev), active_target(next)) {
                &&& final(view).selection.anchor is None
                &&& final(view).selection.range is None
                &&& final(view).autoscroll_pending == (active_target(next) is Some)
            } else {
                &&& final(view).selection == old(view).selection
                &&& final(view).autoscroll_pending == old(view).autoscroll_pending
            }
            &&& e.scroll == if prev.active_repo != next.active_repo {
                ScrollReset::All
            } else if active_selected(prev) != active_selected(next) {
                ScrollReset::CommitDetails
            } else {
                ScrollReset::Keep
            }
            &&& e.rebuild_diff_cache == (diff_cache.repo_id != next.active_repo || diff_cache.rev
                != active_diff_rev(next) || !same_opt_target(opt_target_v(diff_cache.target), active_target(next)))
        }),
{
    let prev_active = view.state.active_repo;
    let prev_selected = active_selected_of(&view.state);
    let prev_target = active_target_of(&view.state);
    let next_target = active_target_of(&next);
    let next_selected = active_selected_of(&next);
    let next_rev = match active_index(&next) {
        Some(k) => next.repos[k].diff_rev,
        None => 0,
    };
    let msgs = snapshot_event_toasts(view.state.repos.as_slice(), next.repos.as_slice());
    let mut timers = push_toasts(&mut view.toasts, msgs.as_slice());
    let clone_timers = clone_progress_step(&mut view.clone_progress, &mut view.toasts, next.clone.as_ref());
    let ghost t1 = timers@;
    let mut i: usize = 0;
    while i < clone_timers.len()
        invariant
            i <= clone_timers@.len(),
            timers@ == t1 + clone_timers@.take(i as int),
        decreases clone_timers@.len() - i,
    {
        timers.push(clone_timers[i]);
        assert(clone_timers@.take(i + 1) =~= clone_timers@.take(i as int).push(clone_timers@[i as int]));
        i = i + 1;
    }
    assert(clone_timers@.take(clone_timers@.len() as int) =~= clone_timers@);
    if !opt_diff_target_eq(&prev_target, &next_target) {
        view.selection.anchor = None;
        view.selection.range = None;
        view.autoscroll_pending = next_target.is_some();
    }
    let same_selected = match (&prev_selected, &next_selected) {
        (Some(a), Some(b)) => str_eq(a.as_str(), b.as_str()),
        (None, None) => true,
        _ => false,
    };
    let scroll = if prev_active != next.active_repo {
        ScrollReset::All
    } else if !same_selected {
        ScrollReset::CommitDetails
    } else {
        ScrollReset::Keep
    };
    let rebuild = diff_cache.repo_id != next.active_repo || diff_cache.rev != next_rev
        || !opt_diff_target_eq(&diff_cache.target, &next_target);
    view.state = next;
    SnapshotEffects { timers, scroll, rebuild_diff_cache: rebuild }
}

proof fn lemma_find_distinct(rs: Seq<SnapshotRepo>, k: int, i: int)
    requires
        0 <= i <= k < rs.len(),
        forall|a: int, b: int| 0 <= a < b < rs.len() ==> rs[a].id != rs[b].id,
    ensures
        find_repo(rs, rs[k].id, i) == Some(k),
    decreases k - i,
{
    if i < k {
        lemma_find_distinct(rs, k, i + 1);
    }
}

/// Taking the same state again toasts nothing: every report and command of its
/// repositories (each id listed once) was seen already.
pub proof fn law_same_state_toasts_nothing(repos: Seq<SnapshotRepo>, n: int)
    requires
        0 <= n <= repos.len(),
        forall|a: int, b: int| 0 <= a < b < repos.len() ==> repos[a].id != repos[b].id,
    ensures
        event_msgs(repos, repos, n) == Seq::<(ToastKind, Seq<char>)>::empty(),
    decreases n,
{
    if n > 0 {
        law_same_state_toasts_nothing(repos, n - 1);
        let r = repos[n - 1];
        lemma_find_distinct(repos, n - 1, 0);
        assert(seen_lens(repos, r.id) == (r.diagnostics@.len(), r.command_log@.len()));
        assert(repo_msgs(r, seen_lens(repos, r.id)) =~= Seq::<(ToastKind, Seq<char>)>::empty());
        assert(event_msgs(repos, repos, n) =~= Seq::<(ToastKind, Seq<char>)>::empty());
    }
}

} // verus!
