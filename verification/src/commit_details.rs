use vstd::prelude::*;
use crate::branch_sidebar::Loadable;
use crate::diff_target::str_eq;
use crate::worktree_preview::CommitDetails;

verus! {

/// A wait before the commit details show that they are loading: for which repository and
/// commit, and whether the loading note shows yet.
#[derive(Clone, Debug)]
pub struct CommitDetailsDelay {
    pub repo_id: u64,
    pub commit_id: String,
    pub show_loading: bool,
}

/// The wait under way, if any, and the number of the latest wait started.
#[derive(Clone, Debug)]
pub struct CommitDetailsDelayState {
    pub delay: Option<CommitDetailsDelay>,
    pub seq: u64,
}

/// What the wait needs of the active repository: its id, its selected commit, and the
/// details loaded for it.
#[derive(Clone, Debug)]
pub struct DetailsRepo {
    pub id: u64,
    pub selected_commit: Option<String>,
    pub commit_details: Loadable<CommitDetails>,
}

/// The value of a wait.
pub open spec fn delay_v(d: Option<CommitDetailsDelay>) -> Option<(u64, Seq<char>, bool)> {
    match d {
        Some(d) => Some((d.repo_id, d.commit_id@, d.show_loading)),
        None => None,
    }
}

/// The details of commit `id` have loaded, or loading them failed: no wait is needed.
pub open spec fn details_settled(d: Loadable<CommitDetails>, id: Seq<char>) -> bool {
    match d {
        Loadable::Ready(x) => x.id@ == id,
        Loadable::Error(_) => true,
        _ => false,
    }
}

/// The number after `seq`, wrapping around.
pub open spec fn next_seq(seq: u64) -> u64 {
    if seq == u64::MAX {
        0
    } else {
        (seq + 1) as u64
    }
}

fn settled(d: &Loadable<CommitDetails>, id: &str) -> (r: bool)
    ensures
        r == details_settled(*d, id@),
{
    match d {
        Loadable::Ready(x) => str_eq(x.id.as_str(), id),
        Loadable::Error(_) => true,
        _ => false,
    }
}

/// Starts a wait for the selected commit's details when they are neither loaded nor failed
/// and no wait for that commit is under way; drops the wait when nothing is selected or
/// nothing needs one. Returns the new wait's number when one starts: the caller calls
/// `commit_details_delay_elapsed` with it and the repository's id once the wait is over.
pub fn update_commit_details_delay(state: &mut CommitDetailsDelayState, repo: Option<&DetailsRepo>) -> (started:
    Option<u64>)
    ensures
        match repo {
            Some(r) if r.selected_commit is Some => {
                let sel = r.selected_commit.unwrap()@;
                if details_settled(r.commit_details, sel) {
                    started is None && final(state).delay is None && final(state).seq == old(state).seq
                } else if delay_v(old(state).delay) matches Some(d) && d.0 == r.id && d.1 == sel {
                    started is None && delay_v(final(state).delay) == delay_v(old(state).delay)
                        && final(state).seq == old(state).seq
                } else {
                    started == Some(next_seq(old(state).seq)) && final(state).seq == next_seq(
                        old(state).seq,
                    ) && delay_v(final(state).delay) == Some((r.id, sel, false))
                }
            },
            _ => started is None && final(state).delay is None && final(state).seq == old(state).seq,
        },
{
    let r = match repo {
        Some(r) => r,
        None => {
            state.delay = None;
            return None;
        },
    };
    let sel = match &r.selected_commit {
        Some(s) => s,
        None => {
            state.delay = None;
            return None;
        },
    };
    if settled(&r.commit_details, sel.as_str()) {
        state.delay = None;
        return None;
    }
    let same = match &state.delay {
        Some(d) => d.repo_id == r.id && str_eq(d.commit_id.as_str(), sel.as_str()),
        None => false,
    };
    if same {
        return None;
    }
    state.seq = state.seq.wrapping_add(1);
    state.delay = Some(CommitDetailsDelay { repo_id: r.id, commit_id: sel.clone(), show_loading: false });
    Some(state.seq)
}

/// Ends the wait numbered `seq` started for repository `repo_id`: when it is still the
/// latest wait, that repository is active with a commit selected whose details have not
/// settled, and the wait is for that commit and not showing yet, the loading note shows.
/// Returns whether it was shown.
pub fn commit_details_delay_elapsed(
    state: &mut CommitDetailsDelayState,
    seq: u64,
    repo_id: u64,
    repo: Option<&DetailsRepo>,
) -> (shown: bool)
    ensures
        shown == (state_waits(*old(state), seq, repo_id, match repo {
            Some(r) => Some(*r),
            None => None,
        })),
        shown ==> final(state).seq == old(state).seq && delay_v(final(state).delay) == Some(
            (delay_v(old(state).delay).unwrap().0, delay_v(old(state).delay).unwrap().1, true),
        ),
        !shown ==> final(state).seq == old(state).seq && delay_v(final(state).delay) == delay_v(
            old(state).delay,
        ),
{
    if state.seq != seq {
        return false;
    }
    let r = match repo {
        Some(r) => r,
        None => return false,
    };
    let sel = match &r.selected_commit {
        Some(s) => s,
        None => return false,
    };
    if r.id != repo_id {
        return false;
    }
    if settled(&r.commit_details, sel.as_str()) {
        return false;
    }
    match &mut state.delay {
        Some(d) => {
            if d.repo_id == repo_id && str_eq(d.commit_id.as_str(), sel.as_str()) && !d.show_loading {
                d.show_loading = true;
                true
            } else {
                false
            }
        },
        None => false,
    }
}

/// The wait numbered `seq` for repository `repo_id` is to show its loading note (see
/// `commit_details_delay_elapsed`).
pub open spec fn state_waits(s: CommitDetailsDelayState, seq: u64, repo_id: u64, repo: Option<DetailsRepo>) -> bool {
    &&& s.seq == seq
    &&& repo matches Some(r)
    &&& r.selected_commit is Some
    &&& r.id == repo_id
    &&& !details_settled(r.commit_details, r.selected_commit.unwrap()@)
    &&& delay_v(s.delay) matches Some(d)
    &&& d.0 == repo_id
    &&& d.1 == r.selected_commit.unwrap()@
    &&& !d.2
}


/// What the commit-details panel shows in its body.
#[derive(Clone, Copy, Debug, PartialEq, Eq, Structural)]
pub enum CommitDetailsBody {
    /// Nothing yet: the details are on their way and the wait has not run out.
    Blank,
    /// The `Loading…` note.
    Loading,
    /// The error that loading the details gave.
    Error,
    /// The loaded details.
    Details,
}

/// The loading note shows for the selected commit `id` of repository `repo_id`: the wait
/// under way is for that commit and has run out.
pub open spec fn shows_loading(d: Option<CommitDetailsDelay>, repo_id: u64, id: Seq<char>) -> bool {
    match d {
        Some(w) => w.repo_id == repo_id && w.commit_id@ == id && w.show_loading,
        None => false,
    }
}

/// The body of the commit-details panel for `repo` (none without a selected commit): while
/// the details are not loaded, the note once the wait for them has run out and nothing
/// before; the error when loading failed; the loaded details, unless they are another
/// commit's and the note shows.
pub open spec fn details_body_spec(s: CommitDetailsDelayState, repo: DetailsRepo) -> Option<CommitDetailsBody> {
    match repo.selected_commit {
        None => None,
        Some(sel) => {
            let note = shows_loading(s.delay, repo.id, sel@);
            Some(
                match repo.commit_details {
                    Loadable::Error(_) => CommitDetailsBody::Error,
                    Loadable::Ready(x) => if x.id@ != sel@ && note {
                        CommitDetailsBody::Loading
                    } else {
                        CommitDetailsBody::Details
                    },
                    _ => if note {
                        CommitDetailsBody::Loading
                    } else {
                        CommitDetailsBody::Blank
                    },
                },
            )
        },
    }
}

/// The body of the commit-details panel (see `details_body_spec`).
pub fn commit_details_body(state: &CommitDetailsDelayState, repo: &DetailsRepo) -> (r: Option<
    CommitDetailsBody,
>)
    ensures
        r == details_body_spec(*state, *repo),
{
    let sel = match &repo.selected_commit {
        Some(sel) => sel,
        None => return None,
    };
    let note = match &state.delay {
        Some(w) => w.repo_id == repo.id && str_eq(w.commit_id.as_str(), sel.as_str()) && w.show_loading,
        None => false,
    };
    let body = match &repo.commit_details {
        Loadable::Error(_) => CommitDetailsBody::Error,
        Loadable::Ready(x) => if !str_eq(x.id.as_str(), sel.as_str()) && note {
            CommitDetailsBody::Loading
        } else {
            CommitDetailsBody::Details
        },
        _ => if note {
            CommitDetailsBody::Loading
        } else {
            CommitDetailsBody::Blank
        },
    };
    Some(body)
}

} // verus!
