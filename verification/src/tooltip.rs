use vstd::prelude::*;
use crate::diff_target::str_eq;

verus! {

/// The tooltip: the text under the pointer, the text last seen there, the text shown and
/// where, where the pointer rested when the current wait began, and the number of the
/// latest wait. Positions are whatever the caller measures the pointer in.
#[derive(Clone, Debug, PartialEq)]
pub struct Tooltip<P> {
    pub text: Option<String>,
    pub candidate_last: Option<String>,
    pub visible_text: Option<String>,
    pub visible_pos: Option<P>,
    pub pending_pos: Option<P>,
    pub delay_seq: u64,
}

/// The value of an optional text.
pub open spec fn opt_text(t: Option<String>) -> Option<Seq<char>> {
    match t {
        Some(s) => Some(s@),
        None => None,
    }
}

/// The value of a tooltip: its texts as characters, its positions and its wait number.
pub open spec fn tip_v<P>(t: Tooltip<P>) -> (
    Option<Seq<char>>,
    Option<Seq<char>>,
    Option<Seq<char>>,
    Option<P>,
    Option<P>,
    u64,
) {
    (
        opt_text(t.text),
        opt_text(t.candidate_last),
        opt_text(t.visible_text),
        t.visible_pos,
        t.pending_pos,
        t.delay_seq,
    )
}

/// The wait number after `seq`, wrapping around.
pub open spec fn next_wait(seq: u64) -> u64 {
    if seq == u64::MAX {
        0
    } else {
        (seq + 1) as u64
    }
}

fn bump(seq: u64) -> (r: u64)
    ensures
        r == next_wait(seq),
{
    if seq == u64::MAX {
        0
    } else {
        seq + 1
    }
}

fn opt_text_eq(a: &Option<String>, b: &Option<String>) -> (r: bool)
    ensures
        r == (opt_text(*a) == opt_text(*b)),
{
    match (a, b) {
        (Some(x), Some(y)) => str_eq(x.as_str(), y.as_str()),
        (None, None) => true,
        _ => false,
    }
}

fn clone_text(t: &Option<String>) -> (r: Option<String>)
    ensures
        opt_text(r) == opt_text(*t),
{
    match t {
        Some(s) => Some(s.clone()),
        None => None,
    }
}

impl<P: Copy> Tooltip<P> {
    /// A tooltip with nothing under the pointer, nothing shown and no wait.
    pub fn new() -> (t: Self)
        ensures
            tip_v(t) == (None::<Seq<char>>, None::<Seq<char>>, None::<Seq<char>>, None::<P>, None::<P>, 0u64),
    {
        Tooltip {
            text: None,
            candidate_last: None,
            visible_text: None,
            visible_pos: None,
            pending_pos: None,
            delay_seq: 0,
        }
    }

    /// Follows a change of the text under the pointer, which rests at `mouse`: when it
    /// differs from the text last seen, hides the tooltip, remembers the text, and starts
    /// a new wait from `mouse` when there is a text; returns the wait's number and text
    /// (the caller ends it with `delay_elapsed` after the delay). Else changes nothing.
    pub fn sync(&mut self, mouse: P) -> (r: Option<(u64, String)>)
        ensures
            ({
                let (text, last, vis, vpos, ppos, seq) = tip_v(*old(self));
                if text == last {
                    r is None && tip_v(*final(self)) == tip_v(*old(self))
                } else {
                    let seq1 = next_wait(seq);
                    match text {
                        None => r is None && tip_v(*final(self)) == (text, text, None::<Seq<char>>, None::<
                            P,
                        >, None::<P>, seq1),
                        Some(t) => r matches Some((n, s)) && n == seq1 && s@ == t && tip_v(
                            *final(self),
                        ) == (text, text, None::<Seq<char>>, None::<P>, Some(mouse), seq1),
                    }
                }
            }),
    {
        if opt_text_eq(&self.text, &self.candidate_last) {
            return None;
        }
        self.candidate_last = clone_text(&self.text);
        self.visible_text = None;
        self.visible_pos = None;
        self.pending_pos = None;
        self.delay_seq = bump(self.delay_seq);
        match &self.text {
            Some(t) => {
                let t = t.clone();
                self.pending_pos = Some(mouse);
                Some((self.delay_seq, t))
            },
            None => None,
        }
    }

    /// Follows the pointer moving to `mouse`. `far_from_shown` says whether it left the
    /// spot where the tooltip shows (read only when one shows), `far_from_rest` whether it
    /// left the spot where the wait began (read only when a wait began). With no text under
    /// the pointer, hides the tooltip and says whether it showed. Else, unless the tooltip
    /// shows and the pointer stays near it, starts a new wait from `mouse` when no wait
    /// began or the pointer left its spot, hiding the tooltip; returns the wait's number
    /// and text. The flag says whether a shown tooltip was hidden for want of a text.
    pub fn maybe_restart(&mut self, mouse: P, far_from_shown: bool, far_from_rest: bool) -> (r: (
        Option<(u64, String)>,
        bool,
    ))
        ensures
            ({
                let (text, last, vis, vpos, ppos, seq) = tip_v(*old(self));
                match text {
                    None => if vis is Some {
                        r.0 is None && r.1 && tip_v(*final(self)) == (text, last, None::<Seq<char>>, None::<
                            P,
                        >, ppos, seq)
                    } else {
                        r.0 is None && !r.1 && tip_v(*final(self)) == tip_v(*old(self))
                    },
                    Some(t) => if (vpos is Some && !far_from_shown) || (ppos is Some && !far_from_rest) {
                        r.0 is None && !r.1 && tip_v(*final(self)) == tip_v(*old(self))
                    } else {
                        let seq1 = next_wait(seq);
                        &&& !r.1
                        &&& r.0 matches Some((n, s)) && n == seq1 && s@ == t
                        &&& tip_v(*final(self)) == (text, last, None::<Seq<char>>, None::<P>, Some(mouse), seq1)
                    },
                }
            }),
    {
        let candidate = match &self.text {
            Some(t) => t.clone(),
            None => {
                if self.visible_text.is_some() {
                    self.visible_text = None;
                    self.visible_pos = None;
                    return (None, true);
                }
                return (None, false);
            },
        };
        if self.visible_pos.is_some() && !far_from_shown {
            return (None, false);
        }
        let restart = match self.pending_pos {
            None => true,
            Some(_) => far_from_rest,
        };
        if !restart {
            return (None, false);
        }
        self.visible_text = None;
        self.visible_pos = None;
        self.pending_pos = Some(mouse);
        self.delay_seq = bump(self.delay_seq);
        (Some((self.delay_seq, candidate)), false)
    }

    /// Ends wait `seq` for `text`. `stayed` says whether the pointer stayed near the spot
    /// where the wait began (read only when a wait began). The tooltip shows `text` there
    /// when the wait is the latest, `text` is still under the pointer, a wait began and the
    /// pointer stayed. Returns whether it shows; else nothing changes.
    pub fn delay_elapsed(&mut self, seq: u64, text: &str, stayed: bool) -> (shown: bool)
        ensures
            ({
                let (cur, last, vis, vpos, ppos, n) = tip_v(*old(self));
                &&& shown == (n == seq && cur == Some(text@) && ppos is Some && stayed)
                &&& shown ==> tip_v(*final(self)) == (cur, last, Some(text@), ppos, ppos, n)
                &&& !shown ==> tip_v(*final(self)) == tip_v(*old(self))
            }),
    {
        if self.delay_seq != seq {
            return false;
        }
        let same = match &self.text {
            Some(t) => str_eq(t.as_str(), text),
            None => false,
        };
        if !same {
            return false;
        }
        let pending = match self.pending_pos {
            Some(p) => p,
            None => return false,
        };
        if !stayed {
            return false;
        }
        self.visible_text = Some(text.to_string());
        self.visible_pos = Some(pending);
        true
    }
}

} // verus!
