use vstd::prelude::*;

verus! {

/// What a toast reports.
#[derive(Clone, Copy, Debug, PartialEq, Eq, Structural)]
pub enum ToastKind {
    Success,
    Error,
}

/// A notification shown over the window.
#[derive(Clone, Debug, PartialEq, Eq)]
pub struct Toast {
    pub id: u64,
    pub kind: ToastKind,
    pub message: String,
}

/// The value of a toast.
pub open spec fn toast_view(t: Toast) -> (u64, ToastKind, Seq<char>) {
    (t.id, t.kind, t.message@)
}

/// The values of a list of toasts.
pub open spec fn toasts_view(ts: Seq<Toast>) -> Seq<(u64, ToastKind, Seq<char>)> {
    ts.map_values(|t: Toast| toast_view(t))
}

/// The id the next toast gets: one past the last toast's (wrapping around), or 1.
pub open spec fn next_id(ts: Seq<(u64, ToastKind, Seq<char>)>) -> u64 {
    if ts.len() == 0 {
        1
    } else if ts.last().0 == u64::MAX {
        0
    } else {
        (ts.last().0 + 1) as u64
    }
}

/// The toasts whose id is not `id`, in order.
pub open spec fn without_id(ts: Seq<(u64, ToastKind, Seq<char>)>, id: u64) -> Seq<(u64, ToastKind, Seq<char>)>
    decreases ts.len(),
{
    if ts.len() == 0 {
        ts
    } else {
        without_id(ts.drop_last(), id) + if ts.last().0 == id {
            Seq::empty()
        } else {
            seq![ts.last()]
        }
    }
}

/// The toasts with the message of the first one with id `id` replaced.
pub open spec fn with_message(ts: Seq<(u64, ToastKind, Seq<char>)>, id: u64, msg: Seq<char>) -> Seq<
    (u64, ToastKind, Seq<char>),
>
    decreases ts.len(),
{
    if ts.len() == 0 {
        ts
    } else if ts[0].0 == id {
        seq![(ts[0].0, ts[0].1, msg)] + ts.skip(1)
    } else {
        seq![ts[0]] + with_message(ts.skip(1), id, msg)
    }
}

/// How long a toast of a kind stays, in seconds: errors longer than successes.
pub open spec fn ttl_secs(kind: ToastKind) -> u64 {
    match kind {
        ToastKind::Error => 15,
        ToastKind::Success => 6,
    }
}

/// The toasts shown over the window, oldest first.
pub struct Toasts {
    pub toasts: Vec<Toast>,
}

impl Toasts {
    /// Adds a toast that stays until it is removed, and returns its id (see `next_id`).
    pub fn push_persistent_toast(&mut self, kind: ToastKind, message: String) -> (id: u64)
        ensures
            id == next_id(toasts_view(old(self).toasts@)),
            toasts_view(final(self).toasts@) == toasts_view(old(self).toasts@).push((id, kind, message@)),
    {
        let n = self.toasts.len();
        let id = if n == 0 {
            1
        } else {
            let last = self.toasts[n - 1].id;
            if last == u64::MAX {
                0
            } else {
                last + 1
            }
        };
        let ghost before = toasts_view(self.toasts@);
        self.toasts.push(Toast { id, kind, message });
        assert(toasts_view(self.toasts@) =~= before.push((id, kind, message@)));
        id
    }

    /// Adds a toast that goes away on its own; returns its id and how many seconds it stays
    /// (the caller removes it then).
    pub fn push_toast(&mut self, kind: ToastKind, message: String) -> (r: (u64, u64))
        ensures
            r.0 == next_id(toasts_view(old(self).toasts@)),
            r.1 == ttl_secs(kind),
            toasts_view(final(self).toasts@) == toasts_view(old(self).toasts@).push((r.0, kind, message@)),
    {
        let id = self.push_persistent_toast(kind, message);
        let ttl = match kind {
            ToastKind::Error => 15,
            ToastKind::Success => 6,
        };
        (id, ttl)
    }

    /// Replaces the message of the toast with id `id`; returns whether there is one.
    pub fn update_toast_text(&mut self, id: u64, message: String) -> (found: bool)
        ensures
            found == exists|i: int| 0 <= i < old(self).toasts@.len() && #[trigger] old(self).toasts@[i].id == id,
            toasts_view(final(self).toasts@) == with_message(toasts_view(old(self).toasts@), id, message@),
    {
        let ghost v0 = toasts_view(self.toasts@);
        proof {
            assert(v0.take(0) + v0.skip(0) =~= v0);
            assert(v0.take(0) + with_message(v0.skip(0), id, message@) =~= with_message(v0, id, message@)) by {
                assert(v0.skip(0) =~= v0);
            }
        }
        let mut i: usize = 0;
        while i < self.toasts.len()
            invariant
                i <= self.toasts@.len(),
                self.toasts@ == old(self).toasts@,
                v0 == toasts_view(self.toasts@),
                forall|j: int| 0 <= j < i ==> #[trigger] self.toasts@[j].id != id,
                with_message(v0, id, message@) == v0.take(i as int) + with_message(v0.skip(i as int), id, message@),
            decreases self.toasts@.len() - i,
        {
            if self.toasts[i].id == id {
                let ghost rest = v0.skip(i as int);
                let old_toast = &self.toasts[i];
                let t = Toast { id: old_toast.id, kind: old_toast.kind, message };
                self.toasts.set(i, t);
                proof {
                    assert(rest[0] == v0[i as int]);
                    assert(rest.skip(1) =~= v0.skip(i + 1));
                    assert(toasts_view(self.toasts@) =~= v0.take(i as int) + with_message(rest, id, message@));
                }
                return true;
            }
            proof {
                let rest = v0.skip(i as int);
                assert(rest[0] == v0[i as int]);
                assert(rest.skip(1) =~= v0.skip(i + 1));
                assert(v0.take(i as int) + (seq![rest[0]] + with_message(rest.skip(1), id, message@))
                    =~= v0.take(i + 1) + with_message(v0.skip(i + 1), id, message@));
            }
            i = i + 1;
        }
        proof {
            assert(v0.skip(i as int) =~= Seq::<(u64, ToastKind, Seq<char>)>::empty());
            assert(v0.take(i as int) =~= v0);
        }
        false
    }

    /// Removes every toast with id `id`; returns whether any was removed.
    pub fn remove_toast(&mut self, id: u64) -> (changed: bool)
        ensures
            toasts_view(final(self).toasts@) == without_id(toasts_view(old(self).toasts@), id),
            changed == (final(self).toasts@.len() != old(self).toasts@.len()),
    {
        let ghost v0 = toasts_view(self.toasts@);
        let before = self.toasts.len();
        let mut kept: Vec<Toast> = Vec::new();
        let mut i: usize = 0;
        while i < self.toasts.len()
            invariant
                i <= self.toasts@.len(),
                self.toasts@ == old(self).toasts@,
                v0 == toasts_view(self.toasts@),
                toasts_view(kept@) == without_id(v0.take(i as int), id),
            decreases self.toasts@.len() - i,
        {
            let t = &self.toasts[i];
            let ghost kv = toasts_view(kept@);
            assert(v0.take(i + 1).drop_last() =~= v0.take(i as int));
            if t.id != id {
                kept.push(Toast { id: t.id, kind: t.kind, message: t.message.clone() });
                assert(toasts_view(kept@) =~= kv.push(v0[i as int]));
            }
            i = i + 1;
        }
        assert(v0.take(i as int) =~= v0);
        self.toasts = kept;
        self.toasts.len() != before
    }
}

proof fn lemma_without_absent(ts: Seq<(u64, ToastKind, Seq<char>)>, id: u64)
    requires
        forall|i: int| 0 <= i < ts.len() ==> #[trigger] ts[i].0 != id,
    ensures
        without_id(ts, id) == ts,
    decreases ts.len(),
{
    if ts.len() > 0 {
        lemma_without_absent(ts.drop_last(), id);
        assert(ts.drop_last().push(ts.last()) =~= ts);
    }
}

/// A toast that was just added and then removed by its id leaves the toasts as they were,
/// when no earlier toast had that id.
pub proof fn law_push_then_remove_restores(
    before: Seq<(u64, ToastKind, Seq<char>)>,
    kind: ToastKind,
    message: Seq<char>,
)
    requires
        forall|i: int| 0 <= i < before.len() ==> #[trigger] before[i].0 != next_id(before),
    ensures
        without_id(before.push((next_id(before), kind, message)), next_id(before)) == before,
{
    let id = next_id(before);
    let after = before.push((id, kind, message));
    assert(after.drop_last() =~= before);
    lemma_without_absent(before, id);
}

} // verus!
