use vstd::prelude::*;

verus! {

/// An item of a context menu; `A` is the action an entry triggers.
#[derive(Clone, Debug, PartialEq, Eq)]
pub enum ContextMenuItem<A> {
    Separator,
    Header(String),
    Label(String),
    Entry {
        label: String,
        icon: Option<String>,
        shortcut: Option<String>,
        disabled: bool,
        action: A,
    },
}

/// The items of an open context menu.
#[derive(Clone, Debug)]
pub struct ContextMenuModel<A> {
    pub items: Vec<ContextMenuItem<A>>,
}

/// Item `ix` exists and is an enabled entry.
pub open spec fn selectable<A>(items: Seq<ContextMenuItem<A>>, ix: int) -> bool {
    0 <= ix < items.len() && (items[ix] matches ContextMenuItem::Entry { disabled, .. } && !disabled)
}

/// The first selectable item at or after `i`.
pub open spec fn first_selectable_from<A>(items: Seq<ContextMenuItem<A>>, i: int) -> Option<int>
    decreases items.len() - i,
{
    if i < 0 || i >= items.len() {
        None
    } else if selectable(items, i) {
        Some(i)
    } else {
        first_selectable_from(items, i + 1)
    }
}

/// The last selectable item before `i`.
pub open spec fn last_selectable_before<A>(items: Seq<ContextMenuItem<A>>, i: int) -> Option<int>
    decreases i,
{
    if i <= 0 || i > items.len() {
        None
    } else if selectable(items, i - 1) {
        Some(i - 1)
    } else {
        last_selectable_before(items, i - 1)
    }
}

/// The position reached from `from` after `k` steps of `dir`, wrapping around `n` items.
pub open spec fn wrap_step(from: int, dir: int, n: int, k: nat) -> int
    decreases k,
{
    if k == 0 {
        from
    } else {
        (wrap_step(from, dir, n, (k - 1) as nat) + dir) % n
    }
}

/// The first of steps `k..=n` from `from` that lands on a selectable item.
pub open spec fn next_from<A>(items: Seq<ContextMenuItem<A>>, from: int, dir: int, k: nat) -> Option<int>
    decreases items.len() + 1 - k,
{
    if k == 0 || k > items.len() {
        None
    } else if selectable(items, wrap_step(from, dir, items.len() as int, k)) {
        Some(wrap_step(from, dir, items.len() as int, k))
    } else {
        next_from(items, from, dir, k + 1)
    }
}

/// The item that keyboard navigation moves to from `from` in direction `dir`: without a
/// current item, the first (or, going back, the last) selectable one; else the first
/// selectable item met by stepping `dir` at a time, wrapping around, within one round.
pub open spec fn next_selectable_spec<A>(
    items: Seq<ContextMenuItem<A>>,
    from: Option<usize>,
    dir: int,
) -> Option<int> {
    if items.len() == 0 {
        None
    } else {
        match from {
            None => if dir >= 0 {
                first_selectable_from(items, 0)
            } else {
                last_selectable_before(items, items.len() as int)
            },
            Some(f) => next_from(items, f as int, dir, 1),
        }
    }
}

/// An optional index as an integer.
pub open spec fn opt_int(o: Option<usize>) -> Option<int> {
    match o {
        Some(x) => Some(x as int),
        None => None,
    }
}

impl<A> ContextMenuModel<A> {
    /// A menu of these items.
    pub fn new(items: Vec<ContextMenuItem<A>>) -> (m: Self)
        ensures
            m.items@ == items@,
    {
        ContextMenuModel { items }
    }

    /// Whether item `ix` exists and is an enabled entry.
    pub fn is_selectable(&self, ix: usize) -> (r: bool)
        ensures
            r == selectable(self.items@, ix as int),
    {
        if ix >= self.items.len() {
            return false;
        }
        match &self.items[ix] {
            ContextMenuItem::Entry { disabled, .. } => !*disabled,
            _ => false,
        }
    }

    /// The first selectable item.
    pub fn first_selectable(&self) -> (r: Option<usize>)
        ensures
            opt_int(r) == first_selectable_from(self.items@, 0),
    {
        let mut ix: usize = 0;
        while ix < self.items.len()
            invariant
                ix <= self.items@.len(),
                first_selectable_from(self.items@, 0) == first_selectable_from(
                    self.items@,
                    ix as int,
                ),
            decreases self.items@.len() - ix,
        {
            if self.is_selectable(ix) {
                return Some(ix);
            }
            ix = ix + 1;
        }
        None
    }

    /// The last selectable item.
    pub fn last_selectable(&self) -> (r: Option<usize>)
        ensures
            opt_int(r) == last_selectable_before(self.items@, self.items@.len() as int),
    {
        let mut ix: usize = self.items.len();
        while ix > 0
            invariant
                ix <= self.items@.len(),
                last_selectable_before(self.items@, self.items@.len() as int)
                    == last_selectable_before(self.items@, ix as int),
            decreases ix,
        {
            if self.is_selectable(ix - 1) {
                return Some(ix - 1);
            }
            ix = ix - 1;
        }
        None
    }

    /// The item that keyboard navigation moves to from `from` in direction `dir`.
    pub fn next_selectable(&self, from: Option<usize>, dir: isize) -> (r: Option<usize>)
        requires
            self.items@.len() + (if dir >= 0 {
                dir as int
            } else {
                -dir
            }) <= isize::MAX,
            from matches Some(f) ==> f + (if dir >= 0 {
                dir as int
            } else {
                -dir
            }) <= isize::MAX,
        ensures
            opt_int(r) == next_selectable_spec(self.items@, from, dir as int),
    {
        let n = self.items.len();
        if n == 0 {
            return None;
        }
        let f = match from {
            None => {
                return if dir >= 0 {
                    self.first_selectable()
                } else {
                    self.last_selectable()
                };
            },
            Some(f) => f,
        };
        let ghost fi = f as int;
        let ghost di = dir as int;
        let mut ix: usize = wrap_once(f, dir, n);
        let mut k: usize = 1;
        proof {
            assert(wrap_step(fi, di, n as int, 1) == (wrap_step(fi, di, n as int, 0) + di) % (
            n as int));
        }
        while k <= n
            invariant
                1 <= k <= n + 1,
                n == self.items@.len(),
                n > 0,
                n + (if dir >= 0 {
                    dir as int
                } else {
                    -dir
                }) <= isize::MAX,
                k <= n ==> ix as int == wrap_step(fi, di, n as int, k as nat),
                ix < n,
                next_selectable_spec(self.items@, from, di) == next_from(
                    self.items@,
                    fi,
                    di,
                    k as nat,
                ),
                from == Some(f),
                fi == f as int,
                di == dir as int,
            decreases n + 1 - k,
        {
            if self.is_selectable(ix) {
                return Some(ix);
            }
            if k < n {
                ix = wrap_once(ix, dir, n);
                proof {
                    assert(wrap_step(fi, di, n as int, (k + 1) as nat) == (wrap_step(
                        fi,
                        di,
                        n as int,
                        k as nat,
                    ) + di) % (n as int));
                }
            }
            k = k + 1;
        }
        None
    }
}

/// `(ix + dir)` wrapped into `0..n`.
fn wrap_once(ix: usize, dir: isize, n: usize) -> (r: usize)
    requires
        n > 0,
        n <= isize::MAX,
        ix + (if dir >= 0 {
            dir as int
        } else {
            -dir
        }) <= isize::MAX,
    ensures
        r as int == (ix as int + dir as int) % (n as int),
        r < n,
{
    if dir >= 0 {
        let d = dir as usize;
        let r = (ix + d) % n;
        r
    } else {
        let d = (-dir) as usize;
        let dm = d % n;
        let im = ix % n;
        assert(im < n && dm < n);
        let r = (im + (n - dm)) % n;
        proof {
            let ni = n as int;
            vstd::arithmetic::div_mod::lemma_fundamental_div_mod(d as int, ni);
            vstd::arithmetic::div_mod::lemma_fundamental_div_mod(ix as int, ni);
            let q = (d as int) / ni;
            let p = (ix as int) / ni;
            assert(ix as int + dir as int == (im as int + (ni - dm as int)) + ni * (p - q - 1)) by (nonlinear_arith)
                requires
                    d as int == -(dir as int),
                    d as int == ni * q + dm as int,
                    ix as int == ni * p + im as int,
            ;
            vstd::arithmetic::div_mod::lemma_mod_multiples_vanish(
                p - q - 1,
                im as int + (ni - dm as int),
                ni,
            );
        }
        r
    }
}

/// The kinds of window edge and corner that a drag can resize from.
#[derive(Clone, Copy, Debug, PartialEq, Eq, Structural)]
pub enum ResizeEdge {
    Top,
    TopRight,
    Right,
    BottomRight,
    Bottom,
    BottomLeft,
    Left,
    TopLeft,
}

/// The mouse cursors shown over a resize edge.
#[derive(Clone, Copy, Debug, PartialEq, Eq, Structural)]
pub enum CursorStyle {
    ResizeUpDown,
    ResizeLeftRight,
    ResizeUpLeftDownRight,
    ResizeUpRightDownLeft,
}

/// The cursor for an edge: vertical arrows on the top and bottom edges, horizontal ones on
/// the sides, and diagonal ones on the corners along their diagonal.
pub open spec fn resize_cursor(edge: ResizeEdge) -> CursorStyle {
    match edge {
        ResizeEdge::Top | ResizeEdge::Bottom => CursorStyle::ResizeUpDown,
        ResizeEdge::Left | ResizeEdge::Right => CursorStyle::ResizeLeftRight,
        ResizeEdge::TopLeft | ResizeEdge::BottomRight => CursorStyle::ResizeUpLeftDownRight,
        ResizeEdge::TopRight | ResizeEdge::BottomLeft => CursorStyle::ResizeUpRightDownLeft,
    }
}

/// The cursor to show over a resize edge.
pub fn cursor_style_for_resize_edge(edge: ResizeEdge) -> (c: CursorStyle)
    ensures
        c == resize_cursor(edge),
{
    match edge {
        ResizeEdge::Top | ResizeEdge::Bottom => CursorStyle::ResizeUpDown,
        ResizeEdge::Left | ResizeEdge::Right => CursorStyle::ResizeLeftRight,
        ResizeEdge::TopLeft | ResizeEdge::BottomRight => CursorStyle::ResizeUpLeftDownRight,
        ResizeEdge::TopRight | ResizeEdge::BottomLeft => CursorStyle::ResizeUpRightDownLeft,
    }
}

/// The most files the commit details panel lists.
pub const COMMIT_DETAILS_FILES_RENDER_LIMIT: usize = 500;

/// Of a commit's files, how many the details panel lists and how many it leaves out.
pub fn commit_details_file_counts(total_files: usize) -> (r: (usize, usize))
    ensures
        r.0 == if total_files < COMMIT_DETAILS_FILES_RENDER_LIMIT {
            total_files
        } else {
            COMMIT_DETAILS_FILES_RENDER_LIMIT
        },
        r.0 + r.1 == total_files,
{
    let shown = if total_files < COMMIT_DETAILS_FILES_RENDER_LIMIT {
        total_files
    } else {
        COMMIT_DETAILS_FILES_RENDER_LIMIT
    };
    (shown, total_files - shown)
}

} // verus!
