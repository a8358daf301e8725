use vstd::prelude::*;
use std::ops::Range;
use crate::diff_view::{region_order, DiffTextPos, DiffTextRegion, DiffViewMode};

verus! {

/// `a` comes at or before `b`: by row, then column, then offset.
pub open spec fn pos_le(a: DiffTextPos, b: DiffTextPos) -> bool {
    a.visible_ix < b.visible_ix || (a.visible_ix == b.visible_ix && (region_order(a.region)
        < region_order(b.region) || (region_order(a.region) == region_order(b.region) && a.offset
        <= b.offset)))
}

/// The selection as (start, end) in text order, when both ends are set.
pub open spec fn normalized(anchor: Option<DiffTextPos>, head: Option<DiffTextPos>) -> Option<
    (DiffTextPos, DiffTextPos),
> {
    match (anchor, head) {
        (Some(a), Some(b)) => if pos_le(a, b) {
            Some((a, b))
        } else {
            Some((b, a))
        },
        _ => None,
    }
}

/// A selection within one side of the side-by-side view stays in that side.
pub open spec fn split_restricted(mode: DiffViewMode, start: DiffTextPos, end: DiffTextPos) -> bool {
    mode == DiffViewMode::Split && start.region == end.region && (start.region
        == DiffTextRegion::SplitLeft || start.region == DiffTextRegion::SplitRight)
}

/// `x` kept at most `len`.
pub open spec fn at_most(x: usize, len: usize) -> usize {
    if x < len {
        x
    } else {
        len
    }
}

/// The part of the text of row `visible_ix`, column `region` (of length `text_len`) that
/// the selection covers, as a byte range.
pub open spec fn local_range(
    sel: Option<(DiffTextPos, DiffTextPos)>,
    mode: DiffViewMode,
    visible_ix: usize,
    region: DiffTextRegion,
    text_len: usize,
) -> Option<(usize, usize)> {
    match sel {
        None => None,
        Some((start, end)) => {
            let ro = region_order(region);
            let so = region_order(start.region);
            let eo = region_order(end.region);
            if start == end {
                None
            } else if visible_ix < start.visible_ix || visible_ix > end.visible_ix {
                None
            } else if split_restricted(mode, start, end) && start.region != region {
                None
            } else if start.visible_ix == end.visible_ix && visible_ix == start.visible_ix {
                if ro < so || ro > eo {
                    None
                } else {
                    let a = if region == start.region {
                        at_most(start.offset, text_len)
                    } else {
                        0
                    };
                    let b = if region == end.region {
                        at_most(end.offset, text_len)
                    } else {
                        text_len
                    };
                    if a >= b {
                        None
                    } else {
                        Some((a, b))
                    }
                }
            } else if visible_ix == start.visible_ix {
                if ro < so {
                    None
                } else {
                    let a = if region == start.region {
                        at_most(start.offset, text_len)
                    } else {
                        0
                    };
                    if a >= text_len {
                        None
                    } else {
                        Some((a, text_len))
                    }
                }
            } else if visible_ix == end.visible_ix {
                if ro > eo {
                    None
                } else {
                    let b = if region == end.region {
                        at_most(end.offset, text_len)
                    } else {
                        text_len
                    };
                    if 0 >= b {
                        None
                    } else {
                        Some((0, b))
                    }
                }
            } else if 0 >= text_len {
                None
            } else {
                Some((0, text_len))
            }
        },
    }
}

/// The state of selecting text in the diff view: whether a drag is under way, where the
/// selection was started (anchor) and where it now ends (head), and how many of the next
/// clicks to ignore because they finish a drag or a double click.
#[derive(Clone, Copy, Debug, PartialEq, Eq)]
pub struct DiffTextSelection {
    pub selecting: bool,
    pub anchor: Option<DiffTextPos>,
    pub head: Option<DiffTextPos>,
    pub suppress_clicks_remaining: u8,
}

impl DiffTextSelection {
    /// The selection in text order, when both ends are set.
    pub fn diff_text_normalized_selection(&self) -> (r: Option<(DiffTextPos, DiffTextPos)>)
        ensures
            r == normalized(self.anchor, self.head),
    {
        let a = match self.anchor {
            Some(a) => a,
            None => {
                return None;
            },
        };
        let b = match self.head {
            Some(b) => b,
            None => {
                return None;
            },
        };
        let ka = a.cmp_key();
        let kb = b.cmp_key();
        let le = ka.0 < kb.0 || (ka.0 == kb.0 && (ka.1 < kb.1 || (ka.1 == kb.1 && ka.2 <= kb.2)));
        if le {
            Some((a, b))
        } else {
            Some((b, a))
        }
    }

    /// Whether some text is selected: both ends set and apart.
    pub fn diff_text_has_selection(&self) -> (r: bool)
        ensures
            r == match normalized(self.anchor, self.head) {
                Some((a, b)) => a != b,
                None => false,
            },
    {
        match self.diff_text_normalized_selection() {
            Some((a, b)) => a != b,
            None => false,
        }
    }

    /// The byte range of the text of row `visible_ix`, column `region`, of length
    /// `text_len`, that the selection covers, if any.
    pub fn diff_text_local_selection_range(
        &self,
        mode: DiffViewMode,
        visible_ix: usize,
        region: DiffTextRegion,
        text_len: usize,
    ) -> (r: Option<Range<usize>>)
        ensures
            match r {
                Some(rg) => local_range(normalized(self.anchor, self.head), mode, visible_ix, region, text_len)
                    == Some((rg.start, rg.end)),
                None => local_range(normalized(self.anchor, self.head), mode, visible_ix, region, text_len)
                    is None,
            },
    {
        let (start, end) = match self.diff_text_normalized_selection() {
            Some(p) => p,
            None => {
                return None;
            },
        };
        if start == end {
            return None;
        }
        if visible_ix < start.visible_ix || visible_ix > end.visible_ix {
            return None;
        }
        let side = match start.region {
            DiffTextRegion::SplitLeft => true,
            DiffTextRegion::SplitRight => true,
            DiffTextRegion::Inline => false,
        };
        let restricted = mode == DiffViewMode::Split && start.region == end.region && side;
        if restricted && start.region != region {
            return None;
        }
        let region_order = region.order();
        let start_order = start.region.order();
        let end_order = end.region.order();
        let mut a: usize = 0;
        let mut b: usize = text_len;
        if start.visible_ix == end.visible_ix && visible_ix == start.visible_ix {
            if region_order < start_order || region_order > end_order {
                return None;
            }
            if region == start.region {
                a = if start.offset < text_len {
                    start.offset
                } else {
                    text_len
                };
            }
            if region == end.region {
                b = if end.offset < text_len {
                    end.offset
                } else {
                    text_len
                };
            }
        } else if visible_ix == start.visible_ix {
            if region_order < start_order {
                return None;
            }
            if region == start.region {
                a = if start.offset < text_len {
                    start.offset
                } else {
                    text_len
                };
            }
        } else if visible_ix == end.visible_ix {
            if region_order > end_order {
                return None;
            }
            if region == end.region {
                b = if end.offset < text_len {
                    end.offset
                } else {
                    text_len
                };
            }
        }
        if a >= b {
            return None;
        }
        Some(a..b)
    }

    /// Starts a drag selection at `pos` (the text position under the pointer, if any):
    /// both ends there, and no clicks ignored.
    pub fn begin_diff_text_selection(&mut self, pos: Option<DiffTextPos>)
        ensures
            match pos {
                None => *final(self) == *old(self),
                Some(p) => *final(self) == (DiffTextSelection {
                    selecting: true,
                    anchor: Some(p),
                    head: Some(p),
                    suppress_clicks_remaining: 0,
                }),
            },
    {
        if let Some(p) = pos {
            self.selecting = true;
            self.anchor = Some(p);
            self.head = Some(p);
            self.suppress_clicks_remaining = 0;
        }
    }

    /// Moves the end of a drag selection to `pos` (the text position nearest the pointer,
    /// if any); once the selection is not empty, the click that ends the drag is ignored.
    pub fn update_diff_text_selection_from_mouse(&mut self, pos: Option<DiffTextPos>)
        ensures
            if old(self).selecting && pos is Some && old(self).head != pos {
                &&& final(self).head == pos
                &&& final(self).selecting == old(self).selecting
                &&& final(self).anchor == old(self).anchor
                &&& final(self).suppress_clicks_remaining == (if match normalized(
                    old(self).anchor,
                    pos,
                ) {
                    Some((a, b)) => a != b,
                    None => false,
                } {
                    1
                } else {
                    old(self).suppress_clicks_remaining
                })
            } else {
                *final(self) == *old(self)
            },
    {
        if !self.selecting {
            return;
        }
        let p = match pos {
            Some(p) => p,
            None => {
                return;
            },
        };
        let changed = match self.head {
            Some(h) => h != p,
            None => true,
        };
        if changed {
            self.head = Some(p);
            if self.diff_text_has_selection() {
                self.suppress_clicks_remaining = 1;
            }
        }
    }

    /// Ends a drag selection, keeping what was selected.
    pub fn end_diff_text_selection(&mut self)
        ensures
            *final(self) == (DiffTextSelection { selecting: false, ..*old(self) }),
    {
        self.selecting = false;
    }

    /// Whether a click is to be ignored because it finishes a drag or a double click; each
    /// ignored click uses up one.
    pub fn consume_suppress_click_after_drag(&mut self) -> (ignored: bool)
        ensures
            ignored == (old(self).suppress_clicks_remaining > 0),
            *final(self) == (DiffTextSelection {
                suppress_clicks_remaining: if ignored {
                    (old(self).suppress_clicks_remaining - 1) as u8
                } else {
                    0
                },
                ..*old(self)
            }),
    {
        if self.suppress_clicks_remaining > 0 {
            self.suppress_clicks_remaining = self.suppress_clicks_remaining - 1;
            return true;
        }
        false
    }

    /// Selects whole rows `a` to `b` of column `region`, the last one up to `end_text_len`,
    /// and ignores the two clicks of the double click that asked for it.
    pub fn set_diff_text_rows_selection(&mut self, a: usize, b: usize, region: DiffTextRegion, end_text_len: usize)
        ensures
            *final(self) == (DiffTextSelection {
                selecting: false,
                anchor: Some(DiffTextPos { visible_ix: a, region, offset: 0 }),
                head: Some(DiffTextPos { visible_ix: b, region, offset: end_text_len }),
                suppress_clicks_remaining: 2,
            }),
    {
        self.selecting = false;
        self.anchor = Some(DiffTextPos { visible_ix: a, region, offset: 0 });
        self.head = Some(DiffTextPos { visible_ix: b, region, offset: end_text_len });
        self.suppress_clicks_remaining = 2;
    }
}

/// A byte offset in the text of a row copied from the side-by-side view, where the left
/// text, a tab, and the right text are joined.
pub open spec fn combined_offset(pos: DiffTextPos, mode: DiffViewMode, left_len: usize) -> usize {
    match mode {
        DiffViewMode::Inline => pos.offset,
        DiffViewMode::Split => match pos.region {
            DiffTextRegion::SplitRight => {
                let s = left_len + 1 + pos.offset;
                if s > usize::MAX {
                    usize::MAX
                } else {
                    s as usize
                }
            },
            _ => pos.offset,
        },
    }
}

/// The offset of `pos` in the joined text of its row (see `combined_offset`).
pub fn diff_text_combined_offset(pos: DiffTextPos, mode: DiffViewMode, left_len: usize) -> (r: usize)
    ensures
        r == combined_offset(pos, mode, left_len),
{
    match mode {
        DiffViewMode::Inline => pos.offset,
        DiffViewMode::Split => match pos.region {
            DiffTextRegion::SplitLeft => pos.offset,
            DiffTextRegion::SplitRight => left_len.saturating_add(1).saturating_add(pos.offset),
            DiffTextRegion::Inline => pos.offset,
        },
    }
}

/// The rows and column a double click on rows `start` to `end` selects in a list of
/// `list_len` rows: both kept within the list and put in order, in the inline column, or in
/// the clicked side (the left one unless the right one was clicked); none in an empty list.
pub open spec fn rows_range(
    list_len: usize,
    start: usize,
    end: usize,
    region: DiffTextRegion,
    mode: DiffViewMode,
) -> Option<(usize, usize, DiffTextRegion)> {
    if list_len == 0 {
        None
    } else {
        let a = at_most(start, (list_len - 1) as usize);
        let b = at_most(end, (list_len - 1) as usize);
        let r = match mode {
            DiffViewMode::Inline => DiffTextRegion::Inline,
            DiffViewMode::Split => if region == DiffTextRegion::SplitRight {
                DiffTextRegion::SplitRight
            } else {
                DiffTextRegion::SplitLeft
            },
        };
        if a <= b {
            Some((a, b, r))
        } else {
            Some((b, a, r))
        }
    }
}

/// The rows and column that selecting rows `start` to `end` covers (see `rows_range`).
pub fn select_diff_text_rows_range(
    list_len: usize,
    start: usize,
    end: usize,
    region: DiffTextRegion,
    mode: DiffViewMode,
) -> (r: Option<(usize, usize, DiffTextRegion)>)
    ensures
        r == rows_range(list_len, start, end, region, mode),
{
    if list_len == 0 {
        return None;
    }
    let last = list_len - 1;
    let a = if start < last {
        start
    } else {
        last
    };
    let b = if end < last {
        end
    } else {
        last
    };
    let r = match mode {
        DiffViewMode::Inline => DiffTextRegion::Inline,
        DiffViewMode::Split => match region {
            DiffTextRegion::SplitRight => DiffTextRegion::SplitRight,
            _ => DiffTextRegion::SplitLeft,
        },
    };
    if a <= b {
        Some((a, b, r))
    } else {
        Some((b, a, r))
    }
}

/// The column that selecting everything covers: the inline one, or in the side-by-side view
/// the side of the selection's head (else its anchor), the left side when neither lies in a
/// side.
pub open spec fn select_all_region(sel: DiffTextSelection, mode: DiffViewMode) -> DiffTextRegion {
    match mode {
        DiffViewMode::Inline => DiffTextRegion::Inline,
        DiffViewMode::Split => {
            let p = if sel.head is Some {
                sel.head
            } else {
                sel.anchor
            };
            match p {
                Some(q) => if q.region == DiffTextRegion::SplitLeft || q.region
                    == DiffTextRegion::SplitRight {
                    q.region
                } else {
                    DiffTextRegion::SplitLeft
                },
                None => DiffTextRegion::SplitLeft,
            }
        },
    }
}

impl DiffTextSelection {
    /// The column that selecting everything covers (see `select_all_region`).
    pub fn select_all_region(&self, mode: DiffViewMode) -> (r: DiffTextRegion)
        ensures
            r == select_all_region(*self, mode),
    {
        match mode {
            DiffViewMode::Inline => DiffTextRegion::Inline,
            DiffViewMode::Split => {
                let p = match self.head {
                    Some(h) => Some(h),
                    None => self.anchor,
                };
                match p {
                    Some(q) => match q.region {
                        DiffTextRegion::SplitLeft => DiffTextRegion::SplitLeft,
                        DiffTextRegion::SplitRight => DiffTextRegion::SplitRight,
                        DiffTextRegion::Inline => DiffTextRegion::SplitLeft,
                    },
                    None => DiffTextRegion::SplitLeft,
                }
            },
        }
    }

    /// Selects everything from the start of row 0 to the end (`end_text_len`) of row
    /// `last_ix`, in column `region`.
    pub fn set_all_selected(&mut self, last_ix: usize, region: DiffTextRegion, end_text_len: usize)
        ensures
            *final(self) == (DiffTextSelection {
                selecting: false,
                anchor: Some(DiffTextPos { visible_ix: 0, region, offset: 0 }),
                head: Some(DiffTextPos { visible_ix: last_ix, region, offset: end_text_len }),
                ..*old(self)
            }),
    {
        self.selecting = false;
        self.anchor = Some(DiffTextPos { visible_ix: 0, region, offset: 0 });
        self.head = Some(DiffTextPos { visible_ix: last_ix, region, offset: end_text_len });
    }
}

} // verus!

verus! {

/// Of two set ends, the normalized selection holds both, the one in text order first.
pub proof fn law_normalized_selection_is_ordered(anchor: DiffTextPos, head: DiffTextPos)
    ensures
        ({
            let (s, e) = normalized(Some(anchor), Some(head)).unwrap();
            &&& pos_le(s, e)
            &&& (s == anchor && e == head) || (s == head && e == anchor)
        }),
{
}

/// The part of a row's text that a selection covers is never empty and never runs past the
/// end of the text.
pub proof fn law_local_range_within_text(
    sel: Option<(DiffTextPos, DiffTextPos)>,
    mode: DiffViewMode,
    visible_ix: usize,
    region: DiffTextRegion,
    text_len: usize,
)
    ensures
        match local_range(sel, mode, visible_ix, region, text_len) {
            Some((a, b)) => a < b <= text_len,
            None => true,
        },
{
}

} // verus!
