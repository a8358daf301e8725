use vstd::prelude::*;
use std::collections::{HashMap, HashSet};

verus! {

/// The number of colors that lanes cycle through.
pub const PALETTE_LEN: usize = 24;

/// A lane of the commit graph, numbered in order of creation from 1.
#[derive(Clone, Copy, Debug, PartialEq, Eq, Hash, Structural)]
pub struct LaneId(pub u64);

/// A lane as drawn: its id and its palette color.
#[derive(Clone, Copy, Debug, PartialEq, Eq, Structural)]
pub struct LanePaint {
    pub id: LaneId,
    pub color: usize,
}

/// A line drawn between two lane columns, in the color of a lane.
#[derive(Clone, Copy, Debug, PartialEq, Eq, Structural)]
pub struct GraphEdge {
    pub from_col: usize,
    pub to_col: usize,
    pub color: usize,
}

/// One row of the commit graph: the lanes coming in, the lanes on the commit's row and
/// going out, the lanes that join into the commit's node, the edges from the node to the
/// lanes of its other parents, and the node's lane.
#[derive(Clone, Debug)]
pub struct GraphRow {
    pub incoming_ids: Vec<LaneId>,
    pub lanes_now: Vec<LanePaint>,
    pub lanes_next: Vec<LanePaint>,
    pub joins_in: Vec<GraphEdge>,
    pub edges_out: Vec<GraphEdge>,
    pub node_id: LaneId,
    pub node_col: usize,
    pub is_merge: bool,
}

/// A commit as the graph sees it: its id and its parents' ids, in order.
#[derive(Clone, Debug, PartialEq, Eq)]
pub struct GraphCommit {
    pub id: u64,
    pub parent_ids: Vec<u64>,
}

#[derive(Clone, Copy, Debug)]
struct LaneState {
    id: LaneId,
    color: usize,
    target: u64,
}

/// A lane while the graph is laid out: its id, its color, and the commit it runs to.
pub struct LaneV {
    pub id: u64,
    pub color: nat,
    pub target: u64,
}

/// Where the layout stands between two rows.
pub struct GraphStateV {
    pub lanes: Seq<LaneV>,
    pub next_id: nat,
    pub next_color: nat,
    pub main_lane: Option<u64>,
}

/// The value of a graph row.
pub struct GraphRowV {
    pub incoming_ids: Seq<u64>,
    pub lanes_now: Seq<(u64, nat)>,
    pub lanes_next: Seq<(u64, nat)>,
    pub joins_in: Seq<(nat, nat, nat)>,
    pub edges_out: Seq<(nat, nat, nat)>,
    pub node_id: u64,
    pub node_col: nat,
    pub is_merge: bool,
}

spec fn lane_v(l: LaneState) -> LaneV {
    LaneV { id: l.id.0, color: l.color as nat, target: l.target }
}

spec fn lanes_v(ls: Seq<LaneState>) -> Seq<LaneV> {
    ls.map_values(|l: LaneState| lane_v(l))
}

/// The ids of the lanes.
pub open spec fn lane_ids(ls: Seq<LaneV>) -> Seq<u64> {
    ls.map_values(|l: LaneV| l.id)
}

/// The lanes as drawn.
pub open spec fn lane_paints(ls: Seq<LaneV>) -> Seq<(u64, nat)> {
    ls.map_values(|l: LaneV| (l.id, l.color))
}

/// The value of an edge.
pub open spec fn edge_v(e: GraphEdge) -> (nat, nat, nat) {
    (e.from_col as nat, e.to_col as nat, e.color as nat)
}

/// The value of a row.
pub open spec fn row_v(r: GraphRow) -> GraphRowV {
    GraphRowV {
        incoming_ids: r.incoming_ids@.map_values(|l: LaneId| l.0),
        lanes_now: r.lanes_now@.map_values(|p: LanePaint| (p.id.0, p.color as nat)),
        lanes_next: r.lanes_next@.map_values(|p: LanePaint| (p.id.0, p.color as nat)),
        joins_in: r.joins_in@.map_values(|e: GraphEdge| edge_v(e)),
        edges_out: r.edges_out@.map_values(|e: GraphEdge| edge_v(e)),
        node_id: r.node_id.0,
        node_col: r.node_col as nat,
        is_merge: r.is_merge,
    }
}

/// The values of the rows.
pub open spec fn rows_v(rs: Seq<GraphRow>) -> Seq<GraphRowV> {
    rs.map_values(|r: GraphRow| row_v(r))
}

/// The commit ids of the log.
pub open spec fn commit_ids(cs: Seq<GraphCommit>) -> Seq<u64> {
    cs.map_values(|c: GraphCommit| c.id)
}

/// A commit id that the log holds.
pub open spec fn is_known(cs: Seq<GraphCommit>, p: u64) -> bool {
    commit_ids(cs).contains(p)
}

/// The parents of `c` that the log holds, in order.
pub open spec fn known_parents(cs: Seq<GraphCommit>, c: GraphCommit) -> Seq<u64> {
    c.parent_ids@.filter(|p: u64| is_known(cs, p))
}

/// The last position in the log of the commit with id `id`.
pub open spec fn last_index_of(cs: Seq<GraphCommit>, id: u64, n: int) -> Option<int>
    decreases n,
{
    if n <= 0 {
        None
    } else if cs[n - 1].id == id {
        Some(n - 1)
    } else {
        last_index_of(cs, id, n - 1)
    }
}

/// The next commit on the first-parent chain after commit `id`: its first parent, when the
/// log holds it.
pub open spec fn chain_next(cs: Seq<GraphCommit>, id: u64) -> Option<u64> {
    match last_index_of(cs, id, cs.len() as int) {
        None => None,
        Some(i) => if cs[i].parent_ids@.len() > 0 && is_known(cs, cs[i].parent_ids@[0]) {
            Some(cs[i].parent_ids@[0])
        } else {
            None
        },
    }
}

/// The ids on the first-parent chain from `cur`, added to `seen`, until the chain ends or
/// comes back to an id it has seen.
pub open spec fn chain_from(cs: Seq<GraphCommit>, cur: u64, seen: Set<u64>, fuel: nat) -> Set<u64>
    decreases fuel,
{
    if fuel == 0 || seen.contains(cur) {
        seen
    } else {
        match chain_next(cs, cur) {
            None => seen.insert(cur),
            Some(p) => chain_from(cs, p, seen.insert(cur), (fuel - 1) as nat),
        }
    }
}

/// The main line: the first-parent chain from the first commit of the log.
pub open spec fn head_chain(cs: Seq<GraphCommit>) -> Set<u64> {
    if cs.len() == 0 {
        Set::empty()
    } else {
        chain_from(cs, cs[0].id, Set::empty(), cs.len() + 1)
    }
}

/// The columns of the lanes that run to commit `t`, in order.
pub open spec fn hits_of(ls: Seq<LaneV>, t: u64, k: int) -> Seq<nat>
    decreases k,
{
    if k <= 0 {
        Seq::empty()
    } else if ls[k - 1].target == t {
        hits_of(ls, t, k - 1).push((k - 1) as nat)
    } else {
        hits_of(ls, t, k - 1)
    }
}

/// The first of `hits` whose lane has id `m`.
pub open spec fn first_hit_with_id(ls: Seq<LaneV>, hits: Seq<nat>, m: u64) -> Option<nat>
    decreases hits.len(),
{
    if hits.len() == 0 {
        None
    } else if ls[hits[0] as int].id == m {
        Some(hits[0])
    } else {
        first_hit_with_id(ls, hits.drop_first(), m)
    }
}

/// The lanes with lane `hits[k]` for `1 <= k < n` sent on to parent `k`, or ended (sent to
/// the commit itself) when there is no such parent.
pub open spec fn retarget(ls: Seq<LaneV>, hits: Seq<nat>, parents: Seq<u64>, cid: u64, n: int) -> Seq<
    LaneV,
>
    decreases n,
{
    if n <= 1 {
        ls
    } else {
        let prev = retarget(ls, hits, parents, cid, n - 1);
        let ix = hits[n - 1] as int;
        prev.update(
            ix,
            LaneV {
                target: if n - 1 < parents.len() {
                    parents[n - 1]
                } else {
                    cid
                },
                ..prev[ix]
            },
        )
    }
}

/// Some lane runs to `p`.
pub open spec fn targets(ls: Seq<LaneV>, p: u64) -> bool {
    exists|i: int| 0 <= i < ls.len() && #[trigger] ls[i].target == p
}

/// The state of new lane insertion for a merge's extra parents.
pub struct InsertV {
    pub lanes: Seq<LaneV>,
    pub at: int,
    pub next_id: nat,
    pub next_color: nat,
}

/// After considering parents `from..k`: each one that no lane runs to yet gets a new lane,
/// inserted after the node's lane and the lanes inserted before it.
pub open spec fn insert_parents(s: InsertV, parents: Seq<u64>, from: int, k: int) -> InsertV
    decreases k - from,
{
    if k <= from {
        s
    } else {
        let prev = insert_parents(s, parents, from, k - 1);
        let p = parents[k - 1];
        if targets(prev.lanes, p) {
            prev
        } else {
            InsertV {
                lanes: prev.lanes.insert(
                    prev.at,
                    LaneV { id: prev.next_id as u64, color: prev.next_color % 24, target: p },
                ),
                at: prev.at + 1,
                next_id: prev.next_id + 1,
                next_color: prev.next_color + 1,
            }
        }
    }
}

/// The lanes that go on below the commit's row: those that run to a commit of the log
/// other than this one.
pub open spec fn kept_lanes(cs: Seq<GraphCommit>, ls: Seq<LaneV>, cid: u64) -> Seq<LaneV> {
    ls.filter(|l: LaneV| is_known(cs, l.target) && l.target != cid)
}

/// The first lane that runs to `p` and was already drawn on the commit's row.
pub open spec fn first_lane_to(ls: Seq<LaneV>, now_ids: Seq<u64>, p: u64) -> Option<LaneV>
    decreases ls.len(),
{
    if ls.len() == 0 {
        None
    } else if ls[0].target == p && now_ids.contains(ls[0].id) {
        Some(ls[0])
    } else {
        first_lane_to(ls.drop_first(), now_ids, p)
    }
}

/// The last column of the lane with id `id` below the row.
pub open spec fn last_col_of(next: Seq<(u64, nat)>, id: u64, n: int) -> Option<nat>
    decreases n,
{
    if n <= 0 {
        None
    } else if next[n - 1].0 == id {
        Some((n - 1) as nat)
    } else {
        last_col_of(next, id, n - 1)
    }
}

/// The edges from the node at `col` to the lanes of parents `1..k` that were drawn on the
/// row already.
pub open spec fn edges_out_of(
    kept: Seq<LaneV>,
    now_ids: Seq<u64>,
    next: Seq<(u64, nat)>,
    parents: Seq<u64>,
    col: nat,
    k: int,
) -> Seq<(nat, nat, nat)>
    decreases k,
{
    if k <= 1 {
        Seq::empty()
    } else {
        let prev = edges_out_of(kept, now_ids, next, parents, col, k - 1);
        match first_lane_to(kept, now_ids, parents[k - 1]) {
            None => prev,
            Some(l) => match last_col_of(next, l.id, next.len() as int) {
                None => prev,
                Some(to) => prev.push((col, to, next[to as int].1)),
            },
        }
    }
}

/// One row of the layout: the row for commit `c` and the state after it.
///
/// The lanes that run to `c` meet in its node (a new lane starts when none does). The node
/// takes the main line's lane when `c` is on the main line and that lane runs to it, else
/// the first such lane; the first node fixes the main line's lane. The node's lane goes on
/// to the first parent (or ends), the other meeting lanes go on to the next parents in
/// order or end, and each remaining parent that no lane runs to gets a new lane right of
/// the node. Lanes that ended leave.
pub open spec fn graph_step(
    cs: Seq<GraphCommit>,
    head: Set<u64>,
    st: GraphStateV,
    c: GraphCommit,
) -> (GraphRowV, GraphStateV) {
    let incoming = lane_ids(st.lanes);
    let h0 = hits_of(st.lanes, c.id, st.lanes.len() as int);
    let lanes1 = if h0.len() == 0 {
        st.lanes.push(LaneV { id: st.next_id as u64, color: st.next_color % 24, target: c.id })
    } else {
        st.lanes
    };
    let hits = if h0.len() == 0 {
        seq![st.lanes.len()]
    } else {
        h0
    };
    let nid1 = if h0.len() == 0 {
        st.next_id + 1
    } else {
        st.next_id
    };
    let ncol1 = if h0.len() == 0 {
        st.next_color + 1
    } else {
        st.next_color
    };
    let parents = known_parents(cs, c);
    let now = lane_paints(lanes1);
    let node_col = match st.main_lane {
        Some(m) => if head.contains(c.id) {
            match first_hit_with_id(lanes1, hits, m) {
                Some(ix) => ix,
                None => hits[0],
            }
        } else {
            hits[0]
        },
        None => hits[0],
    };
    let node_id = lanes1[node_col as int].id;
    let joins = Seq::new(
        (hits.len() - 1) as nat,
        |k: int| (hits[k + 1], node_col, lanes1[hits[k + 1] as int].color),
    );
    let lanes2 = lanes1.update(
        node_col as int,
        LaneV {
            target: if parents.len() > 0 {
                parents[0]
            } else {
                c.id
            },
            ..lanes1[node_col as int]
        },
    );
    let lanes3 = retarget(lanes2, hits, parents, c.id, hits.len() as int);
    let covered = if parents.len() == 0 {
        1
    } else if hits.len() < parents.len() {
        hits.len() as int
    } else {
        parents.len() as int
    };
    let ins = if parents.len() > covered {
        insert_parents(
            InsertV { lanes: lanes3, at: node_col as int + 1, next_id: nid1, next_color: ncol1 },
            parents,
            covered,
            parents.len() as int,
        )
    } else {
        InsertV { lanes: lanes3, at: node_col as int + 1, next_id: nid1, next_color: ncol1 }
    };
    let kept = kept_lanes(cs, ins.lanes, c.id);
    let next = lane_paints(kept);
    let edges = edges_out_of(kept, lane_ids(lanes1), next, parents, node_col, parents.len() as int);
    (
        GraphRowV {
            incoming_ids: incoming,
            lanes_now: now,
            lanes_next: next,
            joins_in: joins,
            edges_out: edges,
            node_id,
            node_col,
            is_merge: c.parent_ids@.len() > 1,
        },
        GraphStateV {
            lanes: kept,
            next_id: ins.next_id,
            next_color: ins.next_color,
            main_lane: match st.main_lane {
                Some(m) => Some(m),
                None => Some(node_id),
            },
        },
    )
}

/// The rows for the first `n` commits and the state after them.
pub open spec fn graph_run(cs: Seq<GraphCommit>, n: int) -> (Seq<GraphRowV>, GraphStateV)
    decreases n,
{
    if n <= 0 {
        (
            Seq::empty(),
            GraphStateV { lanes: Seq::empty(), next_id: 1, next_color: 0, main_lane: None },
        )
    } else {
        let prev = graph_run(cs, n - 1);
        let (row, st) = graph_step(cs, head_chain(cs), prev.1, cs[n - 1]);
        (prev.0.push(row), st)
    }
}

/// The graph rows of a commit log, newest commit first.
pub open spec fn graph_rows(cs: Seq<GraphCommit>) -> Seq<GraphRowV> {
    graph_run(cs, cs.len() as int).0
}

} // verus!

verus! {

/// The columns as natural numbers.
pub open spec fn nats(v: Seq<usize>) -> Seq<nat> {
    v.map_values(|x: usize| x as nat)
}

fn lane_hits(lanes: &Vec<LaneState>, t: u64) -> (hits: Vec<usize>)
    ensures
        nats(hits@) == hits_of(lanes_v(lanes@), t, lanes@.len() as int),
        forall|k: int| 0 <= k < hits@.len() ==> #[trigger] hits@[k] < lanes@.len(),
        forall|a: int, b: int| 0 <= a < b < hits@.len() ==> hits@[a] < hits@[b],
{
    let mut hits: Vec<usize> = Vec::new();
    let mut ix: usize = 0;
    while ix < lanes.len()
        invariant
            ix <= lanes@.len(),
            nats(hits@) == hits_of(lanes_v(lanes@), t, ix as int),
            forall|k: int| 0 <= k < hits@.len() ==> #[trigger] hits@[k] < ix,
            forall|a: int, b: int| 0 <= a < b < hits@.len() ==> hits@[a] < hits@[b],
        decreases lanes@.len() - ix,
    {
        if lanes[ix].target == t {
            hits.push(ix);
        }
        assert(nats(hits@) =~= hits_of(lanes_v(lanes@), t, ix + 1));
        ix = ix + 1;
    }
    hits
}

fn first_hit_lane(lanes: &Vec<LaneState>, hits: &Vec<usize>, m: u64) -> (r: Option<usize>)
    requires
        forall|k: int| 0 <= k < hits@.len() ==> #[trigger] hits@[k] < lanes@.len(),
    ensures
        match r {
            Some(ix) => first_hit_with_id(lanes_v(lanes@), nats(hits@), m) == Some(ix as nat)
                && ix < lanes@.len(),
            None => first_hit_with_id(lanes_v(lanes@), nats(hits@), m) is None,
        },
{
    let mut j: usize = 0;
    assert(nats(hits@).skip(0) =~= nats(hits@));
    while j < hits.len()
        invariant
            j <= hits@.len(),
            forall|k: int| 0 <= k < hits@.len() ==> #[trigger] hits@[k] < lanes@.len(),
            first_hit_with_id(lanes_v(lanes@), nats(hits@), m) == first_hit_with_id(
                lanes_v(lanes@),
                nats(hits@).skip(j as int),
                m,
            ),
        decreases hits@.len() - j,
    {
        let ix = hits[j];
        assert(nats(hits@).skip(j as int)[0] == ix as nat);
        if lanes[ix].id.0 == m {
            return Some(ix);
        }
        assert(nats(hits@).skip(j as int).drop_first() =~= nats(hits@).skip(j + 1));
        j = j + 1;
    }
    assert(nats(hits@).skip(j as int).len() == 0);
    None
}

fn retarget_lanes(
    lanes: &mut Vec<LaneState>,
    hits: &Vec<usize>,
    parents: &Vec<u64>,
    cid: u64,
)
    requires
        hits@.len() >= 1,
        forall|k: int| 0 <= k < hits@.len() ==> #[trigger] hits@[k] < old(lanes)@.len(),
    ensures
        final(lanes)@.len() == old(lanes)@.len(),
        lanes_v(final(lanes)@) == retarget(
            lanes_v(old(lanes)@),
            nats(hits@),
            parents@,
            cid,
            hits@.len() as int,
        ),
{
    let ghost l0 = lanes_v(lanes@);
    let mut k: usize = 1;
    while k < hits.len()
        invariant
            1 <= k <= hits@.len(),
            lanes@.len() == l0.len(),
            forall|q: int| 0 <= q < hits@.len() ==> #[trigger] hits@[q] < lanes@.len(),
            lanes_v(lanes@) == retarget(l0, nats(hits@), parents@, cid, k as int),
        decreases hits@.len() - k,
    {
        let ix = hits[k];
        let t = if k < parents.len() {
            parents[k]
        } else {
            cid
        };
        let old_lane = lanes[ix];
        lanes.set(ix, LaneState { id: old_lane.id, color: old_lane.color, target: t });
        proof {
            let prev = retarget(l0, nats(hits@), parents@, cid, k as int);
            assert(nats(hits@)[k as int] == ix as nat);
            assert(lanes_v(lanes@) =~= prev.update(ix as int, LaneV { target: t, ..prev[ix as int] }));
        }
        k = k + 1;
    }
}

fn any_lane_targets(lanes: &Vec<LaneState>, p: u64) -> (r: bool)
    ensures
        r == targets(lanes_v(lanes@), p),
{
    let mut i: usize = 0;
    while i < lanes.len()
        invariant
            i <= lanes@.len(),
            forall|q: int| 0 <= q < i ==> lanes_v(lanes@)[q].target != p,
        decreases lanes@.len() - i,
    {
        if lanes[i].target == p {
            assert(lanes_v(lanes@)[i as int].target == p);
            return true;
        }
        i = i + 1;
    }
    false
}

proof fn lemma_insert_parents_bounds(s: InsertV, parents: Seq<u64>, from: int, k: int)
    requires
        from <= k,
        0 <= s.at <= s.lanes.len(),
    ensures
        insert_parents(s, parents, from, k).next_id <= s.next_id + (k - from),
        insert_parents(s, parents, from, k).next_id >= s.next_id,
        insert_parents(s, parents, from, k).next_color - s.next_color == insert_parents(
            s,
            parents,
            from,
            k,
        ).next_id - s.next_id,
        0 <= insert_parents(s, parents, from, k).at <= insert_parents(s, parents, from, k).lanes.len(),
    decreases k - from,
{
    if k > from {
        lemma_insert_parents_bounds(s, parents, from, k - 1);
    }
}

fn insert_parent_lanes(
    lanes: &mut Vec<LaneState>,
    parents: &Vec<u64>,
    covered: usize,
    at: usize,
    next_id: &mut u64,
    next_color: &mut usize,
)
    requires
        covered <= parents@.len(),
        at <= old(lanes)@.len(),
        *old(next_id) + parents@.len() <= u64::MAX,
        *old(next_color) + parents@.len() <= usize::MAX,
    ensures
        ({
            let r = insert_parents(
                InsertV {
                    lanes: lanes_v(old(lanes)@),
                    at: at as int,
                    next_id: *old(next_id) as nat,
                    next_color: *old(next_color) as nat,
                },
                parents@,
                covered as int,
                parents@.len() as int,
            );
            &&& lanes_v(final(lanes)@) == r.lanes
            &&& *final(next_id) == r.next_id
            &&& *final(next_color) == r.next_color
        }),
{
    let ghost s0 = InsertV {
        lanes: lanes_v(lanes@),
        at: at as int,
        next_id: *next_id as nat,
        next_color: *next_color as nat,
    };
    let ghost nid0 = *next_id;
    let ghost ncol0 = *next_color;
    let mut insert_at = at;
    let mut k: usize = covered;
    while k < parents.len()
        invariant
            covered <= k <= parents@.len(),
            nid0 + parents@.len() <= u64::MAX,
            ncol0 + parents@.len() <= usize::MAX,
            s0.next_id == nid0,
            s0.next_color == ncol0,
            0 <= s0.at <= s0.lanes.len(),
            ({
                let r = insert_parents(s0, parents@, covered as int, k as int);
                &&& lanes_v(lanes@) == r.lanes
                &&& *next_id == r.next_id
                &&& *next_color == r.next_color
                &&& insert_at == r.at
            }),
            insert_at <= lanes@.len(),
        decreases parents@.len() - k,
    {
        proof {
            lemma_insert_parents_bounds(s0, parents@, covered as int, k as int);
        }
        let p = parents[k];
        if !any_lane_targets(lanes, p) {
            let id = LaneId(*next_id);
            *next_id = *next_id + 1;
            let color = *next_color % PALETTE_LEN;
            *next_color = *next_color + 1;
            let ghost before = lanes@;
            lanes.insert(insert_at, LaneState { id, color, target: p });
            let n_now = lanes.len();
            assert(insert_at < n_now);
            insert_at = insert_at + 1;
            proof {
                let prev = insert_parents(s0, parents@, covered as int, k as int);
                assert(lanes_v(lanes@) =~= prev.lanes.insert(
                    prev.at,
                    LaneV { id: prev.next_id as u64, color: prev.next_color % 24, target: p },
                ));
            }
        }
        k = k + 1;
    }
}

fn kept_lane_states(known: &HashSet<u64>, ghost_cs: Ghost<Seq<GraphCommit>>, lanes: &Vec<LaneState>, cid: u64) -> (kept: Vec<LaneState>)
    requires
        known@ == commit_ids(ghost_cs@).to_set(),
    ensures
        lanes_v(kept@) == kept_lanes(ghost_cs@, lanes_v(lanes@), cid),
{
    broadcast use vstd::std_specs::hash::group_hash_axioms;

    proof {
        reveal(Seq::filter);
    }
    let ghost cs = ghost_cs@;
    let ghost f = |l: LaneV| is_known(cs, l.target) && l.target != cid;
    let mut kept: Vec<LaneState> = Vec::new();
    let mut i: usize = 0;
    while i < lanes.len()
        invariant
            i <= lanes@.len(),
            known@ == commit_ids(cs).to_set(),
            f == (|l: LaneV| is_known(cs, l.target) && l.target != cid),
            lanes_v(kept@) == lanes_v(lanes@).take(i as int).filter(f),
        decreases lanes@.len() - i,
    {
        let l = lanes[i];
        let k = known.contains(&l.target);
        proof {
            assert(lanes_v(lanes@).take(i + 1).drop_last() =~= lanes_v(lanes@).take(i as int));
            assert(k == is_known(cs, l.target));
        }
        let ghost s1 = lanes_v(lanes@).take(i + 1);
        proof {
            reveal(Seq::filter);
        }
        assert(s1.last() == lane_v(l));
        assert(f(lane_v(l)) == (k && l.target != cid));
        assert(s1.filter(f) == if f(s1.last()) {
            s1.drop_last().filter(f).push(s1.last())
        } else {
            s1.drop_last().filter(f)
        });
        if k && l.target != cid {
            kept.push(l);
        }
        assert(lanes_v(kept@) =~= s1.filter(f));
        i = i + 1;
    }
    assert(lanes_v(lanes@).take(i as int) =~= lanes_v(lanes@));
    kept
}

} // verus!

verus! {

fn known_ids(commits: &[GraphCommit]) -> (known: HashSet<u64>)
    ensures
        known@ == commit_ids(commits@).to_set(),
{
    broadcast use vstd::std_specs::hash::group_hash_axioms;

    let mut known: HashSet<u64> = HashSet::new();
    let mut i: usize = 0;
    while i < commits.len()
        invariant
            i <= commits@.len(),
            known@ == commit_ids(commits@).take(i as int).to_set(),
        decreases commits@.len() - i,
    {
        known.insert(commits[i].id);
        proof {
            let s = commit_ids(commits@);
            assert(s.take(i + 1) =~= s.take(i as int).push(s[i as int]));
            s.take(i as int).lemma_push_to_set_commute(s[i as int]);
        }
        i = i + 1;
    }
    assert(commit_ids(commits@).take(i as int) =~= commit_ids(commits@));
    known
}

fn last_index_map(commits: &[GraphCommit]) -> (m: HashMap<u64, usize>)
    ensures
        forall|id: u64|
            #![trigger m@.contains_key(id)]
            match last_index_of(commits@, id, commits@.len() as int) {
                Some(j) => m@.contains_key(id) && m@[id] == j,
                None => !m@.contains_key(id),
            },
{
    broadcast use vstd::std_specs::hash::group_hash_axioms;

    let mut m: HashMap<u64, usize> = HashMap::new();
    let mut i: usize = 0;
    while i < commits.len()
        invariant
            i <= commits@.len(),
            forall|id: u64|
                #![trigger m@.contains_key(id)]
                match last_index_of(commits@, id, i as int) {
                    Some(j) => m@.contains_key(id) && m@[id] == j,
                    None => !m@.contains_key(id),
                },
        decreases commits@.len() - i,
    {
        m.insert(commits[i].id, i);
        i = i + 1;
    }
    m
}

proof fn lemma_chain_subset(cs: Seq<GraphCommit>, cur: u64, seen: Set<u64>, fuel: nat)
    requires
        seen.subset_of(commit_ids(cs).to_set()),
        is_known(cs, cur),
    ensures
        chain_from(cs, cur, seen, fuel).subset_of(commit_ids(cs).to_set()),
    decreases fuel,
{
    if fuel > 0 && !seen.contains(cur) {
        match chain_next(cs, cur) {
            None => {},
            Some(p) => {
                lemma_chain_subset(cs, p, seen.insert(cur), (fuel - 1) as nat);
            },
        }
    }
}

proof fn lemma_last_index_range(cs: Seq<GraphCommit>, id: u64, n: int)
    ensures
        last_index_of(cs, id, n) matches Some(j) ==> 0 <= j < n && cs[j].id == id,
    decreases n,
{
    if n > 0 {
        lemma_last_index_range(cs, id, n - 1);
    }
}

fn head_chain_ids(
    commits: &[GraphCommit],
    known: &HashSet<u64>,
    by_id: &HashMap<u64, usize>,
) -> (head: HashSet<u64>)
    requires
        known@ == commit_ids(commits@).to_set(),
        forall|id: u64|
            #![trigger by_id@.contains_key(id)]
            match last_index_of(commits@, id, commits@.len() as int) {
                Some(j) => by_id@.contains_key(id) && by_id@[id] == j,
                None => !by_id@.contains_key(id),
            },
    ensures
        head@ == head_chain(commits@),
{
    broadcast use vstd::std_specs::hash::group_hash_axioms;

    let mut head: HashSet<u64> = HashSet::new();
    if commits.len() == 0 {
        return head;
    }
    let ghost cs = commits@;
    let ghost ids = commit_ids(cs).to_set();
    let n = commits.len();
    proof {
        commit_ids(cs).lemma_cardinality_of_set();
        assert(commit_ids(cs)[0] == cs[0].id);
    }
    let mut cur: u64 = commits[0].id;
    let ghost mut fuel: nat = (n + 1) as nat;
    loop
        invariant_except_break
            n == cs.len(),
            n > 0,
            cs == commits@,
            ids == commit_ids(cs).to_set(),
            known@ == ids,
            ids.len() <= n,
            ids.finite(),
            forall|id: u64|
                #![trigger by_id@.contains_key(id)]
                match last_index_of(cs, id, n as int) {
                    Some(j) => by_id@.contains_key(id) && by_id@[id] == j,
                    None => !by_id@.contains_key(id),
                },
            head@.subset_of(ids),
            head@.finite(),
            ids.contains(cur),
            fuel + head@.len() == n + 1,
            chain_from(cs, cur, head@, fuel) == head_chain(cs),
        ensures
            head@ == head_chain(cs),
        decreases n + 1 - head@.len(),
    {
        proof {
            vstd::set_lib::lemma_len_subset(head@, ids);
        }
        let ghost seen = head@;
        if !head.insert(cur) {
            assert(head@ =~= seen);
            break;
        }
        proof {
            assert(fuel > 0);
            vstd::set_lib::lemma_len_subset(head@, ids);
        }
        let idx = match by_id.get(&cur) {
            Some(i) => *i,
            None => {
                proof {
                    assert(!by_id@.contains_key(cur));
                    assert(chain_next(cs, cur) is None);
                }
                break;
            },
        };
        proof {
            assert(by_id@.contains_key(cur));
            assert(last_index_of(cs, cur, n as int) == Some(idx as int));
            lemma_last_index_range(cs, cur, n as int);
        }
        let c = &commits[idx];
        if c.parent_ids.len() == 0 {
            break;
        }
        let p = c.parent_ids[0];
        if !known.contains(&p) {
            break;
        }
        proof {
            assert(chain_next(cs, cur) == Some(p));
            fuel = (fuel - 1) as nat;
        }
        cur = p;
    }
    head
}

} // verus!

verus! {

fn lane_id_list(lanes: &Vec<LaneState>) -> (ids: Vec<LaneId>)
    ensures
        ids@.map_values(|l: LaneId| l.0) == lane_ids(lanes_v(lanes@)),
{
    let mut ids: Vec<LaneId> = Vec::new();
    let mut i: usize = 0;
    while i < lanes.len()
        invariant
            i <= lanes@.len(),
            ids@.len() == i,
            ids@.map_values(|l: LaneId| l.0) == lane_ids(lanes_v(lanes@)).take(i as int),
        decreases lanes@.len() - i,
    {
        ids.push(lanes[i].id);
        assert(lane_ids(lanes_v(lanes@))[i as int] == lanes@[i as int].id.0);
        assert(ids@.map_values(|l: LaneId| l.0) =~= lane_ids(lanes_v(lanes@)).take(i + 1));
        i = i + 1;
    }
    assert(lane_ids(lanes_v(lanes@)).take(i as int) =~= lane_ids(lanes_v(lanes@)));
    ids
}

/// The paint values of drawn lanes.
pub open spec fn paints_v(ps: Seq<LanePaint>) -> Seq<(u64, nat)> {
    ps.map_values(|p: LanePaint| (p.id.0, p.color as nat))
}

fn lane_paint_list(lanes: &Vec<LaneState>) -> (ps: Vec<LanePaint>)
    ensures
        paints_v(ps@) == lane_paints(lanes_v(lanes@)),
        ps@.len() == lanes@.len(),
{
    let mut ps: Vec<LanePaint> = Vec::new();
    let mut i: usize = 0;
    while i < lanes.len()
        invariant
            i <= lanes@.len(),
            ps@.len() == i,
            paints_v(ps@) == lane_paints(lanes_v(lanes@)).take(i as int),
        decreases lanes@.len() - i,
    {
        ps.push(LanePaint { id: lanes[i].id, color: lanes[i].color });
        assert(paints_v(ps@) =~= lane_paints(lanes_v(lanes@)).take(i + 1));
        i = i + 1;
    }
    assert(lane_paints(lanes_v(lanes@)).take(i as int) =~= lane_paints(lanes_v(lanes@)));
    ps
}

fn known_parent_ids(known: &HashSet<u64>, cs: Ghost<Seq<GraphCommit>>, commit: &GraphCommit) -> (ps:
    Vec<u64>)
    requires
        known@ == commit_ids(cs@).to_set(),
    ensures
        ps@ == known_parents(cs@, *commit),
        ps@.len() <= commit.parent_ids@.len(),
{
    broadcast use vstd::std_specs::hash::group_hash_axioms;

    let ghost f = |p: u64| is_known(cs@, p);
    let mut ps: Vec<u64> = Vec::new();
    let mut i: usize = 0;
    while i < commit.parent_ids.len()
        invariant
            i <= commit.parent_ids@.len(),
            known@ == commit_ids(cs@).to_set(),
            f == (|p: u64| is_known(cs@, p)),
            ps@ == commit.parent_ids@.take(i as int).filter(f),
            ps@.len() <= i,
        decreases commit.parent_ids@.len() - i,
    {
        let p = commit.parent_ids[i];
        let k = known.contains(&p);
        let ghost s1 = commit.parent_ids@.take(i + 1);
        proof {
            reveal(Seq::filter);
            assert(s1.drop_last() =~= commit.parent_ids@.take(i as int));
            assert(s1.last() == p);
            assert(f(p) == k);
        }
        if k {
            ps.push(p);
        }
        assert(ps@ =~= s1.filter(f));
        i = i + 1;
    }
    assert(commit.parent_ids@.take(i as int) =~= commit.parent_ids@);
    ps
}

fn join_edges(lanes: &Vec<LaneState>, hits: &Vec<usize>, node_col: usize) -> (joins: Vec<GraphEdge>)
    requires
        hits@.len() >= 1,
        forall|k: int| 0 <= k < hits@.len() ==> #[trigger] hits@[k] < lanes@.len(),
    ensures
        joins@.map_values(|e: GraphEdge| edge_v(e)) == Seq::new(
            (hits@.len() - 1) as nat,
            |k: int|
                (
                    nats(hits@)[k + 1],
                    node_col as nat,
                    lanes_v(lanes@)[nats(hits@)[k + 1] as int].color,
                ),
        ),
{
    let ghost want = Seq::new(
        (hits@.len() - 1) as nat,
        |k: int|
            (nats(hits@)[k + 1], node_col as nat, lanes_v(lanes@)[nats(hits@)[k + 1] as int].color),
    );
    let mut joins: Vec<GraphEdge> = Vec::new();
    let mut k: usize = 1;
    while k < hits.len()
        invariant
            1 <= k <= hits@.len(),
            forall|q: int| 0 <= q < hits@.len() ==> #[trigger] hits@[q] < lanes@.len(),
            want == Seq::new(
                (hits@.len() - 1) as nat,
                |q: int|
                    (
                        nats(hits@)[q + 1],
                        node_col as nat,
                        lanes_v(lanes@)[nats(hits@)[q + 1] as int].color,
                    ),
            ),
            joins@.len() == k - 1,
            joins@.map_values(|e: GraphEdge| edge_v(e)) == want.take(k - 1),
        decreases hits@.len() - k,
    {
        let col = hits[k];
        assert(nats(hits@)[k as int] == col as nat);
        assert(lanes_v(lanes@)[col as int].color == lanes@[col as int].color as nat);
        assert(want[k - 1] == (col as nat, node_col as nat, lanes@[col as int].color as nat));
        joins.push(GraphEdge { from_col: col, to_col: node_col, color: lanes[col].color });
        assert(joins@.map_values(|e: GraphEdge| edge_v(e)) =~= want.take(k as int));
        k = k + 1;
    }
    assert(want.take(k - 1) =~= want);
    joins
}

fn first_lane_to_exec(kept: &Vec<LaneState>, now: &Vec<LaneId>, p: u64) -> (r: Option<LaneState>)
    ensures
        match r {
            Some(l) => first_lane_to(lanes_v(kept@), now@.map_values(|x: LaneId| x.0), p) == Some(
                lane_v(l),
            ),
            None => first_lane_to(lanes_v(kept@), now@.map_values(|x: LaneId| x.0), p) is None,
        },
{
    let ghost nids = now@.map_values(|x: LaneId| x.0);
    let mut i: usize = 0;
    assert(lanes_v(kept@).skip(0) =~= lanes_v(kept@));
    while i < kept.len()
        invariant
            i <= kept@.len(),
            nids == now@.map_values(|x: LaneId| x.0),
            first_lane_to(lanes_v(kept@), nids, p) == first_lane_to(
                lanes_v(kept@).skip(i as int),
                nids,
                p,
            ),
        decreases kept@.len() - i,
    {
        let l = kept[i];
        let mut in_now = false;
        let mut j: usize = 0;
        while j < now.len()
            invariant
                j <= now@.len(),
                nids == now@.map_values(|x: LaneId| x.0),
                in_now == exists|q: int| 0 <= q < j && #[trigger] nids[q] == l.id.0,
            decreases now@.len() - j,
        {
            assert(nids[j as int] == now@[j as int].0);
            if now[j].0 == l.id.0 {
                in_now = true;
            }
            j = j + 1;
        }
        assert(in_now == nids.contains(l.id.0));
        assert(lanes_v(kept@).skip(i as int)[0] == lane_v(l));
        if l.target == p && in_now {
            return Some(l);
        }
        assert(lanes_v(kept@).skip(i as int).drop_first() =~= lanes_v(kept@).skip(i + 1));
        i = i + 1;
    }
    assert(lanes_v(kept@).skip(i as int).len() == 0);
    None
}

fn last_col_exec(next: &Vec<LanePaint>, id: u64) -> (r: Option<usize>)
    ensures
        match r {
            Some(c) => last_col_of(paints_v(next@), id, next@.len() as int) == Some(c as nat) && c
                < next@.len(),
            None => last_col_of(paints_v(next@), id, next@.len() as int) is None,
        },
{
    let mut i: usize = next.len();
    while i > 0
        invariant
            i <= next@.len(),
            last_col_of(paints_v(next@), id, next@.len() as int) == last_col_of(
                paints_v(next@),
                id,
                i as int,
            ),
        decreases i,
    {
        if next[i - 1].id.0 == id {
            return Some(i - 1);
        }
        i = i - 1;
    }
    None
}

fn out_edges(
    kept: &Vec<LaneState>,
    now: &Vec<LaneId>,
    next: &Vec<LanePaint>,
    parents: &Vec<u64>,
    node_col: usize,
) -> (edges: Vec<GraphEdge>)
    ensures
        edges@.map_values(|e: GraphEdge| edge_v(e)) == edges_out_of(
            lanes_v(kept@),
            now@.map_values(|x: LaneId| x.0),
            paints_v(next@),
            parents@,
            node_col as nat,
            parents@.len() as int,
        ),
{
    let ghost nids = now@.map_values(|x: LaneId| x.0);
    let mut edges: Vec<GraphEdge> = Vec::new();
    let mut k: usize = 1;
    if parents.len() == 0 {
        return edges;
    }
    while k < parents.len()
        invariant
            1 <= k <= parents@.len(),
            nids == now@.map_values(|x: LaneId| x.0),
            edges@.map_values(|e: GraphEdge| edge_v(e)) == edges_out_of(
                lanes_v(kept@),
                nids,
                paints_v(next@),
                parents@,
                node_col as nat,
                k as int,
            ),
        decreases parents@.len() - k,
    {
        let ghost before = edges@;
        if let Some(l) = first_lane_to_exec(kept, now, parents[k]) {
            if let Some(to) = last_col_exec(next, l.id.0) {
                edges.push(GraphEdge { from_col: node_col, to_col: to, color: next[to].color });
            }
        }
        assert(edges@.map_values(|e: GraphEdge| edge_v(e)) =~= edges_out_of(
            lanes_v(kept@),
            nids,
            paints_v(next@),
            parents@,
            node_col as nat,
            k + 1,
        ));
        k = k + 1;
    }
    edges
}

} // verus!

verus! {

/// The layout state as a value.
pub open spec fn state_v(lanes: Seq<LaneV>, next_id: u64, next_color: usize, main: Option<LaneId>) -> GraphStateV {
    GraphStateV {
        lanes,
        next_id: next_id as nat,
        next_color: next_color as nat,
        main_lane: match main {
            Some(l) => Some(l.0),
            None => None,
        },
    }
}

#[verifier::rlimit(40)]
fn layout_row(
    cs: Ghost<Seq<GraphCommit>>,
    known: &HashSet<u64>,
    head: &HashSet<u64>,
    lanes: &mut Vec<LaneState>,
    next_id: &mut u64,
    next_color: &mut usize,
    main_lane: &mut Option<LaneId>,
    commit: &GraphCommit,
) -> (row: GraphRow)
    requires
        known@ == commit_ids(cs@).to_set(),
        *old(next_id) + 1 + commit.parent_ids@.len() <= u64::MAX,
        *old(next_color) + 1 + commit.parent_ids@.len() <= usize::MAX,
    ensures
        ({
            let step = graph_step(
                cs@,
                head@,
                state_v(lanes_v(old(lanes)@), *old(next_id), *old(next_color), *old(main_lane)),
                *commit,
            );
            &&& row_v(row) == step.0
            &&& state_v(lanes_v(final(lanes)@), *final(next_id), *final(next_color), *final(main_lane))
                == step.1
        }),
        *final(next_id) <= *old(next_id) + 1 + commit.parent_ids@.len(),
        *final(next_color) - *final(next_id) == *old(next_color) - *old(next_id),
{
    broadcast use vstd::std_specs::hash::group_hash_axioms;

    let ghost st = state_v(lanes_v(lanes@), *next_id, *next_color, *main_lane);
    let ghost nid0 = *next_id;
    let ghost ncol0 = *next_color;
    let incoming_ids = lane_id_list(lanes);
    let mut hits = lane_hits(lanes, commit.id);
    let ghost h0 = nats(hits@);
    if hits.len() == 0 {
        let id = LaneId(*next_id);
        *next_id = *next_id + 1;
        let color = *next_color % PALETTE_LEN;
        *next_color = *next_color + 1;
        lanes.push(LaneState { id, color, target: commit.id });
        hits.push(lanes.len() - 1);
        proof {
            assert(lanes_v(lanes@) =~= st.lanes.push(
                LaneV { id: st.next_id as u64, color: st.next_color % 24, target: commit.id },
            ));
            assert(nats(hits@) =~= seq![st.lanes.len()]);
        }
    }
    let ghost lanes1 = lanes_v(lanes@);
    let ghost nid1 = *next_id;
    let ghost ncol1 = *next_color;
    let is_merge = commit.parent_ids.len() > 1;
    let parents = known_parent_ids(known, cs, commit);
    let lanes_now = lane_paint_list(lanes);
    let ghost want_node = match st.main_lane {
        Some(m) => if head@.contains(commit.id) {
            match first_hit_with_id(lanes1, nats(hits@), m) {
                Some(ix) => ix,
                None => nats(hits@)[0],
            }
        } else {
            nats(hits@)[0]
        },
        None => nats(hits@)[0],
    };
    let node_col = match *main_lane {
        Some(m) => {
            if head.contains(&commit.id) {
                match first_hit_lane(lanes, &hits, m.0) {
                    Some(ix) => ix,
                    None => hits[0],
                }
            } else {
                hits[0]
            }
        },
        None => hits[0],
    };
    assert(node_col as nat == want_node);
    let node_id = lanes[node_col].id;
    if main_lane.is_none() {
        *main_lane = Some(node_id);
    }
    let joins_in = join_edges(lanes, &hits, node_col);
    let old_node = lanes[node_col];
    let first_target = if parents.len() > 0 {
        parents[0]
    } else {
        commit.id
    };
    lanes.set(node_col, LaneState { id: old_node.id, color: old_node.color, target: first_target });
    let ghost lanes2 = lanes_v(lanes@);
    assert(lanes2 =~= lanes1.update(
        node_col as int,
        LaneV { target: first_target, ..lanes1[node_col as int] },
    ));
    retarget_lanes(lanes, &hits, &parents, commit.id);
    let covered: usize = if parents.len() == 0 {
        1
    } else if hits.len() < parents.len() {
        hits.len()
    } else {
        parents.len()
    };
    let ghost lanes3 = lanes_v(lanes@);
    let nl = lanes.len();
    assert(node_col < nl);
    if parents.len() > covered {
        proof {
            let s3 = InsertV {
                lanes: lanes3,
                at: node_col as int + 1,
                next_id: nid1 as nat,
                next_color: ncol1 as nat,
            };
            lemma_insert_parents_bounds(s3, parents@, covered as int, parents@.len() as int);
        }
        insert_parent_lanes(lanes, &parents, covered, node_col + 1, next_id, next_color);
    }
    let kept = kept_lane_states(known, cs, lanes, commit.id);
    *lanes = kept;
    let lanes_next = lane_paint_list(lanes);
    let now_ids = incoming_ids_after(&lanes_now);
    assert(now_ids@.map_values(|x: LaneId| x.0) =~= lane_ids(lanes1));
    let edges_out = out_edges(lanes, &now_ids, &lanes_next, &parents, node_col);
    let row = GraphRow {
        incoming_ids,
        lanes_now,
        lanes_next,
        joins_in,
        edges_out,
        node_id,
        node_col,
        is_merge,
    };
    proof {
        let step = graph_step(cs@, head@, st, *commit);
        assert(row_v(row).incoming_ids == step.0.incoming_ids);
        assert(row_v(row).lanes_now == step.0.lanes_now);
        assert(row_v(row).lanes_next == step.0.lanes_next);
        assert(row_v(row).joins_in == step.0.joins_in);
        assert(row_v(row).edges_out == step.0.edges_out);
        assert(row_v(row) == step.0);
    }
    row
}

/// The ids of the lanes drawn on a row.
fn incoming_ids_after(now: &Vec<LanePaint>) -> (ids: Vec<LaneId>)
    ensures
        ids@.map_values(|x: LaneId| x.0) == paints_v(now@).map_values(|p: (u64, nat)| p.0),
{
    let mut ids: Vec<LaneId> = Vec::new();
    let mut i: usize = 0;
    while i < now.len()
        invariant
            i <= now@.len(),
            ids@.len() == i,
            ids@.map_values(|x: LaneId| x.0) == paints_v(now@).map_values(|p: (u64, nat)| p.0).take(
                i as int,
            ),
        decreases now@.len() - i,
    {
        ids.push(now[i].id);
        assert(ids@.map_values(|x: LaneId| x.0) =~= paints_v(now@).map_values(|p: (u64, nat)| p.0).take(
            i + 1,
        ));
        i = i + 1;
    }
    assert(paints_v(now@).map_values(|p: (u64, nat)| p.0).take(i as int) =~= paints_v(now@).map_values(
        |p: (u64, nat)| p.0,
    ));
    ids
}

} // verus!

verus! {

/// The number of parent ids over the first `n` commits.
pub open spec fn parent_total(cs: Seq<GraphCommit>, n: int) -> nat
    decreases n,
{
    if n <= 0 {
        0
    } else {
        parent_total(cs, n - 1) + cs[n - 1].parent_ids@.len()
    }
}

proof fn lemma_parent_total_mono(cs: Seq<GraphCommit>, a: int, b: int)
    requires
        0 <= a <= b,
    ensures
        parent_total(cs, a) <= parent_total(cs, b),
    decreases b - a,
{
    if a < b {
        lemma_parent_total_mono(cs, a, b - 1);
    }
}

/// The rows of the commit graph for a log, newest commit first.
///
/// Lanes are numbered from 1 in order of creation and take the palette colors in turn; the
/// first-parent chain from the first commit is the main line, whose lane keeps its column
/// where lanes meet. The counters must fit: the log and all its parent ids together hold
/// fewer entries than the largest `u64` and `usize`.
pub fn compute_graph(commits: &[GraphCommit]) -> (rows: Vec<GraphRow>)
    requires
        commits@.len() + parent_total(commits@, commits@.len() as int) < u64::MAX,
        commits@.len() + parent_total(commits@, commits@.len() as int) < usize::MAX,
    ensures
        rows_v(rows@) == graph_rows(commits@),
{
    let known = known_ids(commits);
    let by_id = last_index_map(commits);
    let head = head_chain_ids(commits, &known, &by_id);
    let ghost cs = commits@;
    let n = commits.len();
    let mut next_id: u64 = 1;
    let mut next_color: usize = 0;
    let mut lanes: Vec<LaneState> = Vec::new();
    let mut rows: Vec<GraphRow> = Vec::new();
    let mut main_lane: Option<LaneId> = None;
    let mut i: usize = 0;
    assert(lanes_v(lanes@) =~= Seq::<LaneV>::empty());
    while i < n
        invariant
            i <= n,
            n == cs.len(),
            cs == commits@,
            known@ == commit_ids(cs).to_set(),
            head@ == head_chain(cs),
            cs.len() + parent_total(cs, cs.len() as int) < u64::MAX,
            cs.len() + parent_total(cs, cs.len() as int) < usize::MAX,
            next_id <= 1 + i + parent_total(cs, i as int),
            next_color + 1 == next_id,
            rows_v(rows@) == graph_run(cs, i as int).0,
            state_v(lanes_v(lanes@), next_id, next_color, main_lane) == graph_run(cs, i as int).1,
        decreases n - i,
    {
        proof {
            lemma_parent_total_mono(cs, i + 1, n as int);
        }
        let row = layout_row(
            Ghost(cs),
            &known,
            &head,
            &mut lanes,
            &mut next_id,
            &mut next_color,
            &mut main_lane,
            &commits[i],
        );
        rows.push(row);
        assert(rows_v(rows@) =~= graph_run(cs, i as int).0.push(row_v(row)));
        i = i + 1;
    }
    rows
}

} // verus!

verus! {

proof fn lemma_graph_run_prefix(cs: Seq<GraphCommit>, k: int, n: int)
    requires
        0 <= k < n,
    ensures
        graph_run(cs, n).0.len() == n,
        graph_run(cs, n).0[k] == graph_run(cs, k + 1).0[k],
    decreases n - k,
{
    if n > k + 1 {
        lemma_graph_run_prefix(cs, k, n - 1);
    } else {
        lemma_graph_run_len(cs, n);
    }
    lemma_graph_run_len(cs, n);
}

proof fn lemma_graph_run_len(cs: Seq<GraphCommit>, n: int)
    requires
        0 <= n,
    ensures
        graph_run(cs, n).0.len() == n,
    decreases n,
{
    if n > 0 {
        lemma_graph_run_len(cs, n - 1);
    }
}

/// The graph has one row per commit, and its rows connect: the first row has no incoming
/// lanes, and the lanes coming into each later row are those that left the row above.
pub proof fn law_graph_rows_connect(cs: Seq<GraphCommit>)
    ensures
        graph_rows(cs).len() == cs.len(),
        cs.len() > 0 ==> graph_rows(cs)[0].incoming_ids.len() == 0,
        forall|k: int|
            0 < k < cs.len() ==> (#[trigger] graph_rows(cs)[k]).incoming_ids == graph_rows(cs)[k
                - 1].lanes_next.map_values(|p: (u64, nat)| p.0),
{
    let n = cs.len() as int;
    lemma_graph_run_len(cs, n);
    if n > 0 {
        lemma_graph_run_prefix(cs, 0, n);
        let st0 = graph_run(cs, 0).1;
        assert(st0.lanes.len() == 0);
        assert(graph_run(cs, 1).0[0].incoming_ids == lane_ids(st0.lanes));
        assert(lane_ids(st0.lanes).len() == 0);
    }
    assert forall|k: int| 0 < k < n implies (#[trigger] graph_rows(cs)[k]).incoming_ids
        == graph_rows(cs)[k - 1].lanes_next.map_values(|p: (u64, nat)| p.0) by {
        lemma_graph_run_prefix(cs, k, n);
        lemma_graph_run_prefix(cs, k - 1, n);
        lemma_graph_run_prefix(cs, k - 1, k);
        lemma_graph_run_len(cs, k);
        let st = graph_run(cs, k).1;
        let prev_row = graph_run(cs, k).0[k - 1];
        assert(prev_row.lanes_next == lane_paints(st.lanes));
        assert(lane_paints(st.lanes).map_values(|p: (u64, nat)| p.0) =~= lane_ids(st.lanes));
    }
}

proof fn lemma_hits_bounds(ls: Seq<LaneV>, t: u64, k: int)
    requires
        0 <= k <= ls.len(),
    ensures
        forall|j: int| 0 <= j < hits_of(ls, t, k).len() ==> #[trigger] hits_of(ls, t, k)[j] < k,
    decreases k,
{
    if k > 0 {
        lemma_hits_bounds(ls, t, k - 1);
        let prev = hits_of(ls, t, k - 1);
        let cur = hits_of(ls, t, k);
        assert forall|j: int| 0 <= j < cur.len() implies #[trigger] cur[j] < k by {
            if j < prev.len() {
                assert(cur[j] == prev[j]);
            }
        }
    }
}

proof fn lemma_first_hit_in(ls: Seq<LaneV>, hits: Seq<nat>, m: u64)
    ensures
        first_hit_with_id(ls, hits, m) matches Some(ix) ==> hits.contains(ix),
    decreases hits.len(),
{
    if hits.len() > 0 && ls[hits[0] as int].id != m {
        lemma_first_hit_in(ls, hits.drop_first(), m);
        if let Some(ix) = first_hit_with_id(ls, hits.drop_first(), m) {
            let j = choose|j: int| 0 <= j < hits.drop_first().len() && hits.drop_first()[j] == ix;
            assert(hits[j + 1] == ix);
        }
    } else if hits.len() > 0 {
        assert(hits[0] == hits[0]);
    }
}

proof fn lemma_last_col_bound(next: Seq<(u64, nat)>, id: u64, n: int)
    ensures
        last_col_of(next, id, n) matches Some(c) ==> c < n,
    decreases n,
{
    if n > 0 {
        lemma_last_col_bound(next, id, n - 1);
    }
}

proof fn lemma_edges_out_bounds(
    kept: Seq<LaneV>,
    now_ids: Seq<u64>,
    next: Seq<(u64, nat)>,
    parents: Seq<u64>,
    col: nat,
    k: int,
)
    ensures
        forall|j: int|
            0 <= j < edges_out_of(kept, now_ids, next, parents, col, k).len() ==> (#[trigger] edges_out_of(
                kept,
                now_ids,
                next,
                parents,
                col,
                k,
            )[j]).0 == col && edges_out_of(kept, now_ids, next, parents, col, k)[j].1 < next.len(),
    decreases k,
{
    if k > 1 {
        lemma_edges_out_bounds(kept, now_ids, next, parents, col, k - 1);
        let prev = edges_out_of(kept, now_ids, next, parents, col, k - 1);
        let cur = edges_out_of(kept, now_ids, next, parents, col, k);
        match first_lane_to(kept, now_ids, parents[k - 1]) {
            None => {},
            Some(l) => {
                lemma_last_col_bound(next, l.id, next.len() as int);
            },
        }
        assert forall|j: int| 0 <= j < cur.len() implies (#[trigger] cur[j]).0 == col && cur[j].1
            < next.len() by {
            if j < prev.len() {
                assert(cur[j] == prev[j]);
            }
        }
    }
}

/// Every row of the graph is drawn within its lanes: the node's column is one of the
/// row's lanes and holds the node's lane; the row is a merge exactly when its commit has
/// more than one parent; the lanes that join in come from columns of the row and end at
/// the node; and the edges out start at the node and end at lanes below the row.
pub proof fn law_graph_rows_stay_within_lanes(cs: Seq<GraphCommit>, k: int)
    requires
        0 <= k < cs.len(),
    ensures
        ({
            let r = graph_rows(cs)[k];
            &&& r.node_col < r.lanes_now.len()
            &&& r.lanes_now[r.node_col as int].0 == r.node_id
            &&& r.is_merge == (cs[k].parent_ids@.len() > 1)
            &&& forall|j: int|
                0 <= j < r.joins_in.len() ==> (#[trigger] r.joins_in[j]).1 == r.node_col
                    && r.joins_in[j].0 < r.lanes_now.len()
            &&& forall|j: int|
                0 <= j < r.edges_out.len() ==> (#[trigger] r.edges_out[j]).0 == r.node_col
                    && r.edges_out[j].1 < r.lanes_next.len()
        }),
{
    lemma_graph_run_prefix(cs, k, cs.len() as int);
    lemma_graph_run_len(cs, k);
    let st = graph_run(cs, k).1;
    let c = cs[k];
    let r = graph_rows(cs)[k];
    assert(r == graph_step(cs, head_chain(cs), st, c).0);
    let h0 = hits_of(st.lanes, c.id, st.lanes.len() as int);
    lemma_hits_bounds(st.lanes, c.id, st.lanes.len() as int);
    let lanes1 = if h0.len() == 0 {
        st.lanes.push(LaneV { id: st.next_id as u64, color: st.next_color % 24, target: c.id })
    } else {
        st.lanes
    };
    let hits = if h0.len() == 0 {
        seq![st.lanes.len()]
    } else {
        h0
    };
    assert forall|j: int| 0 <= j < hits.len() implies #[trigger] hits[j] < lanes1.len() by {}
    match st.main_lane {
        Some(m) => {
            lemma_first_hit_in(lanes1, hits, m);
        },
        None => {},
    }
    assert(r.node_col < lanes1.len());
    assert(r.lanes_now == lane_paints(lanes1));
    let parents = known_parents(cs, c);
    assert forall|j: int| 0 <= j < r.joins_in.len() implies (#[trigger] r.joins_in[j]).1 == r.node_col
        && r.joins_in[j].0 < r.lanes_now.len() by {
        assert(hits[j + 1] < lanes1.len());
    }
    lemma_edges_out_bounds_for_row(cs, st, c);
}

proof fn lemma_edges_out_bounds_for_row(cs: Seq<GraphCommit>, st: GraphStateV, c: GraphCommit)
    ensures
        ({
            let r = graph_step(cs, head_chain(cs), st, c).0;
            forall|j: int|
                0 <= j < r.edges_out.len() ==> (#[trigger] r.edges_out[j]).0 == r.node_col
                    && r.edges_out[j].1 < r.lanes_next.len()
        }),
{
    let h0 = hits_of(st.lanes, c.id, st.lanes.len() as int);
    let lanes1 = if h0.len() == 0 {
        st.lanes.push(LaneV { id: st.next_id as u64, color: st.next_color % 24, target: c.id })
    } else {
        st.lanes
    };
    let r = graph_step(cs, head_chain(cs), st, c).0;
    let parents = known_parents(cs, c);
    let (_, st2) = graph_step(cs, head_chain(cs), st, c);
    let kept = st2.lanes;
    lemma_edges_out_bounds(kept, lane_ids(lanes1), r.lanes_next, parents, r.node_col, parents.len() as int);
}

/// The lanes have distinct ids, each below `next`.
pub open spec fn ids_fresh(ls: Seq<LaneV>, next: nat) -> bool {
    &&& forall|i: int, j: int| 0 <= i < j < ls.len() ==> (#[trigger] ls[i]).id != (#[trigger] ls[j]).id
    &&& forall|i: int| 0 <= i < ls.len() ==> (#[trigger] ls[i]).id < next
}

proof fn lemma_filter_fresh(ls: Seq<LaneV>, p: spec_fn(LaneV) -> bool, next: nat)
    requires
        ids_fresh(ls, next),
    ensures
        ids_fresh(ls.filter(p), next),
    decreases ls.len(),
{
    reveal(Seq::filter);
    if ls.len() > 0 {
        let rest = ls.drop_last();
        assert forall|i: int, j: int| 0 <= i < j < rest.len() implies (#[trigger] rest[i]).id
            != (#[trigger] rest[j]).id by {
            assert(rest[i] == ls[i] && rest[j] == ls[j]);
        }
        assert forall|i: int| 0 <= i < rest.len() implies (#[trigger] rest[i]).id < next by {
            assert(rest[i] == ls[i]);
        }
        lemma_filter_fresh(rest, p, next);
        let f = rest.filter(p);
        let last = ls.last();
        if p(last) {
            let out = f.push(last);
            assert(ls.filter(p) == out);
            assert forall|i: int| 0 <= i < f.len() implies (#[trigger] f[i]).id != last.id by {
                assert(f.contains(f[i]));
                rest.lemma_filter_contains_rev(p, f[i]);
                let k = choose|k: int| 0 <= k < rest.len() && rest[k] == f[i];
                assert(ls[k] == f[i]);
                assert(ls[ls.len() - 1] == last);
            }
            assert forall|i: int, j: int| 0 <= i < j < out.len() implies (#[trigger] out[i]).id
                != (#[trigger] out[j]).id by {
                assert(out[i] == f[i]);
                if j < f.len() {
                    assert(out[j] == f[j]);
                }
            }
            assert forall|i: int| 0 <= i < out.len() implies (#[trigger] out[i]).id < next by {
                if i < f.len() {
                    assert(out[i] == f[i]);
                } else {
                    assert(ls[ls.len() - 1] == last);
                }
            }
        } else {
            assert(ls.filter(p) == f);
        }
    }
}

proof fn lemma_retarget_ids(ls: Seq<LaneV>, hits: Seq<nat>, parents: Seq<u64>, cid: u64, n: int)
    requires
        n <= hits.len(),
        forall|m: int| 0 <= m < hits.len() ==> #[trigger] hits[m] < ls.len(),
    ensures
        retarget(ls, hits, parents, cid, n).len() == ls.len(),
        forall|i: int| 0 <= i < ls.len() ==> (#[trigger] retarget(ls, hits, parents, cid, n)[i]).id == ls[i].id,
    decreases n,
{
    if n > 1 {
        lemma_retarget_ids(ls, hits, parents, cid, n - 1);
        let prev = retarget(ls, hits, parents, cid, n - 1);
        let ix = hits[n - 1] as int;
        assert(ix < ls.len());
        assert forall|i: int| 0 <= i < ls.len() implies (#[trigger] retarget(ls, hits, parents, cid, n)[i]).id
            == ls[i].id by {
            assert(prev[i].id == ls[i].id);
        }
    }
}

proof fn lemma_insert_fresh(s: InsertV, parents: Seq<u64>, from: int, k: int)
    requires
        from <= k,
        0 <= s.at <= s.lanes.len(),
        ids_fresh(s.lanes, s.next_id),
        s.next_id + (k - from) <= u64::MAX,
    ensures
        ids_fresh(insert_parents(s, parents, from, k).lanes, insert_parents(s, parents, from, k).next_id),
    decreases k - from,
{
    if k > from {
        lemma_insert_fresh(s, parents, from, k - 1);
        lemma_insert_parents_bounds(s, parents, from, k - 1);
        let prev = insert_parents(s, parents, from, k - 1);
        let p = parents[k - 1];
        if !targets(prev.lanes, p) {
            let nl = LaneV { id: prev.next_id as u64, color: prev.next_color % 24, target: p };
            assert(nl.id == prev.next_id);
            let out = prev.lanes.insert(prev.at, nl);
            assert forall|i: int, j: int| 0 <= i < j < out.len() implies (#[trigger] out[i]).id
                != (#[trigger] out[j]).id by {
                if j < prev.at {
                    assert(out[i] == prev.lanes[i] && out[j] == prev.lanes[j]);
                } else if j == prev.at {
                    assert(out[i] == prev.lanes[i]);
                } else if i < prev.at {
                    assert(out[i] == prev.lanes[i] && out[j] == prev.lanes[j - 1]);
                } else if i == prev.at {
                    assert(out[j] == prev.lanes[j - 1]);
                } else {
                    assert(out[i] == prev.lanes[i - 1] && out[j] == prev.lanes[j - 1]);
                }
            }
            assert forall|i: int| 0 <= i < out.len() implies (#[trigger] out[i]).id < prev.next_id + 1 by {
                if i < prev.at {
                    assert(out[i] == prev.lanes[i]);
                } else if i > prev.at {
                    assert(out[i] == prev.lanes[i - 1]);
                }
            }
        }
    }
}

proof fn lemma_step_fresh(cs: Seq<GraphCommit>, head: Set<u64>, st: GraphStateV, c: GraphCommit)
    requires
        ids_fresh(st.lanes, st.next_id),
        st.next_id + 1 + c.parent_ids@.len() <= u64::MAX,
    ensures
        ({
            let (row, next) = graph_step(cs, head, st, c);
            &&& forall|i: int, j: int|
                0 <= i < j < row.lanes_now.len() ==> (#[trigger] row.lanes_now[i]).0 != (
                #[trigger] row.lanes_now[j]).0
            &&& ids_fresh(next.lanes, next.next_id)
            &&& st.next_id <= next.next_id <= st.next_id + 1 + c.parent_ids@.len()
        }),
{
    let (row, next) = graph_step(cs, head, st, c);
    let h0 = hits_of(st.lanes, c.id, st.lanes.len() as int);
    lemma_hits_bounds(st.lanes, c.id, st.lanes.len() as int);
    let lanes1 = if h0.len() == 0 {
        st.lanes.push(LaneV { id: st.next_id as u64, color: st.next_color % 24, target: c.id })
    } else {
        st.lanes
    };
    let hits = if h0.len() == 0 {
        seq![st.lanes.len()]
    } else {
        h0
    };
    let nid1 = if h0.len() == 0 {
        st.next_id + 1
    } else {
        st.next_id
    };
    let ncol1 = if h0.len() == 0 {
        st.next_color + 1
    } else {
        st.next_color
    };
    assert forall|m: int| 0 <= m < hits.len() implies #[trigger] hits[m] < lanes1.len() by {}
    assert(ids_fresh(lanes1, nid1)) by {
        if h0.len() == 0 {
            assert forall|i: int, j: int| 0 <= i < j < lanes1.len() implies (#[trigger] lanes1[i]).id
                != (#[trigger] lanes1[j]).id by {
                assert(lanes1[i] == st.lanes[i]);
                if j < st.lanes.len() {
                    assert(lanes1[j] == st.lanes[j]);
                }
            }
            assert forall|i: int| 0 <= i < lanes1.len() implies (#[trigger] lanes1[i]).id < nid1 by {
                if i < st.lanes.len() {
                    assert(lanes1[i] == st.lanes[i]);
                }
            }
        }
    }
    assert forall|i: int, j: int| 0 <= i < j < row.lanes_now.len() implies (#[trigger] row.lanes_now[i]).0
        != (#[trigger] row.lanes_now[j]).0 by {
        assert(row.lanes_now[i].0 == lanes1[i].id);
        assert(row.lanes_now[j].0 == lanes1[j].id);
    }
    let parents = known_parents(cs, c);
    c.parent_ids@.lemma_filter_len(|p: u64| is_known(cs, p));
    let node_col = row.node_col;
    match st.main_lane {
        Some(m) => {
            lemma_first_hit_in(lanes1, hits, m);
        },
        None => {},
    }
    assert(node_col < lanes1.len());
    let lanes2 = lanes1.update(
        node_col as int,
        LaneV {
            target: if parents.len() > 0 {
                parents[0]
            } else {
                c.id
            },
            ..lanes1[node_col as int]
        },
    );
    assert forall|m: int| 0 <= m < hits.len() implies #[trigger] hits[m] < lanes2.len() by {}
    lemma_retarget_ids(lanes2, hits, parents, c.id, hits.len() as int);
    let lanes3 = retarget(lanes2, hits, parents, c.id, hits.len() as int);
    assert(ids_fresh(lanes3, nid1)) by {
        assert forall|i: int| 0 <= i < lanes3.len() implies (#[trigger] lanes3[i]).id == lanes1[i].id by {
            assert(lanes3[i].id == lanes2[i].id);
        }
        assert forall|i: int, j: int| 0 <= i < j < lanes3.len() implies (#[trigger] lanes3[i]).id
            != (#[trigger] lanes3[j]).id by {
            assert(lanes3[i].id == lanes2[i].id && lanes3[j].id == lanes2[j].id);
        }
        assert forall|i: int| 0 <= i < lanes3.len() implies (#[trigger] lanes3[i]).id < nid1 by {
            assert(lanes3[i].id == lanes2[i].id);
        }
    }
    let covered = if parents.len() == 0 {
        1
    } else if hits.len() < parents.len() {
        hits.len() as int
    } else {
        parents.len() as int
    };
    let s0 = InsertV { lanes: lanes3, at: node_col as int + 1, next_id: nid1, next_color: ncol1 };
    if parents.len() > covered {
        lemma_insert_fresh(s0, parents, covered, parents.len() as int);
        lemma_insert_parents_bounds(s0, parents, covered, parents.len() as int);
    }
    let ins = if parents.len() > covered {
        insert_parents(s0, parents, covered, parents.len() as int)
    } else {
        s0
    };
    lemma_filter_fresh(ins.lanes, |l: LaneV| is_known(cs, l.target) && l.target != c.id, ins.next_id);
    assert(next.lanes == kept_lanes(cs, ins.lanes, c.id));
}

proof fn lemma_run_fresh(cs: Seq<GraphCommit>, k: int)
    requires
        0 <= k <= cs.len(),
        cs.len() + parent_total(cs, cs.len() as int) < u64::MAX,
    ensures
        ids_fresh(graph_run(cs, k).1.lanes, graph_run(cs, k).1.next_id),
        1 <= graph_run(cs, k).1.next_id <= 1 + k + parent_total(cs, k),
    decreases k,
{
    if k > 0 {
        lemma_run_fresh(cs, k - 1);
        lemma_parent_total_mono(cs, k, cs.len() as int);
        lemma_step_fresh(cs, head_chain(cs), graph_run(cs, k - 1).1, cs[k - 1]);
    }
}

/// The lanes drawn on a row of the graph have distinct ids (the counters fit, as
/// `compute_graph` asks).
pub proof fn law_graph_row_lanes_distinct(cs: Seq<GraphCommit>, k: int)
    requires
        0 <= k < cs.len(),
        cs.len() + parent_total(cs, cs.len() as int) < u64::MAX,
    ensures
        forall|i: int, j: int|
            0 <= i < j < graph_rows(cs)[k].lanes_now.len() ==> (#[trigger] graph_rows(cs)[k].lanes_now[i]).0
                != (#[trigger] graph_rows(cs)[k].lanes_now[j]).0,
{
    lemma_graph_run_prefix(cs, k, cs.len() as int);
    lemma_run_fresh(cs, k);
    lemma_parent_total_mono(cs, k + 1, cs.len() as int);
    lemma_step_fresh(cs, head_chain(cs), graph_run(cs, k).1, cs[k]);
    lemma_graph_run_len(cs, k);
    let r = graph_rows(cs)[k];
    assert(r == graph_step(cs, head_chain(cs), graph_run(cs, k).1, cs[k]).0);
}

} // verus!
