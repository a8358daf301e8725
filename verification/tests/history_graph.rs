use gitgpui_view::history_graph::{compute_graph, GraphCommit, GraphEdge, LaneId, LanePaint};

fn c(id: u64, parents: &[u64]) -> GraphCommit {
    GraphCommit { id, parent_ids: parents.to_vec() }
}

fn paints(v: &[(u64, usize)]) -> Vec<LanePaint> {
    v.iter().map(|&(id, color)| LanePaint { id: LaneId(id), color }).collect()
}

#[test]
fn linear_history_stays_in_one_lane() {
    let rows = compute_graph(&[c(1, &[2]), c(2, &[3]), c(3, &[])]);
    assert_eq!(rows.len(), 3);
    assert!(rows[0].incoming_ids.is_empty());
    assert_eq!(rows[0].lanes_now, paints(&[(1, 0)]));
    assert_eq!(rows[0].lanes_next, paints(&[(1, 0)]));
    assert_eq!(rows[1].incoming_ids, vec![LaneId(1)]);
    assert_eq!(rows[2].lanes_next, paints(&[]));
    for row in &rows {
        assert_eq!(row.node_col, 0);
        assert_eq!(row.node_id, LaneId(1));
        assert!(!row.is_merge);
        assert!(row.joins_in.is_empty());
        assert!(row.edges_out.is_empty());
    }
}

#[test]
fn merge_opens_and_joins_a_lane() {
    let rows = compute_graph(&[c(10, &[11, 12]), c(11, &[13]), c(12, &[13]), c(13, &[])]);
    assert!(rows[0].is_merge);
    assert_eq!(rows[0].lanes_next, paints(&[(1, 0), (2, 1)]));
    assert!(rows[0].edges_out.is_empty());

    assert_eq!(rows[1].incoming_ids, vec![LaneId(1), LaneId(2)]);
    assert_eq!(rows[1].node_col, 0);

    assert_eq!(rows[2].node_col, 1);
    assert_eq!(rows[2].node_id, LaneId(2));

    assert_eq!(rows[3].node_col, 0);
    assert_eq!(rows[3].joins_in, vec![GraphEdge { from_col: 1, to_col: 0, color: 1 }]);
    assert_eq!(rows[3].lanes_next, paints(&[]));
}

#[test]
fn unknown_parents_end_their_lane() {
    let rows = compute_graph(&[c(5, &[99]), c(6, &[])]);
    assert_eq!(rows[0].lanes_next, paints(&[]));
    assert!(rows[1].incoming_ids.is_empty());
    assert_eq!(rows[1].node_id, LaneId(2));
    assert_eq!(rows[1].lanes_now, paints(&[(2, 1)]));
}

#[test]
fn merge_into_existing_lane_draws_edge() {
    // Two branch tips share a parent; the merge's second parent lane exists already.
    let rows = compute_graph(&[c(1, &[3]), c(2, &[4, 3]), c(3, &[]), c(4, &[])]);
    // Row 1: commit 2 gets a new lane 2 at column 1; its second parent 3 is lane 1's target.
    assert_eq!(rows[1].node_col, 1);
    assert_eq!(rows[1].edges_out, vec![GraphEdge { from_col: 1, to_col: 0, color: 0 }]);
}

#[test]
fn rows_stay_within_their_lanes() {
    let commits = vec![
        c(1, &[2, 5]),
        c(5, &[6, 7]),
        c(2, &[3]),
        c(6, &[3]),
        c(7, &[3]),
        c(3, &[]),
    ];
    let rows = compute_graph(&commits);
    for (k, row) in rows.iter().enumerate() {
        assert!(row.node_col < row.lanes_now.len());
        assert_eq!(row.lanes_now[row.node_col].id, row.node_id);
        assert_eq!(row.is_merge, commits[k].parent_ids.len() > 1);
        for e in &row.joins_in {
            assert_eq!(e.to_col, row.node_col);
            assert!(e.from_col < row.lanes_now.len());
        }
        for e in &row.edges_out {
            assert_eq!(e.from_col, row.node_col);
            assert!(e.to_col < row.lanes_next.len());
        }
        let mut ids: Vec<u64> = row.lanes_now.iter().map(|p| p.id.0).collect();
        ids.sort();
        ids.dedup();
        assert_eq!(ids.len(), row.lanes_now.len());
    }
}
