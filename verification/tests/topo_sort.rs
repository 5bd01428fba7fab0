use tessera::collections::SortedMap;
use tessera::diagnostics::DiagnosticKind;
use tessera::graph::{Edge, Graph, Node};
use tessera::semantic::topo_sort::topo_sort_with_delay_edges;
use tessera::text::Name;
use tessera::types::{EdgeId, GridPos, TileSide, DELAY_PIECE_ID};

fn edge_id(n: u128) -> EdgeId {
    EdgeId(uuid::Uuid::from_u128(n))
}

fn node(piece_id: &str) -> Node {
    Node {
        piece_id: piece_id.to_string(),
        inline_params: SortedMap::new(),
        input_sides: SortedMap::new(),
        output_side: None,
        label: None,
        node_state: None,
    }
}

fn edge(n: u128, from: GridPos, to_node: GridPos, to_param: &str) -> Edge {
    Edge { id: edge_id(n), from, to_node, to_param: to_param.to_string() }
}

fn graph_of(nodes: Vec<(GridPos, Node)>, edges: Vec<Edge>) -> Graph {
    let mut node_map = SortedMap::new();
    for (pos, n) in nodes {
        node_map.insert(pos, n);
    }
    let mut edge_map = SortedMap::new();
    for e in edges {
        edge_map.insert(e.id, e);
    }
    Graph { nodes: node_map, edges: edge_map, name: "topo".to_string(), cols: 3, rows: 2 }
}

fn pos(col: i32, row: i32) -> GridPos {
    GridPos { col, row }
}

fn delay_cycle_graph() -> (Graph, EdgeId) {
    let source_pos = pos(0, 0);
    let delay_pos = pos(1, 0);
    let sink_pos = pos(2, 0);
    let mut delay = node(DELAY_PIECE_ID);
    delay.input_sides.insert(Name::new("default"), TileSide::LEFT);
    delay.input_sides.insert(Name::new("value"), TileSide::RIGHT);
    delay.output_side = Some(TileSide::RIGHT);
    let mut sink = node("test.any_sink");
    sink.input_sides.insert(Name::new("value"), TileSide::LEFT);
    let feedback = edge(3, sink_pos, delay_pos, "value");
    let feedback_id = feedback.id;
    let graph = graph_of(
        vec![(source_pos, node("test.number_source")), (delay_pos, delay), (sink_pos, sink)],
        vec![edge(1, source_pos, delay_pos, "default"), edge(2, delay_pos, sink_pos, "value"), feedback],
    );
    (graph, feedback_id)
}

#[test]
fn topo_sort_cycle_through_delay_is_legal() {
    let (graph, feedback_id) = delay_cycle_graph();
    let analysis = topo_sort_with_delay_edges(&graph);

    assert!(!analysis.diagnostics.iter().any(|d| matches!(d.kind, DiagnosticKind::Cycle { .. })));
    assert!(analysis.delay_edges.contains(&feedback_id));
    assert_eq!(analysis.delay_edges.len(), 1);
}

#[test]
fn topo_sort_orders_delay_before_its_feedback_source() {
    let (graph, _) = delay_cycle_graph();
    let analysis = topo_sort_with_delay_edges(&graph);

    let delay_idx = analysis.eval_order.iter().position(|p| *p == pos(1, 0));
    let sink_idx = analysis.eval_order.iter().position(|p| *p == pos(2, 0));
    assert!(delay_idx.is_some());
    assert!(delay_idx < sink_idx);
    assert_eq!(analysis.eval_order, vec![pos(0, 0), pos(1, 0), pos(2, 0)]);
}

#[test]
fn topo_sort_direct_cycle_is_one_component() {
    let a_pos = pos(0, 0);
    let b_pos = pos(1, 0);
    let graph = graph_of(
        vec![(a_pos, node("test.forward")), (b_pos, node("test.forward"))],
        vec![edge(1, a_pos, b_pos, "value"), edge(2, b_pos, a_pos, "value")],
    );
    let analysis = topo_sort_with_delay_edges(&graph);

    assert_eq!(analysis.diagnostics.len(), 1);
    match &analysis.diagnostics[0].kind {
        DiagnosticKind::Cycle { involved } => assert_eq!(involved, &vec![a_pos, b_pos]),
        other => panic!("unexpected {:?}", other),
    }
    assert_eq!(analysis.diagnostics[0].site, Some(a_pos));
    assert_eq!(analysis.eval_order, vec![a_pos, b_pos]);
    let members = analysis.component_members.get(&b_pos).unwrap();
    assert!(members.contains(&a_pos) && members.contains(&b_pos));
}

#[test]
fn self_loop_is_a_cycle_of_one() {
    let a = pos(0, 0);
    let b = pos(1, 0);
    let graph = graph_of(vec![(a, node("x")), (b, node("y"))], vec![edge(1, a, a, "in"), edge(2, a, b, "in")]);
    let analysis = topo_sort_with_delay_edges(&graph);
    assert_eq!(analysis.diagnostics.len(), 1);
    assert!(matches!(&analysis.diagnostics[0].kind, DiagnosticKind::Cycle { involved } if involved == &vec![a]));
    assert_eq!(analysis.eval_order, vec![a, b]);
}

#[test]
fn eval_order_follows_dependencies_then_cells() {
    // c(2,0) feeds a(0,0); b(1,0) is independent; a feeds d(0,1).
    let a = pos(0, 0);
    let b = pos(1, 0);
    let c = pos(2, 0);
    let d = pos(0, 1);
    let graph = graph_of(
        vec![(a, node("a")), (b, node("b")), (c, node("c")), (d, node("d"))],
        vec![edge(1, c, a, "in"), edge(2, a, d, "in")],
    );
    let analysis = topo_sort_with_delay_edges(&graph);
    assert_eq!(analysis.eval_order, vec![b, c, a, d]);
    assert!(analysis.diagnostics.is_empty());
    assert_eq!(analysis.component_members.len(), 4);
    assert_eq!(analysis.component_members.get(&a).unwrap().len(), 1);
}

#[test]
fn edges_to_missing_nodes_order_nothing() {
    let a = pos(0, 0);
    let b = pos(1, 0);
    let graph = graph_of(vec![(a, node("a")), (b, node("b"))], vec![edge(1, b, a, "in"), edge(2, pos(5, 5), b, "in")]);
    let analysis = topo_sort_with_delay_edges(&graph);
    assert_eq!(analysis.eval_order, vec![b, a]);
}
