use node_graph::app::App;
use node_graph::app::EdgeType;
use node_graph::cache::Cache;
use node_graph::cache::CacheIndex;
use node_graph::node::Direction;
use node_graph::node::NodeKind;
use node_graph::node::Port;
use node_graph::values::Tag;
use node_graph::values::Value;
use node_graph::values::Vec2;

fn app_with(factories: Vec<NodeKind>) -> App {
    App::new().with_factories(factories)
}

fn port_handle(app: &App, node: usize, port: usize) -> CacheIndex {
    *app.get_node(node).get_ports()[port].get_cache_index()
}

fn read_num(app: &App, ci: &CacheIndex) -> Option<i64> {
    app.get_cache().get(ci).and_then(|v| v.as_num())
}

fn read_vec2(app: &App, ci: &CacheIndex) -> Option<Vec2> {
    app.get_cache().get(ci).and_then(|v| v.as_vec2())
}

#[test]
fn add_edge_aliases_the_source_cell() {
    let mut app = app_with(vec![NodeKind::Value, NodeKind::Passthrough]);
    let a = app.add_node(0);
    let b = app.add_node(1);
    app.add_edge(a, 0, b, 0);
    // the destination input now names the exact same cell as the source output
    assert_eq!(port_handle(&app, a, 0), port_handle(&app, b, 0));
    // a write through the source's handle is observed through the destination's
    let out = port_handle(&app, a, 0);
    app.set_value(&out, Value::Num(42));
    assert_eq!(read_num(&app, &port_handle(&app, b, 0)), Some(42));
    assert!(app.get_node(b).get_ports()[0].is_connected());
}

#[test]
fn remove_edge_restores_isolation() {
    let mut app = app_with(vec![NodeKind::Value, NodeKind::Passthrough]);
    let a = app.add_node(0);
    let b = app.add_node(1);
    app.add_edge(a, 0, b, 0);
    app.remove_edge_to(b, 0);
    assert!(!app.get_node(b).get_ports()[0].is_connected());
    assert_ne!(port_handle(&app, a, 0), port_handle(&app, b, 0));
    // the input is back on a private default cell holding the default value
    assert_eq!(read_num(&app, &port_handle(&app, b, 0)), Some(0));
    // mutating the old source is no longer visible through the input
    let out = port_handle(&app, a, 0);
    app.set_value(&out, Value::Num(99));
    assert_eq!(read_num(&app, &port_handle(&app, b, 0)), Some(0));
    assert_eq!(app.edges().len(), 0);
}

#[test]
fn second_source_replaces_the_first() {
    let mut app = app_with(vec![NodeKind::Value, NodeKind::Passthrough]);
    let n1 = app.add_node(0);
    let n2 = app.add_node(0);
    let b = app.add_node(1);
    app.add_edge(n1, 0, b, 0);
    app.add_edge(n2, 0, b, 0);
    let targeting: Vec<_> = app
        .edges()
        .iter()
        .filter(|e| e.to_node == b && e.to_port == 0)
        .collect();
    assert_eq!(targeting.len(), 1);
    assert_eq!(targeting[0].from_node, n2);
    assert_eq!(app.edges().len(), 1);
    assert_eq!(port_handle(&app, b, 0), port_handle(&app, n2, 0));
}

#[test]
fn removing_a_node_cleans_up_its_edges_and_cells() {
    let mut app = app_with(vec![NodeKind::Value, NodeKind::Passthrough]);
    let a = app.add_node(0);
    let b = app.add_node(1);
    let c = app.add_node(1);
    app.add_edge(a, 0, b, 0);
    app.add_edge(b, 1, c, 0);
    let a_out = port_handle(&app, a, 0);
    app.remove_node(a);
    // every edge referencing the removed node is gone; the rest remain
    assert_eq!(app.edges().len(), 1);
    assert_eq!(app.edges()[0].from_node, b);
    assert_eq!(app.edges()[0].to_node, c);
    // the removed node's slot is free and its cells are gone from the cache
    assert!(app.nodes().get(a).is_none());
    assert!(app.get_cache().get(&a_out).is_none());
    // the severed input is back on a live private default
    assert!(!app.get_node(b).get_ports()[0].is_connected());
    assert_eq!(read_num(&app, &port_handle(&app, b, 0)), Some(0));
}

#[test]
fn removing_a_destination_node_severs_incoming_edges() {
    let mut app = app_with(vec![NodeKind::Value, NodeKind::Passthrough]);
    let a = app.add_node(0);
    let b = app.add_node(1);
    app.add_edge(a, 0, b, 0);
    app.remove_node(b);
    assert_eq!(app.edges().len(), 0);
    assert!(app.nodes().get(b).is_none());
    // the source node's output cell is untouched
    assert_eq!(read_num(&app, &port_handle(&app, a, 0)), Some(0));
}

#[test]
fn node_slot_is_reused_after_removal() {
    let mut app = app_with(vec![NodeKind::Value]);
    let a = app.add_node(0);
    let b = app.add_node(0);
    app.remove_node(a);
    let c = app.add_node(0);
    assert_eq!(c, a);
    assert!(app.nodes().get(b).is_some());
    assert_eq!(app.nodes().len(), 2);
}

#[test]
fn value_feeds_passthrough_and_disconnect_restores_default() {
    // create node A (one scalar output, default 0) and node B (one scalar
    // input defaulting to 0, one scalar output copying the input)
    let mut app = app_with(vec![NodeKind::Value, NodeKind::Passthrough]);
    let a = app.add_node(0);
    let b = app.add_node(1);
    app.add_edge(a, 0, b, 0);
    let a_out = port_handle(&app, a, 0);
    app.set_value(&a_out, Value::Num(5));
    app.compute();
    assert_eq!(read_num(&app, &port_handle(&app, b, 1)), Some(5));
    app.remove_edge_to(b, 0);
    app.compute();
    // B's output returns to its restored default, independent of A's value
    assert_eq!(read_num(&app, &port_handle(&app, b, 1)), Some(0));
    assert_eq!(read_num(&app, &a_out), Some(5));
}

#[test]
fn closing_a_two_node_cycle_marks_the_edge_post() {
    let mut app = app_with(vec![NodeKind::Passthrough]);
    let a = app.add_node(0);
    let b = app.add_node(0);
    app.add_edge(a, 1, b, 0);
    app.add_edge(b, 1, a, 0);
    assert!(matches!(app.edges()[0].edge_type, EdgeType::Normal));
    assert!(matches!(app.edges()[1].edge_type, EdgeType::Post));
}

#[test]
fn remove_edges_from_clears_the_fan_out() {
    let mut app = app_with(vec![NodeKind::Value, NodeKind::Passthrough]);
    let a = app.add_node(0);
    let b = app.add_node(1);
    let c = app.add_node(1);
    let d = app.add_node(1);
    app.add_edge(a, 0, b, 0);
    app.add_edge(a, 0, c, 0);
    app.add_edge(b, 1, d, 0);
    app.remove_edges_from(a, 0);
    assert_eq!(app.edges().len(), 1);
    assert_eq!(app.edges()[0].from_node, b);
    assert!(!app.get_node(b).get_ports()[0].is_connected());
    assert!(!app.get_node(c).get_ports()[0].is_connected());
    assert!(app.get_node(d).get_ports()[0].is_connected());
}

#[test]
fn vector_node_joins_its_scalar_inputs() {
    let mut app = app_with(vec![NodeKind::Vector2D]);
    let v = app.add_node(0);
    let x_in = port_handle(&app, v, 0);
    let y_in = port_handle(&app, v, 1);
    app.set_value(&x_in, Value::Num(3));
    app.set_value(&y_in, Value::Num(4));
    app.compute();
    assert_eq!(read_vec2(&app, &port_handle(&app, v, 2)), Some(Vec2::new(3, 4)));
}

#[test]
fn circle_node_joins_position_and_radius() {
    let mut app = app_with(vec![NodeKind::Circle]);
    let c = app.add_node(0);
    let pos_in = port_handle(&app, c, 0);
    let radius_in = port_handle(&app, c, 1);
    app.set_value(&pos_in, Value::Vec2(Vec2::new(1, 2)));
    app.set_value(&radius_in, Value::Num(7));
    app.compute();
    let circle = app
        .get_cache()
        .get(&port_handle(&app, c, 2))
        .and_then(|v| v.as_circle())
        .unwrap();
    assert_eq!(circle.get_position(), Vec2::new(1, 2));
    assert_eq!(circle.get_radius(), 7);
    // the renderer's view: every live circle value is enumerable
    let shapes = app.get_cache().get_all_of_type(Tag::Circle).unwrap();
    assert_eq!(shapes.len(), 1);
}

#[test]
fn particle_node_integrates_an_applied_force() {
    let mut app = app_with(vec![NodeKind::Particle]);
    let p = app.add_node(0);
    let force_in = port_handle(&app, p, 1);
    app.set_value(&force_in, Value::Vec2(Vec2::new(2, 0)));
    app.compute();
    // force 2 over mass 1 accelerates, integrates, then clears acceleration
    assert_eq!(read_vec2(&app, &port_handle(&app, p, 6)), Some(Vec2::new(0, 0)));
    assert_eq!(read_vec2(&app, &port_handle(&app, p, 7)), Some(Vec2::new(2, 0)));
    assert_eq!(read_vec2(&app, &port_handle(&app, p, 8)), Some(Vec2::new(2, 0)));
    app.compute();
    assert_eq!(read_vec2(&app, &port_handle(&app, p, 7)), Some(Vec2::new(4, 0)));
    assert_eq!(read_vec2(&app, &port_handle(&app, p, 8)), Some(Vec2::new(6, 0)));
}

#[test]
fn wiring_a_position_override_sets_and_clears_the_flag() {
    let mut app = app_with(vec![NodeKind::Particle, NodeKind::Vector2D]);
    // the pass runs in slot order, so the vector node must occupy the
    // earlier slot for its output to reach the particle within one tick
    let v = app.add_node(1);
    let p = app.add_node(0);
    let x_in = port_handle(&app, v, 0);
    app.set_value(&x_in, Value::Num(9));
    // wire the vector output into the particle's position override input
    app.add_edge(v, 2, p, 4);
    let flag = port_handle(&app, p, 11);
    assert_eq!(
        app.get_cache().get(&flag).and_then(|b| b.as_bool()),
        Some(true)
    );
    app.compute();
    assert_eq!(read_vec2(&app, &port_handle(&app, p, 8)), Some(Vec2::new(9, 0)));
    app.remove_edge_to(p, 4);
    let flag = port_handle(&app, p, 11);
    assert_eq!(
        app.get_cache().get(&flag).and_then(|b| b.as_bool()),
        Some(false)
    );
}

#[test]
fn connect_is_rejected_on_output_ports() {
    let mut cache = Cache::new();
    let default = cache.insert(Value::Num(0));
    let other = cache.insert(Value::Num(1));
    let mut port = Port::new(default, Direction::Output);
    port.connect(other);
    assert!(!port.is_connected());
    assert_eq!(*port.get_cache_index(), default);
    let mut input = Port::new(default, Direction::Input);
    input.connect(other);
    assert!(input.is_connected());
    assert_eq!(*input.get_cache_index(), other);
    input.disconnect();
    assert!(!input.is_connected());
    assert_eq!(*input.get_cache_index(), default);
}

#[test]
fn get_output_is_none_out_of_range() {
    let mut app = app_with(vec![NodeKind::Value]);
    let a = app.add_node(0);
    assert!(app.get_node(a).get_output(0).is_some());
    assert!(app.get_node(a).get_output(1).is_none());
}

#[test]
fn port_accessors_report_the_layout() {
    let mut app = app_with(vec![NodeKind::Passthrough]);
    let a = app.add_node(0);
    let ports = app.get_node(a).get_ports();
    assert!(matches!(ports[0].get_direction(), Direction::Input));
    assert!(matches!(ports[1].get_direction(), Direction::Output));
    assert_eq!(
        *ports[0].get_default_cache_index(),
        *ports[0].get_cache_index()
    );
}

#[test]
fn compute_skips_freed_node_slots() {
    let mut app = app_with(vec![NodeKind::Value, NodeKind::Passthrough]);
    let a = app.add_node(0);
    let b = app.add_node(1);
    app.add_edge(a, 0, b, 0);
    app.remove_node(a);
    // slot 0 is a hole now; the pass must still reach the node behind it
    let b_in = port_handle(&app, b, 0);
    app.set_value(&b_in, Value::Num(7));
    app.compute();
    assert_eq!(read_num(&app, &port_handle(&app, b, 1)), Some(7));
}

#[test]
fn an_empty_graph_computes_quietly() {
    let mut app = App::new();
    app.compute();
    assert_eq!(app.edges().len(), 0);
    assert_eq!(app.nodes().len(), 0);
    app.remove_edge_to(3, 1);
    assert_eq!(app.edges().len(), 0);
}
