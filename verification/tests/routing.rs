use synthesis::engine::module::{Connection, PortId, Routing};

#[test]
fn test_connection() {
    let conn = Connection::new(0, PortId(1), 1, PortId(0), 0.5f32);
    assert_eq!(conn.source_module, 0);
    assert_eq!(conn.amount, 0.5);
}

#[test]
fn test_module_graph_new() {
    let graph: Routing<f32> = Routing::new();
    assert_eq!(graph.module_count(), 0);
}

#[test]
fn test_module_graph_add() {
    let mut graph: Routing<f32> = Routing::new();
    let idx = graph.add_module();
    assert_eq!(idx, 0);
    assert_eq!(graph.module_count(), 1);
}

#[test]
fn test_module_graph_connect() {
    let mut graph: Routing<f32> = Routing::new();
    graph.add_module();
    graph.add_module();
    assert!(graph.connect(0, PortId(1), 1, PortId(0), 1.0));
    assert_eq!(graph.connection_count(), 1);
}

#[test]
fn routing_refuses_missing_modules() {
    let mut graph: Routing<f32> = Routing::new();
    graph.add_module();
    assert!(!graph.connect(0, PortId(1), 1, PortId(0), 1.0));
    assert!(!graph.connect(3, PortId(1), 0, PortId(0), 1.0));
    assert_eq!(graph.connection_count(), 0);
    assert!(graph.connect(0, PortId(1), 0, PortId(0), 0.25));
    assert_eq!(graph.connection_count(), 1);
}

#[test]
fn routing_lists_connections_feeding_a_module() {
    let mut graph: Routing<f32> = Routing::new();
    for _ in 0..3 {
        graph.add_module();
    }
    assert!(graph.connect(0, PortId(0), 2, PortId(0), 1.0));
    assert!(graph.connect(0, PortId(0), 1, PortId(0), 1.0));
    assert!(graph.connect(1, PortId(0), 2, PortId(1), 0.5));
    assert_eq!(graph.feeding(2), vec![0, 2]);
    assert_eq!(graph.feeding(1), vec![1]);
    assert_eq!(graph.feeding(0), Vec::<usize>::new());
    assert_eq!(graph.connections()[2].dest_port, PortId(1));
}

#[test]
fn routing_clear_keeps_modules() {
    let mut graph: Routing<f32> = Routing::new();
    graph.add_module();
    graph.add_module();
    assert!(graph.connect(0, PortId(0), 1, PortId(0), 1.0));
    graph.clear_connections();
    assert_eq!(graph.connection_count(), 0);
    assert_eq!(graph.module_count(), 2);
}
