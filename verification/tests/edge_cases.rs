//! Edge case tests: empty graphs, disconnected nodes, large graphs,
//! special characters, boundary conditions.

use graphy::{
    Connection, DataResolver, DataType, ExecutionRouting, GraphDescription, MetadataRegistry,
    NodeInstance, NodeMetadata, NodeTypes, NumberValue, ParamInfo, Position, PropertyValue,
    TypeInfo,
};

fn empty_registry() -> MetadataRegistry {
    MetadataRegistry::new()
}

fn with_math_nodes() -> MetadataRegistry {
    let mut registry = MetadataRegistry::new();
    registry.add(
        NodeMetadata::new("add", NodeTypes::pure, "math")
            .with_params(vec![ParamInfo::new("a", "i64"), ParamInfo::new("b", "i64")])
            .with_return_type(TypeInfo::new("i64")),
    );
    registry.add(
        NodeMetadata::new("multiply", NodeTypes::pure, "math")
            .with_params(vec![ParamInfo::new("a", "i64"), ParamInfo::new("b", "i64")])
            .with_return_type(TypeInfo::new("i64")),
    );
    registry
}

fn comprehensive() -> MetadataRegistry {
    let mut registry = with_math_nodes();
    registry.add(
        NodeMetadata::new("print_string", NodeTypes::fn_, "io")
            .with_params(vec![ParamInfo::new("message", "String")])
            .with_exec_outputs(vec!["then".to_string()]),
    );
    registry.add(
        NodeMetadata::new("on_start", NodeTypes::event, "events")
            .with_exec_outputs(vec!["exec".to_string()]),
    );
    registry
}

fn math_node(id: &str, node_type: &str) -> NodeInstance {
    let mut node = NodeInstance::new(id, node_type, Position::zero());
    node.add_input_pin("a", DataType::Typed("i64".into()));
    node.add_input_pin("b", DataType::Typed("i64".into()));
    node.add_output_pin("result", DataType::Typed("i64".into()));
    node
}

fn build_linear_chain(n: usize) -> GraphDescription {
    let mut graph = GraphDescription::new("linear_chain");
    for i in 0..n {
        let mut node = math_node(format!("node_{}", i).as_str(), "add");
        node.set_property("b", PropertyValue::Number(NumberValue::from_i64(1)));
        graph.add_node(node);
    }
    for i in 0..n.saturating_sub(1) {
        graph.add_connection(Connection::data(
            format!("node_{}", i).as_str(),
            "result",
            format!("node_{}", i + 1).as_str(),
            "a",
        ));
    }
    graph
}

fn build_exec_chain(n: usize) -> GraphDescription {
    let mut graph = GraphDescription::new("exec_chain");
    for i in 0..n {
        let mut node = NodeInstance::new(
            format!("fn_{}", i).as_str(),
            "print_string",
            Position::zero(),
        );
        node.add_input_pin("exec_in", DataType::Execution);
        node.add_output_pin("exec_out", DataType::Execution);
        graph.add_node(node);
    }
    for i in 0..n.saturating_sub(1) {
        graph.add_connection(Connection::execution(
            format!("fn_{}", i).as_str(),
            "exec_out",
            format!("fn_{}", i + 1).as_str(),
            "exec_in",
        ));
    }
    graph
}

#[test]
fn edge_empty_graph_data_resolver() {
    let graph = GraphDescription::new("empty");
    let provider = empty_registry();
    let resolver = DataResolver::build(&graph, &provider).unwrap();
    assert!(resolver.get_pure_evaluation_order().is_empty());
}

#[test]
fn edge_empty_graph_exec_routing() {
    let graph = GraphDescription::new("empty");
    let routing = ExecutionRouting::build_from_graph(&graph);
    assert!(!routing.has_execution_outputs("any"));
}

#[test]
fn edge_single_node_no_connections() {
    let mut graph = GraphDescription::new("single");
    let provider = with_math_nodes();

    let mut node = math_node("lonely", "add");
    node.set_property("a", PropertyValue::Number(NumberValue::from_i64(1)));
    node.set_property("b", PropertyValue::Number(NumberValue::from_i64(2)));
    graph.add_node(node);

    let resolver = DataResolver::build(&graph, &provider).unwrap();
    assert_eq!(resolver.get_pure_evaluation_order().len(), 1);
    assert!(resolver.get_result_variable("lonely").is_some());
}

#[test]
fn edge_special_chars_in_node_id() {
    let mut graph = GraphDescription::new("test");

    let mut node = NodeInstance::new("node-with.special@chars!", "add", Position::zero());
    node.add_input_pin("a", DataType::Typed("i64".into()));
    node.set_property("a", PropertyValue::Number(NumberValue::from_i64(1)));
    graph.add_node(node);

    let provider = empty_registry();
    let resolver = DataResolver::build(&graph, &provider).unwrap();

    let var = resolver.get_result_variable("node-with.special@chars!");
    assert!(var.is_some());
    let var_name = var.unwrap();
    assert!(!var_name.contains('-'));
    assert!(!var_name.contains('.'));
    assert!(!var_name.contains('@'));
}

#[test]
fn edge_unicode_node_id() {
    let mut graph = GraphDescription::new("unicode");

    let node = NodeInstance::new("узел_1", "add", Position::zero());
    graph.add_node(node);

    assert!(graph.get_node("узел_1").is_some());
}

#[test]
fn edge_empty_string_node_id() {
    let mut graph = GraphDescription::new("test");
    let node = NodeInstance::new("", "add", Position::zero());
    graph.add_node(node);

    assert!(graph.get_node("").is_some());
}

#[test]
fn edge_disconnected_subgraphs() {
    let mut graph = GraphDescription::new("disconnected");
    let provider = with_math_nodes();

    let mut a = math_node("a", "add");
    a.set_property("a", PropertyValue::Number(NumberValue::from_i64(1)));
    a.set_property("b", PropertyValue::Number(NumberValue::from_i64(2)));
    graph.add_node(a);

    let mut b = math_node("b", "add");
    b.set_property("b", PropertyValue::Number(NumberValue::from_i64(3)));
    graph.add_node(b);

    graph.add_connection(Connection::data("a", "result", "b", "a"));

    let mut c = math_node("c", "multiply");
    c.set_property("a", PropertyValue::Number(NumberValue::from_i64(4)));
    c.set_property("b", PropertyValue::Number(NumberValue::from_i64(5)));
    graph.add_node(c);

    let mut d = math_node("d", "multiply");
    d.set_property("b", PropertyValue::Number(NumberValue::from_i64(6)));
    graph.add_node(d);

    graph.add_connection(Connection::data("c", "result", "d", "a"));

    let resolver = DataResolver::build(&graph, &provider).unwrap();
    let order = resolver.get_pure_evaluation_order();
    assert_eq!(order.len(), 4);

    let pos = |id: &str| order.iter().position(|x| x == id).unwrap();
    assert!(pos("a") < pos("b"));
    assert!(pos("c") < pos("d"));
}

#[test]
fn edge_large_linear_chain() {
    let provider = with_math_nodes();
    let graph = build_linear_chain(200);

    let resolver = DataResolver::build(&graph, &provider).unwrap();
    assert_eq!(resolver.get_pure_evaluation_order().len(), 200);
}

#[test]
fn edge_large_wide_graph() {
    let mut graph = GraphDescription::new("wide");
    let provider = with_math_nodes();

    let mut source = math_node("source", "add");
    source.set_property("a", PropertyValue::Number(NumberValue::from_i64(1)));
    source.set_property("b", PropertyValue::Number(NumberValue::from_i64(1)));
    graph.add_node(source);

    for i in 0..100 {
        let mut node = math_node(format!("fan_{}", i).as_str(), "add");
        node.set_property("b", PropertyValue::Number(NumberValue::from_i64(i)));
        graph.add_node(node);

        graph.add_connection(Connection::data(
            "source",
            "result",
            format!("fan_{}", i).as_str(),
            "a",
        ));
    }

    let resolver = DataResolver::build(&graph, &provider).unwrap();
    let order = resolver.get_pure_evaluation_order();
    assert_eq!(order.len(), 101); // source + 100 targets

    let source_pos = order.iter().position(|x| x == "source").unwrap();
    for i in 0..100 {
        let fan_pos = order.iter().position(|x| x == &format!("fan_{}", i)).unwrap();
        assert!(source_pos < fan_pos);
    }
}

#[test]
fn edge_large_exec_chain() {
    let graph = build_exec_chain(100);
    let routing = ExecutionRouting::build_from_graph(&graph);

    for i in 0..99 {
        let connected = routing.get_connected_nodes(format!("fn_{}", i).as_str(), "exec_out");
        assert_eq!(connected.len(), 1);
    }
}

#[test]
fn edge_node_type_not_in_provider() {
    let mut graph = GraphDescription::new("test");

    let mut node = NodeInstance::new("unknown_1", "unknown_type", Position::zero());
    node.add_input_pin("x", DataType::Typed("i64".into()));
    node.set_property("x", PropertyValue::Number(NumberValue::from_i64(42)));
    graph.add_node(node);

    // The provider does not know "unknown_type"; the build still succeeds
    // and the node simply stays out of the pure evaluation order.
    let provider = with_math_nodes();
    let resolver = DataResolver::build(&graph, &provider).unwrap();

    assert!(!resolver.get_pure_evaluation_order().contains(&"unknown_1".to_string()));

    assert!(resolver.get_input_source("unknown_1", "x").is_some());
    assert!(resolver.get_result_variable("unknown_1").is_some());
}

#[test]
fn edge_exec_only_graph() {
    let mut graph = GraphDescription::new("exec_only");
    let provider = comprehensive();

    let mut event = NodeInstance::new("start", "on_start", Position::zero());
    event.add_output_pin("exec", DataType::Execution);
    graph.add_node(event);

    let mut print1 = NodeInstance::new("p1", "print_string", Position::zero());
    print1.add_input_pin("exec_in", DataType::Execution);
    print1.add_output_pin("exec_out", DataType::Execution);
    graph.add_node(print1);

    let mut print2 = NodeInstance::new("p2", "print_string", Position::zero());
    print2.add_input_pin("exec_in", DataType::Execution);
    print2.add_output_pin("exec_out", DataType::Execution);
    graph.add_node(print2);

    graph.add_connection(Connection::execution("start", "exec", "p1", "exec_in"));
    graph.add_connection(Connection::execution("p1", "exec_out", "p2", "exec_in"));

    let resolver = DataResolver::build(&graph, &provider).unwrap();
    assert!(resolver.get_pure_evaluation_order().is_empty());

    let routing = ExecutionRouting::build_from_graph(&graph);
    assert!(routing.has_execution_outputs("start"));
    assert!(routing.has_execution_outputs("p1"));
    assert!(!routing.has_execution_outputs("p2"));
}

#[test]
fn edge_data_only_graph() {
    let provider = with_math_nodes();
    let graph = build_linear_chain(5);

    let routing = ExecutionRouting::build_from_graph(&graph);
    for i in 0..5 {
        assert!(!routing.has_execution_outputs(format!("node_{}", i).as_str()));
    }

    let resolver = DataResolver::build(&graph, &provider).unwrap();
    assert_eq!(resolver.get_pure_evaluation_order().len(), 5);
}

#[test]
fn edge_property_large_numbers() {
    let mut node = NodeInstance::new("n", "add", Position::zero());
    node.set_property("max", PropertyValue::Number(NumberValue::from_i64(i64::MAX)));
    node.set_property("min", PropertyValue::Number(NumberValue::from_i64(i64::MIN)));
    node.set_property("zero", PropertyValue::Number(NumberValue::from_i64(0)));

    assert!(node.get_property("max").is_some());
    assert!(node.get_property("min").is_some());
}

#[test]
fn edge_property_empty_string() {
    let mut node = NodeInstance::new("n", "add", Position::zero());
    node.set_property("empty", PropertyValue::String(String::new()));

    match node.get_property("empty").unwrap() {
        PropertyValue::String(s) => assert!(s.is_empty()),
        _ => panic!("wrong variant"),
    }
}

#[test]
fn edge_property_very_long_string() {
    let long = "x".repeat(10_000);
    let mut node = NodeInstance::new("n", "add", Position::zero());
    node.set_property("long", PropertyValue::String(long.clone()));

    match node.get_property("long").unwrap() {
        PropertyValue::String(s) => assert_eq!(s.len(), 10_000),
        _ => panic!("wrong variant"),
    }
}

#[test]
fn edge_parallel_single_node() {
    let mut graph = GraphDescription::new("single");
    let provider = with_math_nodes();

    let mut node = math_node("only", "add");
    node.set_property("a", PropertyValue::Number(NumberValue::from_i64(1)));
    node.set_property("b", PropertyValue::Number(NumberValue::from_i64(2)));
    graph.add_node(node);

    let resolver = DataResolver::build_parallel(&graph, &provider).unwrap();
    assert_eq!(resolver.get_pure_evaluation_order().len(), 1);
}

#[test]
fn edge_parallel_wide_graph() {
    let mut graph = GraphDescription::new("wide");
    let provider = with_math_nodes();

    for i in 0..50 {
        let mut node = math_node(format!("ind_{}", i).as_str(), "add");
        node.set_property("a", PropertyValue::Number(NumberValue::from_i64(1)));
        node.set_property("b", PropertyValue::Number(NumberValue::from_i64(2)));
        graph.add_node(node);
    }

    let resolver = DataResolver::build_parallel(&graph, &provider).unwrap();
    assert_eq!(resolver.get_pure_evaluation_order().len(), 50);
}
