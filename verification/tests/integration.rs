//! Integration tests: full compilation pipeline, end-to-end scenarios, and
//! error reporting.

use graphy::{
    CodeGeneratorContext, Connection, DataResolver, DataSource, DataType, ExecutionRouting,
    GraphDescription, GraphyError, MetadataRegistry, NodeInstance, NodeMetadata,
    NodeMetadataProvider, NodeTypes, NumberValue, ParamInfo, Position, PropertyValue,
    SubGraphExpander, TypeInfo,
};

fn with_math_nodes() -> MetadataRegistry {
    let mut registry = MetadataRegistry::new();
    registry.add(
        NodeMetadata::new("add", NodeTypes::pure, "math")
            .with_params(vec![ParamInfo::new("a", "i64"), ParamInfo::new("b", "i64")])
            .with_return_type(TypeInfo::new("i64")),
    );
    registry.add(
        NodeMetadata::new("multiply", NodeTypes::pure, "math")
            .with_params(vec![ParamInfo::new("a", "i64"), ParamInfo::new("b", "i64")])
            .with_return_type(TypeInfo::new("i64")),
    );
    registry
}

fn comprehensive() -> MetadataRegistry {
    let mut registry = with_math_nodes();
    registry.add(
        NodeMetadata::new("print_string", NodeTypes::fn_, "io")
            .with_params(vec![ParamInfo::new("message", "String")])
            .with_exec_outputs(vec!["then".to_string()]),
    );
    registry.add(
        NodeMetadata::new("branch", NodeTypes::control_flow, "flow")
            .with_params(vec![ParamInfo::new("condition", "bool")])
            .with_exec_outputs(vec!["True".to_string(), "False".to_string()]),
    );
    registry.add(
        NodeMetadata::new("on_start", NodeTypes::event, "events")
            .with_exec_outputs(vec!["exec".to_string()]),
    );
    registry
}

fn math_node(id: &str, node_type: &str) -> NodeInstance {
    let mut node = NodeInstance::new(id, node_type, Position::zero());
    node.add_input_pin("a", DataType::Typed("i64".into()));
    node.add_input_pin("b", DataType::Typed("i64".into()));
    node.add_output_pin("result", DataType::Typed("i64".into()));
    node
}

fn build_linear_chain(n: usize) -> GraphDescription {
    let mut graph = GraphDescription::new("linear_chain");
    for i in 0..n {
        let mut node = math_node(format!("node_{}", i).as_str(), "add");
        node.set_property("b", PropertyValue::Number(NumberValue::from_i64(1)));
        graph.add_node(node);
    }
    for i in 0..n.saturating_sub(1) {
        graph.add_connection(Connection::data(
            format!("node_{}", i).as_str(),
            "result",
            format!("node_{}", i + 1).as_str(),
            "a",
        ));
    }
    graph
}

fn build_diamond_graph() -> GraphDescription {
    let mut graph = GraphDescription::new("diamond");
    for (id, node_type) in [
        ("node_a", "add"),
        ("node_b", "multiply"),
        ("node_c", "multiply"),
        ("node_d", "add"),
    ] {
        let mut node = math_node(id, node_type);
        node.set_property("a", PropertyValue::Number(NumberValue::from_i64(1)));
        node.set_property("b", PropertyValue::Number(NumberValue::from_i64(2)));
        graph.add_node(node);
    }
    graph.add_connection(Connection::data("node_a", "result", "node_b", "a"));
    graph.add_connection(Connection::data("node_a", "result", "node_c", "a"));
    graph.add_connection(Connection::data("node_b", "result", "node_d", "a"));
    graph.add_connection(Connection::data("node_c", "result", "node_d", "b"));
    graph
}

fn build_exec_chain(n: usize) -> GraphDescription {
    let mut graph = GraphDescription::new("exec_chain");
    for i in 0..n {
        let mut node = NodeInstance::new(
            format!("fn_{}", i).as_str(),
            "print_string",
            Position::new(i as i64 * 200, 0),
        );
        node.add_input_pin("exec_in", DataType::Execution);
        node.add_input_pin("message", DataType::Typed("String".into()));
        node.add_output_pin("exec_out", DataType::Execution);
        node.set_property("message", PropertyValue::String(format!("step {}", i)));
        graph.add_node(node);
    }
    for i in 0..n.saturating_sub(1) {
        graph.add_connection(Connection::execution(
            format!("fn_{}", i).as_str(),
            "exec_out",
            format!("fn_{}", i + 1).as_str(),
            "exec_in",
        ));
    }
    graph
}

fn build_branch_graph() -> GraphDescription {
    let mut graph = GraphDescription::new("branch_graph");

    let mut event = NodeInstance::new("start", "on_start", Position::zero());
    event.add_output_pin("exec", DataType::Execution);
    graph.add_node(event);

    let mut branch = NodeInstance::new("branch_1", "branch", Position::new(200, 0));
    branch.add_input_pin("exec_in", DataType::Execution);
    branch.add_input_pin("condition", DataType::Typed("bool".into()));
    branch.add_output_pin("True", DataType::Execution);
    branch.add_output_pin("False", DataType::Execution);
    branch.set_property("condition", PropertyValue::Boolean(true));
    graph.add_node(branch);

    let mut print_true = NodeInstance::new("print_true", "print_string", Position::new(400, -100));
    print_true.add_input_pin("exec_in", DataType::Execution);
    print_true.add_input_pin("message", DataType::Typed("String".into()));
    print_true.add_output_pin("exec_out", DataType::Execution);
    print_true.set_property("message", PropertyValue::String("true branch".into()));
    graph.add_node(print_true);

    let mut print_false = NodeInstance::new("print_false", "print_string", Position::new(400, 100));
    print_false.add_input_pin("exec_in", DataType::Execution);
    print_false.add_input_pin("message", DataType::Typed("String".into()));
    print_false.add_output_pin("exec_out", DataType::Execution);
    print_false.set_property("message", PropertyValue::String("false branch".into()));
    graph.add_node(print_false);

    graph.add_connection(Connection::execution("start", "exec", "branch_1", "exec_in"));
    graph.add_connection(Connection::execution("branch_1", "True", "print_true", "exec_in"));
    graph.add_connection(Connection::execution("branch_1", "False", "print_false", "exec_in"));

    graph
}

#[test]
fn pipeline_linear_chain_data_flow_and_routing() {
    let provider = with_math_nodes();
    let graph = build_linear_chain(10);

    let resolver = DataResolver::build(&graph, &provider).unwrap();
    let order = resolver.get_pure_evaluation_order();
    assert_eq!(order.len(), 10);

    for i in 0..10 {
        assert!(resolver.get_result_variable(format!("node_{}", i).as_str()).is_some());
    }

    let routing = ExecutionRouting::build_from_graph(&graph);
    assert!(!routing.has_execution_outputs("node_0"));
}

#[test]
fn pipeline_diamond_data_flow() {
    let provider = with_math_nodes();
    let graph = build_diamond_graph();

    let resolver = DataResolver::build(&graph, &provider).unwrap();
    let order = resolver.get_pure_evaluation_order();

    assert_eq!(order.len(), 4);

    let b_input = resolver.get_input_source("node_b", "a").unwrap();
    match b_input {
        DataSource::Connection { source_node_id, source_pin } => {
            assert_eq!(source_node_id, "node_a");
            assert_eq!(source_pin, "result");
        }
        _ => panic!("expected Connection"),
    }

    let d_a = resolver.get_input_source("node_d", "a").unwrap();
    match d_a {
        DataSource::Connection { source_node_id, .. } => {
            assert_eq!(source_node_id, "node_b");
        }
        _ => panic!("expected Connection"),
    }

    let d_b = resolver.get_input_source("node_d", "b").unwrap();
    match d_b {
        DataSource::Connection { source_node_id, .. } => {
            assert_eq!(source_node_id, "node_c");
        }
        _ => panic!("expected Connection"),
    }
}

#[test]
fn pipeline_exec_chain_routing() {
    let graph = build_exec_chain(5);
    let routing = ExecutionRouting::build_from_graph(&graph);

    for i in 0..4 {
        let connected = routing.get_connected_nodes(format!("fn_{}", i).as_str(), "exec_out");
        assert_eq!(connected.len(), 1);
        assert_eq!(connected[0], format!("fn_{}", i + 1));
    }
}

#[test]
fn pipeline_branch_graph_full() {
    let provider = comprehensive();
    let graph = build_branch_graph();

    let resolver = DataResolver::build(&graph, &provider).unwrap();

    let cond = resolver.get_input_source("branch_1", "condition").unwrap();
    assert!(matches!(cond, DataSource::Constant(_)));

    let routing = ExecutionRouting::build_from_graph(&graph);
    assert!(routing.has_execution_outputs("start"));
    assert!(routing.has_execution_outputs("branch_1"));

    let true_targets = routing.get_connected_nodes("branch_1", "True");
    assert_eq!(true_targets, ["print_true"]);

    let false_targets = routing.get_connected_nodes("branch_1", "False");
    assert_eq!(false_targets, ["print_false"]);
}

#[test]
fn pipeline_context_creation_from_analysis() {
    let provider = comprehensive();
    let graph = build_branch_graph();

    let resolver = DataResolver::build(&graph, &provider).unwrap();
    let routing = ExecutionRouting::build_from_graph(&graph);

    let mut ctx = CodeGeneratorContext::new(&graph, &provider, &resolver, &routing);

    assert!(ctx.graph.get_node("branch_1").is_some());
    assert!(ctx.metadata_provider.get_node_metadata("branch").is_some());
    assert!(ctx.data_resolver.get_result_variable("branch_1").is_some());
    assert!(ctx.exec_routing.has_execution_outputs("branch_1"));

    ctx.mark_visited("start");
    ctx.mark_visited("branch_1");
    assert!(ctx.is_visited("start"));
    assert!(ctx.is_visited("branch_1"));
    assert!(!ctx.is_visited("print_true"));

    ctx.push_indent();
    assert_eq!(ctx.indent(), "    ");
    ctx.push_indent();
    assert_eq!(ctx.indent(), "        ");
    ctx.pop_indent();
    assert_eq!(ctx.indent(), "    ");
}

#[test]
fn pipeline_mixed_data_and_execution() {
    let mut graph = GraphDescription::new("mixed");
    let provider = comprehensive();

    let mut add_node = math_node("add_1", "add");
    add_node.set_property("a", PropertyValue::Number(NumberValue::from_i64(5)));
    add_node.set_property("b", PropertyValue::Number(NumberValue::from_i64(3)));
    graph.add_node(add_node);

    let mut event = NodeInstance::new("start", "on_start", Position::new(0, 200));
    event.add_output_pin("exec", DataType::Execution);
    graph.add_node(event);

    let mut print = NodeInstance::new("print_1", "print_string", Position::new(200, 200));
    print.add_input_pin("exec_in", DataType::Execution);
    print.add_input_pin("message", DataType::Typed("String".into()));
    print.add_output_pin("exec_out", DataType::Execution);
    graph.add_node(print);

    graph.add_connection(Connection::data("add_1", "result", "print_1", "message"));
    graph.add_connection(Connection::execution("start", "exec", "print_1", "exec_in"));

    let resolver = DataResolver::build(&graph, &provider).unwrap();
    let routing = ExecutionRouting::build_from_graph(&graph);

    let order = resolver.get_pure_evaluation_order();
    assert!(order.contains(&"add_1".to_string()));
    assert!(!order.contains(&"print_1".to_string()));
    assert!(!order.contains(&"start".to_string()));

    let msg_source = resolver.get_input_source("print_1", "message").unwrap();
    assert!(matches!(msg_source, DataSource::Connection { .. }));

    let targets = routing.get_connected_nodes("start", "exec");
    assert_eq!(targets, ["print_1"]);
}

#[test]
fn pipeline_parallel_matches_sequential_full() {
    let provider = with_math_nodes();
    let graph = build_linear_chain(20);

    let seq_resolver = DataResolver::build(&graph, &provider).unwrap();
    let par_resolver = DataResolver::build_parallel(&graph, &provider).unwrap();

    assert_eq!(
        seq_resolver.get_pure_evaluation_order(),
        par_resolver.get_pure_evaluation_order()
    );

    for i in 0..20 {
        let id = format!("node_{}", i);
        for pin in ["a", "b"] {
            let seq = seq_resolver.get_input_source(id.as_str(), pin);
            let par = par_resolver.get_input_source(id.as_str(), pin);
            assert_eq!(seq.is_some(), par.is_some(), "mismatch for {}.{}", id, pin);
        }
    }
}

#[test]
fn subgraph_expander_noop() {
    let expander = SubGraphExpander::new();
    let mut graph = GraphDescription::new("test");
    graph.add_node(NodeInstance::new("n1", "add", Position::zero()));

    expander.expand_all(&mut graph).unwrap();
    assert_eq!(graph.nodes.len(), 1);
}

#[test]
fn subgraph_expander_default_trait() {
    let expander = SubGraphExpander::default();
    let mut graph = GraphDescription::new("test");
    expander.expand_all(&mut graph).unwrap();
}

#[test]
fn error_display_node_not_found() {
    let err = GraphyError::NodeNotFound("missing_node".to_string());
    let msg = err.message();
    assert!(msg.contains("missing_node"));
}

#[test]
fn error_display_pin_not_found() {
    let err = GraphyError::PinNotFound { node: "node_1".to_string(), pin: "result".to_string() };
    let msg = err.message();
    assert!(msg.contains("node_1"));
    assert!(msg.contains("result"));
}

#[test]
fn error_display_type_mismatch() {
    let err = GraphyError::TypeMismatch { expected: "i64".to_string(), actual: "String".to_string() };
    let msg = err.message();
    assert!(msg.contains("i64"));
    assert!(msg.contains("String"));
}

#[test]
fn error_display_cyclic() {
    let err = GraphyError::CyclicDependency;
    let msg = err.message();
    assert!(msg.contains("Cyclic") || msg.contains("cyclic"));
}

#[test]
fn error_display_invalid_connection() {
    let err = GraphyError::InvalidConnection("bad wire".to_string());
    let msg = err.message();
    assert!(msg.contains("bad wire"));
}

#[test]
fn error_display_code_generation() {
    let err = GraphyError::CodeGeneration("failed to emit".to_string());
    let msg = err.message();
    assert!(msg.contains("failed to emit"));
}

#[test]
fn error_display_ast_parsing() {
    let err = GraphyError::AstParsing("unexpected token".to_string());
    let msg = err.message();
    assert!(msg.contains("unexpected token"));
}

#[test]
fn error_display_graph_expansion() {
    let err = GraphyError::GraphExpansion("recursive".to_string());
    let msg = err.message();
    assert!(msg.contains("recursive"));
}

#[test]
fn error_display_custom() {
    let err = GraphyError::Custom("something weird".to_string());
    let msg = err.message();
    assert!(msg.contains("something weird"));
}
