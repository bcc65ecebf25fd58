use bevy_sprite_animation::attributes::Attribute;
use bevy_sprite_animation::error::{LoadError, ParseIssue, Position};
use bevy_sprite_animation::loader::{load_file, load_node};
use bevy_sprite_animation::node_id::NodeId;
use bevy_sprite_animation::nodes::fps_node::FPSNode;
use bevy_sprite_animation::nodes::index_node::IndexNode;
use bevy_sprite_animation::nodes::scale_node::ScaleNode;
use bevy_sprite_animation::nodes::variable_node::VariableNode;
use bevy_sprite_animation::nodes::AnimationNode;
use bevy_sprite_animation::nodes::match_node::MatchNode;
use bevy_sprite_animation::nodes::script_node::ScriptNode;
use bevy_sprite_animation::parse::{chars_of, file_position};
use bevy_sprite_animation::value::{Value, ValueKind};

fn one(text: &str) -> AnimationNode {
    let t = chars_of(text);
    load_node(&t, 0).expect("node to load").0
}

#[test]
fn tree_with_a_bad_entry_loads_the_rest() {
    let text = "[\n  FPSNode(name: \"fps\", fps: 10, next: Name(\"walk\")),\n  IndexNode(name: \"broken\", frames: [a, b], is_loop: maybe),\n  IndexNode(name: \"walk\", frames: [\"a.png\", b.png], is_loop: true),\n]";
    let tree = load_file("zombie.nodetree", text).unwrap();
    assert_eq!(tree.nodes.len(), 2);
    assert_eq!(tree.errors.len(), 1);
    assert_eq!(tree.nodes[0].0, NodeId::from_name("fps"));
    assert_eq!(tree.nodes[1].0, NodeId::from_name("walk"));
    assert_eq!(tree.errors[0].0, text.find("IndexNode(name: \"broken\"").unwrap());
    match &tree.errors[0].1 {
        LoadError::Parse { issue: ParseIssue::BadValue, pos } => assert_eq!(*pos, Position { line: 3, col: 54 }),
        other => panic!("{:?}", other),
    }
    assert_eq!(tree.reference.nodes, vec![NodeId::from_name("fps"), NodeId::from_name("walk")]);
    match &tree.nodes[1].1 {
        AnimationNode::Index(n) => {
            assert_eq!(n.frames, vec!["a.png".to_string(), "b.png".to_string()]);
            assert!(n.is_loop);
            assert_eq!(n.index, Attribute::IndexId(0));
        },
        other => panic!("{:?}", other),
    }
}

#[test]
fn tree_envelope_errors() {
    assert!(matches!(load_file("a.nodetree", "FPSNode(name: \"a\", fps: 1, next: Id(1))"), Err(LoadError::MissingChar { ch: '[', .. })));
    assert!(matches!(load_file("a.nodetree", "[FPSNode(name: \"a\", fps: 1, next: Id(1)),"), Err(LoadError::MissingChar { ch: ']', .. })));
    assert!(matches!(load_file("a", "[]"), Err(LoadError::NoExtension)));
    assert!(matches!(load_file("dir.v2/a", "[]"), Err(LoadError::NoExtension)));
    assert!(matches!(load_file("a.txt", "[]"), Err(LoadError::WrongExtension)));
    assert_eq!(load_file("a.nodetree", " [ ] ").unwrap().nodes.len(), 0);
    assert!(matches!(load_file("a.nodetree", "[]x"), Err(LoadError::NotTree { pos: Position { line: 1, col: 3 } })));
    assert!(matches!(load_file("a.nodetree", "[FPSNode(name: \"a\", fps: 1, next: Id(1))] ]"), Err(LoadError::NotTree { .. })));
    assert_eq!(load_file("a.nodetree", "[FPSNode(name: \"a\", fps: 1, next: Id(1))]\n").unwrap().nodes.len(), 1);
}

#[test]
fn node_file_and_identity_prefix() {
    let tree = load_file("walk.node", "Id(4): ScaleNode(name: \"slow\", scale: Custom(\"Speed\"), next: Id(5))").unwrap();
    assert_eq!(tree.nodes.len(), 1);
    assert_eq!(tree.nodes[0].0, NodeId::U64(4));
    match &tree.nodes[0].1 {
        AnimationNode::Scale(n) => {
            assert_eq!(n.id, Some(NodeId::U64(4)));
            assert_eq!(n.scale, Attribute::new_attribute("Speed"));
            assert_eq!(n.next, NodeId::U64(5));
        },
        other => panic!("{:?}", other),
    }
}

#[test]
fn handle_is_no_entry_prefix() {
    let tree = load_file("a.node", "Handle(3): FPSNode(name: \"a\", fps: 1, next: Id(1))").unwrap();
    assert!(tree.nodes.is_empty());
    assert!(!tree.errors.is_empty());
    assert_eq!(tree.errors[0].0, 0);
    assert!(matches!(&tree.errors[0].1, LoadError::NotRegistered(name) if name == "Handle"));
    let named = load_file("a.node", "Name(\"walker\"): FPSNode(name: \"a\", fps: 1, next: Id(1))").unwrap();
    assert_eq!(named.nodes[0].0, NodeId::from_name("walker"));
    assert_eq!(named.nodes[0].1.id(), NodeId::from_name("walker"));
}

#[test]
fn load_errors_are_told_apart() {
    let t = chars_of("Mystery(a: 1)");
    assert!(matches!(load_node(&t, 0), Err(LoadError::NotRegistered(name)) if name == "Mystery"));
    let t = chars_of("FPSNode(name: \"a\", fps: 1)");
    assert!(matches!(load_node(&t, 0), Err(LoadError::Parse { issue: ParseIssue::MissingField, .. })));
    let t = chars_of("FPSNode(name \"a\", fps: 1)");
    assert!(matches!(load_node(&t, 0), Err(LoadError::Parse { issue: ParseIssue::Expected(_), .. })));
    let t = chars_of("FPSNode(: 1)");
    assert!(matches!(load_node(&t, 0), Err(LoadError::Parse { issue: ParseIssue::UnknownField, .. })));
    let t = chars_of("ScriptNode( return Id(1) ");
    assert!(matches!(load_node(&t, 0), Err(LoadError::NoClosing { ch: ')', .. })));
    let t = chars_of("FPSNode(name: \"a\", fps: 99999999999, next: Id(1))");
    assert!(matches!(load_node(&t, 0), Err(LoadError::Parse { issue: ParseIssue::BadValue, .. })));
}

#[test]
fn positions_count_lines_and_columns() {
    let t = chars_of("ab\ncd\n\nx");
    assert_eq!(file_position(&t, 0), Position { line: 1, col: 1 });
    assert_eq!(file_position(&t, 2), Position { line: 1, col: 3 });
    assert_eq!(file_position(&t, 4), Position { line: 2, col: 2 });
    assert_eq!(file_position(&t, 7), Position { line: 4, col: 1 });
    let e = LoadError::MissingChar { ch: ']', pos: Position { line: 1, col: 2 } };
    assert_eq!(e.add_offset(Position { line: 3, col: 4 }), LoadError::MissingChar { ch: ']', pos: Position { line: 4, col: 6 } });
    let later = LoadError::NoClosing { ch: ')', pos: Position { line: 2, col: 3 } };
    assert_eq!(later.add_offset(Position { line: 4, col: 5 }), LoadError::NoClosing { ch: ')', pos: Position { line: 6, col: 3 } });
    assert_eq!(LoadError::NoExtension.add_offset(Position { line: 3, col: 4 }), LoadError::NoExtension);
    let parse = LoadError::Parse { issue: ParseIssue::BadValue, pos: Position { line: 1, col: 7 } };
    assert_eq!(parse.add_offset(Position { line: 2, col: 1 }), LoadError::Parse { issue: ParseIssue::BadValue, pos: Position { line: 3, col: 8 } });
}

#[test]
fn variable_and_match_nodes_load() {
    match one("VariableNode(name: \"v\", frames: [(a.png, 0.1), (\"b.png\", 2.25)], index: Index(\"Run\"))") {
        AnimationNode::Variable(n) => {
            assert_eq!(n.frames, vec![("a.png".to_string(), 100_000), ("b.png".to_string(), 2_250_000)]);
            assert!(!n.is_loop);
            assert_eq!(n.index, Attribute::new_index("Run"));
        },
        other => panic!("{:?}", other),
    }
    match one("MatchNode(name: \"m\", check: Custom(\"ZombieState\"), default: Name(\"idle\"), pairs: [(0, Name(\"idle\")), (1, Name(\"walk\"))])") {
        AnimationNode::Match(n) => {
            assert_eq!(n.kind, ValueKind::Usize);
            assert_eq!(n.pairs.len(), 2);
            assert_eq!(n.pairs[1].0, Value::Usize(1));
            assert_eq!(n.pairs[1].1, NodeId::from_name("walk"));
            assert_eq!(n.default, NodeId::from_name("idle"));
        },
        other => panic!("{:?}", other),
    }
    match one("MatchNode(name: \"m\", kind: Bool, check: FlipX, default: Id(1), pairs: [(true, Id(2))])") {
        AnimationNode::Match(n) => assert_eq!(n.pairs[0].0, Value::Bool(true)),
        other => panic!("{:?}", other),
    }
    match one("ScriptNode( #name idle return Id(3) )") {
        AnimationNode::Script(n) => assert_eq!(n.name().map(|s| s.as_str()), Some("idle")),
        other => panic!("{:?}", other),
    }
}

fn round_trip(node: AnimationNode) -> AnimationNode {
    let mut text = String::new();
    match &node {
        AnimationNode::Index(n) => n.serialize(&mut text),
        AnimationNode::Fps(n) => n.serialize(&mut text),
        AnimationNode::Scale(n) => n.serialize(&mut text),
        AnimationNode::Variable(n) => n.serialize(&mut text),
        _ => unreachable!(),
    }
    let tree = load_file("one.node", &text).unwrap();
    assert!(tree.errors.is_empty(), "{}: {:?}", text, tree.errors);
    assert_eq!(tree.nodes.len(), 1);
    assert_eq!(tree.nodes[0].1.id(), node.id());
    let mut again = String::new();
    match &tree.nodes[0].1 {
        AnimationNode::Index(n) => n.serialize(&mut again),
        AnimationNode::Fps(n) => n.serialize(&mut again),
        AnimationNode::Scale(n) => n.serialize(&mut again),
        AnimationNode::Variable(n) => n.serialize(&mut again),
        _ => unreachable!(),
    }
    assert_eq!(text, again);
    tree.nodes.into_iter().next().unwrap().1
}

#[test]
fn serialized_nodes_load_back() {
    let index = IndexNode::new_with_index("walk \"fast\"", &vec!["a.png".to_string(), "dir\\b.png".to_string()], true, Attribute::new_index("Walk"));
    match round_trip(AnimationNode::Index(index)) {
        AnimationNode::Index(n) => {
            assert_eq!(n.name, "walk \"fast\"");
            assert_eq!(n.frames, vec!["a.png".to_string(), "dir\\b.png".to_string()]);
            assert!(n.is_loop);
            assert_eq!(n.index.name(), Some("Walk"));
        },
        other => panic!("{:?}", other),
    }
    let mut fps = FPSNode::new("fps", 12, NodeId::U64(3));
    fps.set_id(NodeId::U64(11));
    match round_trip(AnimationNode::Fps(fps)) {
        AnimationNode::Fps(n) => {
            assert_eq!(n.id, Some(NodeId::U64(11)));
            assert_eq!(n.fps, 12);
            assert_eq!(n.next, NodeId::U64(3));
        },
        other => panic!("{:?}", other),
    }
    round_trip(AnimationNode::Scale(ScaleNode::new("s", Attribute::CustomId(77), NodeId::Handle(2))));
    match round_trip(AnimationNode::Variable(VariableNode::new("v", vec![("x".to_string(), 1), ("y".to_string(), 2_000_001)], false))) {
        AnimationNode::Variable(n) => assert_eq!(n.frames, vec![("x".to_string(), 1), ("y".to_string(), 2_000_001)]),
        other => panic!("{:?}", other),
    }
}

#[test]
fn script_and_match_nodes_print_and_load_back() {
    let script = ScriptNode::new("#name \"s one\" #fallback Id(1) if Index(\"F\") >= 2 set Index(\"F\") 0 set Custom(\"Speed\") Ron(1.5) return Name(\"x\")").unwrap();
    let mut text = String::new();
    assert!(AnimationNode::Script(script).serialize(&mut text));
    assert_eq!(text, "ScriptNode(\n#name \"s one\"\n#fallback Id(1)\nif Index(\"F\") >= 2 set Index(\"F\") 0 set Custom(\"Speed\") Ron(1.5) return Name(\"x\") )");
    match one(&text) {
        AnimationNode::Script(n) => {
            let mut again = String::new();
            n.serialize(&mut again);
            assert_eq!(again, text);
        },
        other => panic!("{:?}", other),
    }
    let m = MatchNode::new("m", ValueKind::Bool, vec![(Value::Bool(true), NodeId::U64(2))], Attribute::FlipX, NodeId::Hash(5));
    let mut text = String::new();
    m.serialize(&mut text);
    assert_eq!(text, "MatchNode(name: \"m\", kind: Bool, check: FlipX, default: Name(5), pairs: [(true, Id(2))])");
    match one(&text) {
        AnimationNode::Match(n) => {
            assert_eq!(n.kind, ValueKind::Bool);
            assert_eq!(n.check, Attribute::FlipX);
            assert_eq!(n.default, NodeId::Hash(5));
            assert_eq!(n.pairs[0].0, Value::Bool(true));
        },
        other => panic!("{:?}", other),
    }
}

#[test]
fn keys_and_addresses_read_to_a_person() {
    assert_eq!(Attribute::new_attribute("Fall").to_display(), "Custom::Fall");
    assert_eq!(Attribute::IndexId(7).to_display(), "Index(7)");
    assert_eq!(Attribute::FlipY.to_display(), "FlipY");
    assert_eq!(NodeId::from_name("walk").to_display(), "NodeName(\"walk\")");
    assert_eq!(NodeId::U64(3).to_display(), "NodeId(3)");
    assert_eq!(NodeId::Hash(3).to_display(), "NodeName(3)");
    assert_eq!(NodeId::Handle(3).to_display(), "NodeHandle()");
    let mut text = String::new();
    let reference = bevy_sprite_animation::nodes::reference_node::ReferenceNode { nodes: Vec::new(), path: "p".to_string() };
    assert!(!AnimationNode::Reference(reference).serialize(&mut text));
    assert!(text.is_empty());
}
