use bevy_sprite_animation::attributes::Attribute;
use bevy_sprite_animation::error::{RunError, StateError};
use bevy_sprite_animation::node_id::NodeId;
use bevy_sprite_animation::nodes::fps_node::FPSNode;
use bevy_sprite_animation::nodes::index_node::IndexNode;
use bevy_sprite_animation::nodes::match_node::MatchNode;
use bevy_sprite_animation::nodes::reference_node::ReferenceNode;
use bevy_sprite_animation::nodes::scale_node::ScaleNode;
use bevy_sprite_animation::nodes::script_node::ScriptNode;
use bevy_sprite_animation::nodes::variable_node::VariableNode;
use bevy_sprite_animation::nodes::{AnimationNode, NodeResult};
use bevy_sprite_animation::state::AnimationState;
use bevy_sprite_animation::value::{Value, ValueKind};
use bevy_sprite_animation::walker::{NodeTable, StartNode, TickOutcome, WalkError};

fn frames(n: usize) -> Vec<String> {
    (0..n).map(|i| format!("frame_{}.png", i)).collect()
}

fn done(r: Result<NodeResult, RunError>) -> String {
    match r {
        Ok(NodeResult::Done(f)) => f,
        other => panic!("expected a frame, got {:?}", other),
    }
}

#[test]
fn index_node_wraps_when_looping() {
    let node = IndexNode::new("walk", &frames(4), true);
    let mut state = AnimationState::new();
    state.set_attribute(Attribute::IndexId(0), Value::Usize(3));
    state.set_attribute(Attribute::Frames, Value::Usize(2));
    assert_eq!(done(node.run(&mut state)), "frame_1.png");
    assert_eq!(state.get_usize(&Attribute::IndexId(0)), Ok(1));
}

#[test]
fn index_node_clamps_without_loop() {
    let node = IndexNode::new("walk", &frames(4), false);
    let mut state = AnimationState::new();
    state.set_attribute(Attribute::IndexId(0), Value::Usize(3));
    state.set_attribute(Attribute::Frames, Value::Usize(2));
    assert_eq!(done(node.run(&mut state)), "frame_3.png");
    assert_eq!(state.get_usize(&Attribute::IndexId(0)), Ok(3));
}

#[test]
fn index_node_starts_at_zero_and_uses_its_key() {
    let key = Attribute::new_index("Stand");
    let node = IndexNode::new_with_index("stand", &frames(5), true, key.deep_clone());
    let mut state = AnimationState::new();
    state.set_attribute(Attribute::Frames, Value::Usize(12));
    assert_eq!(done(node.run(&mut state)), "frame_2.png");
    assert_eq!(state.index(&key), 2);
    assert!(state.changed(&key));
}

#[test]
fn index_node_errors() {
    let empty = IndexNode::new("none", &Vec::new(), true);
    let mut state = AnimationState::new();
    assert_eq!(empty.run(&mut state).unwrap_err(), RunError::NoFrames);
    let node = IndexNode::new("walk", &frames(2), true);
    state.set_attribute(Attribute::Frames, Value::Bool(true));
    assert_eq!(node.run(&mut state).unwrap_err(), RunError::StateError(StateError::WrongType));
    state.clear_attribute(&Attribute::Frames);
    assert_eq!(node.run(&mut state).unwrap_err(), RunError::StateError(StateError::NotFound));
}

#[test]
fn fps_node_accumulates_time() {
    let node = FPSNode::new("fps", 10, NodeId::from_name("walk"));
    let mut state = AnimationState::new();
    state.begin_tick(250_000);
    match node.run(&mut state) {
        Ok(NodeResult::Next(id)) => assert_eq!(id, NodeId::from_name("walk")),
        other => panic!("{:?}", other),
    }
    assert_eq!(state.get_usize(&Attribute::Frames), Ok(2));
    assert_eq!(state.get_micros(&Attribute::TimeThisFrame), Ok(50_000));
    assert_eq!(state.get_micros(&Attribute::LastFPS), Ok(100_000));
    // the left-over time carries into the next tick
    state.begin_tick(60_000);
    node.run(&mut state).unwrap();
    assert_eq!(state.get_usize(&Attribute::Frames), Ok(1));
    assert_eq!(state.get_micros(&Attribute::TimeThisFrame), Ok(10_000));
}

#[test]
fn fps_node_edge_rates() {
    let still = FPSNode::new("still", 0, NodeId::U64(1));
    let mut state = AnimationState::new();
    state.begin_tick(500);
    still.run(&mut state).unwrap();
    assert_eq!(state.get_usize(&Attribute::Frames), Ok(0));
    assert_eq!(state.get_micros(&Attribute::TimeThisFrame), Ok(500));
    assert_eq!(FPSNode::new("fast", 3_000_000, NodeId::U64(1)).frame_time(), 1);
    assert_eq!(FPSNode::new("seven", 7, NodeId::U64(1)).frame_time(), 142_857);
    let mut empty = AnimationState::new();
    empty.clear_attribute(&Attribute::Delta);
    assert_eq!(still.run(&mut empty).unwrap_err(), RunError::StateError(StateError::NotFound));
}

#[test]
fn scale_node_stretches_frames() {
    let fps = FPSNode::new("fps", 10, NodeId::U64(2));
    let scale_key = Attribute::new_attribute("Speed");
    let scale = ScaleNode::new("slow", scale_key.deep_clone(), NodeId::U64(3));
    let mut state = AnimationState::new();
    state.begin_tick(250_000);
    fps.run(&mut state).unwrap();
    state.set_attribute(scale_key.deep_clone(), Value::Permille(2000));
    match scale.run(&mut state) {
        Ok(NodeResult::Next(id)) => assert_eq!(id, NodeId::U64(3)),
        other => panic!("{:?}", other),
    }
    // 0.25 s at 0.2 s a frame: one frame and 0.05 s left
    assert_eq!(state.get_usize(&Attribute::Frames), Ok(1));
    assert_eq!(state.get_micros(&Attribute::TimeThisFrame), Ok(50_000));
    assert_eq!(state.get_micros(&Attribute::LastFPS), Ok(200_000));
}

#[test]
fn scale_node_defaults_to_one() {
    let scale = ScaleNode::new("same", Attribute::new_attribute("Unset"), NodeId::U64(3));
    let mut state = AnimationState::new();
    state.set_attribute(Attribute::TimeThisFrame, Value::Micros(30_000));
    state.set_attribute(Attribute::Frames, Value::Usize(3));
    state.set_attribute(Attribute::LastFPS, Value::Micros(100_000));
    scale.run(&mut state).unwrap();
    assert_eq!(state.get_usize(&Attribute::Frames), Ok(3));
    assert_eq!(state.get_micros(&Attribute::TimeThisFrame), Ok(30_000));
    let mut bare = AnimationState::new();
    assert_eq!(scale.run(&mut bare).unwrap_err(), RunError::StateError(StateError::NotFound));
}

#[test]
fn variable_node_spends_time_per_frame() {
    let node = VariableNode::new(
        "var",
        vec![("a".to_string(), 100_000), ("b".to_string(), 300_000), ("c".to_string(), 100_000)],
        true,
    );
    let mut state = AnimationState::new();
    state.set_attribute(Attribute::TimeThisFrame, Value::Micros(50_000));
    state.set_attribute(Attribute::Frames, Value::Usize(2));
    state.set_attribute(Attribute::LastFPS, Value::Micros(100_000));
    // 0.25 s: frame a takes 0.1 s, then 0.15 s into frame b
    assert_eq!(done(node.run(&mut state)), "b");
    assert_eq!(state.get_micros(&Attribute::TimeThisFrame), Ok(150_000));
    assert_eq!(state.index(&Attribute::IndexId(0)), 1);
}

#[test]
fn variable_node_wraps_and_clamps() {
    let list = vec![("a".to_string(), 100_000), ("b".to_string(), 100_000)];
    let looping = VariableNode::new("loop", list.clone(), true);
    let stopping = VariableNode::new("stop", list, false);
    for (node, frame, index) in [(looping, "a", 0usize), (stopping, "b", 1usize)] {
        let mut state = AnimationState::new();
        state.set_attribute(Attribute::TimeThisFrame, Value::Micros(250_000));
        state.set_attribute(Attribute::Frames, Value::Usize(0));
        state.set_attribute(Attribute::LastFPS, Value::Micros(100_000));
        assert_eq!(done(node.run(&mut state)), frame);
        assert_eq!(state.index(&Attribute::IndexId(0)), index);
    }
    let empty = VariableNode::new("none", Vec::new(), true);
    assert_eq!(empty.run(&mut AnimationState::new()).unwrap_err(), RunError::NoFrames);
}

#[test]
fn match_node_dispatches() {
    let check = Attribute::new_attribute("ZombieState");
    let node = MatchNode::new(
        "zombie",
        ValueKind::Usize,
        vec![(Value::Usize(0), NodeId::from_name("idle")), (Value::Usize(1), NodeId::from_name("walk")),
             (Value::Usize(1), NodeId::from_name("run"))],
        check.deep_clone(),
        NodeId::from_name("fallback"),
    );
    let mut state = AnimationState::new();
    assert_eq!(node.run(&mut state).unwrap_err(), RunError::StateError(StateError::NotFound));
    state.set_attribute(check.deep_clone(), Value::Bool(true));
    assert_eq!(node.run(&mut state).unwrap_err(), RunError::StateError(StateError::WrongType));
    let next = |state: &mut AnimationState| match node.run(state) {
        Ok(NodeResult::Next(id)) => id,
        other => panic!("{:?}", other),
    };
    state.set_attribute(check.deep_clone(), Value::Usize(0));
    assert_eq!(next(&mut state), NodeId::from_name("idle"));
    state.set_attribute(check.deep_clone(), Value::Usize(1));
    assert_eq!(next(&mut state), NodeId::from_name("run"));
    state.set_attribute(check.deep_clone(), Value::Usize(9));
    assert_eq!(next(&mut state), NodeId::from_name("fallback"));
    assert_eq!(node.id(), NodeId::from_name("zombie"));
}

#[test]
fn reference_node_forwards_to_first() {
    let r = ReferenceNode { nodes: vec![NodeId::U64(4), NodeId::U64(5)], path: "a.nodetree".to_string() };
    match r.run() {
        Ok(NodeResult::Next(id)) => assert_eq!(id, NodeId::U64(4)),
        other => panic!("{:?}", other),
    }
    let empty = ReferenceNode { nodes: Vec::new(), path: "b.nodetree".to_string() };
    assert_eq!(empty.run().unwrap_err(), RunError::EmptyReference);
    assert_eq!(r.iter().len(), 2);
}

#[test]
fn node_identity() {
    let mut node = IndexNode::new("walk", &frames(1), true);
    assert_eq!(node.id(), NodeId::from_name("walk"));
    node.set_id(NodeId::U64(7));
    assert_eq!(node.id(), NodeId::U64(7));
    let fps = AnimationNode::Fps(FPSNode::new("fps", 5, NodeId::U64(1)));
    assert_eq!(fps.id(), NodeId::from_name("fps"));
}

fn cycle_table() -> NodeTable {
    let mut table = NodeTable::new();
    table.add(AnimationNode::Fps(FPSNode::new("a", 10, NodeId::from_name("b"))));
    table.add(AnimationNode::Fps(FPSNode::new("b", 10, NodeId::from_name("a"))));
    table
}

#[test]
fn walk_of_a_cycle_ends_at_the_cap() {
    let table = cycle_table();
    let mut state = AnimationState::new();
    state.begin_tick(16_000);
    match table.step(&mut state, &NodeId::from_name("a"), 20) {
        TickOutcome::Failed(WalkError::MaxDepth) => {},
        other => panic!("{:?}", other),
    }
}

#[test]
fn walk_reaches_a_frame() {
    let mut table = NodeTable::new();
    table.add(AnimationNode::Fps(FPSNode::new("fps", 10, NodeId::from_name("walk"))));
    table.add(AnimationNode::Index(IndexNode::new("walk", &frames(4), true)));
    let mut state = AnimationState::new();
    state.begin_tick(250_000);
    match table.step(&mut state, &NodeId::from_name("fps"), 10) {
        TickOutcome::Rendered(f) => assert_eq!(f, "frame_2.png"),
        other => panic!("{:?}", other),
    }
    match table.step(&mut state, &NodeId::from_name("fps"), 1) {
        TickOutcome::Failed(WalkError::MaxDepth) => {},
        other => panic!("{:?}", other),
    }
    match table.step(&mut state, &NodeId::from_name("missing"), 10) {
        TickOutcome::Failed(WalkError::NotFound(id)) => assert_eq!(id, NodeId::from_name("missing")),
        other => panic!("{:?}", other),
    }
    let mut bare = AnimationState::new();
    bare.clear_attribute(&Attribute::Delta);
    match table.step(&mut bare, &NodeId::from_name("fps"), 10) {
        TickOutcome::Failed(WalkError::Run(RunError::StateError(StateError::NotFound))) => {},
        other => panic!("{:?}", other),
    }
}

#[test]
fn table_insert_replaces() {
    let mut table = NodeTable::new();
    table.insert(NodeId::U64(1), AnimationNode::Fps(FPSNode::new("x", 1, NodeId::U64(2))));
    table.insert(NodeId::U64(1), AnimationNode::Fps(FPSNode::new("y", 1, NodeId::U64(3))));
    match table.get(&NodeId::U64(1)) {
        Some(AnimationNode::Fps(n)) => assert_eq!(n.name, "y"),
        other => panic!("{:?}", other),
    }
    assert!(table.get(&NodeId::U64(2)).is_none());
}

#[test]
fn script_node_branches_and_returns() {
    let script = ScriptNode::new(
        "#name \"zombie script\" #fallback Name(\"idle\") \
         if Index(\"Fall\") == none set Index(\"Fall\") 1 \
         if Index(\"Fall\") >= 3 set Index(\"Down\") 1 \
         if Index(\"Down\") == 1 return Name(\"down\") else else \
         return Name(\"walk\")",
    )
    .unwrap();
    assert_eq!(script.name().map(|s| s.as_str()), Some("zombie script"));
    assert_eq!(script.id(), NodeId::from_name("zombie script"));
    let mut state = AnimationState::new();
    let next = |script: &ScriptNode, state: &mut AnimationState| match script.run(state) {
        Ok(NodeResult::Next(id)) => id,
        other => panic!("{:?}", other),
    };
    assert_eq!(next(&script, &mut state), NodeId::from_name("walk"));
    assert_eq!(state.index(&Attribute::new_index("Fall")), 1);
    state.set_attribute(Attribute::new_index("Fall"), Value::Usize(5));
    assert_eq!(next(&script, &mut state), NodeId::from_name("down"));
    assert_eq!(state.index(&Attribute::new_index("Down")), 1);
}

#[test]
fn script_node_sets_and_falls_back() {
    let script = ScriptNode::new("( #fallback Id(9) set Index(\"Stand\") 4 set Custom(\"Speed\") Ron(1500) )").unwrap();
    let mut state = AnimationState::new();
    assert_eq!(script.run(&mut state).unwrap_err(), RunError::StateError(StateError::NotFound));
    state.set_attribute(Attribute::new_attribute("Speed"), Value::Permille(1000));
    match script.run(&mut state) {
        Ok(NodeResult::Next(id)) => assert_eq!(id, NodeId::U64(9)),
        other => panic!("{:?}", other),
    }
    assert_eq!(state.index(&Attribute::new_index("Stand")), 4);
    assert_eq!(state.get_permille(&Attribute::new_attribute("Speed")), Ok(1500));
    let no_fallback = ScriptNode::new("set Index(0) 1").unwrap();
    assert_eq!(no_fallback.run(&mut state).unwrap_err(), RunError::NoReturn);
    let bad = ScriptNode::new("set Custom(\"Speed\") 3").unwrap();
    assert_eq!(bad.run(&mut state).unwrap_err(), RunError::BadScript);
    assert!(ScriptNode::new("return Other(1)").is_err());
    let mut tagged = ScriptNode::new("#id Id(3) return Id(1)").unwrap();
    assert_eq!(tagged.id(), NodeId::U64(3));
    tagged.set_id(NodeId::U64(8));
    assert_eq!(tagged.id(), NodeId::U64(8));
}

#[test]
fn nodes_tell_type_and_name() {
    let fps = AnimationNode::Fps(FPSNode::new("fps", 5, NodeId::U64(1)));
    assert_eq!(fps.node_type(), "FPSNode");
    assert_eq!(fps.name().map(|s| s.as_str()), Some("fps"));
    let script = AnimationNode::Script(ScriptNode::new("return Id(1)").unwrap());
    assert_eq!(script.node_type(), "ScriptNode");
    assert_eq!(script.name(), None);
    assert_eq!(script.id(), NodeId::U64(0));
    let reference = AnimationNode::Reference(ReferenceNode { nodes: Vec::new(), path: "x.nodetree".to_string() });
    assert_eq!(reference.name(), None);
    let state = AnimationState::default();
    assert!(state.contains(&Attribute::Delta));
    assert!(!state.contains(&Attribute::LastFPS));
}

#[test]
fn start_nodes() {
    assert_eq!(StartNode::from_u64(3).0, NodeId::U64(3));
    assert_eq!(StartNode::from_name("walk").0, NodeId::from_name("walk"));
    assert_eq!(StartNode::from_handle(9).0, NodeId::Handle(9));
}
