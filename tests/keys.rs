use bevy_sprite_animation::attributes::Attribute;
use bevy_sprite_animation::hashing::get_hash;
use bevy_sprite_animation::node_id::NodeId;

#[test]
fn key_identity_named_equals_hashed() {
    for n in ["walk", "Two", "", "a b c"] {
        let h = get_hash(n);
        assert_eq!(Attribute::new_attribute(n), Attribute::CustomId(h));
        assert_eq!(Attribute::new_index(n), Attribute::IndexId(h));
        assert_eq!(Attribute::new_attribute(n).clone(), Attribute::CustomId(h));
        assert_ne!(Attribute::new_attribute(n), Attribute::new_index(n));
        assert_eq!(Attribute::new_attribute_id(n), Attribute::new_attribute(n));
        assert_eq!(Attribute::new_index_id(n), Attribute::new_index(n));
    }
    for core in [Attribute::Default, Attribute::Delta, Attribute::Frames, Attribute::TimeThisFrame,
                 Attribute::FlipX, Attribute::FlipY, Attribute::LastFPS] {
        assert_ne!(core, Attribute::CustomId(0));
        assert_ne!(core, Attribute::IndexId(0));
        assert_ne!(core, Attribute::new_attribute("Delta"));
        assert!(core.is_core());
    }
    assert_ne!(Attribute::Delta, Attribute::Frames);
}

#[test]
fn clone_drops_the_name_and_deep_clone_keeps_it() {
    let a = Attribute::new_attribute("Fall");
    assert_eq!(a.name(), Some("Fall"));
    assert_eq!(a.clone().name(), None);
    assert_eq!(a.deep_clone().name(), Some("Fall"));
    assert_eq!(Attribute::Delta.name(), Some("Delta"));
    assert_eq!(Attribute::IndexId(7).name_or_id(), "7");
    assert_eq!(a.name_or_id(), "Fall");
    assert_eq!(Attribute::LastFPS.name_or_id(), "LastFPS");
    assert_eq!(Attribute::CustomId(12345).name_or_id(), "12345");
}

#[test]
fn key_kinds_and_ids() {
    let c = Attribute::new_attribute("x");
    let i = Attribute::new_index("x");
    assert!(c.is_custom() && !c.is_index() && !c.is_core());
    assert!(i.is_index() && !i.is_custom() && !i.is_core());
    assert_eq!(c.get_id(), Some(get_hash("x")));
    assert_eq!(Attribute::IndexId(9).get_id(), Some(9));
    assert_eq!(Attribute::FlipX.get_id(), None);
    assert_eq!(Attribute::default(), Attribute::Default);
}

#[test]
fn node_id_assert_eq() {
    let test_hash = get_hash("Test");
    assert_eq!(NodeId::U64(0), NodeId::U64(0));
    assert_ne!(NodeId::U64(0), NodeId::U64(1));
    assert_ne!(NodeId::U64(0), NodeId::from_name("Test"));
    let u64 = NodeId::U64(0);
    assert_eq!(u64.to_static(), u64);
    assert_eq!(u64.to_static(), u64.to_static());
    let name = NodeId::from_name("Test");
    let name_hash = NodeId::Hash(test_hash);
    assert_eq!(name.to_static(), name);
    assert_eq!(NodeId::from_name("Test"), NodeId::from_name(&String::from("Test")));
    assert_eq!(NodeId::from_name("Test"), NodeId::Hash(test_hash));
    assert_eq!(NodeId::Hash(test_hash), NodeId::from_name("Test"));
    assert_eq!(NodeId::Hash(test_hash), NodeId::Hash(test_hash));
    assert_eq!(name.to_static(), NodeId::from_name("Test"));
    assert_eq!(name.to_static(), NodeId::Hash(test_hash));
    assert_eq!(NodeId::from_name("Test"), name.to_static());
    assert_eq!(NodeId::Hash(test_hash), name.to_static());
    assert_ne!(u64.to_static(), name.to_static());
    assert_eq!(name, name_hash);
    assert_eq!(name_hash, name);
    assert_eq!(name_hash.to_static(), name_hash);
    assert_eq!(name.to_static(), name);
    assert_eq!(name_hash.to_static(), name.to_static());
}

#[test]
fn attribute_from_bare_and_hex_text() {
    assert_eq!(Attribute::from_str("123"), Attribute::CustomId(123));
    assert_eq!(Attribute::from_str(" 0x1F "), Attribute::CustomId(31));
    assert_eq!(Attribute::from_str("0x1f").name(), None);
    assert_eq!(Attribute::from_str("Index(0x10)"), Attribute::IndexId(16));
    assert_eq!(Attribute::from_str("Custom( 0xff )"), Attribute::CustomId(255));
    let odd = Attribute::from_str("Custom(true)");
    assert_eq!(odd, Attribute::new_attribute("Custom(true)"));
    assert_eq!(Attribute::from_str("0x"), Attribute::new_attribute("0x"));
}

#[test]
fn attribute_from_text() {
    assert_eq!(Attribute::from_str("Delta"), Attribute::Delta);
    assert_eq!(Attribute::from_str("  LastFPS "), Attribute::LastFPS);
    assert_eq!(Attribute::from_str("Custom(2)"), Attribute::CustomId(2));
    assert_eq!(Attribute::from_str("Index(2)"), Attribute::IndexId(2));
    let named = Attribute::from_str("Index(\"Two\")");
    assert_eq!(named, Attribute::new_index("Two"));
    assert_eq!(named.name(), Some("Two"));
    let bare = Attribute::from_str("ZombieState");
    assert_eq!(bare, Attribute::new_attribute("ZombieState"));
    assert_eq!(bare.name(), Some("ZombieState"));
    assert_eq!(Attribute::from_str("Custom(\"a\\\"b\")"), Attribute::new_attribute("a\"b"));
}

#[test]
fn node_id_from_text() {
    assert_eq!(NodeId::from_str("Id(2)"), Some(NodeId::U64(2)));
    assert_eq!(NodeId::from_str("Name(2)"), Some(NodeId::Hash(2)));
    assert_eq!(NodeId::from_str("Node::Name(\"Two\")"), Some(NodeId::from_name("Two")));
    assert_eq!(NodeId::from_str(" Handle(5) "), Some(NodeId::Handle(5)));
    assert_eq!(NodeId::from_str("Id(\"x\")"), None);
    assert_eq!(NodeId::from_str("Other(1)"), None);
    assert_eq!(NodeId::from_str("Id(1) tail"), None);
}

#[test]
fn node_id_order_and_default() {
    assert!(NodeId::Handle(9) < NodeId::U64(0));
    assert!(NodeId::U64(9) < NodeId::Hash(0));
    assert!(NodeId::Hash(1) < NodeId::Hash(2));
    assert_eq!(NodeId::from_name("a").partial_cmp(&NodeId::Hash(get_hash("a"))), Some(std::cmp::Ordering::Equal));
    assert_eq!(NodeId::default(), NodeId::U64(0));
    assert_eq!(NodeId::from_u64(4), NodeId::U64(4));
    assert_ne!(NodeId::U64(get_hash("a")), NodeId::from_name("a"));
}
