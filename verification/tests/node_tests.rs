use node_identity::node::Node;
use node_identity::TypeConfig;
use std::hash::Hash;
use std::hash::Hasher;

fn hash_of<T: Hash>(value: &T) -> u64 {
    let mut hasher = std::collections::hash_map::DefaultHasher::new();
    value.hash(&mut hasher);
    hasher.finish()
}

#[test]
fn equal_identifiers_agree_on_order_and_hash() {
    let a: u64 = 42;
    let b: u64 = 42;
    assert_eq!(a, b);
    assert_eq!(a.cmp(&b), std::cmp::Ordering::Equal);
    assert_eq!(hash_of(&a), hash_of(&b));
}

#[test]
fn construct_renders_bare_address() {
    let node = Node::new("127.0.0.1:9000");
    assert_eq!(node.render(), "127.0.0.1:9000; ");
}

#[test]
fn render_follows_insertion_order() {
    let mut node = Node::new("n1");
    node.insert_attr("rack".to_string(), "a".to_string());
    node.insert_attr("zone".to_string(), "1".to_string());
    assert_eq!(node.render(), "n1; rack:a,zone:1");
}

#[test]
fn construct_accepts_empty_address() {
    let node = Node::new("");
    assert_eq!(node.addr, "");
    assert_eq!(node.render(), "; ");
}

#[test]
fn insert_new_key_returns_none() {
    let mut node = Node::new("n1");
    let prev = node.insert_attr("rack".to_string(), "a".to_string());
    assert_eq!(prev, None);
}

#[test]
fn insert_existing_key_overwrites_in_place() {
    let mut node = Node::new("n1");
    node.insert_attr("rack".to_string(), "a".to_string());
    node.insert_attr("zone".to_string(), "1".to_string());
    let prev = node.insert_attr("rack".to_string(), "b".to_string());
    assert_eq!(prev, Some("a".to_string()));
    assert_eq!(node.render(), "n1; rack:b,zone:1");
}

#[test]
fn remove_existing_key_closes_the_gap() {
    let mut node = Node::new("n1");
    node.insert_attr("rack".to_string(), "a".to_string());
    node.insert_attr("zone".to_string(), "1".to_string());
    node.insert_attr("host".to_string(), "h7".to_string());
    let prev = node.remove_attr("zone");
    assert_eq!(prev, Some("1".to_string()));
    assert_eq!(node.render(), "n1; rack:a,host:h7");
}

#[test]
fn remove_absent_key_changes_nothing() {
    let mut node = Node::new("n1");
    node.insert_attr("rack".to_string(), "a".to_string());
    let before = node.clone();
    let prev = node.remove_attr("zone");
    assert_eq!(prev, None);
    assert_eq!(node, before);
}

#[test]
fn unescaped_separators_render_ambiguously() {
    let mut node = Node::new("n1");
    node.insert_attr("k:1".to_string(), "v,2".to_string());
    assert_eq!(node.render(), "n1; k:1:v,2");
}

fn config_node_id_default<C: TypeConfig>() -> C::NodeId {
    C::NodeId::default()
}

#[test]
fn test_config_instantiates() {
    let req = node_identity::testing::Req {};
    let resp = node_identity::testing::Resp {};
    let _req2 = req.clone();
    let _resp2 = resp.clone();
    let id = config_node_id_default::<node_identity::testing::Config>();
    assert_eq!(id, 0u64);
}
