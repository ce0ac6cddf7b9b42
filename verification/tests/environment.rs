use scheme_gateway::env::{Env, Store};
use scheme_gateway::value::Value;

fn show(v: Option<Value>) -> String {
    match v {
        Some(v) => v.display(),
        None => "<unbound>".to_string(),
    }
}

#[test]
fn define_then_lookup_gives_the_value() {
    let mut store = Store::new();
    let env = Env::new(&mut store);
    env.define(&mut store, "x".to_string(), Value::Int(3));
    assert_eq!(show(env.lookup(&store, "x")), "3");
    env.define(&mut store, "x".to_string(), Value::Int(4));
    assert_eq!(show(env.lookup(&store, "x")), "4");
}

#[test]
fn new_scope_binds_nothing() {
    let mut store = Store::new();
    let env = Env::new(&mut store);
    assert!(env.lookup(&store, "x").is_none());
}

#[test]
fn child_sees_parent_and_shadows_without_leaking() {
    let mut store = Store::new();
    let parent = Env::new(&mut store);
    parent.define(&mut store, "x".to_string(), Value::Int(1));
    let child = parent.child(&mut store);
    assert_eq!(show(child.lookup(&store, "x")), "1");
    child.define(&mut store, "x".to_string(), Value::Int(2));
    assert_eq!(show(child.lookup(&store, "x")), "2");
    assert_eq!(show(parent.lookup(&store, "x")), "1");
    parent.define(&mut store, "y".to_string(), Value::Bool(true));
    assert_eq!(show(child.lookup(&store, "y")), "#t");
}

#[test]
fn define_of_one_name_leaves_others() {
    let mut store = Store::new();
    let env = Env::new(&mut store);
    env.define(&mut store, "a".to_string(), Value::Int(1));
    env.define(&mut store, "b".to_string(), Value::Int(2));
    assert_eq!(show(env.lookup(&store, "a")), "1");
}

#[test]
fn copies_of_a_handle_share_the_scope() {
    let mut store = Store::new();
    let env = Env::new(&mut store);
    let same = env;
    same.define(&mut store, "k".to_string(), Value::Str("v".to_string()));
    assert_eq!(show(env.lookup(&store, "k")), "v");
}

#[test]
fn tables_set_and_get() {
    let mut store = Store::new();
    let t = store.new_table();
    store.table_set(t, "a".to_string(), Value::Int(1));
    store.table_set(t, "b".to_string(), Value::Int(2));
    store.table_set(t, "a".to_string(), Value::Int(3));
    assert_eq!(show(store.table_get(t, "a")), "3");
    assert_eq!(store.table_keys(t), vec!["a".to_string(), "b".to_string()]);
    let copy = store.duplicate();
    assert_eq!(show(copy.table_get(t, "b")), "2");
}
