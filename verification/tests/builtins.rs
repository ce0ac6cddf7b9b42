use scheme_gateway::builtins::{
    builtin_add, builtin_args_ok, builtin_car, builtin_cdr, builtin_cons, builtin_contains,
    builtin_div, builtin_ends_with, builtin_eq, builtin_ge, builtin_gt, builtin_ip_address,
    builtin_le, builtin_length, builtin_list, builtin_lt, builtin_mod, builtin_mul, builtin_names,
    builtin_not, builtin_null, builtin_print, builtin_respond, builtin_split, builtin_starts_with,
    builtin_string_append, builtin_string_eq, builtin_string_length, builtin_sub,
    builtin_substring, builtin_table_get, builtin_table_has, builtin_table_keys,
    builtin_table_set, call_builtin, ip_parts_ok, pieces_value,
};
use scheme_gateway::env::Store;
use scheme_gateway::value::Value;

fn s(x: &str) -> Value {
    Value::Str(x.to_string())
}

fn show(v: Value) -> String {
    v.display()
}

#[test]
fn integer_operations() {
    assert_eq!(show(builtin_add(&[Value::Int(2), Value::Int(3)])), "5");
    assert_eq!(show(builtin_sub(&[Value::Int(2), Value::Int(3)])), "-1");
    assert_eq!(show(builtin_mul(&[Value::Int(-4), Value::Int(3)])), "-12");
    assert_eq!(show(builtin_div(&[Value::Int(7), Value::Int(2)])), "3");
    assert_eq!(show(builtin_div(&[Value::Int(-7), Value::Int(2)])), "-3");
    assert_eq!(show(builtin_div(&[Value::Int(7), Value::Int(-2)])), "-3");
    assert_eq!(show(builtin_mod(&[Value::Int(7), Value::Int(-2)])), "1");
    assert_eq!(show(builtin_mod(&[Value::Int(-7), Value::Int(-2)])), "-1");
}

#[test]
fn comparisons() {
    assert_eq!(show(builtin_eq(&[Value::Int(2), Value::Int(2)])), "#t");
    assert_eq!(show(builtin_lt(&[Value::Int(2), Value::Int(3)])), "#t");
    assert_eq!(show(builtin_gt(&[Value::Int(2), Value::Int(3)])), "#f");
    assert_eq!(show(builtin_le(&[Value::Int(3), Value::Int(3)])), "#t");
    assert_eq!(show(builtin_ge(&[Value::Int(2), Value::Int(3)])), "#f");
}

#[test]
fn not_is_true_only_of_false_and_nil() {
    assert_eq!(show(builtin_not(&[Value::Bool(false)])), "#t");
    assert_eq!(show(builtin_not(&[Value::Nil])), "#t");
    assert_eq!(show(builtin_not(&[Value::Int(0)])), "#f");
    assert_eq!(show(builtin_not(&[s("")])), "#f");
}

#[test]
fn string_operations() {
    assert_eq!(show(builtin_string_length(&[s("héllo")])), "6");
    assert_eq!(show(builtin_string_eq(&[s("ab"), s("ab")])), "#t");
    assert_eq!(show(builtin_string_eq(&[s("ab"), s("abc")])), "#f");
    assert_eq!(show(builtin_string_append(&[s("OK: "), s("/api"), s(" authorized")])), "OK: /api authorized");
    assert_eq!(show(builtin_string_append(&[])), "");
    assert_eq!(show(builtin_substring(&[s("héllo"), Value::Int(1), Value::Int(3)])), "é");
    assert_eq!(show(builtin_substring(&[s("hello"), Value::Int(0), Value::Int(5)])), "hello");
    assert_eq!(show(builtin_starts_with(&[s("/api/users"), s("/api")])), "#t");
    assert_eq!(show(builtin_starts_with(&[s("/api"), s("/api/users")])), "#f");
    assert_eq!(show(builtin_ends_with(&[s("file.scm"), s(".scm")])), "#t");
    assert_eq!(show(builtin_ends_with(&[s("file.scm"), s("file")])), "#f");
    assert_eq!(show(builtin_contains(&[s("hello world"), s("o w")])), "#t");
    assert_eq!(show(builtin_contains(&[s("hello"), s("z")])), "#f");
    assert_eq!(show(builtin_split(&[s("a,b,,c"), s(",")])), "(a b  c)");
    assert_eq!(show(builtin_split(&[s("abc"), s(",")])), "(abc)");
}

#[test]
fn substring_outside_character_boundaries_is_refused() {
    let store = Store::new();
    let args = [s("héllo"), Value::Int(1), Value::Int(2)];
    assert!(!builtin_args_ok("substring", &args, &store));
    let args = [s("hello"), Value::Int(3), Value::Int(9)];
    assert!(!builtin_args_ok("substring", &args, &store));
    let args = [s("hello"), Value::Int(-1), Value::Int(2)];
    assert!(!builtin_args_ok("substring", &args, &store));
    let args = [s("hello"), Value::Int(1), Value::Int(2)];
    assert!(builtin_args_ok("substring", &args, &store));
}

#[test]
fn list_operations() {
    let l = builtin_list(&[Value::Int(1), Value::Int(2), Value::Int(3)]);
    assert_eq!(l.display(), "(1 2 3)");
    assert_eq!(show(builtin_car(&[builtin_list(&[Value::Int(1), Value::Int(2)])])), "1");
    assert_eq!(show(builtin_cdr(&[builtin_list(&[Value::Int(1), Value::Int(2)])])), "(2)");
    assert_eq!(show(builtin_cons(&[Value::Int(0), builtin_list(&[Value::Int(1)])])), "(0 1)");
    assert_eq!(show(builtin_null(&[builtin_list(&[])])), "#t");
    assert_eq!(show(builtin_null(&[Value::Int(1)])), "#f");
    assert_eq!(show(builtin_length(&[l])), "3");
}

#[test]
fn ip_addresses() {
    assert_eq!(show(builtin_ip_address(&[s("192.168.0.1")])), "#t");
    assert_eq!(show(builtin_ip_address(&[s("0.0.0.0")])), "#t");
    assert_eq!(show(builtin_ip_address(&[s("+1.2.3.4")])), "#t");
    assert_eq!(show(builtin_ip_address(&[s("256.1.1.1")])), "#f");
    assert_eq!(show(builtin_ip_address(&[s("1.2.3")])), "#f");
    assert_eq!(show(builtin_ip_address(&[s("1.2.3.4.5")])), "#f");
    assert_eq!(show(builtin_ip_address(&[s("a.b.c.d")])), "#f");
    assert_eq!(show(builtin_ip_address(&[s("-1.2.3.4")])), "#f");
    assert_eq!(show(builtin_ip_address(&[s("1..3.4")])), "#f");
}

#[test]
fn table_operations() {
    let mut store = Store::new();
    let t = store.new_table();
    let tv = Value::Table(t);
    let tv2 = Value::Table(t);
    let tv3 = Value::Table(t);
    let tv4 = Value::Table(t);
    let tv5 = Value::Table(t);
    assert_eq!(show(builtin_table_get(&[tv, s("k")], &store)), "nil");
    assert_eq!(show(builtin_table_set(&[tv2, s("k"), Value::Int(5)], &mut store)), "nil");
    assert_eq!(show(builtin_table_get(&[tv3, s("k")], &store)), "5");
    assert_eq!(show(builtin_table_has(&[tv4, s("k")], &store)), "#t");
    assert_eq!(show(builtin_table_keys(&[tv5], &store)), "(k)");
}

#[test]
fn respond_builds_status_and_body() {
    let mut store = Store::new();
    let r = builtin_respond(&[Value::Int(403), s("Forbidden")], &mut store);
    match r {
        Value::Table(t) => {
            assert_eq!(store.table_get(t, "status").unwrap().display(), "403");
            assert_eq!(store.table_get(t, "body").unwrap().display(), "Forbidden");
            assert_eq!(store.table_keys(t), vec!["status".to_string(), "body".to_string()]);
        }
        other => panic!("expected a table, got {:?}", other),
    }
}

#[test]
fn print_collects_output() {
    let mut out: Vec<String> = Vec::new();
    let r = builtin_print(&[Value::Int(-12)], &mut out);
    assert_eq!(r.display(), "nil");
    let _ = builtin_print(&[Value::Bool(true)], &mut out);
    assert_eq!(out, vec!["-12".to_string(), "#t".to_string()]);
}

#[test]
fn builtin_names_lists_all_builtins() {
    let names = builtin_names();
    assert_eq!(names.len(), 32);
    assert_eq!(names[0], "print");
    assert_eq!(names[31], "respond");
}

#[test]
fn dispatch_by_name() {
    let mut store = Store::new();
    let mut out: Vec<String> = Vec::new();
    let v = call_builtin("*", &[Value::Int(6), Value::Int(7)], &mut store, &mut out);
    assert_eq!(v.display(), "42");
    assert!(builtin_args_ok("list", &[], &store));
    assert!(!builtin_args_ok("no-such-builtin", &[], &store));
    assert!(!builtin_args_ok("+", &[Value::Int(i64::MAX), Value::Int(1)], &store));
    assert!(!builtin_args_ok("%", &[Value::Int(i64::MIN), Value::Int(-1)], &store));
    assert!(!builtin_args_ok("print", &[], &store));
    assert!(!builtin_args_ok("table-get", &[Value::Int(1), s("k")], &store));
}

#[test]
fn split_pieces_become_a_list_of_strings() {
    let v = pieces_value(vec!["a".to_string(), "".to_string(), "b".to_string()]);
    assert_eq!(v.display(), "(a  b)");
    assert_eq!(pieces_value(Vec::new()).display(), "()");
}

#[test]
fn ip_pieces_are_checked_one_by_one() {
    let ok: Vec<String> = ["10", "0", "255", "7"].iter().map(|p| p.to_string()).collect();
    assert!(ip_parts_ok(&ok));
    let big: Vec<String> = ["10", "0", "256", "7"].iter().map(|p| p.to_string()).collect();
    assert!(!ip_parts_ok(&big));
    let short: Vec<String> = ["10", "0", "7"].iter().map(|p| p.to_string()).collect();
    assert!(!ip_parts_ok(&short));
    let empty: Vec<String> = ["10", "", "1", "7"].iter().map(|p| p.to_string()).collect();
    assert!(!ip_parts_ok(&empty));
}

#[test]
fn string_tests_at_the_edges() {
    assert_eq!(show(builtin_contains(&[s("abc"), s("")])), "#t");
    assert_eq!(show(builtin_contains(&[s(""), s("a")])), "#f");
    assert_eq!(show(builtin_contains(&[s("abcabd"), s("abd")])), "#t");
    assert_eq!(show(builtin_starts_with(&[s("abc"), s("abc")])), "#t");
    assert_eq!(show(builtin_ends_with(&[s("abc"), s("")])), "#t");
    assert_eq!(show(builtin_string_eq(&[s("é"), s("e")])), "#f");
    assert_eq!(show(builtin_ip_address(&[s("4294967296.1.1.1")])), "#f");
    assert_eq!(show(builtin_ip_address(&[s("000.001.255.0")])), "#t");
}

#[test]
fn integers_are_shown_in_decimal() {
    assert_eq!(Value::Int(i64::MIN).display(), "-9223372036854775808");
    assert_eq!(Value::Int(i64::MAX).display(), "9223372036854775807");
    assert_eq!(Value::Int(0).display(), "0");
    assert_eq!(Value::Int(-7).display(), "-7");
}
