use wu::symtab::{Frame, SymTab, Type};
use wu::table::Table;

#[test]
fn inner_scope_shadows_and_pop_restores() {
    let mut tab = SymTab::new();
    tab.push();
    tab.assign("x".to_string(), Type::Int);
    tab.push();
    tab.assign("x".to_string(), Type::Str);
    assert_eq!(tab.fetch_str("x"), Some(Type::Str));
    tab.pop();
    assert_eq!(tab.fetch_str("x"), Some(Type::Int));
}

#[test]
fn archived_frame_comes_back() {
    let mut tab = SymTab::new();
    tab.push();
    tab.assign_str("y", Type::Bool);
    tab.pop();
    assert_eq!(tab.fetch(&"y".to_string()), None);
    tab.revert_frame();
    assert_eq!(tab.fetch(&"y".to_string()), Some(Type::Bool));
}

#[test]
fn outer_names_stay_visible() {
    let mut table = Table::new();
    table.insert("g".to_string(), Type::Float);
    let mut tab = SymTab::from(table);
    tab.push();
    tab.push();
    assert_eq!(tab.fetch_str("g"), Some(Type::Float));
    assert_eq!(tab.fetch_str("h"), None);
}

#[test]
fn new_frames_carry_the_depth() {
    let mut tab = SymTab::new();
    tab.enter();
    tab.enter();
    tab.push();
    assert_eq!(tab.current_frame().depth, 2);
    tab.exit();
    tab.exit();
    tab.exit();
    tab.push();
    assert_eq!(tab.current_frame().depth, 0);
}

#[test]
fn installed_frame_is_searched_first() {
    let mut tab = SymTab::new();
    tab.assign_str("x", Type::Int);
    let mut frame = Frame::new(7);
    frame.assign("x".to_string(), Type::Nil);
    tab.put_frame(frame);
    assert_eq!(tab.fetch_str("x"), Some(Type::Nil));
    tab.current_frame_mut().assign("z".to_string(), Type::Char);
    assert_eq!(tab.current_frame().get(&"z".to_string()), Some(Type::Char));
    assert_eq!(tab.current_frame().depth, 7);
}

#[test]
fn methods_accumulate_per_type() {
    let mut tab = SymTab::new();
    let foo = "Foo".to_string();
    tab.implement(&foo, "bar".to_string(), Type::Int);
    tab.implement(&foo, "baz".to_string(), Type::Str);
    let methods = tab.get_implementations(&foo).unwrap();
    assert_eq!(methods.len(), 2);
    assert_eq!(methods.get("bar"), Some(&Type::Int));
    assert_eq!(methods.get("baz"), Some(&Type::Str));
    tab.implement(&foo, "bar".to_string(), Type::Bool);
    assert_eq!(tab.get_implementation_force(&foo, &"bar".to_string()), Type::Bool);
    assert_eq!(tab.get_implementation_force(&foo, &"baz".to_string()), Type::Str);
    assert!(tab.get_implementations(&"Other".to_string()).is_none());
}

#[test]
fn second_import_replaces_the_first() {
    let mut tab = SymTab::new();
    let mut first = Table::new();
    first.insert("a".to_string(), Type::Int);
    first.insert("b".to_string(), Type::Str);
    tab.import("m".to_string(), first);
    let mut second = Table::new();
    second.insert("c".to_string(), Type::Bool);
    tab.import("m".to_string(), second);
    let m = tab.get_foreign_module(&"m".to_string()).unwrap();
    assert_eq!(m.len(), 1);
    assert_eq!(m.get("c"), Some(&Type::Bool));
    assert_eq!(m.get("a"), None);
    assert!(tab.get_foreign_module(&"n".to_string()).is_none());
}

#[test]
fn table_insert_overwrites_and_remove_takes() {
    let mut t = Table::new();
    t.insert("k".to_string(), Type::Int);
    t.insert("k".to_string(), Type::Any);
    assert_eq!(t.len(), 1);
    assert_eq!(t.get("k"), Some(&Type::Any));
    assert_eq!(t.remove("k"), Some(Type::Any));
    assert_eq!(t.remove("k"), None);
    assert_eq!(t.len(), 0);
}

#[test]
fn frame_from_table() {
    let mut t = Table::new();
    t.insert("v".to_string(), Type::Float);
    let f = Frame::from(t, 3);
    assert_eq!(f.get(&"v".to_string()), Some(Type::Float));
    assert_eq!(f.get(&"w".to_string()), None);
    assert_eq!(f.depth, 3);
}

#[test]
fn put_frame_replaces_innermost() {
    let mut tab = SymTab::new();
    tab.push();
    tab.assign_str("y", Type::Int);
    tab.put_frame(Frame::new(4));
    assert_eq!(tab.fetch_str("y"), None);
    assert_eq!(tab.current_frame().depth, 4);
    tab.pop();
    tab.revert_frame();
    assert_eq!(tab.current_frame().depth, 4);
}

#[test]
fn type_names() {
    assert_eq!(Type::Int.name(), "int");
    assert_eq!(Type::Any.name(), "any");
}

#[test]
fn table_entries_list_each_name_once() {
    let mut t = Table::new();
    t.insert("a".to_string(), Type::Int);
    t.insert("b".to_string(), Type::Str);
    t.insert("a".to_string(), Type::Nil);
    let mut names: Vec<&str> = t.entries().iter().map(|(k, _)| k.as_str()).collect();
    names.sort();
    assert_eq!(names, vec!["a", "b"]);
}

#[test]
fn getters_show_the_state() {
    let mut tab = SymTab::new();
    tab.enter();
    tab.push();
    tab.pop();
    assert_eq!(tab.depth(), 1);
    assert_eq!(tab.stack().len(), 1);
    assert_eq!(tab.record().len(), 1);
    assert_eq!(tab.record()[0].depth, 1);
    tab.implement(&"T".to_string(), "m".to_string(), Type::Int);
    assert_eq!(tab.implementations().len(), 1);
    assert_eq!(tab.foreign_imports().len(), 0);
}
