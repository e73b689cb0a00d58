//! Tests of the content-addressed store and of name and hash syntax.

use efa_core::bytecode::{Bytecode, Instr};
use efa_core::object::CodeObject;
use efa_core::store::{Store, StoreError};
use efa_core::value::Value;
use efa_core::{hash_from_str, is_valid_name};

fn init_code_obj(code: Bytecode) -> CodeObject {
    CodeObject {
        litpool: vec![Value::int32(5), Value::string("hello")],
        argcount: 2,
        labels: Vec::new(),
        localnames: vec!["x".into(), "y".into(), "z".into()],
        code,
    }
}

#[test]
fn test_is_valid_name() {
    assert!(is_valid_name("__hello_name3"));
    assert!(!is_valid_name("hello name"));
    assert!(!is_valid_name("hello$name"));
}

#[test]
fn test_build_hash() {
    assert!(hash_from_str("0xdeadbeefdeadbeefcafebabecafebabe").is_ok());
    assert!(hash_from_str("0xdeadbeefdeadbeef").is_err());
}

#[test]
fn test_name_of_hash() {
    let mut db = Store::new();
    let obj = init_code_obj(Bytecode::new(vec![Instr::Return]));

    let hash = db.insert_code_object_with_name(&obj, "func_name").unwrap();

    let name = db.get_name_of_hash(&hash);
    assert_eq!(name, Some("func_name".to_string()));
}

#[test]
fn test_insert_is_idempotent_on_bytes() {
    // Content-addressing: inserting the same serialized object twice
    // yields the same hash and adds no second blob.
    let mut db = Store::new();
    let obj = init_code_obj(Bytecode::new(vec![Instr::Nop]));
    let again = init_code_obj(Bytecode::new(vec![Instr::Nop]));

    let h1 = db.insert_code_object_with_name(&obj, "first").unwrap();
    let h2 = db.insert_code_object_with_name(&again, "second").unwrap();
    assert_eq!(h1, h2);

    // A byte-different object gets a different hash.
    let other = init_code_obj(Bytecode::new(vec![Instr::Pop]));
    let h3 = db.insert_code_object_with_name(&other, "third").unwrap();
    assert_ne!(h1, h3);
}

#[test]
fn test_duplicate_name_is_rejected() {
    let mut db = Store::new();
    let obj = init_code_obj(Bytecode::new(vec![Instr::Nop]));
    db.insert_code_object_with_name(&obj, "taken").unwrap();
    let obj2 = init_code_obj(Bytecode::new(vec![Instr::Pop]));
    assert_eq!(
        db.insert_code_object_with_name(&obj2, "taken"),
        Err(StoreError::DuplicateName)
    );
}

#[test]
fn test_invalid_name_is_rejected() {
    let mut db = Store::new();
    let obj = init_code_obj(Bytecode::new(vec![Instr::Nop]));
    assert_eq!(
        db.insert_code_object_with_name(&obj, "random obj2"),
        Err(StoreError::InvalidName)
    );
}

#[test]
fn test_create_alias() {
    let mut db = Store::new();
    let obj = init_code_obj(Bytecode::new(vec![Instr::Nop]));
    let hash = db.insert_code_object_with_name(&obj, "name_1").unwrap();

    db.create_alias("name_2", &hash).unwrap();
    let (h2, _) = db.get_code_object_by_name("name_2").unwrap();
    assert_eq!(h2, hash);

    assert_eq!(db.create_alias("name_3", &0u128), Err(StoreError::MissingHash));
}

#[test]
fn test_get_code_object_roundtrip() {
    let mut db = Store::new();
    let obj = init_code_obj(Bytecode::new(vec![Instr::Nop]));
    let hash = db.insert_code_object_with_name(&obj, "obj").unwrap();

    let back = db.get_code_object(&hash).unwrap();
    assert_eq!(back.hash(), hash);
    assert_eq!(back, obj);

    assert!(db.get_code_object(&(hash ^ 1)).is_err());
}

#[test]
fn test_get_functions_lists_bindings_in_order() {
    let mut db = Store::new();
    let obj = init_code_obj(Bytecode::new(vec![Instr::Nop]));
    let h = db.insert_code_object_with_name(&obj, "aa").unwrap();
    db.create_alias("bb", &h).unwrap();
    let fns = db.get_functions();
    let names: Vec<&str> = fns.iter().map(|(n, _)| n.as_str()).collect();
    assert_eq!(names, vec!["aa", "bb"]);
}

#[test]
fn test_hash_str_renders_prefixed_hex() {
    let obj = init_code_obj(Bytecode::new(vec![Instr::Nop]));
    let s = obj.hash_str();
    assert_eq!(s.len(), 34);
    assert!(s.starts_with("0x"));
    assert!(s[2..].chars().all(|c| c.is_ascii_hexdigit() && !c.is_ascii_uppercase()));
    // The rendered text parses back to the same hash.
    assert_eq!(hash_from_str(&s).unwrap(), obj.hash());
}

#[test]
fn test_solver() {
    let mut db = Store::new();

    let foo = init_code_obj(Bytecode::new(vec![Instr::CallSelf, Instr::Return]));
    let hash_foo = db.insert_code_object_with_name(&foo, "foo").unwrap();

    let main = init_code_obj(Bytecode::new(vec![
        Instr::LoadFunc(hash_foo),
        Instr::Call,
        Instr::CallSelf,
        Instr::Return,
    ]));
    db.insert_code_object_with_name(&main, "main").unwrap();

    let mut g = efa_core::depgraph::DepGraph::new(&db);
    g.solve_static().unwrap();
    println!("{:?}", g);

    // foo depends on itself; main depends on foo and on itself.
    let foo_deps = &g.graph[0].1;
    assert_eq!(foo_deps.len(), 1);
    assert_eq!(foo_deps[0].name, "foo");
    let main_deps = &g.graph[1].1;
    assert_eq!(main_deps.len(), 2);
    assert_eq!(main_deps[0].name, "foo");
    assert_eq!(main_deps[1].name, "main");
}

#[test]
fn test_insert_codeobj() {
    let mut db = Store::new();
    let obj = init_code_obj(Bytecode::new(vec![Instr::Nop]));

    db.insert_code_object_with_name(&obj, "an_obj").unwrap();
}

#[test]
fn test_get_codeobj() {
    let mut db = Store::new();
    let obj = init_code_obj(Bytecode::new(vec![Instr::Nop]));
    let hash = db.insert_code_object_with_name(&obj, "an_obj").unwrap();

    let res = db.get_code_object(&hash).unwrap();
    assert_eq!(res.hash(), obj.hash());
}

#[test]
fn test_insert_codeobj_name() {
    let mut db = Store::new();
    let obj1 = init_code_obj(Bytecode::new(vec![]));
    let obj2 = init_code_obj(Bytecode::new(vec![Instr::Nop]));

    db.insert_code_object_with_name(&obj1, "random_obj").unwrap();

    assert!(db.insert_code_object_with_name(&obj2, "random obj2").is_err());
}

#[test]
fn test_get_codeobj_name() {
    let mut db = Store::new();
    let obj = init_code_obj(Bytecode::new(vec![]));
    db.insert_code_object_with_name(&obj, "random_obj").unwrap();
    let (hash, _) = db.get_code_object_by_name("random_obj").unwrap();
    assert_eq!(obj.hash(), hash);
}

#[test]
fn test_solver_pairs_on_call_shaped_instructions() {
    // An interleaved instruction that is not call-shaped does not break
    // the pair: LoadFunc, Nop, Call is still a call site.
    let mut db = Store::new();
    let foo = init_code_obj(Bytecode::new(vec![Instr::Return]));
    let hash_foo = db.insert_code_object_with_name(&foo, "foo").unwrap();

    let main = init_code_obj(Bytecode::new(vec![
        Instr::LoadFunc(hash_foo),
        Instr::Nop,
        Instr::Call,
        Instr::Return,
    ]));
    db.insert_code_object_with_name(&main, "main").unwrap();

    let g = efa_core::depgraph::DepGraph::new(&db);
    let deps = g
        .solve_node(&efa_core::depgraph::Node { hash: main.hash(), name: "main".into() })
        .unwrap();
    assert_eq!(deps.len(), 1);
    assert_eq!(deps[0].name, "foo");
    assert_eq!(deps[0].hash, hash_foo);
}
