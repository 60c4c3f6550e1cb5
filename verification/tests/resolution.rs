use dm_introspect::constant::ConstantValue;
use dm_introspect::object::{inherit_procedures, inherit_variables, DmObject};
use dm_introspect::tree::DmObjectTree;
use dm_introspect::variable::{find_variable, has_procedure, DmError, DmProc, DmVariable};

fn s(text: &str) -> String {
    text.to_string()
}

fn number(x: f32, text: &str) -> Option<(ConstantValue, String)> {
    Some((ConstantValue::Number(x.to_bits()), s(text)))
}

fn var(name: &str, value: Option<(ConstantValue, String)>) -> DmVariable {
    match value {
        Some((v, text)) => DmVariable::new(s(name), Some(v), text),
        None => DmVariable::new(s(name), None, String::new()),
    }
}

/// root; A = /a declares v = 1, w = "x", u (no default); D = /a/d redeclares v = 2;
/// E = /a/d/e declares nothing.
fn family() -> DmObjectTree {
    let mut tree = DmObjectTree::new();
    let a = tree.add_type(0, "a").unwrap();
    let d = tree.add_type(a, "d").unwrap();
    let _e = tree.add_type(d, "e").unwrap();
    assert!(tree.declare_variable(a, var("v", number(1.0, "1"))));
    assert!(tree.declare_variable(a, var("w", Some((ConstantValue::Text(s("x")), s("\"x\""))))));
    assert!(tree.declare_variable(a, var("u", None)));
    assert!(tree.declare_variable(d, var("v", number(2.0, "2"))));
    assert!(tree.declare_procedure(0, DmProc::new(s("New"))));
    assert!(tree.declare_procedure(a, DmProc::new(s("Del"))));
    assert!(tree.declare_procedure(d, DmProc::new(s("Del"))));
    assert!(tree.declare_procedure(d, DmProc::new(s("attack"))));
    tree
}

fn lookup<'a>(vars: &'a Vec<DmVariable>, name: &str) -> &'a DmVariable {
    let at = find_variable(vars, &s(name)).unwrap();
    &vars[at]
}

#[test]
fn redeclared_variable_takes_the_derived_default() {
    let tree = family();
    let mut d = tree.get_path(s("/a/d")).unwrap();
    let vars = d.get_vars(&tree);
    assert_eq!(lookup(vars, "v").value, Some(ConstantValue::Number(2.0f32.to_bits())));
    assert_eq!(lookup(vars, "v").value_repr(), "2");
    assert_eq!(d.overrides_variable(&tree, s("v")), Ok(true));
}

#[test]
fn ancestor_keeps_its_own_default() {
    let tree = family();
    let mut a = tree.get_path(s("/a")).unwrap();
    let vars = a.get_vars(&tree);
    assert_eq!(vars.len(), 3);
    assert_eq!(lookup(vars, "v").value, Some(ConstantValue::Number(1.0f32.to_bits())));
}

#[test]
fn first_declaration_counts_as_own() {
    let tree = family();
    let mut a = tree.get_path(s("/a")).unwrap();
    assert_eq!(a.overrides_variable(&tree, s("v")), Ok(true));
    assert_eq!(a.overrides_variable(&tree, s("w")), Ok(true));
}

#[test]
fn inherited_variable_keeps_the_ancestor_default() {
    let tree = family();
    let mut d = tree.get_path(s("/a/d")).unwrap();
    let vars = d.get_vars(&tree);
    assert_eq!(vars.len(), 3);
    assert_eq!(lookup(vars, "w").value, Some(ConstantValue::Text(s("x"))));
    assert_eq!(d.overrides_variable(&tree, s("w")), Ok(false));
}

#[test]
fn grandchild_sees_the_nearest_declaration() {
    let tree = family();
    let mut e = tree.get_path(s("/a/d/e")).unwrap();
    let vars = e.get_vars(&tree);
    assert_eq!(vars.len(), 3);
    assert_eq!(lookup(vars, "v").value, Some(ConstantValue::Number(2.0f32.to_bits())));
    assert_eq!(lookup(vars, "w").value, Some(ConstantValue::Text(s("x"))));
    assert_eq!(lookup(vars, "u").value, None);
    assert_eq!(e.overrides_variable(&tree, s("v")), Ok(false));
    assert_eq!(e.overrides_variable(&tree, s("u")), Ok(false));
}

#[test]
fn unknown_variable_is_attribute_not_found() {
    let tree = family();
    let mut d = tree.get_path(s("/a/d")).unwrap();
    assert_eq!(d.overrides_variable(&tree, s("zz")), Err(DmError::AttributeNotFound(s("zz"))));
    let mut root = tree.get_source_node();
    assert_eq!(root.overrides_variable(&tree, s("v")), Err(DmError::AttributeNotFound(s("v"))));
}

#[test]
fn root_resolves_to_its_own_declarations() {
    let tree = family();
    let mut root = tree.get_source_node();
    assert!(root.get_vars(&tree).is_empty());
    let procs = root.get_procs(&tree);
    assert_eq!(procs.len(), 1);
    assert_eq!(procs[0].name, "New");
}

#[test]
fn resolving_twice_gives_the_same_contents() {
    let tree = family();
    let mut d = tree.get_path(s("/a/d")).unwrap();
    let mut first: Vec<(String, Option<ConstantValue>, String)> = Vec::new();
    for v in d.get_vars(&tree) {
        let copy = v.duplicate();
        first.push((copy.name, copy.value, copy.text));
    }
    assert!(d.caches_set);
    let mut second: Vec<(String, Option<ConstantValue>, String)> = Vec::new();
    for v in d.get_vars(&tree) {
        let copy = v.duplicate();
        second.push((copy.name, copy.value, copy.text));
    }
    assert_eq!(first, second);
    let mut other = tree.get_path(s("/a/d")).unwrap();
    let mut third: Vec<(String, Option<ConstantValue>, String)> = Vec::new();
    for v in other.get_vars(&tree) {
        let copy = v.duplicate();
        third.push((copy.name, copy.value, copy.text));
    }
    assert_eq!(first, third);
}

#[test]
fn ensure_type_cache_exists_fills_once() {
    let tree = family();
    let mut d = DmObject::new(&tree, 2);
    assert!(!d.caches_set);
    d.ensure_type_cache_exists(&tree);
    assert!(d.caches_set);
    assert_eq!(d.vars.len(), 3);
    assert_eq!(d.procs.len(), 3);
    d.ensure_type_cache_exists(&tree);
    assert_eq!(d.vars.len(), 3);
    assert_eq!(d.procs.len(), 3);
    assert_eq!(d.vars[0].name, "v");
    assert_eq!(d.vars[0].value, Some(ConstantValue::Number(2.0f32.to_bits())));
}

#[test]
fn procedures_are_inherited_once_per_name() {
    let tree = family();
    let mut e = tree.get_path(s("/a/d/e")).unwrap();
    let procs = e.get_procs(&tree);
    assert_eq!(procs.len(), 3);
    assert!(has_procedure(procs, &s("New")));
    assert!(has_procedure(procs, &s("Del")));
    assert!(has_procedure(procs, &s("attack")));
    assert!(!has_procedure(procs, &s("Topic")));
    let mut a = tree.get_path(s("/a")).unwrap();
    let of_a = a.get_procs(&tree);
    assert_eq!(of_a.len(), 2);
    assert!(!has_procedure(of_a, &s("attack")));
}

#[test]
fn declare_variable_refuses_a_second_declaration() {
    let mut tree = family();
    assert!(!tree.declare_variable(1, var("v", number(9.0, "9"))));
    assert_eq!(tree.node(1).unwrap().vars.len(), 3);
    assert!(!tree.declare_variable(17, var("v", None)));
    assert!(!tree.declare_procedure(1, DmProc::new(s("Del"))));
    assert!(!tree.declare_procedure(17, DmProc::new(s("Del"))));
    assert_eq!(tree.node(1).unwrap().procs.len(), 1);
}

#[test]
fn inherit_variables_keeps_what_is_held() {
    let mut held = vec![var("v", number(2.0, "2"))];
    let declared = vec![var("v", number(1.0, "1")), var("w", None), var("w", number(5.0, "5"))];
    inherit_variables(&mut held, &declared);
    assert_eq!(held.len(), 2);
    assert_eq!(held[0].name, "v");
    assert_eq!(held[0].value, Some(ConstantValue::Number(2.0f32.to_bits())));
    assert_eq!(held[1].name, "w");
    assert_eq!(held[1].value, None);
}

#[test]
fn inherit_procedures_adds_new_names_only() {
    let mut held = vec![DmProc::new(s("Del"))];
    let declared = vec![DmProc::new(s("New")), DmProc::new(s("Del"))];
    inherit_procedures(&mut held, &declared);
    assert_eq!(held.len(), 2);
    assert_eq!(held[0].name, "Del");
    assert_eq!(held[1].name, "New");
}

#[test]
fn find_variable_gives_the_first_of_a_name() {
    let vars = vec![var("a", None), var("b", number(1.0, "1")), var("b", number(2.0, "2"))];
    assert_eq!(find_variable(&vars, &s("a")), Some(0));
    assert_eq!(find_variable(&vars, &s("b")), Some(1));
    assert_eq!(find_variable(&vars, &s("c")), None);
    assert_eq!(find_variable(&Vec::new(), &s("a")), None);
}

#[test]
fn list_default_survives_resolution_entry_by_entry() {
    let mut tree = DmObjectTree::new();
    let a = tree.add_type(0, "a").unwrap();
    let _d = tree.add_type(a, "d").unwrap();
    let list = ConstantValue::List(vec![
        (ConstantValue::Text(s("a")), Some(ConstantValue::Text(s("1")))),
        (ConstantValue::Text(s("b")), None),
    ]);
    assert!(tree.declare_variable(a, DmVariable::new(s("l"), Some(list), s("list(\"a\" = \"1\", \"b\")"))));
    let mut d = tree.get_path(s("/a/d")).unwrap();
    let vars = d.get_vars(&tree);
    let l = lookup(vars, "l");
    assert_eq!(l.value_is_list(), Ok(true));
    match l.value() {
        Ok(ConstantValue::List(entries)) => {
            assert_eq!(entries.len(), 2);
            assert_eq!(entries[0].0, ConstantValue::Text(s("a")));
            assert_eq!(entries[0].1, Some(ConstantValue::Text(s("1"))));
            assert_eq!(entries[1].0, ConstantValue::Text(s("b")));
            assert_eq!(entries[1].1, None);
        }
        _ => panic!("not a list"),
    }
}
