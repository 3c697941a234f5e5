use jzero::predef::build_predefined;
use jzero::symtab::{ScopeArena, SymTab, SymTabEntry, SymbolKind};

#[test]
fn test_predefined_structure() {
    let mut scopes = ScopeArena::new();
    let global = SymTab::new("global", None).into_rc(&mut scopes);
    build_predefined(&mut scopes, global);

    let g = scopes.table(global);

    let system_entry = g.lookup_local("System").expect("System not found");
    assert_eq!(system_entry.kind, SymbolKind::Class);

    let system_st = system_entry.st.expect("System has no child scope");
    let out_entry = scopes
        .table(system_st)
        .lookup_local("out")
        .cloned()
        .expect("out not found");
    assert_eq!(out_entry.kind, SymbolKind::Class);

    let out_st = out_entry.st.expect("out has no child scope");
    let println_entry = scopes
        .table(out_st)
        .lookup_local("println")
        .cloned()
        .expect("println not found");
    assert_eq!(println_entry.kind, SymbolKind::Method);
}

#[test]
fn predefined_chain_resolves_with_an_empty_method_scope() {
    let mut scopes = ScopeArena::new();
    let global = SymTab::new("global", None).into_rc(&mut scopes);
    build_predefined(&mut scopes, global);
    assert_eq!(scopes.len(), 4);
    assert_eq!(scopes.table(global).len(), 1);
    let system = scopes.table(global).lookup_local("System").unwrap();
    let system_st = system.st.unwrap();
    assert_eq!(scopes.table(system_st).len(), 1);
    let out = scopes.table(system_st).lookup_local("out").unwrap();
    let out_st = out.st.unwrap();
    let println = scopes.table(out_st).lookup_local("println").unwrap();
    assert_eq!(println.kind, SymbolKind::Method);
    let println_st = println.st.unwrap();
    assert!(scopes.table(println_st).is_empty());
    assert_eq!(scopes.table(println_st).scope, "method");
    assert_eq!(scopes.table(println_st).parent, Some(global));
}

#[test]
fn insert_rejects_a_second_declaration_and_keeps_the_first() {
    let mut t = SymTab::new("method", None);
    assert!(t.insert(SymTabEntry::new("x", SymbolKind::Local, 0, false)).is_ok());
    let err = t.insert(SymTabEntry::new("x", SymbolKind::Param, 0, true)).unwrap_err();
    assert_eq!(err.kind, SymbolKind::Local);
    assert!(!err.is_const);
    assert_eq!(t.len(), 1);
    assert_eq!(t.lookup_local("x").unwrap().kind, SymbolKind::Local);
    assert!(t.lookup_local("y").is_none());
}

#[test]
fn entries_enumerate_in_declaration_order() {
    let mut t = SymTab::new("class", None);
    for name in ["zeta", "alpha", "mid"] {
        assert!(t.insert(SymTabEntry::new(name, SymbolKind::Field, 0, false)).is_ok());
    }
    assert!(t.lookup_local("alpha").is_some());
    assert!(t.lookup_local("zeta").is_some());
    let names: Vec<String> = t.iter().into_iter().map(|(n, _)| n).collect();
    assert_eq!(names, vec!["zeta", "alpha", "mid"]);
    let entries = t.iter();
    assert_eq!(entries[1].1.sym, "alpha");
}

#[test]
fn lookup_walks_outward_and_inner_names_come_first() {
    let mut scopes = ScopeArena::new();
    let global = SymTab::new("global", None).into_rc(&mut scopes);
    let class = SymTab::new("class", Some(global)).into_rc(&mut scopes);
    let method = SymTab::new("method", Some(class)).into_rc(&mut scopes);
    scopes.insert(global, SymTabEntry::new("a", SymbolKind::Field, global, false)).unwrap();
    scopes.insert(class, SymTabEntry::new("a", SymbolKind::Field, class, false)).unwrap();
    scopes.insert(global, SymTabEntry::new("g", SymbolKind::Field, global, false)).unwrap();
    let a = scopes.lookup(method, "a").unwrap();
    assert_eq!(a.parent_st, class);
    let g = scopes.table(method).lookup(&scopes, "g").unwrap();
    assert_eq!(g.parent_st, global);
    assert!(scopes.lookup(method, "nope").is_none());
    assert!(scopes.table(method).lookup_local("a").is_none());
}

#[test]
fn with_scope_records_the_child() {
    let e = SymTabEntry::with_scope("C", SymbolKind::Class, 0, false, 3);
    assert_eq!(e.st, Some(3));
    assert_eq!(e.parent_st, 0);
    let f = SymTabEntry::new("f", SymbolKind::Field, 2, true);
    assert_eq!(f.st, None);
    assert!(f.is_const);
    assert_eq!(SymbolKind::Param.label(), "param");
    assert_eq!(SymbolKind::Class.label(), "class");
}
