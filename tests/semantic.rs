use jzero::analysis::{analyze, SemanticResult};
use jzero::builder::build_symtabs;
use jzero::error::SemanticError;
use jzero::symtab::{ScopeArena, SymTab, SymbolKind};
use jzero::tree::{NodeIds, Tree};

fn leaf(ids: &mut NodeIds, text: &str, line: usize) -> Tree {
    Tree::leaf(ids, "IDENTIFIER", text, line)
}

fn node(ids: &mut NodeIds, sym: &str, kids: Vec<Tree>) -> Tree {
    Tree::new(ids, sym, 0, kids)
}

/// `public static void NAME(String argv[]) BODY` on line `line`.
fn method(ids: &mut NodeIds, name: &str, line: usize, with_argv: bool, body: Vec<Tree>) -> Tree {
    let ident = leaf(ids, name, line);
    let mut decl_kids = vec![ident];
    if with_argv {
        let ty = leaf(ids, "String", line);
        let argv = leaf(ids, "argv", line);
        let inner = Tree::new(ids, "VarDeclarator", 0, vec![argv]);
        let outer = Tree::new(ids, "VarDeclarator", 1, vec![inner]);
        decl_kids.push(node(ids, "FormalParm", vec![ty, outer]));
    } else {
        let empty = node(ids, "FormalParmListOpt", vec![]);
        decl_kids.push(empty);
    }
    let declarator = node(ids, "MethodDeclarator", decl_kids);
    let void = Tree::leaf(ids, "VOID", "void", line);
    let header = node(ids, "MethodHeader", vec![void, declarator]);
    let block = node(ids, "Block", body);
    node(ids, "MethodDecl", vec![header, block])
}

/// `int NAME;`
fn local(ids: &mut NodeIds, name: &str, line: usize) -> Tree {
    let ty = Tree::leaf(ids, "INT", "int", line);
    let v = leaf(ids, name, line);
    node(ids, "LocalVarDecl", vec![ty, v])
}

/// `LHS = RHS;` where RHS is a leaf or an expression.
fn assign(ids: &mut NodeIds, lhs: &str, rhs: Tree, line: usize) -> Tree {
    let l = leaf(ids, lhs, line);
    let op = Tree::leaf(ids, "ASSIGN", "=", line);
    node(ids, "Assignment", vec![l, op, rhs])
}

fn class(ids: &mut NodeIds, name: &str, line: usize, members: Vec<Tree>) -> Tree {
    let mut kids = vec![leaf(ids, name, line)];
    kids.extend(members);
    node(ids, "ClassDecl", kids)
}

fn hello_world(ids: &mut NodeIds) -> Tree {
    let system = leaf(ids, "System", 4);
    let out = leaf(ids, "out", 4);
    let inner = node(ids, "FieldAccess", vec![system, out]);
    let println = leaf(ids, "println", 4);
    let outer = node(ids, "FieldAccess", vec![inner, println]);
    let arg = Tree::leaf(ids, "STRINGLIT", "\"hello, jzero!\"", 4);
    let call = node(ids, "MethodCall", vec![outer, arg]);
    let main = method(ids, "main", 3, true, vec![call]);
    class(ids, "hello", 2, vec![main])
}

fn run(tree: &mut Tree) -> SemanticResult {
    analyze(tree)
}

/// Every node has a scope attached and its constant attribute set.
fn all_scoped(t: &Tree) -> bool {
    t.stab.is_some() && t.is_const.is_some() && t.kids.iter().all(all_scoped)
}

#[test]
fn test_hello_world_global_scope() {
    let mut ids = NodeIds::new();
    let mut tree = hello_world(&mut ids);
    let result = run(&mut tree);
    assert!(result.errors.is_empty(), "unexpected errors: {:?}", result.errors);
    let g = result.scopes.table(result.global);
    assert_eq!(g.len(), 2);
    assert!(g.lookup_local("hello").is_some(), "hello not in global");
    assert!(g.lookup_local("System").is_some(), "System not in global");
}

#[test]
fn test_hello_world_class_scope() {
    let mut ids = NodeIds::new();
    let mut tree = hello_world(&mut ids);
    let result = run(&mut tree);
    let g = result.scopes.table(result.global);
    let hello_entry = g.lookup_local("hello").expect("hello not found");
    let class_st = hello_entry.st.expect("hello has no child scope");
    let cs = result.scopes.table(class_st);
    assert_eq!(cs.scope, "class");
    let main_entry = cs.lookup_local("main").expect("main not in class scope");
    assert_eq!(main_entry.kind, SymbolKind::Method);
    // The predefined System lives in the global scope only.
    assert!(cs.lookup_local("System").is_none());
    assert_eq!(cs.len(), 1);
    assert!(cs.lookup(&result.scopes, "System").is_some());
    let main_st = main_entry.st.expect("main has no method scope");
    let argv = result.scopes.table(main_st).lookup_local("argv").expect("argv not found");
    assert_eq!(argv.kind, SymbolKind::Param);
}

#[test]
fn test_method_scope_has_param() {
    let mut ids = NodeIds::new();
    let main = method(&mut ids, "main", 3, true, vec![]);
    let mut tree = class(&mut ids, "T", 2, vec![main]);
    let result = run(&mut tree);
    assert!(result.errors.is_empty(), "unexpected errors: {:?}", result.errors);
    let g = result.scopes.table(result.global);
    let class_entry = g.lookup_local("T").expect("T not found");
    let class_st = class_entry.st.expect("T has no class scope");
    let main_entry = result.scopes.table(class_st).lookup_local("main").cloned().expect("main not found");
    let method_st = main_entry.st.expect("main has no method scope");
    let argv = result.scopes.table(method_st).lookup_local("argv").cloned();
    assert!(argv.is_some(), "argv not in method scope");
    assert_eq!(argv.unwrap().kind, SymbolKind::Param);
}

#[test]
fn test_local_var_in_method_scope() {
    let mut ids = NodeIds::new();
    let x = local(&mut ids, "x", 4);
    let y = local(&mut ids, "y", 5);
    let main = method(&mut ids, "main", 3, true, vec![x, y]);
    let mut tree = class(&mut ids, "T", 2, vec![main]);
    let result = run(&mut tree);
    assert!(result.errors.is_empty(), "unexpected errors: {:?}", result.errors);
    let g = result.scopes.table(result.global);
    let class_st = g.lookup_local("T").unwrap().st.unwrap();
    let method_st = result.scopes.table(class_st).lookup_local("main").cloned().unwrap().st.unwrap();
    let ms = result.scopes.table(method_st);
    assert!(ms.lookup_local("x").is_some(), "x not found");
    assert!(ms.lookup_local("y").is_some(), "y not found");
    assert_eq!(ms.lookup_local("x").unwrap().kind, SymbolKind::Local);
}

#[test]
fn test_redeclared_local_variable() {
    let mut ids = NodeIds::new();
    let x1 = local(&mut ids, "x", 4);
    let x2 = local(&mut ids, "x", 5);
    let main = method(&mut ids, "main", 3, true, vec![x1, x2]);
    let mut tree = class(&mut ids, "T", 2, vec![main]);
    let result = run(&mut tree);
    assert_eq!(result.errors.len(), 1);
    let err = result.errors[0].message();
    assert!(err.contains("redeclared"), "expected redeclared error, got: {}", err);
    assert!(err.contains("x"), "expected 'x' in error, got: {}", err);
    assert_eq!(err, "line 5: redeclared variable 'x'");
}

#[test]
fn test_redeclared_method() {
    let mut ids = NodeIds::new();
    let f1 = method(&mut ids, "foo", 3, false, vec![]);
    let f2 = method(&mut ids, "foo", 4, false, vec![]);
    let mut tree = class(&mut ids, "T", 2, vec![f1, f2]);
    let result = run(&mut tree);
    assert_eq!(result.errors.len(), 1);
    let err = result.errors[0].message();
    assert!(err.contains("redeclared"));
    assert!(err.contains("foo"));
    match &result.errors[0] {
        SemanticError::RedeclaredVariable { name, lineno } => {
            assert_eq!(name, "foo");
            assert_eq!(*lineno, 4);
        }
        other => panic!("unexpected error {:?}", other),
    }
}

#[test]
fn test_no_errors_for_valid_program() {
    let mut ids = NodeIds::new();
    let x = local(&mut ids, "x", 4);
    let y = local(&mut ids, "y", 5);
    let lit = Tree::leaf(&mut ids, "INTLIT", "42", 6);
    let a1 = assign(&mut ids, "x", lit, 6);
    let xr = leaf(&mut ids, "x", 7);
    let plus = Tree::leaf(&mut ids, "PLUS", "+", 7);
    let one = Tree::leaf(&mut ids, "INTLIT", "1", 7);
    let sum = node(&mut ids, "AddExpr", vec![xr, plus, one]);
    let a2 = assign(&mut ids, "y", sum, 7);
    let main = method(&mut ids, "main", 3, true, vec![x, y, a1, a2]);
    let mut tree = class(&mut ids, "T", 2, vec![main]);
    let result = run(&mut tree);
    assert!(result.errors.is_empty(), "unexpected errors: {:?}", result.errors);
    assert!(all_scoped(&tree));
}

#[test]
fn every_node_gets_a_scope() {
    let mut ids = NodeIds::new();
    let mut tree = hello_world(&mut ids);
    let result = run(&mut tree);
    assert!(all_scoped(&tree));
    // The class name leaf gets the enclosing (global) scope.
    assert_eq!(tree.kids[0].stab, Some(result.global));
    let class_st = result.scopes.table(result.global).lookup_local("hello").unwrap().st.unwrap();
    assert_eq!(tree.stab, Some(class_st));
    let main_st = result.scopes.table(class_st).lookup_local("main").unwrap().st.unwrap();
    assert_eq!(tree.kids[1].stab, Some(main_st));
    assert_eq!(tree.kids[1].kids[1].stab, Some(main_st));
}

#[test]
fn methods_see_fields_and_methods_declared_later() {
    let mut ids = NodeIds::new();
    let one = Tree::leaf(&mut ids, "INTLIT", "1", 4);
    let use_y = assign(&mut ids, "y", one, 4);
    let first = method(&mut ids, "first", 3, false, vec![use_y]);
    let second = method(&mut ids, "second", 6, false, vec![]);
    let ty = Tree::leaf(&mut ids, "INT", "int", 7);
    let y = leaf(&mut ids, "y", 7);
    let field = node(&mut ids, "FieldDecl", vec![ty, y]);
    let mut tree = class(&mut ids, "T", 2, vec![first, second, field]);
    let result = run(&mut tree);
    assert!(result.errors.is_empty(), "unexpected errors: {:?}", result.errors);
    let first_scope = tree.kids[1].stab.unwrap();
    let y = result.scopes.lookup(first_scope, "y").expect("y resolves");
    assert_eq!(y.kind, SymbolKind::Field);
    let second = result.scopes.lookup(first_scope, "second").expect("second resolves");
    assert_eq!(second.kind, SymbolKind::Method);
}

#[test]
fn a_block_opens_no_scope() {
    let mut ids = NodeIds::new();
    let inner_decl = local(&mut ids, "z", 5);
    let semi = Tree::leaf(&mut ids, "SEMI", ";", 5);
    let inner = node(&mut ids, "Block", vec![inner_decl, semi]);
    let three = Tree::leaf(&mut ids, "INTLIT", "3", 7);
    let after = assign(&mut ids, "z", three, 7);
    let main = method(&mut ids, "main", 3, false, vec![inner, after]);
    let mut tree = class(&mut ids, "T", 2, vec![main]);
    let result = run(&mut tree);
    assert!(result.errors.is_empty());
    let main_scope = tree.kids[1].stab.unwrap();
    let body = &tree.kids[1].kids[1];
    let after_stmt = &body.kids[1];
    assert_eq!(after_stmt.stab, Some(main_scope));
    let z = result.scopes.lookup(after_stmt.stab.unwrap(), "z").expect("z resolves");
    assert_eq!(z.kind, SymbolKind::Local);
    assert_eq!(result.scopes.table(main_scope).len(), 1);
}

#[test]
fn a_second_class_of_one_name_is_redeclared() {
    let mut ids = NodeIds::new();
    let mut scopes = ScopeArena::new();
    let global = SymTab::new("global", None).into_rc(&mut scopes);
    let mut errors = Vec::new();
    let mut a = class(&mut ids, "C", 1, vec![]);
    let mut b = class(&mut ids, "C", 9, vec![]);
    build_symtabs(&mut a, global, &mut scopes, &mut errors);
    build_symtabs(&mut b, global, &mut scopes, &mut errors);
    assert_eq!(errors.len(), 1);
    assert_eq!(errors[0].message(), "line 9: redeclared variable 'C'");
    assert_eq!(scopes.table(global).len(), 1);
    assert_eq!(scopes.len(), 3);
    assert_eq!(b.stab, Some(2));
}

#[test]
fn a_field_and_a_method_of_one_name_clash() {
    let mut ids = NodeIds::new();
    let ty = Tree::leaf(&mut ids, "INT", "int", 3);
    let f = leaf(&mut ids, "v", 3);
    let field = node(&mut ids, "FieldDecl", vec![ty, f]);
    let m = method(&mut ids, "v", 4, false, vec![]);
    let mut tree = class(&mut ids, "T", 2, vec![field, m]);
    let result = run(&mut tree);
    assert_eq!(result.errors.len(), 1);
    assert_eq!(result.errors[0].message(), "line 4: redeclared variable 'v'");
    let class_st = tree.stab.unwrap();
    assert_eq!(result.scopes.table(class_st).lookup_local("v").unwrap().kind, SymbolKind::Field);
    let method_st = tree.kids[2].stab.unwrap();
    assert_eq!(result.scopes.table(method_st).parent, Some(class_st));
}

#[test]
fn an_empty_class_declares_nothing() {
    let mut ids = NodeIds::new();
    let mut tree = node(&mut ids, "ClassDecl", vec![]);
    let result = run(&mut tree);
    assert!(result.errors.is_empty());
    assert_eq!(tree.stab, Some(result.global));
    assert_eq!(result.scopes.table(result.global).len(), 1);
}

#[test]
fn a_method_walked_alone_gets_a_fresh_scope() {
    let mut ids = NodeIds::new();
    let mut scopes = ScopeArena::new();
    let global = SymTab::new("global", None).into_rc(&mut scopes);
    let mut errors = Vec::new();
    let mut m = method(&mut ids, "lonely", 1, true, vec![]);
    build_symtabs(&mut m, global, &mut scopes, &mut errors);
    assert!(errors.is_empty());
    assert_eq!(m.stab, Some(1));
    assert_eq!(scopes.table(1).scope, "method");
    assert!(scopes.table(1).lookup_local("argv").is_some());
}

#[test]
fn undeclared_message_format() {
    let e = SemanticError::UndeclaredVariable { name: "q".to_string(), lineno: 12 };
    assert_eq!(e.message(), "line 12: undeclared variable 'q'");
}

#[test]
fn test_print_hello_world() {
    let mut ids = NodeIds::new();
    let mut tree = hello_world(&mut ids);
    let result = run(&mut tree);
    assert!(result.errors.is_empty(), "unexpected errors: {:?}", result.errors);

    println!("\n=== Symbol Table ===");
    let text = result.scopes.table(result.global).render(&result.scopes, 0);
    println!("{}", text);
    let expected = [
        "global - 2 symbols\n",
        " System\n",
        "  class - 1 symbols\n",
        "   out\n",
        "    class - 1 symbols\n",
        "     println\n",
        "      method - 0 symbols\n",
        " hello\n",
        "  class - 1 symbols\n",
        "   main\n",
        "    method - 1 symbols\n",
        "     argv\n",
    ]
    .concat();
    assert_eq!(text, expected);
}

#[test]
fn undeclared_uses_are_reported_and_the_walk_goes_on() {
    let mut ids = NodeIds::new();
    let one = Tree::leaf(&mut ids, "INTLIT", "1", 4);
    let use_q = assign(&mut ids, "q", one, 4);
    let x = local(&mut ids, "x", 5);
    let r = leaf(&mut ids, "r", 6);
    let two = Tree::leaf(&mut ids, "INTLIT", "2", 6);
    let plus = Tree::leaf(&mut ids, "PLUS", "+", 6);
    let sum = node(&mut ids, "AddExpr", vec![r, plus, two]);
    let use_x = assign(&mut ids, "x", sum, 6);
    let main = method(&mut ids, "main", 3, true, vec![use_q, x, use_x]);
    let mut tree = class(&mut ids, "T", 2, vec![main]);
    let result = run(&mut tree);
    let msgs: Vec<String> = result.errors.iter().map(|e| e.message()).collect();
    assert_eq!(
        msgs,
        vec!["line 4: undeclared variable 'q'", "line 6: undeclared variable 'r'"]
    );
    assert!(all_scoped(&tree));
}

#[test]
fn members_after_a_dot_and_type_names_are_not_uses() {
    let mut ids = NodeIds::new();
    let obj = leaf(&mut ids, "argv", 4);
    let field = leaf(&mut ids, "length", 4);
    let access = node(&mut ids, "FieldAccess", vec![obj, field]);
    let ty = leaf(&mut ids, "Widget", 5);
    let w = leaf(&mut ids, "w", 5);
    let decl = node(&mut ids, "LocalVarDecl", vec![ty, w]);
    let stmt = assign(&mut ids, "w", access, 6);
    let main = method(&mut ids, "main", 3, true, vec![decl, stmt]);
    let mut tree = class(&mut ids, "T", 2, vec![main]);
    let result = run(&mut tree);
    assert!(result.errors.is_empty(), "unexpected errors: {:?}", result.errors);
}

#[test]
fn a_one_child_declaration_still_walks_its_child() {
    let mut ids = NodeIds::new();
    let mut scopes = ScopeArena::new();
    let global = SymTab::new("global", None).into_rc(&mut scopes);
    let mut errors = Vec::new();
    let lit = Tree::leaf(&mut ids, "INTLIT", "5", 1);
    let mut decl = node(&mut ids, "LocalVarDecl", vec![lit]);
    build_symtabs(&mut decl, global, &mut scopes, &mut errors);
    assert!(errors.is_empty());
    assert_eq!(scopes.table(global).len(), 0);
    assert_eq!(decl.kids[0].stab, Some(global));
    assert_eq!(decl.kids[0].is_const, Some(true));
    assert_eq!(decl.is_const, Some(true));
}

#[test]
fn constant_flag_is_computed_bottom_up() {
    let mut ids = NodeIds::new();
    let mut scopes = ScopeArena::new();
    let global = SymTab::new("global", None).into_rc(&mut scopes);
    let mut errors = Vec::new();
    let a = Tree::leaf(&mut ids, "INTLIT", "1", 1);
    let plus = Tree::leaf(&mut ids, "PLUS", "+", 1);
    let b = Tree::leaf(&mut ids, "INTLIT", "2", 1);
    let mut sum = node(&mut ids, "AddExpr", vec![a, plus, b]);
    build_symtabs(&mut sum, global, &mut scopes, &mut errors);
    assert_eq!(sum.is_const, Some(true));
    assert_eq!(sum.kids[1].is_const, Some(false));
    let v = leaf(&mut ids, "v", 1);
    let times = Tree::leaf(&mut ids, "STAR", "*", 1);
    let c = Tree::leaf(&mut ids, "INTLIT", "3", 1);
    let mut prod = node(&mut ids, "MulExpr", vec![v, times, c]);
    build_symtabs(&mut prod, global, &mut scopes, &mut errors);
    assert_eq!(prod.is_const, Some(false));
    assert_eq!(errors.len(), 1);
    assert_eq!(errors[0].message(), "line 1: undeclared variable 'v'");
}
