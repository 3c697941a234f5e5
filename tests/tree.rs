use jzero::symtab::{ScopeArena, SymTab};
use jzero::tree::{reset_ids, NodeIds, Tree};

#[test]
fn test_leaf_node() {
    let mut ids = NodeIds::new();
    reset_ids(&mut ids);
    let leaf = Tree::leaf(&mut ids, "IDENTIFIER", "hello", 1);
    assert!(leaf.is_leaf());
    assert_eq!(leaf.nkids, 0);
    assert_eq!(leaf.tok.as_ref().unwrap().text, "hello");
    assert_eq!(leaf.tok.as_ref().unwrap().lineno, 1);
    assert!(leaf.is_const.is_none());
    assert!(leaf.stab.is_none());
}

#[test]
fn test_internal_node() {
    let mut ids = NodeIds::new();
    reset_ids(&mut ids);
    let left = Tree::leaf(&mut ids, "IDENTIFIER", "x", 1);
    let op = Tree::leaf(&mut ids, "ASSIGN", "=", 1);
    let right = Tree::leaf(&mut ids, "INTLIT", "42", 1);
    let assign = Tree::new(&mut ids, "Assignment", 0, vec![left, op, right]);
    assert!(!assign.is_leaf());
    assert_eq!(assign.nkids, 3);
    assert!(assign.is_const.is_none());
    assert!(assign.stab.is_none());
}

#[test]
fn test_single_child_passthrough() {
    let mut ids = NodeIds::new();
    reset_ids(&mut ids);
    let leaf = Tree::leaf(&mut ids, "INTLIT", "42", 1);
    assert!(leaf.is_leaf());
    assert_eq!(leaf.sym, "INTLIT");
}

#[test]
fn test_set_const() {
    let mut ids = NodeIds::new();
    reset_ids(&mut ids);
    let mut lit = Tree::leaf(&mut ids, "INTLIT", "42", 1);
    lit.set_const(true);
    assert_eq!(lit.is_const, Some(true));
}

#[test]
fn test_set_stab() {
    let mut ids = NodeIds::new();
    reset_ids(&mut ids);
    let mut scopes = ScopeArena::new();
    let st = SymTab::new("global", None).into_rc(&mut scopes);
    let mut node = Tree::new(&mut ids, "ClassDecl", 0, vec![]);
    node.set_stab(st);
    assert!(node.stab.is_some());
    assert_eq!(scopes.table(node.stab.unwrap()).scope, "global");
}

#[test]
fn ids_count_up_from_one_and_reset() {
    let mut ids = NodeIds::new();
    let a = Tree::leaf(&mut ids, "IDENTIFIER", "a", 1);
    let b = Tree::leaf(&mut ids, "IDENTIFIER", "b", 1);
    let c = Tree::new(&mut ids, "AddExpr", 0, vec![a, b]);
    assert_eq!(c.kids[0].id, 1);
    assert_eq!(c.kids[1].id, 2);
    assert_eq!(c.id, 3);
    assert_eq!(c.rule, 0);
    reset_ids(&mut ids);
    let d = Tree::leaf(&mut ids, "IDENTIFIER", "d", 2);
    assert_eq!(d.id, 1);
    assert_eq!(d.rule, -1);
}

#[test]
fn ids_wrap_after_the_largest() {
    let mut ids = NodeIds { next: u32::MAX };
    let a = Tree::leaf(&mut ids, "IDENTIFIER", "a", 1);
    assert_eq!(a.id, u32::MAX);
    assert_eq!(ids.next, 0);
}

#[test]
fn test_dot_output() {
    let mut ids = NodeIds::new();
    reset_ids(&mut ids);
    let name = Tree::leaf(&mut ids, "IDENTIFIER", "hello", 1);
    let body = Tree::new(&mut ids, "ClassBody", 1, vec![]);
    let class = Tree::new(&mut ids, "ClassDecl", 0, vec![name, body]);

    let dot = class.to_dot();
    assert!(dot.contains("digraph {"));
    assert!(dot.contains("N3 [shape=box label=\"ClassDecl#0\"]"));
    assert!(dot.contains("N3 -> N1"));
    assert!(dot.contains("N3 -> N2"));
    assert!(dot.contains("IDENTIFIER"));
}

#[test]
fn test_text_output() {
    let mut ids = NodeIds::new();
    reset_ids(&mut ids);
    let name = Tree::leaf(&mut ids, "IDENTIFIER", "x", 1);
    let val = Tree::leaf(&mut ids, "INTLIT", "42", 1);
    let op = Tree::leaf(&mut ids, "ASSIGN", "=", 1);
    let assign = Tree::new(&mut ids, "Assignment", 0, vec![name, op, val]);

    let text = assign.to_text(0);
    assert!(text.contains("Assignment#0"));
    assert!(text.contains("[IDENTIFIER] x"));
    assert!(text.contains("[INTLIT] 42"));
}

#[test]
fn test_const_label_in_text_output() {
    let mut ids = NodeIds::new();
    reset_ids(&mut ids);
    let mut node = Tree::new(&mut ids, "AddExpr", 0, vec![]);
    node.set_const(true);
    let text = node.to_text(0);
    assert!(text.contains("[const]"));
}

#[test]
fn text_output_is_exact() {
    let mut ids = NodeIds::new();
    let a = Tree::leaf(&mut ids, "IDENTIFIER", "a", 7);
    let one = Tree::leaf(&mut ids, "INTLIT", "10", 8);
    let mut add = Tree::new(&mut ids, "AddExpr", 2, vec![a, one]);
    add.set_const(false);
    assert_eq!(
        add.to_text(1),
        "  AddExpr#2 (2 kids)\n    [IDENTIFIER] a (line 7)\n    [INTLIT] 10 (line 8)\n"
    );
    let leaf = Tree::leaf(&mut ids, "IDENTIFIER", "z", 0);
    assert_eq!(leaf.to_text(0), "[IDENTIFIER] z (line 0)\n");
    let odd = Tree::new(&mut ids, "Weird", -12, vec![]);
    assert_eq!(odd.to_text(0), "Weird#-12 (0 kids)\n");
}

#[test]
fn dot_output_is_exact_and_escapes_labels() {
    let mut ids = NodeIds::new();
    let s = Tree::leaf(&mut ids, "STRINGLIT", "\"a\\b\nc\"", 4);
    let mut call = Tree::new(&mut ids, "MethodCall", 0, vec![s]);
    call.set_const(true);
    let dot = call.to_dot();
    let expected = [
        "digraph {\n",
        "N2 [shape=box label=\"MethodCall#0 \u{2713}const\"];\n",
        "N1 [shape=box label=\"\\\"a\\\\b\\nc\\\":STRINGLIT id 1\"];\n",
        "N1 [shape=box style=dotted label=\" STRINGLIT \\n text = \\\"a\\\\b\\nc\\\" \\l lineno = 4 \\l\"];\n",
        "N2 -> N1;\n",
        "}\n",
    ]
    .concat();
    assert_eq!(dot, expected);
}

#[test]
fn clone_copies_every_node() {
    let mut ids = NodeIds::new();
    let a = Tree::leaf(&mut ids, "IDENTIFIER", "a", 3);
    let mut root = Tree::new(&mut ids, "Block", 0, vec![a]);
    root.set_const(false);
    root.kids[0].set_stab(7);
    let copy = root.clone();
    assert_eq!(copy.id, root.id);
    assert_eq!(copy.is_const, Some(false));
    assert_eq!(copy.kids[0].stab, Some(7));
    assert_eq!(copy.kids[0].tok.as_ref().unwrap().text, "a");
    assert_eq!(copy.to_text(0), root.to_text(0));
}
