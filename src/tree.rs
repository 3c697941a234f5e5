//! Syntax tree nodes with their semantic attributes.
use vstd::prelude::*;

verus! {

/// The source of node identifiers for one tree, owned by whoever builds it.
#[derive(Debug)]
pub struct NodeIds {
    /// The identifier the next node receives.
    pub next: u32,
}

impl NodeIds {
    /// A counter whose first identifier is 1.
    pub fn new() -> (r: NodeIds)
        ensures
            r.next == 1,
    {
        NodeIds { next: 1 }
    }
}

/// The identifier after `n`, wrapping past the largest `u32`.
pub open spec fn successor(n: u32) -> u32 {
    if n == u32::MAX {
        0
    } else {
        (n + 1) as u32
    }
}

/// Restarts the counter at 1, for reproducible identifiers.
pub fn reset_ids(ids: &mut NodeIds)
    ensures
        final(ids).next == 1,
{
    ids.next = 1;
}

/// Hands out the counter's next identifier and advances it.
pub fn next_id(ids: &mut NodeIds) -> (r: u32)
    ensures
        r == old(ids).next,
        final(ids).next == successor(old(ids).next),
{
    let r = ids.next;
    ids.next = if r == u32::MAX {
        0
    } else {
        r + 1
    };
    r
}

/// The token of a leaf: its category, its source text and its line.
#[derive(Debug, Clone)]
pub struct LeafToken {
    pub category: String,
    pub text: String,
    pub lineno: usize,
}

/// A syntax tree node. A leaf holds a token and no children; an internal
/// node holds a production name, the alternative taken and its children.
/// `is_const` (computed bottom-up) and `stab` (the handle of the enclosing
/// scope, propagated top-down) are absent until computed.
#[derive(Debug)]
pub struct Tree {
    pub id: u32,
    pub sym: String,
    pub rule: i32,
    pub nkids: usize,
    pub tok: Option<LeafToken>,
    pub kids: Vec<Tree>,
    pub is_const: Option<bool>,
    pub stab: Option<usize>,
}

impl Tree {
    /// A leaf for a token of `category` with source `text` on line `lineno`.
    pub fn leaf(ids: &mut NodeIds, category: &str, text: &str, lineno: usize) -> (r: Tree)
        ensures
            r.id == old(ids).next,
            final(ids).next == successor(old(ids).next),
            r.sym@ == category@,
            r.rule == -1,
            r.nkids == 0,
            r.tok matches Some(t) && t.category@ == category@ && t.text@ == text@ && t.lineno
                == lineno,
            r.kids@.len() == 0,
            r.is_const is None,
            r.stab is None,
    {
        let id = next_id(ids);
        Tree {
            id,
            sym: category.to_owned(),
            rule: -1,
            nkids: 0,
            tok: Some(
                LeafToken { category: category.to_owned(), text: text.to_owned(), lineno },
            ),
            kids: Vec::new(),
            is_const: None,
            stab: None,
        }
    }

    /// An internal node for alternative `rule` of production `sym`.
    pub fn new(ids: &mut NodeIds, sym: &str, rule: i32, kids: Vec<Tree>) -> (r: Tree)
        ensures
            r.id == old(ids).next,
            final(ids).next == successor(old(ids).next),
            r.sym@ == sym@,
            r.rule == rule,
            r.nkids == kids@.len(),
            r.tok is None,
            r.kids@ == kids@,
            r.is_const is None,
            r.stab is None,
    {
        let id = next_id(ids);
        let nkids = kids.len();
        Tree {
            id,
            sym: sym.to_owned(),
            rule,
            nkids,
            tok: None,
            kids,
            is_const: None,
            stab: None,
        }
    }

    /// Whether this node is a leaf.
    pub fn is_leaf(&self) -> (r: bool)
        ensures
            r == self.tok is Some,
    {
        self.tok.is_some()
    }

    /// Attaches the scope `st` (the inherited attribute).
    pub fn set_stab(&mut self, st: usize)
        ensures
            *final(self) == (Tree { stab: Some(st), ..*old(self) }),
    {
        self.stab = Some(st);
    }

    /// Sets the synthesized constant attribute.
    pub fn set_const(&mut self, val: bool)
        ensures
            *final(self) == (Tree { is_const: Some(val), ..*old(self) }),
    {
        self.is_const = Some(val);
    }
}


/// `a` and `b` hold the same fields, node for node.
pub open spec fn same_tree(a: Tree, b: Tree) -> bool
    decreases a,
{
    &&& a.id == b.id
    &&& a.sym == b.sym
    &&& a.rule == b.rule
    &&& a.nkids == b.nkids
    &&& a.tok == b.tok
    &&& a.is_const == b.is_const
    &&& a.stab == b.stab
    &&& a.kids@.len() == b.kids@.len()
    &&& forall|j: int| 0 <= j < a.kids@.len() ==> same_tree(#[trigger] a.kids@[j], b.kids@[j])
}

impl Tree {
    /// A copy of this tree, node for node.
    pub fn duplicate(&self) -> (r: Tree)
        ensures
            same_tree(r, *self),
        decreases self,
    {
        let mut kids: Vec<Tree> = Vec::new();
        let mut i: usize = 0;
        while i < self.kids.len()
            invariant
                i <= self.kids@.len(),
                kids@.len() == i,
                forall|j: int| 0 <= j < i ==> same_tree(#[trigger] kids@[j], self.kids@[j]),
            decreases self.kids@.len() - i,
        {
            kids.push(self.kids[i].duplicate());
            i = i + 1;
        }
        let tok = match &self.tok {
            Some(t) => Some(
                LeafToken { category: t.category.clone(), text: t.text.clone(), lineno: t.lineno },
            ),
            None => None,
        };
        Tree {
            id: self.id,
            sym: self.sym.clone(),
            rule: self.rule,
            nkids: self.nkids,
            tok,
            kids,
            is_const: self.is_const,
            stab: self.stab,
        }
    }
}

impl Clone for Tree {
    fn clone(&self) -> Self {
        self.duplicate()
    }
}

} // verus!
