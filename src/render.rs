//! Text and Graphviz renderings of a syntax tree. They read the tree and
//! its attributes and decide nothing.
use vstd::prelude::*;
use vstd::string::{StrSliceExecFns, StringExecFns};

use crate::text::{decimal, decimal_string, signed_decimal, signed_decimal_string};
use crate::tree::Tree;

verus! {

/// Two spaces per level of indentation.
pub open spec fn pad(n: nat) -> Seq<char>
    decreases n,
{
    if n == 0 {
        Seq::empty()
    } else {
        pad((n - 1) as nat) + "  "@
    }
}

/// `mark` when the constant attribute is known to be true.
pub open spec fn const_mark(c: Option<bool>, mark: Seq<char>) -> Seq<char> {
    if c == Some(true) {
        mark
    } else {
        Seq::empty()
    }
}

/// The line of `t` alone in the text rendering.
pub open spec fn text_line(t: Tree, indent: nat) -> Seq<char> {
    match t.tok {
        Some(tk) => pad(indent) + "["@ + tk.category@ + "] "@ + tk.text@ + " (line "@ + decimal(
            tk.lineno as nat,
        ) + ")\n"@,
        None => pad(indent) + t.sym@ + "#"@ + signed_decimal(t.rule as int) + " ("@ + decimal(
            t.nkids as nat,
        ) + " kids)"@ + const_mark(t.is_const, " [const]"@) + "\n"@,
    }
}

/// The text rendering of `t` at depth `indent`: its line, then each child
/// one level deeper.
pub open spec fn text_of(t: Tree, indent: nat) -> Seq<char>
    decreases t, 1nat,
{
    text_line(t, indent) + texts_of(t.kids@, t.kids@.len() as int, indent + 1)
}

/// The text renderings of `ks[..n]`, in order.
pub open spec fn texts_of(ks: Seq<Tree>, n: int, indent: nat) -> Seq<char>
    decreases ks, n,
{
    if n <= 0 || n > ks.len() {
        Seq::empty()
    } else {
        texts_of(ks, n - 1, indent) + text_of(ks[n - 1], indent)
    }
}

/// Depth `indent` plus the height of `t` stays within `usize`.
pub open spec fn fits_depth(t: Tree, indent: nat) -> bool
    decreases t,
{
    t.kids@.len() > 0 ==> {
        &&& indent + 1 <= usize::MAX
        &&& forall|j: int| 0 <= j < t.kids@.len() ==> fits_depth(#[trigger] t.kids@[j], indent + 1)
    }
}

/// One character escaped for a double-quoted Graphviz label.
pub open spec fn escape_char(c: char) -> Seq<char> {
    if c == '\\' {
        "\\\\"@
    } else if c == '"' {
        "\\\""@
    } else if c == '\n' {
        "\\n"@
    } else {
        seq![c]
    }
}

/// `s` with backslashes, double quotes and newlines escaped.
pub open spec fn dot_escaped(s: Seq<char>) -> Seq<char>
    decreases s.len(),
{
    if s.len() == 0 {
        Seq::empty()
    } else {
        dot_escaped(s.drop_last()) + escape_char(s.last())
    }
}

/// The Graphviz name of the node with identifier `id`.
pub open spec fn node_name(id: u32) -> Seq<char> {
    "N"@ + decimal(id as nat)
}

/// The declaration of `t` alone: two boxes for a leaf (token, then its
/// details), one for an internal node.
pub open spec fn dot_decl(t: Tree) -> Seq<char> {
    match t.tok {
        Some(tk) => node_name(t.id) + " [shape=box label=\""@ + dot_escaped(tk.text@) + ":"@
            + tk.category@ + " id "@ + decimal(t.id as nat) + "\"];\n"@ + node_name(t.id)
            + " [shape=box style=dotted label=\" "@ + tk.category@ + " \\n text = "@
            + dot_escaped(tk.text@) + " \\l lineno = "@ + decimal(tk.lineno as nat)
            + " \\l\"];\n"@,
        None => node_name(t.id) + " [shape=box label=\""@ + t.sym@ + "#"@ + signed_decimal(
            t.rule as int,
        ) + const_mark(t.is_const, " \u{2713}const"@) + "\"];\n"@,
    }
}

/// The node declarations of `t` in pre-order.
pub open spec fn dot_nodes_of(t: Tree) -> Seq<char>
    decreases t, 1nat,
{
    dot_decl(t) + dot_nodes_all(t.kids@, t.kids@.len() as int)
}

/// The node declarations of `ks[..n]`, in order.
pub open spec fn dot_nodes_all(ks: Seq<Tree>, n: int) -> Seq<char>
    decreases ks, n,
{
    if n <= 0 || n > ks.len() {
        Seq::empty()
    } else {
        dot_nodes_all(ks, n - 1) + dot_nodes_of(ks[n - 1])
    }
}

/// The edges from `t` to its first `n` children.
pub open spec fn dot_out_edges(t: Tree, n: int) -> Seq<char>
    decreases n,
{
    if n <= 0 || n > t.kids@.len() {
        Seq::empty()
    } else {
        dot_out_edges(t, n - 1) + node_name(t.id) + " -> "@ + node_name(t.kids@[n - 1].id)
            + ";\n"@
    }
}

/// The edges of `t`: those leaving `t`, then those of each child.
pub open spec fn dot_edges_of(t: Tree) -> Seq<char>
    decreases t, 1nat,
{
    dot_out_edges(t, t.kids@.len() as int) + dot_edges_all(t.kids@, t.kids@.len() as int)
}

/// The edges of `ks[..n]`, in order.
pub open spec fn dot_edges_all(ks: Seq<Tree>, n: int) -> Seq<char>
    decreases ks, n,
{
    if n <= 0 || n > ks.len() {
        Seq::empty()
    } else {
        dot_edges_all(ks, n - 1) + dot_edges_of(ks[n - 1])
    }
}

/// The whole Graphviz graph of `t`.
pub open spec fn dot_of(t: Tree) -> Seq<char> {
    "digraph {\n"@ + dot_nodes_of(t) + dot_edges_of(t) + "}\n"@
}

impl Tree {
    /// The tree as indented text, one node per line, starting at depth
    /// `indent`.
    pub fn to_text(&self, indent: usize) -> (r: String)
        requires
            fits_depth(*self, indent as nat),
        ensures
            r@ == text_of(*self, indent as nat),
        decreases self,
    {
        let mut buf = String::new();
        let mut k: usize = 0;
        while k < indent
            invariant
                k <= indent,
                buf@ == pad(k as nat),
            decreases indent - k,
        {
            buf.append("  ");
            k = k + 1;
        }
        match &self.tok {
            Some(tok) => {
                buf.append("[");
                buf.append(tok.category.as_str());
                buf.append("] ");
                buf.append(tok.text.as_str());
                buf.append(" (line ");
                buf.append(decimal_string(tok.lineno as u64).as_str());
                buf.append(")\n");
            },
            None => {
                buf.append(self.sym.as_str());
                buf.append("#");
                buf.append(signed_decimal_string(self.rule as i64).as_str());
                buf.append(" (");
                buf.append(decimal_string(self.nkids as u64).as_str());
                buf.append(" kids)");
                if self.is_const == Some(true) {
                    buf.append(" [const]");
                }
                buf.append("\n");
            },
        }
        assert(buf@ =~= text_line(*self, indent as nat));
        let mut i: usize = 0;
        while i < self.kids.len()
            invariant
                i <= self.kids@.len(),
                fits_depth(*self, indent as nat),
                buf@ == text_line(*self, indent as nat) + texts_of(
                    self.kids@,
                    i as int,
                    indent as nat + 1,
                ),
            decreases self.kids@.len() - i,
        {
            let kid = self.kids[i].to_text(indent + 1);
            buf.append(kid.as_str());
            proof {
                assert(texts_of(self.kids@, i + 1, indent as nat + 1) == texts_of(
                    self.kids@,
                    i as int,
                    indent as nat + 1,
                ) + text_of(self.kids@[i as int], indent as nat + 1));
                assert(buf@ =~= text_line(*self, indent as nat) + texts_of(
                    self.kids@,
                    i + 1,
                    indent as nat + 1,
                ));
            }
            i = i + 1;
        }
        buf
    }

    /// The tree as a Graphviz graph: every node's declaration, then every
    /// edge.
    pub fn to_dot(&self) -> (r: String)
        ensures
            r@ == dot_of(*self),
    {
        let mut buf = String::from_str("digraph {\n");
        self.dot_nodes(&mut buf);
        self.dot_edges(&mut buf);
        buf.append("}\n");
        proof {
            assert(buf@ =~= dot_of(*self));
        }
        buf
    }

    /// `s` escaped for a double-quoted Graphviz label.
    fn dot_escape(s: &str) -> (r: String)
        ensures
            r@ == dot_escaped(s@),
    {
        let n = s.unicode_len();
        let mut r = String::new();
        let mut i: usize = 0;
        while i < n
            invariant
                n == s@.len(),
                i <= n,
                r@ == dot_escaped(s@.subrange(0, i as int)),
            decreases n - i,
        {
            let c = s.get_char(i);
            if c == '\\' {
                r.append("\\\\");
            } else if c == '"' {
                r.append("\\\"");
            } else if c == '\n' {
                r.append("\\n");
            } else {
                r.append(s.substring_char(i, i + 1));
            }
            proof {
                let t = s@.subrange(0, i + 1);
                assert(t.drop_last() =~= s@.subrange(0, i as int));
                assert(t.last() == c);
                assert(s@.subrange(i as int, i + 1) =~= seq![c]);
            }
            i = i + 1;
        }
        assert(s@.subrange(0, n as int) =~= s@);
        r
    }

    /// Appends the declarations of this node and its descendants.
    fn dot_nodes(&self, buf: &mut String)
        ensures
            final(buf)@ == old(buf)@ + dot_nodes_of(*self),
        decreases self,
    {
        let ghost b0 = buf@;
        match &self.tok {
            Some(tok) => {
                let escaped = Self::dot_escape(tok.text.as_str());
                let id = decimal_string(self.id as u64);
                buf.append("N");
                buf.append(id.as_str());
                buf.append(" [shape=box label=\"");
                buf.append(escaped.as_str());
                buf.append(":");
                buf.append(tok.category.as_str());
                buf.append(" id ");
                buf.append(id.as_str());
                buf.append("\"];\n");
                buf.append("N");
                buf.append(id.as_str());
                buf.append(" [shape=box style=dotted label=\" ");
                buf.append(tok.category.as_str());
                buf.append(" \\n text = ");
                buf.append(escaped.as_str());
                buf.append(" \\l lineno = ");
                buf.append(decimal_string(tok.lineno as u64).as_str());
                buf.append(" \\l\"];\n");
            },
            None => {
                buf.append("N");
                buf.append(decimal_string(self.id as u64).as_str());
                buf.append(" [shape=box label=\"");
                buf.append(self.sym.as_str());
                buf.append("#");
                buf.append(signed_decimal_string(self.rule as i64).as_str());
                if self.is_const == Some(true) {
                    buf.append(" \u{2713}const");
                }
                buf.append("\"];\n");
            },
        }
        assert(buf@ =~= b0 + dot_decl(*self));
        let mut i: usize = 0;
        while i < self.kids.len()
            invariant
                i <= self.kids@.len(),
                buf@ == b0 + dot_decl(*self) + dot_nodes_all(self.kids@, i as int),
            decreases self.kids@.len() - i,
        {
            self.kids[i].dot_nodes(buf);
            proof {
                assert(buf@ =~= b0 + dot_decl(*self) + dot_nodes_all(self.kids@, i + 1));
            }
            i = i + 1;
        }
        assert(buf@ =~= b0 + dot_nodes_of(*self));
    }

    /// Appends the edges of this node and its descendants.
    fn dot_edges(&self, buf: &mut String)
        ensures
            final(buf)@ == old(buf)@ + dot_edges_of(*self),
        decreases self,
    {
        let ghost b0 = buf@;
        let name = decimal_string(self.id as u64);
        let mut i: usize = 0;
        while i < self.kids.len()
            invariant
                i <= self.kids@.len(),
                name@ == decimal(self.id as nat),
                buf@ == b0 + dot_out_edges(*self, i as int),
            decreases self.kids@.len() - i,
        {
            buf.append("N");
            buf.append(name.as_str());
            buf.append(" -> ");
            buf.append("N");
            buf.append(decimal_string(self.kids[i].id as u64).as_str());
            buf.append(";\n");
            proof {
                assert(buf@ =~= b0 + dot_out_edges(*self, i + 1));
            }
            i = i + 1;
        }
        let ghost b1 = buf@;
        let mut i: usize = 0;
        while i < self.kids.len()
            invariant
                i <= self.kids@.len(),
                b1 == b0 + dot_out_edges(*self, self.kids@.len() as int),
                buf@ == b1 + dot_edges_all(self.kids@, i as int),
            decreases self.kids@.len() - i,
        {
            self.kids[i].dot_edges(buf);
            proof {
                assert(buf@ =~= b1 + dot_edges_all(self.kids@, i + 1));
            }
            i = i + 1;
        }
        assert(buf@ =~= b0 + dot_edges_of(*self));
    }
}

} // verus!
