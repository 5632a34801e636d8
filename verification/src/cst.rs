use vstd::prelude::*;
use crate::token::Token;
use crate::tokenizer::{tokens_partition, token_texts};

verus! {

/// Kind of a composite CST node.
#[allow(non_camel_case_types)]
#[derive(Clone, Copy, Debug, PartialEq, Eq, Structural)]
pub enum NodeKind {
    SourceFile,
    RuleDecl,
    Tags,
    MetaDef,
    PatternDef,
    HexPattern,
    HexJump,
    HexAlt,
    BooleanExpr,
    BooleanTerm,
    OfExpr,
    ForExpr,
    Range,
}

/// A child of a CST node: a leaf referencing a token by index, or a subtree
/// referencing a node of the arena.
#[derive(Clone, Copy, Debug, PartialEq, Eq, Structural)]
pub enum CstChild {
    Tok(usize),
    Tree(usize),
}

/// A composite node: a kind and an ordered list of children.
#[derive(Debug)]
pub struct CstNode {
    pub kind: NodeKind,
    pub children: Vec<CstChild>,
}

pub open spec fn child_ok(c: CstChild, ntoks: int, nnodes: int) -> bool {
    match c {
        CstChild::Tok(t) => t < ntoks,
        CstChild::Tree(m) => m < nnodes,
    }
}

pub open spec fn children_ok(cs: Seq<CstChild>, ntoks: int, nnodes: int) -> bool {
    forall|k: int| 0 <= k < cs.len() ==> child_ok(#[trigger] cs[k], ntoks, nnodes)
}

/// Arena well-formedness: every node's leaf children reference existing
/// tokens and its subtree children reference strictly earlier nodes, so the
/// arena is topologically ordered.
pub open spec fn nodes_wf(nodes: Seq<CstNode>, ntoks: int) -> bool {
    forall|m: int| 0 <= m < nodes.len() ==> children_ok(
        (#[trigger] nodes[m]).children@,
        ntoks,
        m,
    )
}

/// The token indices under the first `k` children of the list `cs`, in
/// source order.  `m` bounds the subtree indices that may be referenced and
/// serves as the termination measure.
pub open spec fn list_leaves(nodes: Seq<CstNode>, cs: Seq<CstChild>, m: int, k: int) -> Seq<int>
    decreases m, k,
    when 0 <= m && 0 <= k
{
    if k <= 0 || k > cs.len() {
        Seq::empty()
    } else {
        list_leaves(nodes, cs, m, k - 1) + match cs[k - 1] {
            CstChild::Tok(t) => seq![t as int],
            CstChild::Tree(j) => if 0 <= j < m && j < nodes.len() {
                list_leaves(
                    nodes,
                    nodes[j as int].children@,
                    j as int,
                    nodes[j as int].children@.len() as int,
                )
            } else {
                Seq::empty()
            },
        }
    }
}

/// The leaves of arena node `j`, in order.
pub open spec fn node_leaves(nodes: Seq<CstNode>, j: int) -> Seq<int> {
    if 0 <= j < nodes.len() {
        list_leaves(nodes, nodes[j].children@, j, nodes[j].children@.len() as int)
    } else {
        Seq::empty()
    }
}

// ---------------------------------------------------------------------------
// Framing lemmas for `list_leaves`.
// ---------------------------------------------------------------------------

/// Well-formedness of the arena below an index: every node before `b` has
/// subtree children that reference strictly earlier nodes.
pub open spec fn nodes_wf_below(nodes: Seq<CstNode>, b: int) -> bool {
    forall|m: int| 0 <= m < b && m < nodes.len() ==> forall|x: int|
        0 <= x < (#[trigger] nodes[m]).children@.len() ==> (#[trigger] nodes[m].children@[x]
            matches CstChild::Tree(j) ==> j < m)
}

/// The bound parameter does not matter as long as all subtree references
/// stay under `b` and the arena is well formed below `b`.
proof fn lemma_list_leaves_m(
    nodes: Seq<CstNode>,
    cs: Seq<CstChild>,
    m1: int,
    m2: int,
    k: int,
    b: int,
)
    requires
        0 <= k <= cs.len(),
        0 <= b <= m1,
        b <= m2,
        b <= nodes.len(),
        nodes_wf_below(nodes, b),
        forall|x: int| 0 <= x < k ==> (#[trigger] cs[x] matches CstChild::Tree(j) ==> j < b),
    ensures
        list_leaves(nodes, cs, m1, k) == list_leaves(nodes, cs, m2, k),
    decreases m1, k,
{
    if k > 0 {
        lemma_list_leaves_m(nodes, cs, m1, m2, k - 1, b);
        match cs[k - 1] {
            CstChild::Tok(t) => {},
            CstChild::Tree(j) => {
                // Both sides recurse into node `j` with the same bound `j`.
                assert(nodes[j as int].children@.len() >= 0);
                lemma_list_leaves_m(
                    nodes,
                    nodes[j as int].children@,
                    j as int,
                    j as int,
                    nodes[j as int].children@.len() as int,
                    j as int,
                );
            },
        }
    }
}

/// Appending nodes to the arena does not change the leaves of children that
/// reference only existing nodes.
proof fn lemma_list_leaves_frame(
    nodes1: Seq<CstNode>,
    nodes2: Seq<CstNode>,
    cs: Seq<CstChild>,
    m: int,
    k: int,
)
    requires
        0 <= k <= cs.len(),
        0 <= m <= nodes1.len(),
        nodes1.len() <= nodes2.len(),
        forall|j: int| 0 <= j < nodes1.len() ==> nodes2[j] == nodes1[j],
        nodes_wf(nodes1, 0x1_0000_0000_0000_0000),
    ensures
        list_leaves(nodes1, cs, m, k) == list_leaves(nodes2, cs, m, k),
    decreases m, k,
{
    if k > 0 {
        lemma_list_leaves_frame(nodes1, nodes2, cs, m, k - 1);
        match cs[k - 1] {
            CstChild::Tok(t) => {},
            CstChild::Tree(j) => {
                if 0 <= j < m {
                    assert(nodes2[j as int] == nodes1[j as int]);
                    assert(children_ok(
                        nodes1[j as int].children@,
                        0x1_0000_0000_0000_0000,
                        j as int,
                    ));
                    lemma_list_leaves_frame(
                        nodes1,
                        nodes2,
                        nodes1[j as int].children@,
                        j as int,
                        nodes1[j as int].children@.len() as int,
                    );
                }
            },
        }
    }
}

/// Leaves depend only on the first `k` children.
proof fn lemma_list_leaves_prefix(
    nodes: Seq<CstNode>,
    cs1: Seq<CstChild>,
    cs2: Seq<CstChild>,
    m: int,
    k: int,
)
    requires
        0 <= k <= cs1.len(),
        k <= cs2.len(),
        0 <= m,
        forall|x: int| 0 <= x < k ==> cs1[x] == cs2[x],
    ensures
        list_leaves(nodes, cs1, m, k) == list_leaves(nodes, cs2, m, k),
    decreases k,
{
    if k > 0 {
        lemma_list_leaves_prefix(nodes, cs1, cs2, m, k - 1);
    }
}

// ---------------------------------------------------------------------------
// The CST and its builder.
// ---------------------------------------------------------------------------

/// A concrete syntax tree: the source buffer, its complete token sequence,
/// the node arena, and the root node.  The tree is lossless: its leaves are
/// exactly the tokens, in order, and the token spans partition the source.
pub struct Cst {
    pub source: Vec<u8>,
    pub tokens: Vec<Token>,
    pub nodes: Vec<CstNode>,
    pub root: usize,
    pub show_ws: bool,
}

impl Cst {
    pub open spec fn wf(self) -> bool {
        &&& self.root < self.nodes@.len()
        &&& nodes_wf(self.nodes@, self.tokens@.len() as int)
        &&& tokens_partition(self.tokens@, self.source@.len() as int)
    }

    /// Token indices under the leaves, in source order.
    pub open spec fn spec_leaves(self) -> Seq<int> {
        node_leaves(self.nodes@, self.root as int)
    }

    /// Lossless: the leaves are exactly the token indices `0..n` in order.
    pub open spec fn lossless(self) -> bool {
        self.spec_leaves() == Seq::new(self.tokens@.len() as nat, |i: int| i)
    }
}

/// Builds a CST while the parser walks the token stream.  Every consumed
/// token is appended as a leaf of the currently open node, so the invariant
/// that the leaves are exactly the recorded tokens holds by construction,
/// whatever the parser does.
pub struct CstBuilder {
    pub tokens: Vec<Token>,
    pub nodes: Vec<CstNode>,
    pub stack: Vec<CstNode>,
}

/// The leaves of the open nodes of the stack, bottom to top.
pub open spec fn stack_leaves(nodes: Seq<CstNode>, st: Seq<CstNode>, i: int) -> Seq<int>
    decreases i,
    when 0 <= i <= st.len()
{
    if i <= 0 {
        Seq::empty()
    } else {
        stack_leaves(nodes, st, i - 1) + list_leaves(
            nodes,
            st[i - 1].children@,
            nodes.len() as int,
            st[i - 1].children@.len() as int,
        )
    }
}

proof fn lemma_stack_leaves_prefix(
    nodes: Seq<CstNode>,
    st1: Seq<CstNode>,
    st2: Seq<CstNode>,
    i: int,
)
    requires
        0 <= i <= st1.len(),
        i <= st2.len(),
        forall|x: int| 0 <= x < i ==> st1[x] == st2[x],
    ensures
        stack_leaves(nodes, st1, i) == stack_leaves(nodes, st2, i),
    decreases i,
{
    if i > 0 {
        lemma_stack_leaves_prefix(nodes, st1, st2, i - 1);
    }
}

proof fn lemma_stack_leaves_frame(
    nodes1: Seq<CstNode>,
    nodes2: Seq<CstNode>,
    st: Seq<CstNode>,
    i: int,
)
    requires
        0 <= i <= st.len(),
        nodes1.len() <= nodes2.len(),
        forall|j: int| 0 <= j < nodes1.len() ==> nodes2[j] == nodes1[j],
        nodes_wf(nodes1, 0x1_0000_0000_0000_0000),
        forall|x: int| 0 <= x < st.len() ==> children_ok(
            (#[trigger] st[x]).children@,
            0x1_0000_0000_0000_0000,
            nodes1.len() as int,
        ),
    ensures
        stack_leaves(nodes1, st, i) == stack_leaves(nodes2, st, i),
    decreases i,
{
    if i > 0 {
        lemma_stack_leaves_frame(nodes1, nodes2, st, i - 1);
        assert(children_ok(st[i - 1].children@, 0x1_0000_0000_0000_0000, nodes1.len() as int));
        lemma_list_leaves_frame(
            nodes1,
            nodes2,
            st[i - 1].children@,
            nodes1.len() as int,
            st[i - 1].children@.len() as int,
        );
        lemma_list_leaves_m(
            nodes2,
            st[i - 1].children@,
            nodes1.len() as int,
            nodes2.len() as int,
            st[i - 1].children@.len() as int,
            nodes1.len() as int,
        );
    }
}

impl CstBuilder {
    /// All invariants of the builder: the stack is never empty, all
    /// references are in range, and the leaves of the open nodes are exactly
    /// the tokens recorded so far, in order.
    pub open spec fn wf(self) -> bool {
        // The second `nodes_wf` uses a bound above any usize, so it only
        // constrains the subtree references; it keeps the leaf facts usable
        // while the token list is still growing.
        &&& self.stack@.len() >= 1
        &&& nodes_wf(self.nodes@, self.tokens@.len() as int)
        &&& nodes_wf(self.nodes@, 0x1_0000_0000_0000_0000)
        &&& forall|i: int| 0 <= i < self.stack@.len() ==> children_ok(
            (#[trigger] self.stack@[i]).children@,
            self.tokens@.len() as int,
            self.nodes@.len() as int,
        )
        &&& forall|i: int| 0 <= i < self.stack@.len() ==> children_ok(
            (#[trigger] self.stack@[i]).children@,
            0x1_0000_0000_0000_0000,
            self.nodes@.len() as int,
        )
        &&& stack_leaves(self.nodes@, self.stack@, self.stack@.len() as int) == Seq::new(
            self.tokens@.len() as nat,
            |i: int| i,
        )
    }

    pub open spec fn depth(self) -> int {
        self.stack@.len() as int
    }

    pub fn new() -> (r: CstBuilder)
        ensures
            r.wf(),
            r.tokens@.len() == 0,
            r.depth() == 1,
    {
        let mut stack: Vec<CstNode> = Vec::new();
        stack.push(CstNode { kind: NodeKind::SourceFile, children: Vec::new() });
        let r = CstBuilder { tokens: Vec::new(), nodes: Vec::new(), stack };
        proof {
            assert(r.stack@[0].children@.len() == 0);
            assert(list_leaves(r.nodes@, r.stack@[0].children@, 0, 0) == Seq::<int>::empty());
            assert(stack_leaves(r.nodes@, r.stack@, 0) == Seq::<int>::empty());
            assert(stack_leaves(r.nodes@, r.stack@, 1) =~= Seq::new(0nat, |i: int| i));
            assert(Seq::new(r.tokens@.len() as nat, |i: int| i) =~= Seq::new(0nat, |i: int| i));
        }
        r
    }

    /// Appends a consumed token as a leaf of the innermost open node.
    pub fn token(&mut self, t: Token)
        requires
            old(self).wf(),
        ensures
            final(self).wf(),
            final(self).tokens@ == old(self).tokens@.push(t),
            final(self).depth() == old(self).depth(),
    {
        let ghost old_self = *self;
        let n = self.tokens.len();
        let top = self.stack.len() - 1;
        let tok_idx = self.tokens.len();
        self.tokens.push(t);
        let c = CstChild::Tok(tok_idx);
        let node = &mut self.stack[top];
        node.children.push(c);
        proof {
            let nodes = self.nodes@;
            let st1 = old_self.stack@;
            let st2 = self.stack@;
            let l = st1.len() as int;
            assert(st2.len() == st1.len());
            assert(forall|x: int| 0 <= x < l - 1 ==> st1[x] == st2[x]);
            lemma_stack_leaves_prefix(nodes, st1, st2, l - 1);
            let cs1 = st1[l - 1].children@;
            let cs2 = st2[l - 1].children@;
            assert(cs2 == cs1.push(c));
            lemma_list_leaves_prefix(nodes, cs1, cs2, nodes.len() as int, cs1.len() as int);
            assert(list_leaves(nodes, cs2, nodes.len() as int, cs2.len() as int) == list_leaves(
                nodes,
                cs1,
                nodes.len() as int,
                cs1.len() as int,
            ) + seq![n as int]);
            assert(stack_leaves(nodes, st2, l) == stack_leaves(nodes, st2, l - 1) + list_leaves(
                nodes,
                cs2,
                nodes.len() as int,
                cs2.len() as int,
            ));
            assert(stack_leaves(nodes, st2, l) =~= (stack_leaves(nodes, st1, l - 1)
                + list_leaves(nodes, cs1, nodes.len() as int, cs1.len() as int)) + seq![
                n as int
            ]);
            assert(stack_leaves(nodes, st2, l) == stack_leaves(nodes, st1, l) + seq![n as int]);
            assert(Seq::new(self.tokens@.len() as nat, |i: int| i) =~= Seq::new(
                old_self.tokens@.len() as nat,
                |i: int| i,
            ) + seq![n as int]);
        }
    }

    /// Opens a new composite node.
    pub fn open(&mut self, kind: NodeKind)
        requires
            old(self).wf(),
        ensures
            final(self).wf(),
            final(self).tokens@ == old(self).tokens@,
            final(self).depth() == old(self).depth() + 1,
    {
        let ghost old_self = *self;
        self.stack.push(CstNode { kind, children: Vec::new() });
        proof {
            let nodes = self.nodes@;
            let st1 = old_self.stack@;
            let st2 = self.stack@;
            let l = st1.len() as int;
            lemma_stack_leaves_prefix(nodes, st1, st2, l);
            assert(stack_leaves(nodes, st2, l + 1) == stack_leaves(nodes, st2, l) + list_leaves(
                nodes,
                st2[l].children@,
                nodes.len() as int,
                0,
            ));
            assert(stack_leaves(nodes, st2, l + 1) =~= stack_leaves(nodes, st1, l));
        }
    }

    /// Closes the innermost open node, moving it into the arena as a child
    /// of its parent.
    pub fn close(&mut self)
        requires
            old(self).wf(),
            old(self).depth() >= 2,
        ensures
            final(self).wf(),
            final(self).tokens@ == old(self).tokens@,
            final(self).depth() == old(self).depth() - 1,
    {
        let ghost old_self = *self;
        let node = self.stack.pop().unwrap();
        let idx = self.nodes.len();
        self.nodes.push(node);
        let top = self.stack.len() - 1;
        let c = CstChild::Tree(idx);
        let parent = &mut self.stack[top];
        parent.children.push(c);
        proof {
            let nodes1 = old_self.nodes@;
            let nodes2 = self.nodes@;
            let st1 = old_self.stack@;
            let st2 = self.stack@;
            let l = st1.len() as int;
            let nd = st1[l - 1];
            assert(nodes2 == nodes1.push(nd));
            assert(st2.len() == l - 1);
            assert(forall|x: int| 0 <= x < l - 2 ==> st1[x] == st2[x]);

            // The arena stays well formed: the new node's subtree children
            // all reference nodes before it.
            assert forall|m: int| 0 <= m < nodes2.len() implies children_ok(
                (#[trigger] nodes2[m]).children@,
                old_self.tokens@.len() as int,
                m,
            ) by {
                if m < nodes1.len() {
                    assert(nodes2[m] == nodes1[m]);
                } else {
                    assert(nodes2[m] == nd);
                    assert(children_ok(nd.children@, old_self.tokens@.len() as int,
                        nodes1.len() as int));
                }
            }
            assert forall|m: int| 0 <= m < nodes2.len() implies children_ok(
                (#[trigger] nodes2[m]).children@,
                0x1_0000_0000_0000_0000,
                m,
            ) by {
                if m < nodes1.len() {
                    assert(nodes2[m] == nodes1[m]);
                } else {
                    assert(nodes2[m] == nd);
                }
            }

            // Leaves: the popped node's leaves reappear under the new Tree
            // child of the parent.
            let n1 = nodes1.len() as int;
            let n2 = nodes2.len() as int;
            assert(nodes_wf_below(nodes2, n1)) by {
                assert forall|m: int| 0 <= m < n1 implies forall|x: int|
                    0 <= x < (#[trigger] nodes2[m]).children@.len() ==> (
                    #[trigger] nodes2[m].children@[x] matches CstChild::Tree(j) ==> j < m) by {
                    assert(nodes2[m] == nodes1[m]);
                    assert(children_ok(nodes1[m].children@, 0x1_0000_0000_0000_0000, m));
                    assert forall|x: int| 0 <= x < nodes2[m].children@.len() implies (
                        #[trigger] nodes2[m].children@[x] matches CstChild::Tree(j) ==> j
                            < m) by {
                        assert(child_ok(nodes1[m].children@[x], 0x1_0000_0000_0000_0000, m));
                    }
                }
            }
            let pcs1 = st1[l - 2].children@;
            let pcs2 = st2[l - 2].children@;
            assert(pcs2 == pcs1.push(c));
            // Prefix of the stack is unchanged.
            lemma_stack_leaves_frame(nodes1, nodes2, st1, l - 2);
            lemma_stack_leaves_prefix(nodes2, st1, st2, l - 2);
            // The parent's old children keep their leaves.
            lemma_list_leaves_prefix(nodes2, pcs1, pcs2, n2, pcs1.len() as int);
            lemma_list_leaves_frame(nodes1, nodes2, pcs1, n1, pcs1.len() as int);
            assert(forall|x: int| 0 <= x < pcs1.len() ==> (#[trigger] pcs1[x] matches
                CstChild::Tree(j) ==> j < n1)) by {
                assert(children_ok(pcs1, 0x1_0000_0000_0000_0000, n1));
                assert forall|x: int| 0 <= x < pcs1.len() implies (#[trigger] pcs1[x] matches
                    CstChild::Tree(j) ==> j < n1) by {
                    assert(child_ok(pcs1[x], 0x1_0000_0000_0000_0000, n1));
                }
            }
            lemma_list_leaves_m(nodes2, pcs1, n1, n2, pcs1.len() as int, n1);
            // The Tree(idx) child contributes the leaves of `nd`.
            assert(nodes2[idx as int] == nd);
            assert(forall|x: int| 0 <= x < nd.children@.len() ==> (#[trigger] nd.children@[x]
                matches CstChild::Tree(j) ==> j < n1)) by {
                assert(children_ok(nd.children@, 0x1_0000_0000_0000_0000, n1));
                assert forall|x: int| 0 <= x < nd.children@.len() implies (
                    #[trigger] nd.children@[x] matches CstChild::Tree(j) ==> j < n1) by {
                    assert(child_ok(nd.children@[x], 0x1_0000_0000_0000_0000, n1));
                }
            }
            lemma_list_leaves_frame(nodes1, nodes2, nd.children@, n1, nd.children@.len() as int);
            lemma_list_leaves_m(nodes2, nd.children@, n1, idx as int, nd.children@.len() as int,
                n1);
            // Assemble: unfold the new parent segment and both stacks.
            assert(list_leaves(nodes2, pcs2, n2, pcs2.len() as int) == list_leaves(
                nodes2,
                pcs2,
                n2,
                pcs1.len() as int,
            ) + list_leaves(nodes2, nd.children@, idx as int, nd.children@.len() as int));
            assert(stack_leaves(nodes2, st2, l - 1) == stack_leaves(nodes2, st2, l - 2)
                + list_leaves(nodes2, pcs2, n2, pcs2.len() as int));
            assert(stack_leaves(nodes1, st1, l - 1) == stack_leaves(nodes1, st1, l - 2)
                + list_leaves(nodes1, pcs1, n1, pcs1.len() as int));
            assert(stack_leaves(nodes1, st1, l) == stack_leaves(nodes1, st1, l - 1)
                + list_leaves(nodes1, nd.children@, n1, nd.children@.len() as int));
            assert(stack_leaves(nodes2, st2, l - 1) =~= stack_leaves(nodes1, st1, l));
        }
    }

    /// Closes the root node and produces the finished tree.
    pub fn finish(self, source: Vec<u8>) -> (r: Cst)
        requires
            self.wf(),
            self.depth() == 1,
            tokens_partition(self.tokens@, source@.len() as int),
        ensures
            r.wf(),
            r.lossless(),
            r.tokens@ == self.tokens@,
            r.source@ == source@,
    {
        let ghost old_self = self;
        let CstBuilder { tokens, mut nodes, mut stack } = self;
        let node = stack.pop().unwrap();
        let idx = nodes.len();
        nodes.push(node);
        proof {
            let nodes1 = old_self.nodes@;
            let nodes2 = nodes@;
            let nd = old_self.stack@[0];
            assert(nodes2 == nodes1.push(nd));
            assert forall|m: int| 0 <= m < nodes2.len() implies children_ok(
                (#[trigger] nodes2[m]).children@,
                old_self.tokens@.len() as int,
                m,
            ) by {
                if m < nodes1.len() {
                    assert(nodes2[m] == nodes1[m]);
                } else {
                    assert(nodes2[m] == nd);
                }
            }
            let n1 = nodes1.len() as int;
            assert(nodes_wf_below(nodes2, n1)) by {
                assert forall|m: int| 0 <= m < n1 implies forall|x: int|
                    0 <= x < (#[trigger] nodes2[m]).children@.len() ==> (
                    #[trigger] nodes2[m].children@[x] matches CstChild::Tree(j) ==> j < m) by {
                    assert(nodes2[m] == nodes1[m]);
                    assert(children_ok(nodes1[m].children@, 0x1_0000_0000_0000_0000, m));
                    assert forall|x: int| 0 <= x < nodes2[m].children@.len() implies (
                        #[trigger] nodes2[m].children@[x] matches CstChild::Tree(j) ==> j
                            < m) by {
                        assert(child_ok(nodes1[m].children@[x], 0x1_0000_0000_0000_0000, m));
                    }
                }
            }
            assert(forall|x: int| 0 <= x < nd.children@.len() ==> (#[trigger] nd.children@[x]
                matches CstChild::Tree(j) ==> j < n1)) by {
                assert(children_ok(nd.children@, 0x1_0000_0000_0000_0000, n1));
                assert forall|x: int| 0 <= x < nd.children@.len() implies (
                    #[trigger] nd.children@[x] matches CstChild::Tree(j) ==> j < n1) by {
                    assert(child_ok(nd.children@[x], 0x1_0000_0000_0000_0000, n1));
                }
            }
            // The root's leaves are the whole stack's leaves.
            assert(stack_leaves(nodes1, old_self.stack@, 0) == Seq::<int>::empty());
            assert(stack_leaves(nodes1, old_self.stack@, 1) =~= list_leaves(
                nodes1,
                nd.children@,
                n1,
                nd.children@.len() as int,
            ));
            lemma_list_leaves_frame(nodes1, nodes2, nd.children@, n1,
                nd.children@.len() as int);
            lemma_list_leaves_m(nodes2, nd.children@, n1, idx as int, nd.children@.len() as int,
                n1);
            assert(nodes2[idx as int] == nd);
            assert(node_leaves(nodes2, idx as int) == stack_leaves(nodes1, old_self.stack@, 1));
        }
        Cst { source, tokens, nodes, root: idx, show_ws: false }
    }
}

// ---------------------------------------------------------------------------
// The losslessness theorem.
// ---------------------------------------------------------------------------

/// The text under the given leaves, concatenated in order.
pub open spec fn leaf_texts(s: Seq<u8>, toks: Seq<Token>, ls: Seq<int>) -> Seq<u8>
    decreases ls.len(),
{
    if ls.len() == 0 {
        Seq::empty()
    } else if 0 <= ls.last() < toks.len() {
        leaf_texts(s, toks, ls.drop_last()) + s.subrange(
            toks[ls.last()].spec_span().0 as int,
            toks[ls.last()].spec_span().1 as int,
        )
    } else {
        leaf_texts(s, toks, ls.drop_last())
    }
}

proof fn lemma_leaf_texts_identity(s: Seq<u8>, toks: Seq<Token>, n: int)
    requires
        0 <= n <= toks.len(),
    ensures
        leaf_texts(s, toks, Seq::new(n as nat, |i: int| i)) == token_texts(
            s,
            toks.subrange(0, n),
        ),
    decreases n,
{
    let ls = Seq::new(n as nat, |i: int| i);
    if n == 0 {
        assert(leaf_texts(s, toks, ls) =~= token_texts(s, toks.subrange(0, 0)));
    } else {
        lemma_leaf_texts_identity(s, toks, n - 1);
        assert(ls.drop_last() =~= Seq::new((n - 1) as nat, |i: int| i));
        assert(toks.subrange(0, n).drop_last() =~= toks.subrange(0, n - 1));
        assert(toks.subrange(0, n).last() == toks[n - 1]);
    }
}

/// CST losslessness: concatenating, in order, the text covered by every leaf
/// of a well-formed lossless CST reproduces the original source bytes
/// exactly.
pub proof fn lemma_cst_lossless(c: Cst)
    requires
        c.wf(),
        c.lossless(),
    ensures
        leaf_texts(c.source@, c.tokens@, c.spec_leaves()) == c.source@,
{
    let n = c.tokens@.len() as int;
    lemma_leaf_texts_identity(c.source@, c.tokens@, n);
    assert(c.tokens@.subrange(0, n) =~= c.tokens@);
    crate::tokenizer::lemma_partition_concat(c.source@, c.tokens@, c.source@.len() as int);
    assert(c.source@.subrange(0, c.source@.len() as int) =~= c.source@);
}

} // verus!
