//! The typed accessor layer: read-only typed wrappers over syntax nodes, and
//! the three primitives — first typed child, all typed children, first child
//! token of a kind — that are the only supported way to read a tree.
//!
//! Kind-safety: a wrapper accepts a node exactly when the node's kind is in
//! the wrapper's accepted set, and the accessors never yield a node whose
//! kind is outside that set.

use vstd::prelude::*;
use crate::tree::ElemModel;
use crate::tree::KIND_BLOCK;
use crate::tree::KIND_ROOT;
use crate::tree::KIND_UNKNOWN;
use crate::tree::NodeModel;
use crate::tree::SyntaxElement;
use crate::tree::SyntaxKind;
use crate::tree::SyntaxNode;
use crate::tree::SyntaxToken;
use crate::tree::elems_view;

verus! {

/// A typed wrapper over a syntax node. Wrapping succeeds exactly when the
/// node's kind is in the wrapper's accepted set.
pub trait AstNode: Sized {
    /// The set of node kinds this wrapper accepts.
    spec fn accepts(kind: SyntaxKind) -> bool;

    /// The node this wrapper holds.
    spec fn node_model(&self) -> NodeModel;

    /// Wraps `node`: succeeds if and only if its kind is accepted, and the
    /// wrapper then holds exactly that node.
    fn cast(node: SyntaxNode) -> (r: Option<Self>)
        ensures
            (r matches Some(w) ==> Self::accepts(node@.kind) && w.node_model() == node@),
            (r is None <==> !Self::accepts(node@.kind)),
    ;
}

/// Whether the element is a node whose kind wrapper `N` accepts.
pub open spec fn is_accepted_node<N: AstNode>(e: ElemModel) -> bool {
    match e {
        ElemModel::Node(n) => N::accepts(n.kind),
        ElemModel::Token(_) => false,
    }
}

/// The node held by an element; meaningful only for node elements.
pub open spec fn elem_node(e: ElemModel) -> NodeModel
    recommends
        e is Node,
{
    match e {
        ElemModel::Node(n) => n,
        ElemModel::Token(_) => NodeModel { kind: SyntaxKind(KIND_UNKNOWN), children: Seq::empty() },
    }
}

/// Whether the element is a token of the given kind.
pub open spec fn is_token_of(e: ElemModel, kind: SyntaxKind) -> bool {
    match e {
        ElemModel::Token(t) => t.kind == kind,
        ElemModel::Node(_) => false,
    }
}

/// The nodes among `children` that wrapper `N` accepts, in source order.
pub open spec fn matching_children<N: AstNode>(children: Seq<ElemModel>) -> Seq<NodeModel>
    decreases children.len(),
{
    if children.len() == 0 {
        Seq::empty()
    } else {
        let rest = matching_children::<N>(children.drop_last());
        if is_accepted_node::<N>(children.last()) {
            rest.push(elem_node(children.last()))
        } else {
            rest
        }
    }
}

/// Element-wise clone of a node, preserving the model.
impl Clone for SyntaxNode {
    fn clone(&self) -> (r: Self)
        ensures
            r@ == self@,
        decreases *self,
    {
        let n = self.children.len();
        let mut kids: Vec<SyntaxElement> = Vec::new();
        let mut i: usize = 0;
        while i < n
            invariant
                0 <= i <= n,
                n == self.children@.len(),
                kids@.len() == i,
                forall|p: int| 0 <= p < i ==> #[trigger] kids@[p]@ == self.children@[p]@,
            decreases n - i,
        {
            kids.push(self.children[i].clone());
            i = i + 1;
        }
        proof {
            lemma_elems_view_pointwise(kids@, self.children@, 0);
        }
        SyntaxNode { kind: self.kind, children: kids }
    }
}

/// Element-wise clone of a tree element, preserving the model.
impl Clone for SyntaxElement {
    fn clone(&self) -> (r: Self)
        ensures
            r@ == self@,
        decreases *self,
    {
        match self {
            SyntaxElement::Token(t) => SyntaxElement::Token(t.clone()),
            SyntaxElement::Node(n) => SyntaxElement::Node(n.clone()),
        }
    }
}

/// Two element sequences with pointwise equal models have equal views.
pub proof fn lemma_elems_view_pointwise(a: Seq<SyntaxElement>, b: Seq<SyntaxElement>, i: int)
    requires
        a.len() == b.len(),
        0 <= i <= a.len(),
        forall|p: int| 0 <= p < a.len() ==> #[trigger] a[p]@ == b[p]@,
    ensures
        elems_view(a, i) == elems_view(b, i),
    decreases a.len() - i,
{
    if i < a.len() {
        lemma_elems_view_pointwise(a, b, i + 1);
        assert(a[i]@ == b[i]@);
        assert(elems_view(a, i) =~= elems_view(b, i));
    } else {
        assert(elems_view(a, i) =~= elems_view(b, i));
    }
}

/// The first direct child of `parent` that wrapper `N` accepts, or none: an
/// absent child is meaningful on an incomplete tree, never a failure. The
/// returned wrapper always holds a node whose kind `N` accepts.
pub fn child<N: AstNode>(parent: &SyntaxNode) -> (r: Option<N>)
    ensures
        (r matches Some(w) ==> exists|i: int|
            0 <= i < parent@.children.len() && is_accepted_node::<N>(#[trigger] parent@.children[i])
                && (forall|j: int|
                0 <= j < i ==> !is_accepted_node::<N>(#[trigger] parent@.children[j]))
                && w.node_model() == elem_node(parent@.children[i])),
        (r is None ==> forall|i: int|
            0 <= i < parent@.children.len() ==> !is_accepted_node::<N>(
                #[trigger] parent@.children[i],
            )),
{
    let n = parent.children.len();
    proof {
        lemma_elems_view_len(parent.children@, 0);
    }
    let mut i: usize = 0;
    while i < n
        invariant
            0 <= i <= n,
            n == parent.children@.len(),
            parent@.children.len() == n,
            forall|j: int|
                0 <= j < i ==> !is_accepted_node::<N>(#[trigger] elems_view(parent.children@, 0)[j]),
        decreases n - i,
    {
        proof {
            lemma_elems_view_index(parent.children@, 0, i as int);
        }
        match &parent.children[i] {
            SyntaxElement::Node(node) => {
                let cloned = node.clone();
                match N::cast(cloned) {
                    Some(w) => {
                        proof {
                            assert(parent@.children[i as int] == parent.children@[i as int]@);
                            assert(is_accepted_node::<N>(parent@.children[i as int]));
                            assert(w.node_model() == elem_node(parent@.children[i as int]));
                        }
                        return Some(w);
                    },
                    None => {},
                }
            },
            SyntaxElement::Token(_) => {},
        }
        i = i + 1;
    }
    None
}

/// The view of a suffix element is the element's own view.
pub proof fn lemma_elems_view_index(s: Seq<SyntaxElement>, i: int, k: int)
    requires
        0 <= i <= k < s.len(),
    ensures
        elems_view(s, i)[k - i] == s[k]@,
        elems_view(s, i).len() == s.len() - i,
    decreases s.len() - i,
{
    if i < k {
        lemma_elems_view_index(s, i + 1, k);
    } else {
        if i + 1 < s.len() {
            lemma_elems_view_index(s, i + 1, i + 1);
        }
    }
}

/// Suffix views have the suffix's length.
pub proof fn lemma_elems_view_len(s: Seq<SyntaxElement>, i: int)
    requires
        0 <= i <= s.len(),
    ensures
        elems_view(s, i).len() == s.len() - i,
    decreases s.len() - i,
{
    if i < s.len() {
        lemma_elems_view_len(s, i + 1);
    }
}

/// All direct children of `parent` that wrapper `N` accepts, in source
/// order: the finite sequence a repeated-slot accessor yields. Every
/// returned wrapper holds a node whose kind `N` accepts.
pub fn children<N: AstNode>(parent: &SyntaxNode) -> (r: Vec<N>)
    ensures
        r@.map_values(|w: N| w.node_model()) == matching_children::<N>(parent@.children),
{
    let n = parent.children.len();
    let mut out: Vec<N> = Vec::new();
    proof {
        lemma_elems_view_len(parent.children@, 0);
    }
    let mut i: usize = 0;
    while i < n
        invariant
            0 <= i <= n,
            n == parent.children@.len(),
            elems_view(parent.children@, 0).len() == n,
            out@.map_values(|w: N| w.node_model()) == matching_children::<N>(
                elems_view(parent.children@, 0).take(i as int),
            ),
        decreases n - i,
    {
        proof {
            lemma_elems_view_index(parent.children@, 0, i as int);
            assert(elems_view(parent.children@, 0).take(i + 1 as int).drop_last() =~= elems_view(
                parent.children@,
                0,
            ).take(i as int));
        }
        let ghost pre = out@.map_values(|w: N| w.node_model());
        match &parent.children[i] {
            SyntaxElement::Node(node) => {
                let cloned = node.clone();
                match N::cast(cloned) {
                    Some(w) => {
                        out.push(w);
                        proof {
                            assert(out@.map_values(|w2: N| w2.node_model()) =~= pre.push(
                                elem_node(elems_view(parent.children@, 0)[i as int]),
                            ));
                        }
                    },
                    None => {},
                }
            },
            SyntaxElement::Token(_) => {},
        }
        i = i + 1;
    }
    proof {
        assert(elems_view(parent.children@, 0).take(n as int) =~= elems_view(
            parent.children@,
            0,
        ));
    }
    out
}

/// The first direct child token of `parent` with exactly the given kind, or
/// none.
pub fn token(parent: &SyntaxNode, kind: SyntaxKind) -> (r: Option<SyntaxToken>)
    ensures
        (r matches Some(t) ==> t@.kind == kind && exists|i: int|
            0 <= i < parent@.children.len() && #[trigger] parent@.children[i] == ElemModel::Token(
                t@,
            ) && (forall|j: int|
                0 <= j < i ==> !is_token_of(#[trigger] parent@.children[j], kind))),
        (r is None ==> forall|i: int|
            0 <= i < parent@.children.len() ==> !is_token_of(#[trigger] parent@.children[i], kind)),
{
    let n = parent.children.len();
    proof {
        lemma_elems_view_len(parent.children@, 0);
    }
    let mut i: usize = 0;
    while i < n
        invariant
            0 <= i <= n,
            n == parent.children@.len(),
            elems_view(parent.children@, 0).len() == n,
            forall|j: int|
                0 <= j < i ==> !is_token_of(
                    #[trigger] elems_view(parent.children@, 0)[j],
                    kind,
                ),
        decreases n - i,
    {
        proof {
            lemma_elems_view_index(parent.children@, 0, i as int);
        }
        match &parent.children[i] {
            SyntaxElement::Token(t) => {
                if t.kind == kind {
                    let c = t.clone();
                    proof {
                        assert(parent@.children[i as int] == parent.children@[i as int]@);
                        assert(parent@.children[i as int] == ElemModel::Token(c@));
                    }
                    return Some(c);
                }
            },
            SyntaxElement::Node(_) => {},
        }
        i = i + 1;
    }
    None
}

/// Typed wrapper for the root node of a file.
pub struct RootNode {
    pub node: SyntaxNode,
}

impl AstNode for RootNode {
    open spec fn accepts(kind: SyntaxKind) -> bool {
        kind == SyntaxKind(KIND_ROOT)
    }

    open spec fn node_model(&self) -> NodeModel {
        self.node@
    }

    fn cast(node: SyntaxNode) -> (r: Option<Self>) {
        if node.kind == SyntaxKind(KIND_ROOT) {
            Some(RootNode { node })
        } else {
            None
        }
    }
}

/// Typed wrapper for a brace-delimited block node.
pub struct BlockNode {
    pub node: SyntaxNode,
}

impl AstNode for BlockNode {
    open spec fn accepts(kind: SyntaxKind) -> bool {
        kind == SyntaxKind(KIND_BLOCK)
    }

    open spec fn node_model(&self) -> NodeModel {
        self.node@
    }

    fn cast(node: SyntaxNode) -> (r: Option<Self>) {
        if node.kind == SyntaxKind(KIND_BLOCK) {
            Some(BlockNode { node })
        } else {
            None
        }
    }
}

} // verus!
