//! Concrete syntax tree: tokens, nodes, their mathematical models, and the
//! spec-level flattening back to the token sequence, which is what makes the
//! tree lossless.

use vstd::prelude::*;

verus! {

/// A closed tag identifying a token kind or a syntax-node kind; grammar token
/// kinds are assigned from `KIND_FIRST_TOKEN` upward in declaration order.
#[derive(Clone, Copy, PartialEq, Eq, Structural, Debug, Hash)]
pub struct SyntaxKind(pub u16);

/// Tag for a single character no token rule matched.
pub const KIND_UNKNOWN: u16 = 0;

/// Tag for the root node that spans a whole file.
pub const KIND_ROOT: u16 = 1;

/// Tag for a brace-delimited block node.
pub const KIND_BLOCK: u16 = 2;

/// First tag available to grammar-declared tokens.
pub const KIND_FIRST_TOKEN: u16 = 8;

/// A lexical unit: kind tag, raw text, and the character offset where it
/// starts in the source.
pub struct SyntaxToken {
    pub kind: SyntaxKind,
    pub text: String,
    pub start: usize,
}

/// Mathematical model of a token.
pub struct TokenModel {
    pub kind: SyntaxKind,
    pub text: Seq<char>,
    pub start: int,
}

impl View for SyntaxToken {
    type V = TokenModel;

    open spec fn view(&self) -> TokenModel {
        TokenModel { kind: self.kind, text: self.text@, start: self.start as int }
    }
}

/// A child of a syntax node: either a nested node or a token.
pub enum SyntaxElement {
    Node(SyntaxNode),
    Token(SyntaxToken),
}

/// A node of the concrete syntax tree: a kind tag and the ordered children it
/// owns.
pub struct SyntaxNode {
    pub kind: SyntaxKind,
    pub children: Vec<SyntaxElement>,
}

/// Mathematical model of a tree element.
pub enum ElemModel {
    Node(NodeModel),
    Token(TokenModel),
}

/// Mathematical model of a node.
pub struct NodeModel {
    pub kind: SyntaxKind,
    pub children: Seq<ElemModel>,
}

/// Model of a tree element.
pub open spec fn elem_view(e: SyntaxElement) -> ElemModel
    decreases e,
{
    match e {
        SyntaxElement::Token(t) => ElemModel::Token(t@),
        SyntaxElement::Node(n) => ElemModel::Node(
            NodeModel { kind: n.kind, children: elems_view(n.children@, 0) },
        ),
    }
}

/// Model of a suffix of a sequence of tree elements.
pub open spec fn elems_view(s: Seq<SyntaxElement>, i: int) -> Seq<ElemModel>
    decreases s, s.len() - i,
{
    if i < 0 || i >= s.len() {
        Seq::empty()
    } else {
        seq![elem_view(s[i])] + elems_view(s, i + 1)
    }
}

impl View for SyntaxElement {
    type V = ElemModel;

    open spec fn view(&self) -> ElemModel {
        elem_view(*self)
    }
}

impl View for SyntaxNode {
    type V = NodeModel;

    open spec fn view(&self) -> NodeModel {
        NodeModel { kind: self.kind, children: elems_view(self.children@, 0) }
    }
}

/// The tokens of one element, in source order.
pub open spec fn element_tokens(e: ElemModel) -> Seq<TokenModel>
    decreases e,
{
    match e {
        ElemModel::Token(t) => seq![t],
        ElemModel::Node(n) => elements_tokens(n.children),
    }
}

/// The tokens of a sequence of elements, in source order.
pub open spec fn elements_tokens(s: Seq<ElemModel>) -> Seq<TokenModel>
    decreases s,
{
    if s.len() == 0 {
        Seq::empty()
    } else {
        element_tokens(s.first()) + elements_tokens(s.drop_first())
    }
}

/// All tokens under a node, in source order: the flattening that reconstructs
/// the source text of the node.
pub open spec fn node_tokens(n: NodeModel) -> Seq<TokenModel> {
    elements_tokens(n.children)
}

/// Concatenation of the texts of a token sequence.
pub open spec fn tokens_text(ts: Seq<TokenModel>) -> Seq<char>
    decreases ts.len(),
{
    if ts.len() == 0 {
        Seq::empty()
    } else {
        ts.first().text + tokens_text(ts.drop_first())
    }
}

/// The source text of a node: the concatenation of the texts of its tokens.
pub open spec fn node_text(n: NodeModel) -> Seq<char> {
    tokens_text(node_tokens(n))
}

/// Flattening distributes over appending one element at the end.
pub proof fn lemma_elements_tokens_push(s: Seq<ElemModel>, e: ElemModel)
    ensures
        elements_tokens(s.push(e)) == elements_tokens(s) + element_tokens(e),
    decreases s,
{
    if s.len() == 0 {
        assert(s.push(e).drop_first() =~= Seq::empty());
        assert(s.push(e).first() == e);
        assert(elements_tokens(s.push(e)) =~= element_tokens(e) + elements_tokens(
            Seq::empty(),
        ));
        assert(element_tokens(e) + Seq::<TokenModel>::empty() =~= element_tokens(e));
        assert(elements_tokens(s) + element_tokens(e) =~= element_tokens(e));
    } else {
        assert(s.push(e).first() == s.first());
        assert(s.push(e).drop_first() =~= s.drop_first().push(e));
        lemma_elements_tokens_push(s.drop_first(), e);
        assert(elements_tokens(s.push(e)) =~= elements_tokens(s) + element_tokens(e));
    }
}

} // verus!
