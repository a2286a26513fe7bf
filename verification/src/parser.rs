//! The parser: folds the token stream into a lossless concrete syntax tree,
//! recovering from malformed input instead of failing.
//!
//! An opening delimiter token opens a block node; a closing delimiter closes
//! the innermost open block. A closing delimiter with no open block is
//! recorded as a syntax error and kept in the tree; a block still open at the
//! end of input is recorded as a syntax error and closed early. Every token
//! of the input ends up in the tree exactly once, in order, so the root node
//! spans the entire input, whatever the input was.

use vstd::prelude::*;
use crate::tree::ElemModel;
use crate::tree::KIND_BLOCK;
use crate::tree::KIND_ROOT;
use crate::tree::NodeModel;
use crate::tree::SyntaxElement;
use crate::tree::SyntaxKind;
use crate::tree::SyntaxNode;
use crate::tree::SyntaxToken;
use crate::tree::TokenModel;
use crate::tree::element_tokens;
use crate::tree::elements_tokens;
use crate::tree::elems_view;
use crate::tree::lemma_elements_tokens_push;
use crate::tree::node_tokens;
use vstd::string::StrSliceExecFns;

verus! {

/// A syntax error: the span of the offending token or construct and a
/// description. Errors are data; the parser never unwinds.
pub struct ParseError {
    pub start: usize,
    pub len: usize,
    pub message: String,
}

/// Mathematical model of a syntax error.
pub struct ErrorModel {
    pub start: int,
    pub len: int,
    pub message: Seq<char>,
}

impl View for ParseError {
    type V = ErrorModel;

    open spec fn view(&self) -> ErrorModel {
        ErrorModel { start: self.start as int, len: self.len as int, message: self.message@ }
    }
}

pub open spec fn unexpected_close_message() -> Seq<char> {
    "unexpected closing delimiter"@
}

pub open spec fn unterminated_block_message() -> Seq<char> {
    "unterminated block"@
}

fn unexpected_close_text() -> (r: String)
    ensures
        r@ == unexpected_close_message(),
{
    "unexpected closing delimiter".to_owned()
}

fn unterminated_block_text() -> (r: String)
    ensures
        r@ == unterminated_block_message(),
{
    "unterminated block".to_owned()
}

/// Appends an element to the innermost open level of the stack.
pub open spec fn push_top(stack: Seq<Seq<ElemModel>>, e: ElemModel) -> Seq<Seq<ElemModel>>
    recommends
        stack.len() > 0,
{
    stack.update(stack.len() - 1, stack.last().push(e))
}

/// Offset of the token that opened a block, for the span of an
/// unterminated-block error.
pub open spec fn block_start(children: Seq<ElemModel>) -> int {
    if children.len() > 0 {
        match children[0] {
            ElemModel::Token(t) => t.start,
            ElemModel::Node(_) => 0,
        }
    } else {
        0
    }
}

/// Length of the token that opened a block.
pub open spec fn block_len(children: Seq<ElemModel>) -> int {
    if children.len() > 0 {
        match children[0] {
            ElemModel::Token(t) => t.text.len() as int,
            ElemModel::Node(_) => 0,
        }
    } else {
        0
    }
}

/// One parser step: where token `t` goes, and whether it is an error.
pub open spec fn parse_step(
    stack: Seq<Seq<ElemModel>>,
    errs: Seq<ErrorModel>,
    t: TokenModel,
    open: SyntaxKind,
    close: SyntaxKind,
) -> (Seq<Seq<ElemModel>>, Seq<ErrorModel>)
    recommends
        stack.len() > 0,
{
    if t.kind == open {
        (stack.push(seq![ElemModel::Token(t)]), errs)
    } else if t.kind == close {
        if stack.len() > 1 {
            let top = stack.last().push(ElemModel::Token(t));
            let node = NodeModel { kind: SyntaxKind(KIND_BLOCK), children: top };
            (push_top(stack.drop_last(), ElemModel::Node(node)), errs)
        } else {
            (
                push_top(stack, ElemModel::Token(t)),
                errs.push(
                    ErrorModel {
                        start: t.start,
                        len: t.text.len() as int,
                        message: unexpected_close_message(),
                    },
                ),
            )
        }
    } else {
        (push_top(stack, ElemModel::Token(t)), errs)
    }
}

/// Folds the tokens from `i` on into the stack.
pub open spec fn parse_fold(
    tokens: Seq<TokenModel>,
    i: int,
    stack: Seq<Seq<ElemModel>>,
    errs: Seq<ErrorModel>,
    open: SyntaxKind,
    close: SyntaxKind,
) -> (Seq<Seq<ElemModel>>, Seq<ErrorModel>)
    decreases tokens.len() - i,
{
    if i < 0 || i >= tokens.len() {
        (stack, errs)
    } else {
        let se = parse_step(stack, errs, tokens[i], open, close);
        parse_fold(tokens, i + 1, se.0, se.1, open, close)
    }
}

/// Closes every block still open at the end of input, recording one error
/// per block, and yields the children of the root.
pub open spec fn close_all(stack: Seq<Seq<ElemModel>>, errs: Seq<ErrorModel>) -> (
    Seq<ElemModel>,
    Seq<ErrorModel>,
)
    decreases stack.len(),
{
    if stack.len() == 0 {
        (Seq::empty(), errs)
    } else if stack.len() == 1 {
        (stack[0], errs)
    } else {
        let top = stack.last();
        let node = NodeModel { kind: SyntaxKind(KIND_BLOCK), children: top };
        let errs2 = errs.push(
            ErrorModel {
                start: block_start(top),
                len: block_len(top),
                message: unterminated_block_message(),
            },
        );
        close_all(push_top(stack.drop_last(), ElemModel::Node(node)), errs2)
    }
}

/// The tree and error list the parser produces from a token stream: a pure
/// function of its input.
pub open spec fn parse_spec(tokens: Seq<TokenModel>, open: SyntaxKind, close: SyntaxKind) -> (
    NodeModel,
    Seq<ErrorModel>,
) {
    let fe = parse_fold(tokens, 0, seq![Seq::<ElemModel>::empty()], Seq::empty(), open, close);
    let ce = close_all(fe.0, fe.1);
    (NodeModel { kind: SyntaxKind(KIND_ROOT), children: ce.0 }, ce.1)
}

/// All tokens held anywhere in the stack, bottom level first.
pub open spec fn stack_tokens(stack: Seq<Seq<ElemModel>>) -> Seq<TokenModel>
    decreases stack.len(),
{
    if stack.len() == 0 {
        Seq::empty()
    } else {
        stack_tokens(stack.drop_last()) + elements_tokens(stack.last())
    }
}

/// Appending into the innermost level appends that element's tokens at the
/// very end of the stack's tokens.
pub proof fn lemma_stack_push_top(stack: Seq<Seq<ElemModel>>, e: ElemModel)
    requires
        stack.len() > 0,
    ensures
        stack_tokens(push_top(stack, e)) == stack_tokens(stack) + element_tokens(e),
{
    let s2 = push_top(stack, e);
    assert(s2.drop_last() =~= stack.drop_last());
    assert(s2.last() == stack.last().push(e));
    lemma_elements_tokens_push(stack.last(), e);
    assert(stack_tokens(s2) =~= stack_tokens(stack) + element_tokens(e));
}

/// Opening a new level does not change which tokens the stack holds beyond
/// adding the new level's.
proof fn lemma_stack_push_level(stack: Seq<Seq<ElemModel>>, level: Seq<ElemModel>)
    ensures
        stack_tokens(stack.push(level)) == stack_tokens(stack) + elements_tokens(level),
{
    let s2 = stack.push(level);
    assert(s2.drop_last() =~= stack);
    assert(s2.last() == level);
}

/// One parser step adds exactly the consumed token to the stack's tokens.
proof fn lemma_parse_step_tokens(
    stack: Seq<Seq<ElemModel>>,
    errs: Seq<ErrorModel>,
    t: TokenModel,
    open: SyntaxKind,
    close: SyntaxKind,
)
    requires
        stack.len() > 0,
    ensures
        stack_tokens(parse_step(stack, errs, t, open, close).0) == stack_tokens(stack) + seq![t],
        parse_step(stack, errs, t, open, close).0.len() > 0,
{
    let e = ElemModel::Token(t);
    assert(element_tokens(e) =~= seq![t]);
    if t.kind == open {
        let level = seq![e];
        assert(level.first() == e);
        assert(level.drop_first() =~= Seq::<ElemModel>::empty());
        assert(elements_tokens(Seq::<ElemModel>::empty()) == Seq::<TokenModel>::empty());
        assert(elements_tokens(level) =~= seq![t]);
        lemma_stack_push_level(stack, level);
    } else if t.kind == close {
        if stack.len() > 1 {
            let top = stack.last().push(e);
            let node = NodeModel { kind: SyntaxKind(KIND_BLOCK), children: top };
            lemma_elements_tokens_push(stack.last(), e);
            assert(element_tokens(ElemModel::Node(node)) == elements_tokens(top));
            lemma_stack_push_top(stack.drop_last(), ElemModel::Node(node));
            assert(stack_tokens(stack.drop_last()) + (elements_tokens(stack.last()) + seq![t])
                =~= (stack_tokens(stack.drop_last()) + elements_tokens(stack.last())) + seq![t]);
        } else {
            lemma_stack_push_top(stack, e);
        }
    } else {
        lemma_stack_push_top(stack, e);
    }
}

/// Folding tokens into the stack appends exactly those tokens.
proof fn lemma_parse_fold_tokens(
    tokens: Seq<TokenModel>,
    i: int,
    stack: Seq<Seq<ElemModel>>,
    errs: Seq<ErrorModel>,
    open: SyntaxKind,
    close: SyntaxKind,
)
    requires
        0 <= i <= tokens.len(),
        stack.len() > 0,
    ensures
        stack_tokens(parse_fold(tokens, i, stack, errs, open, close).0) == stack_tokens(stack)
            + tokens.subrange(i, tokens.len() as int),
        parse_fold(tokens, i, stack, errs, open, close).0.len() > 0,
    decreases tokens.len() - i,
{
    if i >= tokens.len() {
        assert(tokens.subrange(i, tokens.len() as int) =~= Seq::<TokenModel>::empty());
        assert(stack_tokens(stack) + Seq::<TokenModel>::empty() =~= stack_tokens(stack));
    } else {
        let se = parse_step(stack, errs, tokens[i], open, close);
        lemma_parse_step_tokens(stack, errs, tokens[i], open, close);
        lemma_parse_fold_tokens(tokens, i + 1, se.0, se.1, open, close);
        assert((stack_tokens(stack) + seq![tokens[i]]) + tokens.subrange(
            i + 1,
            tokens.len() as int,
        ) =~= stack_tokens(stack) + tokens.subrange(i, tokens.len() as int));
    }
}

/// Closing the remaining open blocks keeps every token, in order.
proof fn lemma_close_all_tokens(stack: Seq<Seq<ElemModel>>, errs: Seq<ErrorModel>)
    requires
        stack.len() > 0,
    ensures
        elements_tokens(close_all(stack, errs).0) == stack_tokens(stack),
    decreases stack.len(),
{
    if stack.len() == 1 {
        assert(stack.drop_last() =~= Seq::<Seq<ElemModel>>::empty());
        assert(stack.last() == stack[0]);
        assert(stack_tokens(Seq::<Seq<ElemModel>>::empty()) == Seq::<TokenModel>::empty());
        assert(Seq::<TokenModel>::empty() + elements_tokens(stack[0]) =~= elements_tokens(
            stack[0],
        ));
        assert(stack_tokens(stack) =~= elements_tokens(stack[0]));
    } else {
        let top = stack.last();
        let node = NodeModel { kind: SyntaxKind(KIND_BLOCK), children: top };
        let errs2 = errs.push(
            ErrorModel {
                start: block_start(top),
                len: block_len(top),
                message: unterminated_block_message(),
            },
        );
        let s2 = push_top(stack.drop_last(), ElemModel::Node(node));
        lemma_stack_push_top(stack.drop_last(), ElemModel::Node(node));
        assert(element_tokens(ElemModel::Node(node)) == elements_tokens(top));
        lemma_close_all_tokens(s2, errs2);
        assert(stack_tokens(s2) =~= stack_tokens(stack));
    }
}

/// Totality and losslessness of the parser: for every token stream the
/// parser yields a tree that holds exactly the input tokens in order, so the
/// root spans the entire input.
pub proof fn lemma_parse_lossless(tokens: Seq<TokenModel>, open: SyntaxKind, close: SyntaxKind)
    ensures
        node_tokens(parse_spec(tokens, open, close).0) == tokens,
{
    let init = seq![Seq::<ElemModel>::empty()];
    assert(init.drop_last() =~= Seq::<Seq<ElemModel>>::empty());
    assert(init.last() == Seq::<ElemModel>::empty());
    assert(stack_tokens(Seq::<Seq<ElemModel>>::empty()) == Seq::<TokenModel>::empty());
    assert(elements_tokens(Seq::<ElemModel>::empty()) == Seq::<TokenModel>::empty());
    assert(stack_tokens(init) =~= Seq::<TokenModel>::empty());
    lemma_parse_fold_tokens(tokens, 0, init, Seq::empty(), open, close);
    let fe = parse_fold(tokens, 0, init, Seq::empty(), open, close);
    assert(stack_tokens(fe.0) =~= tokens.subrange(0, tokens.len() as int));
    lemma_close_all_tokens(fe.0, fe.1);
    assert(tokens.subrange(0, tokens.len() as int) =~= tokens);
}

/// End to end: lexing any source text with any table and parsing the token
/// stream yields a tree whose text is the source text itself, whatever the
/// input was.
pub proof fn lemma_lex_parse_lossless(
    tm: crate::lexer::TableModel,
    text: Seq<char>,
    open: SyntaxKind,
    close: SyntaxKind,
)
    ensures
        crate::tree::node_text(parse_spec(crate::lexer::lex_from(tm, text, 0), open, close).0)
            == text,
{
    let tokens = crate::lexer::lex_from(tm, text, 0);
    crate::lexer::lemma_lex_lossless(tm, text, 0);
    lemma_parse_lossless(tokens, open, close);
    assert(text.subrange(0, text.len() as int) =~= text);
}

/// Model of a stack of open levels.
pub open spec fn stack_view(s: Seq<Vec<SyntaxElement>>) -> Seq<Seq<ElemModel>> {
    s.map_values(|l: Vec<SyntaxElement>| elems_view(l@, 0))
}

/// Element views distribute over appending.
pub proof fn lemma_elems_view_push(s: Seq<SyntaxElement>, e: SyntaxElement, i: int)
    requires
        0 <= i <= s.len(),
    ensures
        elems_view(s.push(e), i) == elems_view(s, i) + seq![e@],
    decreases s.len() - i,
{
    if i == s.len() {
        assert(elems_view(s, i) =~= Seq::<ElemModel>::empty());
        assert(s.push(e)[i] == e);
        assert(elems_view(s.push(e), i + 1) =~= Seq::<ElemModel>::empty());
        assert(elems_view(s.push(e), i) =~= Seq::<ElemModel>::empty() + seq![e@]);
    } else {
        assert(s.push(e)[i] == s[i]);
        lemma_elems_view_push(s, e, i + 1);
        assert(elems_view(s.push(e), i) =~= elems_view(s, i) + seq![e@]);
    }
}

impl Clone for SyntaxToken {
    /// Copies the token, fields unchanged.
    fn clone(&self) -> (r: Self)
        ensures
            r@ == self@,
    {
        SyntaxToken { kind: self.kind, text: self.text.clone(), start: self.start }
    }
}

/// Parses a token stream into a concrete syntax tree plus the list of syntax
/// errors. Never fails: the result is a pure function of the input, and the
/// tree holds exactly the input tokens in order.
pub fn parse(tokens: &Vec<SyntaxToken>, open: SyntaxKind, close: SyntaxKind) -> (r: (
    SyntaxNode,
    Vec<ParseError>,
))
    ensures
        r.0@ == parse_spec(tokens@.map_values(|t: SyntaxToken| t@), open, close).0,
        r.1@.map_values(|e: ParseError| e@) == parse_spec(
            tokens@.map_values(|t: SyntaxToken| t@),
            open,
            close,
        ).1,
        node_tokens(r.0@) == tokens@.map_values(|t: SyntaxToken| t@),
{
    let ghost tm = tokens@.map_values(|t: SyntaxToken| t@);
    let n = tokens.len();
    let mut stack: Vec<Vec<SyntaxElement>> = Vec::new();
    stack.push(Vec::new());
    let mut errs: Vec<ParseError> = Vec::new();
    proof {
        assert(elems_view(Seq::<SyntaxElement>::empty(), 0) =~= Seq::<ElemModel>::empty());
        assert(stack_view(stack@) =~= seq![Seq::<ElemModel>::empty()]);
        assert(errs@.map_values(|e: ParseError| e@) =~= Seq::<ErrorModel>::empty());
    }
    let mut i: usize = 0;
    while i < n
        invariant
            n == tokens@.len(),
            tm == tokens@.map_values(|t: SyntaxToken| t@),
            0 <= i <= n,
            stack@.len() >= 1,
            parse_fold(tm, 0, seq![Seq::<ElemModel>::empty()], Seq::empty(), open, close)
                == parse_fold(
                tm,
                i as int,
                stack_view(stack@),
                errs@.map_values(|e: ParseError| e@),
                open,
                close,
            ),
        decreases n - i,
    {
        let ghost pre_stack = stack_view(stack@);
        let ghost pre_errs = errs@.map_values(|e: ParseError| e@);
        let t = tokens[i].clone();
        proof {
            assert(tm[i as int] == tokens@[i as int]@);
            assert(t@ == tm[i as int]);
        }
        if t.kind == open {
            let mut level: Vec<SyntaxElement> = Vec::new();
            level.push(SyntaxElement::Token(t));
            proof {
                assert(level@ =~= Seq::<SyntaxElement>::empty().push(level@[0]));
                assert(elems_view(level@, 1) =~= Seq::<ElemModel>::empty());
                assert(level@[0]@ == ElemModel::Token(tm[i as int]));
                assert(elems_view(level@, 0) =~= seq![ElemModel::Token(tm[i as int])]);
            }
            stack.push(level);
            proof {
                assert(stack_view(stack@) =~= pre_stack.push(
                    seq![ElemModel::Token(tm[i as int])],
                ));
            }
        } else if t.kind == close {
            if stack.len() > 1 {
                let ghost e = ElemModel::Token(tm[i as int]);
                let mut top = stack.pop().unwrap();
                let ghost old_top = top@;
                proof {
                    assert(pre_stack.last() == elems_view(old_top, 0));
                }
                top.push(SyntaxElement::Token(t));
                proof {
                    lemma_elems_view_push(old_top, SyntaxElement::Token(t), 0);
                    assert(elems_view(top@, 0) =~= pre_stack.last().push(e));
                }
                let node = SyntaxNode { kind: SyntaxKind(KIND_BLOCK), children: top };
                let ghost nm = ElemModel::Node(
                    NodeModel { kind: SyntaxKind(KIND_BLOCK), children: pre_stack.last().push(e) },
                );
                let mut parent = stack.pop().unwrap();
                let ghost old_parent = parent@;
                proof {
                    assert(pre_stack.drop_last().last() == elems_view(old_parent, 0));
                }
                parent.push(SyntaxElement::Node(node));
                proof {
                    lemma_elems_view_push(old_parent, SyntaxElement::Node(node), 0);
                    assert(elems_view(parent@, 0) =~= pre_stack.drop_last().last().push(nm));
                }
                stack.push(parent);
                proof {
                    assert(stack_view(stack@) =~= push_top(pre_stack.drop_last(), nm));
                }
            } else {
                let ghost e = ElemModel::Token(tm[i as int]);
                let start = t.start;
                let elen = t.text.unicode_len();
                let mut top = stack.pop().unwrap();
                let ghost old_top = top@;
                proof {
                    assert(pre_stack.last() == elems_view(old_top, 0));
                }
                top.push(SyntaxElement::Token(t));
                proof {
                    lemma_elems_view_push(old_top, SyntaxElement::Token(t), 0);
                    assert(elems_view(top@, 0) =~= pre_stack.last().push(e));
                }
                stack.push(top);
                proof {
                    assert(stack_view(stack@) =~= push_top(pre_stack, e));
                }
                errs.push(ParseError { start, len: elen, message: unexpected_close_text() });
                proof {
                    assert(errs@.map_values(|er: ParseError| er@) =~= pre_errs.push(
                        ErrorModel {
                            start: tm[i as int].start,
                            len: tm[i as int].text.len() as int,
                            message: unexpected_close_message(),
                        },
                    ));
                }
            }
        } else {
            let ghost e = ElemModel::Token(tm[i as int]);
            let mut top = stack.pop().unwrap();
            let ghost old_top = top@;
            proof {
                assert(pre_stack.last() == elems_view(old_top, 0));
            }
            top.push(SyntaxElement::Token(t));
            proof {
                lemma_elems_view_push(old_top, SyntaxElement::Token(t), 0);
                assert(elems_view(top@, 0) =~= pre_stack.last().push(e));
            }
            stack.push(top);
            proof {
                assert(stack_view(stack@) =~= push_top(pre_stack, e));
            }
        }
        proof {
            let se = parse_step(pre_stack, pre_errs, tm[i as int], open, close);
            assert(stack_view(stack@) == se.0);
            assert(errs@.map_values(|er: ParseError| er@) == se.1);
        }
        i = i + 1;
    }
    let ghost fe = parse_fold(tm, 0, seq![Seq::<ElemModel>::empty()], Seq::empty(), open, close);
    proof {
        assert(fe == (stack_view(stack@), errs@.map_values(|e: ParseError| e@)));
    }
    while stack.len() > 1
        invariant
            stack@.len() >= 1,
            close_all(fe.0, fe.1) == close_all(
                stack_view(stack@),
                errs@.map_values(|e: ParseError| e@),
            ),
        decreases stack@.len(),
    {
        let ghost pre_stack = stack_view(stack@);
        let ghost pre_errs = errs@.map_values(|e: ParseError| e@);
        let mut top = stack.pop().unwrap();
        proof {
            assert(pre_stack.last() == elems_view(top@, 0));
        }
        let start: usize = if top.len() > 0 {
            match &top[0] {
                SyntaxElement::Token(t) => t.start,
                SyntaxElement::Node(_) => 0,
            }
        } else {
            0
        };
        let elen: usize = if top.len() > 0 {
            match &top[0] {
                SyntaxElement::Token(t) => t.text.unicode_len(),
                SyntaxElement::Node(_) => 0,
            }
        } else {
            0
        };
        proof {
            if top@.len() > 0 {
                assert(elems_view(top@, 0)[0] == top@[0]@);
            }
            assert(start as int == block_start(pre_stack.last()));
            assert(elen as int == block_len(pre_stack.last()));
        }
        errs.push(ParseError { start, len: elen, message: unterminated_block_text() });
        proof {
            assert(errs@.map_values(|er: ParseError| er@) =~= pre_errs.push(
                ErrorModel {
                    start: block_start(pre_stack.last()),
                    len: block_len(pre_stack.last()),
                    message: unterminated_block_message(),
                },
            ));
        }
        let node = SyntaxNode { kind: SyntaxKind(KIND_BLOCK), children: top };
        let ghost nm = ElemModel::Node(
            NodeModel { kind: SyntaxKind(KIND_BLOCK), children: pre_stack.last() },
        );
        let mut parent = stack.pop().unwrap();
        let ghost old_parent = parent@;
        proof {
            assert(pre_stack.drop_last().last() == elems_view(old_parent, 0));
        }
        parent.push(SyntaxElement::Node(node));
        proof {
            lemma_elems_view_push(old_parent, SyntaxElement::Node(node), 0);
            assert(elems_view(parent@, 0) =~= pre_stack.drop_last().last().push(nm));
        }
        stack.push(parent);
        proof {
            assert(stack_view(stack@) =~= push_top(pre_stack.drop_last(), nm));
        }
    }
    let ghost pre = stack_view(stack@);
    let root_children = stack.pop().unwrap();
    let root = SyntaxNode { kind: SyntaxKind(KIND_ROOT), children: root_children };
    proof {
        let ce = close_all(fe.0, fe.1);
        assert(pre.len() == 1);
        assert(pre[0] == elems_view(root_children@, 0));
        assert(ce.0 == elems_view(root_children@, 0));
        assert(ce.1 == errs@.map_values(|e: ParseError| e@));
        lemma_parse_lossless(tm, open, close);
    }
    (root, errs)
}

} // verus!
