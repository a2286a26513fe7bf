//! The lexer: token-matching tables generated from the grammar, the pattern
//! matcher for regex-defined tokens, and the lossless tokenizer itself.
//!
//! Matching policy at each position: the first fixed-text token whose literal
//! is a prefix wins; otherwise the regex token with the longest (greedy)
//! match, earlier declaration breaking ties; otherwise a single-character
//! unknown token. The lexer never fails and the concatenation of all token
//! texts reproduces the input exactly.
//!
//! The pattern language is interpreted greedily: an item is a literal
//! character, `.` (any character), or a class `[...]` of characters and
//! `a-b` ranges; an item may carry a postfix `*`, `+` or `?`.

use vstd::prelude::*;
use crate::grammar::Grammar;
use crate::names::push_char;
use crate::tree::KIND_FIRST_TOKEN;
use crate::tree::KIND_UNKNOWN;
use crate::tree::SyntaxKind;
use crate::tree::SyntaxToken;
use crate::tree::TokenModel;
use crate::tree::tokens_text;
use vstd::string::StrSliceExecFns;

verus! {

/// Index just past the body of a character class opened before `i`: the first
/// `]` at or after `i`, or the end of the pattern.
pub open spec fn class_end(pat: Seq<char>, i: int) -> int
    decreases pat.len() - i,
{
    if i < 0 || i >= pat.len() {
        pat.len() as int
    } else if pat[i] == ']' {
        i
    } else {
        class_end(pat, i + 1)
    }
}

/// Whether the class body `pat[i..end]` admits character `c`: a `x-y` triple
/// admits the range, any other character admits itself.
pub open spec fn class_has(pat: Seq<char>, i: int, end: int, c: char) -> bool
    decreases end - i,
{
    if i < 0 || i >= end || i >= pat.len() {
        false
    } else if i + 2 < end && i + 2 < pat.len() && pat[i + 1] == '-' {
        (pat[i] <= c && c <= pat[i + 2]) || class_has(pat, i + 3, end, c)
    } else {
        pat[i] == c || class_has(pat, i + 1, end, c)
    }
}

/// Index just past the pattern item starting at `pi` (its repeat marker, if
/// any, excluded); always strictly past `pi`.
pub open spec fn item_end(pat: Seq<char>, pi: int) -> int {
    if 0 <= pi < pat.len() && pat[pi] == '[' {
        let e = class_end(pat, pi + 1);
        let stop = if e < pat.len() {
            e + 1
        } else {
            e
        };
        if stop < pi + 1 {
            pi + 1
        } else {
            stop
        }
    } else {
        pi + 1
    }
}

/// Whether the pattern item starting at `pi` admits character `c`.
pub open spec fn item_matches(pat: Seq<char>, pi: int, c: char) -> bool {
    if !(0 <= pi < pat.len()) {
        false
    } else if pat[pi] == '[' {
        class_has(pat, pi + 1, class_end(pat, pi + 1), c)
    } else if pat[pi] == '.' {
        true
    } else {
        pat[pi] == c
    }
}

pub open spec fn is_rep_char(c: char) -> bool {
    c == '*' || c == '+' || c == '?'
}

/// The repeat marker following the item at `pi`, if any.
pub open spec fn item_rep(pat: Seq<char>, pi: int) -> Option<char> {
    let ie = item_end(pat, pi);
    if 0 <= ie < pat.len() && is_rep_char(pat[ie]) {
        Some(pat[ie])
    } else {
        None
    }
}

/// Index just past the item at `pi` and its repeat marker.
pub open spec fn item_stop(pat: Seq<char>, pi: int) -> int {
    if item_rep(pat, pi) is Some {
        item_end(pat, pi) + 1
    } else {
        item_end(pat, pi)
    }
}

/// Number of consecutive characters of `text` from `ti` on that the item at
/// `pi` admits: what a greedy `*` or `+` consumes.
pub open spec fn star_extent(pat: Seq<char>, pi: int, text: Seq<char>, ti: int) -> int
    decreases text.len() - ti,
{
    if ti < 0 || ti >= text.len() || !item_matches(pat, pi, text[ti]) {
        0
    } else {
        1 + star_extent(pat, pi, text, ti + 1)
    }
}

/// Greedy match of the pattern suffix starting at `pi` against `text` from
/// `ti` on: the number of characters consumed, or `None` if the pattern does
/// not match there.
pub open spec fn match_from(pat: Seq<char>, pi: int, text: Seq<char>, ti: int) -> Option<int>
    decreases pat.len() - pi,
{
    if pi < 0 || pi >= pat.len() {
        Some(0)
    } else {
        let stop = item_stop(pat, pi);
        let next = if stop < pi + 1 {
            pi + 1
        } else if stop > pat.len() {
            pat.len() as int
        } else {
            stop
        };
        let rep = item_rep(pat, pi);
        if rep == Some('*') || rep == Some('+') {
            let k = star_extent(pat, pi, text, ti);
            if rep == Some('+') && k == 0 {
                None
            } else {
                match match_from(pat, next, text, ti + k) {
                    Some(m) => Some(k + m),
                    None => None,
                }
            }
        } else if rep == Some('?') {
            let k: int = if 0 <= ti < text.len() && item_matches(pat, pi, text[ti]) {
                1
            } else {
                0
            };
            match match_from(pat, next, text, ti + k) {
                Some(m) => Some(k + m),
                None => None,
            }
        } else {
            if 0 <= ti < text.len() && item_matches(pat, pi, text[ti]) {
                match match_from(pat, next, text, ti + 1) {
                    Some(m) => Some(1 + m),
                    None => None,
                }
            } else {
                None
            }
        }
    }
}

fn class_end_exec(pat: &Vec<char>, i: usize) -> (r: usize)
    requires
        i <= pat@.len(),
    ensures
        r as int == class_end(pat@, i as int),
        i <= r <= pat@.len(),
{
    let n = pat.len();
    let mut j = i;
    while j < n
        invariant
            i <= j <= n,
            n == pat@.len(),
            class_end(pat@, i as int) == class_end(pat@, j as int),
        decreases n - j,
    {
        if pat[j] == ']' {
            return j;
        }
        j = j + 1;
    }
    n
}

fn class_has_exec(pat: &Vec<char>, i: usize, end: usize, c: char) -> (r: bool)
    requires
        end <= pat@.len(),
    ensures
        r == class_has(pat@, i as int, end as int, c),
    decreases end - i,
{
    if i >= end {
        return false;
    }
    if i + 1 < end && i + 2 < end && pat[i + 1] == '-' {
        if pat[i] <= c && c <= pat[i + 2] {
            true
        } else {
            class_has_exec(pat, i + 3, end, c)
        }
    } else {
        if pat[i] == c {
            true
        } else {
            class_has_exec(pat, i + 1, end, c)
        }
    }
}

fn item_end_exec(pat: &Vec<char>, pi: usize) -> (r: usize)
    requires
        pi < pat@.len(),
    ensures
        r as int == item_end(pat@, pi as int),
        pi < r <= pat@.len(),
{
    let n = pat.len();
    if pat[pi] == '[' {
        let e = class_end_exec(pat, pi + 1);
        if e < n {
            e + 1
        } else {
            e
        }
    } else {
        pi + 1
    }
}

fn item_matches_exec(pat: &Vec<char>, pi: usize, c: char) -> (r: bool)
    requires
        pi < pat@.len(),
    ensures
        r == item_matches(pat@, pi as int, c),
{
    let n = pat.len();
    if pat[pi] == '[' {
        let e = class_end_exec(pat, pi + 1);
        class_has_exec(pat, pi + 1, e, c)
    } else if pat[pi] == '.' {
        true
    } else {
        pat[pi] == c
    }
}

fn star_extent_exec(pat: &Vec<char>, pi: usize, text: &Vec<char>, ti: usize) -> (r: usize)
    requires
        pi < pat@.len(),
        ti <= text@.len(),
    ensures
        r as int == star_extent(pat@, pi as int, text@, ti as int),
        ti + r <= text@.len(),
    decreases text@.len() - ti,
{
    if ti < text.len() && item_matches_exec(pat, pi, text[ti]) {
        let k = star_extent_exec(pat, pi, text, ti + 1);
        1 + k
    } else {
        0
    }
}

fn match_from_exec(pat: &Vec<char>, pi: usize, text: &Vec<char>, ti: usize) -> (r: Option<
    usize,
>)
    requires
        pi <= pat@.len(),
        ti <= text@.len(),
    ensures
        match r {
            Some(m) => match_from(pat@, pi as int, text@, ti as int) == Some(m as int) && ti + m
                <= text@.len(),
            None => match_from(pat@, pi as int, text@, ti as int) is None,
        },
    decreases pat@.len() - pi,
{
    let tl = text.len();
    if pi >= pat.len() {
        return Some(0);
    }
    let ie = item_end_exec(pat, pi);
    let has_rep = ie < pat.len() && (pat[ie] == '*' || pat[ie] == '+' || pat[ie] == '?');
    let next = if has_rep {
        ie + 1
    } else {
        ie
    };
    if has_rep && (pat[ie] == '*' || pat[ie] == '+') {
        let k = star_extent_exec(pat, pi, text, ti);
        if pat[ie] == '+' && k == 0 {
            return None;
        }
        match match_from_exec(pat, next, text, ti + k) {
            Some(m) => Some(k + m),
            None => None,
        }
    } else if has_rep {
        let k: usize = if ti < text.len() && item_matches_exec(pat, pi, text[ti]) {
            1
        } else {
            0
        };
        match match_from_exec(pat, next, text, ti + k) {
            Some(m) => Some(k + m),
            None => None,
        }
    } else {
        if ti < text.len() && item_matches_exec(pat, pi, text[ti]) {
            match match_from_exec(pat, next, text, ti + 1) {
                Some(m) => Some(1 + m),
                None => None,
            }
        } else {
            None
        }
    }
}

/// One fixed-token table entry: kind tag and the literal text to match.
pub struct FixedEntry {
    pub kind: SyntaxKind,
    pub text: Vec<char>,
}

/// One regex-token table entry: kind tag and the pattern to match.
pub struct PatternEntry {
    pub kind: SyntaxKind,
    pub pattern: Vec<char>,
}

/// Model of a table entry: kind tag and literal or pattern characters.
pub struct EntryModel {
    pub kind: SyntaxKind,
    pub text: Seq<char>,
}

impl View for FixedEntry {
    type V = EntryModel;

    open spec fn view(&self) -> EntryModel {
        EntryModel { kind: self.kind, text: self.text@ }
    }
}

impl View for PatternEntry {
    type V = EntryModel;

    open spec fn view(&self) -> EntryModel {
        EntryModel { kind: self.kind, text: self.pattern@ }
    }
}

/// The token-matching table the generator derives from the grammar: fixed
/// entries are tried before patterns.
pub struct LexTable {
    pub fixed: Vec<FixedEntry>,
    pub patterns: Vec<PatternEntry>,
}

/// Model of the token-matching table.
pub struct TableModel {
    pub fixed: Seq<EntryModel>,
    pub patterns: Seq<EntryModel>,
}

impl View for LexTable {
    type V = TableModel;

    open spec fn view(&self) -> TableModel {
        TableModel {
            fixed: self.fixed@.map_values(|e: FixedEntry| e@),
            patterns: self.patterns@.map_values(|e: PatternEntry| e@),
        }
    }
}

/// First fixed entry from `fi` on whose nonempty literal is a prefix of
/// `text` at `pos`, with its length.
pub open spec fn fixed_match_from(
    fixed: Seq<EntryModel>,
    fi: int,
    text: Seq<char>,
    pos: int,
) -> Option<(SyntaxKind, int)>
    decreases fixed.len() - fi,
{
    if fi < 0 || fi >= fixed.len() {
        None
    } else {
        let e = fixed[fi];
        if e.text.len() > 0 && pos >= 0 && pos + e.text.len() <= text.len() && text.subrange(
            pos,
            pos + e.text.len(),
        ) == e.text {
            Some((e.kind, e.text.len() as int))
        } else {
            fixed_match_from(fixed, fi + 1, text, pos)
        }
    }
}

/// Best pattern entry from `i` on at `pos`: the longest nonempty greedy
/// match, an earlier entry winning ties.
pub open spec fn best_pattern_from(
    pats: Seq<EntryModel>,
    i: int,
    text: Seq<char>,
    pos: int,
) -> Option<(SyntaxKind, int)>
    decreases pats.len() - i,
{
    if i < 0 || i >= pats.len() {
        None
    } else {
        let head = match match_from(pats[i].text, 0, text, pos) {
            Some(m) => if m > 0 {
                Some((pats[i].kind, m))
            } else {
                None
            },
            None => None,
        };
        let rest = best_pattern_from(pats, i + 1, text, pos);
        match head {
            Some(h) => match rest {
                Some(r) => if r.1 > h.1 {
                    Some(r)
                } else {
                    Some(h)
                },
                None => Some(h),
            },
            None => rest,
        }
    }
}

/// The kind and length of the token that starts at `pos`: fixed entries
/// first, then the best pattern, else a one-character unknown token.
pub open spec fn lex_step(tm: TableModel, text: Seq<char>, pos: int) -> (SyntaxKind, int) {
    match fixed_match_from(tm.fixed, 0, text, pos) {
        Some(km) => km,
        None => match best_pattern_from(tm.patterns, 0, text, pos) {
            Some(km) => km,
            None => (SyntaxKind(KIND_UNKNOWN), 1),
        },
    }
}

/// The token sequence the table produces from `text` starting at `pos`; each
/// step consumes at least one character, so lexing always terminates.
pub open spec fn lex_from(tm: TableModel, text: Seq<char>, pos: int) -> Seq<TokenModel>
    decreases text.len() - pos,
{
    if pos < 0 || pos >= text.len() {
        Seq::empty()
    } else {
        let kl = lex_step(tm, text, pos);
        let l = kl.1;
        let l2 = if l < 1 {
            1
        } else if l > text.len() - pos {
            text.len() - pos
        } else {
            l
        };
        seq![TokenModel { kind: kl.0, text: text.subrange(pos, pos + l2), start: pos }]
            + lex_from(tm, text, pos + l2)
    }
}

/// Losslessness of the lexer: the concatenated texts of the tokens produced
/// from `pos` on reproduce the remaining input exactly.
pub proof fn lemma_lex_lossless(tm: TableModel, text: Seq<char>, pos: int)
    requires
        0 <= pos <= text.len(),
    ensures
        tokens_text(lex_from(tm, text, pos)) == text.subrange(pos, text.len() as int),
    decreases text.len() - pos,
{
    if pos >= text.len() {
        assert(text.subrange(pos, text.len() as int) =~= Seq::empty());
    } else {
        let kl = lex_step(tm, text, pos);
        let l = kl.1;
        let l2 = if l < 1 {
            1int
        } else if l > text.len() - pos {
            text.len() - pos
        } else {
            l
        };
        let tok = TokenModel { kind: kl.0, text: text.subrange(pos, pos + l2), start: pos };
        let rest = lex_from(tm, text, pos + l2);
        lemma_lex_lossless(tm, text, pos + l2);
        assert((seq![tok] + rest).first() == tok);
        assert((seq![tok] + rest).drop_first() =~= rest);
        assert(tokens_text(lex_from(tm, text, pos)) =~= tok.text + tokens_text(rest));
        assert(text.subrange(pos, pos + l2) + text.subrange(pos + l2, text.len() as int) =~= text
            .subrange(pos, text.len() as int));
    }
}

fn is_prefix_at(pat: &Vec<char>, text: &Vec<char>, pos: usize) -> (r: bool)
    requires
        pos <= text@.len(),
    ensures
        r == (pos + pat@.len() <= text@.len() && text@.subrange(
            pos as int,
            pos as int + pat@.len(),
        ) == pat@),
{
    let m = pat.len();
    if text.len() - pos < m {
        return false;
    }
    let mut j: usize = 0;
    while j < m
        invariant
            0 <= j <= m,
            m == pat@.len(),
            pos + m <= text@.len(),
            text@.len() <= usize::MAX,
            forall|q: int| 0 <= q < j ==> text@[pos + q] == pat@[q],
        decreases m - j,
    {
        if text[pos + j] != pat[j] {
            proof {
                assert(text@.subrange(pos as int, pos as int + pat@.len())[j as int] == text@[pos
                    + j]);
            }
            return false;
        }
        j = j + 1;
    }
    proof {
        assert(text@.subrange(pos as int, pos as int + pat@.len()) =~= pat@);
    }
    true
}

fn fixed_lookup(fixed: &Vec<FixedEntry>, text: &Vec<char>, pos: usize) -> (r: Option<
    (SyntaxKind, usize),
>)
    requires
        pos <= text@.len(),
    ensures
        match r {
            Some(kl) => fixed_match_from(
                fixed@.map_values(|e: FixedEntry| e@),
                0,
                text@,
                pos as int,
            ) == Some((kl.0, kl.1 as int)) && 1 <= kl.1 && pos + kl.1 <= text@.len(),
            None => fixed_match_from(
                fixed@.map_values(|e: FixedEntry| e@),
                0,
                text@,
                pos as int,
            ) is None,
        },
{
    let ghost fm = fixed@.map_values(|e: FixedEntry| e@);
    let n = fixed.len();
    let mut i: usize = 0;
    while i < n
        invariant
            0 <= i <= n,
            n == fixed@.len(),
            pos <= text@.len(),
            fm == fixed@.map_values(|e: FixedEntry| e@),
            fixed_match_from(fm, 0, text@, pos as int) == fixed_match_from(
                fm,
                i as int,
                text@,
                pos as int,
            ),
        decreases n - i,
    {
        proof {
            assert(fm[i as int] == fixed@[i as int]@);
        }
        if fixed[i].text.len() > 0 && is_prefix_at(&fixed[i].text, text, pos) {
            return Some((fixed[i].kind, fixed[i].text.len()));
        }
        i = i + 1;
    }
    None
}

fn pattern_lookup(pats: &Vec<PatternEntry>, text: &Vec<char>, pos: usize) -> (r: Option<
    (SyntaxKind, usize),
>)
    requires
        pos <= text@.len(),
    ensures
        match r {
            Some(kl) => best_pattern_from(
                pats@.map_values(|e: PatternEntry| e@),
                0,
                text@,
                pos as int,
            ) == Some((kl.0, kl.1 as int)) && 1 <= kl.1 && pos + kl.1 <= text@.len(),
            None => best_pattern_from(
                pats@.map_values(|e: PatternEntry| e@),
                0,
                text@,
                pos as int,
            ) is None,
        },
{
    let ghost pm = pats@.map_values(|e: PatternEntry| e@);
    let n = pats.len();
    let mut i = n;
    let mut res: Option<(SyntaxKind, usize)> = None;
    while i > 0
        invariant
            0 <= i <= n,
            n == pats@.len(),
            pos <= text@.len(),
            pm == pats@.map_values(|e: PatternEntry| e@),
            match res {
                Some(kl) => best_pattern_from(pm, i as int, text@, pos as int) == Some(
                    (kl.0, kl.1 as int),
                ) && 1 <= kl.1 && pos + kl.1 <= text@.len(),
                None => best_pattern_from(pm, i as int, text@, pos as int) is None,
            },
        decreases i,
    {
        i = i - 1;
        proof {
            assert(pm[i as int] == pats@[i as int]@);
        }
        let head: Option<(SyntaxKind, usize)> = match match_from_exec(&pats[i].pattern, 0, text, pos) {
            Some(m) => if m > 0 {
                Some((pats[i].kind, m))
            } else {
                None
            },
            None => None,
        };
        res = match head {
            Some(h) => match res {
                Some(r) => if r.1 > h.1 {
                    Some(r)
                } else {
                    Some(h)
                },
                None => Some(h),
            },
            None => res,
        };
    }
    res
}

/// The characters of a string, in order.
pub fn str_chars(s: &str) -> (r: Vec<char>)
    ensures
        r@ == s@,
{
    let n = s.unicode_len();
    let mut v: Vec<char> = Vec::new();
    let mut i: usize = 0;
    while i < n
        invariant
            0 <= i <= n,
            n == s@.len(),
            v@ == s@.take(i as int),
        decreases n - i,
    {
        v.push(s.get_char(i));
        proof {
            assert(v@ =~= s@.take(i + 1 as int));
        }
        i = i + 1;
    }
    proof {
        assert(s@.take(n as int) =~= s@);
    }
    v
}

/// The string holding the given characters.
pub fn chars_to_string(chars: &Vec<char>, from: usize, to: usize) -> (r: String)
    requires
        from <= to <= chars@.len(),
    ensures
        r@ == chars@.subrange(from as int, to as int),
{
    let mut buf = String::new();
    let mut j = from;
    while j < to
        invariant
            from <= j <= to <= chars@.len(),
            buf@ == chars@.subrange(from as int, j as int),
        decreases to - j,
    {
        push_char(&mut buf, chars[j]);
        proof {
            assert(buf@ =~= chars@.subrange(from as int, j + 1 as int));
        }
        j = j + 1;
    }
    buf
}

/// Tokenizes the whole input against the table. The result is a pure function
/// of table and text; the concatenation of the token texts is the input
/// itself, and each token records the offset where it starts.
pub fn lex(table: &LexTable, text: &str) -> (r: Vec<SyntaxToken>)
    ensures
        r@.map_values(|t: SyntaxToken| t@) == lex_from(table@, text@, 0),
        tokens_text(r@.map_values(|t: SyntaxToken| t@)) == text@,
{
    let chars = str_chars(text);
    let n = chars.len();
    let mut toks: Vec<SyntaxToken> = Vec::new();
    let mut pos: usize = 0;
    while pos < n
        invariant
            n == text@.len(),
            chars@ == text@,
            0 <= pos <= n,
            toks@.map_values(|t: SyntaxToken| t@) + lex_from(table@, text@, pos as int) == lex_from(
                table@,
                text@,
                0,
            ),
        decreases n - pos,
    {
        let step: (SyntaxKind, usize) = match fixed_lookup(&table.fixed, &chars, pos) {
            Some(kl) => kl,
            None => match pattern_lookup(&table.patterns, &chars, pos) {
                Some(kl) => kl,
                None => (SyntaxKind(KIND_UNKNOWN), 1),
            },
        };
        let kind = step.0;
        let len = step.1;
        assert(1 <= len && pos + len <= n);
        assert(lex_step(table@, text@, pos as int) == (kind, len as int));
        let tok_text = chars_to_string(&chars, pos, pos + len);
        let tok = SyntaxToken { kind, text: tok_text, start: pos };
        proof {
            let prev = toks@.map_values(|t: SyntaxToken| t@);
            let rest = lex_from(table@, text@, pos + len as int);
            assert(lex_from(table@, text@, pos as int) =~= seq![tok@] + rest);
            assert(toks@.push(tok).map_values(|t: SyntaxToken| t@) =~= prev + seq![tok@]);
            assert((prev + seq![tok@]) + rest =~= prev + (seq![tok@] + rest));
        }
        toks.push(tok);
        pos = pos + len;
    }
    proof {
        assert(lex_from(table@, text@, pos as int) =~= Seq::<TokenModel>::empty());
        assert(toks@.map_values(|t: SyntaxToken| t@) + Seq::<TokenModel>::empty() =~= toks@
            .map_values(|t: SyntaxToken| t@));
        lemma_lex_lossless(table@, text@, 0);
        assert(text@.subrange(0, text@.len() as int) =~= text@);
    }
    toks
}

/// The syntax-kind tag assigned to the `i`th fixed token of the grammar.
pub open spec fn const_token_kind(i: int) -> SyntaxKind {
    SyntaxKind((KIND_FIRST_TOKEN + i) as u16)
}

/// The syntax-kind tag assigned to the `j`th regex token of a grammar with
/// `n_const` fixed tokens.
pub open spec fn regex_token_kind(n_const: int, j: int) -> SyntaxKind {
    SyntaxKind((KIND_FIRST_TOKEN + n_const + j) as u16)
}

/// The syntax-kind tag assigned to the `i`th schema node of a grammar with
/// `n_tokens` declared tokens in all.
pub open spec fn schema_node_kind(n_tokens: int, i: int) -> SyntaxKind {
    SyntaxKind((KIND_FIRST_TOKEN + n_tokens + i) as u16)
}

/// Assigns each schema node its syntax-kind tag, continuing the numbering
/// after the grammar's token kinds, in schema order: together with the token
/// tags this is the full deterministic kind enumeration.
pub fn node_kind_tags(g: &Grammar, schema: &crate::grammar::Schema) -> (r: Vec<SyntaxKind>)
    requires
        KIND_FIRST_TOKEN + g.const_tokens@.len() + g.tokens@.len() + schema.nodes@.len()
            <= u16::MAX,
    ensures
        r@.len() == schema.nodes@.len(),
        forall|i: int|
            0 <= i < schema.nodes@.len() ==> #[trigger] r@[i] == schema_node_kind(
                (g.const_tokens@.len() + g.tokens@.len()) as int,
                i,
            ),
{
    let n_tokens = g.const_tokens.len() + g.tokens.len();
    let n = schema.nodes.len();
    let mut out: Vec<SyntaxKind> = Vec::new();
    let mut i: usize = 0;
    while i < n
        invariant
            0 <= i <= n,
            n == schema.nodes@.len(),
            n_tokens == g.const_tokens@.len() + g.tokens@.len(),
            KIND_FIRST_TOKEN + n_tokens + n <= u16::MAX,
            out@.len() == i,
            forall|p: int|
                0 <= p < i ==> #[trigger] out@[p] == schema_node_kind(n_tokens as int, p),
        decreases n - i,
    {
        out.push(SyntaxKind(KIND_FIRST_TOKEN + (n_tokens as u16) + (i as u16)));
        i = i + 1;
    }
    out
}

/// Builds the token-matching table from the grammar: fixed tokens first, in
/// declaration order, then regex tokens, with kind tags assigned
/// consecutively from `KIND_FIRST_TOKEN`. This is the deterministic
/// generation step that feeds the lexer.
pub fn build_lex_table(g: &Grammar) -> (r: LexTable)
    requires
        KIND_FIRST_TOKEN + g.const_tokens@.len() + g.tokens@.len() <= u16::MAX,
    ensures
        r@.fixed.len() == g.const_tokens@.len(),
        forall|i: int|
            0 <= i < g.const_tokens@.len() ==> #[trigger] r@.fixed[i] == (EntryModel {
                kind: const_token_kind(i),
                text: g.const_tokens@[i].text@,
            }),
        r@.patterns.len() == g.tokens@.len(),
        forall|j: int|
            0 <= j < g.tokens@.len() ==> #[trigger] r@.patterns[j] == (EntryModel {
                kind: regex_token_kind(g.const_tokens@.len() as int, j),
                text: g.tokens@[j].regex@,
            }),
{
    let n_const = g.const_tokens.len();
    let mut fixed: Vec<FixedEntry> = Vec::new();
    let mut i: usize = 0;
    while i < n_const
        invariant
            0 <= i <= n_const,
            n_const == g.const_tokens@.len(),
            KIND_FIRST_TOKEN + g.const_tokens@.len() + g.tokens@.len() <= u16::MAX,
            fixed@.len() == i,
            forall|p: int|
                0 <= p < i ==> #[trigger] fixed@[p]@ == (EntryModel {
                    kind: const_token_kind(p),
                    text: g.const_tokens@[p].text@,
                }),
        decreases n_const - i,
    {
        let kind = SyntaxKind(KIND_FIRST_TOKEN + (i as u16));
        let text = str_chars(g.const_tokens[i].text.as_str());
        fixed.push(FixedEntry { kind, text });
        i = i + 1;
    }
    let n_regex = g.tokens.len();
    let mut patterns: Vec<PatternEntry> = Vec::new();
    let mut j: usize = 0;
    while j < n_regex
        invariant
            0 <= j <= n_regex,
            n_regex == g.tokens@.len(),
            n_const == g.const_tokens@.len(),
            KIND_FIRST_TOKEN + g.const_tokens@.len() + g.tokens@.len() <= u16::MAX,
            patterns@.len() == j,
            forall|p: int|
                0 <= p < j ==> #[trigger] patterns@[p]@ == (EntryModel {
                    kind: regex_token_kind(n_const as int, p),
                    text: g.tokens@[p].regex@,
                }),
        decreases n_regex - j,
    {
        let kind = SyntaxKind(KIND_FIRST_TOKEN + (n_const as u16) + (j as u16));
        let pattern = str_chars(g.tokens[j].regex.as_str());
        patterns.push(PatternEntry { kind, pattern });
        j = j + 1;
    }
    let r = LexTable { fixed, patterns };
    proof {
        assert forall|p: int| 0 <= p < g.const_tokens@.len() implies #[trigger] r@.fixed[p]
            == EntryModel { kind: const_token_kind(p), text: g.const_tokens@[p].text@ } by {
            assert(r@.fixed[p] == r.fixed@[p]@);
        }
        assert forall|p: int| 0 <= p < g.tokens@.len() implies #[trigger] r@.patterns[p]
            == EntryModel {
            kind: regex_token_kind(g.const_tokens@.len() as int, p),
            text: g.tokens@[p].regex@,
        } by {
            assert(r@.patterns[p] == r.patterns@[p]@);
        }
    }
    r
}

} // verus!
