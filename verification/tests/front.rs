use leafbuild_front::ast::{child, children, token, AstNode, BlockNode, RootNode};
use leafbuild_front::grammar::{
    accessor_name, kind_display_names, kind_wire_names, node_accessor_names, node_type_names,
    Cardinality, ConstToken, Grammar, NodeDef, Schema, SchemaError, Slot, Token,
};
use leafbuild_front::interp::{execute_on, BuildSys, Handle, InterpretFailure, LfModName};
use leafbuild_front::lexer::{build_lex_table, lex, node_kind_tags, LexTable};
use leafbuild_front::names::{
    pluralize, raw_str_literal, to_lower_snake_case, to_pascal_case, to_upper_snake_case,
};
use leafbuild_front::parser::parse;
use leafbuild_front::tree::{
    SyntaxElement, SyntaxKind, SyntaxNode, SyntaxToken, KIND_BLOCK, KIND_FIRST_TOKEN, KIND_ROOT,
    KIND_UNKNOWN,
};

fn s(x: &str) -> String {
    String::from(x)
}

fn small_grammar() -> Grammar {
    Grammar {
        const_tokens: vec![
            ConstToken {
                name: s("LBrace"),
                lowercased_name: s("lbrace"),
                text: s("{"),
            },
            ConstToken {
                name: s("RBrace"),
                lowercased_name: s("rbrace"),
                text: s("}"),
            },
            ConstToken {
                name: s("Assign"),
                lowercased_name: s("assign"),
                text: s("="),
            },
        ],
        tokens: vec![
            Token {
                name: s("Id"),
                lowercased_name: s("id"),
                regex: s("[a-z_][a-z0-9_]*"),
            },
            Token {
                name: s("Number"),
                lowercased_name: s("number"),
                regex: s("[0-9]+"),
            },
            Token {
                name: s("Whitespace"),
                lowercased_name: s("whitespace"),
                regex: s("[ \t\n]+"),
            },
        ],
    }
}

fn small_table() -> (LexTable, SyntaxKind, SyntaxKind) {
    let table = build_lex_table(&small_grammar());
    (
        table,
        SyntaxKind(KIND_FIRST_TOKEN),
        SyntaxKind(KIND_FIRST_TOKEN + 1),
    )
}

fn tokens_eq(a: &[SyntaxToken], b: &[SyntaxToken]) -> bool {
    a.len() == b.len()
        && a.iter()
            .zip(b.iter())
            .all(|(x, y)| x.kind.0 == y.kind.0 && x.text == y.text && x.start == y.start)
}

fn node_text(n: &SyntaxNode) -> String {
    let mut out = String::new();
    for c in &n.children {
        match c {
            SyntaxElement::Token(t) => out.push_str(&t.text),
            SyntaxElement::Node(inner) => out.push_str(&node_text(inner)),
        }
    }
    out
}

fn nodes_eq(a: &SyntaxNode, b: &SyntaxNode) -> bool {
    if a.kind.0 != b.kind.0 || a.children.len() != b.children.len() {
        return false;
    }
    a.children.iter().zip(b.children.iter()).all(|(x, y)| match (x, y) {
        (SyntaxElement::Token(t), SyntaxElement::Token(u)) => {
            t.kind.0 == u.kind.0 && t.text == u.text && t.start == u.start
        }
        (SyntaxElement::Node(m), SyntaxElement::Node(n)) => nodes_eq(m, n),
        _ => false,
    })
}

#[test]
fn upper_snake_case_splits_on_case_boundaries() {
    assert_eq!(to_upper_snake_case("FooBar"), "FOO_BAR");
    assert_eq!(to_upper_snake_case("x"), "X");
    assert_eq!(to_upper_snake_case(""), "");
    // a separator already present is not doubled
    assert_eq!(to_upper_snake_case("Foo_Bar"), "FOO_BAR");
}

#[test]
fn lower_snake_case_splits_on_case_boundaries() {
    assert_eq!(to_lower_snake_case("FooBar"), "foo_bar");
    assert_eq!(to_lower_snake_case("LBrace"), "l_brace");
    assert_eq!(to_lower_snake_case(""), "");
    assert_eq!(to_lower_snake_case("Foo_Bar"), "foo_bar");
}

#[test]
fn pascal_case_capitalizes_after_separators() {
    assert_eq!(to_pascal_case("foo_bar"), "FooBar");
    assert_eq!(to_pascal_case("_x"), "X");
    assert_eq!(to_pascal_case("already"), "Already");
    assert_eq!(to_pascal_case(""), "");
}

#[test]
fn pluralize_appends_marker() {
    assert_eq!(pluralize("token"), "tokens");
    assert_eq!(pluralize(""), "s");
}

#[test]
fn raw_literal_plain_text() {
    assert_eq!(raw_str_literal("hello"), "r#\"hello\"#");
}

#[test]
fn raw_literal_escapes_hash_runs() {
    assert_eq!(raw_str_literal("a\"##b"), "r###\"a\"##b\"###");
}

#[test]
fn raw_literal_lexes_as_one_token() {
    let ts: proc_macro2::TokenStream = raw_str_literal("hello").parse().expect("literal must lex");
    assert_eq!(ts.to_string(), "r#\"hello\"#");
    let ts2: proc_macro2::TokenStream =
        raw_str_literal("a\"##b").parse().expect("literal must lex");
    assert_eq!(ts2.into_iter().count(), 1);
}

#[test]
fn lexer_is_lossless() {
    let (table, _, _) = small_table();
    let input = "x = {1}\n  y2 = 3 @ }";
    let toks = lex(&table, input);
    let rebuilt: String = toks.iter().map(|t| t.text.as_str()).collect();
    assert_eq!(rebuilt, input);
}

#[test]
fn lexer_assigns_expected_kinds() {
    let (table, _, _) = small_table();
    let toks = lex(&table, "x = {1}");
    let kinds: Vec<u16> = toks.iter().map(|t| t.kind.0).collect();
    // id, ws, assign, ws, lbrace, number, rbrace
    assert_eq!(
        kinds,
        vec![
            KIND_FIRST_TOKEN + 3,
            KIND_FIRST_TOKEN + 5,
            KIND_FIRST_TOKEN + 2,
            KIND_FIRST_TOKEN + 5,
            KIND_FIRST_TOKEN,
            KIND_FIRST_TOKEN + 4,
            KIND_FIRST_TOKEN + 1,
        ]
    );
    let texts: Vec<&str> = toks.iter().map(|t| t.text.as_str()).collect();
    assert_eq!(texts, vec!["x", " ", "=", " ", "{", "1", "}"]);
    let starts: Vec<usize> = toks.iter().map(|t| t.start).collect();
    assert_eq!(starts, vec![0, 1, 2, 3, 4, 5, 6]);
}

#[test]
fn lexer_unknown_character_is_single_token() {
    let (table, _, _) = small_table();
    let toks = lex(&table, "@");
    assert_eq!(toks.len(), 1);
    assert_eq!(toks[0].kind.0, KIND_UNKNOWN);
    assert_eq!(toks[0].text, "@");
}

#[test]
fn lexer_fixed_tokens_beat_patterns_and_first_declaration_wins() {
    let g = Grammar {
        const_tokens: vec![
            ConstToken {
                name: s("Eq"),
                lowercased_name: s("eq"),
                text: s("="),
            },
            ConstToken {
                name: s("EqEq"),
                lowercased_name: s("eqeq"),
                text: s("=="),
            },
        ],
        tokens: vec![Token {
            name: s("Eqs"),
            lowercased_name: s("eqs"),
            regex: s("=+"),
        }],
    };
    let table = build_lex_table(&g);
    let toks = lex(&table, "==");
    // the first declared fixed token matches first, twice
    assert_eq!(toks.len(), 2);
    assert_eq!(toks[0].kind.0, KIND_FIRST_TOKEN);
    assert_eq!(toks[1].kind.0, KIND_FIRST_TOKEN);
}

#[test]
fn lexer_longest_pattern_wins_and_earlier_breaks_ties() {
    let g = Grammar {
        const_tokens: vec![],
        tokens: vec![
            Token {
                name: s("As"),
                lowercased_name: s("as"),
                regex: s("a+"),
            },
            Token {
                name: s("Abs"),
                lowercased_name: s("abs"),
                regex: s("[a-b]+"),
            },
        ],
    };
    let table = build_lex_table(&g);
    // "aab": first pattern matches 2, second matches 3: longest wins
    let toks = lex(&table, "aab");
    assert_eq!(toks.len(), 1);
    assert_eq!(toks[0].kind.0, KIND_FIRST_TOKEN + 1);
    // "aaa": both match 3: the earlier declared pattern wins the tie
    let toks2 = lex(&table, "aaa");
    assert_eq!(toks2.len(), 1);
    assert_eq!(toks2[0].kind.0, KIND_FIRST_TOKEN);
}

#[test]
fn lexer_patterns_are_greedy_without_backtracking() {
    let g = Grammar {
        const_tokens: vec![],
        tokens: vec![Token {
            name: s("OptA"),
            lowercased_name: s("opta"),
            regex: s("a?b"),
        }],
    };
    let table = build_lex_table(&g);
    let toks = lex(&table, "ab");
    assert_eq!(toks.len(), 1);
    assert_eq!(toks[0].text, "ab");
    let toks2 = lex(&table, "b");
    assert_eq!(toks2.len(), 1);
    assert_eq!(toks2[0].text, "b");
    // greedy matching does not backtrack: after `a?` consumes the first `a`
    // of "aab", `b` does not follow, so no token starts there
    let toks3 = lex(&table, "aab");
    let texts: Vec<&str> = toks3.iter().map(|t| t.text.as_str()).collect();
    assert_eq!(texts, vec!["a", "ab"]);
    assert_eq!(toks3[0].kind.0, KIND_UNKNOWN);
}

#[test]
fn lexer_dot_matches_any_character() {
    let g = Grammar {
        const_tokens: vec![],
        tokens: vec![Token {
            name: s("Pair"),
            lowercased_name: s("pair"),
            regex: s("x."),
        }],
    };
    let table = build_lex_table(&g);
    let toks = lex(&table, "x@x7");
    let texts: Vec<&str> = toks.iter().map(|t| t.text.as_str()).collect();
    assert_eq!(texts, vec!["x@", "x7"]);
}

#[test]
fn lexer_is_deterministic() {
    let (table, _, _) = small_table();
    let input = "a = {b = 2} @@";
    let t1 = lex(&table, input);
    let t2 = lex(&table, input);
    assert!(tokens_eq(&t1, &t2));
}

#[test]
fn parser_builds_blocks() {
    let (table, open, close) = small_table();
    let toks = lex(&table, "x = {1}");
    let (root, errors) = parse(&toks, open, close);
    assert!(errors.is_empty());
    assert_eq!(root.kind.0, KIND_ROOT);
    assert_eq!(node_text(&root), "x = {1}");
    let blocks: Vec<BlockNode> = children(&root);
    assert_eq!(blocks.len(), 1);
    assert_eq!(node_text(&blocks[0].node), "{1}");
}

#[test]
fn parser_is_total_on_malformed_input() {
    let (table, open, close) = small_table();
    for input in ["}", "{", "{{x}", "}}}{", "", "@#$"] {
        let toks = lex(&table, input);
        let (root, _errors) = parse(&toks, open, close);
        assert_eq!(root.kind.0, KIND_ROOT);
        assert_eq!(node_text(&root), *input);
    }
}

#[test]
fn parser_reports_unexpected_close() {
    let (table, open, close) = small_table();
    let toks = lex(&table, "x}");
    let (root, errors) = parse(&toks, open, close);
    assert_eq!(errors.len(), 1);
    assert_eq!(errors[0].start, 1);
    assert_eq!(errors[0].len, 1);
    assert_eq!(errors[0].message, "unexpected closing delimiter");
    assert_eq!(node_text(&root), "x}");
}

#[test]
fn parser_reports_unterminated_block() {
    let (table, open, close) = small_table();
    let toks = lex(&table, "{x");
    let (root, errors) = parse(&toks, open, close);
    assert_eq!(errors.len(), 1);
    assert_eq!(errors[0].start, 0);
    assert_eq!(errors[0].len, 1);
    assert_eq!(errors[0].message, "unterminated block");
    assert_eq!(node_text(&root), "{x");
}

#[test]
fn parser_is_deterministic() {
    let (table, open, close) = small_table();
    let input = "{a = {b}} } {";
    let toks = lex(&table, input);
    let (r1, e1) = parse(&toks, open, close);
    let (r2, e2) = parse(&toks, open, close);
    assert!(nodes_eq(&r1, &r2));
    assert_eq!(e1.len(), e2.len());
    for (x, y) in e1.iter().zip(e2.iter()) {
        assert_eq!(x.start, y.start);
        assert_eq!(x.len, y.len);
        assert_eq!(x.message, y.message);
    }
}

#[test]
fn typed_wrappers_are_kind_safe() {
    let (table, open, close) = small_table();
    let toks = lex(&table, "{a}{b}");
    let (root, errors) = parse(&toks, open, close);
    assert!(errors.is_empty());
    // the root node is not a block, and a block is not a root
    assert!(BlockNode::cast(root.clone()).is_none());
    assert!(RootNode::cast(root.clone()).is_some());
    let first: Option<BlockNode> = child(&root);
    let first = first.expect("a block child exists");
    assert_eq!(first.node.kind.0, KIND_BLOCK);
    assert_eq!(node_text(&first.node), "{a}");
    let all: Vec<BlockNode> = children(&root);
    assert_eq!(all.len(), 2);
    assert!(all.iter().all(|b| b.node.kind.0 == KIND_BLOCK));
    assert_eq!(node_text(&all[1].node), "{b}");
}

#[test]
fn token_accessor_finds_first_of_kind() {
    let (table, open, close) = small_table();
    let toks = lex(&table, "{a}");
    let (root, _) = parse(&toks, open, close);
    let block: BlockNode = child(&root).expect("block");
    let open_tok = token(&block.node, open).expect("open brace is a direct child");
    assert_eq!(open_tok.text, "{");
    assert_eq!(open_tok.start, 0);
    let close_tok = token(&block.node, close).expect("close brace is a direct child");
    assert_eq!(close_tok.text, "}");
    assert!(token(&root, SyntaxKind(KIND_FIRST_TOKEN + 2)).is_none());
}

#[test]
fn clean_parse_registers_one_file_no_diagnostics() {
    let (table, open, close) = small_table();
    let mut handle = Handle {
        buildsys: BuildSys::new(),
    };
    let r = execute_on(
        &mut handle,
        &s("proj/sub"),
        Ok(s("x = {1}\n")),
        LfModName(s("proj.sub")),
        &table,
        open,
        close,
    );
    assert!(r.is_ok());
    assert_eq!(handle.buildsys.files.len(), 1);
    assert_eq!(handle.buildsys.files[0].path, "proj/sub/build.leaf");
    assert_eq!(handle.buildsys.files[0].content, "x = {1}\n");
    assert_eq!(handle.buildsys.diagnostics.len(), 0);
}

#[test]
fn malformed_input_registers_file_with_diagnostics() {
    let (table, open, close) = small_table();
    let mut handle = Handle {
        buildsys: BuildSys::new(),
    };
    let content = "x = {1\n";
    let r = execute_on(
        &mut handle,
        &s("proj"),
        Ok(s(content)),
        LfModName(s("proj")),
        &table,
        open,
        close,
    );
    assert!(r.is_ok());
    assert_eq!(handle.buildsys.files.len(), 1);
    assert_eq!(handle.buildsys.files[0].content, content);
    assert!(!handle.buildsys.diagnostics.is_empty());
    for d in &handle.buildsys.diagnostics {
        assert_eq!(d.file_id, 0);
        assert!(d.start < content.len());
        assert!(d.start + d.len <= content.len());
    }
}

#[test]
fn registration_is_atomic_across_invocations() {
    let (table, open, close) = small_table();
    let mut handle = Handle {
        buildsys: BuildSys::new(),
    };
    execute_on(
        &mut handle,
        &s("a"),
        Ok(s("{}")),
        LfModName(s("a")),
        &table,
        open,
        close,
    )
    .unwrap();
    execute_on(
        &mut handle,
        &s("b"),
        Ok(s("}")),
        LfModName(s("b")),
        &table,
        open,
        close,
    )
    .unwrap();
    assert_eq!(handle.buildsys.files.len(), 2);
    // every diagnostic of the second file resolves to its identifier
    assert!(!handle.buildsys.diagnostics.is_empty());
    assert!(handle.buildsys.diagnostics.iter().all(|d| d.file_id == 1));
}

#[test]
fn missing_file_registers_nothing() {
    let (table, open, close) = small_table();
    let mut handle = Handle {
        buildsys: BuildSys::new(),
    };
    let r = execute_on(
        &mut handle,
        &s("nodir"),
        Err(s("no such file or directory")),
        LfModName(s("nodir")),
        &table,
        open,
        close,
    );
    match r {
        Err(InterpretFailure::CannotReadFile { path, reason }) => {
            assert_eq!(path, "nodir/build.leaf");
            assert_eq!(reason, "no such file or directory");
        }
        _ => panic!("expected a read failure"),
    }
    assert_eq!(handle.buildsys.files.len(), 0);
    assert_eq!(handle.buildsys.diagnostics.len(), 0);
}

fn slot(name: &str, target: &str, c: Cardinality) -> Slot {
    Slot {
        name: s(name),
        target: s(target),
        cardinality: c,
    }
}

#[test]
fn schema_validation_accepts_well_formed() {
    let schema = Schema {
        nodes: vec![
            NodeDef {
                name: s("assignment"),
                slots: vec![
                    slot("name", "Id", Cardinality::Required),
                    slot("value", "expr", Cardinality::Optional),
                ],
            },
            NodeDef {
                name: s("expr"),
                slots: vec![slot("operand", "expr", Cardinality::Repeated)],
            },
        ],
    };
    assert!(schema.validate(&vec![s("Id"), s("Number")]).is_ok());
}

#[test]
fn schema_validation_rejects_undefined_reference() {
    let schema = Schema {
        nodes: vec![NodeDef {
            name: s("assignment"),
            slots: vec![slot("value", "expr", Cardinality::Required)],
        }],
    };
    match schema.validate(&vec![s("Id")]) {
        Err(SchemaError::UndefinedReference { node, slot, target }) => {
            assert_eq!(node, "assignment");
            assert_eq!(slot, "value");
            assert_eq!(target, "expr");
        }
        _ => panic!("expected an undefined reference"),
    }
}

#[test]
fn schema_validation_rejects_duplicate_node() {
    let schema = Schema {
        nodes: vec![
            NodeDef {
                name: s("expr"),
                slots: vec![],
            },
            NodeDef {
                name: s("expr"),
                slots: vec![],
            },
        ],
    };
    match schema.validate(&vec![]) {
        Err(SchemaError::DuplicateNode { name }) => assert_eq!(name, "expr"),
        _ => panic!("expected a duplicate"),
    }
}

#[test]
fn generator_names_follow_the_grammar() {
    let g = small_grammar();
    let wire = kind_wire_names(&g);
    assert_eq!(
        wire,
        vec!["L_BRACE", "R_BRACE", "ASSIGN", "ID", "NUMBER", "WHITESPACE"]
    );
    // pascal-case lowercases everything after the capitalized first letter
    assert_eq!(
        kind_display_names(&g),
        vec!["Lbrace", "Rbrace", "Assign", "Id", "Number", "Whitespace"]
    );
    let schema = Schema {
        nodes: vec![NodeDef {
            name: s("assignment_stmt"),
            slots: vec![],
        }],
    };
    assert_eq!(node_type_names(&schema), vec!["AssignmentStmt"]);
    assert_eq!(
        accessor_name(&slot("operand", "expr", Cardinality::Repeated)),
        "operands"
    );
    assert_eq!(
        accessor_name(&slot("value", "expr", Cardinality::Optional)),
        "value"
    );
}

#[test]
fn generator_assigns_node_kinds_after_token_kinds() {
    let g = small_grammar();
    let schema = Schema {
        nodes: vec![
            NodeDef {
                name: s("assignment"),
                slots: vec![
                    slot("name", "Id", Cardinality::Required),
                    slot("operand", "assignment", Cardinality::Repeated),
                    slot("value", "assignment", Cardinality::Optional),
                ],
            },
            NodeDef {
                name: s("expr"),
                slots: vec![],
            },
        ],
    };
    // 3 fixed + 3 regex tokens come first, then the schema nodes in order
    let tags = node_kind_tags(&g, &schema);
    let nums: Vec<u16> = tags.iter().map(|k| k.0).collect();
    assert_eq!(nums, vec![KIND_FIRST_TOKEN + 6, KIND_FIRST_TOKEN + 7]);
    assert_eq!(
        node_accessor_names(&schema.nodes[0]),
        vec!["name", "operands", "value"]
    );
}
