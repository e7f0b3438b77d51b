use pblang::ast::{Comando, Expressao, OpBin, Span, Tipo};
use pblang::error::PBError;
use pblang::lexer::{lex, Token};
use pblang::parser::parse;
use pblang::semantic::verificar;
use pblang::symbol_table::TabelaDeSimbolos;
use pblang::texto::{decimal, decimal_alinhado3};

// ── Lexer ─────────────────────────────────────────────────────────────

#[test]
fn lexer_identifier_is_never_a_reserved_word() {
    let toks = lex("var varx whilex if_ _if").unwrap();
    let kinds: Vec<Token> = toks.iter().map(|t| t.token.clone()).collect();
    assert_eq!(
        kinds,
        vec![
            Token::Var,
            Token::Ident("varx".into()),
            Token::Ident("whilex".into()),
            Token::Ident("if_".into()),
            Token::Ident("_if".into()),
        ]
    );
    for t in &toks[1..] {
        assert_eq!(t.token, Token::Ident(t.lexeme.clone()));
    }
}

#[test]
fn lexer_errors_are_lexical_with_line_and_column() {
    let errs = lex("x @ y\n  $").unwrap_err();
    assert_eq!(errs.len(), 2);
    assert_eq!(
        errs[0],
        PBError::Lexical { message: "Caractere inesperado: '@'".into(), line: 1, col: 3 }
    );
    assert_eq!(
        errs[1],
        PBError::Lexical { message: "Caractere inesperado: '$'".into(), line: 2, col: 3 }
    );
}

#[test]
fn lexer_number_too_large_is_one_error_over_the_digits() {
    let errs = lex("x = 99999999999999999999;").unwrap_err();
    assert_eq!(
        errs,
        vec![PBError::Lexical {
            message: "Caractere inesperado: '99999999999999999999'".into(),
            line: 1,
            col: 5
        }]
    );
}

#[test]
fn lexer_largest_number_fits() {
    let toks = lex("9223372036854775807").unwrap();
    assert_eq!(toks[0].token, Token::Number(i64::MAX));
}

#[test]
fn lexer_unclosed_string_runs_to_the_line_break() {
    let errs = lex("\"abc\nx").unwrap_err();
    assert_eq!(
        errs,
        vec![PBError::Lexical { message: "Caractere inesperado: '\"abc'".into(), line: 1, col: 1 }]
    );
}

#[test]
fn lexer_lone_ampersand_and_bar_are_errors() {
    let errs = lex("a & b | c").unwrap_err();
    assert_eq!(errs.len(), 2);
    assert!(matches!(&errs[0], PBError::Lexical { message, col: 3, .. } if message == "Caractere inesperado: '&'"));
    assert!(matches!(&errs[1], PBError::Lexical { message, col: 7, .. } if message == "Caractere inesperado: '|'"));
}

#[test]
fn lexer_two_character_operators_win() {
    let toks: Vec<Token> = lex("<= >= == != && || < > = !").unwrap().into_iter().map(|t| t.token).collect();
    assert_eq!(
        toks,
        vec![
            Token::Le,
            Token::Ge,
            Token::Eq,
            Token::Neq,
            Token::And,
            Token::Or,
            Token::Lt,
            Token::Gt,
            Token::Assign,
            Token::Not,
        ]
    );
}

#[test]
fn lexer_columns_count_bytes() {
    let toks = lex("\"á\" x").unwrap();
    assert_eq!(toks[0].token, Token::StringLit("á".into()));
    assert_eq!((toks[1].line, toks[1].col), (1, 6));
}

#[test]
fn lexer_comment_and_blanks_make_no_tokens() {
    assert!(lex("  // só um comentário\n\t\r\n").unwrap().is_empty());
    assert!(lex("").unwrap().is_empty());
}

// ── Parser ────────────────────────────────────────────────────────────

#[test]
fn parser_errors_are_syntactic() {
    let errs = parse(lex("var x int; x = ; print(;").unwrap()).unwrap_err();
    assert!(errs.len() >= 2);
    assert!(errs.iter().all(|e| matches!(e, PBError::Syntactic { .. })));
}

#[test]
fn parser_binary_operators_group_to_the_left() {
    let prog = parse(lex("x = a - b - c;").unwrap()).unwrap();
    match &prog.comandos[0] {
        Comando::Atribuicao { expr: Expressao::BinOp { op: OpBin::Sub, esq, dir, .. }, .. } => {
            assert!(matches!(**esq, Expressao::BinOp { op: OpBin::Sub, .. }));
            assert!(matches!(**dir, Expressao::Var(ref n, _) if n == "c"));
        }
        outro => panic!("inesperado: {:?}", outro),
    }
}

#[test]
fn parser_multiplication_binds_tighter_than_addition() {
    let prog = parse(lex("x = a + b * c;").unwrap()).unwrap();
    match &prog.comandos[0] {
        Comando::Atribuicao { expr: Expressao::BinOp { op: OpBin::Add, esq, dir, .. }, .. } => {
            assert!(matches!(**esq, Expressao::Var(ref n, _) if n == "a"));
            assert!(matches!(**dir, Expressao::BinOp { op: OpBin::Mul, .. }));
        }
        outro => panic!("inesperado: {:?}", outro),
    }
}

#[test]
fn parser_missing_semicolon_message() {
    let errs = parse(lex("var x : int\nx = 1;").unwrap()).unwrap_err();
    assert_eq!(
        errs[0],
        PBError::Syntactic { message: "Esperado ';', encontrado 'identificador'".into(), line: 2, col: 1 }
    );
}

#[test]
fn parser_end_of_input_is_named() {
    let errs = parse(lex("print(1)").unwrap()).unwrap_err();
    assert!(matches!(&errs[0], PBError::Syntactic { message, .. } if message == "Esperado ';', encontrado fim de arquivo"));
}

// ── Semantic analysis ─────────────────────────────────────────────────

#[test]
fn semantic_errors_are_semantic() {
    let prog = parse(lex("var x : int; var x : bool; y = 1; x = true; read(b); if (1) { }").unwrap()).unwrap();
    let errs = verificar(&prog).unwrap_err();
    assert!(errs.len() >= 4);
    assert!(errs.iter().all(|e| matches!(e, PBError::Semantic { .. })));
}

#[test]
fn semantic_redeclaration_names_the_first_declaration() {
    let prog = parse(lex("var x : int;\n  var x : bool;").unwrap()).unwrap();
    let errs = verificar(&prog).unwrap_err();
    assert_eq!(
        errs,
        vec![PBError::Semantic {
            message: "Variável 'x' já foi declarada (declaração original na linha 1, coluna 5)".into(),
            line: 2,
            col: 7
        }]
    );
}

#[test]
fn semantic_accepts_exactly_the_valid_program() {
    let prog = parse(lex("var s : string; var b : bool; s = \"a\" + \"b\"; b = s == \"ab\"; print(b);").unwrap()).unwrap();
    let tabela = verificar(&prog).unwrap();
    assert_eq!(tabela.consultar("s", &Span::new(1, 1)), Ok(&Tipo::String));
    assert_eq!(tabela.consultar("b", &Span::new(1, 1)), Ok(&Tipo::Bool));
}

// ── Symbol table ──────────────────────────────────────────────────────

#[test]
fn symbol_table_declare_then_lookup() {
    let mut t = TabelaDeSimbolos::new();
    assert_eq!(t.declarar("x", Tipo::Int, &Span::new(1, 5)), Ok(()));
    assert_eq!(t.consultar("x", &Span::new(2, 1)), Ok(&Tipo::Int));
    assert_eq!(
        t.declarar("x", Tipo::Bool, &Span::new(3, 5)),
        Err(PBError::Semantic {
            message: "Variável 'x' já foi declarada (declaração original na linha 1, coluna 5)".into(),
            line: 3,
            col: 5
        })
    );
    // the table is unchanged by the refused declaration
    assert_eq!(t.consultar("x", &Span::new(4, 1)), Ok(&Tipo::Int));
    assert_eq!(
        t.consultar("y", &Span::new(4, 2)),
        Err(PBError::Semantic { message: "Variável 'y' usada antes de ser declarada".into(), line: 4, col: 2 })
    );
}

#[test]
fn symbol_table_default_is_empty() {
    let t = TabelaDeSimbolos::default();
    assert!(t.consultar("x", &Span::new(1, 1)).is_err());
}

// ── Error text ────────────────────────────────────────────────────────

#[test]
fn error_text_of_each_phase() {
    let l = PBError::Lexical { message: "Caractere inesperado: '@'".into(), line: 3, col: 7 };
    let s = PBError::Syntactic { message: "Esperado ';', encontrado '}'".into(), line: 5, col: 12 };
    let m = PBError::Semantic { message: "Variável 'x' usada antes de ser declarada".into(), line: 1234, col: 9 };
    assert_eq!(l.formatar(), "[ERRO LÉXICO]    Linha   3, Col   7  Caractere inesperado: '@'");
    assert_eq!(s.formatar(), "[ERRO SINTÁTICO] Linha   5, Col  12  Esperado ';', encontrado '}'");
    assert_eq!(m.formatar(), "[ERRO SEMÂNTICO] Linha 1234, Col   9  Variável 'x' usada antes de ser declarada");
}

#[test]
fn decimal_text() {
    assert_eq!(decimal(0), "0");
    assert_eq!(decimal(7), "7");
    assert_eq!(decimal(1234567890), "1234567890");
    assert_eq!(decimal_alinhado3(5), "  5");
    assert_eq!(decimal_alinhado3(42), " 42");
    assert_eq!(decimal_alinhado3(999), "999");
    assert_eq!(decimal_alinhado3(1000), "1000");
}

#[test]
fn lexer_positions_increase_and_lexemes_are_slices() {
    let src = "var x : int;\nx = 10 + 2;\n  print(x >= 3);";
    let toks = lex(src).unwrap();
    for w in toks.windows(2) {
        assert!((w[0].line, w[0].col) < (w[1].line, w[1].col), "{:?}", w);
    }
    let mut desde = 0;
    for t in &toks {
        let i = src[desde..].find(t.lexeme.as_str()).unwrap() + desde;
        assert!(!t.lexeme.is_empty());
        assert_eq!(&src[i..i + t.lexeme.len()], t.lexeme);
        desde = i + t.lexeme.len();
    }
    assert_eq!((toks[5].line, toks[5].col), (2, 1));
    assert_eq!((toks[11].line, toks[11].col), (3, 3));
}

#[test]
fn lexer_relexing_a_token_gives_it_back() {
    let src = r#"var s : string; s = "a b"; if (x == 12 && !y || z <= 3) { print(s / 2 % 4); } while_1 >= -7"#;
    for t in lex(src).unwrap() {
        let again = lex(&t.lexeme).unwrap();
        assert_eq!(again.len(), 1, "{:?}", t);
        assert_eq!(again[0].token, t.token);
        assert_eq!(again[0].lexeme, t.lexeme);
        assert_eq!((again[0].line, again[0].col), (1, 1));
    }
}

#[test]
fn lexer_text_after_a_line_break_is_read_with_its_lines_moved() {
    let a = "var x : int;\nx = 1 // fim";
    let b = "  print(x);\nread(x) @";
    let juntos = format!("{}\n{}", a, b);
    let ta = lex(a).unwrap();
    let tb = lex(b.split('@').next().unwrap()).unwrap();
    let tj = lex(juntos.split('@').next().unwrap()).unwrap();
    assert_eq!(tj.len(), ta.len() + tb.len());
    for (x, y) in tj.iter().zip(ta.iter()) {
        assert_eq!((&x.token, &x.lexeme, x.line, x.col), (&y.token, &y.lexeme, y.line, y.col));
    }
    for (x, y) in tj[ta.len()..].iter().zip(tb.iter()) {
        assert_eq!((&x.token, &x.lexeme, x.line, x.col), (&y.token, &y.lexeme, y.line + 2, y.col));
    }
    // the errors move down too
    let ej = lex(&juntos).unwrap_err();
    let eb = lex(b).unwrap_err();
    assert_eq!(ej.len(), eb.len());
    match (&ej[0], &eb[0]) {
        (PBError::Lexical { line: l1, col: c1, .. }, PBError::Lexical { line: l2, col: c2, .. }) => {
            assert_eq!((*l1, *c1), (*l2 + 2, *c2));
        }
        _ => panic!("esperado erro léxico"),
    }
}

#[test]
fn semantic_binary_operator_errors_are_at_the_operator() {
    let prog = parse(lex("var x : int;\nx = true - \"s\";").unwrap()).unwrap();
    let errs = verificar(&prog).unwrap_err();
    assert_eq!(
        errs,
        vec![
            PBError::Semantic {
                message: "Operador '-' requer 'int' à esquerda, obteve 'bool'".into(),
                line: 2,
                col: 10,
            },
            PBError::Semantic {
                message: "Operador '-' requer 'int' à direita, obteve 'string'".into(),
                line: 2,
                col: 10,
            },
        ]
    );
}

#[test]
fn semantic_unary_mismatch_is_one_error() {
    let prog = parse(lex("var b : bool; b = -true;").unwrap()).unwrap();
    let errs = verificar(&prog).unwrap_err();
    assert_eq!(
        errs,
        vec![PBError::Semantic {
            message: "Operador '-' (negação) requer 'int', obteve 'bool'".into(),
            line: 1,
            col: 19,
        }]
    );
}

#[test]
fn lexer_kind_name_of_a_plain_token_is_its_spelling() {
    let kinds = vec![
        Token::Var, Token::If, Token::Else, Token::While, Token::Print, Token::Read, Token::IntType,
        Token::BoolType, Token::StringType, Token::True, Token::False, Token::Eq, Token::Neq, Token::Le,
        Token::Ge, Token::And, Token::Or, Token::Assign, Token::Plus, Token::Minus, Token::Star, Token::Slash,
        Token::Mod, Token::Lt, Token::Gt, Token::Not, Token::Semicolon, Token::Colon, Token::LParen,
        Token::RParen, Token::LBrace, Token::RBrace,
    ];
    for t in kinds {
        let toks = lex(t.kind_name()).unwrap();
        assert_eq!(toks.len(), 1, "{:?}", t);
        assert_eq!(toks[0].token, t);
        assert_eq!(toks[0].lexeme, t.kind_name());
        assert_eq!((toks[0].line, toks[0].col), (1, 1));
    }
}

#[test]
fn lexer_every_unrecognised_slice_is_one_error_in_order() {
    let errs = lex("x @ y\n  # z // @ num comentario\n$").unwrap_err();
    let lugares: Vec<(String, usize, usize)> = errs
        .iter()
        .map(|e| match e {
            PBError::Lexical { message, line, col } => (message.clone(), *line, *col),
            _ => panic!("esperado erro léxico"),
        })
        .collect();
    assert_eq!(
        lugares,
        vec![
            ("Caractere inesperado: '@'".to_string(), 1, 3),
            ("Caractere inesperado: '#'".to_string(), 2, 3),
            ("Caractere inesperado: '$'".to_string(), 3, 1),
        ]
    );
    assert!(lex("x y\n  // só comentário @ #\n\t z").is_ok());
}

#[test]
fn lexer_line_and_column_count_breaks_and_bytes() {
    let toks = lex("ab\ncd é x").unwrap_err();
    assert!(matches!(toks[0], PBError::Lexical { line: 2, col: 4, .. }), "{:?}", toks);
    let toks = lex("ab\ncd\n\"é\" x").unwrap();
    let x = toks.last().unwrap();
    assert_eq!((x.line, x.col), (3, 6));
}

#[test]
fn semantic_undeclared_assignment_is_one_error() {
    let prog = parse(lex("x = 1 + true;").unwrap()).unwrap();
    let errs = verificar(&prog).unwrap_err();
    assert_eq!(errs.len(), 1, "{:?}", errs);
    assert!(matches!(&errs[0], PBError::Semantic { message, line: 1, col: 1 } if message.contains("usada antes de ser declarada")));
}
