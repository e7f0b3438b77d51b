use pblang::error::PBError;
use pblang::lexer::{lex, Token};

// ── Helpers ───────────────────────────────────────────────────────────

/// Tokeniza `source` esperando sucesso; falha o teste se houver erros.
fn tokens_of(source: &str) -> Vec<Token> {
    lex(source)
        .unwrap_or_else(|e| panic!("lex falhou inesperadamente: {:?}", e))
        .into_iter()
        .map(|s| s.token)
        .collect()
}

/// Tokeniza `source` esperando falha; retorna os erros.
fn errors_of(source: &str) -> Vec<PBError> {
    lex(source).expect_err("lex deveria ter falhado mas não falhou")
}

// ── Palavras-chave ────────────────────────────────────────────────────

#[test]
fn test_palavras_reservadas() {
    let tokens = tokens_of("if else while print read var int bool string true false");
    assert_eq!(
        tokens,
        vec![
            Token::If,
            Token::Else,
            Token::While,
            Token::Print,
            Token::Read,
            Token::Var,
            Token::IntType,
            Token::BoolType,
            Token::StringType,
            Token::True,
            Token::False,
        ]
    );
}

#[test]
fn test_keyword_nao_e_identificador() {
    // "if" deve ser If, não Ident("if")
    assert_eq!(tokens_of("if"), vec![Token::If]);
    assert_eq!(tokens_of("while"), vec![Token::While]);
    assert_eq!(tokens_of("string"), vec![Token::StringType]);
    assert_eq!(tokens_of("var"), vec![Token::Var]);
}

#[test]
fn test_identificador_prefixado_com_keyword_e_ident() {
    // "iff" começa com "if" mas é identificador válido
    assert_eq!(tokens_of("iff"), vec![Token::Ident("iff".into())]);
    assert_eq!(
        tokens_of("whileTrue"),
        vec![Token::Ident("whileTrue".into())]
    );
    assert_eq!(tokens_of("printVal"), vec![Token::Ident("printVal".into())]);
    assert_eq!(tokens_of("variable"), vec![Token::Ident("variable".into())]);
}

// ── Identificadores ───────────────────────────────────────────────────

#[test]
fn test_identificadores_validos() {
    assert_eq!(
        tokens_of("x _y z123 camelCase _CONST"),
        vec![
            Token::Ident("x".into()),
            Token::Ident("_y".into()),
            Token::Ident("z123".into()),
            Token::Ident("camelCase".into()),
            Token::Ident("_CONST".into()),
        ]
    );
}

#[test]
fn test_identificadores_e_numeros() {
    let tokens = tokens_of("var_1 = 42;");
    assert_eq!(
        tokens,
        vec![
            Token::Ident("var_1".into()),
            Token::Assign,
            Token::Number(42),
            Token::Semicolon,
        ]
    );
}

// ── Literais inteiros ─────────────────────────────────────────────────

#[test]
fn test_literais_inteiros() {
    assert_eq!(
        tokens_of("0 42 1000 999999"),
        vec![
            Token::Number(0),
            Token::Number(42),
            Token::Number(1000),
            Token::Number(999999),
        ]
    );
}

// ── Literais string ───────────────────────────────────────────────────

#[test]
fn test_literais_string() {
    assert_eq!(
        tokens_of(r#""hello" "mundo" "123""#),
        vec![
            Token::StringLit("hello".into()),
            Token::StringLit("mundo".into()),
            Token::StringLit("123".into()),
        ]
    );
}

#[test]
fn test_string_vazia() {
    assert_eq!(tokens_of(r#""""#), vec![Token::StringLit("".into())]);
}

#[test]
fn test_string_com_espacos() {
    assert_eq!(
        tokens_of(r#""olá mundo""#),
        vec![Token::StringLit("olá mundo".into())]
    );
}

#[test]
fn test_string_com_quebra_de_linha_e_invalida() {
    // String que cruza uma quebra de linha não deve ser reconhecida
    let resultado = lex("\"abc\ndef\"");
    assert!(
        resultado.is_err(),
        "string multiline deveria produzir erro léxico"
    );
}

// ── Operadores ────────────────────────────────────────────────────────

#[test]
fn test_operadores_dois_chars() {
    assert_eq!(
        tokens_of("== != <= >= && ||"),
        vec![
            Token::Eq,
            Token::Neq,
            Token::Le,
            Token::Ge,
            Token::And,
            Token::Or
        ]
    );
}

#[test]
fn test_operadores_um_char() {
    assert_eq!(
        tokens_of("+ - * / % < > !"),
        vec![
            Token::Plus,
            Token::Minus,
            Token::Star,
            Token::Slash,
            Token::Mod,
            Token::Lt,
            Token::Gt,
            Token::Not,
        ]
    );
}

#[test]
fn test_assign_distinto_de_igualdade() {
    // `=` é atribuição; `==` é comparação; nunca devem se confundir
    let toks = tokens_of("x = 1 ; x == 1");
    assert_eq!(toks[1], Token::Assign, "= deve ser Assign");
    assert_eq!(toks[5], Token::Eq, "== deve ser Eq");
}

#[test]
fn test_gt_com_espaco_antes_de_assign_nao_e_ge() {
    // `> =` com espaço NÃO é `>=`
    assert_eq!(tokens_of("> ="), vec![Token::Gt, Token::Assign]);
}

// ── Pontuação e delimitadores ─────────────────────────────────────────

#[test]
fn test_pontuacao_completa() {
    assert_eq!(
        tokens_of("; : ( ) { } ="),
        vec![
            Token::Semicolon,
            Token::Colon,
            Token::LParen,
            Token::RParen,
            Token::LBrace,
            Token::RBrace,
            Token::Assign,
        ]
    );
}

// ── Comentários e espaços ─────────────────────────────────────────────

#[test]
fn test_comentarios_e_espacos_ignorados() {
    let codigo = "10 // comentario ignorado \n 20";
    assert_eq!(
        tokens_of(codigo),
        vec![Token::Number(10), Token::Number(20)]
    );
}

#[test]
fn test_comentario_no_fim_sem_newline() {
    assert_eq!(tokens_of("42 // fim"), vec![Token::Number(42)]);
}

#[test]
fn test_tabs_e_newlines_ignorados() {
    assert_eq!(
        tokens_of("var\t\tx\n:\nint  ;"),
        vec![
            Token::Var,
            Token::Ident("x".into()),
            Token::Colon,
            Token::IntType,
            Token::Semicolon
        ]
    );
}

// ── Localização (linha/coluna) ────────────────────────────────────────

#[test]
fn test_linha_e_coluna_corretos() {
    let src = "var x : int ;\ny = 42 ;";
    let spanned = lex(src).unwrap();

    // var  → linha 1, col 1
    assert_eq!((spanned[0].line, spanned[0].col), (1, 1), "var");
    // x    → linha 1, col 5
    assert_eq!((spanned[1].line, spanned[1].col), (1, 5), "x");
    // y    → linha 2, col 1
    assert_eq!((spanned[5].line, spanned[5].col), (2, 1), "y");
    // =    → linha 2, col 3
    assert_eq!((spanned[6].line, spanned[6].col), (2, 3), "=");
    // 42   → linha 2, col 5
    assert_eq!((spanned[7].line, spanned[7].col), (2, 5), "42");
}

// ── Casos de erro ─────────────────────────────────────────────────────

#[test]
fn test_caractere_invalido() {
    // '@' não pertence ao alfabeto da linguagem
    let errs = errors_of("int x = 10 @ 5;");
    assert_eq!(errs.len(), 1);
    match &errs[0] {
        PBError::Lexical { message, .. } => assert!(message.contains('@')),
        _ => panic!("esperado PBError::Lexical"),
    }
}

#[test]
fn test_erro_tem_posicao_correta() {
    // '@' está na linha 2, coluna 5 ("    @")
    let errs = errors_of("var x\n    @ int ;");
    assert_eq!(errs.len(), 1);
    match &errs[0] {
        PBError::Lexical { line, col, .. } => {
            assert_eq!(*line, 2, "linha errada");
            assert_eq!(*col, 5, "coluna errada");
        }
        _ => panic!("esperado PBError::Lexical"),
    }
}

#[test]
fn lexer_test_multiplos_erros_acumulados() {
    // Todos os três caracteres inválidos devem ser reportados de uma vez
    let errs = errors_of("@ # $");
    assert_eq!(
        errs.len(),
        3,
        "esperados 3 erros, encontrados {}",
        errs.len()
    );
}

// ── Programas completos ───────────────────────────────────────────────

#[test]
fn lexer_test_programa_fatorial() {
    let src = r#"
        var n         : int;
        var resultado : int;
        // lê n do usuário
        read(n);
        resultado = 1;
        while (n > 1) {
            resultado = resultado * n;
            n = n - 1;
        }
        print(resultado);
    "#;
    let toks = tokens_of(src);
    assert!(toks.contains(&Token::Var));
    assert!(toks.contains(&Token::While));
    assert!(toks.contains(&Token::Print));
    assert!(toks.contains(&Token::Read));
    assert!(toks.contains(&Token::Star));
    assert!(toks.contains(&Token::Gt));
    assert!(toks.contains(&Token::Number(1)));
    assert!(toks.contains(&Token::IntType));
}

#[test]
fn test_programa_if_else() {
    let src = r#"
        var x   : int;
        var par : bool;
        read(x);
        if (x == 0) {
            par = true;
        } else {
            par = false;
        }
        print(par);
    "#;
    let toks = tokens_of(src);
    assert!(toks.contains(&Token::If));
    assert!(toks.contains(&Token::Else));
    assert!(toks.contains(&Token::True));
    assert!(toks.contains(&Token::False));
    assert!(toks.contains(&Token::Eq));
    assert!(toks.contains(&Token::BoolType));
}

#[test]
fn lexer_test_programa_com_strings() {
    let src = r#"
        var nome     : string;
        var saudacao : string;
        read(nome);
        saudacao = "Olá, ";
        print(saudacao);
    "#;
    let toks = tokens_of(src);
    assert!(toks.contains(&Token::StringType));
    assert!(toks.contains(&Token::StringLit("Olá, ".into())));
    assert!(toks.contains(&Token::Read));
    assert!(toks.contains(&Token::Print));
}

#[test]
fn test_programa_expressoes_logicas() {
    let src = "if (x > 0 && y < 10 || !flag) { x = 1; }";
    let toks = tokens_of(src);
    assert!(toks.contains(&Token::And));
    assert!(toks.contains(&Token::Or));
    assert!(toks.contains(&Token::Not));
    assert!(toks.contains(&Token::Gt));
    assert!(toks.contains(&Token::Lt));
}

#[test]
fn test_programa_com_erro_lexico() {
    let src = r#"
        var x : int;
        x = 10 @ 5;
        print(x#);
    "#;
    let errs = errors_of(src);
    // Dois caracteres inválidos: '@' e '#'
    assert_eq!(errs.len(), 2, "esperados 2 erros léxicos");
    assert!(errs.iter().all(|e| matches!(e, PBError::Lexical { .. })));
}
