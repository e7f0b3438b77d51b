use pblang::ast::{Comando, Expressao, OpBin, OpUn, Programa, Tipo};
use pblang::error::PBError;
use pblang::lexer;
use pblang::parser::parse;

/// Executa lexer + parser sobre `src`, esperando sucesso.
fn parse_ok(src: &str) -> Programa {
    let tokens = lexer::lex(src)
        .unwrap_or_else(|e| panic!("erro léxico inesperado: {:?}", e));
    parse(tokens)
        .unwrap_or_else(|e| panic!("erro sintático inesperado: {:?}", e))
}

/// Executa lexer + parser sobre `src`, esperando falha sintática.
fn parse_err(src: &str) -> Vec<PBError> {
    let tokens = lexer::lex(src)
        .unwrap_or_else(|e| panic!("erro léxico inesperado: {:?}", e));
    parse(tokens).expect_err("parse deveria ter falhado")
}

// ── Declarações ───────────────────────────────────────────────────────

#[test]
fn test_declaracao_int() {
    let prog = parse_ok("var x : int;");
    assert_eq!(prog.declaracoes.len(), 1);
    assert_eq!(prog.declaracoes[0].nome, "x");
    assert_eq!(prog.declaracoes[0].tipo, Tipo::Int);
}

#[test]
fn test_declaracao_bool() {
    let prog = parse_ok("var flag : bool;");
    assert_eq!(prog.declaracoes[0].tipo, Tipo::Bool);
}

#[test]
fn test_declaracao_string() {
    let prog = parse_ok("var nome : string;");
    assert_eq!(prog.declaracoes[0].tipo, Tipo::String);
}

#[test]
fn test_multiplas_declaracoes() {
    let prog = parse_ok("var a : int; var b : bool; var c : string;");
    assert_eq!(prog.declaracoes.len(), 3);
}

// ── Atribuição ────────────────────────────────────────────────────────

#[test]
fn test_atribuicao_literal_int() {
    let prog = parse_ok("var x : int; x = 42;");
    assert!(matches!(&prog.comandos[0],
        Comando::Atribuicao { nome, expr: Expressao::LitInt(42, _), .. }
        if nome == "x"
    ));
}

#[test]
fn test_atribuicao_literal_bool() {
    let prog = parse_ok("var b : bool; b = true;");
    assert!(matches!(&prog.comandos[0],
        Comando::Atribuicao { expr: Expressao::LitBool(true, _), .. }
    ));
}

#[test]
fn test_atribuicao_literal_string() {
    let prog = parse_ok(r#"var s : string; s = "olá";"#);
    assert!(matches!(&prog.comandos[0],
        Comando::Atribuicao { expr: Expressao::LitString(s, _), .. }
        if s == "olá"
    ));
}

// ── Estruturas de controle ────────────────────────────────────────────

#[test]
fn test_if_simples() {
    let prog = parse_ok("var x : int; if (x > 0) { x = 1; }");
    assert!(matches!(&prog.comandos[0],
        Comando::If { senao: None, .. }
    ));
}

#[test]
fn test_if_else() {
    let prog = parse_ok("var x : int; if (x > 0) { x = 1; } else { x = 0; }");
    assert!(matches!(&prog.comandos[0],
        Comando::If { senao: Some(_), .. }
    ));
}

#[test]
fn test_while() {
    let prog = parse_ok("var n : int; while (n > 0) { n = n - 1; }");
    assert!(matches!(&prog.comandos[0], Comando::While { .. }));
}

#[test]
fn test_print() {
    let prog = parse_ok("var x : int; print(x);");
    assert!(matches!(&prog.comandos[0], Comando::Print { .. }));
}

#[test]
fn test_read() {
    let prog = parse_ok("var x : int; read(x);");
    assert!(matches!(&prog.comandos[0],
        Comando::Read { nome, .. } if nome == "x"
    ));
}

// ── Expressões e precedência ──────────────────────────────────────────

#[test]
fn test_precedencia_multiplicacao_antes_de_adicao() {
    // 2 + 3 * 4 deve ser parseado como 2 + (3 * 4)
    let prog = parse_ok("var x : int; x = 2 + 3 * 4;");
    let Comando::Atribuicao { expr, .. } = &prog.comandos[0] else { panic!() };

    // raiz deve ser Add
    let Expressao::BinOp { op: OpBin::Add, dir, .. } = expr else {
        panic!("raiz deveria ser Add, obteve: {:?}", expr)
    };
    // direito de Add deve ser Mul
    assert!(matches!(dir.as_ref(), Expressao::BinOp { op: OpBin::Mul, .. }),
        "direito de Add deveria ser Mul");
}

#[test]
fn test_precedencia_parenteses_sobrepoe_multiplicacao() {
    // (2 + 3) * 4 — Add deve ser filho esquerdo de Mul
    let prog = parse_ok("var x : int; x = (2 + 3) * 4;");
    let Comando::Atribuicao { expr, .. } = &prog.comandos[0] else { panic!() };

    let Expressao::BinOp { op: OpBin::Mul, esq, .. } = expr else {
        panic!("raiz deveria ser Mul")
    };
    assert!(matches!(esq.as_ref(), Expressao::BinOp { op: OpBin::Add, .. }));
}

#[test]
fn test_precedencia_and_antes_de_or() {
    // a || b && c → a || (b && c)
    let prog = parse_ok("var x : bool; x = true || false && true;");
    let Comando::Atribuicao { expr, .. } = &prog.comandos[0] else { panic!() };

    let Expressao::BinOp { op: OpBin::Or, dir, .. } = expr else {
        panic!("raiz deveria ser Or")
    };
    assert!(matches!(dir.as_ref(), Expressao::BinOp { op: OpBin::And, .. }));
}

#[test]
fn test_unario_negacao() {
    let prog = parse_ok("var x : int; x = -42;");
    let Comando::Atribuicao { expr, .. } = &prog.comandos[0] else { panic!() };
    assert!(matches!(expr, Expressao::UnOp { op: OpUn::Neg, .. }));
}

#[test]
fn test_unario_not() {
    let prog = parse_ok("var b : bool; b = !true;");
    let Comando::Atribuicao { expr, .. } = &prog.comandos[0] else { panic!() };
    assert!(matches!(expr, Expressao::UnOp { op: OpUn::Not, .. }));
}

// ── Programas completos ───────────────────────────────────────────────

#[test]
fn parser_test_programa_fatorial() {
    let src = r#"
        var n         : int;
        var resultado : int;
        read(n);
        resultado = 1;
        while (n > 1) {
            resultado = resultado * n;
            n = n - 1;
        }
        print(resultado);
    "#;
    let prog = parse_ok(src);
    assert_eq!(prog.declaracoes.len(), 2);
    assert_eq!(prog.comandos.len(), 4); // read, atrib, while, print
}

#[test]
fn test_programa_if_else_completo() {
    let src = r#"
        var x   : int;
        var par : bool;
        read(x);
        par = false;
        if (x == 0) {
            par = true;
        } else {
            par = false;
        }
        print(par);
    "#;
    let prog = parse_ok(src);
    assert_eq!(prog.declaracoes.len(), 2);
    assert_eq!(prog.comandos.len(), 4); // read, atrib, if, print
    assert!(matches!(&prog.comandos[2], Comando::If { senao: Some(_), .. }));
}

#[test]
fn parser_test_programa_com_strings() {
    let src = r#"
        var nome     : string;
        var saudacao : string;
        read(nome);
        saudacao = "Olá";
        print(saudacao);
    "#;
    let prog = parse_ok(src);
    assert_eq!(prog.declaracoes.len(), 2);
    assert_eq!(prog.comandos.len(), 3);
}

#[test]
fn test_programa_expressoes_aninhadas() {
    let src = r#"
        var a : int;
        var b : int;
        var c : bool;
        read(a);
        read(b);
        c = (a + b) * 2 > 10 && b != 0;
        print(c);
    "#;
    let prog = parse_ok(src);
    assert_eq!(prog.declaracoes.len(), 3);
}

#[test]
fn test_programa_while_aninhado() {
    let src = r#"
        var i : int;
        var j : int;
        i = 0;
        while (i < 3) {
            j = 0;
            while (j < 3) {
                j = j + 1;
            }
            i = i + 1;
        }
    "#;
    let prog = parse_ok(src);
    // O programa tem exatamente 2 comandos: i=0 (índice 0) e while (índice 1)
    assert_eq!(prog.comandos.len(), 2);
    assert!(matches!(&prog.comandos[1], Comando::While { .. }));
}

// ── Erros sintáticos ──────────────────────────────────────────────────

#[test]
fn test_erro_falta_ponto_e_virgula() {
    // `x = 1` sem `;` — deve reportar erro
    let errs = parse_err("var x : int; x = 1");
    assert!(!errs.is_empty());
    assert!(errs.iter().any(|e| matches!(e, PBError::Syntactic { .. })));
}

#[test]
fn test_erro_falta_fecha_paren_no_if() {
    let errs = parse_err("var x : int; if (x > 0 { x = 1; }");
    assert!(errs.iter().any(|e| matches!(e, PBError::Syntactic { .. })));
}

#[test]
fn test_erro_tipo_invalido() {
    let errs = parse_err("var x : float;");
    assert!(errs.iter().any(|e| {
        matches!(e, PBError::Syntactic { message, .. } if message.contains("tipo"))
    }));
}

#[test]
fn parse_assignment_cut_off_at_end_of_input_is_syntax_error() {
    let errs = parse_err("var x : int; x =");
    assert!(!errs.is_empty());
    assert!(errs.iter().all(|e| matches!(e, PBError::Syntactic { .. })));
    assert!(errs.iter().any(|e| matches!(
        e,
        PBError::Syntactic { message, .. } if message == "Expressão inválida: encontrado fim de arquivo"
    )), "{:?}", errs);
}

#[test]
fn parse_print_cut_off_at_end_of_input_is_syntax_error() {
    let errs = parse_err("print(");
    assert!(!errs.is_empty());
    assert!(errs.iter().all(|e| matches!(e, PBError::Syntactic { .. })));
    assert!(errs.iter().any(|e| matches!(
        e,
        PBError::Syntactic { message, .. } if message.contains("fim de arquivo")
    )), "{:?}", errs);
}
