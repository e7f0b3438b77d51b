use pblang::error::PBError;
use pblang::semantic::verificar;
use pblang::symbol_table::TabelaDeSimbolos;
use pblang::{lexer, parser};

// ── Helpers ───────────────────────────────────────────────────────────

fn analisar_ok(src: &str) -> TabelaDeSimbolos {
    let tokens = lexer::lex(src).expect("erro léxico inesperado");
    let ast    = parser::parse(tokens).expect("erro sintático inesperado");
    verificar(&ast).unwrap_or_else(|e| panic!("erro semântico inesperado: {:#?}", e))
}

fn analisar_err(src: &str) -> Vec<PBError> {
    let tokens = lexer::lex(src).expect("erro léxico inesperado");
    let ast    = parser::parse(tokens).expect("erro sintático inesperado");
    verificar(&ast).expect_err("verificação deveria ter falhado")
}

// ── Escopo e declaração ───────────────────────────────────────────────

#[test]
fn test_declaracao_valida() {
    analisar_ok("var x : int; var b : bool; var s : string;");
}

#[test]
fn test_uso_de_variavel_nao_declarada() {
    let errs = analisar_err("x = 10;");
    assert!(errs.iter().any(|e| matches!(e,
        PBError::Semantic { message, .. } if message.contains("'x'")
    )));
}

#[test]
fn test_redeclaracao_e_erro() {
    let errs = analisar_err("var x : int; var x : bool;");
    assert!(errs.iter().any(|e| matches!(e,
        PBError::Semantic { message, .. } if message.contains("já foi declarada")
    )));
}

#[test]
fn test_variavel_usada_na_expressao_sem_declaracao() {
    let errs = analisar_err("var x : int; x = y + 1;");
    assert!(errs.iter().any(|e| matches!(e,
        PBError::Semantic { message, .. } if message.contains("'y'")
    )));
}

// ── Atribuição ────────────────────────────────────────────────────────

#[test]
fn test_atribuicao_tipo_correto_int() {
    analisar_ok("var x : int; x = 42;");
}

#[test]
fn test_atribuicao_tipo_correto_bool() {
    analisar_ok("var b : bool; b = true;");
}

#[test]
fn test_atribuicao_tipo_correto_string() {
    analisar_ok(r#"var s : string; s = "hello";"#);
}

#[test]
fn test_atribuicao_tipo_errado_int_recebe_bool() {
    let errs = analisar_err("var x : int; x = true;");
    assert!(errs.iter().any(|e| matches!(e,
        PBError::Semantic { message, .. }
        if message.contains("'x'") && message.contains("'int'") && message.contains("'bool'")
    )));
}

#[test]
fn test_atribuicao_tipo_errado_bool_recebe_int() {
    let errs = analisar_err("var b : bool; b = 1;");
    assert!(errs.iter().any(|e| matches!(e,
        PBError::Semantic { message, .. }
        if message.contains("'bool'") && message.contains("'int'")
    )));
}

#[test]
fn test_atribuicao_tipo_errado_string_recebe_int() {
    let errs = analisar_err(r#"var s : string; s = 42;"#);
    assert!(errs.iter().any(|e| matches!(e,
        PBError::Semantic { message, .. }
        if message.contains("'string'") && message.contains("'int'")
    )));
}

// ── Operações aritméticas ─────────────────────────────────────────────

#[test]
fn test_aritmetica_int_valida() {
    analisar_ok("var x : int; x = 2 + 3 * 4 - 1 / 2 % 3;");
}

#[test]
fn test_aritmetica_com_bool_e_erro() {
    let errs = analisar_err("var x : int; x = 1 + true;");
    assert!(errs.iter().any(|e| matches!(e,
        PBError::Semantic { message, .. } if message.contains("'+'")
    )));
}

#[test]
fn test_subtracao_com_string_e_erro() {
    let errs = analisar_err(r#"var x : int; var s : string; s = "a"; x = x - s;"#);
    assert!(errs.iter().any(|e| matches!(e,
        PBError::Semantic { message, .. } if message.contains("'-'")
    )));
}

#[test]
fn test_negacao_unaria_int_valida() {
    analisar_ok("var x : int; x = -42;");
}

#[test]
fn test_negacao_unaria_bool_e_erro() {
    let errs = analisar_err("var x : int; x = -true;");
    assert!(errs.iter().any(|e| matches!(e,
        PBError::Semantic { message, .. } if message.contains("negação")
    )));
}

// ── Concatenação de strings ───────────────────────────────────────────

#[test]
fn test_concatenacao_string_valida() {
    analisar_ok(r#"var s : string; var t : string; t = "a"; s = t + "b";"#);
}

#[test]
fn test_adicao_int_com_string_e_erro() {
    let errs = analisar_err(r#"var x : int; var s : string; s = "a"; x = x + s;"#);
    assert!(errs.iter().any(|e| matches!(e,
        PBError::Semantic { message, .. } if message.contains("'+'")
    )));
}

// ── Operações relacionais ─────────────────────────────────────────────

#[test]
fn test_relacional_int_valido() {
    analisar_ok("var b : bool; var x : int; b = x > 0;");
}

#[test]
fn test_relacional_com_bool_e_erro() {
    let errs = analisar_err("var b : bool; b = true > false;");
    assert!(errs.iter().any(|e| matches!(e,
        PBError::Semantic { message, .. } if message.contains("'>'")
    )));
}

// ── Igualdade ─────────────────────────────────────────────────────────

#[test]
fn test_igualdade_int_valida() {
    analisar_ok("var b : bool; var x : int; b = x == 0;");
}

#[test]
fn test_igualdade_bool_valida() {
    analisar_ok("var b : bool; b = true == false;");
}

#[test]
fn test_igualdade_string_valida() {
    analisar_ok(r#"var b : bool; var s : string; s = "x"; b = s == "y";"#);
}

#[test]
fn test_igualdade_tipos_diferentes_e_erro() {
    let errs = analisar_err("var b : bool; var x : int; b = x == true;");
    assert!(errs.iter().any(|e| matches!(e,
        PBError::Semantic { message, .. } if message.contains("mesmo tipo")
    )));
}

// ── Operações lógicas ─────────────────────────────────────────────────

#[test]
fn test_logico_and_bool_valido() {
    analisar_ok("var b : bool; b = true && false;");
}

#[test]
fn test_logico_or_bool_valido() {
    analisar_ok("var b : bool; b = true || false;");
}

#[test]
fn test_not_bool_valido() {
    analisar_ok("var b : bool; b = !true;");
}

#[test]
fn test_logico_and_com_int_e_erro() {
    let errs = analisar_err("var b : bool; b = 1 && true;");
    assert!(errs.iter().any(|e| matches!(e,
        PBError::Semantic { message, .. } if message.contains("'&&'")
    )));
}

#[test]
fn test_not_com_int_e_erro() {
    let errs = analisar_err("var x : int; var b : bool; x = 5; b = !x;");
    assert!(errs.iter().any(|e| matches!(e,
        PBError::Semantic { message, .. } if message.contains("'!'")
    )));
}

// ── Estruturas de controle ────────────────────────────────────────────

#[test]
fn test_if_condicao_bool_valida() {
    analisar_ok("var x : int; if (x > 0) { x = 1; }");
}

#[test]
fn test_if_condicao_int_e_erro() {
    let errs = analisar_err("var x : int; if (x) { x = 1; }");
    assert!(errs.iter().any(|e| matches!(e,
        PBError::Semantic { message, .. }
        if message.contains("'if'") && message.contains("'bool'")
    )));
}

#[test]
fn test_while_condicao_bool_valida() {
    analisar_ok("var n : int; while (n > 0) { n = n - 1; }");
}

#[test]
fn test_while_condicao_int_e_erro() {
    let errs = analisar_err("var n : int; while (n) { n = n - 1; }");
    assert!(errs.iter().any(|e| matches!(e,
        PBError::Semantic { message, .. }
        if message.contains("'while'") && message.contains("'bool'")
    )));
}

// ── Comando read ──────────────────────────────────────────────────────

#[test]
fn test_read_int_valido() {
    analisar_ok("var x : int; read(x);");
}

#[test]
fn test_read_string_valido() {
    analisar_ok("var s : string; read(s);");
}

#[test]
fn test_read_bool_e_erro() {
    let errs = analisar_err("var b : bool; read(b);");
    assert!(errs.iter().any(|e| matches!(e,
        PBError::Semantic { message, .. }
        if message.contains("'read'") && message.contains("'bool'")
    )));
}

#[test]
fn test_read_variavel_nao_declarada() {
    let errs = analisar_err("read(x);");
    assert!(errs.iter().any(|e| matches!(e,
        PBError::Semantic { message, .. } if message.contains("'x'")
    )));
}

// ── Acumulação de múltiplos erros ─────────────────────────────────────

#[test]
fn semantic_test_multiplos_erros_acumulados() {
    // Três erros distintos: variável não declarada, tipo errado no if,
    // e tipo errado na atribuição
    let src = r#"
        var x : int;
        if (x) { x = true; }
        x = y + 1;
    "#;
    let errs = analisar_err(src);
    assert!(errs.len() >= 3, "esperados pelo menos 3 erros, obteve {}", errs.len());
}

// ── Programas completos válidos ───────────────────────────────────────

#[test]
fn test_programa_fatorial_valido() {
    let src = r#"
        var n         : int;
        var resultado : int;
        read(n);
        resultado = 1;
        while (n > 1) {
            resultado = resultado * n;
            n = n - 1;
        }
        print(resultado);
    "#;
    analisar_ok(src);
}

#[test]
fn test_programa_if_else_valido() {
    let src = r#"
        var x   : int;
        var par : bool;
        read(x);
        par = false;
        if (x == 0) { par = true; } else { par = false; }
        print(par);
    "#;
    analisar_ok(src);
}

#[test]
fn test_programa_strings_valido() {
    let src = r#"
        var nome     : string;
        var saudacao : string;
        read(nome);
        saudacao = "Olá, " + nome;
        print(saudacao);
    "#;
    analisar_ok(src);
}

#[test]
fn test_programa_expressoes_aninhadas_valido() {
    let src = r#"
        var a : int;
        var b : int;
        var ok : bool;
        read(a);
        read(b);
        ok = (a + b) * 2 > 10 && b != 0;
        print(ok);
    "#;
    analisar_ok(src);
}

#[test]
fn test_programa_erro_semantico_tipo() {
    // Programa dos testes de integração #5: erro de tipo
    let src = r#"
        var x : int;
        var b : bool;
        read(x);
        b = x;
    "#;
    let errs = analisar_err(src);
    assert!(!errs.is_empty());
    assert!(errs.iter().all(|e| matches!(e, PBError::Semantic { .. })));
}

#[test]
fn test_programa_variavel_nao_declarada() {
    // Programa dos testes de integração #6: variável não declarada
    let src = r#"
        var x : int;
        read(x);
        print(resultado);
    "#;
    let errs = analisar_err(src);
    assert!(errs.iter().any(|e| matches!(e,
        PBError::Semantic { message, .. } if message.contains("'resultado'")
    )));
}
