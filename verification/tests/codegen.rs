use inkwell::context::Context;
use pblang::codegen::gerar_ir;
use pblang::{lexer, parser, semantic};

/// Compiles `src` down to IR (checked by LLVM) and gives the IR text.
fn ir_de(src: &str) -> String {
    let tokens = lexer::lex(src).expect("erro léxico");
    let ast = parser::parse(tokens).expect("erro sintático");
    let _tabela = semantic::verificar(&ast).expect("erro semântico");
    let ctx = Context::create();
    let cg = gerar_ir(&ctx, &ast, "test");
    cg.verificar().expect("IR inválida");
    cg.ir_para_string()
}

// ── Declarações → alloca ──────────────────────────────────────────────

#[test]
fn test_ir_alloca_int() {
    let ir = ir_de("var x : int;");
    assert!(ir.contains("alloca i32"), "esperado alloca i32:\n{}", ir);
}

#[test]
fn test_ir_alloca_bool() {
    let ir = ir_de("var b : bool;");
    assert!(ir.contains("alloca i1"), "esperado alloca i1:\n{}", ir);
}

// ── Atribuição → store ────────────────────────────────────────────────

#[test]
fn test_ir_store_int() {
    let ir = ir_de("var x : int; x = 42;");
    assert!(ir.contains("store i32"), "esperado store i32:\n{}", ir);
    assert!(ir.contains("42"), "esperado literal 42:\n{}", ir);
}

#[test]
fn test_ir_store_bool_true() {
    let ir = ir_de("var b : bool; b = true;");
    assert!(ir.contains("store i1"), "esperado store i1:\n{}", ir);
}

// ── Operações aritméticas ─────────────────────────────────────────────

#[test]
fn test_ir_add() {
    let ir = ir_de("var x : int; var y : int; x = x + y;");
    assert!(ir.contains("add i32"), "esperado add i32:\n{}", ir);
}

#[test]
fn test_ir_sub() {
    let ir = ir_de("var x : int; var y : int; x = x - y;");
    assert!(ir.contains("sub i32"), "esperado sub i32:\n{}", ir);
}

#[test]
fn test_ir_mul() {
    let ir = ir_de("var x : int; var y : int; x = x * y;");
    assert!(ir.contains("mul i32"), "esperado mul i32:\n{}", ir);
}

#[test]
fn test_ir_div() {
    let ir = ir_de("var x : int; var y : int; x = x / y;");
    assert!(ir.contains("sdiv i32"), "esperado sdiv i32:\n{}", ir);
}

#[test]
fn test_ir_mod() {
    let ir = ir_de("var x : int; var y : int; x = x % y;");
    assert!(ir.contains("srem i32"), "esperado srem i32:\n{}", ir);
}

#[test]
fn test_ir_neg_unario() {
    let ir = ir_de("var x : int; var y : int; x = -y;");
    // negação → sub i32 0, %y_carregado
    assert!(ir.contains("sub i32"), "esperado sub (neg) i32:\n{}", ir);
}

// ── Operações lógicas e relacionais ───────────────────────────────────

#[test]
fn test_ir_icmp_gt() {
    let ir = ir_de("var b : bool; var x : int; b = x > 0;");
    assert!(ir.contains("icmp sgt"), "esperado icmp sgt:\n{}", ir);
}

#[test]
fn test_ir_icmp_eq() {
    let ir = ir_de("var b : bool; var x : int; b = x == 0;");
    assert!(ir.contains("icmp eq"), "esperado icmp eq:\n{}", ir);
}

#[test]
fn test_ir_and() {
    let ir = ir_de("var b : bool; var c : bool; b = b && c;");
    assert!(ir.contains("and i1"), "esperado and i1:\n{}", ir);
}

#[test]
fn test_ir_or() {
    let ir = ir_de("var b : bool; var c : bool; b = b || c;");
    assert!(ir.contains("or i1"), "esperado or i1:\n{}", ir);
}

#[test]
fn test_ir_not() {
    let ir = ir_de("var b : bool; var c : bool; b = !c;");
    assert!(ir.contains("xor i1"), "esperado xor i1 (not):\n{}", ir);
}

// ── Estruturas de controle ────────────────────────────────────────────

#[test]
fn test_ir_if_simples() {
    let ir = ir_de("var x : int; if (x > 0) { x = 1; }");
    assert!(ir.contains("if.then"), "esperado bloco if.then:\n{}", ir);
    assert!(ir.contains("if.merge"), "esperado bloco if.merge:\n{}", ir);
    assert!(ir.contains("br i1"), "esperado br condicional:\n{}", ir);
}

#[test]
fn test_ir_if_else() {
    let ir = ir_de("var x : int; if (x > 0) { x = 1; } else { x = 0; }");
    assert!(ir.contains("if.then"), "esperado bloco if.then:\n{}", ir);
    assert!(ir.contains("if.else"), "esperado bloco if.else:\n{}", ir);
    assert!(ir.contains("if.merge"), "esperado bloco if.merge:\n{}", ir);
}

#[test]
fn test_ir_while() {
    let ir = ir_de("var n : int; while (n > 0) { n = n - 1; }");
    assert!(ir.contains("while.cond"), "esperado while.cond:\n{}", ir);
    assert!(ir.contains("while.body"), "esperado while.body:\n{}", ir);
    assert!(ir.contains("while.end"), "esperado while.end:\n{}", ir);
}

// ── I/O ───────────────────────────────────────────────────────────────

#[test]
fn test_ir_print_int() {
    let ir = ir_de("var x : int; print(x);");
    assert!(ir.contains("printf"), "esperado chamada printf:\n{}", ir);
    assert!(ir.contains("%d"), "esperado formato %d:\n{}", ir);
}

#[test]
fn test_ir_print_bool() {
    let ir = ir_de("var b : bool; b = true; print(b);");
    assert!(ir.contains("printf"), "esperado chamada printf:\n{}", ir);
    assert!(ir.contains("zext i1"), "esperado zext i1 (bool para i32):\n{}", ir);
}

#[test]
fn test_ir_print_string() {
    let ir = ir_de(r#"var s : string; s = "hello"; print(s);"#);
    assert!(ir.contains("printf"), "esperado chamada printf:\n{}", ir);
    assert!(ir.contains("%s"), "esperado formato %s:\n{}", ir);
}

#[test]
fn test_ir_read_int() {
    let ir = ir_de("var x : int; read(x);");
    assert!(ir.contains("scanf"), "esperado chamada scanf:\n{}", ir);
    assert!(ir.contains("%d"), "esperado formato %d:\n{}", ir);
}

#[test]
fn test_ir_read_string() {
    let ir = ir_de("var s : string; read(s);");
    assert!(ir.contains("scanf"), "esperado chamada scanf:\n{}", ir);
    assert!(ir.contains("%255s"), "esperado formato %255s:\n{}", ir);
}

// ── Strings ───────────────────────────────────────────────────────────

#[test]
fn test_ir_literal_string() {
    let ir = ir_de(r#"var s : string; s = "PBLang";"#);
    assert!(ir.contains("PBLang"), "esperado literal PBLang na IR:\n{}", ir);
    assert!(ir.contains("strcpy"), "esperado strcpy na atribuição:\n{}", ir);
}

#[test]
fn test_ir_concat_string() {
    let ir = ir_de(r#"var s : string; var t : string; s = "a"; t = s + "b";"#);
    assert!(ir.contains("strcpy"), "esperado strcpy:\n{}", ir);
    assert!(ir.contains("strcat"), "esperado strcat:\n{}", ir);
    assert!(ir.contains("alloca [512 x i8]"), "esperado buffer de concat:\n{}", ir);
}

#[test]
fn test_ir_cmp_string_eq() {
    let ir = ir_de(r#"var b : bool; var s : string; s = "x"; b = s == "x";"#);
    assert!(ir.contains("strcmp"), "esperado strcmp:\n{}", ir);
    assert!(ir.contains("icmp eq"), "esperado icmp eq após strcmp:\n{}", ir);
}

// ── Programas completos ───────────────────────────────────────────────

#[test]
fn test_programa_fatorial_ir_valida() {
    let src = r#"
        var n         : int;
        var resultado : int;
        read(n);
        resultado = 1;
        while (n > 1) {
            resultado = resultado * n;
            n = n - 1;
        }
        print(resultado);
    "#;
    let ir = ir_de(src);
    assert!(ir.contains("while.cond"));
    assert!(ir.contains("scanf"));
    assert!(ir.contains("printf"));
    assert!(ir.contains("mul i32"));
}

#[test]
fn test_programa_if_else_ir_valida() {
    let src = r#"
        var x   : int;
        var par : bool;
        read(x);
        par = false;
        if (x == 0) { par = true; } else { par = false; }
        print(par);
    "#;
    let ir = ir_de(src);
    assert!(ir.contains("if.then"));
    assert!(ir.contains("if.else"));
    assert!(ir.contains("icmp eq"));
    assert!(ir.contains("zext i1")); // bool para printf
}

#[test]
fn test_programa_strings_ir_valida() {
    let src = r#"
        var nome     : string;
        var saudacao : string;
        read(nome);
        saudacao = "Olá, ";
        saudacao = saudacao + nome;
        print(saudacao);
    "#;
    let ir = ir_de(src);
    assert!(ir.contains("strcpy"));
    assert!(ir.contains("strcat"));
    assert!(ir.contains("%255s"));
    assert!(ir.contains("%s"));
}

#[test]
fn test_main_tem_ret_i32() {
    let ir = ir_de("var x : int; x = 1;");
    assert!(ir.contains("ret i32 0"), "esperado ret i32 0:\n{}", ir);
}

#[test]
fn test_declaracoes_externas_presentes() {
    let ir = ir_de("var x : int; read(x); print(x);");
    assert!(ir.contains("declare"), "esperado declarações externas:\n{}", ir);
    assert!(ir.contains("printf"));
    assert!(ir.contains("scanf"));
}

// ── Further cases ─────────────────────────────────────────────────────

#[test]
fn test_ir_alloca_string() {
    let ir = ir_de("var s : string;");
    assert!(ir.contains("%s_buf = alloca [256 x i8]"), "{}", ir);
    assert!(ir.contains("%s = alloca i8*"), "{}", ir);
    assert!(ir.contains("store i8 0"), "{}", ir);
}

#[test]
fn codegen_globals_are_numbered_in_order() {
    let ir = ir_de(r#"var s : string; s = "um"; print(s);"#);
    assert!(ir.contains("@str.0 = private unnamed_addr constant [3 x i8] c\"um\\00\""), "{}", ir);
    assert!(ir.contains("@str.1 = private unnamed_addr constant [4 x i8] c\"%s\\0A\\00\""), "{}", ir);
    assert!(!ir.contains("@str.2"), "{}", ir);
}

#[test]
fn codegen_literal_bytes_are_utf8() {
    let ir = ir_de(r#"var s : string; s = "Olá";"#);
    assert!(ir.contains("[5 x i8] c\"Ol\\C3\\A1\\00\""), "{}", ir);
}

#[test]
fn codegen_string_inequality_compares_strcmp_with_zero() {
    let ir = ir_de(r#"var b : bool; var s : string; b = s != "x";"#);
    assert!(ir.contains("%strcmp_res = call i32"), "{}", ir);
    assert!(ir.contains("%str_neq = icmp ne i32 %strcmp_res, 0"), "{}", ir);
}

#[test]
fn codegen_nested_control_flow_is_valid() {
    let src = r#"
        var i : int; var j : int; var t : int;
        while (i < 3) {
            if (i == 1) { j = j + 1; } else { while (j > 0) { j = j - 1; } }
            { t = t + i; }
            i = i + 1;
        }
        print(t);
    "#;
    let ir = ir_de(src);
    assert!(ir.contains("br label %while.cond"), "{}", ir);
    assert!(ir.contains("br i1 %lt, label %while.body, label %while.end"), "{}", ir);
    assert!(ir.contains("br i1 %eq, label %if.then, label %if.else"), "{}", ir);
}

#[test]
fn codegen_if_without_else_branches_to_merge() {
    let ir = ir_de("var x : int; if (x > 0) { x = 1; }");
    assert!(ir.contains("br i1 %gt, label %if.then, label %if.merge"), "{}", ir);
    assert!(!ir.contains("if.else"), "{}", ir);
}

#[test]
fn codegen_empty_program_is_only_main() {
    let ir = ir_de("");
    assert!(ir.contains("define i32 @main()"), "{}", ir);
    assert!(ir.contains("entry:"), "{}", ir);
    assert!(ir.contains("ret i32 0"), "{}", ir);
    assert!(ir.contains("declare i32 @strcmp(i8*, i8*)"), "{}", ir);
    assert!(ir.contains("declare i8* @strcpy(i8*, i8*)"), "{}", ir);
}

#[test]
fn codegen_module_is_named_as_asked() {
    let tokens = lexer::lex("var x : int;").unwrap();
    let ast = parser::parse(tokens).unwrap();
    let ctx = Context::create();
    let cg = gerar_ir(&ctx, &ast, "exemplo");
    assert!(cg.verificar().is_ok());
    assert!(cg.ir_para_string().contains("ModuleID = 'exemplo'"));
}

#[test]
fn codegen_read_int_passes_the_slot() {
    let ir = ir_de("var x : int; read(x);");
    assert!(ir.contains("@scanf(i8* getelementptr"), "{}", ir);
    assert!(ir.contains("i32* %x)"), "{}", ir);
}

#[test]
fn codegen_subtraction_keeps_operand_order() {
    let ir = ir_de("var a : int; var b : int; var c : int; c = a - b;");
    let linha = ir.lines().find(|l| l.contains("= sub i32")).expect("sub");
    let ops: Vec<&str> = linha.split("sub i32 ").nth(1).unwrap().split(", ").collect();
    assert!(ops[0].starts_with("%a"), "{}", linha);
    assert!(ops[1].starts_with("%b"), "{}", linha);
}

#[test]
fn codegen_printf_gets_format_then_value() {
    let ir = ir_de("print(5);");
    let linha = ir.lines().find(|l| l.contains("call") && l.contains("@printf(")).expect("printf");
    let args = linha.split("@printf(").nth(1).unwrap();
    assert!(args.starts_with("i8* getelementptr"), "{}", linha);
    assert!(args.contains("@str.0"), "{}", linha);
    assert!(args.trim_end().ends_with("i32 5)"), "{}", linha);
}

#[test]
fn codegen_string_slot_holds_the_buffer_address() {
    let ir = ir_de("var s : string;");
    assert!(ir.contains("store i8* %s_ptr, i8** %s"), "{}", ir);
    assert!(ir.contains("store i8 0, i8* %s_ptr"), "{}", ir);
}

#[test]
fn codegen_same_program_prints_the_same_text() {
    let src = r#"var s : string; var n : int; read(n); s = "a" + "b"; while (n > 0) { print(s); n = n - 1; }"#;
    assert_eq!(ir_de(src), ir_de(src));
}

#[test]
fn codegen_every_block_ends_with_one_terminator() {
    let ir = ir_de("var x : int; read(x); while (x > 0) { if (x % 2 == 0) { print(x); } else { x = x - 1; } x = x - 1; }");
    let corpo: Vec<&str> = ir
        .lines()
        .skip_while(|l| !l.starts_with("define i32 @main"))
        .skip(1)
        .take_while(|l| !l.starts_with('}'))
        .filter(|l| !l.trim().is_empty())
        .collect();
    let eh_rotulo = |l: &str| !l.starts_with(' ') && l.contains(':');
    let eh_term = |l: &str| l.trim().starts_with("br ") || l.trim().starts_with("ret ");
    for (i, l) in corpo.iter().enumerate() {
        if eh_rotulo(l) && i > 0 {
            assert!(eh_term(corpo[i - 1]), "bloco sem terminador antes de {}:\n{}", l, ir);
        }
        if eh_term(l) {
            assert!(i + 1 == corpo.len() || eh_rotulo(corpo[i + 1]), "instrução após terminador:\n{}", ir);
        }
    }
    assert!(eh_term(corpo.last().unwrap()));
    assert!(ir.contains("ret i32 0"));
}
