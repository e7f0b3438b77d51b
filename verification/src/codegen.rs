//! Phase D: LLVM IR generation through `inkwell`.
//!
//! The validated AST is translated straight into an LLVM module in memory. Every
//! variable lives in a stack slot (`alloca` / `store` / `load`); LLVM's `mem2reg`
//! pass can later turn the slots into SSA registers.
//!
//! Strings: a `string` variable is a `[256 x i8]` buffer on the stack plus an `i8*`
//! slot that points at it; string literals are private constant globals `@str.N`;
//! assignment copies with `strcpy`, `+` concatenates with `strcpy` and `strcat` into
//! a `[512 x i8]` buffer, and `==` / `!=` compare the result of `strcmp` with 0.
//!
//! The module is built for LLVM 14, whose pointers are typed: the generated code
//! works with `i8*`, and casts the addresses of buffers and globals to it.
//!
//! What this module proves is the sequence of requests it makes to LLVM (see
//! [`crate::llvm::Registro`]): for each construct of the language, which types,
//! constants, instructions, blocks and calls it asks for, in which order, under
//! which names, and with which values: every operand of a request is the value
//! that an earlier request gave back (or a variable's slot, or one of the module's
//! functions). The specification is the family of `em_*` functions below; each
//! takes the records of the construct itself (`seg`), from which it reads the
//! values that LLVM gave back.
use vstd::prelude::*;
use vstd::pervasive::{arbitrary, unreached};
use vstd::slice::slice_to_vec;
use vstd::utf8::encode_utf8;

use inkwell::basic_block::BasicBlock;
use inkwell::builder::BuilderError;
use inkwell::context::Context;
use inkwell::module::Module;
use inkwell::values::{FunctionValue, IntValue, PointerValue};

use crate::ast::{cmd_v, cmds_v, decls_v, lemma_cmds_v, CmdV, Comando, DeclV, Declaracao, ExprV, Expressao, OpBin, OpUn, ProgV, Programa, Span, Tipo};
use crate::llvm::{
    adicionar_funcao, adicionar_global, alocar, anexar_bloco, armazenar, bloco_de_insercao, carregar, chamar,
    comparar, conjuncao, constante, constante_vetor, converter_constante, converter_ponteiro, criar_modulo,
    definir_constante, definir_endereco_sem_nome, definir_inicializador, definir_privada, desviar, desviar_se,
    disjuncao, dividir, endereco_global, estender_zero, multiplicar, negar, ou_exclusivo, posicionar, reg, resto,
    retornar, somar, subtrair, tem_terminador, texto_do_modulo, texto_ir, falha_de_verificacao, valor_carregado, valor_de, verificar_modulo,
    calcula_llvm, compara_llvm, Assinatura, Carregado, Emissor, OpIR, Operando, Pedido, Predicado, Registro, TipoIR, ValorLLVM,
};
use crate::semantic::{ambiente_de, comando_ok, comandos_ok, declaracoes_distintas, eh_aritmetico, programa_valido, tipo_de, Ambiente};
use crate::texto::{decimal, decimal_spec};

verus! {

// ─────────────────────────────────────────────────────────────────────────────
// What is asked of LLVM for each construct
// ─────────────────────────────────────────────────────────────────────────────

/// The variables in scope: each name with its type and its stack slot.
pub type Escopo<'ctx> = Map<Seq<char>, (Tipo, PointerValue<'ctx>)>;

/// The functions of the module that the generated code calls or fills in.
#[derive(Clone, Copy)]
pub struct Funcoes<'ctx> {
    pub printf: FunctionValue<'ctx>,
    pub scanf: FunctionValue<'ctx>,
    pub strcpy: FunctionValue<'ctx>,
    pub strcat: FunctionValue<'ctx>,
    pub strcomp: FunctionValue<'ctx>,
    pub main: FunctionValue<'ctx>,
}

/// The pointer a value is (any pointer if it is none).
pub open spec fn ptr_de<'ctx>(v: ValorLLVM<'ctx>) -> PointerValue<'ctx> {
    match v {
        ValorLLVM::Ptr(p) => p,
        _ => arbitrary(),
    }
}

/// The function a value is (any function if it is none).
pub open spec fn funcao_de<'ctx>(v: ValorLLVM<'ctx>) -> FunctionValue<'ctx> {
    match v {
        ValorLLVM::Funcao(f) => f,
        _ => arbitrary(),
    }
}

/// The type of an expression as code generation computes it, for a program that
/// is already well typed: `+` has the type of its left operand, the other
/// arithmetic operators give `int`, comparisons and logical operators `bool`.
pub open spec fn tipo_expr<'ctx>(env: Escopo<'ctx>, e: ExprV) -> Tipo
    decreases e,
{
    match e {
        ExprV::LitInt(_, _) => Tipo::Int,
        ExprV::LitBool(_, _) => Tipo::Bool,
        ExprV::LitString(_, _) => Tipo::String,
        ExprV::Var(n, _) => env[n].0,
        ExprV::UnOp { op, .. } => match op {
            OpUn::Neg => Tipo::Int,
            OpUn::Not => Tipo::Bool,
        },
        ExprV::BinOp { op, esq, .. } => if op == OpBin::Add {
            tipo_expr(env, *esq)
        } else if eh_aritmetico(op) {
            Tipo::Int
        } else {
            Tipo::Bool
        },
    }
}

/// The type of the stack slot of a variable: `i32`, `i1`, or `i8*` for a string
/// (the slot points at the variable's buffer).
pub open spec fn tipo_do_slot(t: Tipo) -> TipoIR {
    match t {
        Tipo::Int => TipoIR::I32,
        Tipo::Bool => TipoIR::I1,
        Tipo::String => TipoIR::Ptr,
    }
}

/// The counter of string globals after one more: it wraps around past `u32::MAX`.
pub open spec fn proximo(k: u32) -> u32 {
    if k < u32::MAX {
        (k + 1) as u32
    } else {
        0
    }
}

/// The name of the `k`-th string global: `str.k`.
pub open spec fn nome_global(k: u32) -> Seq<char> {
    "str."@ + decimal_spec(k as nat)
}

/// The bytes of a string global: the UTF-8 encoding of the text and a final 0.
pub open spec fn bytes_c(s: Seq<char>) -> Seq<u8> {
    encode_utf8(s).push(0u8)
}

/// How many requests make the string global of `s`.
pub open spec fn tam_global(s: Seq<char>) -> int {
    bytes_c(s).len() + 8int
}

/// The requests that make the private constant global `str.k` holding `s`: the
/// global, one `i8` constant per byte, the array of those constants as its
/// initializer, its flags, its address, and that address as an `i8*`, which is the
/// value of the whole (the last record).
pub open spec fn em_global<'ctx>(k: u32, s: Seq<char>, seg: Seq<Registro<'ctx>>) -> Seq<Registro<'ctx>> {
    let b = bytes_c(s);
    let n = b.len() as int;
    let g = seg[0].resultado;
    let arr = seg[n + 1].resultado;
    let end = seg[n + 6].resultado;
    seq![reg(Pedido::Global { nome: nome_global(k), tamanho: #[verifier::truncate] (b.len() as u32) }, seq![], g)] + Seq::new(
        b.len(),
        |i: int| reg(Pedido::Constante { tipo: TipoIR::I8, valor: b[i] as u64, sinal: false }, seq![], seg[1 + i].resultado),
    ) + seq![
        reg(Pedido::ConstanteVetor { tamanho: b.len() }, Seq::new(b.len(), |i: int| seg[1 + i].resultado), arr),
        reg(Pedido::Inicializa, seq![g, arr], ValorLLVM::Nenhum),
        reg(Pedido::MarcaConstante(true), seq![g], ValorLLVM::Nenhum),
        reg(Pedido::Privada, seq![g], ValorLLVM::Nenhum),
        reg(Pedido::EnderecoSemNome(true), seq![g], ValorLLVM::Nenhum),
        reg(Pedido::Endereco, seq![g], end),
        reg(Pedido::ConverteConstante, seq![end], seg[n + 7].resultado),
    ]
}

/// The instruction of a binary operator over integers or booleans.
pub open spec fn instr_binaria(op: OpBin) -> Pedido {
    match op {
        OpBin::Add => Pedido::Binaria { op: OpIR::Add, nome: "add"@ },
        OpBin::Sub => Pedido::Binaria { op: OpIR::Sub, nome: "sub"@ },
        OpBin::Mul => Pedido::Binaria { op: OpIR::Mul, nome: "mul"@ },
        OpBin::Div => Pedido::Binaria { op: OpIR::SDiv, nome: "div"@ },
        OpBin::Mod => Pedido::Binaria { op: OpIR::SRem, nome: "mod"@ },
        OpBin::Gt => Pedido::Compara { pred: Predicado::Sgt, nome: "gt"@ },
        OpBin::Lt => Pedido::Compara { pred: Predicado::Slt, nome: "lt"@ },
        OpBin::Ge => Pedido::Compara { pred: Predicado::Sge, nome: "ge"@ },
        OpBin::Le => Pedido::Compara { pred: Predicado::Sle, nome: "le"@ },
        OpBin::Eq => Pedido::Compara { pred: Predicado::Eq, nome: "eq"@ },
        OpBin::Neq => Pedido::Compara { pred: Predicado::Ne, nome: "neq"@ },
        OpBin::And => Pedido::Binaria { op: OpIR::And, nome: "and"@ },
        OpBin::Or => Pedido::Binaria { op: OpIR::Or, nome: "or"@ },
    }
}

/// A string `+`.
pub open spec fn eh_concat<'ctx>(env: Escopo<'ctx>, op: OpBin, esq: ExprV) -> bool {
    op == OpBin::Add && tipo_expr(env, esq) == Tipo::String
}

/// A string `==` or `!=`.
pub open spec fn eh_igualdade_texto<'ctx>(env: Escopo<'ctx>, op: OpBin, esq: ExprV) -> bool {
    (op == OpBin::Eq || op == OpBin::Neq) && tipo_expr(env, esq) == Tipo::String
}

/// How many requests an expression makes.
pub open spec fn tam_expr<'ctx>(env: Escopo<'ctx>, e: ExprV) -> int
    decreases e,
{
    match e {
        ExprV::LitString(s, _) => tam_global(s),
        ExprV::UnOp { op, operando, .. } => tam_expr(env, *operando) + match op {
            OpUn::Neg => 1int,
            OpUn::Not => 2int,
        },
        ExprV::BinOp { op, esq, dir, .. } => tam_expr(env, *esq) + tam_expr(env, *dir) + if eh_concat(env, op, *esq) {
            4int
        } else if eh_igualdade_texto(env, op, *esq) {
            3int
        } else {
            1int
        },
        _ => 1,
    }
}

/// Which of an expression's records gives its value: the last one, but for a
/// string `+`, whose value is the concatenation buffer.
pub open spec fn idx_valor<'ctx>(env: Escopo<'ctx>, e: ExprV) -> int {
    match e {
        ExprV::BinOp { op, esq, .. } => if eh_concat(env, op, *esq) {
            tam_expr(env, e) - 3
        } else {
            tam_expr(env, e) - 1
        },
        _ => tam_expr(env, e) - 1,
    }
}

/// The value of the expression whose records are `seg`.
pub open spec fn valor_expr<'ctx>(env: Escopo<'ctx>, e: ExprV, seg: Seq<Registro<'ctx>>) -> ValorLLVM<'ctx> {
    seg[idx_valor(env, e)].resultado
}

/// The requests for an expression, operands first, and the counter of string
/// globals afterwards (`k` before). `seg` holds the expression's own records.
pub open spec fn em_expr<'ctx>(env: Escopo<'ctx>, f: Funcoes<'ctx>, e: ExprV, k: u32, seg: Seq<Registro<'ctx>>) -> (
    Seq<Registro<'ctx>>,
    u32,
)
    decreases e,
{
    match e {
        ExprV::LitInt(n, _) => (
            seq![reg(Pedido::Constante { tipo: TipoIR::I32, valor: n as u64, sinal: true }, seq![], seg[0].resultado)],
            k,
        ),
        ExprV::LitBool(b, _) => (
            seq![
                reg(
                    Pedido::Constante { tipo: TipoIR::I1, valor: if b { 1 } else { 0 }, sinal: false },
                    seq![],
                    seg[0].resultado,
                ),
            ],
            k,
        ),
        ExprV::LitString(s, _) => (em_global(k, s, seg), proximo(k)),
        ExprV::Var(n, _) => (
            seq![reg(Pedido::Load { nome: n }, seq![ValorLLVM::Ptr(env[n].1)], seg[0].resultado)],
            k,
        ),
        ExprV::UnOp { op, operando, .. } => {
            let t = tam_expr(env, *operando);
            let (p, k1) = em_expr(env, f, *operando, k, seg.take(t));
            let v = valor_expr(env, *operando, seg);
            match op {
                OpUn::Neg => (p.push(reg(Pedido::Neg { nome: "neg"@ }, seq![v], seg[t].resultado)), k1),
                OpUn::Not => (
                    p + seq![
                        reg(Pedido::Constante { tipo: TipoIR::I1, valor: 1, sinal: false }, seq![], seg[t].resultado),
                        reg(
                            Pedido::Binaria { op: OpIR::Xor, nome: "not"@ },
                            seq![v, seg[t].resultado],
                            seg[t + 1].resultado,
                        ),
                    ],
                    k1,
                ),
            }
        },
        ExprV::BinOp { op, esq, dir, .. } => {
            let te = tam_expr(env, *esq);
            let td = tam_expr(env, *dir);
            let (pe, k1) = em_expr(env, f, *esq, k, seg.take(te));
            let (pd, k2) = em_expr(env, f, *dir, k1, seg.subrange(te, te + td));
            let vl = valor_expr(env, *esq, seg);
            let vr = valor_expr(env, *dir, seg.subrange(te, te + td));
            let b = te + td;
            if eh_concat(env, op, *esq) {
                (
                    pe + pd + seq![
                        reg(Pedido::Alloca { tipo: TipoIR::Vetor(512), nome: "concat_buf"@ }, seq![], seg[b].resultado),
                        reg(Pedido::Converte { nome: "concat_ptr"@ }, seq![seg[b].resultado], seg[b + 1].resultado),
                        reg(
                            Pedido::Chamada { funcao: "strcpy"@, nome: ""@ },
                            seq![ValorLLVM::Funcao(f.strcpy), seg[b + 1].resultado, vl],
                            seg[b + 2].resultado,
                        ),
                        reg(
                            Pedido::Chamada { funcao: "strcat"@, nome: ""@ },
                            seq![ValorLLVM::Funcao(f.strcat), seg[b + 1].resultado, vr],
                            seg[b + 3].resultado,
                        ),
                    ],
                    k2,
                )
            } else if eh_igualdade_texto(env, op, *esq) {
                (
                    pe + pd + seq![
                        reg(
                            Pedido::Chamada { funcao: "strcmp"@, nome: "strcmp_res"@ },
                            seq![ValorLLVM::Funcao(f.strcomp), vl, vr],
                            seg[b].resultado,
                        ),
                        reg(Pedido::Constante { tipo: TipoIR::I32, valor: 0, sinal: false }, seq![], seg[b + 1].resultado),
                        reg(
                            if op == OpBin::Eq {
                                Pedido::Compara { pred: Predicado::Eq, nome: "str_eq"@ }
                            } else {
                                Pedido::Compara { pred: Predicado::Ne, nome: "str_neq"@ }
                            },
                            seq![seg[b].resultado, seg[b + 1].resultado],
                            seg[b + 2].resultado,
                        ),
                    ],
                    k2,
                )
            } else {
                (pe + pd.push(reg(instr_binaria(op), seq![vl, vr], seg[b].resultado)), k2)
            }
        },
    }
}

/// How many requests a command makes.
pub open spec fn tam_cmd<'ctx>(env: Escopo<'ctx>, c: CmdV) -> int
    decreases c, 1nat,
{
    match c {
        CmdV::Atribuicao { nome, expr, .. } => tam_expr(env, expr) + if env[nome].0 == Tipo::String {
            2int
        } else {
            1int
        },
        CmdV::If { condicao, entao, senao, .. } => tam_expr(env, condicao) + tam_cmds(env, entao) + match senao {
            Some(s) => tam_cmds(env, s) + 9,
            None => 6int,
        },
        CmdV::While { condicao, corpo, .. } => tam_expr(env, condicao) + tam_cmds(env, corpo) + 9,
        CmdV::Print { expr, .. } => tam_expr(env, expr) + match tipo_expr(env, expr) {
            Tipo::Int => tam_global("%d\n"@) + 1,
            Tipo::Bool => tam_global("%d\n"@) + 2,
            Tipo::String => tam_global("%s\n"@) + 1,
        },
        CmdV::Read { nome, .. } => match env[nome].0 {
            Tipo::Int => tam_global("%d"@) + 1,
            Tipo::String => tam_global("%255s"@) + 2,
            Tipo::Bool => 0int,
        },
        CmdV::Bloco(cs) => tam_cmds(env, cs),
    }
}

/// How many requests a list of commands makes.
pub open spec fn tam_cmds<'ctx>(env: Escopo<'ctx>, cs: Seq<CmdV>) -> int
    decreases cs, 0nat,
{
    if cs.len() == 0 {
        0
    } else {
        tam_cmds(env, cs.subrange(0, cs.len() - 1)) + tam_cmd(env, cs[cs.len() - 1])
    }
}

/// The commands of the first branch of an `if`.
pub open spec fn ramo_entao(c: CmdV) -> Seq<CmdV> {
    match c {
        CmdV::If { entao, .. } => entao,
        _ => Seq::empty(),
    }
}

/// The commands of the `else` branch of an `if` (none if it has no `else`).
pub open spec fn ramo_senao(c: CmdV) -> Seq<CmdV> {
    match c {
        CmdV::If { senao: Some(s), .. } => s,
        _ => Seq::empty(),
    }
}

/// The block of main with label `rotulo` that request `r` made.
pub open spec fn em_bloco<'ctx>(f: Funcoes<'ctx>, rotulo: Seq<char>, r: ValorLLVM<'ctx>) -> Registro<'ctx> {
    reg(Pedido::Bloco { funcao: "main"@, rotulo }, seq![ValorLLVM::Funcao(f.main)], r)
}

/// The move of the builder to block `b` with label `rotulo`.
pub open spec fn em_posiciona<'ctx>(rotulo: Seq<char>, b: ValorLLVM<'ctx>) -> Registro<'ctx> {
    reg(Pedido::Posiciona { rotulo }, seq![b], ValorLLVM::Nenhum)
}

/// A branch to block `b` with label `rotulo`.
pub open spec fn em_desvio<'ctx>(rotulo: Seq<char>, b: ValorLLVM<'ctx>) -> Registro<'ctx> {
    reg(Pedido::Desvio { destino: rotulo }, seq![b], ValorLLVM::Nenhum)
}

/// A call of `printf` or `scanf` (function `fv`, named `nome`) with format `fmt`
/// and value `v`, giving `r`.
pub open spec fn em_chamada<'ctx>(
    nome: Seq<char>,
    fv: FunctionValue<'ctx>,
    fmt: ValorLLVM<'ctx>,
    v: ValorLLVM<'ctx>,
    r: ValorLLVM<'ctx>,
) -> Registro<'ctx> {
    reg(Pedido::Chamada { funcao: nome, nome: ""@ }, seq![ValorLLVM::Funcao(fv), fmt, v], r)
}

/// The requests for a command, and the counter of string globals afterwards.
/// `seg` holds the command's own records.
pub open spec fn em_cmd<'ctx>(env: Escopo<'ctx>, f: Funcoes<'ctx>, c: CmdV, k: u32, seg: Seq<Registro<'ctx>>) -> (
    Seq<Registro<'ctx>>,
    u32,
)
    decreases c, 1nat,
{
    match c {
        CmdV::Atribuicao { nome, expr, .. } => {
            let slot = ValorLLVM::Ptr(env[nome].1);
            let te = tam_expr(env, expr);
            if env[nome].0 == Tipo::String {
                let d = seg[0].resultado;
                let (pe, k1) = em_expr(env, f, expr, k, seg.subrange(1, 1 + te));
                let v = valor_expr(env, expr, seg.subrange(1, 1 + te));
                (
                    seq![reg(Pedido::Load { nome: "dst_ptr"@ }, seq![slot], d)] + pe.push(
                        em_chamada("strcpy"@, f.strcpy, d, v, seg[1 + te].resultado),
                    ),
                    k1,
                )
            } else {
                let (pe, k1) = em_expr(env, f, expr, k, seg.take(te));
                let v = valor_expr(env, expr, seg);
                (pe.push(reg(Pedido::Store, seq![slot, v], ValorLLVM::Nenhum)), k1)
            }
        },
        CmdV::If { condicao, entao, senao, .. } => {
            let tc = tam_expr(env, condicao);
            let (pc, k1) = em_expr(env, f, condicao, k, seg.take(tc));
            let vc = valor_expr(env, condicao, seg);
            let tt = tam_cmds(env, entao);
            let bt = seg[tc].resultado;
            match senao {
                Some(s) => {
                    let be = seg[tc + 1].resultado;
                    let bm = seg[tc + 2].resultado;
                    let (pt, k2) = em_cmds(env, f, entao, k1, seg.subrange(tc + 5, tc + 5 + tt));
                    let ts = tam_cmds(env, s);
                    let (ps, k3) = em_cmds(env, f, s, k2, seg.subrange(tc + 7 + tt, tc + 7 + tt + ts));
                    (
                        pc + seq![
                            em_bloco(f, "if.then"@, bt),
                            em_bloco(f, "if.else"@, be),
                            em_bloco(f, "if.merge"@, bm),
                            reg(
                                Pedido::DesvioCondicional { entao: "if.then"@, senao: "if.else"@ },
                                seq![vc, bt, be],
                                ValorLLVM::Nenhum,
                            ),
                            em_posiciona("if.then"@, bt),
                        ] + pt + seq![em_desvio("if.merge"@, bm), em_posiciona("if.else"@, be)] + ps + seq![
                            em_desvio("if.merge"@, bm),
                            em_posiciona("if.merge"@, bm),
                        ],
                        k3,
                    )
                },
                None => {
                    let bm = seg[tc + 1].resultado;
                    let (pt, k2) = em_cmds(env, f, entao, k1, seg.subrange(tc + 4, tc + 4 + tt));
                    (
                        pc + seq![
                            em_bloco(f, "if.then"@, bt),
                            em_bloco(f, "if.merge"@, bm),
                            reg(
                                Pedido::DesvioCondicional { entao: "if.then"@, senao: "if.merge"@ },
                                seq![vc, bt, bm],
                                ValorLLVM::Nenhum,
                            ),
                            em_posiciona("if.then"@, bt),
                        ] + pt + seq![em_desvio("if.merge"@, bm), em_posiciona("if.merge"@, bm)],
                        k2,
                    )
                },
            }
        },
        CmdV::While { condicao, corpo, .. } => {
            let bc = seg[0].resultado;
            let bb = seg[1].resultado;
            let be = seg[2].resultado;
            let tc = tam_expr(env, condicao);
            let (pc, k1) = em_expr(env, f, condicao, k, seg.subrange(5, 5 + tc));
            let vc = valor_expr(env, condicao, seg.subrange(5, 5 + tc));
            let tb = tam_cmds(env, corpo);
            let (pb, k2) = em_cmds(env, f, corpo, k1, seg.subrange(7 + tc, 7 + tc + tb));
            (
                seq![
                    em_bloco(f, "while.cond"@, bc),
                    em_bloco(f, "while.body"@, bb),
                    em_bloco(f, "while.end"@, be),
                    em_desvio("while.cond"@, bc),
                    em_posiciona("while.cond"@, bc),
                ] + pc + seq![
                    reg(
                        Pedido::DesvioCondicional { entao: "while.body"@, senao: "while.end"@ },
                        seq![vc, bb, be],
                        ValorLLVM::Nenhum,
                    ),
                    em_posiciona("while.body"@, bb),
                ] + pb + seq![em_desvio("while.cond"@, bc), em_posiciona("while.end"@, be)],
                k2,
            )
        },
        CmdV::Print { expr, .. } => {
            let te = tam_expr(env, expr);
            let (pe, k1) = em_expr(env, f, expr, k, seg.take(te));
            let v = valor_expr(env, expr, seg);
            match tipo_expr(env, expr) {
                Tipo::Int => {
                    let tg = tam_global("%d\n"@);
                    let fmt = seg[te + tg - 1].resultado;
                    (
                        pe + em_global(k1, "%d\n"@, seg.subrange(te, te + tg)) + seq![
                            em_chamada("printf"@, f.printf, fmt, v, seg[te + tg].resultado),
                        ],
                        proximo(k1),
                    )
                },
                Tipo::Bool => {
                    let tg = tam_global("%d\n"@);
                    let fmt = seg[te + tg - 1].resultado;
                    let x = seg[te + tg].resultado;
                    (
                        pe + em_global(k1, "%d\n"@, seg.subrange(te, te + tg)) + seq![
                            reg(Pedido::EstendeZero { nome: "bool_ext"@ }, seq![v], x),
                            em_chamada("printf"@, f.printf, fmt, x, seg[te + tg + 1].resultado),
                        ],
                        proximo(k1),
                    )
                },
                Tipo::String => {
                    let tg = tam_global("%s\n"@);
                    let fmt = seg[te + tg - 1].resultado;
                    (
                        pe + em_global(k1, "%s\n"@, seg.subrange(te, te + tg)) + seq![
                            em_chamada("printf"@, f.printf, fmt, v, seg[te + tg].resultado),
                        ],
                        proximo(k1),
                    )
                },
            }
        },
        CmdV::Read { nome, .. } => {
            let slot = ValorLLVM::Ptr(env[nome].1);
            match env[nome].0 {
                Tipo::Int => {
                    let tg = tam_global("%d"@);
                    (
                        em_global(k, "%d"@, seg.take(tg)) + seq![
                            em_chamada("scanf"@, f.scanf, seg[tg - 1].resultado, slot, seg[tg].resultado),
                        ],
                        proximo(k),
                    )
                },
                Tipo::String => {
                    let tg = tam_global("%255s"@);
                    let b = seg[0].resultado;
                    (
                        seq![reg(Pedido::Load { nome: "buf_ptr"@ }, seq![slot], b)] + em_global(
                            k,
                            "%255s"@,
                            seg.subrange(1, 1 + tg),
                        ) + seq![em_chamada("scanf"@, f.scanf, seg[tg].resultado, b, seg[1 + tg].resultado)],
                        proximo(k),
                    )
                },
                Tipo::Bool => (Seq::empty(), k),
            }
        },
        CmdV::Bloco(cs) => em_cmds(env, f, cs, k, seg),
    }
}

/// The requests for a list of commands, in order.
pub open spec fn em_cmds<'ctx>(env: Escopo<'ctx>, f: Funcoes<'ctx>, cs: Seq<CmdV>, k: u32, seg: Seq<Registro<'ctx>>) -> (
    Seq<Registro<'ctx>>,
    u32,
)
    decreases cs, 0nat,
{
    if cs.len() == 0 {
        (Seq::empty(), k)
    } else {
        let init = cs.subrange(0, cs.len() - 1);
        let ti = tam_cmds(env, init);
        let (p, k1) = em_cmds(env, f, init, k, seg.take(ti));
        let (q, k2) = em_cmd(env, f, cs[cs.len() - 1], k1, seg.subrange(ti, ti + tam_cmd(env, cs[cs.len() - 1])));
        (p + q, k2)
    }
}

/// How many requests a declaration makes.
pub open spec fn tam_decl(d: DeclV) -> int {
    if d.tipo == Tipo::String {
        6
    } else {
        3
    }
}

/// The slot of the variable whose declaration made the records `seg`.
pub open spec fn slot_decl<'ctx>(d: DeclV, seg: Seq<Registro<'ctx>>) -> PointerValue<'ctx> {
    ptr_de(seg[if d.tipo == Tipo::String { 1int } else { 0int }].resultado)
}

/// The requests for a declaration: the stack slot, initialized to 0, `false` or
/// the empty string (a `[256 x i8]` buffer whose first byte is 0, and whose
/// address, as an `i8*`, the slot holds).
pub open spec fn em_decl<'ctx>(d: DeclV, seg: Seq<Registro<'ctx>>) -> Seq<Registro<'ctx>> {
    let s0 = seg[0].resultado;
    let s1 = seg[1].resultado;
    match d.tipo {
        Tipo::Int => seq![
            reg(Pedido::Alloca { tipo: TipoIR::I32, nome: d.nome }, seq![], s0),
            reg(Pedido::Constante { tipo: TipoIR::I32, valor: 0, sinal: false }, seq![], s1),
            reg(Pedido::Store, seq![s0, s1], ValorLLVM::Nenhum),
        ],
        Tipo::Bool => seq![
            reg(Pedido::Alloca { tipo: TipoIR::I1, nome: d.nome }, seq![], s0),
            reg(Pedido::Constante { tipo: TipoIR::I1, valor: 0, sinal: false }, seq![], s1),
            reg(Pedido::Store, seq![s0, s1], ValorLLVM::Nenhum),
        ],
        Tipo::String => seq![
            reg(Pedido::Alloca { tipo: TipoIR::Vetor(256), nome: d.nome + "_buf"@ }, seq![], s0),
            reg(Pedido::Alloca { tipo: TipoIR::Ptr, nome: d.nome }, seq![], s1),
            reg(Pedido::Converte { nome: d.nome + "_ptr"@ }, seq![s0], seg[2].resultado),
            reg(Pedido::Store, seq![s1, seg[2].resultado], ValorLLVM::Nenhum),
            reg(Pedido::Constante { tipo: TipoIR::I8, valor: 0, sinal: false }, seq![], seg[4].resultado),
            reg(Pedido::Store, seq![seg[2].resultado, seg[4].resultado], ValorLLVM::Nenhum),
        ],
    }
}

/// How many requests a list of declarations makes.
pub open spec fn tam_decls(ds: Seq<DeclV>) -> int
    decreases ds.len(),
{
    if ds.len() == 0 {
        0
    } else {
        tam_decls(ds.drop_last()) + tam_decl(ds.last())
    }
}

/// The requests for a list of declarations, in order.
pub open spec fn em_decls<'ctx>(ds: Seq<DeclV>, seg: Seq<Registro<'ctx>>) -> Seq<Registro<'ctx>>
    decreases ds.len(),
{
    if ds.len() == 0 {
        Seq::empty()
    } else {
        let ti = tam_decls(ds.drop_last());
        em_decls(ds.drop_last(), seg.take(ti)) + em_decl(ds.last(), seg.subrange(ti, ti + tam_decl(ds.last())))
    }
}

/// The variables that declarations bring, with their types and slots, in order.
pub open spec fn vars_decls<'ctx>(ds: Seq<DeclV>, seg: Seq<Registro<'ctx>>) -> Seq<(Seq<char>, Tipo, PointerValue<'ctx>)>
    decreases ds.len(),
{
    if ds.len() == 0 {
        Seq::empty()
    } else {
        let ti = tam_decls(ds.drop_last());
        vars_decls(ds.drop_last(), seg.take(ti)).push(
            (ds.last().nome, ds.last().tipo, slot_decl(ds.last(), seg.subrange(ti, ti + tam_decl(ds.last())))),
        )
    }
}

/// The type and slot of each variable of a list; a later entry of a name wins
/// over an earlier one.
pub open spec fn mapa_vars<'ctx>(vs: Seq<(Seq<char>, Tipo, PointerValue<'ctx>)>) -> Escopo<'ctx>
    decreases vs.len(),
{
    if vs.len() == 0 {
        Map::empty()
    } else {
        mapa_vars(vs.drop_last()).insert(vs.last().0, (vs.last().1, vs.last().2))
    }
}

/// The requests for a program, emitted where variables `vs` were already
/// declared: the declarations, the commands, and `ret i32 0`.
pub open spec fn em_programa<'ctx>(
    vs: Seq<(Seq<char>, Tipo, PointerValue<'ctx>)>,
    f: Funcoes<'ctx>,
    p: ProgV,
    k: u32,
    seg: Seq<Registro<'ctx>>,
) -> (Seq<Registro<'ctx>>, u32) {
    let td = tam_decls(p.declaracoes);
    let env = mapa_vars(vs + vars_decls(p.declaracoes, seg.take(td)));
    let tc = tam_cmds(env, p.comandos);
    let (pc, k1) = em_cmds(env, f, p.comandos, k, seg.subrange(td, td + tc));
    let z = seg[td + tc].resultado;
    (
        em_decls(p.declaracoes, seg.take(td)) + pc + seq![
            reg(Pedido::Constante { tipo: TipoIR::I32, valor: 0, sinal: false }, seq![], z),
            reg(Pedido::Retorno, seq![z], ValorLLVM::Nenhum),
        ],
        k1,
    )
}

/// The requests that set up a module named `nome`: the C functions it calls
/// (`printf`, `scanf`, `strcpy`, `strcat`, `strcmp`), the function `main`, its entry
/// block, and the move of the builder there.
pub open spec fn preambulo<'ctx>(nome: Seq<char>, seg: Seq<Registro<'ctx>>) -> Seq<Registro<'ctx>> {
    seq![
        reg(Pedido::Modulo { nome }, seq![], ValorLLVM::Nenhum),
        reg(Pedido::Funcao { nome: "printf"@, assinatura: Assinatura::VariadicaI32 }, seq![], seg[1].resultado),
        reg(Pedido::Funcao { nome: "scanf"@, assinatura: Assinatura::VariadicaI32 }, seq![], seg[2].resultado),
        reg(Pedido::Funcao { nome: "strcpy"@, assinatura: Assinatura::PtrPtrParaPtr }, seq![], seg[3].resultado),
        reg(Pedido::Funcao { nome: "strcat"@, assinatura: Assinatura::PtrPtrParaPtr }, seq![], seg[4].resultado),
        reg(Pedido::Funcao { nome: "strcmp"@, assinatura: Assinatura::PtrPtrParaI32 }, seq![], seg[5].resultado),
        reg(Pedido::Funcao { nome: "main"@, assinatura: Assinatura::SemParametrosI32 }, seq![], seg[6].resultado),
        reg(Pedido::Bloco { funcao: "main"@, rotulo: "entry"@ }, seq![seg[6].resultado], seg[7].resultado),
        reg(Pedido::Posiciona { rotulo: "entry"@ }, seq![seg[7].resultado], ValorLLVM::Nenhum),
    ]
}

/// The functions that the set-up records `seg` made.
pub open spec fn funcoes_de<'ctx>(seg: Seq<Registro<'ctx>>) -> Funcoes<'ctx> {
    Funcoes {
        printf: funcao_de(seg[1].resultado),
        scanf: funcao_de(seg[2].resultado),
        strcpy: funcao_de(seg[3].resultado),
        strcat: funcao_de(seg[4].resultado),
        strcomp: funcao_de(seg[5].resultado),
        main: funcao_de(seg[6].resultado),
    }
}

/// The types that code generation sees agree with those of the analysis.
pub open spec fn concorda<'ctx>(amb: Ambiente, env: Escopo<'ctx>) -> bool {
    forall|n: Seq<char>| #[trigger] amb.dom().contains(n) ==> env.dom().contains(n) && env[n].0 == amb[n].tipo
}

// ─────────────────────────────────────────────────────────────────────────────
// Lemmas
// ─────────────────────────────────────────────────────────────────────────────

/// Where a name last occurs in a list of variables, that entry gives its type and slot.
proof fn lemma_mapa_vars<'ctx>(vs: Seq<(Seq<char>, Tipo, PointerValue<'ctx>)>, i: int)
    requires
        0 <= i < vs.len(),
        forall|j: int| i < j < vs.len() ==> vs[j].0 != vs[i].0,
    ensures
        mapa_vars(vs).dom().contains(vs[i].0),
        mapa_vars(vs)[vs[i].0] == (vs[i].1, vs[i].2),
    decreases vs.len(),
{
    if i < vs.len() - 1 {
        lemma_mapa_vars(vs.drop_last(), i);
    }
}

/// A name is in the map of a list only if it occurs in the list.
proof fn lemma_mapa_vars_dom<'ctx>(vs: Seq<(Seq<char>, Tipo, PointerValue<'ctx>)>, n: Seq<char>)
    requires
        mapa_vars(vs).dom().contains(n),
    ensures
        exists|i: int|
            0 <= i < vs.len() && vs[i].0 == n && mapa_vars(vs)[n] == (vs[i].1, vs[i].2) && forall|j: int|
                i < j < vs.len() ==> vs[j].0 != n,
    decreases vs.len(),
{
    if vs.last().0 == n {
        assert(vs[vs.len() - 1].0 == n);
    } else {
        lemma_mapa_vars_dom(vs.drop_last(), n);
        let i = choose|i: int|
            0 <= i < vs.drop_last().len() && vs.drop_last()[i].0 == n && mapa_vars(vs.drop_last())[n] == (
                vs.drop_last()[i].1,
                vs.drop_last()[i].2,
            ) && forall|j: int| i < j < vs.drop_last().len() ==> vs.drop_last()[j].0 != n;
        assert(vs[i] == vs.drop_last()[i]);
        assert forall|j: int| i < j < vs.len() implies vs[j].0 != n by {
            if j < vs.len() - 1 {
                assert(vs[j] == vs.drop_last()[j]);
            }
        }
    }
}

/// With distinct names, each declaration gives the type of its name in scope.
proof fn lemma_ambiente_tipo(ds: Seq<DeclV>, i: int)
    requires
        declaracoes_distintas(ds),
        0 <= i < ds.len(),
    ensures
        ambiente_de(ds).dom().contains(ds[i].nome),
        ambiente_de(ds)[ds[i].nome].tipo == ds[i].tipo,
    decreases ds.len(),
{
    let p = ds.drop_last();
    assert(declaracoes_distintas(p)) by {
        assert forall|a: int, b: int| 0 <= a < b < p.len() implies p[a].nome != p[b].nome by {
            assert(p[a] == ds[a]);
            assert(p[b] == ds[b]);
        }
    }
    if i < ds.len() - 1 {
        assert(p[i] == ds[i]);
        lemma_ambiente_tipo(p, i);
    } else {
        crate::semantic::lemma_ambiente_de(p);
        if ambiente_de(p).dom().contains(ds.last().nome) {
            let j = choose|j: int| 0 <= j < p.len() && p[j].nome == ds.last().nome;
            assert(p[j] == ds[j]);
            assert(false);
        }
    }
}

/// The variables that declarations bring are the declared names with their types.
proof fn lemma_vars_decls<'ctx>(ds: Seq<DeclV>, seg: Seq<Registro<'ctx>>)
    ensures
        vars_decls(ds, seg).len() == ds.len(),
        forall|i: int|
            0 <= i < ds.len() ==> (#[trigger] vars_decls(ds, seg)[i]).0 == ds[i].nome && vars_decls(ds, seg)[i].1
                == ds[i].tipo,
    decreases ds.len(),
{
    if ds.len() > 0 {
        let ti = tam_decls(ds.drop_last());
        lemma_vars_decls(ds.drop_last(), seg.take(ti));
        assert forall|i: int| 0 <= i < ds.len() implies (#[trigger] vars_decls(ds, seg)[i]).0 == ds[i].nome
            && vars_decls(ds, seg)[i].1 == ds[i].tipo by {
            if i < ds.len() - 1 {
                assert(ds.drop_last()[i] == ds[i]);
                assert(vars_decls(ds, seg)[i] == vars_decls(ds.drop_last(), seg.take(ti))[i]);
            }
        }
    }
}

/// For a valid list of declarations made after the variables `vs`, the types that
/// code generation sees agree with the scope of the declarations.
proof fn lemma_concorda<'ctx>(vs: Seq<(Seq<char>, Tipo, PointerValue<'ctx>)>, ds: Seq<DeclV>, seg: Seq<Registro<'ctx>>)
    requires
        declaracoes_distintas(ds),
    ensures
        concorda(ambiente_de(ds), mapa_vars(vs + vars_decls(ds, seg))),
{
    crate::semantic::lemma_ambiente_de(ds);
    lemma_vars_decls(ds, seg);
    let vd = vars_decls(ds, seg);
    let all = vs + vd;
    assert forall|n: Seq<char>| #[trigger] ambiente_de(ds).dom().contains(n) implies mapa_vars(all).dom().contains(n)
        && mapa_vars(all)[n].0 == ambiente_de(ds)[n].tipo by {
        let i = choose|i: int| 0 <= i < ds.len() && ds[i].nome == n;
        lemma_ambiente_tipo(ds, i);
        let idx = vs.len() + i;
        assert(all[idx] == vd[i]);
        assert(vd[i].0 == ds[i].nome);
        assert forall|j: int| idx < j < all.len() implies all[j].0 != all[idx].0 by {
            let jj = j - vs.len();
            assert(all[j] == vd[jj]);
            assert(vd[jj].0 == ds[jj].nome);
        }
        lemma_mapa_vars(all, idx);
    }
}

/// The type the analysis gives an expression is the one code generation computes.
proof fn lemma_tipo_expr<'ctx>(amb: Ambiente, env: Escopo<'ctx>, e: ExprV)
    requires
        concorda(amb, env),
        tipo_de(amb, e) is Some,
    ensures
        tipo_expr(env, e) == tipo_de(amb, e)->0,
    decreases e,
{
    match e {
        ExprV::UnOp { operando, .. } => {
            lemma_tipo_expr(amb, env, *operando);
        },
        ExprV::BinOp { esq, dir, .. } => {
            lemma_tipo_expr(amb, env, *esq);
            lemma_tipo_expr(amb, env, *dir);
        },
        ExprV::Var(n, _) => {
            assert(amb.dom().contains(n));
        },
        _ => {},
    }
}

/// A list of commands is well formed exactly when each of them is.
proof fn lemma_comandos_ok(amb: Ambiente, cs: Seq<CmdV>)
    ensures
        comandos_ok(amb, cs) <==> forall|i: int| 0 <= i < cs.len() ==> #[trigger] comando_ok(amb, cs[i]),
    decreases cs.len(),
{
    if cs.len() > 0 {
        let p = cs.subrange(0, cs.len() - 1);
        lemma_comandos_ok(amb, p);
        if comandos_ok(amb, cs) {
            assert forall|i: int| 0 <= i < cs.len() implies #[trigger] comando_ok(amb, cs[i]) by {
                if i < cs.len() - 1 {
                    assert(p[i] == cs[i]);
                }
            }
        }
        if forall|i: int| 0 <= i < cs.len() ==> #[trigger] comando_ok(amb, cs[i]) {
            assert forall|i: int| 0 <= i < p.len() implies #[trigger] comando_ok(amb, p[i]) by {
                assert(p[i] == cs[i]);
            }
            assert(comando_ok(amb, cs[cs.len() - 1]));
        }
    }
}

/// The requests of declarations are as many as `tam_decls` says.
proof fn lemma_tam_decls<'ctx>(ds: Seq<DeclV>, seg: Seq<Registro<'ctx>>)
    ensures
        em_decls(ds, seg).len() == tam_decls(ds),
        tam_decls(ds) >= 0,
    decreases ds.len(),
{
    if ds.len() > 0 {
        lemma_tam_decls(ds.drop_last(), seg.take(tam_decls(ds.drop_last())));
    }
}

/// Where the slot of declaration `i` is asked for among the requests of the
/// declarations.
proof fn lemma_slot_em_decls<'ctx>(ds: Seq<DeclV>, i: int, seg: Seq<Registro<'ctx>>) -> (j: int)
    requires
        0 <= i < ds.len(),
    ensures
        0 <= j < em_decls(ds, seg).len(),
        em_decls(ds, seg)[j].pedido == (Pedido::Alloca { tipo: tipo_do_slot(ds[i].tipo), nome: ds[i].nome }),
    decreases ds.len(),
{
    let p = ds.drop_last();
    let d = ds.last();
    let ti = tam_decls(p);
    lemma_tam_decls(p, seg.take(ti));
    let k: int = match d.tipo {
        Tipo::String => 1,
        _ => 0,
    };
    if i == ds.len() - 1 {
        let sub = seg.subrange(ti, ti + tam_decl(d));
        assert(em_decl(d, sub)[k].pedido == (Pedido::Alloca { tipo: tipo_do_slot(d.tipo), nome: d.nome }));
        ti + k
    } else {
        assert(p[i] == ds[i]);
        lemma_slot_em_decls(p, i, seg.take(ti))
    }
}

/// Every declared variable gets a stack slot under its own name, of the type of
/// its values: `i32` for `int`, `i1` for `bool`, and `i8*` for `string` (which
/// points at the variable's buffer).
pub proof fn lei_slot_por_declaracao<'ctx>(
    vs: Seq<(Seq<char>, Tipo, PointerValue<'ctx>)>,
    f: Funcoes<'ctx>,
    p: ProgV,
    k: u32,
    seg: Seq<Registro<'ctx>>,
    i: int,
)
    requires
        0 <= i < p.declaracoes.len(),
    ensures
        exists|j: int|
            0 <= j < em_programa(vs, f, p, k, seg).0.len() && #[trigger] em_programa(vs, f, p, k, seg).0[j].pedido == (
            Pedido::Alloca { tipo: tipo_do_slot(p.declaracoes[i].tipo), nome: p.declaracoes[i].nome }),
{
    let td = tam_decls(p.declaracoes);
    let j = lemma_slot_em_decls(p.declaracoes, i, seg.take(td));
    let s = em_programa(vs, f, p, k, seg).0;
    assert(s[j] == em_decls(p.declaracoes, seg.take(td))[j]);
}

/// Every program becomes one function `main` that ends with `ret i32 0`: the
/// constant 0, then the return of that very constant.
pub proof fn lei_main_retorna_zero<'ctx>(
    vs: Seq<(Seq<char>, Tipo, PointerValue<'ctx>)>,
    f: Funcoes<'ctx>,
    p: ProgV,
    k: u32,
    seg: Seq<Registro<'ctx>>,
)
    ensures
        em_programa(vs, f, p, k, seg).0.len() >= 2,
        em_programa(vs, f, p, k, seg).0[em_programa(vs, f, p, k, seg).0.len() - 2].pedido == (Pedido::Constante {
            tipo: TipoIR::I32,
            valor: 0,
            sinal: false,
        }),
        em_programa(vs, f, p, k, seg).0[em_programa(vs, f, p, k, seg).0.len() - 1] == reg(
            Pedido::Retorno,
            seq![em_programa(vs, f, p, k, seg).0[em_programa(vs, f, p, k, seg).0.len() - 2].resultado],
            ValorLLVM::Nenhum,
        ),
{
}

/// A request that ends a block: a branch or a return.
pub open spec fn eh_terminador(p: Pedido) -> bool {
    p is Desvio || p is DesvioCondicional || p is Retorno
}

/// A request that moves the builder to another block.
pub open spec fn eh_posiciona(p: Pedido) -> bool {
    p is Posiciona
}

/// Records that neither end a block nor move the builder.
pub open spec fn sem_fronteiras<'ctx>(s: Seq<Registro<'ctx>>) -> bool {
    forall|i: int| 0 <= i < s.len() ==> !eh_terminador(#[trigger] s[i].pedido) && !eh_posiciona(s[i].pedido)
}

/// In `s`, every end of a block is followed at once by a move to another block,
/// and every move comes right after the end of a block.
pub open spec fn blocos_fechados<'ctx>(s: Seq<Registro<'ctx>>) -> bool {
    forall|i: int|
        0 <= i < s.len() ==> (eh_terminador(#[trigger] s[i].pedido) ==> i + 1 < s.len() && eh_posiciona(
            s[i + 1].pedido,
        )) && (eh_posiciona(s[i].pedido) ==> i > 0 && eh_terminador(s[i - 1].pedido))
}

proof fn lemma_sem_concat<'ctx>(a: Seq<Registro<'ctx>>, b: Seq<Registro<'ctx>>)
    requires
        sem_fronteiras(a),
        sem_fronteiras(b),
    ensures
        sem_fronteiras(a + b),
{
    assert forall|i: int| 0 <= i < (a + b).len() implies !eh_terminador(#[trigger] (a + b)[i].pedido) && !eh_posiciona(
        (a + b)[i].pedido,
    ) by {
        if i < a.len() {
            assert((a + b)[i] == a[i]);
        } else {
            assert((a + b)[i] == b[i - a.len()]);
        }
    }
}

proof fn lemma_fechados_concat<'ctx>(a: Seq<Registro<'ctx>>, b: Seq<Registro<'ctx>>)
    requires
        blocos_fechados(a),
        blocos_fechados(b),
    ensures
        blocos_fechados(a + b),
{
    let s = a + b;
    assert forall|i: int| 0 <= i < s.len() implies (eh_terminador(#[trigger] s[i].pedido) ==> i + 1 < s.len()
        && eh_posiciona(s[i + 1].pedido)) && (eh_posiciona(s[i].pedido) ==> i > 0 && eh_terminador(
        s[i - 1].pedido,
    )) by {
        if i < a.len() {
            assert(s[i] == a[i]);
            if eh_terminador(a[i].pedido) {
                assert(s[i + 1] == a[i + 1]);
            }
            if eh_posiciona(a[i].pedido) {
                assert(s[i - 1] == a[i - 1]);
            }
        } else {
            let j = i - a.len();
            assert(s[i] == b[j]);
            if eh_terminador(b[j].pedido) {
                assert(s[i + 1] == b[j + 1]);
            }
            if eh_posiciona(b[j].pedido) {
                assert(s[i - 1] == b[j - 1]);
            }
        }
    }
}

proof fn lemma_sem_fechados<'ctx>(a: Seq<Registro<'ctx>>)
    requires
        sem_fronteiras(a),
    ensures
        blocos_fechados(a),
{
    assert forall|i: int| 0 <= i < a.len() implies (eh_terminador(#[trigger] a[i].pedido) ==> i + 1 < a.len()
        && eh_posiciona(a[i + 1].pedido)) && (eh_posiciona(a[i].pedido) ==> i > 0 && eh_terminador(
        a[i - 1].pedido,
    )) by {
        assert(!eh_terminador(a[i].pedido));
    }
}

/// One end of a block followed by a move.
proof fn lemma_par<'ctx>(t: Registro<'ctx>, p: Registro<'ctx>)
    requires
        eh_terminador(t.pedido),
        eh_posiciona(p.pedido),
    ensures
        blocos_fechados(seq![t, p]),
{
    let s = seq![t, p];
    assert forall|i: int| 0 <= i < s.len() implies (eh_terminador(#[trigger] s[i].pedido) ==> i + 1 < s.len()
        && eh_posiciona(s[i + 1].pedido)) && (eh_posiciona(s[i].pedido) ==> i > 0 && eh_terminador(
        s[i - 1].pedido,
    )) by {
        if i == 0 {
            assert(s[0] == t);
            assert(s[1] == p);
        } else {
            assert(s[1] == p);
            assert(s[0] == t);
        }
    }
}

proof fn lemma_global_sem<'ctx>(k: u32, s: Seq<char>, seg: Seq<Registro<'ctx>>)
    ensures
        sem_fronteiras(em_global(k, s, seg)),
{
    let r = em_global(k, s, seg);
    let n = bytes_c(s).len() as int;
    assert forall|i: int| 0 <= i < r.len() implies !eh_terminador(#[trigger] r[i].pedido) && !eh_posiciona(
        r[i].pedido,
    ) by {
        if i == 0 {
        } else if i <= n {
        } else {
            assert(i - n - 1 < 7);
        }
    }
}

proof fn lemma_expr_sem<'ctx>(env: Escopo<'ctx>, f: Funcoes<'ctx>, e: ExprV, k: u32, seg: Seq<Registro<'ctx>>)
    ensures
        sem_fronteiras(em_expr(env, f, e, k, seg).0),
    decreases e,
{
    match e {
        ExprV::LitString(s, _) => lemma_global_sem(k, s, seg),
        ExprV::UnOp { op, operando, .. } => {
            let t = tam_expr(env, *operando);
            lemma_expr_sem(env, f, *operando, k, seg.take(t));
            let p = em_expr(env, f, *operando, k, seg.take(t)).0;
            let r = em_expr(env, f, e, k, seg).0;
            assert forall|i: int| 0 <= i < r.len() implies !eh_terminador(#[trigger] r[i].pedido) && !eh_posiciona(
                r[i].pedido,
            ) by {
                if i < p.len() {
                    assert(r[i] == p[i]);
                }
            }
        },
        ExprV::BinOp { op, esq, dir, .. } => {
            let te = tam_expr(env, *esq);
            let td = tam_expr(env, *dir);
            lemma_expr_sem(env, f, *esq, k, seg.take(te));
            let k1 = em_expr(env, f, *esq, k, seg.take(te)).1;
            lemma_expr_sem(env, f, *dir, k1, seg.subrange(te, te + td));
            let pe = em_expr(env, f, *esq, k, seg.take(te)).0;
            let pd = em_expr(env, f, *dir, k1, seg.subrange(te, te + td)).0;
            lemma_sem_concat(pe, pd);
            let r = em_expr(env, f, e, k, seg).0;
            assert forall|i: int| 0 <= i < r.len() implies !eh_terminador(#[trigger] r[i].pedido) && !eh_posiciona(
                r[i].pedido,
            ) by {
                if i < pe.len() + pd.len() {
                    assert(r[i] == (pe + pd)[i]);
                }
            }
        },
        _ => {},
    }
}

proof fn lemma_cmd_fechado<'ctx>(env: Escopo<'ctx>, f: Funcoes<'ctx>, c: CmdV, k: u32, seg: Seq<Registro<'ctx>>)
    ensures
        blocos_fechados(em_cmd(env, f, c, k, seg).0),
    decreases c, 1nat,
{
    let r = em_cmd(env, f, c, k, seg).0;
    match c {
        CmdV::Atribuicao { nome, expr, .. } => {
            let te = tam_expr(env, expr);
            if env[nome].0 == Tipo::String {
                lemma_expr_sem(env, f, expr, k, seg.subrange(1, 1 + te));
            } else {
                lemma_expr_sem(env, f, expr, k, seg.take(te));
            }
            assert forall|i: int| 0 <= i < r.len() implies !eh_terminador(#[trigger] r[i].pedido) && !eh_posiciona(
                r[i].pedido,
            ) by {
                if env[nome].0 == Tipo::String {
                    let pe = em_expr(env, f, expr, k, seg.subrange(1, 1 + te)).0;
                    if 0 < i <= pe.len() {
                        assert(r[i] == pe[i - 1]);
                    }
                } else {
                    let pe = em_expr(env, f, expr, k, seg.take(te)).0;
                    if i < pe.len() {
                        assert(r[i] == pe[i]);
                    }
                }
            }
            lemma_sem_fechados(r);
        },
        CmdV::If { condicao, entao, senao, .. } => {
            let tc = tam_expr(env, condicao);
            lemma_expr_sem(env, f, condicao, k, seg.take(tc));
            let (pc, k1) = em_expr(env, f, condicao, k, seg.take(tc));
            lemma_sem_fechados(pc);
            let tt = tam_cmds(env, entao);
            let vc = valor_expr(env, condicao, seg);
            let bt = seg[tc].resultado;
            match senao {
                Some(s) => {
                    let be = seg[tc + 1].resultado;
                    let bm = seg[tc + 2].resultado;
                    let segt = seg.subrange(tc + 5, tc + 5 + tt);
                    lemma_cmds_fechado(env, f, entao, k1, segt);
                    let (pt, k2) = em_cmds(env, f, entao, k1, segt);
                    let ts = tam_cmds(env, s);
                    let segs = seg.subrange(tc + 7 + tt, tc + 7 + tt + ts);
                    lemma_cmds_fechado(env, f, s, k2, segs);
                    let ps = em_cmds(env, f, s, k2, segs).0;
                    let blocos = seq![em_bloco(f, "if.then"@, bt), em_bloco(f, "if.else"@, be), em_bloco(f, "if.merge"@, bm)];
                    lemma_sem_fechados(blocos);
                    let cb = reg(
                        Pedido::DesvioCondicional { entao: "if.then"@, senao: "if.else"@ },
                        seq![vc, bt, be],
                        ValorLLVM::Nenhum,
                    );
                    lemma_par(cb, em_posiciona("if.then"@, bt));
                    lemma_par(em_desvio("if.merge"@, bm), em_posiciona("if.else"@, be));
                    lemma_par(em_desvio("if.merge"@, bm), em_posiciona("if.merge"@, bm));
                    let x1 = seq![cb, em_posiciona("if.then"@, bt)];
                    let x2 = seq![em_desvio("if.merge"@, bm), em_posiciona("if.else"@, be)];
                    let x3 = seq![em_desvio("if.merge"@, bm), em_posiciona("if.merge"@, bm)];
                    lemma_fechados_concat(pc, blocos);
                    lemma_fechados_concat(pc + blocos, x1);
                    lemma_fechados_concat(pc + blocos + x1, pt);
                    lemma_fechados_concat(pc + blocos + x1 + pt, x2);
                    lemma_fechados_concat(pc + blocos + x1 + pt + x2, ps);
                    lemma_fechados_concat(pc + blocos + x1 + pt + x2 + ps, x3);
                    assert(r =~= pc + blocos + x1 + pt + x2 + ps + x3);
                },
                None => {
                    let bm = seg[tc + 1].resultado;
                    let segt = seg.subrange(tc + 4, tc + 4 + tt);
                    lemma_cmds_fechado(env, f, entao, k1, segt);
                    let pt = em_cmds(env, f, entao, k1, segt).0;
                    let blocos = seq![em_bloco(f, "if.then"@, bt), em_bloco(f, "if.merge"@, bm)];
                    lemma_sem_fechados(blocos);
                    let cb = reg(
                        Pedido::DesvioCondicional { entao: "if.then"@, senao: "if.merge"@ },
                        seq![vc, bt, bm],
                        ValorLLVM::Nenhum,
                    );
                    lemma_par(cb, em_posiciona("if.then"@, bt));
                    lemma_par(em_desvio("if.merge"@, bm), em_posiciona("if.merge"@, bm));
                    let x1 = seq![cb, em_posiciona("if.then"@, bt)];
                    let x3 = seq![em_desvio("if.merge"@, bm), em_posiciona("if.merge"@, bm)];
                    lemma_fechados_concat(pc, blocos);
                    lemma_fechados_concat(pc + blocos, x1);
                    lemma_fechados_concat(pc + blocos + x1, pt);
                    lemma_fechados_concat(pc + blocos + x1 + pt, x3);
                    assert(r =~= pc + blocos + x1 + pt + x3);
                },
            }
        },
        CmdV::While { condicao, corpo, .. } => {
            let bc = seg[0].resultado;
            let bb = seg[1].resultado;
            let be = seg[2].resultado;
            let tc = tam_expr(env, condicao);
            let segc = seg.subrange(5, 5 + tc);
            lemma_expr_sem(env, f, condicao, k, segc);
            let (pc, k1) = em_expr(env, f, condicao, k, segc);
            lemma_sem_fechados(pc);
            let vc = valor_expr(env, condicao, segc);
            let tb = tam_cmds(env, corpo);
            let segb = seg.subrange(7 + tc, 7 + tc + tb);
            lemma_cmds_fechado(env, f, corpo, k1, segb);
            let pb = em_cmds(env, f, corpo, k1, segb).0;
            let blocos = seq![em_bloco(f, "while.cond"@, bc), em_bloco(f, "while.body"@, bb), em_bloco(f, "while.end"@, be)];
            lemma_sem_fechados(blocos);
            let cb = reg(
                Pedido::DesvioCondicional { entao: "while.body"@, senao: "while.end"@ },
                seq![vc, bb, be],
                ValorLLVM::Nenhum,
            );
            lemma_par(em_desvio("while.cond"@, bc), em_posiciona("while.cond"@, bc));
            lemma_par(cb, em_posiciona("while.body"@, bb));
            lemma_par(em_desvio("while.cond"@, bc), em_posiciona("while.end"@, be));
            let x0 = seq![em_desvio("while.cond"@, bc), em_posiciona("while.cond"@, bc)];
            let x1 = seq![cb, em_posiciona("while.body"@, bb)];
            let x2 = seq![em_desvio("while.cond"@, bc), em_posiciona("while.end"@, be)];
            lemma_fechados_concat(blocos, x0);
            lemma_fechados_concat(blocos + x0, pc);
            lemma_fechados_concat(blocos + x0 + pc, x1);
            lemma_fechados_concat(blocos + x0 + pc + x1, pb);
            lemma_fechados_concat(blocos + x0 + pc + x1 + pb, x2);
            assert(r =~= blocos + x0 + pc + x1 + pb + x2);
        },
        CmdV::Print { expr, .. } => {
            let te = tam_expr(env, expr);
            lemma_expr_sem(env, f, expr, k, seg.take(te));
            let (pe, k1) = em_expr(env, f, expr, k, seg.take(te));
            let fmt = match tipo_expr(env, expr) {
                Tipo::String => "%s\n"@,
                _ => "%d\n"@,
            };
            let tg = tam_global(fmt);
            lemma_global_sem(k1, fmt, seg.subrange(te, te + tg));
            let g = em_global(k1, fmt, seg.subrange(te, te + tg));
            lemma_sem_concat(pe, g);
            assert forall|i: int| 0 <= i < r.len() implies !eh_terminador(#[trigger] r[i].pedido) && !eh_posiciona(
                r[i].pedido,
            ) by {
                if i < pe.len() + g.len() {
                    assert(r[i] == (pe + g)[i]);
                }
            }
            lemma_sem_fechados(r);
        },
        CmdV::Read { nome, .. } => {
            match env[nome].0 {
                Tipo::Int => {
                    let tg = tam_global("%d"@);
                    let g = em_global(k, "%d"@, seg.take(tg));
                    lemma_global_sem(k, "%d"@, seg.take(tg));
                    assert forall|i: int| 0 <= i < r.len() implies !eh_terminador(#[trigger] r[i].pedido)
                        && !eh_posiciona(r[i].pedido) by {
                        if i < g.len() {
                            assert(r[i] == g[i]);
                        }
                    }
                },
                Tipo::String => {
                    let tg = tam_global("%255s"@);
                    let g = em_global(k, "%255s"@, seg.subrange(1, 1 + tg));
                    lemma_global_sem(k, "%255s"@, seg.subrange(1, 1 + tg));
                    assert forall|i: int| 0 <= i < r.len() implies !eh_terminador(#[trigger] r[i].pedido)
                        && !eh_posiciona(r[i].pedido) by {
                        if 0 < i <= g.len() {
                            assert(r[i] == g[i - 1]);
                        }
                    }
                },
                Tipo::Bool => {},
            }
            lemma_sem_fechados(r);
        },
        CmdV::Bloco(cs) => lemma_cmds_fechado(env, f, cs, k, seg),
    }
}

proof fn lemma_cmds_fechado<'ctx>(env: Escopo<'ctx>, f: Funcoes<'ctx>, cs: Seq<CmdV>, k: u32, seg: Seq<Registro<'ctx>>)
    ensures
        blocos_fechados(em_cmds(env, f, cs, k, seg).0),
    decreases cs, 0nat,
{
    if cs.len() == 0 {
        lemma_sem_fechados(Seq::<Registro<'ctx>>::empty());
    } else {
        let init = cs.subrange(0, cs.len() - 1);
        let ti = tam_cmds(env, init);
        lemma_cmds_fechado(env, f, init, k, seg.take(ti));
        let (p, k1) = em_cmds(env, f, init, k, seg.take(ti));
        let c = cs[cs.len() - 1];
        lemma_cmd_fechado(env, f, c, k1, seg.subrange(ti, ti + tam_cmd(env, c)));
        let q = em_cmd(env, f, c, k1, seg.subrange(ti, ti + tam_cmd(env, c))).0;
        lemma_fechados_concat(p, q);
    }
}

proof fn lemma_decls_sem<'ctx>(ds: Seq<DeclV>, seg: Seq<Registro<'ctx>>)
    ensures
        sem_fronteiras(em_decls(ds, seg)),
    decreases ds.len(),
{
    if ds.len() > 0 {
        let ti = tam_decls(ds.drop_last());
        lemma_decls_sem(ds.drop_last(), seg.take(ti));
        let d = em_decl(ds.last(), seg.subrange(ti, ti + tam_decl(ds.last())));
        assert(sem_fronteiras(d));
        lemma_sem_concat(em_decls(ds.drop_last(), seg.take(ti)), d);
    }
}

/// Every block of `main` ends with exactly one terminator and has nothing after
/// it: in what a program asks of LLVM, the last request is the `ret`, every branch
/// is followed at once by a move of the builder to another block, and every move
/// comes right after a branch.
pub proof fn lei_blocos_terminados<'ctx>(
    vs: Seq<(Seq<char>, Tipo, PointerValue<'ctx>)>,
    f: Funcoes<'ctx>,
    p: ProgV,
    k: u32,
    seg: Seq<Registro<'ctx>>,
)
    ensures
        ({
            let s = em_programa(vs, f, p, k, seg).0;
            &&& s.len() > 0
            &&& s.last().pedido == Pedido::Retorno
            &&& forall|i: int|
                0 <= i < s.len() ==> (eh_terminador(#[trigger] s[i].pedido) ==> i + 1 == s.len() || eh_posiciona(
                    s[i + 1].pedido,
                )) && (eh_posiciona(s[i].pedido) ==> i > 0 && eh_terminador(s[i - 1].pedido))
        }),
{
    let td = tam_decls(p.declaracoes);
    let env = mapa_vars(vs + vars_decls(p.declaracoes, seg.take(td)));
    let tc = tam_cmds(env, p.comandos);
    let d = em_decls(p.declaracoes, seg.take(td));
    lemma_decls_sem(p.declaracoes, seg.take(td));
    lemma_sem_fechados(d);
    let c = em_cmds(env, f, p.comandos, k, seg.subrange(td, td + tc)).0;
    lemma_cmds_fechado(env, f, p.comandos, k, seg.subrange(td, td + tc));
    lemma_fechados_concat(d, c);
    let z = seg[td + tc].resultado;
    let fim = seq![
        reg(Pedido::Constante { tipo: TipoIR::I32, valor: 0, sinal: false }, seq![], z),
        reg(Pedido::Retorno, seq![z], ValorLLVM::Nenhum),
    ];
    let s = em_programa(vs, f, p, k, seg).0;
    let dc = d + c;
    assert(s =~= dc + fim);
    assert forall|i: int| 0 <= i < s.len() implies (eh_terminador(#[trigger] s[i].pedido) ==> i + 1 == s.len()
        || eh_posiciona(s[i + 1].pedido)) && (eh_posiciona(s[i].pedido) ==> i > 0 && eh_terminador(
        s[i - 1].pedido,
    )) by {
        if i < dc.len() {
            assert(s[i] == dc[i]);
            if eh_terminador(dc[i].pedido) {
                assert(s[i + 1] == dc[i + 1]);
            }
            if eh_posiciona(dc[i].pedido) {
                assert(s[i - 1] == dc[i - 1]);
            }
        } else if i == dc.len() {
            assert(s[i] == fim[0]);
        } else {
            assert(s[i] == fim[1]);
            assert(s[i - 1] == fim[0]);
        }
    }
}

/// Each binary operator of the language is asked of LLVM as the instruction that
/// computes it: `+` `-` `*` add, subtract and multiply; `/` and `%` divide; `>`
/// `<` `>=` `<=` `==` `!=` compare as their symbols say; `&&` and `||` are true
/// when both, or either, of their sides are.
pub proof fn lei_instrucao_binaria(op: OpBin, a: int, b: int)
    ensures
        match op {
            OpBin::Add => instr_binaria(op) matches Pedido::Binaria { op: o, .. } && calcula_llvm(o, a, b) == a + b,
            OpBin::Sub => instr_binaria(op) matches Pedido::Binaria { op: o, .. } && calcula_llvm(o, a, b) == a - b,
            OpBin::Mul => instr_binaria(op) matches Pedido::Binaria { op: o, .. } && calcula_llvm(o, a, b) == a * b,
            OpBin::Div => instr_binaria(op) matches Pedido::Binaria { op: o, .. } && (0 <= a && 0 < b
                ==> calcula_llvm(o, a, b) == a / b) && (a < 0 && 0 < b ==> calcula_llvm(o, a, b) == -((-a) / b)),
            OpBin::Mod => instr_binaria(op) matches Pedido::Binaria { op: o, .. } && (0 <= a && 0 < b
                ==> calcula_llvm(o, a, b) == a % b),
            OpBin::Gt => instr_binaria(op) matches Pedido::Compara { pred, .. } && (compara_llvm(pred, a, b) <==> a > b),
            OpBin::Lt => instr_binaria(op) matches Pedido::Compara { pred, .. } && (compara_llvm(pred, a, b) <==> a < b),
            OpBin::Ge => instr_binaria(op) matches Pedido::Compara { pred, .. } && (compara_llvm(pred, a, b) <==> a >= b),
            OpBin::Le => instr_binaria(op) matches Pedido::Compara { pred, .. } && (compara_llvm(pred, a, b) <==> a <= b),
            OpBin::Eq => instr_binaria(op) matches Pedido::Compara { pred, .. } && (compara_llvm(pred, a, b) <==> a == b),
            OpBin::Neq => instr_binaria(op) matches Pedido::Compara { pred, .. } && (compara_llvm(pred, a, b) <==> a != b),
            OpBin::And => instr_binaria(op) matches Pedido::Binaria { op: o, .. } && (calcula_llvm(o, a, b) != 0 <==> (
            a != 0 && b != 0)),
            OpBin::Or => instr_binaria(op) matches Pedido::Binaria { op: o, .. } && (calcula_llvm(o, a, b) != 0 <==> (
            a != 0 || b != 0)),
        },
{
    if 0 <= a && 0 < b {
        vstd::arithmetic::div_mod::lemma_fundamental_div_mod(a, b);
    }
}

/// A string `esq + dir` is built in a buffer of its own, which is its value:
/// first `strcpy` copies the value of the left operand into the buffer, then
/// `strcat` appends the value of the right operand, so the text is the left one
/// followed by the right one. The left operand's requests come first, the right
/// operand's next.
pub proof fn lei_concatenacao<'ctx>(
    env: Escopo<'ctx>,
    f: Funcoes<'ctx>,
    esq: ExprV,
    dir: ExprV,
    span: Span,
    k: u32,
    n: Seq<Registro<'ctx>>,
)
    requires
        tipo_expr(env, esq) == Tipo::String,
        n == em_expr(env, f, ExprV::BinOp { op: OpBin::Add, esq: Box::new(esq), dir: Box::new(dir), span }, k, n).0,
    ensures
        ({
            let e = ExprV::BinOp { op: OpBin::Add, esq: Box::new(esq), dir: Box::new(dir), span };
            let te = tam_expr(env, esq);
            let td = tam_expr(env, dir);
            let esquerdo = valor_expr(env, esq, n.take(te));
            let direito = valor_expr(env, dir, n.subrange(te, te + td));
            let buf = valor_expr(env, e, n);
            exists|i: int, j: int|
                te + td <= i < j < n.len() && n[i].pedido == (Pedido::Chamada { funcao: "strcpy"@, nome: ""@ })
                    && n[i].operandos == seq![ValorLLVM::Funcao(f.strcpy), buf, esquerdo] && n[j].pedido == (
                Pedido::Chamada { funcao: "strcat"@, nome: ""@ }) && n[j].operandos == seq![
                    ValorLLVM::Funcao(f.strcat),
                    buf,
                    direito,
                ]
        }),
{
    let e = ExprV::BinOp { op: OpBin::Add, esq: Box::new(esq), dir: Box::new(dir), span };
    let te = tam_expr(env, esq);
    let td = tam_expr(env, dir);
    Codegen::<'ctx>::lemma_tam_expr(env, esq);
    Codegen::<'ctx>::lemma_tam_expr(env, dir);
    let b = te + td;
    let k1 = em_expr(env, f, esq, k, n.take(te)).1;
    lemma_tam_em_expr(env, f, esq, k, n.take(te));
    lemma_tam_em_expr(env, f, dir, k1, n.subrange(te, te + td));
    assert(n.take(te)[idx_valor(env, esq)] == n[idx_valor(env, esq)]);
    let i = b + 2;
    let j = b + 3;
    assert(te + td <= i < j < n.len());
}

/// An expression asks LLVM for as many requests as `tam_expr` counts.
proof fn lemma_tam_em_expr<'ctx>(env: Escopo<'ctx>, f: Funcoes<'ctx>, e: ExprV, k: u32, seg: Seq<Registro<'ctx>>)
    ensures
        em_expr(env, f, e, k, seg).0.len() == tam_expr(env, e),
    decreases e,
{
    match e {
        ExprV::UnOp { operando, .. } => {
            lemma_tam_em_expr(env, f, *operando, k, seg.take(tam_expr(env, *operando)));
        },
        ExprV::BinOp { esq, dir, .. } => {
            let te = tam_expr(env, *esq);
            let td = tam_expr(env, *dir);
            lemma_tam_em_expr(env, f, *esq, k, seg.take(te));
            let k1 = em_expr(env, f, *esq, k, seg.take(te)).1;
            lemma_tam_em_expr(env, f, *dir, k1, seg.subrange(te, te + td));
        },
        _ => {},
    }
}

/// `-x` is LLVM's `neg` of the value of `x`; `!b` is the value of `b` combined by
/// an instruction with a constant that, on `i1` values, is true exactly when `b`
/// is false. Either way the result is the value of the whole.
pub proof fn lei_instrucao_unaria<'ctx>(
    env: Escopo<'ctx>,
    f: Funcoes<'ctx>,
    op: OpUn,
    operando: ExprV,
    span: Span,
    k: u32,
    n: Seq<Registro<'ctx>>,
)
    requires
        n == em_expr(env, f, ExprV::UnOp { op, operando: Box::new(operando), span }, k, n).0,
    ensures
        ({
            let e = ExprV::UnOp { op, operando: Box::new(operando), span };
            let t = tam_expr(env, operando);
            let v = valor_expr(env, operando, n.take(t));
            &&& op == OpUn::Neg ==> n.len() == t + 1 && n[t].pedido is Neg && n[t].operandos == seq![v]
                && valor_expr(env, e, n) == n[t].resultado
            &&& op == OpUn::Not ==> n.len() == t + 2 && n[t + 1].operandos == seq![v, n[t].resultado]
                && valor_expr(env, e, n) == n[t + 1].resultado && (n[t].pedido matches Pedido::Constante {
                valor: c,
                ..
            } && n[t + 1].pedido matches Pedido::Binaria { op: o, .. } && forall|x: int|
                0 <= x <= 1 ==> (#[trigger] calcula_llvm(o, x, c as int) != 0 <==> x == 0))
        }),
{
    let t = tam_expr(env, operando);
    Codegen::<'ctx>::lemma_tam_expr(env, operando);
    lemma_tam_em_expr(env, f, operando, k, n.take(t));
    assert(n.take(t)[idx_valor(env, operando)] == n[idx_valor(env, operando)]);
}

/// Every variable starts out empty: the slot of an `int` or `bool` gets the
/// constant 0 (`false`); a `string` slot gets the address of its own new buffer,
/// whose first byte gets 0 (the empty string).
pub proof fn lei_valores_iniciais<'ctx>(d: DeclV, n: Seq<Registro<'ctx>>)
    requires
        n == em_decl(d, n),
    ensures
        n[0].pedido is Alloca,
        d.tipo != Tipo::String ==> n.len() == 3 && (n[1].pedido matches Pedido::Constante { valor: c, .. } && c == 0)
            && n[2].pedido is Store && n[2].operandos == seq![n[0].resultado, n[1].resultado],
        d.tipo == Tipo::String ==> n.len() == 6 && n[0].pedido == (Pedido::Alloca {
            tipo: TipoIR::Vetor(256),
            nome: d.nome + "_buf"@,
        }) && n[1].pedido is Alloca && n[2].operandos == seq![n[0].resultado] && n[3].pedido is Store
            && n[3].operandos == seq![n[1].resultado, n[2].resultado] && (n[4].pedido matches Pedido::Constante {
            valor: c,
            ..
        } && c == 0) && n[5].pedido is Store && n[5].operandos == seq![n[2].resultado, n[4].resultado],
{
}

/// A command asks LLVM for as many requests as `tam_cmd` counts.
proof fn lemma_tam_em_cmd<'ctx>(env: Escopo<'ctx>, f: Funcoes<'ctx>, c: CmdV, k: u32, seg: Seq<Registro<'ctx>>)
    ensures
        em_cmd(env, f, c, k, seg).0.len() == tam_cmd(env, c),
    decreases c, 1nat,
{
    match c {
        CmdV::Atribuicao { nome, expr, .. } => {
            let te = tam_expr(env, expr);
            lemma_tam_em_expr(env, f, expr, k, seg.subrange(1, 1 + te));
            lemma_tam_em_expr(env, f, expr, k, seg.take(te));
        },
        CmdV::If { condicao, entao, senao, .. } => {
            let tc = tam_expr(env, condicao);
            lemma_tam_em_expr(env, f, condicao, k, seg.take(tc));
            let k1 = em_expr(env, f, condicao, k, seg.take(tc)).1;
            let tt = tam_cmds(env, entao);
            match senao {
                Some(s) => {
                    lemma_tam_em_cmds(env, f, entao, k1, seg.subrange(tc + 5, tc + 5 + tt));
                    let k2 = em_cmds(env, f, entao, k1, seg.subrange(tc + 5, tc + 5 + tt)).1;
                    let ts = tam_cmds(env, s);
                    lemma_tam_em_cmds(env, f, s, k2, seg.subrange(tc + 7 + tt, tc + 7 + tt + ts));
                },
                None => {
                    lemma_tam_em_cmds(env, f, entao, k1, seg.subrange(tc + 4, tc + 4 + tt));
                },
            }
        },
        CmdV::While { condicao, corpo, .. } => {
            let tc = tam_expr(env, condicao);
            lemma_tam_em_expr(env, f, condicao, k, seg.subrange(5, 5 + tc));
            let k1 = em_expr(env, f, condicao, k, seg.subrange(5, 5 + tc)).1;
            let tb = tam_cmds(env, corpo);
            lemma_tam_em_cmds(env, f, corpo, k1, seg.subrange(7 + tc, 7 + tc + tb));
        },
        CmdV::Print { expr, .. } => {
            lemma_tam_em_expr(env, f, expr, k, seg.take(tam_expr(env, expr)));
        },
        CmdV::Read { .. } => {},
        CmdV::Bloco(cs) => lemma_tam_em_cmds(env, f, cs, k, seg),
    }
}

/// A list of commands asks LLVM for as many requests as `tam_cmds` counts.
proof fn lemma_tam_em_cmds<'ctx>(env: Escopo<'ctx>, f: Funcoes<'ctx>, cs: Seq<CmdV>, k: u32, seg: Seq<Registro<'ctx>>)
    ensures
        em_cmds(env, f, cs, k, seg).0.len() == tam_cmds(env, cs),
    decreases cs, 0nat,
{
    if cs.len() > 0 {
        let init = cs.subrange(0, cs.len() - 1);
        let ti = tam_cmds(env, init);
        lemma_tam_em_cmds(env, f, init, k, seg.take(ti));
        let k1 = em_cmds(env, f, init, k, seg.take(ti)).1;
        let c = cs[cs.len() - 1];
        lemma_tam_em_cmd(env, f, c, k1, seg.subrange(ti, ti + tam_cmd(env, c)));
    }
}

/// Strings `esq == dir` and `esq != dir` call `strcmp` on the value of the left
/// operand and the value of the right one, in that order, and compare what it
/// gives with the constant 0: `==` is true exactly when `strcmp` gives 0 (the texts
/// are equal), `!=` exactly when it does not.
pub proof fn lei_igualdade_texto<'ctx>(
    env: Escopo<'ctx>,
    f: Funcoes<'ctx>,
    op: OpBin,
    esq: ExprV,
    dir: ExprV,
    span: Span,
    k: u32,
    n: Seq<Registro<'ctx>>,
)
    requires
        op == OpBin::Eq || op == OpBin::Neq,
        tipo_expr(env, esq) == Tipo::String,
        n == em_expr(env, f, ExprV::BinOp { op, esq: Box::new(esq), dir: Box::new(dir), span }, k, n).0,
    ensures
        ({
            let e = ExprV::BinOp { op, esq: Box::new(esq), dir: Box::new(dir), span };
            let te = tam_expr(env, esq);
            let td = tam_expr(env, dir);
            let b = te + td;
            &&& n.len() == b + 3
            &&& n[b].pedido is Chamada && n[b].operandos == seq![
                ValorLLVM::Funcao(f.strcomp),
                valor_expr(env, esq, n.take(te)),
                valor_expr(env, dir, n.subrange(te, b)),
            ]
            &&& (n[b + 1].pedido matches Pedido::Constante { valor: c, .. } && c == 0)
            &&& n[b + 2].operandos == seq![n[b].resultado, n[b + 1].resultado]
            &&& valor_expr(env, e, n) == n[b + 2].resultado
            &&& (n[b + 2].pedido matches Pedido::Compara { pred, .. } && forall|r: int|
                #[trigger] compara_llvm(pred, r, 0) <==> (if op == OpBin::Eq { r == 0 } else { r != 0 }))
        }),
{
    let te = tam_expr(env, esq);
    let td = tam_expr(env, dir);
    Codegen::<'ctx>::lemma_tam_expr(env, esq);
    Codegen::<'ctx>::lemma_tam_expr(env, dir);
    lemma_tam_em_expr(env, f, esq, k, n.take(te));
    let k1 = em_expr(env, f, esq, k, n.take(te)).1;
    lemma_tam_em_expr(env, f, dir, k1, n.subrange(te, te + td));
    assert(n.take(te)[idx_valor(env, esq)] == n[idx_valor(env, esq)]);
}

/// An assignment `nome = expr`: for an `int` or `bool` variable, the value of
/// `expr` is stored into the variable's slot (destination first, value second);
/// for a `string` variable, the address of the variable's buffer is first loaded
/// from its slot, and `strcpy` copies the value of `expr` into it (destination
/// first, source second).
pub proof fn lei_codigo_atribuicao<'ctx>(
    env: Escopo<'ctx>,
    f: Funcoes<'ctx>,
    nome: Seq<char>,
    expr: ExprV,
    span: Span,
    k: u32,
    n: Seq<Registro<'ctx>>,
)
    requires
        n == em_cmd(env, f, CmdV::Atribuicao { nome, expr, span }, k, n).0,
    ensures
        ({
            let te = tam_expr(env, expr);
            let slot = ValorLLVM::Ptr(env[nome].1);
            &&& env[nome].0 != Tipo::String ==> n.len() == te + 1 && n[te].pedido is Store && n[te].operandos == seq![
                slot,
                valor_expr(env, expr, n.take(te)),
            ]
            &&& env[nome].0 == Tipo::String ==> n.len() == te + 2 && n[0].pedido is Load && n[0].operandos == seq![slot]
                && n[te + 1].pedido == (Pedido::Chamada { funcao: "strcpy"@, nome: ""@ }) && n[te + 1].operandos == seq![
                ValorLLVM::Funcao(f.strcpy),
                n[0].resultado,
                valor_expr(env, expr, n.subrange(1, 1 + te)),
            ]
        }),
{
    let te = tam_expr(env, expr);
    Codegen::<'ctx>::lemma_tam_expr(env, expr);
    lemma_tam_em_expr(env, f, expr, k, n.take(te));
    lemma_tam_em_expr(env, f, expr, k, n.subrange(1, 1 + te));
    if env[nome].0 != Tipo::String {
        assert(n.take(te)[idx_valor(env, expr)] == n[idx_valor(env, expr)]);
    }
}

/// `print(expr)` calls `printf` with the format first and the value second: the
/// format is a new string global holding `"%s\n"` for a `string` and `"%d\n"`
/// otherwise, made after the value; an `int` or `string` value is passed as it
/// is, a `bool` one widened to `i32` by `zext`.
pub proof fn lei_codigo_print<'ctx>(
    env: Escopo<'ctx>,
    f: Funcoes<'ctx>,
    expr: ExprV,
    span: Span,
    k: u32,
    n: Seq<Registro<'ctx>>,
)
    requires
        n == em_cmd(env, f, CmdV::Print { expr, span }, k, n).0,
    ensures
        ({
            let te = tam_expr(env, expr);
            let t = tipo_expr(env, expr);
            let fmt = if t == Tipo::String { "%s\n"@ } else { "%d\n"@ };
            let tg = tam_global(fmt);
            let k1 = em_expr(env, f, expr, k, n.take(te)).1;
            let v = valor_expr(env, expr, n.take(te));
            let chamada = n.last();
            &&& n.subrange(te, te + tg) == em_global(k1, fmt, n.subrange(te, te + tg))
            &&& chamada.pedido == (Pedido::Chamada { funcao: "printf"@, nome: ""@ })
            &&& t != Tipo::Bool ==> n.len() == te + tg + 1 && chamada.operandos == seq![
                ValorLLVM::Funcao(f.printf),
                n[te + tg - 1].resultado,
                v,
            ]
            &&& t == Tipo::Bool ==> n.len() == te + tg + 2 && n[te + tg].pedido is EstendeZero && n[te
                + tg].operandos == seq![v] && chamada.operandos == seq![
                ValorLLVM::Funcao(f.printf),
                n[te + tg - 1].resultado,
                n[te + tg].resultado,
            ]
        }),
{
    let te = tam_expr(env, expr);
    Codegen::<'ctx>::lemma_tam_expr(env, expr);
    lemma_tam_em_expr(env, f, expr, k, n.take(te));
    assert(n.take(te)[idx_valor(env, expr)] == n[idx_valor(env, expr)]);
    let t = tipo_expr(env, expr);
    let fmt = if t == Tipo::String { "%s\n"@ } else { "%d\n"@ };
    let k1 = em_expr(env, f, expr, k, n.take(te)).1;
    let tg = tam_global(fmt);
    assert(em_global(k1, fmt, n.subrange(te, te + tg)).len() == tg);
    assert(n.subrange(te, te + tg) =~= em_global(k1, fmt, n.subrange(te, te + tg)));
}

/// `read(x)` calls `scanf` with the format first and the destination second:
/// `"%d"` and the slot of an `int`; `"%255s"` (at most 255 bytes, the size of the
/// buffer) and the buffer's address, loaded from the slot, for a `string`.
pub proof fn lei_codigo_read<'ctx>(
    env: Escopo<'ctx>,
    f: Funcoes<'ctx>,
    nome: Seq<char>,
    span: Span,
    k: u32,
    n: Seq<Registro<'ctx>>,
)
    requires
        n == em_cmd(env, f, CmdV::Read { nome, span }, k, n).0,
        env[nome].0 != Tipo::Bool,
    ensures
        ({
            let slot = ValorLLVM::Ptr(env[nome].1);
            &&& env[nome].0 == Tipo::Int ==> {
                let tg = tam_global("%d"@);
                &&& n.len() == tg + 1
                &&& n.take(tg) == em_global(k, "%d"@, n.take(tg))
                &&& n[tg].pedido == (Pedido::Chamada { funcao: "scanf"@, nome: ""@ })
                &&& n[tg].operandos == seq![ValorLLVM::Funcao(f.scanf), n[tg - 1].resultado, slot]
            }
            &&& env[nome].0 == Tipo::String ==> {
                let tg = tam_global("%255s"@);
                &&& n.len() == tg + 2
                &&& n[0].pedido is Load && n[0].operandos == seq![slot]
                &&& n.subrange(1, 1 + tg) == em_global(k, "%255s"@, n.subrange(1, 1 + tg))
                &&& n[1 + tg].pedido == (Pedido::Chamada { funcao: "scanf"@, nome: ""@ })
                &&& n[1 + tg].operandos == seq![ValorLLVM::Funcao(f.scanf), n[tg].resultado, n[0].resultado]
            }
        }),
{
    if env[nome].0 == Tipo::Int {
        let tg = tam_global("%d"@);
        assert(em_global(k, "%d"@, n.take(tg)).len() == tg);
        assert(n.take(tg) =~= em_global(k, "%d"@, n.take(tg)));
    } else {
        let tg = tam_global("%255s"@);
        assert(em_global(k, "%255s"@, n.subrange(1, 1 + tg)).len() == tg);
        assert(n.subrange(1, 1 + tg) =~= em_global(k, "%255s"@, n.subrange(1, 1 + tg)));
    }
}

/// Where an `if` goes: its conditional branch tests the value of the condition;
/// when true it goes to the block the builder moves to right before the first
/// branch's commands, when false to the block it moves to right before the
/// `else` commands (or, without `else`, to the block where the `if` ends, which is
/// where the builder is left).
pub proof fn lei_desvios_if<'ctx>(
    env: Escopo<'ctx>,
    f: Funcoes<'ctx>,
    condicao: ExprV,
    entao: Seq<CmdV>,
    senao: Option<Seq<CmdV>>,
    span: Span,
    k: u32,
    n: Seq<Registro<'ctx>>,
)
    requires
        n == em_cmd(env, f, CmdV::If { condicao, entao, senao, span }, k, n).0,
    ensures
        ({
            let tc = tam_expr(env, condicao);
            let tt = tam_cmds(env, entao);
            let k1 = em_expr(env, f, condicao, k, n.take(tc)).1;
            let vc = valor_expr(env, condicao, n.take(tc));
            // the blocks made first: then, (else,) merge
            let nb: int = if senao is Some { 3 } else { 2 };
            let cb = n[tc + nb];
            &&& cb.pedido is DesvioCondicional
            &&& cb.operandos.len() == 3 && cb.operandos[0] == vc
            &&& n[tc + nb + 1].pedido is Posiciona && n[tc + nb + 1].operandos == seq![cb.operandos[1]]
            &&& n.subrange(tc + nb + 2, tc + nb + 2 + tt) == em_cmds(
                env,
                f,
                entao,
                k1,
                n.subrange(tc + nb + 2, tc + nb + 2 + tt),
            ).0
            &&& match senao {
                Some(s) => {
                    let ts = tam_cmds(env, s);
                    let k2 = em_cmds(env, f, entao, k1, n.subrange(tc + 5, tc + 5 + tt)).1;
                    &&& n[tc + 6 + tt].pedido is Posiciona
                    &&& n[tc + 6 + tt].operandos == seq![cb.operandos[2]]
                    &&& n.subrange(tc + 7 + tt, tc + 7 + tt + ts) == em_cmds(
                        env,
                        f,
                        s,
                        k2,
                        n.subrange(tc + 7 + tt, tc + 7 + tt + ts),
                    ).0
                },
                None => n.last().pedido is Posiciona && n.last().operandos == seq![cb.operandos[2]],
            }
        }),
{
    let tc = tam_expr(env, condicao);
    Codegen::<'ctx>::lemma_tam_expr(env, condicao);
    Codegen::<'ctx>::lemma_tam_cmds(env, entao);
    lemma_tam_em_expr(env, f, condicao, k, n.take(tc));
    assert(n.take(tc)[idx_valor(env, condicao)] == n[idx_valor(env, condicao)]);
    let k1 = em_expr(env, f, condicao, k, n.take(tc)).1;
    let tt = tam_cmds(env, entao);
    match senao {
        Some(s) => {
            Codegen::<'ctx>::lemma_tam_cmds(env, s);
            lemma_tam_em_cmds(env, f, entao, k1, n.subrange(tc + 5, tc + 5 + tt));
            let k2 = em_cmds(env, f, entao, k1, n.subrange(tc + 5, tc + 5 + tt)).1;
            let ts = tam_cmds(env, s);
            lemma_tam_em_cmds(env, f, s, k2, n.subrange(tc + 7 + tt, tc + 7 + tt + ts));
            let pt = em_cmds(env, f, entao, k1, n.subrange(tc + 5, tc + 5 + tt)).0;
            let ps = em_cmds(env, f, s, k2, n.subrange(tc + 7 + tt, tc + 7 + tt + ts)).0;
            let pc = em_expr(env, f, condicao, k, n.take(tc)).0;
            assert(pc.len() == tc);
            assert(n[tc + 3] == n[tc + 3]);
            assert(n.subrange(tc + 5, tc + 5 + tt) =~= pt);
            assert(n.subrange(tc + 7 + tt, tc + 7 + tt + ts) =~= ps);
        },
        None => {
            lemma_tam_em_cmds(env, f, entao, k1, n.subrange(tc + 4, tc + 4 + tt));
            let pt = em_cmds(env, f, entao, k1, n.subrange(tc + 4, tc + 4 + tt)).0;
            assert(n.subrange(tc + 4, tc + 4 + tt) =~= pt);
        },
    }
}

/// Where a `while` goes: after a branch to the condition's block, the condition
/// is computed there; its conditional branch goes, when true, to the block the
/// builder moves to right before the body's commands, and when false to the block
/// where the loop ends, which is where the builder is left; the body ends with a
/// branch back to the condition's block.
pub proof fn lei_desvios_while<'ctx>(
    env: Escopo<'ctx>,
    f: Funcoes<'ctx>,
    condicao: ExprV,
    corpo: Seq<CmdV>,
    span: Span,
    k: u32,
    n: Seq<Registro<'ctx>>,
)
    requires
        n == em_cmd(env, f, CmdV::While { condicao, corpo, span }, k, n).0,
    ensures
        ({
            let tc = tam_expr(env, condicao);
            let tb = tam_cmds(env, corpo);
            let k1 = em_expr(env, f, condicao, k, n.subrange(5, 5 + tc)).1;
            let vc = valor_expr(env, condicao, n.subrange(5, 5 + tc));
            let cond = n[3].operandos[0];
            let cb = n[5 + tc];
            &&& n[3].pedido is Desvio && n[4].pedido is Posiciona && n[4].operandos == seq![cond]
            &&& n.subrange(5, 5 + tc) == em_expr(env, f, condicao, k, n.subrange(5, 5 + tc)).0
            &&& cb.pedido is DesvioCondicional && cb.operandos.len() == 3 && cb.operandos[0] == vc
            &&& n[6 + tc].pedido is Posiciona && n[6 + tc].operandos == seq![cb.operandos[1]]
            &&& n.subrange(7 + tc, 7 + tc + tb) == em_cmds(env, f, corpo, k1, n.subrange(7 + tc, 7 + tc + tb)).0
            &&& n[7 + tc + tb].pedido is Desvio && n[7 + tc + tb].operandos == seq![cond]
            &&& n.last().pedido is Posiciona && n.last().operandos == seq![cb.operandos[2]]
        }),
{
    let tc = tam_expr(env, condicao);
    Codegen::<'ctx>::lemma_tam_expr(env, condicao);
    Codegen::<'ctx>::lemma_tam_cmds(env, corpo);
    lemma_tam_em_expr(env, f, condicao, k, n.subrange(5, 5 + tc));
    let k1 = em_expr(env, f, condicao, k, n.subrange(5, 5 + tc)).1;
    let tb = tam_cmds(env, corpo);
    lemma_tam_em_cmds(env, f, corpo, k1, n.subrange(7 + tc, 7 + tc + tb));
}

// ─────────────────────────────────────────────────────────────────────────────
// The generator
// ─────────────────────────────────────────────────────────────────────────────

/// A variable of the program: its stack slot and its type. For a `string`, the
/// slot holds the address of the variable's buffer.
struct VarInfo<'ctx> {
    alloca: PointerValue<'ctx>,
    tipo: Tipo,
}

/// The code generator: a module with a function `main`, filled in by
/// [`Codegen::emitir_programa`].
pub struct Codegen<'ctx> {
    module: Module<'ctx>,
    emissor: Emissor<'ctx>,
    variaveis: Vec<(String, VarInfo<'ctx>)>,
    externos: Funcoes<'ctx>,
    str_counter: u32,
}

/// The string global made for `s` as the `k`-th one: a private constant
/// `[n x i8]` named `str.k`, with its address as an `i8*`.
fn texto_global<'ctx>(e: &mut Emissor<'ctx>, m: &Module<'ctx>, k: u32, s: &str) -> (r: PointerValue<'ctx>)
    requires
        old(e).modulo() == Some(*m),
    ensures
        final(e).contexto() == old(e).contexto(),
        final(e).pedidos().len() == old(e).pedidos().len() + tam_global(s@),
        final(e).pedidos().subrange(0, old(e).pedidos().len() as int) == old(e).pedidos(),
        ({
            let novo = final(e).pedidos().subrange(old(e).pedidos().len() as int, final(e).pedidos().len() as int);
            &&& novo == em_global(k, s@, novo)
            &&& novo[tam_global(s@) - 1].resultado == ValorLLVM::Ptr(r)
        }),
        final(e).atual() == old(e).atual(),
        final(e).terminado() == old(e).terminado(),
        final(e).blocos() == old(e).blocos(),
        final(e).intocados() == old(e).intocados(),
        final(e).alocados() == old(e).alocados(),
        final(e).funcoes() == old(e).funcoes(),
        final(e).modulo() == old(e).modulo(),
{
    let ghost p0 = e.pedidos();
    let mut nome = String::from_str("str.");
    let d = decimal(k as usize);
    nome.append(d.as_str());
    let mut bytes: Vec<u8> = slice_to_vec(s.as_bytes());
    bytes.push(0u8);
    let ghost b = bytes_c(s@);
    assert(bytes@ =~= b);
    let tamanho = #[verifier::truncate] (bytes.len() as u32);
    let global = adicionar_global(e, m, tamanho, nome.as_str());
    let ghost g = reg(Pedido::Global { nome: nome_global(k), tamanho: #[verifier::truncate] (b.len() as u32) }, seq![], ValorLLVM::Global(global));
    let mut elementos: Vec<IntValue<'ctx>> = Vec::new();
    let mut i: usize = 0;
    while i < bytes.len()
        invariant
            i <= bytes@.len(),
            bytes@ == b,
            elementos@.len() == i,
            e.contexto() == old(e).contexto(),
            e.pedidos().len() == p0.len() + 1 + i,
            e.pedidos().subrange(0, p0.len() as int) == p0,
            e.pedidos()[p0.len() as int] == g,
            forall|j: int|
                0 <= j < i ==> #[trigger] e.pedidos()[p0.len() + 1 + j] == reg(
                    Pedido::Constante { tipo: TipoIR::I8, valor: b[j] as u64, sinal: false },
                    seq![],
                    ValorLLVM::Int(elementos@[j]),
                ),
            e.atual() == old(e).atual(),
            e.terminado() == old(e).terminado(),
            e.blocos() == old(e).blocos(),
            e.intocados() == old(e).intocados(),
            e.alocados() == old(e).alocados(),
            e.funcoes() == old(e).funcoes(),
            e.modulo() == old(e).modulo(),
        decreases bytes@.len() - i,
    {
        let c = constante(e, TipoIR::I8, bytes[i] as u64, false);
        elementos.push(c);
        i = i + 1;
    }
    let ghost p1 = e.pedidos();
    let arr = constante_vetor(e, elementos.as_slice());
    definir_inicializador(e, global, arr);
    definir_constante(e, global, true);
    definir_privada(e, global);
    definir_endereco_sem_nome(e, global, true);
    let p = endereco_global(e, global);
    let r = converter_constante(e, p);
    proof {
        let novo = e.pedidos().subrange(p0.len() as int, e.pedidos().len() as int);
        let n = b.len() as int;
        assert(novo.len() == n + 8);
        assert(novo[0] == g);
        assert forall|j: int| 0 <= j < n implies #[trigger] novo[1 + j] == reg(
            Pedido::Constante { tipo: TipoIR::I8, valor: b[j] as u64, sinal: false },
            seq![],
            novo[1 + j].resultado,
        ) && novo[1 + j].resultado == ValorLLVM::Int(elementos@[j]) by {
            assert(novo[1 + j] == e.pedidos()[p0.len() + 1 + j]);
        }
        assert(elementos@.map_values(|v: IntValue<'ctx>| ValorLLVM::Int(v)) =~= Seq::new(
            b.len(),
            |j: int| novo[1 + j].resultado,
        ));
        assert(novo =~= em_global(k, s@, novo));
        assert(e.pedidos().subrange(0, p0.len() as int) =~= p1.subrange(0, p0.len() as int));
    }
    r
}

impl<'ctx> Codegen<'ctx> {
    /// Every request made to LLVM so far, in order.
    pub closed spec fn pedidos(&self) -> Seq<Registro<'ctx>> {
        self.emissor.pedidos()
    }

    /// How many string globals were made so far (modulo 2³²).
    pub closed spec fn contador(&self) -> u32 {
        self.str_counter
    }

    /// The C functions and `main` of the module.
    pub closed spec fn funcoes(&self) -> Funcoes<'ctx> {
        self.externos
    }

    /// The variables declared so far, with their types and slots, in order.
    pub closed spec fn variaveis_v(&self) -> Seq<(Seq<char>, Tipo, PointerValue<'ctx>)> {
        Seq::new(
            self.variaveis@.len(),
            |i: int| (self.variaveis@[i].0@, self.variaveis@[i].1.tipo, self.variaveis@[i].1.alloca),
        )
    }

    /// The type and slot of each declared variable.
    pub open spec fn ambiente(&self) -> Escopo<'ctx> {
        mapa_vars(self.variaveis_v())
    }

    /// The builder is positioned; the C functions and `main` are in the module
    /// with their signatures; every variable has a stack slot of its type.
    pub closed spec fn bem_formado(&self) -> bool {
        let f = self.emissor.funcoes();
        &&& self.emissor.modulo() == Some(self.module)
        &&& self.emissor.posicionado()
        &&& f.dom().contains(self.externos.printf)
        &&& f[self.externos.printf] == ("printf"@, Assinatura::VariadicaI32)
        &&& f.dom().contains(self.externos.scanf)
        &&& f[self.externos.scanf] == ("scanf"@, Assinatura::VariadicaI32)
        &&& f.dom().contains(self.externos.strcpy)
        &&& f[self.externos.strcpy] == ("strcpy"@, Assinatura::PtrPtrParaPtr)
        &&& f.dom().contains(self.externos.strcat)
        &&& f[self.externos.strcat] == ("strcat"@, Assinatura::PtrPtrParaPtr)
        &&& f.dom().contains(self.externos.strcomp)
        &&& f[self.externos.strcomp] == ("strcmp"@, Assinatura::PtrPtrParaI32)
        &&& f.dom().contains(self.externos.main)
        &&& f[self.externos.main] == ("main"@, Assinatura::SemParametrosI32)
        &&& forall|b: BasicBlock<'ctx>| #[trigger] self.emissor.intocados().contains(b)
            ==> self.emissor.blocos().dom().contains(b)
        &&& forall|i: int|
            0 <= i < self.variaveis@.len() ==> self.emissor.alocados().dom().contains(
                #[trigger] self.variaveis@[i].1.alloca,
            ) && self.emissor.alocados()[self.variaveis@[i].1.alloca] == tipo_do_slot(self.variaveis@[i].1.tipo)
    }

    /// `depois` has the functions and the blocks of `self`, and every block of
    /// `self` that the builder has not been at yet is still untouched.
    spec fn preserva_blocos(self, depois: Self) -> bool {
        &&& depois.externos == self.externos
        &&& depois.module == self.module
        &&& depois.emissor.modulo() == self.emissor.modulo()
        &&& depois.emissor.contexto() == self.emissor.contexto()
        &&& forall|b: BasicBlock<'ctx>| #[trigger] self.emissor.blocos().dom().contains(b)
            ==> depois.emissor.blocos().dom().contains(b) && depois.emissor.blocos()[b] == self.emissor.blocos()[b]
        &&& forall|b: BasicBlock<'ctx>| #[trigger] self.emissor.intocados().contains(b)
            ==> depois.emissor.intocados().contains(b)
    }

    /// As `preserva_blocos`, with the same variables.
    spec fn preserva(self, depois: Self) -> bool {
        &&& self.preserva_blocos(depois)
        &&& depois.variaveis == self.variaveis
    }

    proof fn lemma_preserva_trans(a: Self, b: Self, c: Self)
        requires
            a.preserva(b),
            b.preserva(c),
        ensures
            a.preserva(c),
    {
        assert forall|x: BasicBlock<'ctx>| #[trigger] a.emissor.blocos().dom().contains(x) implies c.emissor.blocos().dom().contains(x)
            && c.emissor.blocos()[x] == a.emissor.blocos()[x] by {
            assert(b.emissor.blocos().dom().contains(x));
        }
        assert forall|x: BasicBlock<'ctx>| #[trigger] a.emissor.intocados().contains(x) implies c.emissor.intocados().contains(x) by {
            assert(b.emissor.intocados().contains(x));
        }
    }

    /// The requests of `self` are the first requests of `depois`.
    spec fn cresce(self, depois: Self) -> bool {
        &&& depois.pedidos().len() >= self.pedidos().len()
        &&& depois.pedidos().subrange(0, self.pedidos().len() as int) == self.pedidos()
    }

    /// What the last request gave back.
    spec fn novos_ultimo(self) -> ValorLLVM<'ctx> {
        self.pedidos().last().resultado
    }

    /// The requests made from `self` to `depois`.
    spec fn novos(self, depois: Self) -> Seq<Registro<'ctx>> {
        depois.pedidos().subrange(self.pedidos().len() as int, depois.pedidos().len() as int)
    }

    /// `depois` follows `self`: well formed, with the same variables, functions and
    /// blocks, the requests of `self` first, and a current block that did not end
    /// with a terminator still not ending with one.
    spec fn segue(self, depois: Self) -> bool {
        &&& depois.bem_formado()
        &&& self.preserva(depois)
        &&& self.cresce(depois)
        &&& self.emissor.terminado() == Some(false) ==> depois.emissor.terminado() == Some(false)
    }

    /// From `self` to `depois`, the requests of expression `e` were made, and its
    /// value is `r`.
    spec fn gerou_expr(self, depois: Self, e: ExprV, r: Operando<'ctx>) -> bool {
        let env = self.ambiente();
        let n = self.novos(depois);
        &&& self.segue(depois)
        &&& n.len() == tam_expr(env, e)
        &&& n == em_expr(env, self.externos, e, self.contador(), n).0
        &&& depois.contador() == em_expr(env, self.externos, e, self.contador(), n).1
        &&& valor_expr(env, e, n) == valor_de(r)
        &&& (r is Ptr) == (tipo_expr(env, e) == Tipo::String)
    }

    /// From `self` to `depois`, the requests of command `c` were made.
    spec fn gerou_cmd(self, depois: Self, c: CmdV) -> bool {
        let env = self.ambiente();
        let n = self.novos(depois);
        &&& self.segue(depois)
        &&& n.len() == tam_cmd(env, c)
        &&& n == em_cmd(env, self.externos, c, self.contador(), n).0
        &&& depois.contador() == em_cmd(env, self.externos, c, self.contador(), n).1
    }

    /// From `self` to `depois`, the requests of the commands `cs` were made.
    spec fn gerou_cmds(self, depois: Self, cs: Seq<CmdV>) -> bool {
        let env = self.ambiente();
        let n = self.novos(depois);
        &&& self.segue(depois)
        &&& n.len() == tam_cmds(env, cs)
        &&& n == em_cmds(env, self.externos, cs, self.contador(), n).0
        &&& depois.contador() == em_cmds(env, self.externos, cs, self.contador(), n).1
    }

    /// Creates the module and declares the C functions it needs, and `main`, whose
    /// entry block the builder is positioned at.
    pub fn new(context: &'ctx Context, nome_modulo: &str) -> (r: Self)
        ensures
            r.bem_formado(),
            r.pedidos().len() == 9,
            r.pedidos() == preambulo(nome_modulo@, r.pedidos()),
            r.funcoes() == funcoes_de(r.pedidos()),
            r.variaveis_v() == Seq::<(Seq<char>, Tipo, PointerValue<'ctx>)>::empty(),
            r.contador() == 0,
    {
        let mut emissor = Emissor::novo(context);
        let module = criar_modulo(&mut emissor, nome_modulo);
        let printf = adicionar_funcao(&mut emissor, &module, "printf", Assinatura::VariadicaI32);
        let scanf = adicionar_funcao(&mut emissor, &module, "scanf", Assinatura::VariadicaI32);
        let strcpy = adicionar_funcao(&mut emissor, &module, "strcpy", Assinatura::PtrPtrParaPtr);
        let strcat = adicionar_funcao(&mut emissor, &module, "strcat", Assinatura::PtrPtrParaPtr);
        let strcomp = adicionar_funcao(&mut emissor, &module, "strcmp", Assinatura::PtrPtrParaI32);
        // every program becomes one function `main() -> i32`
        let main = adicionar_funcao(&mut emissor, &module, "main", Assinatura::SemParametrosI32);
        let entry = anexar_bloco(&mut emissor, main, "entry");
        posicionar(&mut emissor, entry);
        let r = Codegen {
            module,
            emissor,
            variaveis: Vec::new(),
            externos: Funcoes { printf, scanf, strcpy, strcat, strcomp, main },
            str_counter: 0,
        };
        assert(r.pedidos() =~= preambulo(nome_modulo@, r.pedidos()));
        assert(r.variaveis_v() =~= Seq::<(Seq<char>, Tipo, PointerValue<'ctx>)>::empty());
        r
    }

    /// A private constant global holding `s` and a final 0, named `str.N` after the
    /// counter of such globals, whose address is returned as an `i8*`. Used for the
    /// formats of `printf` / `scanf` and for string literals.
    fn global_str(&mut self, s: &str) -> (r: PointerValue<'ctx>)
        requires
            old(self).bem_formado(),
        ensures
            old(self).segue(*final(self)),
            old(self).novos(*final(self)).len() == tam_global(s@),
            old(self).novos(*final(self)) == em_global(old(self).contador(), s@, old(self).novos(*final(self))),
            old(self).novos(*final(self))[tam_global(s@) - 1].resultado == ValorLLVM::Ptr(r),
            final(self).contador() == proximo(old(self).contador()),
            final(self).emissor.terminado() == old(self).emissor.terminado(),
    {
        let k = self.str_counter;
        self.str_counter = if k < u32::MAX { k + 1 } else { 0 };
        texto_global(&mut self.emissor, &self.module, k, s)
    }

    /// The slot and type of a declared variable (its last declaration).
    fn variavel(&self, nome: &str) -> (r: (PointerValue<'ctx>, Tipo))
        requires
            self.bem_formado(),
            self.ambiente().dom().contains(nome@),
        ensures
            (r.1, r.0) == self.ambiente()[nome@],
            self.emissor.alocados().dom().contains(r.0),
            self.emissor.alocados()[r.0] == tipo_do_slot(r.1),
    {
        proof {
            lemma_mapa_vars_dom(self.variaveis_v(), nome@);
        }
        let chave = String::from_str(nome);
        let mut i: usize = self.variaveis.len();
        while i > 0
            invariant
                i <= self.variaveis@.len(),
                self.bem_formado(),
                chave@ == nome@,
                self.ambiente().dom().contains(nome@),
                forall|j: int| i <= j < self.variaveis@.len() ==> self.variaveis@[j].0@ != nome@,
                exists|j: int|
                    0 <= j < self.variaveis_v().len() && self.variaveis_v()[j].0 == nome@ && self.ambiente()[nome@]
                        == (self.variaveis_v()[j].1, self.variaveis_v()[j].2) && forall|l: int|
                        j < l < self.variaveis_v().len() ==> self.variaveis_v()[l].0 != nome@,
            decreases i,
        {
            if self.variaveis[i - 1].0 == chave {
                let ghost j = choose|j: int|
                    0 <= j < self.variaveis_v().len() && self.variaveis_v()[j].0 == nome@ && self.ambiente()[nome@]
                        == (self.variaveis_v()[j].1, self.variaveis_v()[j].2) && forall|l: int|
                        j < l < self.variaveis_v().len() ==> self.variaveis_v()[l].0 != nome@;
                assert(self.variaveis_v()[i - 1].0 == nome@);
                assert(j == i - 1);
                let info = &self.variaveis[i - 1].1;
                assert(self.variaveis@[i - 1].1.alloca == info.alloca);
                assert(self.emissor.alocados().dom().contains(self.variaveis@[i - 1].1.alloca));
                return (info.alloca, info.tipo);
            }
            i = i - 1;
        }
        let ghost j = choose|j: int|
            0 <= j < self.variaveis_v().len() && self.variaveis_v()[j].0 == nome@ && self.ambiente()[nome@] == (
                self.variaveis_v()[j].1,
                self.variaveis_v()[j].2,
            ) && forall|l: int| j < l < self.variaveis_v().len() ==> self.variaveis_v()[l].0 != nome@;
        assert(self.variaveis_v()[j].0 == self.variaveis@[j].0@);
        unreached()
    }

    /// `a` grows into `b` and `b` into `c`: `a` grows into `c`, and what was made
    /// on the way is what was made in each step.
    proof fn lemma_segue_trans(a: Self, b: Self, c: Self)
        requires
            a.segue(b),
            b.segue(c),
        ensures
            a.segue(c),
            a.novos(c) == a.novos(b) + b.novos(c),
            c.ambiente() == a.ambiente(),
            c.variaveis_v() == a.variaveis_v(),
    {
        Self::lemma_preserva_trans(a, b, c);
        let pa = a.pedidos();
        let pb = b.pedidos();
        let pc = c.pedidos();
        assert forall|i: int| 0 <= i < pa.len() implies #[trigger] pc[i] == pa[i] by {
            assert(pc[i] == pc.subrange(0, pb.len() as int)[i]);
            assert(pb[i] == pb.subrange(0, pa.len() as int)[i]);
        }
        assert(pc.subrange(0, pa.len() as int) =~= pa);
        assert forall|i: int| pa.len() <= i < pb.len() implies #[trigger] pc[i] == pb[i] by {
            assert(pc[i] == pc.subrange(0, pb.len() as int)[i]);
        }
        assert(a.novos(c) =~= a.novos(b) + b.novos(c));
        assert(c.variaveis_v() =~= a.variaveis_v());
    }

    /// One request `p` was made from `a` to `b`, which left the rest as it was, but
    /// for the current block, which may now end with an instruction, and perhaps a
    /// new stack slot.
    proof fn lemma_um_pedido(a: Self, b: Self, p: Registro<'ctx>)
        requires
            a.bem_formado(),
            b.externos == a.externos,
            b.variaveis == a.variaveis,
            b.str_counter == a.str_counter,
            b.emissor.contexto() == a.emissor.contexto(),
            b.emissor.pedidos() == a.emissor.pedidos().push(p),
            b.emissor.atual() == a.emissor.atual(),
            a.emissor.terminado() == Some(false) ==> b.emissor.terminado() == Some(false),
            b.emissor.blocos() == a.emissor.blocos(),
            b.emissor.intocados() == a.emissor.intocados(),
            forall|x: PointerValue<'ctx>| #[trigger] a.emissor.alocados().dom().contains(x)
                ==> b.emissor.alocados().dom().contains(x) && b.emissor.alocados()[x] == a.emissor.alocados()[x],
            b.emissor.funcoes() == a.emissor.funcoes(),
            b.emissor.modulo() == a.emissor.modulo(),
            b.module == a.module,
        ensures
            a.segue(b),
            a.novos(b) == seq![p],
            b.ambiente() == a.ambiente(),
            b.contador() == a.contador(),
    {
        assert(b.pedidos().subrange(0, a.pedidos().len() as int) =~= a.pedidos());
        assert(a.novos(b) =~= seq![p]);
    }

    /// The value of an expression is one of its own records.
    proof fn lemma_tam_expr(env: Escopo<'ctx>, e: ExprV)
        ensures
            tam_expr(env, e) >= 1,
            0 <= idx_valor(env, e) < tam_expr(env, e),
        decreases e,
    {
        match e {
            ExprV::UnOp { operando, .. } => {
                Self::lemma_tam_expr(env, *operando);
            },
            ExprV::BinOp { esq, dir, .. } => {
                Self::lemma_tam_expr(env, *esq);
                Self::lemma_tam_expr(env, *dir);
            },
            _ => {},
        }
    }

    /// A command makes no negative number of requests.
    proof fn lemma_tam_cmd(env: Escopo<'ctx>, c: CmdV)
        ensures
            tam_cmd(env, c) >= 0,
        decreases c, 1nat,
    {
        match c {
            CmdV::Atribuicao { expr, .. } => Self::lemma_tam_expr(env, expr),
            CmdV::If { condicao, entao, senao, .. } => {
                Self::lemma_tam_expr(env, condicao);
                Self::lemma_tam_cmds(env, entao);
                match senao {
                    Some(s) => Self::lemma_tam_cmds(env, s),
                    None => {},
                }
            },
            CmdV::While { condicao, corpo, .. } => {
                Self::lemma_tam_expr(env, condicao);
                Self::lemma_tam_cmds(env, corpo);
            },
            CmdV::Print { expr, .. } => Self::lemma_tam_expr(env, expr),
            CmdV::Read { .. } => {},
            CmdV::Bloco(cs) => Self::lemma_tam_cmds(env, cs),
        }
    }

    /// A list of commands makes no negative number of requests.
    proof fn lemma_tam_cmds(env: Escopo<'ctx>, cs: Seq<CmdV>)
        ensures
            tam_cmds(env, cs) >= 0,
        decreases cs, 0nat,
    {
        if cs.len() > 0 {
            Self::lemma_tam_cmds(env, cs.subrange(0, cs.len() - 1));
            Self::lemma_tam_cmd(env, cs[cs.len() - 1]);
        }
    }

    // ── Declarations: alloca and initialization ───────────────────────────

    /// `var x : int` gives `%x = alloca i32` and `store i32 0` into it; `bool`
    /// likewise with `i1` and `false`; `string` gives a `[256 x i8]` buffer
    /// `%x_buf`, a slot `%x` that holds the buffer's address, and a 0 in the
    /// buffer's first byte.
    #[verifier::spinoff_prover]
    fn emitir_declaracao(&mut self, decl: &Declaracao) -> (r: Result<(), BuilderError>)
        requires
            old(self).bem_formado(),
        ensures
            r is Ok,
            final(self).bem_formado(),
            old(self).preserva_blocos(*final(self)),
            old(self).cresce(*final(self)),
            old(self).novos(*final(self)).len() == tam_decl(decl@),
            old(self).novos(*final(self)) == em_decl(decl@, old(self).novos(*final(self))),
            final(self).variaveis_v() == old(self).variaveis_v().push(
                (decl@.nome, decl@.tipo, slot_decl(decl@, old(self).novos(*final(self)))),
            ),
            final(self).contador() == old(self).contador(),
            final(self).emissor.terminado() == Some(false),
    {
        let nome = decl.nome.as_str();
        let alloca = match decl.tipo {
            Tipo::Int => {
                let a = alocar(&mut self.emissor, TipoIR::I32, nome)?;
                let zero = constante(&mut self.emissor, TipoIR::I32, 0, false);
                armazenar(&mut self.emissor, a, Operando::Int(zero))?;
                a
            },
            Tipo::Bool => {
                let a = alocar(&mut self.emissor, TipoIR::I1, nome)?;
                let falso = constante(&mut self.emissor, TipoIR::I1, 0, false);
                armazenar(&mut self.emissor, a, Operando::Int(falso))?;
                a
            },
            Tipo::String => {
                let mut buf_nome = String::from_str(nome);
                buf_nome.append("_buf");
                let mut ptr_nome = String::from_str(nome);
                ptr_nome.append("_ptr");
                let buf = alocar(&mut self.emissor, TipoIR::Vetor(256), buf_nome.as_str())?;
                // the slot holds the address of the buffer
                let a = alocar(&mut self.emissor, TipoIR::Ptr, nome)?;
                let inicio = converter_ponteiro(&mut self.emissor, buf, ptr_nome.as_str())?;
                armazenar(&mut self.emissor, a, Operando::Ptr(inicio))?;
                // the buffer starts as the empty string
                let zero = constante(&mut self.emissor, TipoIR::I8, 0, false);
                armazenar(&mut self.emissor, inicio, Operando::Int(zero))?;
                a
            },
        };
        let ghost antes = self.variaveis@;
        self.variaveis.push((decl.nome.clone(), VarInfo { alloca, tipo: decl.tipo }));
        proof {
            let n = old(self).novos(*self);
            assert(self.pedidos().subrange(0, old(self).pedidos().len() as int) =~= old(self).pedidos());
            assert(n =~= em_decl(decl@, n));
            assert(self.variaveis_v() =~= old(self).variaveis_v().push((decl@.nome, decl@.tipo, slot_decl(decl@, n))));
        }
        assert forall|i: int| 0 <= i < self.variaveis@.len() implies self.emissor.alocados().dom().contains(
            #[trigger] self.variaveis@[i].1.alloca,
        ) && self.emissor.alocados()[self.variaveis@[i].1.alloca] == tipo_do_slot(self.variaveis@[i].1.tipo) by {
            if i < antes.len() {
                assert(self.variaveis@[i] == antes[i]);
                assert(old(self).variaveis@[i] == antes[i]);
            }
        }
        Ok(())
    }

    // ── Expressions ───────────────────────────────────────────────────────

    /// The type of an expression, found without emitting anything; `print` and the
    /// string operators need it to pick their instructions.
    fn inferir_tipo(&self, expr: &Expressao, Ghost(amb): Ghost<Ambiente>) -> (t: Tipo)
        requires
            self.bem_formado(),
            concorda(amb, self.ambiente()),
            tipo_de(amb, expr@) is Some,
        ensures
            t == tipo_expr(self.ambiente(), expr@),
        decreases expr,
    {
        match expr {
            Expressao::LitInt(_, _) => Tipo::Int,
            Expressao::LitBool(_, _) => Tipo::Bool,
            Expressao::LitString(_, _) => Tipo::String,
            Expressao::Var(nome, _) => {
                proof {
                    assert(amb.dom().contains(nome@));
                }
                self.variavel(nome.as_str()).1
            },
            Expressao::UnOp { op, .. } => match op {
                OpUn::Neg => Tipo::Int,
                OpUn::Not => Tipo::Bool,
            },
            Expressao::BinOp { op, esq, .. } => match op {
                // int + int is int, string + string is string
                OpBin::Add => self.inferir_tipo(esq, Ghost(amb)),
                OpBin::Sub | OpBin::Mul | OpBin::Div | OpBin::Mod => Tipo::Int,
                _ => Tipo::Bool,
            },
        }
    }

    /// Emits an expression and gives its value: an integer for `int` and `bool`, a
    /// pointer to the bytes for `string`.
    fn emitir_expressao(&mut self, expr: &Expressao, Ghost(amb): Ghost<Ambiente>) -> (r: Result<
        Operando<'ctx>,
        BuilderError,
    >)
        requires
            old(self).bem_formado(),
            concorda(amb, old(self).ambiente()),
            tipo_de(amb, expr@) is Some,
        ensures
            r is Ok,
            old(self).gerou_expr(*final(self), expr@, r->Ok_0),
        decreases expr, 2nat,
    {
        let ghost s0 = *self;
        match expr {
            Expressao::LitInt(n, _) => {
                let v = constante(&mut self.emissor, TipoIR::I32, *n as u64, true);
                proof {
                    Self::lemma_um_pedido(
                        s0,
                        *self,
                        reg(Pedido::Constante { tipo: TipoIR::I32, valor: *n as u64, sinal: true }, seq![], ValorLLVM::Int(v)),
                    );
                }
                Ok(Operando::Int(v))
            },
            Expressao::LitBool(b, _) => {
                let v = constante(&mut self.emissor, TipoIR::I1, if *b { 1 } else { 0 }, false);
                proof {
                    Self::lemma_um_pedido(
                        s0,
                        *self,
                        reg(
                            Pedido::Constante { tipo: TipoIR::I1, valor: if *b { 1 } else { 0 }, sinal: false },
                            seq![],
                            ValorLLVM::Int(v),
                        ),
                    );
                }
                Ok(Operando::Int(v))
            },
            Expressao::LitString(s, _) => {
                let p = self.global_str(s.as_str());
                Ok(Operando::Ptr(p))
            },
            Expressao::Var(nome, _) => {
                proof {
                    assert(amb.dom().contains(nome@));
                }
                // int and bool: the value in the slot; string: the address of the buffer
                let (alloca, _tipo) = self.variavel(nome.as_str());
                let c = carregar(&mut self.emissor, alloca, nome.as_str())?;
                proof {
                    Self::lemma_um_pedido(
                        s0,
                        *self,
                        reg(Pedido::Load { nome: nome@ }, seq![ValorLLVM::Ptr(alloca)], valor_carregado(c)),
                    );
                }
                match c {
                    Carregado::Int(i) => Ok(Operando::Int(i)),
                    Carregado::Ptr(p) => Ok(Operando::Ptr(p)),
                    Carregado::Outro => unreached(),
                }
            },
            Expressao::UnOp { .. } => self.emitir_unop(expr, Ghost(amb)),
            Expressao::BinOp { .. } => self.emitir_binop(expr, Ghost(amb)),
        }
    }

    /// `-x` becomes `neg i32 x` (`sub i32 0, x`); `!b` becomes `xor i1 b, true`.
    #[verifier::spinoff_prover]
    fn emitir_unop(&mut self, expr: &Expressao, Ghost(amb): Ghost<Ambiente>) -> (r: Result<Operando<'ctx>, BuilderError>)
        requires
            expr is UnOp,
            old(self).bem_formado(),
            concorda(amb, old(self).ambiente()),
            tipo_de(amb, expr@) is Some,
        ensures
            r is Ok,
            old(self).gerou_expr(*final(self), expr@, r->Ok_0),
        decreases expr, 1nat,
    {
        match expr {
            Expressao::UnOp { op, operando, .. } => {
                let ghost s0 = *self;
                let ghost env = s0.ambiente();
                proof {
                    lemma_tipo_expr(amb, env, operando@);
                    Self::lemma_tam_expr(env, operando@);
                }
                let v = self.emitir_expressao(operando, Ghost(amb))?;
                let ghost s1 = *self;
                let val = match v {
                    Operando::Int(i) => i,
                    Operando::Ptr(_) => unreached(),
                };
                let r = match op {
                    OpUn::Neg => {
                        let x = negar(&mut self.emissor, val, "neg")?;
                        proof {
                            Self::lemma_um_pedido(
                                s1,
                                *self,
                                reg(Pedido::Neg { nome: "neg"@ }, seq![ValorLLVM::Int(val)], ValorLLVM::Int(x)),
                            );
                        }
                        x
                    },
                    OpUn::Not => {
                        let um = constante(&mut self.emissor, TipoIR::I1, 1, false);
                        let ghost s2 = *self;
                        proof {
                            Self::lemma_um_pedido(
                                s1,
                                s2,
                                reg(Pedido::Constante { tipo: TipoIR::I1, valor: 1, sinal: false }, seq![], ValorLLVM::Int(um)),
                            );
                        }
                        let x = ou_exclusivo(&mut self.emissor, val, um, "not")?;
                        proof {
                            Self::lemma_um_pedido(
                                s2,
                                *self,
                                reg(
                                    Pedido::Binaria { op: OpIR::Xor, nome: "not"@ },
                                    seq![ValorLLVM::Int(val), ValorLLVM::Int(um)],
                                    ValorLLVM::Int(x),
                                ),
                            );
                            Self::lemma_segue_trans(s1, s2, *self);
                        }
                        x
                    },
                };
                proof {
                    Self::lemma_segue_trans(s0, s1, *self);
                    let t = tam_expr(env, operando@);
                    let n = s0.novos(*self);
                    assert(n.take(t) =~= s0.novos(s1));
                    assert(n[idx_valor(env, operando@)] == s0.novos(s1)[idx_valor(env, operando@)]);
                    assert(n =~= em_expr(env, s0.externos, expr@, s0.contador(), n).0);
                }
                Ok(Operando::Int(r))
            },
            _ => unreached(),
        }
    }

    /// The requests of a binary expression whose operands were emitted from `s0`
    /// to `s1` and from `s1` to `s2`, followed by those from `s2` to `s3`.
    proof fn lemma_binaria(s0: Self, s1: Self, s2: Self, s3: Self, e: ExprV, l: Operando<'ctx>, d: Operando<'ctx>)
        requires
            e is BinOp,
            s0.gerou_expr(s1, *e->BinOp_esq, l),
            s0.ambiente() == s1.ambiente(),
            s1.gerou_expr(s2, *e->BinOp_dir, d),
            s2.segue(s3),
        ensures
            s0.segue(s3),
            s3.ambiente() == s0.ambiente(),
            ({
                let env = s0.ambiente();
                let n = s0.novos(s3);
                let te = tam_expr(env, *e->BinOp_esq);
                let td = tam_expr(env, *e->BinOp_dir);
                &&& n.len() == te + td + s2.novos(s3).len()
                &&& n.take(te) == s0.novos(s1)
                &&& n.subrange(te, te + td) == s1.novos(s2)
                &&& n.subrange(te + td, n.len() as int) == s2.novos(s3)
                &&& valor_expr(env, *e->BinOp_esq, n) == valor_de(l)
                &&& valor_expr(env, *e->BinOp_dir, n.subrange(te, te + td)) == valor_de(d)
            }),
    {
        Self::lemma_segue_trans(s0, s1, s2);
        Self::lemma_segue_trans(s0, s2, s3);
        let env = s0.ambiente();
        Self::lemma_tam_expr(env, *e->BinOp_esq);
        let n = s0.novos(s3);
        let te = tam_expr(env, *e->BinOp_esq);
        let td = tam_expr(env, *e->BinOp_dir);
        assert(n.take(te) =~= s0.novos(s1));
        assert(n.subrange(te, te + td) =~= s1.novos(s2));
        assert(n.subrange(te + td, n.len() as int) =~= s2.novos(s3));
        assert(n[idx_valor(env, *e->BinOp_esq)] == s0.novos(s1)[idx_valor(env, *e->BinOp_esq)]);
    }

    /// A binary operation: string `+`, `==` and `!=` call the C library; the
    /// others are one integer instruction on the two operands, left then right.
    #[verifier::rlimit(40)]
    #[verifier::spinoff_prover]
    fn emitir_binop(&mut self, expr: &Expressao, Ghost(amb): Ghost<Ambiente>) -> (r: Result<Operando<'ctx>, BuilderError>)
        requires
            expr is BinOp,
            old(self).bem_formado(),
            concorda(amb, old(self).ambiente()),
            tipo_de(amb, expr@) is Some,
        ensures
            r is Ok,
            old(self).gerou_expr(*final(self), expr@, r->Ok_0),
        decreases expr, 1nat,
    {
        match expr {
            Expressao::BinOp { op, esq, dir, .. } => {
                let ghost s0 = *self;
                let ghost env = s0.ambiente();
                proof {
                    lemma_tipo_expr(amb, env, esq@);
                    lemma_tipo_expr(amb, env, dir@);
                }
                let tipo_esq = self.inferir_tipo(esq, Ghost(amb));
                if *op == OpBin::Add && tipo_esq == Tipo::String {
                    return self.emitir_concat_string(expr, Ghost(amb));
                }
                if (*op == OpBin::Eq || *op == OpBin::Neq) && tipo_esq == Tipo::String {
                    return self.emitir_cmp_string(expr, Ghost(amb));
                }
                let l = self.emitir_expressao(esq, Ghost(amb))?;
                let ghost s1 = *self;
                let d = self.emitir_expressao(dir, Ghost(amb))?;
                let ghost s2 = *self;
                let (lhs, rhs) = match (l, d) {
                    (Operando::Int(a), Operando::Int(b)) => (a, b),
                    _ => unreached(),
                };
                let v = match op {
                    OpBin::Add => somar(&mut self.emissor, lhs, rhs, "add")?,
                    OpBin::Sub => subtrair(&mut self.emissor, lhs, rhs, "sub")?,
                    OpBin::Mul => multiplicar(&mut self.emissor, lhs, rhs, "mul")?,
                    OpBin::Div => dividir(&mut self.emissor, lhs, rhs, "div")?,
                    OpBin::Mod => resto(&mut self.emissor, lhs, rhs, "mod")?,
                    OpBin::Gt => comparar(&mut self.emissor, Predicado::Sgt, lhs, rhs, "gt")?,
                    OpBin::Lt => comparar(&mut self.emissor, Predicado::Slt, lhs, rhs, "lt")?,
                    OpBin::Ge => comparar(&mut self.emissor, Predicado::Sge, lhs, rhs, "ge")?,
                    OpBin::Le => comparar(&mut self.emissor, Predicado::Sle, lhs, rhs, "le")?,
                    OpBin::Eq => comparar(&mut self.emissor, Predicado::Eq, lhs, rhs, "eq")?,
                    OpBin::Neq => comparar(&mut self.emissor, Predicado::Ne, lhs, rhs, "neq")?,
                    // `&&` and `||` on `i1` are bitwise: expressions have no side effects
                    OpBin::And => conjuncao(&mut self.emissor, lhs, rhs, "and")?,
                    OpBin::Or => disjuncao(&mut self.emissor, lhs, rhs, "or")?,
                };
                proof {
                    let p = reg(instr_binaria(*op), seq![ValorLLVM::Int(lhs), ValorLLVM::Int(rhs)], ValorLLVM::Int(v));
                    Self::lemma_um_pedido(s2, *self, p);
                    Self::lemma_binaria(s0, s1, s2, *self, expr@, l, d);
                    let n = s0.novos(*self);
                    assert(n =~= em_expr(env, s0.externos, expr@, s0.contador(), n).0);
                }
                Ok(Operando::Int(v))
            },
            _ => unreached(),
        }
    }

    /// `a + b` on strings: a `[512 x i8]` buffer on the stack, `strcpy` of `a` into
    /// it, then `strcat` of `b`; the value is the buffer's address.
    #[verifier::rlimit(40)]
    #[verifier::spinoff_prover]
    fn emitir_concat_string(&mut self, expr: &Expressao, Ghost(amb): Ghost<Ambiente>) -> (r: Result<
        Operando<'ctx>,
        BuilderError,
    >)
        requires
            expr matches Expressao::BinOp { op, esq, .. } && op == OpBin::Add && tipo_expr(
                old(self).ambiente(),
                esq@,
            ) == Tipo::String,
            old(self).bem_formado(),
            concorda(amb, old(self).ambiente()),
            tipo_de(amb, expr@) is Some,
        ensures
            r is Ok,
            old(self).gerou_expr(*final(self), expr@, r->Ok_0),
        decreases expr, 0nat,
    {
        match expr {
            Expressao::BinOp { esq, dir, .. } => {
                let ghost s0 = *self;
                let ghost env = s0.ambiente();
                proof {
                    lemma_tipo_expr(amb, env, esq@);
                    lemma_tipo_expr(amb, env, dir@);
                }
                let l = self.emitir_expressao(esq, Ghost(amb))?;
                let ghost s1 = *self;
                let d = self.emitir_expressao(dir, Ghost(amb))?;
                let ghost s2 = *self;
                let (lhs, rhs) = match (l, d) {
                    (Operando::Ptr(a), Operando::Ptr(b)) => (a, b),
                    _ => unreached(),
                };
                let buf = alocar(&mut self.emissor, TipoIR::Vetor(512), "concat_buf")?;
                let ghost a1 = *self;
                proof {
                    Self::lemma_um_pedido(
                        s2,
                        a1,
                        reg(Pedido::Alloca { tipo: TipoIR::Vetor(512), nome: "concat_buf"@ }, seq![], ValorLLVM::Ptr(buf)),
                    );
                }
                let buf_ptr = converter_ponteiro(&mut self.emissor, buf, "concat_ptr")?;
                let ghost a2 = *self;
                proof {
                    Self::lemma_um_pedido(
                        a1,
                        a2,
                        reg(Pedido::Converte { nome: "concat_ptr"@ }, seq![ValorLLVM::Ptr(buf)], ValorLLVM::Ptr(buf_ptr)),
                    );
                    Self::lemma_segue_trans(s2, a1, a2);
                }
                let strcpy = self.externos.strcpy;
                let strcat = self.externos.strcat;
                let c1 = chamar(&mut self.emissor, strcpy, Operando::Ptr(buf_ptr), Operando::Ptr(lhs), "")?;
                let ghost a3 = *self;
                proof {
                    Self::lemma_um_pedido(
                        a2,
                        a3,
                        reg(
                            Pedido::Chamada { funcao: "strcpy"@, nome: ""@ },
                            seq![ValorLLVM::Funcao(strcpy), ValorLLVM::Ptr(buf_ptr), ValorLLVM::Ptr(lhs)],
                            a3.novos_ultimo(),
                        ),
                    );
                    Self::lemma_segue_trans(s2, a2, a3);
                }
                let c2 = chamar(&mut self.emissor, strcat, Operando::Ptr(buf_ptr), Operando::Ptr(rhs), "")?;
                proof {
                    Self::lemma_um_pedido(
                        a3,
                        *self,
                        reg(
                            Pedido::Chamada { funcao: "strcat"@, nome: ""@ },
                            seq![ValorLLVM::Funcao(strcat), ValorLLVM::Ptr(buf_ptr), ValorLLVM::Ptr(rhs)],
                            self.novos_ultimo(),
                        ),
                    );
                    Self::lemma_segue_trans(s2, a3, *self);
                    Self::lemma_binaria(s0, s1, s2, *self, expr@, l, d);
                    let n = s0.novos(*self);
                    assert(n =~= em_expr(env, s0.externos, expr@, s0.contador(), n).0);
                }
                Ok(Operando::Ptr(buf_ptr))
            },
            _ => unreached(),
        }
    }

    /// `a == b` and `a != b` on strings: `strcmp(a, b)` compared with 0.
    #[verifier::rlimit(40)]
    #[verifier::spinoff_prover]
    fn emitir_cmp_string(&mut self, expr: &Expressao, Ghost(amb): Ghost<Ambiente>) -> (r: Result<
        Operando<'ctx>,
        BuilderError,
    >)
        requires
            expr matches Expressao::BinOp { op, esq, .. } && (op == OpBin::Eq || op == OpBin::Neq) && tipo_expr(
                old(self).ambiente(),
                esq@,
            ) == Tipo::String,
            old(self).bem_formado(),
            concorda(amb, old(self).ambiente()),
            tipo_de(amb, expr@) is Some,
        ensures
            r is Ok,
            old(self).gerou_expr(*final(self), expr@, r->Ok_0),
        decreases expr, 0nat,
    {
        match expr {
            Expressao::BinOp { op, esq, dir, .. } => {
                let ghost s0 = *self;
                let ghost env = s0.ambiente();
                proof {
                    lemma_tipo_expr(amb, env, esq@);
                    lemma_tipo_expr(amb, env, dir@);
                }
                let l = self.emitir_expressao(esq, Ghost(amb))?;
                let ghost s1 = *self;
                let d = self.emitir_expressao(dir, Ghost(amb))?;
                let ghost s2 = *self;
                let (lhs, rhs) = match (l, d) {
                    (Operando::Ptr(a), Operando::Ptr(b)) => (a, b),
                    _ => unreached(),
                };
                let strcomp = self.externos.strcomp;
                let res = match chamar(&mut self.emissor, strcomp, Operando::Ptr(lhs), Operando::Ptr(rhs), "strcmp_res")? {
                    Some(v) => v,
                    None => unreached(),
                };
                let ghost a1 = *self;
                proof {
                    Self::lemma_um_pedido(
                        s2,
                        a1,
                        reg(
                            Pedido::Chamada { funcao: "strcmp"@, nome: "strcmp_res"@ },
                            seq![ValorLLVM::Funcao(strcomp), ValorLLVM::Ptr(lhs), ValorLLVM::Ptr(rhs)],
                            ValorLLVM::Int(res),
                        ),
                    );
                }
                let zero = constante(&mut self.emissor, TipoIR::I32, 0, false);
                let ghost a2 = *self;
                proof {
                    Self::lemma_um_pedido(
                        a1,
                        a2,
                        reg(Pedido::Constante { tipo: TipoIR::I32, valor: 0, sinal: false }, seq![], ValorLLVM::Int(zero)),
                    );
                    Self::lemma_segue_trans(s2, a1, a2);
                }
                let v = if *op == OpBin::Eq {
                    comparar(&mut self.emissor, Predicado::Eq, res, zero, "str_eq")?
                } else {
                    comparar(&mut self.emissor, Predicado::Ne, res, zero, "str_neq")?
                };
                proof {
                    let p = if *op == OpBin::Eq {
                        Pedido::Compara { pred: Predicado::Eq, nome: "str_eq"@ }
                    } else {
                        Pedido::Compara { pred: Predicado::Ne, nome: "str_neq"@ }
                    };
                    Self::lemma_um_pedido(
                        a2,
                        *self,
                        reg(p, seq![ValorLLVM::Int(res), ValorLLVM::Int(zero)], ValorLLVM::Int(v)),
                    );
                    Self::lemma_segue_trans(s2, a2, *self);
                    Self::lemma_binaria(s0, s1, s2, *self, expr@, l, d);
                    let n = s0.novos(*self);
                    assert(n =~= em_expr(env, s0.externos, expr@, s0.contador(), n).0);
                }
                Ok(Operando::Int(v))
            },
            _ => unreached(),
        }
    }

    // ── Commands ──────────────────────────────────────────────────────────

    /// From `s0` to `s1` the commands `cs.take(j)` were made, and from `s1` to `s2`
    /// the command `cs[j]`: from `s0` to `s2`, the commands `cs.take(j + 1)`.
    proof fn lemma_cmds_passo(s0: Self, s1: Self, s2: Self, cs: Seq<CmdV>, j: int)
        requires
            0 <= j < cs.len(),
            s0.gerou_cmds(s1, cs.take(j)),
            s1.ambiente() == s0.ambiente(),
            s1.gerou_cmd(s2, cs[j]),
        ensures
            s0.gerou_cmds(s2, cs.take(j + 1)),
            s2.ambiente() == s0.ambiente(),
    {
        Self::lemma_segue_trans(s0, s1, s2);
        let env = s0.ambiente();
        let c = cs.take(j + 1);
        assert(c.subrange(0, c.len() - 1) =~= cs.take(j));
        assert(c[c.len() - 1] == cs[j]);
        let n = s0.novos(s2);
        let ti = tam_cmds(env, cs.take(j));
        assert(n.take(ti) =~= s0.novos(s1));
        assert(n.subrange(ti, ti + tam_cmd(env, cs[j])) =~= s1.novos(s2));
    }

    /// Emits one command.
    fn emitir_comando(&mut self, cmd: &Comando, Ghost(amb): Ghost<Ambiente>) -> (r: Result<(), BuilderError>)
        requires
            old(self).bem_formado(),
            concorda(amb, old(self).ambiente()),
            comando_ok(amb, cmd@),
        ensures
            r is Ok,
            old(self).gerou_cmd(*final(self), cmd@),
        decreases cmd, 3nat,
    {
        match cmd {
            Comando::Atribuicao { .. } => self.emitir_atribuicao(cmd, Ghost(amb)),
            Comando::If { .. } => self.emitir_if(cmd, Ghost(amb)),
            Comando::While { .. } => self.emitir_while(cmd, Ghost(amb)),
            Comando::Print { .. } => self.emitir_print(cmd, Ghost(amb)),
            Comando::Read { .. } => self.emitir_read(cmd, Ghost(amb)),
            Comando::Bloco(cmds) => self.emitir_lista(cmds, Ghost(amb)),
        }
    }

    /// Emits each command of a list, in order.
    fn emitir_lista(&mut self, cmds: &Vec<Comando>, Ghost(amb): Ghost<Ambiente>) -> (r: Result<(), BuilderError>)
        requires
            old(self).bem_formado(),
            concorda(amb, old(self).ambiente()),
            comandos_ok(amb, cmds_v(cmds@)),
        ensures
            r is Ok,
            old(self).gerou_cmds(*final(self), cmds_v(cmds@)),
        decreases cmds, 1nat,
    {
        let ghost s0 = *self;
        let ghost env = self.ambiente();
        let ghost cs = cmds_v(cmds@);
        proof {
            lemma_cmds_v(cmds@);
            lemma_comandos_ok(amb, cs);
            assert(cs.take(0) =~= Seq::<CmdV>::empty());
            assert(s0.novos(s0) =~= Seq::<Registro<'ctx>>::empty());
            assert(s0.pedidos().subrange(0, s0.pedidos().len() as int) =~= s0.pedidos());
        }
        let mut j: usize = 0;
        while j < cmds.len()
            invariant
                j <= cmds@.len(),
                cs == cmds_v(cmds@),
                cs.len() == cmds@.len(),
                forall|i: int| 0 <= i < cs.len() ==> #[trigger] cs[i] == cmd_v(cmds@[i]),
                forall|i: int| 0 <= i < cs.len() ==> #[trigger] comando_ok(amb, cs[i]),
                env == s0.ambiente(),
                s0 == *old(self),
                concorda(amb, env),
                s0.gerou_cmds(*self, cs.take(j as int)),
                self.ambiente() == env,
            decreases cmds@.len() - j,
        {
            let ghost s1 = *self;
            assert(comando_ok(amb, cs[j as int]));
            self.emitir_comando(&cmds[j], Ghost(amb))?;
            proof {
                Self::lemma_cmds_passo(s0, s1, *self, cs, j as int);
            }
            j = j + 1;
        }
        assert(cs.take(cs.len() as int) =~= cs);
        Ok(())
    }

    /// `x = expr;` stores an `int` or `bool` into the slot; for a `string` it copies
    /// the bytes into the variable's buffer with `strcpy`.
    #[verifier::spinoff_prover]
    fn emitir_atribuicao(&mut self, cmd: &Comando, Ghost(amb): Ghost<Ambiente>) -> (r: Result<(), BuilderError>)
        requires
            cmd is Atribuicao,
            old(self).bem_formado(),
            concorda(amb, old(self).ambiente()),
            comando_ok(amb, cmd@),
        ensures
            r is Ok,
            old(self).gerou_cmd(*final(self), cmd@),
        decreases cmd, 2nat,
    {
        match cmd {
            Comando::Atribuicao { nome, expr, .. } => {
                let ghost s0 = *self;
                let ghost env = s0.ambiente();
                proof {
                    assert(amb.dom().contains(nome@));
                    lemma_tipo_expr(amb, env, expr@);
                    Self::lemma_tam_expr(env, expr@);
                }
                let (alloca, tipo) = self.variavel(nome.as_str());
                match tipo {
                    Tipo::String => {
                        // the address of the destination buffer
                        let c = carregar(&mut self.emissor, alloca, "dst_ptr")?;
                        let ghost s1 = *self;
                        proof {
                            Self::lemma_um_pedido(
                                s0,
                                s1,
                                reg(Pedido::Load { nome: "dst_ptr"@ }, seq![ValorLLVM::Ptr(alloca)], valor_carregado(c)),
                            );
                        }
                        let dst = match c {
                            Carregado::Ptr(p) => p,
                            _ => unreached(),
                        };
                        // the source: a literal, a concatenation or another variable's buffer
                        let src = match self.emitir_expressao(expr, Ghost(amb))? {
                            Operando::Ptr(p) => p,
                            Operando::Int(_) => unreached(),
                        };
                        let ghost s2 = *self;
                        let strcpy = self.externos.strcpy;
                        chamar(&mut self.emissor, strcpy, Operando::Ptr(dst), Operando::Ptr(src), "")?;
                        proof {
                            Self::lemma_um_pedido(
                                s2,
                                *self,
                                reg(
                                    Pedido::Chamada { funcao: "strcpy"@, nome: ""@ },
                                    seq![ValorLLVM::Funcao(strcpy), ValorLLVM::Ptr(dst), ValorLLVM::Ptr(src)],
                                    self.novos_ultimo(),
                                ),
                            );
                            Self::lemma_segue_trans(s0, s1, s2);
                            Self::lemma_segue_trans(s0, s2, *self);
                            let te = tam_expr(env, expr@);
                            let n = s0.novos(*self);
                            assert(n.subrange(1, 1 + te) =~= s1.novos(s2));
                            assert(n =~= em_cmd(env, s0.externos, cmd@, s0.contador(), n).0);
                        }
                    },
                    _ => {
                        let v = match self.emitir_expressao(expr, Ghost(amb))? {
                            Operando::Int(i) => i,
                            Operando::Ptr(_) => unreached(),
                        };
                        let ghost s1 = *self;
                        armazenar(&mut self.emissor, alloca, Operando::Int(v))?;
                        proof {
                            Self::lemma_um_pedido(
                                s1,
                                *self,
                                reg(Pedido::Store, seq![ValorLLVM::Ptr(alloca), ValorLLVM::Int(v)], ValorLLVM::Nenhum),
                            );
                            Self::lemma_segue_trans(s0, s1, *self);
                            let te = tam_expr(env, expr@);
                            let n = s0.novos(*self);
                            assert(n.take(te) =~= s0.novos(s1));
                            assert(n[idx_valor(env, expr@)] == s0.novos(s1)[idx_valor(env, expr@)]);
                            assert(n =~= em_cmd(env, s0.externos, cmd@, s0.contador(), n).0);
                        }
                    },
                }
                Ok(())
            },
            _ => unreached(),
        }
    }

    /// Three steps in a row: what was made from `s0` to `s3` is what each made.
    proof fn lemma_tres(s0: Self, s1: Self, s2: Self, s3: Self)
        requires
            s0.segue(s1),
            s1.segue(s2),
            s2.segue(s3),
        ensures
            s0.segue(s3),
            s3.ambiente() == s0.ambiente(),
            ({
                let n = s0.novos(s3);
                let a = s0.novos(s1).len() as int;
                let b = s1.novos(s2).len() as int;
                &&& n == s0.novos(s1) + s1.novos(s2) + s2.novos(s3)
                &&& n.take(a) == s0.novos(s1)
                &&& n.subrange(a, a + b) == s1.novos(s2)
                &&& n.subrange(a + b, n.len() as int) == s2.novos(s3)
                &&& forall|i: int| 0 <= i < a ==> #[trigger] n[i] == s0.novos(s1)[i]
            }),
    {
        Self::lemma_segue_trans(s0, s1, s2);
        Self::lemma_segue_trans(s0, s2, s3);
        let n = s0.novos(s3);
        let a = s0.novos(s1).len() as int;
        let b = s1.novos(s2).len() as int;
        assert(n =~= s0.novos(s1) + s1.novos(s2) + s2.novos(s3));
        assert(n.take(a) =~= s0.novos(s1));
        assert(n.subrange(a, a + b) =~= s1.novos(s2));
        assert(n.subrange(a + b, n.len() as int) =~= s2.novos(s3));
    }

    /// What `b` asked of LLVM: what `a` asked, then what was made since.
    proof fn lemma_cresce(a: Self, b: Self)
        requires
            a.cresce(b),
        ensures
            b.pedidos() == a.pedidos() + a.novos(b),
    {
        assert(b.pedidos() =~= a.pedidos() + a.novos(b));
    }

    // ── Basic blocks ──────────────────────────────────────────────────────

    /// Appends `br dest` only when the current block does not end with a
    /// terminator yet.
    fn branch_se_sem_terminator(&mut self, dest: BasicBlock<'ctx>) -> (r: Result<(), BuilderError>)
        requires
            old(self).bem_formado(),
            old(self).emissor.blocos().dom().contains(dest),
        ensures
            r is Ok,
            final(self).bem_formado(),
            old(self).preserva(*final(self)),
            final(self).contador() == old(self).contador(),
            old(self).emissor.terminado() == Some(false) ==> final(self).pedidos() == old(self).pedidos().push(
                em_desvio(old(self).emissor.blocos()[dest], ValorLLVM::Bloco(dest)),
            ) && final(self).emissor.terminado() == Some(true),
            old(self).emissor.terminado() == Some(true) ==> *final(self) == *old(self),
    {
        let terminado = match bloco_de_insercao(&self.emissor) {
            Some(bb) => tem_terminador(&self.emissor, bb),
            None => false,
        };
        if !terminado {
            desviar(&mut self.emissor, dest)?;
        }
        Ok(())
    }

    /// Moves the builder to the empty block `bb`, emits `cmds` there, and ends the
    /// block with a branch to `destino` (unless it already ended).
    fn emitir_ramo(
        &mut self,
        bb: BasicBlock<'ctx>,
        cmds: &Vec<Comando>,
        destino: BasicBlock<'ctx>,
        Ghost(amb): Ghost<Ambiente>,
    ) -> (r: Result<(), BuilderError>)
        requires
            old(self).bem_formado(),
            old(self).emissor.blocos().dom().contains(bb),
            old(self).emissor.intocados().contains(bb),
            old(self).emissor.blocos().dom().contains(destino),
            concorda(amb, old(self).ambiente()),
            comandos_ok(amb, cmds_v(cmds@)),
        ensures
            r is Ok,
            final(self).bem_formado(),
            final(self).externos == old(self).externos,
            final(self).module == old(self).module,
            final(self).emissor.modulo() == old(self).emissor.modulo(),
            final(self).variaveis == old(self).variaveis,
            final(self).emissor.contexto() == old(self).emissor.contexto(),
            forall|b: BasicBlock<'ctx>| #[trigger] old(self).emissor.blocos().dom().contains(b)
                ==> final(self).emissor.blocos().dom().contains(b) && final(self).emissor.blocos()[b]
                == old(self).emissor.blocos()[b],
            forall|b: BasicBlock<'ctx>| #[trigger] old(self).emissor.intocados().contains(b) && b != bb
                ==> final(self).emissor.intocados().contains(b),
            old(self).cresce(*final(self)),
            ({
                let env = old(self).ambiente();
                let n = old(self).novos(*final(self));
                let t = tam_cmds(env, cmds_v(cmds@));
                let e = em_cmds(env, old(self).externos, cmds_v(cmds@), old(self).contador(), n.subrange(1, 1 + t));
                &&& t >= 0
                &&& n.len() == t + 2
                &&& n[0] == em_posiciona(old(self).emissor.blocos()[bb], ValorLLVM::Bloco(bb))
                &&& n.subrange(1, 1 + t) == e.0
                &&& n[1 + t] == em_desvio(old(self).emissor.blocos()[destino], ValorLLVM::Bloco(destino))
                &&& final(self).contador() == e.1
            }),
            final(self).emissor.terminado() == Some(true),
        decreases cmds, 2nat,
    {
        let ghost s0 = *self;
        posicionar(&mut self.emissor, bb);
        let ghost s1 = *self;
        assert(s1.pedidos().subrange(0, s0.pedidos().len() as int) =~= s0.pedidos());
        assert(s1.variaveis_v() =~= s0.variaveis_v());
        self.emitir_lista(cmds, Ghost(amb))?;
        let ghost s2 = *self;
        proof {
            Self::lemma_cresce(s1, s2);
        }
        self.branch_se_sem_terminator(destino)?;
        proof {
            let cs = cmds_v(cmds@);
            let env = s0.ambiente();
            let t = tam_cmds(env, cs);
            Self::lemma_tam_cmds(env, cs);
            let n = s0.novos(*self);
            let p = seq![em_posiciona(s0.emissor.blocos()[bb], ValorLLVM::Bloco(bb))];
            let d = seq![em_desvio(s0.emissor.blocos()[destino], ValorLLVM::Bloco(destino))];
            assert(self.pedidos() =~= s0.pedidos() + (p + s1.novos(s2) + d));
            assert(n =~= p + s1.novos(s2) + d);
            assert(n.subrange(1, 1 + t) =~= s1.novos(s2));
            assert(self.pedidos().subrange(0, s0.pedidos().len() as int) =~= s0.pedidos());
        }
        Ok(())
    }

    /// `if (cond) { then } else { else }`:
    /// ```text
    ///   br i1 %cond, label %if.then, label %if.else   ; %if.merge without else
    /// if.then:   <then>   br label %if.merge
    /// if.else:   <else>   br label %if.merge          ; only with else
    /// if.merge:  <what follows>
    /// ```
    fn emitir_if(&mut self, cmd: &Comando, Ghost(amb): Ghost<Ambiente>) -> (r: Result<(), BuilderError>)
        requires
            cmd is If,
            old(self).bem_formado(),
            concorda(amb, old(self).ambiente()),
            comando_ok(amb, cmd@),
        ensures
            r is Ok,
            old(self).gerou_cmd(*final(self), cmd@),
        decreases cmd, 2nat,
    {
        match cmd {
            Comando::If { senao: Some(_), .. } => self.emitir_if_senao(cmd, Ghost(amb)),
            _ => self.emitir_if_simples(cmd, Ghost(amb)),
        }
    }

    /// `if` without `else`: the false branch goes straight to `if.merge`.
    #[verifier::rlimit(100)]
    #[verifier::spinoff_prover]
    fn emitir_if_simples(&mut self, cmd: &Comando, Ghost(amb): Ghost<Ambiente>) -> (r: Result<(), BuilderError>)
        requires
            cmd matches Comando::If { senao, .. } && senao is None,
            old(self).bem_formado(),
            concorda(amb, old(self).ambiente()),
            comando_ok(amb, cmd@),
        ensures
            r is Ok,
            old(self).gerou_cmd(*final(self), cmd@),
        decreases cmd, 1nat,
    {
        match cmd {
            Comando::If { condicao, entao, .. } => {
                let ghost s0 = *self;
                let ghost env = s0.ambiente();
                let ghost f = s0.externos;
                proof {
                    lemma_tipo_expr(amb, env, condicao@);
                    Self::lemma_tam_expr(env, condicao@);
                }
                let c = self.emitir_expressao(condicao, Ghost(amb))?;
                let ghost s1 = *self;
                proof {
                    Self::lemma_cresce(s0, s1);
                }
                let cond_val = match c {
                    Operando::Int(i) => i,
                    Operando::Ptr(_) => unreached(),
                };
                let mainf = self.externos.main;
                let then_bb = anexar_bloco(&mut self.emissor, mainf, "if.then");
                let merge_bb = anexar_bloco(&mut self.emissor, mainf, "if.merge");
                desviar_se(&mut self.emissor, cond_val, then_bb, merge_bb)?;
                let ghost s2 = *self;
                assert(s2.variaveis_v() =~= s0.variaveis_v());
                assert(then_bb != merge_bb);
                assert(s2.emissor.blocos()[then_bb] == "if.then"@);
                assert(s2.emissor.blocos()[merge_bb] == "if.merge"@);
                self.emitir_ramo(then_bb, entao, merge_bb, Ghost(amb))?;
                let ghost s3 = *self;
                proof {
                    Self::lemma_cresce(s2, s3);
                    assert(s2.emissor.intocados().contains(merge_bb));
                    assert(s2.emissor.blocos().dom().contains(merge_bb));
                }
                assert(self.emissor.blocos().dom().contains(merge_bb));
                assert(self.emissor.intocados().contains(merge_bb));
                posicionar(&mut self.emissor, merge_bb);
                proof {
                    let k = s0.contador();
                    let tc = tam_expr(env, condicao@);
                    let pc = s0.novos(s1);
                    let r1 = s2.novos(s3);
                    let bt = ValorLLVM::Bloco(then_bb);
                    let bm = ValorLLVM::Bloco(merge_bb);
                    let tt = tam_cmds(env, cmds_v(entao@));
                    assert(s3.variaveis_v() =~= s0.variaveis_v());
                    let cab = seq![
                        em_bloco(f, "if.then"@, bt),
                        em_bloco(f, "if.merge"@, bm),
                        reg(
                            Pedido::DesvioCondicional { entao: "if.then"@, senao: "if.merge"@ },
                            seq![ValorLLVM::Int(cond_val), bt, bm],
                            ValorLLVM::Nenhum,
                        ),
                    ];
                    let e = pc + cab + r1 + seq![em_posiciona("if.merge"@, bm)];
                    assert(self.pedidos() =~= s0.pedidos() + e);
                    let n = s0.novos(*self);
                    assert(n =~= e);
                    assert(r1.len() == tt + 2);
                    assert(r1[0] == em_posiciona("if.then"@, bt));
                    assert(r1[1 + tt] == em_desvio("if.merge"@, bm));
                    assert(n.take(tc) =~= pc);
                    assert(n[idx_valor(env, condicao@)] == pc[idx_valor(env, condicao@)]);
                    assert(n.subrange(tc + 4, tc + 4 + tt) =~= r1.subrange(1, 1 + tt));
                    assert(n =~= em_cmd(env, f, cmd@, k, n).0);
                    assert(self.pedidos().subrange(0, s0.pedidos().len() as int) =~= s0.pedidos());
                    assert forall|b: BasicBlock<'ctx>| #[trigger] s0.emissor.intocados().contains(b) implies self.emissor.intocados().contains(b) by {
                        assert(s0.emissor.blocos().dom().contains(b));
                        assert(s1.emissor.intocados().contains(b));
                        assert(s2.emissor.intocados().contains(b));
                        assert(s3.emissor.intocados().contains(b));
                    }
                    assert forall|b: BasicBlock<'ctx>| #[trigger] s0.emissor.blocos().dom().contains(b) implies self.emissor.blocos().dom().contains(b)
                        && self.emissor.blocos()[b] == s0.emissor.blocos()[b] by {
                        assert(s1.emissor.blocos().dom().contains(b));
                        assert(s2.emissor.blocos().dom().contains(b));
                        assert(s3.emissor.blocos().dom().contains(b));
                    }
                }
                Ok(())
            },
            _ => unreached(),
        }
    }

    /// `if` with `else`: each branch in its own block, both joining at `if.merge`.
    #[verifier::rlimit(100)]
    #[verifier::spinoff_prover]
    fn emitir_if_senao(&mut self, cmd: &Comando, Ghost(amb): Ghost<Ambiente>) -> (r: Result<(), BuilderError>)
        requires
            cmd matches Comando::If { senao, .. } && senao is Some,
            old(self).bem_formado(),
            concorda(amb, old(self).ambiente()),
            comando_ok(amb, cmd@),
        ensures
            r is Ok,
            old(self).gerou_cmd(*final(self), cmd@),
        decreases cmd, 1nat,
    {
        match cmd {
            Comando::If { condicao, entao, senao: Some(cs), .. } => {
                let ghost s0 = *self;
                let ghost env = s0.ambiente();
                let ghost f = s0.externos;
                proof {
                    lemma_tipo_expr(amb, env, condicao@);
                    Self::lemma_tam_expr(env, condicao@);
                }
                let c = self.emitir_expressao(condicao, Ghost(amb))?;
                let ghost s1 = *self;
                proof {
                    Self::lemma_cresce(s0, s1);
                }
                let cond_val = match c {
                    Operando::Int(i) => i,
                    Operando::Ptr(_) => unreached(),
                };
                let mainf = self.externos.main;
                let then_bb = anexar_bloco(&mut self.emissor, mainf, "if.then");
                let else_bb = anexar_bloco(&mut self.emissor, mainf, "if.else");
                let merge_bb = anexar_bloco(&mut self.emissor, mainf, "if.merge");
                desviar_se(&mut self.emissor, cond_val, then_bb, else_bb)?;
                let ghost s2 = *self;
                assert(s2.variaveis_v() =~= s0.variaveis_v());
                assert(then_bb != merge_bb && else_bb != merge_bb && else_bb != then_bb);
                assert(s2.emissor.blocos()[then_bb] == "if.then"@);
                assert(s2.emissor.blocos()[else_bb] == "if.else"@);
                assert(s2.emissor.blocos()[merge_bb] == "if.merge"@);
                self.emitir_ramos(cmd, then_bb, else_bb, merge_bb, Ghost(amb))?;
                proof {
                    Self::lemma_cresce(s2, *self);
                    let k = s0.contador();
                    let tc = tam_expr(env, condicao@);
                    let pc = s0.novos(s1);
                    let rs = s2.novos(*self);
                    let bt = ValorLLVM::Bloco(then_bb);
                    let be = ValorLLVM::Bloco(else_bb);
                    let bm = ValorLLVM::Bloco(merge_bb);
                    let tt = tam_cmds(env, ramo_entao(cmd@));
                    let ts = tam_cmds(env, ramo_senao(cmd@));
                    assert(self.variaveis_v() =~= s0.variaveis_v());
                    let cab = seq![
                        em_bloco(f, "if.then"@, bt),
                        em_bloco(f, "if.else"@, be),
                        em_bloco(f, "if.merge"@, bm),
                        reg(
                            Pedido::DesvioCondicional { entao: "if.then"@, senao: "if.else"@ },
                            seq![ValorLLVM::Int(cond_val), bt, be],
                            ValorLLVM::Nenhum,
                        ),
                    ];
                    let e = pc + cab + rs;
                    let n = s0.novos(*self);
                    assert(n =~= e) by {
                        assert(self.pedidos() =~= s0.pedidos() + e);
                    }
                    assert(n.take(tc) =~= pc);
                    assert(n[idx_valor(env, condicao@)] == pc[idx_valor(env, condicao@)]);
                    assert(n.subrange(tc + 5, tc + 5 + tt) =~= rs.subrange(1, 1 + tt));
                    assert(n.subrange(tc + 7 + tt, tc + 7 + tt + ts) =~= rs.subrange(3 + tt, 3 + tt + ts));
                    assert(n =~= em_cmd(env, f, cmd@, k, n).0);
                    assert(self.pedidos().subrange(0, s0.pedidos().len() as int) =~= s0.pedidos());
                    assert forall|b: BasicBlock<'ctx>| #[trigger] s0.emissor.intocados().contains(b) implies self.emissor.intocados().contains(b) by {
                        assert(s0.emissor.blocos().dom().contains(b));
                        assert(s1.emissor.intocados().contains(b));
                        assert(s2.emissor.intocados().contains(b));
                    }
                    assert forall|b: BasicBlock<'ctx>| #[trigger] s0.emissor.blocos().dom().contains(b) implies self.emissor.blocos().dom().contains(b)
                        && self.emissor.blocos()[b] == s0.emissor.blocos()[b] by {
                        assert(s1.emissor.blocos().dom().contains(b));
                        assert(s2.emissor.blocos().dom().contains(b));
                    }
                }
                Ok(())
            },
            _ => unreached(),
        }
    }

    /// The two branches of an `if` with `else`, each in its own empty block and
    /// both ending with a branch to `merge`, where the builder is left.
    #[verifier::rlimit(60)]
    #[verifier::spinoff_prover]
    fn emitir_ramos(
        &mut self,
        cmd: &Comando,
        bt: BasicBlock<'ctx>,
        be: BasicBlock<'ctx>,
        merge: BasicBlock<'ctx>,
        Ghost(amb): Ghost<Ambiente>,
    ) -> (r: Result<(), BuilderError>)
        requires
            cmd matches Comando::If { senao, .. } && senao is Some,
            old(self).bem_formado(),
            old(self).emissor.blocos().dom().contains(bt),
            old(self).emissor.blocos().dom().contains(be),
            old(self).emissor.blocos().dom().contains(merge),
            old(self).emissor.intocados().contains(bt),
            old(self).emissor.intocados().contains(be),
            old(self).emissor.intocados().contains(merge),
            bt != be && bt != merge && be != merge,
            concorda(amb, old(self).ambiente()),
            comando_ok(amb, cmd@),
        ensures
            r is Ok,
            final(self).bem_formado(),
            final(self).externos == old(self).externos,
            final(self).module == old(self).module,
            final(self).emissor.modulo() == old(self).emissor.modulo(),
            final(self).variaveis == old(self).variaveis,
            final(self).emissor.contexto() == old(self).emissor.contexto(),
            forall|b: BasicBlock<'ctx>| #[trigger] old(self).emissor.blocos().dom().contains(b)
                ==> final(self).emissor.blocos().dom().contains(b) && final(self).emissor.blocos()[b]
                == old(self).emissor.blocos()[b],
            forall|b: BasicBlock<'ctx>| #[trigger] old(self).emissor.intocados().contains(b) && b != bt && b != be && b != merge
                ==> final(self).emissor.intocados().contains(b),
            old(self).cresce(*final(self)),
            final(self).emissor.terminado() == Some(false),
            ({
                let env = old(self).ambiente();
                let f = old(self).externos;
                let n = old(self).novos(*final(self));
                let t1 = tam_cmds(env, ramo_entao(cmd@));
                let t2 = tam_cmds(env, ramo_senao(cmd@));
                let e1 = em_cmds(env, f, ramo_entao(cmd@), old(self).contador(), n.subrange(1, 1 + t1));
                let e2 = em_cmds(env, f, ramo_senao(cmd@), e1.1, n.subrange(3 + t1, 3 + t1 + t2));
                let dm = em_desvio(old(self).emissor.blocos()[merge], ValorLLVM::Bloco(merge));
                &&& t1 >= 0 && t2 >= 0
                &&& n.len() == t1 + t2 + 5
                &&& n[0] == em_posiciona(old(self).emissor.blocos()[bt], ValorLLVM::Bloco(bt))
                &&& n.subrange(1, 1 + t1) == e1.0
                &&& n[1 + t1] == dm
                &&& n[2 + t1] == em_posiciona(old(self).emissor.blocos()[be], ValorLLVM::Bloco(be))
                &&& n.subrange(3 + t1, 3 + t1 + t2) == e2.0
                &&& n[3 + t1 + t2] == dm
                &&& n[4 + t1 + t2] == em_posiciona(old(self).emissor.blocos()[merge], ValorLLVM::Bloco(merge))
                &&& final(self).contador() == e2.1
            }),
        decreases cmd, 0nat,
    {
        let (entao, senao) = match cmd {
            Comando::If { entao, senao: Some(cs), .. } => (entao, cs),
            _ => unreached(),
        };
        let ghost s0 = *self;
        self.emitir_ramo(bt, entao, merge, Ghost(amb))?;
        let ghost s1 = *self;
        proof {
            Self::lemma_cresce(s0, s1);
            assert(s0.emissor.intocados().contains(be));
            assert(s0.emissor.intocados().contains(merge));
            assert(s0.emissor.blocos().dom().contains(be));
            assert(s0.emissor.blocos().dom().contains(merge));
        }
        assert(s1.variaveis_v() =~= s0.variaveis_v());
        self.emitir_ramo(be, senao, merge, Ghost(amb))?;
        let ghost s2 = *self;
        proof {
            Self::lemma_cresce(s1, s2);
            assert(s1.emissor.intocados().contains(merge));
            assert(s1.emissor.blocos().dom().contains(merge));
        }
        assert(self.emissor.intocados().contains(merge));
        posicionar(&mut self.emissor, merge);
        proof {
            let r1 = s0.novos(s1);
            let r2 = s1.novos(s2);
            let n = s0.novos(*self);
            let env = s0.ambiente();
            let t1 = tam_cmds(env, ramo_entao(cmd@));
            let t2 = tam_cmds(env, ramo_senao(cmd@));
            assert(n =~= r1 + r2 + seq![em_posiciona(s0.emissor.blocos()[merge], ValorLLVM::Bloco(merge))]) by {
                assert(self.pedidos() =~= s0.pedidos() + (r1 + r2 + seq![
                    em_posiciona(s0.emissor.blocos()[merge], ValorLLVM::Bloco(merge)),
                ]));
            }
            assert(n.subrange(1, 1 + t1) =~= r1.subrange(1, 1 + t1));
            assert(n.subrange(3 + t1, 3 + t1 + t2) =~= r2.subrange(1, 1 + t2));
            assert(self.pedidos().subrange(0, s0.pedidos().len() as int) =~= s0.pedidos());
            assert(self.variaveis_v() =~= s0.variaveis_v());
        }
        Ok(())
    }

    /// The three blocks of a `while` (condition, body, end), a branch to the
    /// condition, and the builder moved there.
    #[verifier::spinoff_prover]
    fn abrir_laco(&mut self) -> (r: (BasicBlock<'ctx>, BasicBlock<'ctx>, BasicBlock<'ctx>))
        requires
            old(self).bem_formado(),
        ensures
            final(self).bem_formado(),
            final(self).externos == old(self).externos,
            final(self).module == old(self).module,
            final(self).emissor.modulo() == old(self).emissor.modulo(),
            final(self).variaveis == old(self).variaveis,
            final(self).str_counter == old(self).str_counter,
            final(self).emissor.contexto() == old(self).emissor.contexto(),
            r.0 != r.1 && r.0 != r.2 && r.1 != r.2,
            !old(self).emissor.blocos().dom().contains(r.0),
            !old(self).emissor.blocos().dom().contains(r.1),
            !old(self).emissor.blocos().dom().contains(r.2),
            final(self).emissor.blocos() == old(self).emissor.blocos().insert(r.0, "while.cond"@).insert(
                r.1,
                "while.body"@,
            ).insert(r.2, "while.end"@),
            forall|b: BasicBlock<'ctx>| #[trigger] old(self).emissor.intocados().contains(b)
                ==> final(self).emissor.intocados().contains(b),
            final(self).emissor.intocados().contains(r.1),
            final(self).emissor.intocados().contains(r.2),
            final(self).emissor.terminado() == Some(false),
            final(self).pedidos() == old(self).pedidos() + seq![
                em_bloco(old(self).externos, "while.cond"@, ValorLLVM::Bloco(r.0)),
                em_bloco(old(self).externos, "while.body"@, ValorLLVM::Bloco(r.1)),
                em_bloco(old(self).externos, "while.end"@, ValorLLVM::Bloco(r.2)),
                em_desvio("while.cond"@, ValorLLVM::Bloco(r.0)),
                em_posiciona("while.cond"@, ValorLLVM::Bloco(r.0)),
            ],
    {
        let mainf = self.externos.main;
        let cond_bb = anexar_bloco(&mut self.emissor, mainf, "while.cond");
        let body_bb = anexar_bloco(&mut self.emissor, mainf, "while.body");
        let end_bb = anexar_bloco(&mut self.emissor, mainf, "while.end");
        // the builder is positioned, so the branch is always made
        let _ = desviar(&mut self.emissor, cond_bb);
        posicionar(&mut self.emissor, cond_bb);
        assert(self.pedidos() =~= old(self).pedidos() + seq![
            em_bloco(old(self).externos, "while.cond"@, ValorLLVM::Bloco(cond_bb)),
            em_bloco(old(self).externos, "while.body"@, ValorLLVM::Bloco(body_bb)),
            em_bloco(old(self).externos, "while.end"@, ValorLLVM::Bloco(end_bb)),
            em_desvio("while.cond"@, ValorLLVM::Bloco(cond_bb)),
            em_posiciona("while.cond"@, ValorLLVM::Bloco(cond_bb)),
        ]);
        (cond_bb, body_bb, end_bb)
    }

    /// `while (cond) { body }`:
    /// ```text
    ///   br label %while.cond
    /// while.cond:  %t = <cond>   br i1 %t, label %while.body, label %while.end
    /// while.body:  <body>        br label %while.cond
    /// while.end:   <what follows>
    /// ```
    #[verifier::rlimit(100)]
    #[verifier::spinoff_prover]
    fn emitir_while(&mut self, cmd: &Comando, Ghost(amb): Ghost<Ambiente>) -> (r: Result<(), BuilderError>)
        requires
            cmd is While,
            old(self).bem_formado(),
            concorda(amb, old(self).ambiente()),
            comando_ok(amb, cmd@),
        ensures
            r is Ok,
            old(self).gerou_cmd(*final(self), cmd@),
        decreases cmd, 2nat,
    {
        match cmd {
            Comando::While { condicao, corpo, .. } => {
                let ghost s0 = *self;
                let ghost env = s0.ambiente();
                let ghost f = s0.externos;
                proof {
                    lemma_tipo_expr(amb, env, condicao@);
                    Self::lemma_tam_expr(env, condicao@);
                }
                let (cond_bb, body_bb, end_bb) = self.abrir_laco();
                let ghost s1 = *self;
                assert(s1.variaveis_v() =~= s0.variaveis_v());
                assert(s1.emissor.blocos().dom().contains(cond_bb));
                assert(s1.emissor.blocos().dom().contains(body_bb));
                assert(s1.emissor.blocos().dom().contains(end_bb));
                assert(s1.emissor.intocados().contains(body_bb));
                assert(s1.emissor.intocados().contains(end_bb));
                let c = self.emitir_expressao(condicao, Ghost(amb))?;
                let ghost s2 = *self;
                proof {
                    Self::lemma_cresce(s1, s2);
                }
                let cond_val = match c {
                    Operando::Int(i) => i,
                    Operando::Ptr(_) => unreached(),
                };
                assert(s2.emissor.blocos().dom().contains(cond_bb));
                assert(s2.emissor.blocos().dom().contains(body_bb));
                assert(s2.emissor.blocos().dom().contains(end_bb));
                assert(s2.emissor.intocados().contains(body_bb));
                assert(s2.emissor.intocados().contains(end_bb));
                desviar_se(&mut self.emissor, cond_val, body_bb, end_bb)?;
                let ghost s3 = *self;
                assert(s3.variaveis_v() =~= s0.variaveis_v());
                // the body, then back to the condition
                self.emitir_ramo(body_bb, corpo, cond_bb, Ghost(amb))?;
                let ghost s4 = *self;
                proof {
                    Self::lemma_cresce(s3, s4);
                }
                assert(self.emissor.blocos().dom().contains(end_bb));
                assert(self.emissor.intocados().contains(end_bb));
                posicionar(&mut self.emissor, end_bb);
                proof {
                    let k = s0.contador();
                    let tc = tam_expr(env, condicao@);
                    let pc = s1.novos(s2);
                    let rb = s3.novos(s4);
                    let bc = ValorLLVM::Bloco(cond_bb);
                    let bb = ValorLLVM::Bloco(body_bb);
                    let be = ValorLLVM::Bloco(end_bb);
                    let tb = tam_cmds(env, cmds_v(corpo@));
                    let cab = seq![
                        em_bloco(f, "while.cond"@, bc),
                        em_bloco(f, "while.body"@, bb),
                        em_bloco(f, "while.end"@, be),
                        em_desvio("while.cond"@, bc),
                        em_posiciona("while.cond"@, bc),
                    ];
                    let e = cab + pc + seq![
                        reg(
                            Pedido::DesvioCondicional { entao: "while.body"@, senao: "while.end"@ },
                            seq![ValorLLVM::Int(cond_val), bb, be],
                            ValorLLVM::Nenhum,
                        ),
                    ] + rb + seq![em_posiciona("while.end"@, be)];
                    let n = s0.novos(*self);
                    assert(n =~= e) by {
                        assert(self.pedidos() =~= s0.pedidos() + e);
                    }
                    assert(n.subrange(5, 5 + tc) =~= pc);
                    assert(n.subrange(5, 5 + tc)[idx_valor(env, condicao@)] == pc[idx_valor(env, condicao@)]);
                    assert(n.subrange(7 + tc, 7 + tc + tb) =~= rb.subrange(1, 1 + tb));
                    assert(n =~= em_cmd(env, f, cmd@, k, n).0);
                    assert(self.pedidos().subrange(0, s0.pedidos().len() as int) =~= s0.pedidos());
                    assert(self.variaveis_v() =~= s0.variaveis_v());
                    assert forall|b: BasicBlock<'ctx>| #[trigger] s0.emissor.intocados().contains(b) implies self.emissor.intocados().contains(b) by {
                        assert(s0.emissor.blocos().dom().contains(b));
                        assert(s1.emissor.intocados().contains(b));
                        assert(s2.emissor.intocados().contains(b));
                        assert(s3.emissor.intocados().contains(b));
                        assert(s4.emissor.intocados().contains(b));
                    }
                    assert forall|b: BasicBlock<'ctx>| #[trigger] s0.emissor.blocos().dom().contains(b) implies self.emissor.blocos().dom().contains(b)
                        && self.emissor.blocos()[b] == s0.emissor.blocos()[b] by {
                        assert(s1.emissor.blocos().dom().contains(b));
                        assert(s2.emissor.blocos().dom().contains(b));
                        assert(s3.emissor.blocos().dom().contains(b));
                        assert(s4.emissor.blocos().dom().contains(b));
                    }
                }
                Ok(())
            },
            _ => unreached(),
        }
    }

    /// `print(expr);` calls `printf` with `"%d\n"` for `int`, with `"%d\n"` and the
    /// value widened to `i32` for `bool`, and with `"%s\n"` for `string`: the
    /// format first, the value second.
    #[verifier::rlimit(60)]
    #[verifier::spinoff_prover]
    fn emitir_print(&mut self, cmd: &Comando, Ghost(amb): Ghost<Ambiente>) -> (r: Result<(), BuilderError>)
        requires
            cmd is Print,
            old(self).bem_formado(),
            concorda(amb, old(self).ambiente()),
            comando_ok(amb, cmd@),
        ensures
            r is Ok,
            old(self).gerou_cmd(*final(self), cmd@),
        decreases cmd, 2nat,
    {
        match cmd {
            Comando::Print { expr, .. } => {
                let ghost s0 = *self;
                let ghost env = s0.ambiente();
                proof {
                    lemma_tipo_expr(amb, env, expr@);
                    Self::lemma_tam_expr(env, expr@);
                }
                let tipo = self.inferir_tipo(expr, Ghost(amb));
                let val = self.emitir_expressao(expr, Ghost(amb))?;
                let ghost s1 = *self;
                let printf = self.externos.printf;
                match tipo {
                    Tipo::Int => {
                        let v = match val {
                            Operando::Int(i) => i,
                            Operando::Ptr(_) => unreached(),
                        };
                        let fmt = self.global_str("%d\n");
                        let ghost s2 = *self;
                        chamar(&mut self.emissor, printf, Operando::Ptr(fmt), Operando::Int(v), "")?;
                        proof {
                            let call = em_chamada("printf"@, printf, ValorLLVM::Ptr(fmt), ValorLLVM::Int(v), self.novos_ultimo());
                            Self::lemma_um_pedido(s2, *self, call);
                            Self::lemma_tres(s0, s1, s2, *self);
                            let n = s0.novos(*self);
                            assert(n[idx_valor(env, expr@)] == s0.novos(s1)[idx_valor(env, expr@)]);
                            assert(n =~= em_cmd(env, s0.externos, cmd@, s0.contador(), n).0);
                        }
                    },
                    Tipo::Bool => {
                        let v = match val {
                            Operando::Int(i) => i,
                            Operando::Ptr(_) => unreached(),
                        };
                        let fmt = self.global_str("%d\n");
                        let ghost s2 = *self;
                        // printf takes no i1: widen to i32
                        let estendido = estender_zero(&mut self.emissor, v, "bool_ext")?;
                        let ghost s3 = *self;
                        proof {
                            Self::lemma_um_pedido(
                                s2,
                                s3,
                                reg(Pedido::EstendeZero { nome: "bool_ext"@ }, seq![ValorLLVM::Int(v)], ValorLLVM::Int(estendido)),
                            );
                        }
                        chamar(&mut self.emissor, printf, Operando::Ptr(fmt), Operando::Int(estendido), "")?;
                        proof {
                            let call = em_chamada("printf"@, printf, ValorLLVM::Ptr(fmt), ValorLLVM::Int(estendido), self.novos_ultimo());
                            Self::lemma_um_pedido(s3, *self, call);
                            Self::lemma_segue_trans(s2, s3, *self);
                            Self::lemma_tres(s0, s1, s2, *self);
                            let n = s0.novos(*self);
                            assert(n[idx_valor(env, expr@)] == s0.novos(s1)[idx_valor(env, expr@)]);
                            assert(n =~= em_cmd(env, s0.externos, cmd@, s0.contador(), n).0);
                        }
                    },
                    Tipo::String => {
                        let v = match val {
                            Operando::Ptr(p) => p,
                            Operando::Int(_) => unreached(),
                        };
                        let fmt = self.global_str("%s\n");
                        let ghost s2 = *self;
                        chamar(&mut self.emissor, printf, Operando::Ptr(fmt), Operando::Ptr(v), "")?;
                        proof {
                            let call = em_chamada("printf"@, printf, ValorLLVM::Ptr(fmt), ValorLLVM::Ptr(v), self.novos_ultimo());
                            Self::lemma_um_pedido(s2, *self, call);
                            Self::lemma_tres(s0, s1, s2, *self);
                            let n = s0.novos(*self);
                            assert(n[idx_valor(env, expr@)] == s0.novos(s1)[idx_valor(env, expr@)]);
                            assert(n =~= em_cmd(env, s0.externos, cmd@, s0.contador(), n).0);
                        }
                    },
                }
                Ok(())
            },
            _ => unreached(),
        }
    }

    /// `read(x);` calls `scanf` with `"%d"` and the slot of an `int`, or with
    /// `"%255s"` (at most 255 bytes, so the buffer cannot overflow) and the buffer
    /// of a `string`.
    #[verifier::spinoff_prover]
    fn emitir_read(&mut self, cmd: &Comando, Ghost(amb): Ghost<Ambiente>) -> (r: Result<(), BuilderError>)
        requires
            cmd is Read,
            old(self).bem_formado(),
            concorda(amb, old(self).ambiente()),
            comando_ok(amb, cmd@),
        ensures
            r is Ok,
            old(self).gerou_cmd(*final(self), cmd@),
        decreases cmd, 2nat,
    {
        match cmd {
            Comando::Read { nome, .. } => {
                let ghost s0 = *self;
                let ghost env = s0.ambiente();
                proof {
                    assert(amb.dom().contains(nome@));
                }
                let (alloca, tipo) = self.variavel(nome.as_str());
                let scanf = self.externos.scanf;
                match tipo {
                    Tipo::Int => {
                        let fmt = self.global_str("%d");
                        let ghost s1 = *self;
                        chamar(&mut self.emissor, scanf, Operando::Ptr(fmt), Operando::Ptr(alloca), "")?;
                        proof {
                            Self::lemma_um_pedido(
                                s1,
                                *self,
                                em_chamada("scanf"@, scanf, ValorLLVM::Ptr(fmt), ValorLLVM::Ptr(alloca), self.novos_ultimo()),
                            );
                            Self::lemma_segue_trans(s0, s1, *self);
                            let n = s0.novos(*self);
                            assert(n.take(tam_global("%d"@)) =~= s0.novos(s1));
                            assert(n =~= em_cmd(env, s0.externos, cmd@, s0.contador(), n).0);
                        }
                    },
                    Tipo::String => {
                        let c = carregar(&mut self.emissor, alloca, "buf_ptr")?;
                        let ghost s1 = *self;
                        proof {
                            Self::lemma_um_pedido(
                                s0,
                                s1,
                                reg(Pedido::Load { nome: "buf_ptr"@ }, seq![ValorLLVM::Ptr(alloca)], valor_carregado(c)),
                            );
                        }
                        let buf_ptr = match c {
                            Carregado::Ptr(p) => p,
                            _ => unreached(),
                        };
                        let fmt = self.global_str("%255s");
                        let ghost s2 = *self;
                        chamar(&mut self.emissor, scanf, Operando::Ptr(fmt), Operando::Ptr(buf_ptr), "")?;
                        proof {
                            Self::lemma_um_pedido(
                                s2,
                                *self,
                                em_chamada("scanf"@, scanf, ValorLLVM::Ptr(fmt), ValorLLVM::Ptr(buf_ptr), self.novos_ultimo()),
                            );
                            Self::lemma_segue_trans(s0, s1, s2);
                            Self::lemma_segue_trans(s0, s2, *self);
                            let n = s0.novos(*self);
                            assert(n.subrange(1, 1 + tam_global("%255s"@)) =~= s1.novos(s2));
                            assert(n =~= em_cmd(env, s0.externos, cmd@, s0.contador(), n).0);
                        }
                    },
                    // the analysis never lets `read` take a bool
                    Tipo::Bool => unreached(),
                }
                Ok(())
            },
            _ => unreached(),
        }
    }

    // ── The program ───────────────────────────────────────────────────────

    /// From `s0` to `s1` the declarations `ds.take(i)` were made, and from `s1` to
    /// `s2` the declaration `ds[i]`: from `s0` to `s2`, the declarations
    /// `ds.take(i + 1)`.
    proof fn lemma_decls_passo(s0: Self, s1: Self, s2: Self, ds: Seq<DeclV>, i: int)
        requires
            0 <= i < ds.len(),
            s0.preserva_blocos(s1),
            s0.cresce(s1),
            s0.novos(s1).len() == tam_decls(ds.take(i)),
            s0.novos(s1) == em_decls(ds.take(i), s0.novos(s1)),
            s1.variaveis_v() == s0.variaveis_v() + vars_decls(ds.take(i), s0.novos(s1)),
            s1.preserva_blocos(s2),
            s1.cresce(s2),
            s1.novos(s2).len() == tam_decl(ds[i]),
            s1.novos(s2) == em_decl(ds[i], s1.novos(s2)),
            s2.variaveis_v() == s1.variaveis_v().push((ds[i].nome, ds[i].tipo, slot_decl(ds[i], s1.novos(s2)))),
        ensures
            s0.preserva_blocos(s2),
            s0.cresce(s2),
            s0.novos(s2).len() == tam_decls(ds.take(i + 1)),
            s0.novos(s2) == em_decls(ds.take(i + 1), s0.novos(s2)),
            s2.variaveis_v() == s0.variaveis_v() + vars_decls(ds.take(i + 1), s0.novos(s2)),
    {
        assert forall|b: BasicBlock<'ctx>| #[trigger] s0.emissor.blocos().dom().contains(b) implies s2.emissor.blocos().dom().contains(b)
            && s2.emissor.blocos()[b] == s0.emissor.blocos()[b] by {
            assert(s1.emissor.blocos().dom().contains(b));
        }
        assert forall|b: BasicBlock<'ctx>| #[trigger] s0.emissor.intocados().contains(b) implies s2.emissor.intocados().contains(b) by {
            assert(s1.emissor.intocados().contains(b));
        }
        Self::lemma_cresce(s0, s1);
        Self::lemma_cresce(s1, s2);
        assert(s2.pedidos() =~= s0.pedidos() + (s0.novos(s1) + s1.novos(s2)));
        assert(s2.pedidos().subrange(0, s0.pedidos().len() as int) =~= s0.pedidos());
        let n = s0.novos(s2);
        assert(n =~= s0.novos(s1) + s1.novos(s2));
        let dd = ds.take(i + 1);
        assert(dd.drop_last() =~= ds.take(i));
        assert(dd.last() == ds[i]);
        let ti = tam_decls(ds.take(i));
        assert(n.take(ti) =~= s0.novos(s1));
        assert(n.subrange(ti, ti + tam_decl(ds[i])) =~= s1.novos(s2));
        assert(vars_decls(dd, n) =~= vars_decls(ds.take(i), s0.novos(s1)).push(
            (ds[i].nome, ds[i].tipo, slot_decl(ds[i], s1.novos(s2))),
        ));
        assert(s2.variaveis_v() =~= s0.variaveis_v() + vars_decls(dd, n));
        assert(n =~= em_decls(dd, n));
    }

    /// Emits the whole program and closes `main`: the declarations first (every
    /// slot), then each command, then `ret i32 0`.
    pub fn emitir_programa(&mut self, prog: &Programa)
        requires
            old(self).bem_formado(),
            programa_valido(prog@),
        ensures
            final(self).bem_formado(),
            final(self).funcoes() == old(self).funcoes(),
            final(self).pedidos().len() >= old(self).pedidos().len(),
            ({
                let n = final(self).pedidos().subrange(old(self).pedidos().len() as int, final(self).pedidos().len() as int);
                let e = em_programa(old(self).variaveis_v(), old(self).funcoes(), prog@, old(self).contador(), n);
                &&& final(self).pedidos() == old(self).pedidos() + e.0
                &&& final(self).contador() == e.1
                &&& final(self).variaveis_v() == old(self).variaveis_v() + vars_decls(
                    prog@.declaracoes,
                    n.take(tam_decls(prog@.declaracoes)),
                )
            }),
    {
        let _ = self.emitir_tudo(prog);
    }

    #[verifier::rlimit(40)]
    fn emitir_tudo(&mut self, prog: &Programa) -> (r: Result<(), BuilderError>)
        requires
            old(self).bem_formado(),
            programa_valido(prog@),
        ensures
            r is Ok,
            final(self).bem_formado(),
            final(self).funcoes() == old(self).funcoes(),
            final(self).pedidos().len() >= old(self).pedidos().len(),
            ({
                let n = final(self).pedidos().subrange(old(self).pedidos().len() as int, final(self).pedidos().len() as int);
                let e = em_programa(old(self).variaveis_v(), old(self).funcoes(), prog@, old(self).contador(), n);
                &&& final(self).pedidos() == old(self).pedidos() + e.0
                &&& final(self).contador() == e.1
                &&& final(self).variaveis_v() == old(self).variaveis_v() + vars_decls(
                    prog@.declaracoes,
                    n.take(tam_decls(prog@.declaracoes)),
                )
            }),
    {
        let ghost s0 = *self;
        let ghost ds = prog@.declaracoes;
        let ghost vs = s0.variaveis_v();
        // 1: a slot for every declared variable
        let mut i: usize = 0;
        proof {
            assert(ds.take(0) =~= Seq::<DeclV>::empty());
            assert(s0.novos(s0) =~= Seq::<Registro<'ctx>>::empty());
            assert(s0.pedidos().subrange(0, s0.pedidos().len() as int) =~= s0.pedidos());
            assert(vs + vars_decls(ds.take(0), s0.novos(s0)) =~= vs);
        }
        while i < prog.declaracoes.len()
            invariant
                i <= prog.declaracoes@.len(),
                ds == decls_v(prog.declaracoes@),
                s0 == *old(self),
                vs == s0.variaveis_v(),
                self.bem_formado(),
                s0.preserva_blocos(*self),
                s0.cresce(*self),
                s0.novos(*self).len() == tam_decls(ds.take(i as int)),
                s0.novos(*self) == em_decls(ds.take(i as int), s0.novos(*self)),
                self.variaveis_v() == vs + vars_decls(ds.take(i as int), s0.novos(*self)),
                self.contador() == s0.contador(),
            decreases prog.declaracoes@.len() - i,
        {
            let ghost s1 = *self;
            self.emitir_declaracao(&prog.declaracoes[i])?;
            proof {
                assert(ds[i as int] == prog.declaracoes@[i as int]@);
                Self::lemma_decls_passo(s0, s1, *self, ds, i as int);
            }
            i = i + 1;
        }
        assert(ds.take(ds.len() as int) =~= ds);
        let ghost sd = *self;
        let ghost nd = s0.novos(sd);
        // 2: the commands, in the scope of the declarations
        let ghost amb = ambiente_de(ds);
        proof {
            lemma_concorda(vs, ds, nd);
        }
        self.emitir_lista(&prog.comandos, Ghost(amb))?;
        let ghost sc = *self;
        // 3: `return 0` closes `main`
        let zero = constante(&mut self.emissor, TipoIR::I32, 0, false);
        retornar(&mut self.emissor, zero)?;
        proof {
            let f = s0.externos;
            let k = s0.contador();
            let pc = sd.novos(sc);
            Self::lemma_cresce(s0, sd);
            Self::lemma_cresce(sd, sc);
            let fim = seq![
                reg(Pedido::Constante { tipo: TipoIR::I32, valor: 0, sinal: false }, seq![], ValorLLVM::Int(zero)),
                reg(Pedido::Retorno, seq![ValorLLVM::Int(zero)], ValorLLVM::Nenhum),
            ];
            let e = nd + pc + fim;
            assert(self.pedidos() =~= s0.pedidos() + e);
            let n = self.pedidos().subrange(s0.pedidos().len() as int, self.pedidos().len() as int);
            assert(n =~= e);
            let td = tam_decls(ds);
            assert(n.take(td) =~= nd);
            let env = sd.ambiente();
            assert(env == mapa_vars(vs + vars_decls(ds, n.take(td))));
            let tc = tam_cmds(env, prog@.comandos);
            assert(n.subrange(td, td + tc) =~= pc);
            assert(n =~= em_programa(vs, f, prog@, k, n).0);
            assert(self.variaveis_v() =~= sd.variaveis_v());
        }
        Ok(())
    }

    // ── Output ────────────────────────────────────────────────────────────

    /// Asks LLVM to check the module: `Ok(())` when it is well formed, else
    /// LLVM's message.
    pub fn verificar(&self) -> (r: Result<(), String>)
        requires
            self.bem_formado(),
        ensures
            match r {
                Ok(_) => falha_de_verificacao(self.pedidos()) is None,
                Err(s) => falha_de_verificacao(self.pedidos()) == Some(s@),
            },
    {
        verificar_modulo(&self.emissor, &self.module)
    }

    /// The module as LLVM IR text (`.ll`): the text of the module that the
    /// requests made so far built.
    pub fn ir_para_string(&self) -> (r: String)
        requires
            self.bem_formado(),
        ensures
            r@ == texto_ir(self.pedidos()),
    {
        texto_do_modulo(&self.emissor, &self.module)
    }
}

/// Generates the LLVM IR of `prog`, which the semantic analysis has accepted, in
/// a module named `nome_modulo`. The generator that comes back holds the module,
/// for [`Codegen::verificar`] and [`Codegen::ir_para_string`]. What it asked of
/// LLVM: the set-up of the module, then the program.
pub fn gerar_ir<'ctx>(context: &'ctx Context, prog: &Programa, nome_modulo: &str) -> (r: Codegen<'ctx>)
    requires
        programa_valido(prog@),
    ensures
        r.bem_formado(),
        r.pedidos().len() >= 9,
        r.funcoes() == funcoes_de(r.pedidos()),
        ({
            let n = r.pedidos().subrange(9, r.pedidos().len() as int);
            &&& r.pedidos() == preambulo(nome_modulo@, r.pedidos()) + em_programa(
                Seq::empty(),
                r.funcoes(),
                prog@,
                0,
                n,
            ).0
            &&& r.variaveis_v() == vars_decls(prog@.declaracoes, n.take(tam_decls(prog@.declaracoes)))
        }),
{
    let mut cg = Codegen::new(context, nome_modulo);
    let ghost p = cg.pedidos();
    cg.emitir_programa(prog);
    proof {
        let q = cg.pedidos();
        assert(q.subrange(0, 9) =~= p);
        assert(preambulo(nome_modulo@, q) =~= preambulo(nome_modulo@, p));
        assert(funcoes_de(q) == funcoes_de(p));
        let n = q.subrange(9, q.len() as int);
        let ds = prog@.declaracoes;
        assert(Seq::<(Seq<char>, Tipo, PointerValue<'ctx>)>::empty() + vars_decls(ds, n.take(tam_decls(ds))) =~= vars_decls(
            ds,
            n.take(tam_decls(ds)),
        ));
    }
    cg
}

} // verus!
