use vstd::prelude::*;

use crate::ast::{cmd_v, cmds_v, lemma_cmds_v, opbin_simbolo, span_de, tipo_nome, CmdV, Comando, DeclV, ExprV, Expressao, OpBin, OpUn, ProgV, Programa, Span, Tipo, decls_v};
use crate::error::{da_fase, erros_v, lemma_da_fase_concat, ErroV, Fase, PBError};
use crate::symbol_table::{erro_nao_declarada, erro_redeclaracao, Simbolo, TabelaDeSimbolos};

verus! {

// ─────────────────────────────────────────────────────────────────────────────
// Typing rules of the language
// ─────────────────────────────────────────────────────────────────────────────

/// Variables in scope, with their types.
pub type Ambiente = Map<Seq<char>, Simbolo>;

pub open spec fn eh_aritmetico(op: OpBin) -> bool {
    op == OpBin::Sub || op == OpBin::Mul || op == OpBin::Div || op == OpBin::Mod
}

pub open spec fn eh_relacional(op: OpBin) -> bool {
    op == OpBin::Gt || op == OpBin::Lt || op == OpBin::Ge || op == OpBin::Le
}

pub open spec fn eh_igualdade(op: OpBin) -> bool {
    op == OpBin::Eq || op == OpBin::Neq
}

pub open spec fn eh_logico(op: OpBin) -> bool {
    op == OpBin::And || op == OpBin::Or
}

/// The type of a binary operation over operands of types `a` and `b`, if it is allowed:
///
/// | operator                 | operands                       | result   |
/// |--------------------------|--------------------------------|----------|
/// | `+`                      | `int`, `int` / `string`, `string` | `int` / `string` |
/// | `-` `*` `/` `%`          | `int`, `int`                   | `int`    |
/// | `>` `<` `>=` `<=`        | `int`, `int`                   | `bool`   |
/// | `==` `!=`                | the same type                  | `bool`   |
/// | `&&` `\|\|`              | `bool`, `bool`                 | `bool`   |
pub open spec fn tipo_binario(op: OpBin, a: Tipo, b: Tipo) -> Option<Tipo> {
    if op == OpBin::Add {
        if a == Tipo::Int && b == Tipo::Int {
            Some(Tipo::Int)
        } else if a == Tipo::String && b == Tipo::String {
            Some(Tipo::String)
        } else {
            None
        }
    } else if eh_aritmetico(op) {
        if a == Tipo::Int && b == Tipo::Int { Some(Tipo::Int) } else { None }
    } else if eh_relacional(op) {
        if a == Tipo::Int && b == Tipo::Int { Some(Tipo::Bool) } else { None }
    } else if eh_igualdade(op) {
        if a == b { Some(Tipo::Bool) } else { None }
    } else {
        if a == Tipo::Bool && b == Tipo::Bool { Some(Tipo::Bool) } else { None }
    }
}

/// The type of a unary operation over an operand of type `a`, if it is allowed:
/// `-` takes and gives `int`; `!` takes and gives `bool`.
pub open spec fn tipo_unario(op: OpUn, a: Tipo) -> Option<Tipo> {
    match op {
        OpUn::Neg => if a == Tipo::Int { Some(Tipo::Int) } else { None },
        OpUn::Not => if a == Tipo::Bool { Some(Tipo::Bool) } else { None },
    }
}

/// The type of an expression in `env`, or `None` if it is ill-typed.
pub open spec fn tipo_de(env: Ambiente, e: ExprV) -> Option<Tipo>
    decreases e,
{
    match e {
        ExprV::LitInt(_, _) => Some(Tipo::Int),
        ExprV::LitBool(_, _) => Some(Tipo::Bool),
        ExprV::LitString(_, _) => Some(Tipo::String),
        ExprV::Var(n, _) => if env.dom().contains(n) { Some(env[n].tipo) } else { None },
        ExprV::UnOp { op, operando, .. } => match tipo_de(env, *operando) {
            Some(a) => tipo_unario(op, a),
            None => None,
        },
        ExprV::BinOp { op, esq, dir, .. } => match (tipo_de(env, *esq), tipo_de(env, *dir)) {
            (Some(a), Some(b)) => tipo_binario(op, a, b),
            _ => None,
        },
    }
}

/// A command is well formed in `env`: every variable it names is declared, every
/// operation is well typed, conditions are `bool`, an assignment gives a variable
/// a value of its declared type, and `read` takes an `int` or `string` variable.
pub open spec fn comando_ok(env: Ambiente, c: CmdV) -> bool
    decreases c, 1nat,
{
    match c {
        CmdV::Atribuicao { nome, expr, .. } => env.dom().contains(nome) && tipo_de(env, expr) == Some(
            env[nome].tipo,
        ),
        CmdV::If { condicao, entao, senao, .. } => tipo_de(env, condicao) == Some(Tipo::Bool)
            && comandos_ok(env, entao) && match senao {
            Some(s) => comandos_ok(env, s),
            None => true,
        },
        CmdV::While { condicao, corpo, .. } => tipo_de(env, condicao) == Some(Tipo::Bool)
            && comandos_ok(env, corpo),
        CmdV::Print { expr, .. } => tipo_de(env, expr) is Some,
        CmdV::Read { nome, .. } => env.dom().contains(nome) && env[nome].tipo != Tipo::Bool,
        CmdV::Bloco(cs) => comandos_ok(env, cs),
    }
}

/// Every command of the list is well formed in `env`.
pub open spec fn comandos_ok(env: Ambiente, cs: Seq<CmdV>) -> bool
    decreases cs, 0nat,
{
    if cs.len() == 0 {
        true
    } else {
        comandos_ok(env, cs.subrange(0, cs.len() - 1)) && comando_ok(env, cs[cs.len() - 1])
    }
}

/// The variables that the declarations bring in scope: each name with the type and
/// place of its first declaration.
pub open spec fn ambiente_de(ds: Seq<DeclV>) -> Ambiente
    decreases ds.len(),
{
    if ds.len() == 0 {
        Map::empty()
    } else {
        let m = ambiente_de(ds.drop_last());
        let d = ds.last();
        if m.dom().contains(d.nome) {
            m
        } else {
            m.insert(d.nome, Simbolo { tipo: d.tipo, span_decl: d.span })
        }
    }
}

/// No name is declared twice.
pub open spec fn declaracoes_distintas(ds: Seq<DeclV>) -> bool {
    forall|i: int, j: int| 0 <= i < j < ds.len() ==> ds[i].nome != ds[j].nome
}

/// A program is valid: no variable is declared twice and every command is well
/// formed in the scope of the declarations.
pub open spec fn programa_valido(p: ProgV) -> bool {
    declaracoes_distintas(p.declaracoes) && comandos_ok(ambiente_de(p.declaracoes), p.comandos)
}

// ─────────────────────────────────────────────────────────────────────────────
// The errors that the analysis reports, in order
// ─────────────────────────────────────────────────────────────────────────────

pub open spec fn erro_sem(msg: Seq<char>, span: Span) -> ErroV {
    ErroV { fase: Fase::Semantica, message: msg, line: span.line, col: span.col }
}

pub open spec fn msg_lado(op: OpBin, esperado: Tipo, lado: Seq<char>, obtido: Tipo) -> Seq<char> {
    "Operador '"@ + opbin_simbolo(op) + "' requer '"@ + tipo_nome(esperado) + "' "@ + lado
        + ", obteve '"@ + tipo_nome(obtido) + "'"@
}

pub open spec fn msg_adicao(a: Tipo, b: Tipo) -> Seq<char> {
    "Operador '+' não suportado entre '"@ + tipo_nome(a) + "' e '"@ + tipo_nome(b)
        + "' (use '+' apenas com int+int ou string+string)"@
}

pub open spec fn msg_igualdade(op: OpBin, a: Tipo, b: Tipo) -> Seq<char> {
    "Operador '"@ + opbin_simbolo(op) + "' exige operandos do mesmo tipo, mas obteve '"@
        + tipo_nome(a) + "' e '"@ + tipo_nome(b) + "'"@
}

pub open spec fn msg_unario(op: OpUn, obtido: Tipo) -> Seq<char> {
    match op {
        OpUn::Neg => "Operador '-' (negação) requer 'int', obteve '"@ + tipo_nome(obtido) + "'"@,
        OpUn::Not => "Operador '!' requer 'bool', obteve '"@ + tipo_nome(obtido) + "'"@,
    }
}

pub open spec fn msg_atribuicao(nome: Seq<char>, esperado: Tipo, obtido: Tipo) -> Seq<char> {
    "Tipo incompatível na atribuição a '"@ + nome + "': esperado '"@ + tipo_nome(esperado)
        + "', obtido '"@ + tipo_nome(obtido) + "'"@
}

pub open spec fn msg_condicao(contexto: Seq<char>, obtido: Tipo) -> Seq<char> {
    "A "@ + contexto + " deve ser do tipo 'bool', mas obteve '"@ + tipo_nome(obtido) + "'"@
}

pub open spec fn msg_read(nome: Seq<char>) -> Seq<char> {
    "'read' não suporta o tipo 'bool' — variável '"@ + nome + "' deve ser 'int' ou 'string'"@
}

/// The errors on the two sides of an operator that wants both sides of type `t`.
pub open spec fn erros_ambos(op: OpBin, t: Tipo, a: Tipo, b: Tipo, span: Span) -> Seq<ErroV> {
    (if a != t { seq![erro_sem(msg_lado(op, t, "à esquerda"@, a), span)] } else { Seq::empty() })
        + (if b != t { seq![erro_sem(msg_lado(op, t, "à direita"@, b), span)] } else { Seq::empty() })
}

/// The error of a binary operation whose operands have types `a` and `b`.
pub open spec fn erros_binario(op: OpBin, a: Tipo, b: Tipo, span: Span) -> Seq<ErroV> {
    if op == OpBin::Add {
        if tipo_binario(op, a, b) is Some {
            Seq::empty()
        } else {
            seq![erro_sem(msg_adicao(a, b), span)]
        }
    } else if eh_aritmetico(op) || eh_relacional(op) {
        erros_ambos(op, Tipo::Int, a, b, span)
    } else if eh_igualdade(op) {
        if a != b { seq![erro_sem(msg_igualdade(op, a, b), span)] } else { Seq::empty() }
    } else {
        erros_ambos(op, Tipo::Bool, a, b, span)
    }
}

/// The errors found in an expression, in the order of a left-to-right walk; an
/// operation over an ill-typed operand reports nothing more.
pub open spec fn erros_expr(env: Ambiente, e: ExprV) -> Seq<ErroV>
    decreases e,
{
    match e {
        ExprV::Var(n, s) => if env.dom().contains(n) {
            Seq::empty()
        } else {
            seq![erro_nao_declarada(n, s)]
        },
        ExprV::UnOp { op, operando, span } => erros_expr(env, *operando) + match tipo_de(
            env,
            *operando,
        ) {
            Some(a) => if tipo_unario(op, a) is Some {
                Seq::empty()
            } else {
                seq![erro_sem(msg_unario(op, a), span)]
            },
            None => Seq::empty(),
        },
        ExprV::BinOp { op, esq, dir, span } => erros_expr(env, *esq) + erros_expr(env, *dir) + match (
            tipo_de(env, *esq),
            tipo_de(env, *dir),
        ) {
            (Some(a), Some(b)) => erros_binario(op, a, b, span),
            _ => Seq::empty(),
        },
        _ => Seq::empty(),
    }
}

/// The errors of a condition, which must be `bool`.
pub open spec fn erros_condicao(env: Ambiente, e: ExprV, contexto: Seq<char>) -> Seq<ErroV> {
    erros_expr(env, e) + match tipo_de(env, e) {
        Some(t) => if t != Tipo::Bool {
            seq![erro_sem(msg_condicao(contexto, t), span_de(e))]
        } else {
            Seq::empty()
        },
        None => Seq::empty(),
    }
}

/// The errors of a command, in order.
pub open spec fn erros_cmd(env: Ambiente, c: CmdV) -> Seq<ErroV>
    decreases c, 1nat,
{
    match c {
        CmdV::Atribuicao { nome, expr, span } => if !env.dom().contains(nome) {
            seq![erro_nao_declarada(nome, span)]
        } else {
            erros_expr(env, expr) + match tipo_de(env, expr) {
                Some(t) => if t != env[nome].tipo {
                    seq![erro_sem(msg_atribuicao(nome, env[nome].tipo, t), span)]
                } else {
                    Seq::empty()
                },
                None => Seq::empty(),
            }
        },
        CmdV::If { condicao, entao, senao, .. } => erros_condicao(env, condicao, "condição do 'if'"@)
            + erros_cmds(env, entao) + match senao {
            Some(s) => erros_cmds(env, s),
            None => Seq::empty(),
        },
        CmdV::While { condicao, corpo, .. } => erros_condicao(env, condicao, "condição do 'while'"@)
            + erros_cmds(env, corpo),
        CmdV::Print { expr, .. } => erros_expr(env, expr),
        CmdV::Read { nome, span } => if !env.dom().contains(nome) {
            seq![erro_nao_declarada(nome, span)]
        } else if env[nome].tipo == Tipo::Bool {
            seq![erro_sem(msg_read(nome), span)]
        } else {
            Seq::empty()
        },
        CmdV::Bloco(cs) => erros_cmds(env, cs),
    }
}

/// The errors of a list of commands, in order.
pub open spec fn erros_cmds(env: Ambiente, cs: Seq<CmdV>) -> Seq<ErroV>
    decreases cs, 0nat,
{
    if cs.len() == 0 {
        Seq::empty()
    } else {
        erros_cmds(env, cs.subrange(0, cs.len() - 1)) + erros_cmd(env, cs[cs.len() - 1])
    }
}

/// The errors of the declarations: one for each name declared again.
pub open spec fn erros_declaracoes(ds: Seq<DeclV>) -> Seq<ErroV>
    decreases ds.len(),
{
    if ds.len() == 0 {
        Seq::empty()
    } else {
        let m = ambiente_de(ds.drop_last());
        let d = ds.last();
        erros_declaracoes(ds.drop_last()) + if m.dom().contains(d.nome) {
            seq![erro_redeclaracao(d.nome, m[d.nome].span_decl, d.span)]
        } else {
            Seq::empty()
        }
    }
}

/// All the errors of a program, in the order the analysis reports them:
/// the declarations first, then the commands.
pub open spec fn erros_programa(p: ProgV) -> Seq<ErroV> {
    erros_declaracoes(p.declaracoes) + erros_cmds(ambiente_de(p.declaracoes), p.comandos)
}

// ─────────────────────────────────────────────────────────────────────────────
// Lemmas: the errors are empty exactly when the rules hold
// ─────────────────────────────────────────────────────────────────────────────

pub proof fn lemma_erros_expr(env: Ambiente, e: ExprV)
    ensures
        erros_expr(env, e).len() == 0 <==> tipo_de(env, e) is Some,
    decreases e,
{
    match e {
        ExprV::UnOp { op, operando, span } => {
            lemma_erros_expr(env, *operando);
        },
        ExprV::BinOp { op, esq, dir, span } => {
            lemma_erros_expr(env, *esq);
            lemma_erros_expr(env, *dir);
        },
        _ => {},
    }
}

pub proof fn lemma_erros_cmd(env: Ambiente, c: CmdV)
    ensures
        erros_cmd(env, c).len() == 0 <==> comando_ok(env, c),
    decreases c, 1nat,
{
    match c {
        CmdV::Atribuicao { nome, expr, span } => {
            lemma_erros_expr(env, expr);
        },
        CmdV::If { condicao, entao, senao, span } => {
            lemma_erros_expr(env, condicao);
            lemma_erros_cmds(env, entao);
            match senao {
                Some(s) => lemma_erros_cmds(env, s),
                None => {},
            }
        },
        CmdV::While { condicao, corpo, span } => {
            lemma_erros_expr(env, condicao);
            lemma_erros_cmds(env, corpo);
        },
        CmdV::Print { expr, span } => {
            lemma_erros_expr(env, expr);
        },
        CmdV::Read { nome, span } => {},
        CmdV::Bloco(cs) => {
            lemma_erros_cmds(env, cs);
        },
    }
}

pub proof fn lemma_erros_cmds(env: Ambiente, cs: Seq<CmdV>)
    ensures
        erros_cmds(env, cs).len() == 0 <==> comandos_ok(env, cs),
    decreases cs, 0nat,
{
    if cs.len() > 0 {
        lemma_erros_cmds(env, cs.subrange(0, cs.len() - 1));
        lemma_erros_cmd(env, cs[cs.len() - 1]);
    }
}

pub proof fn lemma_ambiente_de(ds: Seq<DeclV>)
    ensures
        forall|n: Seq<char>| #[trigger] ambiente_de(ds).dom().contains(n)
            <==> exists|i: int| 0 <= i < ds.len() && ds[i].nome == n,
        erros_declaracoes(ds).len() == 0 <==> declaracoes_distintas(ds),
    decreases ds.len(),
{
    if ds.len() > 0 {
        let p = ds.drop_last();
        lemma_ambiente_de(p);
        assert forall|n: Seq<char>| #[trigger] ambiente_de(ds).dom().contains(n)
            <==> exists|i: int| 0 <= i < ds.len() && ds[i].nome == n by {
            if ambiente_de(ds).dom().contains(n) && n != ds.last().nome {
                assert(ambiente_de(p).dom().contains(n));
                let i = choose|i: int| 0 <= i < p.len() && p[i].nome == n;
                assert(ds[i] == p[i]);
            }
            if exists|i: int| 0 <= i < ds.len() && ds[i].nome == n {
                let i = choose|i: int| 0 <= i < ds.len() && ds[i].nome == n;
                if i < ds.len() - 1 {
                    assert(p[i] == ds[i]);
                    assert(ambiente_de(p).dom().contains(n));
                }
            }
        }
        if declaracoes_distintas(ds) {
            assert(declaracoes_distintas(p)) by {
                assert forall|i: int, j: int| 0 <= i < j < p.len() implies p[i].nome != p[j].nome by {
                    assert(p[i] == ds[i]);
                    assert(p[j] == ds[j]);
                }
            }
            if ambiente_de(p).dom().contains(ds.last().nome) {
                let i = choose|i: int| 0 <= i < p.len() && p[i].nome == ds.last().nome;
                assert(p[i] == ds[i]);
                assert(false);
            }
        }
        if erros_declaracoes(ds).len() == 0 {
            assert(!ambiente_de(p).dom().contains(ds.last().nome));
            assert forall|i: int, j: int| 0 <= i < j < ds.len() implies ds[i].nome != ds[j].nome by {
                if j < ds.len() - 1 {
                    assert(p[i] == ds[i]);
                    assert(p[j] == ds[j]);
                } else {
                    assert(p[i] == ds[i]);
                    if ds[i].nome == ds[j].nome {
                        assert(ambiente_de(p).dom().contains(ds.last().nome));
                    }
                }
            }
        }
    }
}

/// A program has no semantic error exactly when it is valid: no name is declared
/// twice, every variable used is declared, every operation is well typed, every
/// condition is `bool`, every assignment keeps the declared type and `read` never
/// takes a `bool`.
pub proof fn lei_sem_erros_sse_valido(p: ProgV)
    ensures
        erros_programa(p).len() == 0 <==> programa_valido(p),
{
    lemma_ambiente_de(p.declaracoes);
    lemma_erros_cmds(ambiente_de(p.declaracoes), p.comandos);
}

/// A binary operation over two well-typed operands: its type is the one the table
/// of operators gives (`+` on two `int` or two `string`; `-` `*` `/` `%` on `int`
/// give `int`; comparisons on `int` and `==` `!=` on equal types give `bool`; `&&`
/// `||` on `bool` give `bool`), its errors are only those of the operator, all at
/// the operator's place, and it is ill-typed exactly when there is one.
pub proof fn lei_operacao_binaria(env: Ambiente, op: OpBin, esq: ExprV, dir: ExprV, span: Span)
    requires
        tipo_de(env, esq) is Some,
        tipo_de(env, dir) is Some,
    ensures
        ({
            let e = ExprV::BinOp { op, esq: Box::new(esq), dir: Box::new(dir), span };
            let a = tipo_de(env, esq)->0;
            let b = tipo_de(env, dir)->0;
            &&& tipo_de(env, e) == tipo_binario(op, a, b)
            &&& tipo_de(env, e) == match op {
                OpBin::Add => if a == b && a != Tipo::Bool { Some(a) } else { None },
                OpBin::Sub | OpBin::Mul | OpBin::Div | OpBin::Mod => if a == Tipo::Int && b == Tipo::Int {
                    Some(Tipo::Int)
                } else {
                    None
                },
                OpBin::Gt | OpBin::Lt | OpBin::Ge | OpBin::Le => if a == Tipo::Int && b == Tipo::Int {
                    Some(Tipo::Bool)
                } else {
                    None
                },
                OpBin::Eq | OpBin::Neq => if a == b { Some(Tipo::Bool) } else { None },
                OpBin::And | OpBin::Or => if a == Tipo::Bool && b == Tipo::Bool { Some(Tipo::Bool) } else { None },
            }
            &&& erros_expr(env, e) == erros_binario(op, a, b, span)
            &&& (tipo_de(env, e) is None <==> erros_expr(env, e).len() > 0)
            &&& forall|i: int| #![trigger erros_expr(env, e)[i]]
                0 <= i < erros_expr(env, e).len() ==> erros_expr(env, e)[i].fase == Fase::Semantica
                    && erros_expr(env, e)[i].line == span.line && erros_expr(env, e)[i].col == span.col
        }),
{
    lemma_erros_expr(env, esq);
    lemma_erros_expr(env, dir);
    let e = ExprV::BinOp { op, esq: Box::new(esq), dir: Box::new(dir), span };
    let a = tipo_de(env, esq)->0;
    let b = tipo_de(env, dir)->0;
    assert(erros_expr(env, e) =~= erros_binario(op, a, b, span));
}

/// A unary operation: with an ill-typed operand it reports nothing more than the
/// operand does; with an operand of type `t`, `-` wants `int` and `!` wants `bool`,
/// and on a mismatch exactly one error is added, at the operator's place.
pub proof fn lei_operacao_unaria(env: Ambiente, op: OpUn, operando: ExprV, span: Span)
    ensures
        ({
            let e = ExprV::UnOp { op, operando: Box::new(operando), span };
            &&& tipo_de(env, operando) is None ==> tipo_de(env, e) is None && erros_expr(env, e) == erros_expr(
                env,
                operando,
            )
            &&& tipo_de(env, operando) is Some ==> {
                let t = tipo_de(env, operando)->0;
                &&& tipo_de(env, e) == tipo_unario(op, t)
                &&& tipo_de(env, e) == match op {
                    OpUn::Neg => if t == Tipo::Int { Some(Tipo::Int) } else { None },
                    OpUn::Not => if t == Tipo::Bool { Some(Tipo::Bool) } else { None },
                }
                &&& erros_expr(env, operando).len() == 0
                &&& erros_expr(env, e) == if tipo_unario(op, t) is Some {
                    Seq::<ErroV>::empty()
                } else {
                    seq![erro_sem(msg_unario(op, t), span)]
                }
            }
        }),
{
    lemma_erros_expr(env, operando);
    let e = ExprV::UnOp { op, operando: Box::new(operando), span };
    assert(erros_expr(env, e) =~= erros_expr(env, operando) + match tipo_de(env, operando) {
        Some(a) => if tipo_unario(op, a) is Some {
            Seq::<ErroV>::empty()
        } else {
            seq![erro_sem(msg_unario(op, a), span)]
        },
        None => Seq::<ErroV>::empty(),
    });
    if tipo_de(env, operando) is Some {
        assert(erros_expr(env, operando) =~= Seq::<ErroV>::empty());
    } else {
        assert(erros_expr(env, e) =~= erros_expr(env, operando));
    }
}

/// An operator that wants both sides of type `t`: no error exactly when both have
/// it; else one error for each side that does not, left first, at the operator's
/// place.
pub proof fn lei_ambos_do_tipo(op: OpBin, t: Tipo, a: Tipo, b: Tipo, span: Span)
    ensures
        erros_ambos(op, t, a, b, span).len() == 0 <==> a == t && b == t,
        erros_ambos(op, t, a, b, span).len() == (if a != t { 1int } else { 0int }) + (if b != t { 1int } else { 0int }),
        a != t ==> erros_ambos(op, t, a, b, span)[0] == erro_sem(msg_lado(op, t, "à esquerda"@, a), span),
        b != t ==> erros_ambos(op, t, a, b, span).last() == erro_sem(msg_lado(op, t, "à direita"@, b), span),
        forall|i: int| #![trigger erros_ambos(op, t, a, b, span)[i]]
            0 <= i < erros_ambos(op, t, a, b, span).len() ==> erros_ambos(op, t, a, b, span)[i].fase == Fase::Semantica
                && erros_ambos(op, t, a, b, span)[i].line == span.line && erros_ambos(op, t, a, b, span)[i].col
                == span.col,
{
}

/// Inferring the type of an expression only adds errors, and adds some exactly
/// when the expression has no type; a literal has its own type and no error; a
/// variable has its declared type, or, undeclared, no type and one error at its
/// place.
pub proof fn lei_inferencia(env: Ambiente, e: ExprV)
    ensures
        erros_expr(env, e).len() == 0 <==> tipo_de(env, e) is Some,
        e is LitInt ==> tipo_de(env, e) == Some(Tipo::Int) && erros_expr(env, e).len() == 0,
        e is LitBool ==> tipo_de(env, e) == Some(Tipo::Bool) && erros_expr(env, e).len() == 0,
        e is LitString ==> tipo_de(env, e) == Some(Tipo::String) && erros_expr(env, e).len() == 0,
        e matches ExprV::Var(n, s) ==> if env.dom().contains(n) {
            tipo_de(env, e) == Some(env[n].tipo) && erros_expr(env, e).len() == 0
        } else {
            tipo_de(env, e) is None && erros_expr(env, e) == seq![erro_nao_declarada(n, s)]
        },
{
    lemma_erros_expr(env, e);
}

/// An assignment `nome = expr`: to an undeclared name it is one error at its place
/// and nothing more; otherwise its errors are those of `expr`, then, when `expr`
/// has a type other than the declared one, one type mismatch error at its place.
pub proof fn lei_atribuicao(env: Ambiente, nome: Seq<char>, expr: ExprV, span: Span)
    ensures
        ({
            let c = CmdV::Atribuicao { nome, expr, span };
            &&& !env.dom().contains(nome) ==> erros_cmd(env, c) == seq![erro_nao_declarada(nome, span)]
            &&& env.dom().contains(nome) ==> erros_cmd(env, c) == erros_expr(env, expr) + match tipo_de(env, expr) {
                Some(t) => if t != env[nome].tipo {
                    seq![erro_sem(msg_atribuicao(nome, env[nome].tipo, t), span)]
                } else {
                    Seq::<ErroV>::empty()
                },
                None => Seq::<ErroV>::empty(),
            }
            &&& env.dom().contains(nome) ==> (erros_cmd(env, c).len() == 0 <==> tipo_de(env, expr) == Some(
                env[nome].tipo,
            ))
        }),
{
    lemma_erros_expr(env, expr);
}

/// `print` takes an expression of any type: it is well formed exactly when its
/// expression has a type, whatever that type is, and its errors are exactly
/// those of the expression.
pub proof fn lei_print(env: Ambiente, expr: ExprV, span: Span)
    ensures
        comando_ok(env, CmdV::Print { expr, span }) <==> tipo_de(env, expr) is Some,
        erros_cmd(env, CmdV::Print { expr, span }) == erros_expr(env, expr),
        forall|t: Tipo| tipo_de(env, expr) == Some(t) ==> comando_ok(env, CmdV::Print { expr, span })
            && erros_cmd(env, CmdV::Print { expr, span }).len() == 0,
{
    lemma_erros_expr(env, expr);
}

/// The condition of an `if` or a `while` must be a `bool`: a command whose
/// condition has another type is never well formed and always has an error;
/// with a `bool` condition, it is well formed exactly when its commands are.
/// `read` takes a declared `int` or `string` variable, never a `bool`.
pub proof fn lei_condicoes(
    env: Ambiente,
    condicao: ExprV,
    entao: Seq<CmdV>,
    senao: Option<Seq<CmdV>>,
    corpo: Seq<CmdV>,
    nome: Seq<char>,
    span: Span,
)
    ensures
        ({
            let ci = CmdV::If { condicao, entao, senao, span };
            let cw = CmdV::While { condicao, corpo, span };
            &&& comando_ok(env, ci) ==> tipo_de(env, condicao) == Some(Tipo::Bool)
            &&& comando_ok(env, cw) ==> tipo_de(env, condicao) == Some(Tipo::Bool)
            &&& (tipo_de(env, condicao) matches Some(t) && t != Tipo::Bool) ==> erros_cmd(env, ci).len() > 0
                && erros_cmd(env, cw).len() > 0
            &&& tipo_de(env, condicao) == Some(Tipo::Bool) ==> (comando_ok(env, cw) <==> comandos_ok(env, corpo))
            &&& tipo_de(env, condicao) == Some(Tipo::Bool) ==> (comando_ok(env, ci) <==> comandos_ok(env, entao)
                && match senao {
                Some(s) => comandos_ok(env, s),
                None => true,
            })
            &&& comando_ok(env, CmdV::Read { nome, span }) <==> env.dom().contains(nome) && (env[nome].tipo
                == Tipo::Int || env[nome].tipo == Tipo::String)
        }),
{
    lemma_erros_expr(env, condicao);
}

proof fn lemma_fase_expr(env: Ambiente, e: ExprV)
    ensures
        da_fase(erros_expr(env, e), Fase::Semantica),
    decreases e,
{
    match e {
        ExprV::UnOp { op, operando, span } => {
            lemma_fase_expr(env, *operando);
            let tail = match tipo_de(env, *operando) {
                Some(a) => if tipo_unario(op, a) is Some {
                    Seq::empty()
                } else {
                    seq![erro_sem(msg_unario(op, a), span)]
                },
                None => Seq::empty(),
            };
            assert(da_fase(tail, Fase::Semantica));
            lemma_da_fase_concat(erros_expr(env, *operando), tail, Fase::Semantica);
        },
        ExprV::BinOp { op, esq, dir, span } => {
            lemma_fase_expr(env, *esq);
            lemma_fase_expr(env, *dir);
            lemma_da_fase_concat(erros_expr(env, *esq), erros_expr(env, *dir), Fase::Semantica);
            let tail = match (tipo_de(env, *esq), tipo_de(env, *dir)) {
                (Some(a), Some(b)) => erros_binario(op, a, b, span),
                _ => Seq::empty(),
            };
            assert(da_fase(tail, Fase::Semantica)) by {
                match (tipo_de(env, *esq), tipo_de(env, *dir)) {
                    (Some(a), Some(b)) => {
                        let l1 = if a != Tipo::Int { seq![erro_sem(msg_lado(op, Tipo::Int, "à esquerda"@, a), span)] } else { Seq::empty() };
                        let r1 = if b != Tipo::Int { seq![erro_sem(msg_lado(op, Tipo::Int, "à direita"@, b), span)] } else { Seq::empty() };
                        lemma_da_fase_concat(l1, r1, Fase::Semantica);
                        let l2 = if a != Tipo::Bool { seq![erro_sem(msg_lado(op, Tipo::Bool, "à esquerda"@, a), span)] } else { Seq::empty() };
                        let r2 = if b != Tipo::Bool { seq![erro_sem(msg_lado(op, Tipo::Bool, "à direita"@, b), span)] } else { Seq::empty() };
                        lemma_da_fase_concat(l2, r2, Fase::Semantica);
                    },
                    _ => {},
                }
            }
            lemma_da_fase_concat(erros_expr(env, *esq) + erros_expr(env, *dir), tail, Fase::Semantica);
        },
        _ => {},
    }
}

proof fn lemma_fase_condicao(env: Ambiente, e: ExprV, contexto: Seq<char>)
    ensures
        da_fase(erros_condicao(env, e, contexto), Fase::Semantica),
{
    lemma_fase_expr(env, e);
    let tail = match tipo_de(env, e) {
        Some(t) => if t != Tipo::Bool {
            seq![erro_sem(msg_condicao(contexto, t), span_de(e))]
        } else {
            Seq::empty()
        },
        None => Seq::empty(),
    };
    assert(da_fase(tail, Fase::Semantica));
    lemma_da_fase_concat(erros_expr(env, e), tail, Fase::Semantica);
}

proof fn lemma_fase_cmd(env: Ambiente, c: CmdV)
    ensures
        da_fase(erros_cmd(env, c), Fase::Semantica),
    decreases c, 1nat,
{
    match c {
        CmdV::Atribuicao { nome, expr, span } => {
            lemma_fase_expr(env, expr);
            if env.dom().contains(nome) {
                let tail = match tipo_de(env, expr) {
                    Some(t) => if t != env[nome].tipo {
                        seq![erro_sem(msg_atribuicao(nome, env[nome].tipo, t), span)]
                    } else {
                        Seq::empty()
                    },
                    None => Seq::empty(),
                };
                assert(da_fase(tail, Fase::Semantica));
                lemma_da_fase_concat(erros_expr(env, expr), tail, Fase::Semantica);
            }
        },
        CmdV::If { condicao, entao, senao, .. } => {
            lemma_fase_condicao(env, condicao, "condição do 'if'"@);
            lemma_fase_cmds(env, entao);
            lemma_da_fase_concat(erros_condicao(env, condicao, "condição do 'if'"@), erros_cmds(env, entao), Fase::Semantica);
            let tail = match senao {
                Some(s) => erros_cmds(env, s),
                None => Seq::empty(),
            };
            match senao {
                Some(s) => lemma_fase_cmds(env, s),
                None => {},
            }
            lemma_da_fase_concat(
                erros_condicao(env, condicao, "condição do 'if'"@) + erros_cmds(env, entao),
                tail,
                Fase::Semantica,
            );
        },
        CmdV::While { condicao, corpo, .. } => {
            lemma_fase_condicao(env, condicao, "condição do 'while'"@);
            lemma_fase_cmds(env, corpo);
            lemma_da_fase_concat(erros_condicao(env, condicao, "condição do 'while'"@), erros_cmds(env, corpo), Fase::Semantica);
        },
        CmdV::Print { expr, .. } => {
            lemma_fase_expr(env, expr);
        },
        CmdV::Read { .. } => {},
        CmdV::Bloco(cs) => {
            lemma_fase_cmds(env, cs);
        },
    }
}

proof fn lemma_fase_cmds(env: Ambiente, cs: Seq<CmdV>)
    ensures
        da_fase(erros_cmds(env, cs), Fase::Semantica),
    decreases cs, 0nat,
{
    if cs.len() > 0 {
        lemma_fase_cmds(env, cs.subrange(0, cs.len() - 1));
        lemma_fase_cmd(env, cs[cs.len() - 1]);
        lemma_da_fase_concat(erros_cmds(env, cs.subrange(0, cs.len() - 1)), erros_cmd(env, cs[cs.len() - 1]), Fase::Semantica);
    }
}

proof fn lemma_fase_declaracoes(ds: Seq<DeclV>)
    ensures
        da_fase(erros_declaracoes(ds), Fase::Semantica),
    decreases ds.len(),
{
    if ds.len() > 0 {
        lemma_fase_declaracoes(ds.drop_last());
        let m = ambiente_de(ds.drop_last());
        let d = ds.last();
        let tail = if m.dom().contains(d.nome) {
            seq![erro_redeclaracao(d.nome, m[d.nome].span_decl, d.span)]
        } else {
            Seq::empty()
        };
        assert(da_fase(tail, Fase::Semantica));
        lemma_da_fase_concat(erros_declaracoes(ds.drop_last()), tail, Fase::Semantica);
    }
}

/// Every error the analysis reports is a semantic error.
pub proof fn lei_erros_semanticos(p: ProgV)
    ensures
        da_fase(erros_programa(p), Fase::Semantica),
{
    lemma_fase_declaracoes(p.declaracoes);
    lemma_fase_cmds(ambiente_de(p.declaracoes), p.comandos);
    lemma_da_fase_concat(erros_declaracoes(p.declaracoes), erros_cmds(ambiente_de(p.declaracoes), p.comandos), Fase::Semantica);
}

// ─────────────────────────────────────────────────────────────────────────────
// The analyser
// ─────────────────────────────────────────────────────────────────────────────

/// Walks the AST checking scope and types; errors are gathered so that every
/// problem is reported in one run.
struct Analisador {
    tabela: TabelaDeSimbolos,
    erros: Vec<PBError>,
}

impl Analisador {
    fn new() -> (r: Self)
        ensures
            r.tabela.mapa() == Map::<Seq<char>, Simbolo>::empty(),
            r.erros@.len() == 0,
    {
        Analisador { tabela: TabelaDeSimbolos::new(), erros: Vec::new() }
    }

    fn erro(&mut self, msg: String, span: &Span)
        ensures
            final(self).tabela == old(self).tabela,
            erros_v(final(self).erros@) == erros_v(old(self).erros@).push(erro_sem(msg@, *span)),
    {
        self.erros.push(PBError::Semantic { message: msg, line: span.line, col: span.col });
        assert(erros_v(self.erros@) =~= erros_v(old(self).erros@).push(erro_sem(msg@, *span)));
    }

    fn registrar(&mut self, e: PBError)
        ensures
            final(self).tabela == old(self).tabela,
            erros_v(final(self).erros@) == erros_v(old(self).erros@).push(e@),
    {
        self.erros.push(e);
        assert(erros_v(self.erros@) =~= erros_v(old(self).erros@).push(e@));
    }

    // ── Program ───────────────────────────────────────────────────────────

    fn verificar_programa(&mut self, prog: &Programa)
        requires
            old(self).tabela.mapa() == Map::<Seq<char>, Simbolo>::empty(),
        ensures
            final(self).tabela.mapa() == ambiente_de(prog@.declaracoes),
            erros_v(final(self).erros@) == erros_v(old(self).erros@) + erros_programa(prog@),
    {
        let ghost ds = prog@.declaracoes;
        let ghost e0 = erros_v(self.erros@);
        let mut i: usize = 0;
        assert(ds.take(0) =~= Seq::<DeclV>::empty());
        while i < prog.declaracoes.len()
            invariant
                i <= prog.declaracoes@.len(),
                ds == decls_v(prog.declaracoes@),
                self.tabela.mapa() == ambiente_de(ds.take(i as int)),
                erros_v(self.erros@) == e0 + erros_declaracoes(ds.take(i as int)),
            decreases prog.declaracoes@.len() - i,
        {
            let decl = &prog.declaracoes[i];
            let ghost antes = erros_v(self.erros@);
            assert(ds.take(i + 1).drop_last() =~= ds.take(i as int));
            assert(ds.take(i + 1).last() == decl@);
            match self.tabela.declarar(decl.nome.as_str(), decl.tipo, &decl.span) {
                Ok(()) => {},
                Err(e) => {
                    self.registrar(e);
                },
            }
            assert(erros_v(self.erros@) =~= e0 + erros_declaracoes(ds.take(i + 1)));
            i = i + 1;
        }
        assert(ds.take(ds.len() as int) =~= ds);
        let ghost env = ambiente_de(ds);
        let ghost e1 = erros_v(self.erros@);
        let ghost cs = prog@.comandos;
        proof {
            lemma_cmds_v(prog.comandos@);
        }
        let mut j: usize = 0;
        assert(cs.take(0) =~= Seq::<CmdV>::empty());
        while j < prog.comandos.len()
            invariant
                j <= prog.comandos@.len(),
                cs == cmds_v(prog.comandos@),
                cs.len() == prog.comandos@.len(),
                forall|k: int| 0 <= k < cs.len() ==> #[trigger] cs[k] == cmd_v(prog.comandos@[k]),
                self.tabela.mapa() == env,
                erros_v(self.erros@) == e1 + erros_cmds(env, cs.take(j as int)),
            decreases prog.comandos@.len() - j,
        {
            assert(cs.take(j + 1).subrange(0, j as int) =~= cs.take(j as int));
            assert(cs.take(j + 1)[j as int] == cs[j as int]);
            self.verificar_comando(&prog.comandos[j]);
            assert(erros_v(self.erros@) =~= e1 + erros_cmds(env, cs.take(j + 1)));
            j = j + 1;
        }
        assert(cs.take(cs.len() as int) =~= cs);
        assert(erros_v(self.erros@) =~= erros_v(old(self).erros@) + erros_programa(prog@));
    }

    // ── Commands ──────────────────────────────────────────────────────────

    fn verificar_comando(&mut self, cmd: &Comando)
        ensures
            final(self).tabela == old(self).tabela,
            erros_v(final(self).erros@) == erros_v(old(self).erros@) + erros_cmd(
                old(self).tabela.mapa(),
                cmd@,
            ),
        decreases cmd, 3nat,
    {
        match cmd {
            Comando::Atribuicao { nome, expr, span } => {
                self.verificar_atribuicao(nome.as_str(), expr, span);
            },
            Comando::If { .. } => {
                self.verificar_if(cmd);
            },
            Comando::While { .. } => {
                self.verificar_while(cmd);
            },
            Comando::Print { expr, .. } => {
                // print takes any type: only the expression itself is checked
                self.inferir_tipo(expr);
            },
            Comando::Read { nome, span } => {
                self.verificar_read(nome.as_str(), span);
            },
            Comando::Bloco(cmds) => {
                self.verificar_lista(cmds);
            },
        }
        assert(erros_v(self.erros@) =~= erros_v(old(self).erros@) + erros_cmd(
            old(self).tabela.mapa(),
            cmd@,
        ));
    }

    /// `if ( condição ) bloco ( else bloco )?`: the condition must be `bool`.
    fn verificar_if(&mut self, cmd: &Comando)
        requires
            cmd is If,
        ensures
            final(self).tabela == old(self).tabela,
            erros_v(final(self).erros@) == erros_v(old(self).erros@) + erros_cmd(
                old(self).tabela.mapa(),
                cmd@,
            ),
        decreases cmd, 2nat,
    {
        match cmd {
            Comando::If { condicao, entao, senao, .. } => {
                self.exigir_bool(condicao, "condição do 'if'");
                self.verificar_lista(entao);
                match senao {
                    Some(cmds) => {
                        self.verificar_lista(cmds);
                    },
                    None => {},
                }
                assert(erros_v(self.erros@) =~= erros_v(old(self).erros@) + erros_cmd(
                    old(self).tabela.mapa(),
                    cmd@,
                ));
            },
            _ => {},
        }
    }

    /// `while ( condição ) bloco`: the condition must be `bool`.
    fn verificar_while(&mut self, cmd: &Comando)
        requires
            cmd is While,
        ensures
            final(self).tabela == old(self).tabela,
            erros_v(final(self).erros@) == erros_v(old(self).erros@) + erros_cmd(
                old(self).tabela.mapa(),
                cmd@,
            ),
        decreases cmd, 2nat,
    {
        match cmd {
            Comando::While { condicao, corpo, .. } => {
                self.exigir_bool(condicao, "condição do 'while'");
                self.verificar_lista(corpo);
                assert(erros_v(self.erros@) =~= erros_v(old(self).erros@) + erros_cmd(
                    old(self).tabela.mapa(),
                    cmd@,
                ));
            },
            _ => {},
        }
    }

    /// Checks each command of a list, in order.
    fn verificar_lista(&mut self, cmds: &Vec<Comando>)
        ensures
            final(self).tabela == old(self).tabela,
            erros_v(final(self).erros@) == erros_v(old(self).erros@) + erros_cmds(
                old(self).tabela.mapa(),
                cmds_v(cmds@),
            ),
        decreases cmds, 1nat,
    {
        let ghost env = self.tabela.mapa();
        let ghost cs = cmds_v(cmds@);
        let ghost e0 = erros_v(self.erros@);
        proof {
            lemma_cmds_v(cmds@);
        }
        let mut j: usize = 0;
        assert(cs.take(0) =~= Seq::<CmdV>::empty());
        while j < cmds.len()
            invariant
                j <= cmds@.len(),
                cs == cmds_v(cmds@),
                cs.len() == cmds@.len(),
                forall|k: int| 0 <= k < cs.len() ==> #[trigger] cs[k] == cmd_v(cmds@[k]),
                self.tabela == old(self).tabela,
                env == old(self).tabela.mapa(),
                erros_v(self.erros@) == e0 + erros_cmds(env, cs.take(j as int)),
            decreases cmds@.len() - j,
        {
            assert(cs.take(j + 1).subrange(0, j as int) =~= cs.take(j as int));
            assert(cs.take(j + 1)[j as int] == cs[j as int]);
            self.verificar_comando(&cmds[j]);
            assert(erros_v(self.erros@) =~= e0 + erros_cmds(env, cs.take(j + 1)));
            j = j + 1;
        }
        assert(cs.take(cs.len() as int) =~= cs);
    }

    /// `ID = expressão ;` — the type of the expression must be the declared type of `ID`.
    fn verificar_atribuicao(&mut self, nome: &str, expr: &Expressao, span: &Span)
        ensures
            final(self).tabela == old(self).tabela,
            erros_v(final(self).erros@) == erros_v(old(self).erros@) + erros_cmd(
                old(self).tabela.mapa(),
                CmdV::Atribuicao { nome: nome@, expr: expr@, span: *span },
            ),
    {
        let tipo_var = match self.tabela.consultar(nome, span) {
            Ok(t) => *t,
            Err(e) => {
                self.registrar(e);
                assert(erros_v(self.erros@) =~= erros_v(old(self).erros@) + erros_cmd(
                    old(self).tabela.mapa(),
                    CmdV::Atribuicao { nome: nome@, expr: expr@, span: *span },
                ));
                return;
            },
        };
        let ghost e1 = erros_v(self.erros@);
        if let Some(tipo_expr) = self.inferir_tipo(expr) {
            if tipo_expr != tipo_var {
                let mut msg = String::from_str("Tipo incompatível na atribuição a '");
                msg.append(nome);
                msg.append("': esperado '");
                msg.append(tipo_var.nome());
                msg.append("', obtido '");
                msg.append(tipo_expr.nome());
                msg.append("'");
                self.erro(msg, span);
            }
        }
        assert(erros_v(self.erros@) =~= erros_v(old(self).erros@) + erros_cmd(
            old(self).tabela.mapa(),
            CmdV::Atribuicao { nome: nome@, expr: expr@, span: *span },
        ));
    }

    /// `read ( ID ) ;` — `ID` must be `int` or `string`.
    fn verificar_read(&mut self, nome: &str, span: &Span)
        ensures
            final(self).tabela == old(self).tabela,
            erros_v(final(self).erros@) == erros_v(old(self).erros@) + erros_cmd(
                old(self).tabela.mapa(),
                CmdV::Read { nome: nome@, span: *span },
            ),
    {
        match self.tabela.consultar(nome, span) {
            Err(e) => self.registrar(e),
            Ok(t) => {
                if *t == Tipo::Bool {
                    let mut msg = String::from_str("'read' não suporta o tipo 'bool' — variável '");
                    msg.append(nome);
                    msg.append("' deve ser 'int' ou 'string'");
                    self.erro(msg, span);
                }
            },
        }
        assert(erros_v(self.erros@) =~= erros_v(old(self).erros@) + erros_cmd(
            old(self).tabela.mapa(),
            CmdV::Read { nome: nome@, span: *span },
        ));
    }

    // ── Type checks ───────────────────────────────────────────────────────

    /// Checks that `expr` is `bool`, reporting an error otherwise.
    fn exigir_bool(&mut self, expr: &Expressao, contexto: &str)
        ensures
            final(self).tabela == old(self).tabela,
            erros_v(final(self).erros@) == erros_v(old(self).erros@) + erros_condicao(
                old(self).tabela.mapa(),
                expr@,
                contexto@,
            ),
    {
        if let Some(t) = self.inferir_tipo(expr) {
            if t != Tipo::Bool {
                let mut msg = String::from_str("A ");
                msg.append(contexto);
                msg.append(" deve ser do tipo 'bool', mas obteve '");
                msg.append(t.nome());
                msg.append("'");
                self.erro(msg, expr.span());
            }
        }
        assert(erros_v(self.erros@) =~= erros_v(old(self).erros@) + erros_condicao(
            old(self).tabela.mapa(),
            expr@,
            contexto@,
        ));
    }

    /// The type of an expression; `None` when it is ill-typed, the errors being
    /// recorded, so that callers add no errors in cascade.
    fn inferir_tipo(&mut self, expr: &Expressao) -> (r: Option<Tipo>)
        ensures
            final(self).tabela == old(self).tabela,
            r == tipo_de(old(self).tabela.mapa(), expr@),
            erros_v(final(self).erros@) == erros_v(old(self).erros@) + erros_expr(
                old(self).tabela.mapa(),
                expr@,
            ),
        decreases expr, 1nat,
    {
        let r = match expr {
            Expressao::LitInt(_, _) => Some(Tipo::Int),
            Expressao::LitBool(_, _) => Some(Tipo::Bool),
            Expressao::LitString(_, _) => Some(Tipo::String),
            Expressao::Var(nome, span) => {
                match self.tabela.consultar(nome.as_str(), span) {
                    Ok(t) => Some(*t),
                    Err(e) => {
                        self.registrar(e);
                        None
                    },
                }
            },
            Expressao::UnOp { .. } => self.verificar_unario(expr),
            Expressao::BinOp { .. } => self.verificar_binario(expr),
        };
        assert(erros_v(self.erros@) =~= erros_v(old(self).erros@) + erros_expr(
            old(self).tabela.mapa(),
            expr@,
        ));
        r
    }

    /// The type of a unary operation: `-` takes `int`, `!` takes `bool`.
    fn verificar_unario(&mut self, expr: &Expressao) -> (r: Option<Tipo>)
        requires
            expr is UnOp,
        ensures
            final(self).tabela == old(self).tabela,
            r == tipo_de(old(self).tabela.mapa(), expr@),
            erros_v(final(self).erros@) == erros_v(old(self).erros@) + erros_expr(
                old(self).tabela.mapa(),
                expr@,
            ),
        decreases expr, 0nat,
    {
        let (op, operando, span) = match expr {
            Expressao::UnOp { op, operando, span } => (op, operando, span),
            _ => {
                return None;
            },
        };
        let ghost env = self.tabela.mapa();
        let ghost e0 = erros_v(self.erros@);
        let t = match self.inferir_tipo(operando) {
            Some(t) => t,
            None => {
                assert(erros_v(self.erros@) =~= e0 + erros_expr(env, expr@));
                return None;
            },
        };
        let r = match op {
            OpUn::Neg => {
                if t != Tipo::Int {
                    let mut msg = String::from_str("Operador '-' (negação) requer 'int', obteve '");
                    msg.append(t.nome());
                    msg.append("'");
                    self.erro(msg, span);
                    None
                } else {
                    Some(Tipo::Int)
                }
            },
            OpUn::Not => {
                if t != Tipo::Bool {
                    let mut msg = String::from_str("Operador '!' requer 'bool', obteve '");
                    msg.append(t.nome());
                    msg.append("'");
                    self.erro(msg, span);
                    None
                } else {
                    Some(Tipo::Bool)
                }
            },
        };
        assert(erros_v(self.erros@) =~= e0 + erros_expr(env, expr@));
        r
    }

    /// The type of a binary operation, by the typing table; both sides are
    /// inferred first, so errors on both are reported even if the first fails.
    fn verificar_binario(&mut self, expr: &Expressao) -> (r: Option<Tipo>)
        requires
            expr is BinOp,
        ensures
            final(self).tabela == old(self).tabela,
            r == tipo_de(old(self).tabela.mapa(), expr@),
            erros_v(final(self).erros@) == erros_v(old(self).erros@) + erros_expr(
                old(self).tabela.mapa(),
                expr@,
            ),
        decreases expr, 0nat,
    {
        let (op, esq, dir, span) = match expr {
            Expressao::BinOp { op, esq, dir, span } => (op, esq, dir, span),
            _ => {
                return None;
            },
        };
        let ghost env = self.tabela.mapa();
        let ghost e0 = erros_v(self.erros@);
        let ghost alvo = expr@;
        let t_esq = self.inferir_tipo(esq);
        let t_dir = self.inferir_tipo(dir);
        let ghost e2 = erros_v(self.erros@);
        assert(e2 == e0 + erros_expr(env, esq@) + erros_expr(env, dir@));
        let (te, td) = match (t_esq, t_dir) {
            (Some(a), Some(b)) => (a, b),
            _ => {
                assert(erros_v(self.erros@) =~= e0 + erros_expr(env, alvo));
                return None;
            },
        };
        let r = match op {
            OpBin::Sub | OpBin::Mul | OpBin::Div | OpBin::Mod => {
                if self.exigir_ambos_int(op, te, td, span) {
                    Some(Tipo::Int)
                } else {
                    None
                }
            },
            OpBin::Add => {
                if te == Tipo::Int && td == Tipo::Int {
                    Some(Tipo::Int)
                } else if te == Tipo::String && td == Tipo::String {
                    Some(Tipo::String)
                } else {
                    let mut msg = String::from_str("Operador '+' não suportado entre '");
                    msg.append(te.nome());
                    msg.append("' e '");
                    msg.append(td.nome());
                    msg.append("' (use '+' apenas com int+int ou string+string)");
                    self.erro(msg, span);
                    None
                }
            },
            OpBin::Gt | OpBin::Lt | OpBin::Ge | OpBin::Le => {
                if self.exigir_ambos_int(op, te, td, span) {
                    Some(Tipo::Bool)
                } else {
                    None
                }
            },
            OpBin::Eq | OpBin::Neq => {
                if te != td {
                    let mut msg = String::from_str("Operador '");
                    msg.append(op.simbolo());
                    msg.append("' exige operandos do mesmo tipo, mas obteve '");
                    msg.append(te.nome());
                    msg.append("' e '");
                    msg.append(td.nome());
                    msg.append("'");
                    self.erro(msg, span);
                    None
                } else {
                    Some(Tipo::Bool)
                }
            },
            OpBin::And | OpBin::Or => {
                if self.exigir_ambos(op, Tipo::Bool, te, td, span) {
                    Some(Tipo::Bool)
                } else {
                    None
                }
            },
        };
        assert(erros_v(self.erros@) =~= e0 + erros_expr(env, alvo));
        r
    }

    /// Checks that both sides are `int`, reporting each side that is not.
    fn exigir_ambos_int(&mut self, op: &OpBin, t_esq: Tipo, t_dir: Tipo, span: &Span) -> (r: bool)
        ensures
            final(self).tabela == old(self).tabela,
            r == (t_esq == Tipo::Int && t_dir == Tipo::Int),
            erros_v(final(self).erros@) == erros_v(old(self).erros@) + erros_ambos(
                *op,
                Tipo::Int,
                t_esq,
                t_dir,
                *span,
            ),
    {
        self.exigir_ambos(op, Tipo::Int, t_esq, t_dir, span)
    }

    /// Checks that both sides have type `t`, reporting each side that has not.
    fn exigir_ambos(&mut self, op: &OpBin, t: Tipo, t_esq: Tipo, t_dir: Tipo, span: &Span) -> (r: bool)
        ensures
            final(self).tabela == old(self).tabela,
            r == (t_esq == t && t_dir == t),
            erros_v(final(self).erros@) == erros_v(old(self).erros@) + erros_ambos(
                *op,
                t,
                t_esq,
                t_dir,
                *span,
            ),
    {
        let ghost e0 = erros_v(self.erros@);
        let mut ok = true;
        if t_esq != t {
            let mut msg = String::from_str("Operador '");
            msg.append(op.simbolo());
            msg.append("' requer '");
            msg.append(t.nome());
            msg.append("' ");
            msg.append("à esquerda");
            msg.append(", obteve '");
            msg.append(t_esq.nome());
            msg.append("'");
            self.erro(msg, span);
            ok = false;
        }
        if t_dir != t {
            let mut msg = String::from_str("Operador '");
            msg.append(op.simbolo());
            msg.append("' requer '");
            msg.append(t.nome());
            msg.append("' ");
            msg.append("à direita");
            msg.append(", obteve '");
            msg.append(t_dir.nome());
            msg.append("'");
            self.erro(msg, span);
            ok = false;
        }
        assert(erros_v(self.erros@) =~= e0 + erros_ambos(*op, t, t_esq, t_dir, *span));
        ok
    }
}

/// Checks the AST for scope and type errors.
///
/// Returns the filled symbol table when there is none, or every semantic error,
/// in order, otherwise. The program is accepted exactly when `programa_valido` holds
/// (see `lei_sem_erros_sse_valido`).
pub fn verificar(prog: &Programa) -> (r: Result<TabelaDeSimbolos, Vec<PBError>>)
    ensures
        erros_programa(prog@).len() == 0 ==> (r matches Ok(t) && t.mapa() == ambiente_de(
            prog@.declaracoes,
        )),
        erros_programa(prog@).len() > 0 ==> (r matches Err(v) && erros_v(v@) == erros_programa(
            prog@,
        )),
{
    let mut analisador = Analisador::new();
    analisador.verificar_programa(prog);
    assert(erros_v(analisador.erros@) =~= erros_programa(prog@));
    if analisador.erros.len() == 0 {
        Ok(analisador.tabela)
    } else {
        Err(analisador.erros)
    }
}

} // verus!
