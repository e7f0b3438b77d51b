use vstd::prelude::*;

use crate::ast::{
    cmd_v, cmds_v, decls_v, expr_v, opbin_simbolo, CmdV, Comando, DeclV, Declaracao, ExprV, Expressao, OpBin, OpUn,
    ProgV, Programa, Span, Tipo,
};
use crate::error::{da_fase, erros_v, lemma_da_fase_concat, ErroV, Fase, PBError};
use crate::lexer::{nome_do_tipo, tokens_v, SpannedToken, SpannedTokenV, Token, TokenV};

verus! {

// ─────────────────────────────────────────────────────────────────────────────
// The grammar, as a function of the token stream
//
// Each function below describes one rule of the recursive-descent parser: from a
// position in the token stream it gives what the rule builds (if anything), the
// position after it, and the syntax errors it reports, in order.
// ─────────────────────────────────────────────────────────────────────────────

/// The token at `pos`, if any.
pub open spec fn tok_em(ts: Seq<SpannedTokenV>, pos: int) -> Option<TokenV> {
    if 0 <= pos < ts.len() {
        Some(ts[pos].token)
    } else {
        None
    }
}

/// Line and column of the token at `pos`; `(0, 0)` past the end.
pub open spec fn pos_atual(ts: Seq<SpannedTokenV>, pos: int) -> Span {
    if 0 <= pos < ts.len() {
        Span { line: ts[pos].line, col: ts[pos].col }
    } else {
        Span { line: 0, col: 0 }
    }
}

/// How an error message names the token at `pos`.
pub open spec fn encontrado(ts: Seq<SpannedTokenV>, pos: int) -> Seq<char> {
    match tok_em(ts, pos) {
        Some(t) => "'"@ + nome_do_tipo(t) + "'"@,
        None => "fim de arquivo"@,
    }
}

/// A syntax error at the token at `pos`.
pub open spec fn erro_sint(msg: Seq<char>, ts: Seq<SpannedTokenV>, pos: int) -> ErroV {
    ErroV { fase: Fase::Sintatica, message: msg, line: pos_atual(ts, pos).line, col: pos_atual(ts, pos).col }
}

/// The outcome of a rule: what it built, where it stopped, and the errors it reported.
pub type Saida<T> = (Option<T>, int, Seq<ErroV>);

/// Consumes the token `e` if it is next; otherwise reports that `e` was expected.
pub open spec fn esperar(ts: Seq<SpannedTokenV>, pos: int, e: TokenV) -> (bool, int, Seq<ErroV>) {
    if tok_em(ts, pos) == Some(e) {
        (true, pos + 1, Seq::empty())
    } else {
        (
            false,
            pos,
            seq![erro_sint("Esperado '"@ + nome_do_tipo(e) + "', encontrado "@ + encontrado(ts, pos), ts, pos)],
        )
    }
}

/// Consumes an identifier, giving its name and place; otherwise reports an error.
pub open spec fn esperar_ident(ts: Seq<SpannedTokenV>, pos: int) -> Saida<(Seq<char>, Span)> {
    match tok_em(ts, pos) {
        Some(TokenV::Ident(n)) => (Some((n, pos_atual(ts, pos))), pos + 1, Seq::empty()),
        _ => (
            None,
            pos,
            seq![erro_sint("Esperado identificador, encontrado "@ + encontrado(ts, pos), ts, pos)],
        ),
    }
}

/// Error recovery: skips tokens up to and including the next `;` or `}`.
pub open spec fn sincronizar(ts: Seq<SpannedTokenV>, pos: int) -> int
    decreases ts.len() - pos,
{
    if pos < 0 || pos >= ts.len() {
        pos
    } else {
        match ts[pos].token {
            TokenV::Semicolon | TokenV::RBrace => pos + 1,
            _ => sincronizar(ts, pos + 1),
        }
    }
}

/// `tipo → 'int' | 'bool' | 'string'`
pub open spec fn p_tipo(ts: Seq<SpannedTokenV>, pos: int) -> Saida<Tipo> {
    match tok_em(ts, pos) {
        Some(TokenV::IntType) => (Some(Tipo::Int), pos + 1, Seq::empty()),
        Some(TokenV::BoolType) => (Some(Tipo::Bool), pos + 1, Seq::empty()),
        Some(TokenV::StringType) => (Some(Tipo::String), pos + 1, Seq::empty()),
        _ => (
            None,
            pos,
            seq![erro_sint(
                "Esperado tipo ('int', 'bool' ou 'string'), encontrado "@ + encontrado(ts, pos),
                ts,
                pos,
            )],
        ),
    }
}

/// `declaração → 'var' ID ':' tipo ';'`
pub open spec fn p_declaracao(ts: Seq<SpannedTokenV>, pos: int) -> Saida<DeclV> {
    let (_, p1, e1) = esperar(ts, pos, TokenV::Var);
    let (id, p2, e2) = esperar_ident(ts, p1);
    match id {
        None => (None, p2, e1 + e2),
        Some((nome, span)) => {
            let (_, p3, e3) = esperar(ts, p2, TokenV::Colon);
            let (t, p4, e4) = p_tipo(ts, p3);
            match t {
                None => (None, p4, e1 + e2 + e3 + e4),
                Some(tipo) => {
                    let (_, p5, e5) = esperar(ts, p4, TokenV::Semicolon);
                    (Some(DeclV { nome, tipo, span }), p5, e1 + e2 + e3 + e4 + e5)
                },
            }
        },
    }
}

/// The binary operators of each precedence level, from `||` (level 0) down to
/// `*` `/` `%` (level 5); levels 6 and 7 are the unary and primary expressions.
pub open spec fn op_nivel(n: nat, t: TokenV) -> Option<OpBin> {
    if n == 0 {
        match t {
            TokenV::Or => Some(OpBin::Or),
            _ => None,
        }
    } else if n == 1 {
        match t {
            TokenV::And => Some(OpBin::And),
            _ => None,
        }
    } else if n == 2 {
        match t {
            TokenV::Eq => Some(OpBin::Eq),
            TokenV::Neq => Some(OpBin::Neq),
            _ => None,
        }
    } else if n == 3 {
        match t {
            TokenV::Gt => Some(OpBin::Gt),
            TokenV::Lt => Some(OpBin::Lt),
            TokenV::Ge => Some(OpBin::Ge),
            TokenV::Le => Some(OpBin::Le),
            _ => None,
        }
    } else if n == 4 {
        match t {
            TokenV::Plus => Some(OpBin::Add),
            TokenV::Minus => Some(OpBin::Sub),
            _ => None,
        }
    } else if n == 5 {
        match t {
            TokenV::Star => Some(OpBin::Mul),
            TokenV::Slash => Some(OpBin::Div),
            TokenV::Mod => Some(OpBin::Mod),
            _ => None,
        }
    } else {
        None
    }
}

/// Each operator token is read as the operator it spells (`<=` as `<=`, `-` as
/// `-`, ...), at its level of precedence: `||` at 0, `&&` at 1, `==` `!=` at 2,
/// `>` `<` `>=` `<=` at 3, `+` `-` at 4, `*` `/` `%` at 5; no other token is a
/// binary operator.
pub proof fn lei_operadores(n: nat, t: TokenV)
    ensures
        match op_nivel(n, t) {
            Some(op) => opbin_simbolo(op) == nome_do_tipo(t),
            None => true,
        },
        (op_nivel(n, t) is Some) <==> match t {
            TokenV::Or => n == 0,
            TokenV::And => n == 1,
            TokenV::Eq | TokenV::Neq => n == 2,
            TokenV::Gt | TokenV::Lt | TokenV::Ge | TokenV::Le => n == 3,
            TokenV::Plus | TokenV::Minus => n == 4,
            TokenV::Star | TokenV::Slash | TokenV::Mod => n == 5,
            _ => false,
        },
{
    reveal_strlit("||");
    reveal_strlit("&&");
    reveal_strlit("==");
    reveal_strlit("!=");
    reveal_strlit(">");
    reveal_strlit("<");
    reveal_strlit(">=");
    reveal_strlit("<=");
    reveal_strlit("+");
    reveal_strlit("-");
    reveal_strlit("*");
    reveal_strlit("/");
    reveal_strlit("%");
}

/// The expression a single token stands for, if it stands for one: a number, a
/// truth value, a string, or a variable, at the token's place.
pub open spec fn folha(t: TokenV, sp: Span) -> Option<ExprV> {
    match t {
        TokenV::Number(v) => Some(ExprV::LitInt(v, sp)),
        TokenV::True => Some(ExprV::LitBool(true, sp)),
        TokenV::False => Some(ExprV::LitBool(false, sp)),
        TokenV::StringLit(s) => Some(ExprV::LitString(s, sp)),
        TokenV::Ident(x) => Some(ExprV::Var(x, sp)),
        _ => None,
    }
}

/// The binary operator tokens.
pub open spec fn eh_operador(t: TokenV) -> bool {
    t is Or || t is And || t is Eq || t is Neq || t is Gt || t is Lt || t is Ge || t is Le || t is Plus
        || t is Minus || t is Star || t is Slash || t is Mod
}

proof fn lemma_folha_nivel(ts: Seq<SpannedTokenV>, i: int, m: nat)
    requires
        0 <= i < ts.len(),
        folha(ts[i].token, pos_atual(ts, i)) is Some,
        m <= 7,
        forall|l: nat| m <= l <= 5 ==> (i + 1 < ts.len() ==> #[trigger] op_nivel(l, ts[i + 1].token) is None),
    ensures
        p_expr(ts, i, m) == (folha(ts[i].token, pos_atual(ts, i)), i + 1, Seq::<ErroV>::empty()),
    decreases 8 - m,
{
    if m <= 5 {
        lemma_folha_nivel(ts, i, m + 1);
        let e = folha(ts[i].token, pos_atual(ts, i))->0;
        if i + 1 < ts.len() {
            assert(op_nivel(m, ts[i + 1].token) is None);
        }
        assert(p_resto(ts, i + 1, m, e) == (Some(e), i + 1, Seq::<ErroV>::empty()));
        assert(Seq::<ErroV>::empty() + Seq::<ErroV>::empty() =~= Seq::<ErroV>::empty());
    } else if m == 6 {
        lemma_folha_nivel(ts, i, 7);
    }
}

proof fn lemma_nao_operador(t: TokenV)
    requires
        !eh_operador(t),
    ensures
        forall|l: nat| #[trigger] op_nivel(l, t) is None,
{
    assert forall|l: nat| #[trigger] op_nivel(l, t) is None by {
        lei_operadores(l, t);
    }
}

/// A token that stands for a value, followed by the end or by a token that is no
/// binary operator, is read as that value: a number as that number, `true` and
/// `false` as those truth values, a string as that string, a name as that
/// variable, at the token's place, with no error.
pub proof fn lei_folhas(ts: Seq<SpannedTokenV>, i: int)
    requires
        0 <= i < ts.len(),
        folha(ts[i].token, pos_atual(ts, i)) is Some,
        i + 1 < ts.len() ==> !eh_operador(ts[i + 1].token),
    ensures
        p_expr(ts, i, 0) == (
            match ts[i].token {
                TokenV::Number(v) => Some(ExprV::LitInt(v, pos_atual(ts, i))),
                TokenV::True => Some(ExprV::LitBool(true, pos_atual(ts, i))),
                TokenV::False => Some(ExprV::LitBool(false, pos_atual(ts, i))),
                TokenV::StringLit(s) => Some(ExprV::LitString(s, pos_atual(ts, i))),
                TokenV::Ident(x) => Some(ExprV::Var(x, pos_atual(ts, i))),
                _ => None,
            },
            i + 1,
            Seq::<ErroV>::empty(),
        ),
{
    if i + 1 < ts.len() {
        lemma_nao_operador(ts[i + 1].token);
    }
    lemma_folha_nivel(ts, i, 0);
}

/// Two operators of the same level group to the left: `a op1 b op2 c` is read as
/// `(a op1 b) op2 c`, each operation at its operator's place, with no error.
pub proof fn lei_associatividade(ts: Seq<SpannedTokenV>, n: nat, o1: OpBin, o3: OpBin)
    requires
        ts.len() >= 5,
        n <= 5,
        folha(ts[0].token, pos_atual(ts, 0)) is Some,
        folha(ts[2].token, pos_atual(ts, 2)) is Some,
        folha(ts[4].token, pos_atual(ts, 4)) is Some,
        op_nivel(n, ts[1].token) == Some(o1),
        op_nivel(n, ts[3].token) == Some(o3),
        ts.len() > 5 ==> !eh_operador(ts[5].token),
    ensures
        p_expr(ts, 0, 0) == (
            Some(
                ExprV::BinOp {
                    op: o3,
                    esq: Box::new(
                        ExprV::BinOp {
                            op: o1,
                            esq: Box::new(folha(ts[0].token, pos_atual(ts, 0))->0),
                            dir: Box::new(folha(ts[2].token, pos_atual(ts, 2))->0),
                            span: pos_atual(ts, 1),
                        },
                    ),
                    dir: Box::new(folha(ts[4].token, pos_atual(ts, 4))->0),
                    span: pos_atual(ts, 3),
                },
            ),
            5int,
            Seq::<ErroV>::empty(),
        ),
{
    lemma_associatividade_nivel(ts, n, o1, o3, 0);
}

proof fn lemma_associatividade_nivel(ts: Seq<SpannedTokenV>, n: nat, o1: OpBin, o3: OpBin, m: nat)
    requires
        ts.len() >= 5,
        n <= 5,
        m <= n,
        folha(ts[0].token, pos_atual(ts, 0)) is Some,
        folha(ts[2].token, pos_atual(ts, 2)) is Some,
        folha(ts[4].token, pos_atual(ts, 4)) is Some,
        op_nivel(n, ts[1].token) == Some(o1),
        op_nivel(n, ts[3].token) == Some(o3),
        ts.len() > 5 ==> !eh_operador(ts[5].token),
    ensures
        p_expr(ts, 0, m) == (
            Some(
                ExprV::BinOp {
                    op: o3,
                    esq: Box::new(
                        ExprV::BinOp {
                            op: o1,
                            esq: Box::new(folha(ts[0].token, pos_atual(ts, 0))->0),
                            dir: Box::new(folha(ts[2].token, pos_atual(ts, 2))->0),
                            span: pos_atual(ts, 1),
                        },
                    ),
                    dir: Box::new(folha(ts[4].token, pos_atual(ts, 4))->0),
                    span: pos_atual(ts, 3),
                },
            ),
            5int,
            Seq::<ErroV>::empty(),
        ),
    decreases n - m,
{
    let vazio = Seq::<ErroV>::empty();
    assert(vazio + vazio =~= vazio);
    let a = folha(ts[0].token, pos_atual(ts, 0))->0;
    let b = folha(ts[2].token, pos_atual(ts, 2))->0;
    let c = folha(ts[4].token, pos_atual(ts, 4))->0;
    let ab = ExprV::BinOp { op: o1, esq: Box::new(a), dir: Box::new(b), span: pos_atual(ts, 1) };
    let abc = ExprV::BinOp { op: o3, esq: Box::new(ab), dir: Box::new(c), span: pos_atual(ts, 3) };
    if ts.len() > 5 {
        lemma_nao_operador(ts[5].token);
    }
    // past the last operand, no level reads more
    if ts.len() > 5 {
        assert(op_nivel(m, ts[5].token) is None);
    }
    assert(p_resto(ts, 5, m, abc) == (Some(abc), 5int, vazio));
    if m == n {
        // the operators are of level n only
        assert forall|l: nat| n + 1 <= l <= 5 implies (#[trigger] op_nivel(l, ts[1].token)) is None
            && op_nivel(l, ts[3].token) is None by {
            lei_operadores(l, ts[1].token);
            lei_operadores(n, ts[1].token);
            lei_operadores(l, ts[3].token);
            lei_operadores(n, ts[3].token);
        }
        lemma_folha_nivel(ts, 0, n + 1);
        lemma_folha_nivel(ts, 2, n + 1);
        lemma_folha_nivel(ts, 4, n + 1);
        assert(p_resto(ts, 3, n, ab) == (Some(abc), 5int, vazio));
        assert(p_resto(ts, 1, n, a) == (Some(abc), 5int, vazio));
    } else {
        lemma_associatividade_nivel(ts, n, o1, o3, m + 1);
    }
}

/// An expression of precedence level `n`:
/// - levels 0 to 5: `exp_{n+1} (op_n exp_{n+1})*`, grouped to the left;
/// - level 6: `('!' | '-') exp_unaria | primário`;
/// - level 7: `INTEIRO | 'true' | 'false' | STRING | ID | '(' expressão ')'`.
pub open spec fn p_expr(ts: Seq<SpannedTokenV>, pos: int, n: nat) -> Saida<ExprV>
    decreases ts.len() - pos, 3 * (8 - n) + 2,
{
    if pos < 0 || pos > ts.len() || n > 7 {
        (None, pos, Seq::empty())
    } else if n <= 5 {
        let (l, p1, e1) = p_expr(ts, pos, n + 1);
        match l {
            None => (None, p1, e1),
            Some(esq) => if p1 < pos || p1 > ts.len() {
                (None, p1, e1)
            } else {
                let (r, p2, e2) = p_resto(ts, p1, n, esq);
                (r, p2, e1 + e2)
            },
        }
    } else if n == 6 {
        let sp = pos_atual(ts, pos);
        match tok_em(ts, pos) {
            Some(TokenV::Not) => {
                let (o, p1, e1) = p_expr(ts, pos + 1, 6);
                match o {
                    Some(x) => (Some(ExprV::UnOp { op: OpUn::Not, operando: Box::new(x), span: sp }), p1, e1),
                    None => (None, p1, e1),
                }
            },
            Some(TokenV::Minus) => {
                let (o, p1, e1) = p_expr(ts, pos + 1, 6);
                match o {
                    Some(x) => (Some(ExprV::UnOp { op: OpUn::Neg, operando: Box::new(x), span: sp }), p1, e1),
                    None => (None, p1, e1),
                }
            },
            _ => p_expr(ts, pos, 7),
        }
    } else {
        let sp = pos_atual(ts, pos);
        match tok_em(ts, pos) {
            Some(TokenV::Number(v)) => (Some(ExprV::LitInt(v as i64, sp)), pos + 1, Seq::empty()),
            Some(TokenV::True) => (Some(ExprV::LitBool(true, sp)), pos + 1, Seq::empty()),
            Some(TokenV::False) => (Some(ExprV::LitBool(false, sp)), pos + 1, Seq::empty()),
            Some(TokenV::StringLit(s)) => (Some(ExprV::LitString(s, sp)), pos + 1, Seq::empty()),
            Some(TokenV::Ident(nm)) => (Some(ExprV::Var(nm, sp)), pos + 1, Seq::empty()),
            Some(TokenV::LParen) => {
                let (o, p1, e1) = p_expr(ts, pos + 1, 0);
                match o {
                    None => (None, p1, e1),
                    Some(x) => {
                        let (_, p2, e2) = esperar(ts, p1, TokenV::RParen);
                        (Some(x), p2, e1 + e2)
                    },
                }
            },
            // any other token, or the end of the input
            _ => (
                None,
                pos,
                seq![erro_sint("Expressão inválida: encontrado "@ + encontrado(ts, pos), ts, pos)],
            ),
        }
    }
}

/// The repetition `(op_n exp_{n+1})*` of a binary level, after the left operand `esq`.
pub open spec fn p_resto(ts: Seq<SpannedTokenV>, pos: int, n: nat, esq: ExprV) -> Saida<ExprV>
    decreases ts.len() - pos, 3 * (8 - n) + 1,
{
    if pos < 0 || pos > ts.len() || n > 5 {
        (Some(esq), pos, Seq::empty())
    } else {
        let sp = pos_atual(ts, pos);
        match tok_em(ts, pos) {
            None => (Some(esq), pos, Seq::empty()),
            Some(t) => match op_nivel(n, t) {
                None => (Some(esq), pos, Seq::empty()),
                Some(op) => {
                    let (d, p1, e1) = p_expr(ts, pos + 1, n + 1);
                    match d {
                        None => (None, p1, e1),
                        Some(dir) => {
                            let novo = ExprV::BinOp { op, esq: Box::new(esq), dir: Box::new(dir), span: sp };
                            if p1 <= pos || p1 > ts.len() {
                                (Some(novo), p1, e1)
                            } else {
                                let (r, p2, e2) = p_resto(ts, p1, n, novo);
                                (r, p2, e1 + e2)
                            }
                        },
                    }
                },
            },
        }
    }
}

/// `atribuição → ID '=' expressão ';'`
pub open spec fn p_atribuicao(ts: Seq<SpannedTokenV>, pos: int) -> Saida<CmdV> {
    let (id, p1, e1) = esperar_ident(ts, pos);
    match id {
        None => (None, p1, e1),
        Some((nome, span)) => {
            let (_, p2, e2) = esperar(ts, p1, TokenV::Assign);
            let (x, p3, e3) = p_expr(ts, p2, 0);
            match x {
                None => (None, p3, e1 + e2 + e3),
                Some(expr) => {
                    let (_, p4, e4) = esperar(ts, p3, TokenV::Semicolon);
                    (Some(CmdV::Atribuicao { nome, expr, span }), p4, e1 + e2 + e3 + e4)
                },
            }
        },
    }
}

/// `stmt_print → 'print' '(' expressão ')' ';'`
pub open spec fn p_print(ts: Seq<SpannedTokenV>, pos: int) -> Saida<CmdV> {
    let sp = pos_atual(ts, pos);
    let (_, p1, e1) = esperar(ts, pos, TokenV::Print);
    let (_, p2, e2) = esperar(ts, p1, TokenV::LParen);
    let (x, p3, e3) = p_expr(ts, p2, 0);
    match x {
        None => (None, p3, e1 + e2 + e3),
        Some(expr) => {
            let (_, p4, e4) = esperar(ts, p3, TokenV::RParen);
            let (_, p5, e5) = esperar(ts, p4, TokenV::Semicolon);
            (Some(CmdV::Print { expr, span: sp }), p5, e1 + e2 + e3 + e4 + e5)
        },
    }
}

/// `stmt_read → 'read' '(' ID ')' ';'`
pub open spec fn p_read(ts: Seq<SpannedTokenV>, pos: int) -> Saida<CmdV> {
    let sp = pos_atual(ts, pos);
    let (_, p1, e1) = esperar(ts, pos, TokenV::Read);
    let (_, p2, e2) = esperar(ts, p1, TokenV::LParen);
    let (id, p3, e3) = esperar_ident(ts, p2);
    match id {
        None => (None, p3, e1 + e2 + e3),
        Some((nome, _)) => {
            let (_, p4, e4) = esperar(ts, p3, TokenV::RParen);
            let (_, p5, e5) = esperar(ts, p4, TokenV::Semicolon);
            (Some(CmdV::Read { nome, span: sp }), p5, e1 + e2 + e3 + e4 + e5)
        },
    }
}

/// `comando → atribuição | stmt_if | stmt_while | stmt_print | stmt_read | bloco`
pub open spec fn p_comando(ts: Seq<SpannedTokenV>, pos: int) -> Saida<CmdV>
    decreases ts.len() - pos, 2nat,
{
    if pos < 0 || pos > ts.len() {
        (None, pos, Seq::empty())
    } else {
        match tok_em(ts, pos) {
            None => (None, pos, Seq::empty()),
            Some(TokenV::If) => p_if(ts, pos),
            Some(TokenV::While) => p_while(ts, pos),
            Some(TokenV::Print) => p_print(ts, pos),
            Some(TokenV::Read) => p_read(ts, pos),
            Some(TokenV::LBrace) => {
                let (cs, p1, e1) = p_corpo(ts, pos + 1);
                (Some(CmdV::Bloco(cs)), p1, e1)
            },
            Some(TokenV::Ident(_)) => p_atribuicao(ts, pos),
            Some(_) => (None, pos, seq![erro_sint("Comando inesperado: "@ + encontrado(ts, pos), ts, pos)]),
        }
    }
}

/// `stmt_if → 'if' '(' expressão ')' bloco ('else' bloco)?`
pub open spec fn p_if(ts: Seq<SpannedTokenV>, pos: int) -> Saida<CmdV>
    decreases ts.len() - pos, 1nat,
{
    let sp = pos_atual(ts, pos);
    let (_, p1, e1) = esperar(ts, pos, TokenV::If);
    let (_, p2, e2) = esperar(ts, p1, TokenV::LParen);
    let (x, p3, e3) = p_expr(ts, p2, 0);
    match x {
        None => (None, p3, e1 + e2 + e3),
        Some(condicao) => {
            let (_, p4, e4) = esperar(ts, p3, TokenV::RParen);
            if p4 <= pos || p4 > ts.len() {
                (None, p4, e1 + e2 + e3 + e4)
            } else {
                let (entao, p5, e5) = p_bloco(ts, p4);
                if p5 < p4 || p5 >= ts.len() || ts[p5].token != TokenV::Else {
                    (Some(CmdV::If { condicao, entao, senao: None, span: sp }), p5, e1 + e2 + e3 + e4 + e5)
                } else {
                    let (senao, p6, e6) = p_bloco(ts, p5 + 1);
                    (
                        Some(CmdV::If { condicao, entao, senao: Some(senao), span: sp }),
                        p6,
                        e1 + e2 + e3 + e4 + e5 + e6,
                    )
                }
            }
        },
    }
}

/// `stmt_while → 'while' '(' expressão ')' bloco`
pub open spec fn p_while(ts: Seq<SpannedTokenV>, pos: int) -> Saida<CmdV>
    decreases ts.len() - pos, 1nat,
{
    let sp = pos_atual(ts, pos);
    let (_, p1, e1) = esperar(ts, pos, TokenV::While);
    let (_, p2, e2) = esperar(ts, p1, TokenV::LParen);
    let (x, p3, e3) = p_expr(ts, p2, 0);
    match x {
        None => (None, p3, e1 + e2 + e3),
        Some(condicao) => {
            let (_, p4, e4) = esperar(ts, p3, TokenV::RParen);
            if p4 <= pos || p4 > ts.len() {
                (None, p4, e1 + e2 + e3 + e4)
            } else {
                let (corpo, p5, e5) = p_bloco(ts, p4);
                (Some(CmdV::While { condicao, corpo, span: sp }), p5, e1 + e2 + e3 + e4 + e5)
            }
        },
    }
}

/// `bloco → '{' comando* '}'`
pub open spec fn p_bloco(ts: Seq<SpannedTokenV>, pos: int) -> (Seq<CmdV>, int, Seq<ErroV>)
    decreases ts.len() - pos, 5nat,
{
    let (_, p1, e1) = esperar(ts, pos, TokenV::LBrace);
    if p1 < pos || pos < 0 || p1 > ts.len() {
        (Seq::empty(), p1, e1)
    } else {
        let (cs, p2, e2) = p_corpo(ts, p1);
        (cs, p2, e1 + e2)
    }
}

/// `comando* '}'`: the commands of a block, then its closing brace.
pub open spec fn p_corpo(ts: Seq<SpannedTokenV>, pos: int) -> (Seq<CmdV>, int, Seq<ErroV>)
    decreases ts.len() - pos, 4nat,
{
    let (cs, p1, e1) = p_laco(ts, pos, Seq::empty());
    let (_, p2, e2) = esperar(ts, p1, TokenV::RBrace);
    (cs, p2, e1 + e2)
}

/// Commands up to a `}` or the end; after a command that fails to parse, the
/// tokens up to the next `;` or `}` are skipped and parsing goes on.
pub open spec fn p_laco(ts: Seq<SpannedTokenV>, pos: int, acc: Seq<CmdV>) -> (Seq<CmdV>, int, Seq<ErroV>)
    decreases ts.len() - pos, 3nat,
{
    if pos < 0 || pos >= ts.len() || ts[pos].token == TokenV::RBrace {
        (acc, pos, Seq::empty())
    } else {
        let (c, p1, e1) = p_comando(ts, pos);
        let (acc2, p2) = match c {
            Some(cmd) => (acc.push(cmd), p1),
            None => (acc, sincronizar(ts, p1)),
        };
        if p2 <= pos || p2 > ts.len() {
            (acc2, p2, e1)
        } else {
            let (r, p3, e3) = p_laco(ts, p2, acc2);
            (r, p3, e1 + e3)
        }
    }
}

/// The declarations at the start of a program: `declaração*`.
pub open spec fn p_declaracoes(ts: Seq<SpannedTokenV>, pos: int, acc: Seq<DeclV>) -> (Seq<DeclV>, int, Seq<ErroV>)
    decreases ts.len() - pos,
{
    if pos < 0 || pos > ts.len() || tok_em(ts, pos) != Some(TokenV::Var) {
        (acc, pos, Seq::empty())
    } else {
        let (d, p1, e1) = p_declaracao(ts, pos);
        let acc2 = match d {
            Some(x) => acc.push(x),
            None => acc,
        };
        if p1 <= pos || p1 > ts.len() {
            (acc2, p1, e1)
        } else {
            let (r, p2, e2) = p_declaracoes(ts, p1, acc2);
            (r, p2, e1 + e2)
        }
    }
}

/// The commands of a program, up to the end of the token stream, with the same
/// recovery as in a block.
pub open spec fn p_comandos(ts: Seq<SpannedTokenV>, pos: int, acc: Seq<CmdV>) -> (Seq<CmdV>, int, Seq<ErroV>)
    decreases ts.len() - pos,
{
    if pos < 0 || pos >= ts.len() {
        (acc, pos, Seq::empty())
    } else {
        let (c, p1, e1) = p_comando(ts, pos);
        let (acc2, p2) = match c {
            Some(cmd) => (acc.push(cmd), p1),
            None => (acc, sincronizar(ts, p1)),
        };
        if p2 <= pos || p2 > ts.len() {
            (acc2, p2, e1)
        } else {
            let (r, p3, e3) = p_comandos(ts, p2, acc2);
            (r, p3, e1 + e3)
        }
    }
}

/// `programa → declaração* comando*`: the program and every syntax error, in order.
pub open spec fn p_programa(ts: Seq<SpannedTokenV>) -> (ProgV, Seq<ErroV>) {
    let (ds, p1, e1) = p_declaracoes(ts, 0, Seq::empty());
    let (cs, _, e2) = p_comandos(ts, p1, Seq::empty());
    (ProgV { declaracoes: ds, comandos: cs }, e1 + e2)
}


// ─────────────────────────────────────────────────────────────────────────────
// Every error of the grammar is a syntax error
// ─────────────────────────────────────────────────────────────────────────────

proof fn lemma_fase_basicos(ts: Seq<SpannedTokenV>, pos: int, e: TokenV)
    ensures
        da_fase(esperar(ts, pos, e).2, Fase::Sintatica),
        da_fase(esperar_ident(ts, pos).2, Fase::Sintatica),
        da_fase(p_tipo(ts, pos).2, Fase::Sintatica),
{
}

proof fn lemma_fase_p_expr(ts: Seq<SpannedTokenV>, pos: int, n: nat)
    ensures
        da_fase(p_expr(ts, pos, n).2, Fase::Sintatica),
    decreases ts.len() - pos, 3 * (8 - n) + 2,
{
    broadcast use lemma_da_fase_concat;

    if pos < 0 || pos > ts.len() || n > 7 {
    } else if n <= 5 {
        let (l, p1, e1) = p_expr(ts, pos, n + 1);
        lemma_fase_p_expr(ts, pos, n + 1);
        match l {
            None => {},
            Some(esq) => if p1 < pos || p1 > ts.len() {
            } else {
                lemma_fase_p_resto(ts, p1, n, esq);
            },
        }
    } else if n == 6 {
        match tok_em(ts, pos) {
            Some(TokenV::Not) => lemma_fase_p_expr(ts, pos + 1, 6),
            Some(TokenV::Minus) => lemma_fase_p_expr(ts, pos + 1, 6),
            _ => lemma_fase_p_expr(ts, pos, 7),
        }
    } else {
        match tok_em(ts, pos) {
            Some(TokenV::LParen) => {
                let (o, p1, e1) = p_expr(ts, pos + 1, 0);
                lemma_fase_p_expr(ts, pos + 1, 0);
                lemma_fase_basicos(ts, p1, TokenV::RParen);
            },
            _ => {},
        }
    }
}

proof fn lemma_fase_p_resto(ts: Seq<SpannedTokenV>, pos: int, n: nat, esq: ExprV)
    ensures
        da_fase(p_resto(ts, pos, n, esq).2, Fase::Sintatica),
    decreases ts.len() - pos, 3 * (8 - n) + 1,
{
    broadcast use lemma_da_fase_concat;

    if pos < 0 || pos > ts.len() || n > 5 {
    } else {
        let sp = pos_atual(ts, pos);
        match tok_em(ts, pos) {
            None => {},
            Some(t) => match op_nivel(n, t) {
                None => {},
                Some(op) => {
                    let (d, p1, e1) = p_expr(ts, pos + 1, n + 1);
                    lemma_fase_p_expr(ts, pos + 1, n + 1);
                    match d {
                        None => {},
                        Some(dir) => {
                            let novo = ExprV::BinOp { op, esq: Box::new(esq), dir: Box::new(dir), span: sp };
                            if p1 <= pos || p1 > ts.len() {
                            } else {
                                lemma_fase_p_resto(ts, p1, n, novo);
                            }
                        },
                    }
                },
            },
        }
    }
}

proof fn lemma_fase_simples(ts: Seq<SpannedTokenV>, pos: int)
    ensures
        da_fase(p_declaracao(ts, pos).2, Fase::Sintatica),
        da_fase(p_atribuicao(ts, pos).2, Fase::Sintatica),
        da_fase(p_print(ts, pos).2, Fase::Sintatica),
        da_fase(p_read(ts, pos).2, Fase::Sintatica),
{
    broadcast use lemma_da_fase_concat;

    let (_, p1, e1) = esperar(ts, pos, TokenV::Var);
    let (id, p2, e2) = esperar_ident(ts, p1);
    let (_, p3, e3) = esperar(ts, p2, TokenV::Colon);
    let (t, p4, e4) = p_tipo(ts, p3);
    lemma_fase_basicos(ts, pos, TokenV::Var);
    lemma_fase_basicos(ts, p1, TokenV::Var);
    lemma_fase_basicos(ts, p2, TokenV::Colon);
    lemma_fase_basicos(ts, p3, TokenV::Colon);
    lemma_fase_basicos(ts, p4, TokenV::Semicolon);
    // assignment
    let (id2, q1, f1) = esperar_ident(ts, pos);
    let (_, q2, f2) = esperar(ts, q1, TokenV::Assign);
    let (x, q3, f3) = p_expr(ts, q2, 0);
    lemma_fase_basicos(ts, q1, TokenV::Assign);
    lemma_fase_p_expr(ts, q2, 0);
    lemma_fase_basicos(ts, q3, TokenV::Semicolon);
    // print and read
    let (_, r1, g1) = esperar(ts, pos, TokenV::Print);
    let (_, r2, g2) = esperar(ts, r1, TokenV::LParen);
    let (y, r3, g3) = p_expr(ts, r2, 0);
    let (_, r4, g4) = esperar(ts, r3, TokenV::RParen);
    lemma_fase_basicos(ts, pos, TokenV::Print);
    lemma_fase_basicos(ts, r1, TokenV::LParen);
    lemma_fase_p_expr(ts, r2, 0);
    lemma_fase_basicos(ts, r3, TokenV::RParen);
    lemma_fase_basicos(ts, r4, TokenV::Semicolon);
    let (_, s1, h1) = esperar(ts, pos, TokenV::Read);
    let (_, s2, h2) = esperar(ts, s1, TokenV::LParen);
    let (z, s3, h3) = esperar_ident(ts, s2);
    let (_, s4, h4) = esperar(ts, s3, TokenV::RParen);
    lemma_fase_basicos(ts, pos, TokenV::Read);
    lemma_fase_basicos(ts, s1, TokenV::LParen);
    lemma_fase_basicos(ts, s2, TokenV::LParen);
    lemma_fase_basicos(ts, s3, TokenV::RParen);
    lemma_fase_basicos(ts, s4, TokenV::Semicolon);
}

proof fn lemma_fase_p_comando(ts: Seq<SpannedTokenV>, pos: int)
    ensures
        da_fase(p_comando(ts, pos).2, Fase::Sintatica),
    decreases ts.len() - pos, 2nat,
{
    broadcast use lemma_da_fase_concat;

    if pos < 0 || pos > ts.len() {
    } else {
        lemma_fase_simples(ts, pos);
        match tok_em(ts, pos) {
            Some(TokenV::If) => lemma_fase_p_if(ts, pos),
            Some(TokenV::While) => lemma_fase_p_while(ts, pos),
            Some(TokenV::LBrace) => lemma_fase_p_corpo(ts, pos + 1),
            _ => {},
        }
    }
}

proof fn lemma_fase_p_if(ts: Seq<SpannedTokenV>, pos: int)
    ensures
        da_fase(p_if(ts, pos).2, Fase::Sintatica),
    decreases ts.len() - pos, 1nat,
{
    broadcast use lemma_da_fase_concat;

    let (_, p1, e1) = esperar(ts, pos, TokenV::If);
    let (_, p2, e2) = esperar(ts, p1, TokenV::LParen);
    let (x, p3, e3) = p_expr(ts, p2, 0);
    lemma_fase_basicos(ts, pos, TokenV::If);
    lemma_fase_basicos(ts, p1, TokenV::LParen);
    lemma_fase_p_expr(ts, p2, 0);
    match x {
        None => {},
        Some(condicao) => {
            let (_, p4, e4) = esperar(ts, p3, TokenV::RParen);
            lemma_fase_basicos(ts, p3, TokenV::RParen);
            if p4 <= pos || p4 > ts.len() {
            } else {
                let (entao, p5, e5) = p_bloco(ts, p4);
                lemma_fase_p_bloco(ts, p4);
                if p5 < p4 || p5 >= ts.len() || ts[p5].token != TokenV::Else {
                } else {
                    lemma_fase_p_bloco(ts, p5 + 1);
                }
            }
        },
    }
}

proof fn lemma_fase_p_while(ts: Seq<SpannedTokenV>, pos: int)
    ensures
        da_fase(p_while(ts, pos).2, Fase::Sintatica),
    decreases ts.len() - pos, 1nat,
{
    broadcast use lemma_da_fase_concat;

    let (_, p1, e1) = esperar(ts, pos, TokenV::While);
    let (_, p2, e2) = esperar(ts, p1, TokenV::LParen);
    let (x, p3, e3) = p_expr(ts, p2, 0);
    lemma_fase_basicos(ts, pos, TokenV::While);
    lemma_fase_basicos(ts, p1, TokenV::LParen);
    lemma_fase_p_expr(ts, p2, 0);
    match x {
        None => {},
        Some(condicao) => {
            let (_, p4, e4) = esperar(ts, p3, TokenV::RParen);
            lemma_fase_basicos(ts, p3, TokenV::RParen);
            if p4 <= pos || p4 > ts.len() {
            } else {
                lemma_fase_p_bloco(ts, p4);
            }
        },
    }
}

proof fn lemma_fase_p_bloco(ts: Seq<SpannedTokenV>, pos: int)
    ensures
        da_fase(p_bloco(ts, pos).2, Fase::Sintatica),
    decreases ts.len() - pos, 5nat,
{
    broadcast use lemma_da_fase_concat;

    let (_, p1, e1) = esperar(ts, pos, TokenV::LBrace);
    lemma_fase_basicos(ts, pos, TokenV::LBrace);
    if p1 < pos || pos < 0 || p1 > ts.len() {
    } else {
        lemma_fase_p_corpo(ts, p1);
    }
}

proof fn lemma_fase_p_corpo(ts: Seq<SpannedTokenV>, pos: int)
    ensures
        da_fase(p_corpo(ts, pos).2, Fase::Sintatica),
    decreases ts.len() - pos, 4nat,
{
    broadcast use lemma_da_fase_concat;

    let (cs, p1, e1) = p_laco(ts, pos, Seq::empty());
    lemma_fase_p_laco(ts, pos, Seq::empty());
    lemma_fase_basicos(ts, p1, TokenV::RBrace);
}

proof fn lemma_fase_p_laco(ts: Seq<SpannedTokenV>, pos: int, acc: Seq<CmdV>)
    ensures
        da_fase(p_laco(ts, pos, acc).2, Fase::Sintatica),
    decreases ts.len() - pos, 3nat,
{
    broadcast use lemma_da_fase_concat;

    if pos < 0 || pos >= ts.len() || ts[pos].token == TokenV::RBrace {
    } else {
        let (c, p1, e1) = p_comando(ts, pos);
        lemma_fase_p_comando(ts, pos);
        let (acc2, p2) = match c {
            Some(cmd) => (acc.push(cmd), p1),
            None => (acc, sincronizar(ts, p1)),
        };
        if p2 <= pos || p2 > ts.len() {
        } else {
            lemma_fase_p_laco(ts, p2, acc2);
        }
    }
}

proof fn lemma_fase_p_declaracoes(ts: Seq<SpannedTokenV>, pos: int, acc: Seq<DeclV>)
    ensures
        da_fase(p_declaracoes(ts, pos, acc).2, Fase::Sintatica),
    decreases ts.len() - pos,
{
    broadcast use lemma_da_fase_concat;

    if pos < 0 || pos > ts.len() || tok_em(ts, pos) != Some(TokenV::Var) {
    } else {
        let (d, p1, e1) = p_declaracao(ts, pos);
        lemma_fase_simples(ts, pos);
        let acc2 = match d {
            Some(x) => acc.push(x),
            None => acc,
        };
        if p1 <= pos || p1 > ts.len() {
        } else {
            lemma_fase_p_declaracoes(ts, p1, acc2);
        }
    }
}

proof fn lemma_fase_p_comandos(ts: Seq<SpannedTokenV>, pos: int, acc: Seq<CmdV>)
    ensures
        da_fase(p_comandos(ts, pos, acc).2, Fase::Sintatica),
    decreases ts.len() - pos,
{
    broadcast use lemma_da_fase_concat;

    if pos < 0 || pos >= ts.len() {
    } else {
        let (c, p1, e1) = p_comando(ts, pos);
        lemma_fase_p_comando(ts, pos);
        let (acc2, p2) = match c {
            Some(cmd) => (acc.push(cmd), p1),
            None => (acc, sincronizar(ts, p1)),
        };
        if p2 <= pos || p2 > ts.len() {
        } else {
            lemma_fase_p_comandos(ts, p2, acc2);
        }
    }
}

/// Every error the parser reports is a syntax error.
pub proof fn lei_erros_sintaticos(ts: Seq<SpannedTokenV>)
    ensures
        da_fase(p_programa(ts).1, Fase::Sintatica),
{
    broadcast use lemma_da_fase_concat;

    let (ds, p1, e1) = p_declaracoes(ts, 0, Seq::empty());
    lemma_fase_p_declaracoes(ts, 0, Seq::empty());
    lemma_fase_p_comandos(ts, p1, Seq::empty());
}

// ─────────────────────────────────────────────────────────────────────────────
// Executable parser
// ─────────────────────────────────────────────────────────────────────────────

/// Whether two tokens are the same token (same kind and same contents).
fn mesmo_token(a: &Token, b: &Token) -> (r: bool)
    ensures
        r == (a@ == b@),
{
    match (a, b) {
        (Token::Var, Token::Var) => true,
        (Token::If, Token::If) => true,
        (Token::Else, Token::Else) => true,
        (Token::While, Token::While) => true,
        (Token::Print, Token::Print) => true,
        (Token::Read, Token::Read) => true,
        (Token::IntType, Token::IntType) => true,
        (Token::BoolType, Token::BoolType) => true,
        (Token::StringType, Token::StringType) => true,
        (Token::True, Token::True) => true,
        (Token::False, Token::False) => true,
        (Token::Eq, Token::Eq) => true,
        (Token::Neq, Token::Neq) => true,
        (Token::Le, Token::Le) => true,
        (Token::Ge, Token::Ge) => true,
        (Token::And, Token::And) => true,
        (Token::Or, Token::Or) => true,
        (Token::Assign, Token::Assign) => true,
        (Token::Plus, Token::Plus) => true,
        (Token::Minus, Token::Minus) => true,
        (Token::Star, Token::Star) => true,
        (Token::Slash, Token::Slash) => true,
        (Token::Mod, Token::Mod) => true,
        (Token::Lt, Token::Lt) => true,
        (Token::Gt, Token::Gt) => true,
        (Token::Not, Token::Not) => true,
        (Token::Semicolon, Token::Semicolon) => true,
        (Token::Colon, Token::Colon) => true,
        (Token::LParen, Token::LParen) => true,
        (Token::RParen, Token::RParen) => true,
        (Token::LBrace, Token::LBrace) => true,
        (Token::RBrace, Token::RBrace) => true,
        (Token::Ident(x), Token::Ident(y)) => *x == *y,
        (Token::Number(x), Token::Number(y)) => *x == *y,
        (Token::StringLit(x), Token::StringLit(y)) => *x == *y,
        _ => false,
    }
}

/// Recursive-descent parser for the language.
///
/// It consumes the tokens from the lexer and builds a `Programa`, gathering
/// syntax errors. On an error inside a command it skips tokens up to a `;` or
/// `}` before parsing the next command, so that several errors are reported
/// in one run.
pub struct Parser {
    tokens: Vec<SpannedToken>,
    pos: usize,
    errors: Vec<PBError>,
}

/// The model of an optional expression.
pub open spec fn opt_expr(r: Option<Expressao>) -> Option<ExprV> {
    match r {
        Some(e) => Some(e@),
        None => None,
    }
}

/// The model of an optional command.
pub open spec fn opt_cmd(r: Option<Comando>) -> Option<CmdV> {
    match r {
        Some(c) => Some(c@),
        None => None,
    }
}

impl Parser {
    /// The token stream being parsed.
    pub closed spec fn ts(self) -> Seq<SpannedTokenV> {
        tokens_v(self.tokens@)
    }

    /// The parser is at the start of its tokens, with no error yet.
    pub closed spec fn inicial(self) -> bool {
        self.pos == 0 && self.errors@.len() == 0
    }

    spec fn posicao(self) -> int {
        self.pos as int
    }

    /// `novo` continues `velho`: same tokens, not moved back, still inside the stream.
    spec fn mantem(novo: Parser, velho: Parser) -> bool {
        &&& novo.tokens@ == velho.tokens@
        &&& velho.pos <= novo.pos <= novo.tokens@.len()
    }

    /// `novo` is `velho` after a rule whose outcome is `s` and whose value is `v`.
    spec fn apos<T>(novo: Parser, velho: Parser, s: Saida<T>, v: Option<T>) -> bool {
        &&& Self::mantem(novo, velho)
        &&& v == s.0
        &&& novo.pos == s.1
        &&& erros_v(novo.errors@) =~= erros_v(velho.errors@) + s.2
    }

    pub fn new(tokens: Vec<SpannedToken>) -> (r: Self)
        ensures
            r.ts() == tokens_v(tokens@),
            r.inicial(),
    {
        Parser { tokens, pos: 0, errors: Vec::new() }
    }

    /// Parses the whole program.
    ///
    /// Returns `Ok(Programa)` when there is no error, and `Err` with every syntax
    /// error, in order, otherwise.
    pub fn parse(self) -> (r: Result<Programa, Vec<PBError>>)
        requires
            self.inicial(),
        ensures
            p_programa(self.ts()).1.len() == 0 ==> (r matches Ok(p) && p@ == p_programa(self.ts()).0),
            p_programa(self.ts()).1.len() > 0 ==> (r matches Err(v) && erros_v(v@) == p_programa(
                self.ts(),
            ).1),
    {
        let mut this = self;
        let prog = this.parse_programa();
        if this.errors.len() == 0 {
            Ok(prog)
        } else {
            Err(this.errors)
        }
    }

    // ── Moving through the token stream ───────────────────────────────────

    /// The current token, not consumed.
    fn peek(&self) -> (r: Option<&Token>)
        ensures
            match r {
                Some(t) => tok_em(self.ts(), self.pos as int) == Some(t@),
                None => tok_em(self.ts(), self.pos as int) is None,
            },
    {
        if self.pos < self.tokens.len() {
            Some(&self.tokens[self.pos].token)
        } else {
            None
        }
    }

    /// Consumes the current token, if any.
    fn advance(&mut self)
        ensures
            final(self).tokens@ == old(self).tokens@,
            final(self).errors@ == old(self).errors@,
            final(self).pos == if old(self).pos < old(self).tokens@.len() {
                old(self).pos + 1
            } else {
                old(self).pos as int
            },
    {
        if self.pos < self.tokens.len() {
            self.pos = self.pos + 1;
        }
    }

    /// Line and column of the current token, for errors.
    fn current_pos(&self) -> (r: (usize, usize))
        ensures
            r.0 == pos_atual(self.ts(), self.pos as int).line,
            r.1 == pos_atual(self.ts(), self.pos as int).col,
    {
        if self.pos < self.tokens.len() {
            (self.tokens[self.pos].line, self.tokens[self.pos].col)
        } else {
            (0, 0)
        }
    }

    /// How an error message names the current token.
    fn encontrado(&self) -> (r: String)
        ensures
            r@ == encontrado(self.ts(), self.pos as int),
    {
        match self.peek() {
            Some(t) => {
                let mut s = String::from_str("'");
                s.append(t.kind_name());
                s.append("'");
                s
            },
            None => String::from_str("fim de arquivo"),
        }
    }

    /// Records a syntax error at the current token.
    fn erro_aqui(&mut self, message: String)
        ensures
            final(self).tokens@ == old(self).tokens@,
            final(self).pos == old(self).pos,
            erros_v(final(self).errors@) == erros_v(old(self).errors@).push(
                erro_sint(message@, old(self).ts(), old(self).pos as int),
            ),
    {
        let (line, col) = self.current_pos();
        self.errors.push(PBError::Syntactic { message, line, col });
        assert(erros_v(self.errors@) =~= erros_v(old(self).errors@).push(
            erro_sint(message@, old(self).ts(), old(self).pos as int),
        ));
    }

    /// Consumes the current token if it is `expected`; otherwise records an
    /// error and returns `false`.
    fn expect(&mut self, expected: &Token) -> (r: bool)
        requires
            old(self).pos <= old(self).tokens@.len(),
        ensures
            Self::mantem(*final(self), *old(self)),
            r == esperar(old(self).ts(), old(self).pos as int, expected@).0,
            final(self).pos == esperar(old(self).ts(), old(self).pos as int, expected@).1,
            erros_v(final(self).errors@) == erros_v(old(self).errors@) + esperar(
                old(self).ts(),
                old(self).pos as int,
                expected@,
            ).2,
    {
        let corresponde = match self.peek() {
            Some(t) => mesmo_token(t, expected),
            None => false,
        };
        if corresponde {
            self.advance();
            assert(erros_v(self.errors@) =~= erros_v(old(self).errors@) + Seq::<ErroV>::empty());
            true
        } else {
            let mut message = String::from_str("Esperado '");
            message.append(expected.kind_name());
            message.append("', encontrado ");
            let found = self.encontrado();
            message.append(found.as_str());
            self.erro_aqui(message);
            false
        }
    }

    /// Consumes an identifier and returns its name and place; records an error otherwise.
    fn expect_ident(&mut self) -> (r: Option<(String, Span)>)
        requires
            old(self).pos <= old(self).tokens@.len(),
        ensures
            Self::apos(
                *final(self),
                *old(self),
                esperar_ident(old(self).ts(), old(self).pos as int),
                match r {
                    Some((n, s)) => Some((n@, s)),
                    None => None,
                },
            ),
    {
        let (line, col) = self.current_pos();
        let nome = match self.peek() {
            Some(Token::Ident(name)) => Some(name.clone()),
            _ => None,
        };
        match nome {
            Some(name) => {
                self.advance();
                assert(erros_v(self.errors@) =~= erros_v(old(self).errors@) + Seq::<ErroV>::empty());
                let sp = Span::new(line, col);
                assert(sp == pos_atual(old(self).ts(), old(self).pos as int));
                assert(tok_em(old(self).ts(), old(self).pos as int) == Some(TokenV::Ident(name@)));
                assert(esperar_ident(old(self).ts(), old(self).pos as int).0 == Some((name@, sp)));
                assert(esperar_ident(old(self).ts(), old(self).pos as int).1 == self.pos);
                assert(Self::mantem(*self, *old(self)));
                assert(erros_v(self.errors@) == erros_v(old(self).errors@) + esperar_ident(old(self).ts(), old(self).pos as int).2);
                Some((name, sp))
            },
            None => {
                let mut message = String::from_str("Esperado identificador, encontrado ");
                let found = self.encontrado();
                message.append(found.as_str());
                self.erro_aqui(message);
                None
            },
        }
    }

    /// Skips to a synchronization point (`;` or `}`, consumed) to recover
    /// from an error in a command.
    fn sync(&mut self)
        requires
            old(self).pos <= old(self).tokens@.len(),
        ensures
            Self::mantem(*final(self), *old(self)),
            final(self).errors@ == old(self).errors@,
            final(self).pos == sincronizar(old(self).ts(), old(self).pos as int),
    {
        let ghost ts = self.ts();
        while self.pos < self.tokens.len()
            invariant
                self.tokens@ == old(self).tokens@,
                self.errors@ == old(self).errors@,
                ts == self.ts(),
                old(self).pos <= self.pos <= self.tokens@.len(),
                sincronizar(ts, old(self).pos as int) == sincronizar(ts, self.pos as int),
            decreases self.tokens@.len() - self.pos,
        {
            let fim = match self.tokens[self.pos].token {
                Token::Semicolon | Token::RBrace => true,
                _ => false,
            };
            self.advance();
            if fim {
                return;
            }
        }
    }


    // ── Program and declarations ──────────────────────────────────────────

    /// `programa → declaração* comando*`
    fn parse_programa(&mut self) -> (r: Programa)
        requires
            old(self).pos == 0,
        ensures
            final(self).tokens@ == old(self).tokens@,
            r@ == p_programa(old(self).ts()).0,
            erros_v(final(self).errors@) == erros_v(old(self).errors@) + p_programa(old(self).ts()).1,
    {
        let ghost ts = self.ts();
        let ghost e0 = erros_v(self.errors@);
        let mut declaracoes: Vec<Declaracao> = Vec::new();
        let mut comandos: Vec<Comando> = Vec::new();

        assert(decls_v(declaracoes@) =~= Seq::<DeclV>::empty());
        assert(e0 + p_declaracoes(ts, 0, Seq::empty()).2 =~= erros_v(self.errors@) + p_declaracoes(ts, 0, Seq::empty()).2);
        // Declarations start with `var`
        loop
            invariant
                self.tokens@ == old(self).tokens@,
                ts == self.ts(),
                self.pos <= self.tokens@.len(),
                ({
                    let alvo = p_declaracoes(ts, 0, Seq::empty());
                    let r = p_declaracoes(ts, self.pos as int, decls_v(declaracoes@));
                    &&& alvo.0 == r.0
                    &&& alvo.1 == r.1
                    &&& e0 + alvo.2 == erros_v(self.errors@) + r.2
                }),
            ensures
                self.tokens@ == old(self).tokens@,
                self.pos <= self.tokens@.len(),
                tok_em(ts, self.pos as int) != Some(TokenV::Var),
                p_declaracoes(ts, 0, Seq::empty()).0 == decls_v(declaracoes@),
                p_declaracoes(ts, 0, Seq::empty()).1 == self.pos,
                erros_v(self.errors@) == e0 + p_declaracoes(ts, 0, Seq::empty()).2,
            decreases self.tokens@.len() - self.pos,
        {
            let eh_var = match self.peek() {
                Some(Token::Var) => true,
                _ => false,
            };
            if !eh_var {
                assert(erros_v(self.errors@) =~= e0 + p_declaracoes(ts, 0, Seq::empty()).2);
                break;
            }
            let ghost antes = erros_v(self.errors@);
            let ghost p0 = self.pos as int;
            let ghost acc = decls_v(declaracoes@);
            match self.parse_declaracao() {
                Some(decl) => {
                    declaracoes.push(decl);
                },
                None => {},
            }
            assert(decls_v(declaracoes@) =~= match p_declaracao(ts, p0).0 {
                Some(x) => acc.push(x),
                None => acc,
            });
        }

        // Commands: whatever remains up to the end
        let ghost p1 = self.pos as int;
        let ghost e1 = erros_v(self.errors@);
        proof {
            lemma_cmds_push(comandos@);
        }
        while self.pos < self.tokens.len()
            invariant
                self.tokens@ == old(self).tokens@,
                ts == self.ts(),
                self.pos <= self.tokens@.len(),
                ({
                    let alvo = p_comandos(ts, p1, Seq::empty());
                    let r = p_comandos(ts, self.pos as int, cmds_v(comandos@));
                    &&& alvo.0 == r.0
                    &&& e1 + alvo.2 == erros_v(self.errors@) + r.2
                }),
            decreases self.tokens@.len() - self.pos,
        {
            let ghost antes = erros_v(self.errors@);
            let ghost p0 = self.pos as int;
            let ghost acc = cmds_v(comandos@);
            match self.parse_comando() {
                Some(cmd) => {
                    proof {
                        lemma_cmds_push_um(comandos@, cmd);
                    }
                    comandos.push(cmd);
                },
                None => {
                    proof {
                        lemma_sincronizar(ts, self.pos as int);
                    }
                    self.sync();
                },
            }
            assert(erros_v(self.errors@) + p_comandos(ts, self.pos as int, cmds_v(comandos@)).2 =~= antes
                + p_comandos(ts, p0, acc).2);
        }
        assert(erros_v(self.errors@) =~= e0 + p_programa(ts).1);
        Programa { declaracoes, comandos }
    }

    /// `declaração → 'var' ID ':' tipo ';'`
    fn parse_declaracao(&mut self) -> (r: Option<Declaracao>)
        requires
            old(self).pos <= old(self).tokens@.len(),
            tok_em(old(self).ts(), old(self).pos as int) == Some(TokenV::Var),
        ensures
            Self::apos(
                *final(self),
                *old(self),
                p_declaracao(old(self).ts(), old(self).pos as int),
                match r {
                    Some(d) => Some(d@),
                    None => None,
                },
            ),
            final(self).pos > old(self).pos,
    {
        let ghost e0 = erros_v(self.errors@);
        self.expect(&Token::Var);
        let (nome, span) = match self.expect_ident() {
            Some(x) => x,
            None => {
                return None;
            },
        };
        self.expect(&Token::Colon);
        let tipo = match self.parse_tipo() {
            Some(t) => t,
            None => {
                return None;
            },
        };
        self.expect(&Token::Semicolon);
        Some(Declaracao { nome, tipo, span })
    }

    /// `tipo → 'int' | 'bool' | 'string'`
    fn parse_tipo(&mut self) -> (r: Option<Tipo>)
        requires
            old(self).pos <= old(self).tokens@.len(),
        ensures
            Self::apos(*final(self), *old(self), p_tipo(old(self).ts(), old(self).pos as int), r),
    {
        let t = match self.peek() {
            Some(Token::IntType) => Some(Tipo::Int),
            Some(Token::BoolType) => Some(Tipo::Bool),
            Some(Token::StringType) => Some(Tipo::String),
            _ => None,
        };
        match t {
            Some(tipo) => {
                self.advance();
                assert(erros_v(self.errors@) =~= erros_v(old(self).errors@) + Seq::<ErroV>::empty());
                Some(tipo)
            },
            None => {
                let mut message = String::from_str(
                    "Esperado tipo ('int', 'bool' ou 'string'), encontrado ",
                );
                let found = self.encontrado();
                message.append(found.as_str());
                self.erro_aqui(message);
                None
            },
        }
    }

    // ── Commands ──────────────────────────────────────────────────────────

    /// `comando → atribuição | stmt_if | stmt_while | stmt_print | stmt_read | bloco`
    fn parse_comando(&mut self) -> (r: Option<Comando>)
        requires
            old(self).pos <= old(self).tokens@.len(),
        ensures
            Self::apos(*final(self), *old(self), p_comando(old(self).ts(), old(self).pos as int), opt_cmd(r)),
            r is Some ==> final(self).pos > old(self).pos,
        decreases old(self).tokens@.len() - old(self).pos, 2nat,
    {
        let inicio = match self.peek() {
            None => {
                assert(erros_v(self.errors@) =~= erros_v(old(self).errors@) + Seq::<ErroV>::empty());
                return None;
            },
            Some(Token::If) => Inicio::Se,
            Some(Token::While) => Inicio::Enquanto,
            Some(Token::Print) => Inicio::Imprime,
            Some(Token::Read) => Inicio::Le,
            Some(Token::LBrace) => Inicio::Bloco,
            Some(Token::Ident(_)) => Inicio::Atribuicao,
            Some(_) => Inicio::Outro,
        };
        match inicio {
            Inicio::Se => self.parse_if(),
            Inicio::Enquanto => self.parse_while(),
            Inicio::Imprime => self.parse_print(),
            Inicio::Le => self.parse_read(),
            Inicio::Bloco => {
                let ghost ts = self.ts();
                let ghost p0 = self.pos as int;
                let r = match self.parse_bloco() {
                    Some(cmds) => Some(Comando::Bloco(cmds)),
                    None => None,
                };
                assert(esperar(ts, p0, TokenV::LBrace).2 =~= Seq::<ErroV>::empty());
                assert(p_bloco(ts, p0).2 =~= p_corpo(ts, p0 + 1).2);
                r
            },
            Inicio::Atribuicao => self.parse_atribuicao(),
            Inicio::Outro => {
                let mut message = String::from_str("Comando inesperado: ");
                let found = self.encontrado();
                message.append(found.as_str());
                self.erro_aqui(message);
                None
            },
        }
    }

    /// `atribuição → ID '=' expressão ';'`
    fn parse_atribuicao(&mut self) -> (r: Option<Comando>)
        requires
            old(self).pos <= old(self).tokens@.len(),
            tok_em(old(self).ts(), old(self).pos as int) matches Some(TokenV::Ident(_)),
        ensures
            Self::apos(*final(self), *old(self), p_atribuicao(old(self).ts(), old(self).pos as int), opt_cmd(r)),
            final(self).pos > old(self).pos,
    {
        let ghost e0 = erros_v(self.errors@);
        let (nome, span) = match self.expect_ident() {
            Some(x) => x,
            None => {
                return None;
            },
        };
        self.expect(&Token::Assign);
        let expr = match self.parse_expressao() {
            Some(e) => e,
            None => {
                return None;
            },
        };
        self.expect(&Token::Semicolon);
        Some(Comando::Atribuicao { nome, expr, span })
    }

    /// `stmt_if → 'if' '(' expressão ')' bloco ('else' bloco)?`
    #[verifier::rlimit(60)]
    #[verifier::spinoff_prover]
    fn parse_if(&mut self) -> (r: Option<Comando>)
        requires
            old(self).pos <= old(self).tokens@.len(),
            tok_em(old(self).ts(), old(self).pos as int) == Some(TokenV::If),
        ensures
            Self::apos(*final(self), *old(self), p_if(old(self).ts(), old(self).pos as int), opt_cmd(r)),
            final(self).pos > old(self).pos,
        decreases old(self).tokens@.len() - old(self).pos, 1nat,
    {
        let ghost ts = self.ts();
        let ghost p0 = self.pos as int;
        let ghost e0 = erros_v(self.errors@);
        let (line, col) = self.current_pos();
        self.expect(&Token::If);
        self.expect(&Token::LParen);
        let condicao = match self.parse_expressao() {
            Some(c) => c,
            None => {
                assert(erros_v(self.errors@) =~= e0 + p_if(ts, p0).2);
                return None;
            },
        };
        self.expect(&Token::RParen);
        assert(self.pos > p0);
        let entao = match self.parse_bloco() {
            Some(b) => b,
            None => {
                return None;
            },
        };
        let tem_else = match self.peek() {
            Some(Token::Else) => true,
            _ => false,
        };
        let senao = if tem_else {
            self.advance();
            self.parse_bloco()
        } else {
            None
        };
        assert(erros_v(self.errors@) =~= e0 + p_if(ts, p0).2);
        Some(Comando::If { condicao, entao, senao, span: Span::new(line, col) })
    }

    /// `stmt_while → 'while' '(' expressão ')' bloco`
    fn parse_while(&mut self) -> (r: Option<Comando>)
        requires
            old(self).pos <= old(self).tokens@.len(),
            tok_em(old(self).ts(), old(self).pos as int) == Some(TokenV::While),
        ensures
            Self::apos(*final(self), *old(self), p_while(old(self).ts(), old(self).pos as int), opt_cmd(r)),
            final(self).pos > old(self).pos,
        decreases old(self).tokens@.len() - old(self).pos, 1nat,
    {
        let (line, col) = self.current_pos();
        self.expect(&Token::While);
        self.expect(&Token::LParen);
        let condicao = match self.parse_expressao() {
            Some(c) => c,
            None => {
                return None;
            },
        };
        self.expect(&Token::RParen);
        let corpo = match self.parse_bloco() {
            Some(b) => b,
            None => {
                return None;
            },
        };
        Some(Comando::While { condicao, corpo, span: Span::new(line, col) })
    }

    /// `stmt_print → 'print' '(' expressão ')' ';'`
    fn parse_print(&mut self) -> (r: Option<Comando>)
        requires
            old(self).pos <= old(self).tokens@.len(),
            tok_em(old(self).ts(), old(self).pos as int) == Some(TokenV::Print),
        ensures
            Self::apos(*final(self), *old(self), p_print(old(self).ts(), old(self).pos as int), opt_cmd(r)),
            final(self).pos > old(self).pos,
    {
        let (line, col) = self.current_pos();
        self.expect(&Token::Print);
        self.expect(&Token::LParen);
        let expr = match self.parse_expressao() {
            Some(e) => e,
            None => {
                return None;
            },
        };
        self.expect(&Token::RParen);
        self.expect(&Token::Semicolon);
        Some(Comando::Print { expr, span: Span::new(line, col) })
    }

    /// `stmt_read → 'read' '(' ID ')' ';'`
    fn parse_read(&mut self) -> (r: Option<Comando>)
        requires
            old(self).pos <= old(self).tokens@.len(),
            tok_em(old(self).ts(), old(self).pos as int) == Some(TokenV::Read),
        ensures
            Self::apos(*final(self), *old(self), p_read(old(self).ts(), old(self).pos as int), opt_cmd(r)),
            final(self).pos > old(self).pos,
    {
        let (line, col) = self.current_pos();
        self.expect(&Token::Read);
        self.expect(&Token::LParen);
        let (nome, _) = match self.expect_ident() {
            Some(x) => x,
            None => {
                return None;
            },
        };
        self.expect(&Token::RParen);
        self.expect(&Token::Semicolon);
        Some(Comando::Read { nome, span: Span::new(line, col) })
    }

    /// `bloco → '{' comando* '}'`
    fn parse_bloco(&mut self) -> (r: Option<Vec<Comando>>)
        requires
            old(self).pos <= old(self).tokens@.len(),
        ensures
            Self::mantem(*final(self), *old(self)),
            r matches Some(v) && cmds_v(v@) == p_bloco(old(self).ts(), old(self).pos as int).0,
            final(self).pos == p_bloco(old(self).ts(), old(self).pos as int).1,
            erros_v(final(self).errors@) == erros_v(old(self).errors@) + p_bloco(
                old(self).ts(),
                old(self).pos as int,
            ).2,
            tok_em(old(self).ts(), old(self).pos as int) == Some(TokenV::LBrace) ==> final(self).pos
                > old(self).pos,
        decreases old(self).tokens@.len() - old(self).pos, if tok_em(
            old(self).ts(),
            old(self).pos as int,
        ) == Some(TokenV::LBrace) {
            0nat
        } else {
            3nat
        },
    {
        let ghost ts = self.ts();
        let ghost e0 = erros_v(self.errors@);
        let ghost p0 = self.pos as int;
        self.expect(&Token::LBrace);
        let ghost p1 = self.pos as int;
        let ghost e1 = erros_v(self.errors@);
        let mut cmds: Vec<Comando> = Vec::new();
        assert(cmds_v(cmds@) =~= Seq::<CmdV>::empty());
        loop
            invariant
                self.tokens@ == old(self).tokens@,
                ts == self.ts(),
                ts == old(self).ts(),
                p0 == old(self).pos,
                p0 <= p1 <= self.pos <= self.tokens@.len(),
                p1 == esperar(ts, p0, TokenV::LBrace).1,
                e1 == e0 + esperar(ts, p0, TokenV::LBrace).2,
                tok_em(ts, p0) == Some(TokenV::LBrace) ==> p1 == p0 + 1,
                ({
                    let alvo = p_laco(ts, p1, Seq::empty());
                    let r = p_laco(ts, self.pos as int, cmds_v(cmds@));
                    &&& alvo.0 == r.0
                    &&& alvo.1 == r.1
                    &&& e1 + alvo.2 == erros_v(self.errors@) + r.2
                }),
            ensures
                self.tokens@ == old(self).tokens@,
                p1 <= self.pos <= self.tokens@.len(),
                p_laco(ts, p1, Seq::empty()).0 == cmds_v(cmds@),
                p_laco(ts, p1, Seq::empty()).1 == self.pos,
                erros_v(self.errors@) == e1 + p_laco(ts, p1, Seq::empty()).2,
            decreases self.tokens@.len() - self.pos,
        {
            let continuar = match self.peek() {
                Some(Token::RBrace) => false,
                Some(_) => true,
                None => false,
            };
            if !continuar {
                assert(erros_v(self.errors@) =~= e1 + p_laco(ts, p1, Seq::empty()).2);
                break;
            }
            let ghost antes = erros_v(self.errors@);
            let ghost q0 = self.pos as int;
            let ghost acc = cmds_v(cmds@);
            match self.parse_comando() {
                Some(cmd) => {
                    proof {
                        lemma_cmds_push_um(cmds@, cmd);
                    }
                    cmds.push(cmd);
                },
                None => {
                    proof {
                        lemma_sincronizar(ts, self.pos as int);
                    }
                    self.sync();
                },
            }
            assert(erros_v(self.errors@) + p_laco(ts, self.pos as int, cmds_v(cmds@)).2 =~= antes
                + p_laco(ts, q0, acc).2);
        }
        let ghost e2 = erros_v(self.errors@);
        self.expect(&Token::RBrace);
        assert(erros_v(self.errors@) =~= e0 + p_bloco(ts, p0).2);
        Some(cmds)
    }

    // ── Expressions ───────────────────────────────────────────────────────
    //
    // Each level calls the next one (higher precedence):
    //   expressao → exp_or → exp_and → exp_igualdade → exp_relacional
    //             → exp_aditiva → exp_multiplicativa → exp_unaria → primario

    /// `expressão → exp_or`
    fn parse_expressao(&mut self) -> (r: Option<Expressao>)
        requires
            old(self).pos <= old(self).tokens@.len(),
        ensures
            Self::apos(*final(self), *old(self), p_expr(old(self).ts(), old(self).pos as int, 0), opt_expr(r)),
        decreases old(self).tokens@.len() - old(self).pos, 27nat,
    {
        self.parse_exp_or()
    }

    /// The expression of precedence level `n`.
    fn parse_nivel(&mut self, n: u8) -> (r: Option<Expressao>)
        requires
            old(self).pos <= old(self).tokens@.len(),
            1 <= n <= 7,
        ensures
            Self::apos(
                *final(self),
                *old(self),
                p_expr(old(self).ts(), old(self).pos as int, n as nat),
                opt_expr(r),
            ),
        decreases old(self).tokens@.len() - old(self).pos, 3 * (8 - n) + 3,
    {
        if n == 1 {
            self.parse_exp_and()
        } else if n == 2 {
            self.parse_exp_igualdade()
        } else if n == 3 {
            self.parse_exp_relacional()
        } else if n == 4 {
            self.parse_exp_aditiva()
        } else if n == 5 {
            self.parse_exp_multiplicativa()
        } else if n == 6 {
            self.parse_exp_unaria()
        } else {
            self.parse_primario()
        }
    }

    /// The binary operator of level `n` at the current token, if any.
    fn op_atual(&self, n: u8) -> (r: Option<OpBin>)
        ensures
            r == match tok_em(self.ts(), self.pos as int) {
                Some(t) => op_nivel(n as nat, t),
                None => None,
            },
    {
        match self.peek() {
            None => None,
            Some(t) => {
                if n == 0 {
                    match t {
                        Token::Or => Some(OpBin::Or),
                        _ => None,
                    }
                } else if n == 1 {
                    match t {
                        Token::And => Some(OpBin::And),
                        _ => None,
                    }
                } else if n == 2 {
                    match t {
                        Token::Eq => Some(OpBin::Eq),
                        Token::Neq => Some(OpBin::Neq),
                        _ => None,
                    }
                } else if n == 3 {
                    match t {
                        Token::Gt => Some(OpBin::Gt),
                        Token::Lt => Some(OpBin::Lt),
                        Token::Ge => Some(OpBin::Ge),
                        Token::Le => Some(OpBin::Le),
                        _ => None,
                    }
                } else if n == 4 {
                    match t {
                        Token::Plus => Some(OpBin::Add),
                        Token::Minus => Some(OpBin::Sub),
                        _ => None,
                    }
                } else if n == 5 {
                    match t {
                        Token::Star => Some(OpBin::Mul),
                        Token::Slash => Some(OpBin::Div),
                        Token::Mod => Some(OpBin::Mod),
                        _ => None,
                    }
                } else {
                    None
                }
            },
        }
    }

    /// `(op_n exp_{n+1})*` after the left operand `esq`: each operator folds the
    /// tree built so far into the left side of a new node.
    fn parse_resto(&mut self, n: u8, primeiro: Expressao) -> (r: Option<Expressao>)
        requires
            old(self).pos <= old(self).tokens@.len(),
            n <= 5,
        ensures
            Self::apos(
                *final(self),
                *old(self),
                p_resto(old(self).ts(), old(self).pos as int, n as nat, primeiro@),
                opt_expr(r),
            ),
        decreases old(self).tokens@.len() - old(self).pos, 3 * (8 - n) + 1,
    {
        let ghost ts = self.ts();
        let ghost e0 = erros_v(self.errors@);
        let ghost p0 = self.pos as int;
        let ghost alvo = p_resto(ts, p0, n as nat, primeiro@);
        let ghost esq_ini = primeiro@;
        let mut esq = primeiro;
        assert(e0 + alvo.2 =~= erros_v(self.errors@) + p_resto(ts, self.pos as int, n as nat, esq@).2);
        loop
            invariant
                self.tokens@ == old(self).tokens@,
                ts == self.ts(),
                p0 <= self.pos <= self.tokens@.len(),
                n <= 5,
                e0 == erros_v(old(self).errors@),
                p0 == old(self).pos,
                ts == old(self).ts(),
                alvo == p_resto(ts, p0, n as nat, esq_ini),
                esq_ini == primeiro@,
                ({
                    let r = p_resto(ts, self.pos as int, n as nat, esq@);
                    &&& alvo.0 == r.0
                    &&& alvo.1 == r.1
                    &&& e0 + alvo.2 == erros_v(self.errors@) + r.2
                }),
            ensures
                self.tokens@ == old(self).tokens@,
                p0 <= self.pos <= self.tokens@.len(),
                alvo.0 == Some(esq@),
                alvo.1 == self.pos,
                erros_v(self.errors@) == e0 + alvo.2,
            decreases self.tokens@.len() - self.pos,
        {
            let (line, col) = self.current_pos();
            let op = match self.op_atual(n) {
                Some(op) => op,
                None => {
                    assert(erros_v(self.errors@) =~= e0 + alvo.2);
                    break;
                },
            };
            let ghost antes = erros_v(self.errors@);
            let ghost q0 = self.pos as int;
            let ghost esq0 = esq@;
            self.advance();
            let dir = match self.parse_nivel(n + 1) {
                Some(d) => d,
                None => {
                    assert(p_resto(ts, q0, n as nat, esq0).1 == self.pos);
                    assert(p_resto(ts, q0, n as nat, esq0).0 is None);
                    assert(erros_v(self.errors@) =~= e0 + alvo.2);
                    assert(Self::mantem(*self, *old(self)));
                    assert(alvo.0 is None);
                    assert(Self::apos(*self, *old(self), alvo, None::<ExprV>));
                    assert(alvo == p_resto(old(self).ts(), old(self).pos as int, n as nat, esq_ini));
                    assert(opt_expr(None) == alvo.0);
                    return None;
                },
            };
            esq = Expressao::BinOp { op, esq: Box::new(esq), dir: Box::new(dir), span: Span::new(line, col) };
            assert(erros_v(self.errors@) + p_resto(ts, self.pos as int, n as nat, esq@).2 =~= antes
                + p_resto(ts, q0, n as nat, esq0).2);
        }
        Some(esq)
    }

    /// `exp_or → exp_and ('||' exp_and)*`
    fn parse_exp_or(&mut self) -> (r: Option<Expressao>)
        requires
            old(self).pos <= old(self).tokens@.len(),
        ensures
            Self::apos(*final(self), *old(self), p_expr(old(self).ts(), old(self).pos as int, 0), opt_expr(r)),
        decreases old(self).tokens@.len() - old(self).pos, 26nat,
    {
        let ghost e0 = erros_v(self.errors@);
        let esq = match self.parse_exp_and() {
            Some(e) => e,
            None => {
                return None;
            },
        };
        let r = self.parse_resto(0, esq);
        assert(erros_v(self.errors@) =~= e0 + p_expr(old(self).ts(), old(self).pos as int, 0).2);
        r
    }

    /// `exp_and → exp_igualdade ('&&' exp_igualdade)*`
    fn parse_exp_and(&mut self) -> (r: Option<Expressao>)
        requires
            old(self).pos <= old(self).tokens@.len(),
        ensures
            Self::apos(*final(self), *old(self), p_expr(old(self).ts(), old(self).pos as int, 1), opt_expr(r)),
        decreases old(self).tokens@.len() - old(self).pos, 23nat,
    {
        let ghost e0 = erros_v(self.errors@);
        let esq = match self.parse_exp_igualdade() {
            Some(e) => e,
            None => {
                return None;
            },
        };
        let r = self.parse_resto(1, esq);
        assert(erros_v(self.errors@) =~= e0 + p_expr(old(self).ts(), old(self).pos as int, 1).2);
        r
    }

    /// `exp_igualdade → exp_relacional (('==' | '!=') exp_relacional)*`
    fn parse_exp_igualdade(&mut self) -> (r: Option<Expressao>)
        requires
            old(self).pos <= old(self).tokens@.len(),
        ensures
            Self::apos(*final(self), *old(self), p_expr(old(self).ts(), old(self).pos as int, 2), opt_expr(r)),
        decreases old(self).tokens@.len() - old(self).pos, 20nat,
    {
        let ghost e0 = erros_v(self.errors@);
        let esq = match self.parse_exp_relacional() {
            Some(e) => e,
            None => {
                return None;
            },
        };
        let r = self.parse_resto(2, esq);
        assert(erros_v(self.errors@) =~= e0 + p_expr(old(self).ts(), old(self).pos as int, 2).2);
        r
    }

    /// `exp_relacional → exp_aditiva (('>' | '<' | '>=' | '<=') exp_aditiva)*`
    fn parse_exp_relacional(&mut self) -> (r: Option<Expressao>)
        requires
            old(self).pos <= old(self).tokens@.len(),
        ensures
            Self::apos(*final(self), *old(self), p_expr(old(self).ts(), old(self).pos as int, 3), opt_expr(r)),
        decreases old(self).tokens@.len() - old(self).pos, 17nat,
    {
        let ghost e0 = erros_v(self.errors@);
        let esq = match self.parse_exp_aditiva() {
            Some(e) => e,
            None => {
                return None;
            },
        };
        let r = self.parse_resto(3, esq);
        assert(erros_v(self.errors@) =~= e0 + p_expr(old(self).ts(), old(self).pos as int, 3).2);
        r
    }

    /// `exp_aditiva → exp_multiplicativa (('+' | '-') exp_multiplicativa)*`
    fn parse_exp_aditiva(&mut self) -> (r: Option<Expressao>)
        requires
            old(self).pos <= old(self).tokens@.len(),
        ensures
            Self::apos(*final(self), *old(self), p_expr(old(self).ts(), old(self).pos as int, 4), opt_expr(r)),
        decreases old(self).tokens@.len() - old(self).pos, 14nat,
    {
        let ghost e0 = erros_v(self.errors@);
        let esq = match self.parse_exp_multiplicativa() {
            Some(e) => e,
            None => {
                return None;
            },
        };
        let r = self.parse_resto(4, esq);
        assert(erros_v(self.errors@) =~= e0 + p_expr(old(self).ts(), old(self).pos as int, 4).2);
        r
    }

    /// `exp_multiplicativa → exp_unaria (('*' | '/' | '%') exp_unaria)*`
    fn parse_exp_multiplicativa(&mut self) -> (r: Option<Expressao>)
        requires
            old(self).pos <= old(self).tokens@.len(),
        ensures
            Self::apos(*final(self), *old(self), p_expr(old(self).ts(), old(self).pos as int, 5), opt_expr(r)),
        decreases old(self).tokens@.len() - old(self).pos, 11nat,
    {
        let ghost e0 = erros_v(self.errors@);
        let esq = match self.parse_exp_unaria() {
            Some(e) => e,
            None => {
                return None;
            },
        };
        let r = self.parse_resto(5, esq);
        assert(erros_v(self.errors@) =~= e0 + p_expr(old(self).ts(), old(self).pos as int, 5).2);
        r
    }

    /// `exp_unaria → ('!' | '-') exp_unaria | primário`
    fn parse_exp_unaria(&mut self) -> (r: Option<Expressao>)
        requires
            old(self).pos <= old(self).tokens@.len(),
        ensures
            Self::apos(*final(self), *old(self), p_expr(old(self).ts(), old(self).pos as int, 6), opt_expr(r)),
        decreases old(self).tokens@.len() - old(self).pos, 8nat,
    {
        let (line, col) = self.current_pos();
        let op = match self.peek() {
            Some(Token::Not) => Some(OpUn::Not),
            Some(Token::Minus) => Some(OpUn::Neg),
            _ => None,
        };
        match op {
            Some(op) => {
                self.advance();
                let operando = match self.parse_exp_unaria() {
                    Some(o) => o,
                    None => {
                        return None;
                    },
                };
                Some(Expressao::UnOp { op, operando: Box::new(operando), span: Span::new(line, col) })
            },
            None => self.parse_primario(),
        }
    }

    /// `primário → INTEIRO | 'true' | 'false' | STRING | ID | '(' expressão ')'`
    fn parse_primario(&mut self) -> (r: Option<Expressao>)
        requires
            old(self).pos <= old(self).tokens@.len(),
        ensures
            Self::apos(*final(self), *old(self), p_expr(old(self).ts(), old(self).pos as int, 7), opt_expr(r)),
        decreases old(self).tokens@.len() - old(self).pos, 5nat,
    {
        let (line, col) = self.current_pos();
        let p = match self.peek() {
            None => Primario::Invalido,
            Some(Token::Number(n)) => Primario::Numero(*n),
            Some(Token::True) => Primario::Verdadeiro,
            Some(Token::False) => Primario::Falso,
            Some(Token::StringLit(s)) => Primario::Texto(s.clone()),
            Some(Token::Ident(name)) => Primario::Nome(name.clone()),
            Some(Token::LParen) => Primario::Parenteses,
            Some(_) => Primario::Invalido,
        };
        let span = Span::new(line, col);
        match p {
            Primario::Numero(n) => {
                self.advance();
                assert(erros_v(self.errors@) =~= erros_v(old(self).errors@) + Seq::<ErroV>::empty());
                Some(Expressao::LitInt(n, span))
            },
            Primario::Verdadeiro => {
                self.advance();
                assert(erros_v(self.errors@) =~= erros_v(old(self).errors@) + Seq::<ErroV>::empty());
                Some(Expressao::LitBool(true, span))
            },
            Primario::Falso => {
                self.advance();
                assert(erros_v(self.errors@) =~= erros_v(old(self).errors@) + Seq::<ErroV>::empty());
                Some(Expressao::LitBool(false, span))
            },
            Primario::Texto(s) => {
                self.advance();
                assert(erros_v(self.errors@) =~= erros_v(old(self).errors@) + Seq::<ErroV>::empty());
                Some(Expressao::LitString(s, span))
            },
            Primario::Nome(name) => {
                self.advance();
                assert(erros_v(self.errors@) =~= erros_v(old(self).errors@) + Seq::<ErroV>::empty());
                Some(Expressao::Var(name, span))
            },
            Primario::Parenteses => {
                let ghost e0 = erros_v(self.errors@);
                self.advance();
                let expr = match self.parse_expressao() {
                    Some(e) => e,
                    None => {
                        return None;
                    },
                };
                self.expect(&Token::RParen);
                assert(erros_v(self.errors@) =~= e0 + p_expr(old(self).ts(), old(self).pos as int, 7).2);
                Some(expr)
            },
            Primario::Invalido => {
                let mut message = String::from_str("Expressão inválida: encontrado ");
                let found = self.encontrado();
                message.append(found.as_str());
                self.erro_aqui(message);
                None
            },
        }
    }
}

/// How a command starts.
enum Inicio {
    Se,
    Enquanto,
    Imprime,
    Le,
    Bloco,
    Atribuicao,
    Outro,
}

/// What the current token gives as a primary expression.
enum Primario {
    Numero(i64),
    Verdadeiro,
    Falso,
    Texto(String),
    Nome(String),
    Parenteses,
    Invalido,
}


/// Recovery never moves back, and it consumes at least one token when there is one.
proof fn lemma_sincronizar(ts: Seq<SpannedTokenV>, pos: int)
    requires
        0 <= pos <= ts.len(),
    ensures
        pos <= sincronizar(ts, pos) <= ts.len(),
        pos < ts.len() ==> pos < sincronizar(ts, pos),
    decreases ts.len() - pos,
{
    if pos < ts.len() {
        lemma_sincronizar(ts, pos + 1);
    }
}

/// The model of a list of commands grows by one model when a command is added.
proof fn lemma_cmds_push_um(s: Seq<Comando>, c: Comando)
    ensures
        cmds_v(s.push(c)) == cmds_v(s).push(cmd_v(c)),
{
    assert(s.push(c).subrange(0, s.len() as int) =~= s);
}

proof fn lemma_cmds_push(s: Seq<Comando>)
    ensures
        s.len() == 0 ==> cmds_v(s) == Seq::<CmdV>::empty(),
{
}

/// Parses `tokens` and returns the AST or every syntax error.
pub fn parse(tokens: Vec<SpannedToken>) -> (r: Result<Programa, Vec<PBError>>)
    ensures
        p_programa(tokens_v(tokens@)).1.len() == 0 ==> (r matches Ok(p) && p@ == p_programa(
            tokens_v(tokens@),
        ).0),
        p_programa(tokens_v(tokens@)).1.len() > 0 ==> (r matches Err(v) && erros_v(v@) == p_programa(
            tokens_v(tokens@),
        ).1),
{
    Parser::new(tokens).parse()
}

} // verus!
