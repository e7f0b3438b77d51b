use vstd::prelude::*;

use crate::error::{erros_v, ErroV, Fase, PBError};
use crate::texto::{decimal_spec, digito, string_de_intervalo};

verus! {

// ─────────────────────────────────────────────────────────────────────────────
// Token
// ─────────────────────────────────────────────────────────────────────────────

/// All tokens of the language.
///
/// The lexer picks the longest match at each position; between matches of the
/// same length a keyword wins over an identifier.
#[derive(Debug, PartialEq, Clone)]
pub enum Token {
    Var,
    If,
    Else,
    While,
    Print,
    Read,
    IntType,
    BoolType,
    StringType,
    True,
    False,
    Ident(String),
    Number(i64),
    StringLit(String),
    Eq,
    Neq,
    Le,
    Ge,
    And,
    Or,
    Assign,
    Plus,
    Minus,
    Star,
    Slash,
    Mod,
    Lt,
    Gt,
    Not,
    Semicolon,
    Colon,
    LParen,
    RParen,
    LBrace,
    RBrace,
}

/// Model of a token: the text of identifiers and string literals as character sequences.
pub enum TokenV {
    Var,
    If,
    Else,
    While,
    Print,
    Read,
    IntType,
    BoolType,
    StringType,
    True,
    False,
    Ident(Seq<char>),
    Number(i64),
    StringLit(Seq<char>),
    Eq,
    Neq,
    Le,
    Ge,
    And,
    Or,
    Assign,
    Plus,
    Minus,
    Star,
    Slash,
    Mod,
    Lt,
    Gt,
    Not,
    Semicolon,
    Colon,
    LParen,
    RParen,
    LBrace,
    RBrace,
}

impl View for Token {
    type V = TokenV;

    open spec fn view(&self) -> TokenV {
        match self {
            Token::Var => TokenV::Var,
            Token::If => TokenV::If,
            Token::Else => TokenV::Else,
            Token::While => TokenV::While,
            Token::Print => TokenV::Print,
            Token::Read => TokenV::Read,
            Token::IntType => TokenV::IntType,
            Token::BoolType => TokenV::BoolType,
            Token::StringType => TokenV::StringType,
            Token::True => TokenV::True,
            Token::False => TokenV::False,
            Token::Ident(s) => TokenV::Ident(s@),
            Token::Number(n) => TokenV::Number(*n),
            Token::StringLit(s) => TokenV::StringLit(s@),
            Token::Eq => TokenV::Eq,
            Token::Neq => TokenV::Neq,
            Token::Le => TokenV::Le,
            Token::Ge => TokenV::Ge,
            Token::And => TokenV::And,
            Token::Or => TokenV::Or,
            Token::Assign => TokenV::Assign,
            Token::Plus => TokenV::Plus,
            Token::Minus => TokenV::Minus,
            Token::Star => TokenV::Star,
            Token::Slash => TokenV::Slash,
            Token::Mod => TokenV::Mod,
            Token::Lt => TokenV::Lt,
            Token::Gt => TokenV::Gt,
            Token::Not => TokenV::Not,
            Token::Semicolon => TokenV::Semicolon,
            Token::Colon => TokenV::Colon,
            Token::LParen => TokenV::LParen,
            Token::RParen => TokenV::RParen,
            Token::LBrace => TokenV::LBrace,
            Token::RBrace => TokenV::RBrace,
        }
    }
}

/// Readable name of a token kind, used in parser error messages.
pub open spec fn nome_do_tipo(t: TokenV) -> Seq<char> {
    match t {
        TokenV::Var => "var"@,
        TokenV::If => "if"@,
        TokenV::Else => "else"@,
        TokenV::While => "while"@,
        TokenV::Print => "print"@,
        TokenV::Read => "read"@,
        TokenV::IntType => "int"@,
        TokenV::BoolType => "bool"@,
        TokenV::StringType => "string"@,
        TokenV::True => "true"@,
        TokenV::False => "false"@,
        TokenV::Ident(_) => "identificador"@,
        TokenV::Number(_) => "literal inteiro"@,
        TokenV::StringLit(_) => "literal string"@,
        TokenV::Eq => "=="@,
        TokenV::Neq => "!="@,
        TokenV::Le => "<="@,
        TokenV::Ge => ">="@,
        TokenV::And => "&&"@,
        TokenV::Or => "||"@,
        TokenV::Assign => "="@,
        TokenV::Plus => "+"@,
        TokenV::Minus => "-"@,
        TokenV::Star => "*"@,
        TokenV::Slash => "/"@,
        TokenV::Mod => "%"@,
        TokenV::Lt => "<"@,
        TokenV::Gt => ">"@,
        TokenV::Not => "!"@,
        TokenV::Semicolon => ";"@,
        TokenV::Colon => ":"@,
        TokenV::LParen => "("@,
        TokenV::RParen => ")"@,
        TokenV::LBrace => "{"@,
        TokenV::RBrace => "}"@,
    }
}

impl Token {
    /// Readable name of the token kind, used in parser error messages
    /// ("esperado ';', encontrado 'identificador'").
    pub fn kind_name(&self) -> (r: &'static str)
        ensures
            r@ == nome_do_tipo(self@),
    {
        match self {
            Token::Var => "var",
            Token::If => "if",
            Token::Else => "else",
            Token::While => "while",
            Token::Print => "print",
            Token::Read => "read",
            Token::IntType => "int",
            Token::BoolType => "bool",
            Token::StringType => "string",
            Token::True => "true",
            Token::False => "false",
            Token::Ident(_) => "identificador",
            Token::Number(_) => "literal inteiro",
            Token::StringLit(_) => "literal string",
            Token::Eq => "==",
            Token::Neq => "!=",
            Token::Le => "<=",
            Token::Ge => ">=",
            Token::And => "&&",
            Token::Or => "||",
            Token::Assign => "=",
            Token::Plus => "+",
            Token::Minus => "-",
            Token::Star => "*",
            Token::Slash => "/",
            Token::Mod => "%",
            Token::Lt => "<",
            Token::Gt => ">",
            Token::Not => "!",
            Token::Semicolon => ";",
            Token::Colon => ":",
            Token::LParen => "(",
            Token::RParen => ")",
            Token::LBrace => "{",
            Token::RBrace => "}",
        }
    }
}

// ─────────────────────────────────────────────────────────────────────────────
// Token with its place in the source
// ─────────────────────────────────────────────────────────────────────────────

/// A token with its place in the source text.
#[derive(Debug, Clone)]
pub struct SpannedToken {
    pub token: Token,
    /// The exact text of the token in the source (e.g. `"while"`, `"42"`, `"x"`).
    pub lexeme: String,
    /// 1-based line.
    pub line: usize,
    /// 1-based column (byte offset within the line).
    pub col: usize,
}

/// Model of a token with its place.
pub struct SpannedTokenV {
    pub token: TokenV,
    pub lexeme: Seq<char>,
    pub line: usize,
    pub col: usize,
}

impl View for SpannedToken {
    type V = SpannedTokenV;

    open spec fn view(&self) -> SpannedTokenV {
        SpannedTokenV { token: self.token@, lexeme: self.lexeme@, line: self.line, col: self.col }
    }
}

/// Model of a token stream.
pub open spec fn tokens_v(s: Seq<SpannedToken>) -> Seq<SpannedTokenV> {
    Seq::new(s.len(), |i: int| s[i]@)
}

// ─────────────────────────────────────────────────────────────────────────────
// The token grammar, character by character
// ─────────────────────────────────────────────────────────────────────────────

/// Blank characters, which separate tokens and are dropped.
pub open spec fn eh_espaco(c: char) -> bool {
    c == ' ' || c == '\t' || c == '\r' || c == '\n' || c == '\x0C'
}

pub open spec fn eh_digito(c: char) -> bool {
    '0' <= c && c <= '9'
}

/// First character of an identifier: `[a-zA-Z_]`.
pub open spec fn eh_inicio_ident(c: char) -> bool {
    ('a' <= c && c <= 'z') || ('A' <= c && c <= 'Z') || c == '_'
}

/// Later character of an identifier: `[a-zA-Z0-9_]`.
pub open spec fn eh_ident(c: char) -> bool {
    eh_inicio_ident(c) || eh_digito(c)
}

/// The runs of characters that the lexer consumes greedily.
#[derive(Clone, Copy, PartialEq, Eq, Structural)]
pub enum Classe {
    /// Blanks.
    Espaco,
    /// Identifier characters.
    Ident,
    /// Decimal digits.
    Digito,
    /// Anything but a line break (the body of a `//` comment).
    Comentario,
    /// Anything but `"` or a line break (the body of a string literal).
    Texto,
}

pub open spec fn pertence(c: char, k: Classe) -> bool {
    match k {
        Classe::Espaco => eh_espaco(c),
        Classe::Ident => eh_ident(c),
        Classe::Digito => eh_digito(c),
        Classe::Comentario => c != '\n',
        Classe::Texto => c != '"' && c != '\n',
    }
}

/// The end of the longest run of class `k` that starts at `i`.
pub open spec fn avanca(src: Seq<char>, i: int, k: Classe) -> int
    decreases src.len() - i,
{
    if 0 <= i < src.len() && pertence(src[i], k) {
        avanca(src, i + 1, k)
    } else {
        i
    }
}

/// The value of a run of decimal digits.
pub open spec fn valor(s: Seq<char>) -> nat
    decreases s.len(),
{
    if s.len() == 0 {
        0
    } else {
        valor(s.drop_last()) * 10 + ((s.last() as int - '0' as int) as nat)
    }
}

/// The token of a word: a keyword, or else an identifier.
pub open spec fn palavra(w: Seq<char>) -> TokenV {
    if w == "var"@ {
        TokenV::Var
    } else if w == "if"@ {
        TokenV::If
    } else if w == "else"@ {
        TokenV::Else
    } else if w == "while"@ {
        TokenV::While
    } else if w == "print"@ {
        TokenV::Print
    } else if w == "read"@ {
        TokenV::Read
    } else if w == "int"@ {
        TokenV::IntType
    } else if w == "bool"@ {
        TokenV::BoolType
    } else if w == "string"@ {
        TokenV::StringType
    } else if w == "true"@ {
        TokenV::True
    } else if w == "false"@ {
        TokenV::False
    } else {
        TokenV::Ident(w)
    }
}

/// The reserved words of the language.
pub open spec fn eh_reservada(w: Seq<char>) -> bool {
    w == "var"@ || w == "if"@ || w == "else"@ || w == "while"@ || w == "print"@ || w == "read"@
        || w == "int"@ || w == "bool"@ || w == "string"@ || w == "true"@ || w == "false"@
}

/// What the lexer does at one position: skip a run, produce a token, or report
/// an error; each ends at the position given.
pub enum Passo {
    Pula(int),
    Tok(TokenV, int),
    Erro(int),
}

/// The token of a single character that is a token by itself, if any.
pub open spec fn simples(c: char) -> Option<TokenV> {
    if c == '+' {
        Some(TokenV::Plus)
    } else if c == '-' {
        Some(TokenV::Minus)
    } else if c == '*' {
        Some(TokenV::Star)
    } else if c == '%' {
        Some(TokenV::Mod)
    } else if c == ';' {
        Some(TokenV::Semicolon)
    } else if c == ':' {
        Some(TokenV::Colon)
    } else if c == '(' {
        Some(TokenV::LParen)
    } else if c == ')' {
        Some(TokenV::RParen)
    } else if c == '{' {
        Some(TokenV::LBrace)
    } else if c == '}' {
        Some(TokenV::RBrace)
    } else {
        None
    }
}

/// Whether the character after position `pos` is `c`.
pub open spec fn seguido_de(src: Seq<char>, pos: int, c: char) -> bool {
    pos + 1 < src.len() && src[pos + 1] == c
}

/// The longest match at `pos` (which must be inside `src`):
/// - blanks and `//` comments are skipped;
/// - a word is a keyword if it is one, else an identifier;
/// - a run of digits is a number, or an error if it does not fit in an `i64`;
/// - `"..."` without a line break is a string literal; an unclosed one is an error
///   that runs up to the line break or the end of the text;
/// - two-character operators win over their one-character prefixes;
/// - a lone `&` or `|`, or any other character, is an error of one character.
pub open spec fn passo(src: Seq<char>, pos: int) -> Passo {
    let c = src[pos];
    if eh_espaco(c) {
        Passo::Pula(avanca(src, pos, Classe::Espaco))
    } else if c == '/' {
        if seguido_de(src, pos, '/') {
            Passo::Pula(avanca(src, pos, Classe::Comentario))
        } else {
            Passo::Tok(TokenV::Slash, pos + 1)
        }
    } else if eh_inicio_ident(c) {
        let e = avanca(src, pos, Classe::Ident);
        Passo::Tok(palavra(src.subrange(pos, e)), e)
    } else if eh_digito(c) {
        let e = avanca(src, pos, Classe::Digito);
        let v = valor(src.subrange(pos, e));
        if v <= i64::MAX {
            Passo::Tok(TokenV::Number(v as i64), e)
        } else {
            Passo::Erro(e)
        }
    } else if c == '"' {
        let q = avanca(src, pos + 1, Classe::Texto);
        if q < src.len() && src[q] == '"' {
            Passo::Tok(TokenV::StringLit(src.subrange(pos + 1, q)), q + 1)
        } else {
            Passo::Erro(q)
        }
    } else if c == '=' {
        if seguido_de(src, pos, '=') {
            Passo::Tok(TokenV::Eq, pos + 2)
        } else {
            Passo::Tok(TokenV::Assign, pos + 1)
        }
    } else if c == '!' {
        if seguido_de(src, pos, '=') {
            Passo::Tok(TokenV::Neq, pos + 2)
        } else {
            Passo::Tok(TokenV::Not, pos + 1)
        }
    } else if c == '<' {
        if seguido_de(src, pos, '=') {
            Passo::Tok(TokenV::Le, pos + 2)
        } else {
            Passo::Tok(TokenV::Lt, pos + 1)
        }
    } else if c == '>' {
        if seguido_de(src, pos, '=') {
            Passo::Tok(TokenV::Ge, pos + 2)
        } else {
            Passo::Tok(TokenV::Gt, pos + 1)
        }
    } else if c == '&' {
        if seguido_de(src, pos, '&') {
            Passo::Tok(TokenV::And, pos + 2)
        } else {
            Passo::Erro(pos + 1)
        }
    } else if c == '|' {
        if seguido_de(src, pos, '|') {
            Passo::Tok(TokenV::Or, pos + 2)
        } else {
            Passo::Erro(pos + 1)
        }
    } else {
        match simples(c) {
            Some(t) => Passo::Tok(t, pos + 1),
            None => Passo::Erro(pos + 1),
        }
    }
}

/// Where a step ends.
pub open spec fn fim_do_passo(p: Passo) -> int {
    match p {
        Passo::Pula(e) => e,
        Passo::Tok(_, e) => e,
        Passo::Erro(e) => e,
    }
}

/// Number of bytes of a character in UTF-8.
pub open spec fn utf8_len(c: char) -> int {
    if (c as u32) < 0x80 {
        1
    } else if (c as u32) < 0x800 {
        2
    } else if (c as u32) < 0x10000 {
        3
    } else {
        4
    }
}

/// Line and column (1-based; the column counts bytes) of position `k` of `src`.
pub open spec fn linha_coluna(src: Seq<char>, k: int) -> (int, int)
    decreases k,
{
    if k <= 0 {
        (1, 1)
    } else {
        let (l, c) = linha_coluna(src, k - 1);
        if src[k - 1] == '\n' {
            (l + 1, 1)
        } else {
            (l, c + utf8_len(src[k - 1]))
        }
    }
}

/// The message of a lexical error over the text `lexema`.
pub open spec fn msg_lexica(lexema: Seq<char>) -> Seq<char> {
    "Caractere inesperado: '"@ + lexema + "'"@
}

/// The token produced over `src[ini..fim]`.
pub open spec fn token_em(src: Seq<char>, t: TokenV, ini: int, fim: int) -> SpannedTokenV {
    SpannedTokenV {
        token: t,
        lexeme: src.subrange(ini, fim),
        line: linha_coluna(src, ini).0 as usize,
        col: linha_coluna(src, ini).1 as usize,
    }
}

/// The error reported over `src[ini..fim]`.
pub open spec fn erro_em(src: Seq<char>, ini: int, fim: int) -> ErroV {
    ErroV {
        fase: Fase::Lexica,
        message: msg_lexica(src.subrange(ini, fim)),
        line: linha_coluna(src, ini).0 as usize,
        col: linha_coluna(src, ini).1 as usize,
    }
}

/// The tokens and the errors from position `pos` to the end of `src`, in order.
pub open spec fn varre(src: Seq<char>, pos: int) -> (Seq<SpannedTokenV>, Seq<ErroV>)
    decreases src.len() - pos,
{
    if pos < 0 || pos >= src.len() {
        (Seq::empty(), Seq::empty())
    } else {
        let p = passo(src, pos);
        let e = fim_do_passo(p);
        if e <= pos || e > src.len() {
            (Seq::empty(), Seq::empty())
        } else {
            let (ts, es) = varre(src, e);
            match p {
                Passo::Pula(_) => (ts, es),
                Passo::Tok(t, _) => (seq![token_em(src, t, pos, e)] + ts, es),
                Passo::Erro(_) => (ts, seq![erro_em(src, pos, e)] + es),
            }
        }
    }
}

// ─────────────────────────────────────────────────────────────────────────────
// Lemmas
// ─────────────────────────────────────────────────────────────────────────────

proof fn lemma_avanca(src: Seq<char>, i: int, k: Classe)
    requires
        0 <= i <= src.len(),
    ensures
        i <= avanca(src, i, k) <= src.len(),
        forall|j: int| i <= j < avanca(src, i, k) ==> pertence(#[trigger] src[j], k),
        avanca(src, i, k) < src.len() ==> !pertence(src[avanca(src, i, k)], k),
    decreases src.len() - i,
{
    if i < src.len() && pertence(src[i], k) {
        lemma_avanca(src, i + 1, k);
    }
}

/// Every step ends after its start, and inside the text.
pub proof fn lemma_passo_avanca(src: Seq<char>, pos: int)
    requires
        0 <= pos < src.len(),
    ensures
        pos < fim_do_passo(passo(src, pos)) <= src.len(),
{
    lemma_avanca(src, pos, Classe::Espaco);
    lemma_avanca(src, pos, Classe::Comentario);
    lemma_avanca(src, pos, Classe::Ident);
    lemma_avanca(src, pos, Classe::Digito);
    lemma_avanca(src, pos + 1, Classe::Texto);
}

proof fn lemma_linha_coluna_limites(src: Seq<char>, k: int)
    requires
        0 <= k <= src.len(),
    ensures
        1 <= linha_coluna(src, k).0 <= k + 1,
        1 <= linha_coluna(src, k).1 <= 4 * k + 1,
    decreases k,
{
    if k > 0 {
        lemma_linha_coluna_limites(src, k - 1);
    }
}

/// What holds of the tokens and errors from position `pos` on.
proof fn lemma_varre(src: Seq<char>, pos: int)
    requires
        0 <= pos,
        src.len() <= usize::MAX / 8,
    ensures
        forall|i: int| #![trigger varre(src, pos).1[i]]
            0 <= i < varre(src, pos).1.len() ==> varre(src, pos).1[i].fase == Fase::Lexica
                && varre(src, pos).1[i].line >= 1 && varre(src, pos).1[i].col >= 1,
        forall|i: int| #![trigger varre(src, pos).0[i]]
            0 <= i < varre(src, pos).0.len() ==> varre(src, pos).0[i].line >= 1 && varre(src, pos).0[i].col >= 1
                && (varre(src, pos).0[i].token matches TokenV::Ident(w) ==> !eh_reservada(w) && w
                == varre(src, pos).0[i].lexeme),
    decreases src.len() - pos,
{
    if pos < src.len() {
        lemma_passo_avanca(src, pos);
        let p = passo(src, pos);
        let e = fim_do_passo(p);
        lemma_varre(src, e);
        lemma_linha_coluna_limites(src, pos);
        let (ts, es) = varre(src, e);
        match p {
            Passo::Tok(t, _) => {
                assert(t matches TokenV::Ident(w) ==> !eh_reservada(w) && w == src.subrange(pos, e));
                let h = token_em(src, t, pos, e);
                assert forall|i: int| 0 <= i < varre(src, pos).0.len() implies #[trigger] varre(src, pos).0[i]
                    == (if i == 0 { h } else { ts[i - 1] }) by {}
            },
            Passo::Erro(_) => {
                let h = erro_em(src, pos, e);
                assert forall|i: int| 0 <= i < varre(src, pos).1.len() implies #[trigger] varre(src, pos).1[i]
                    == (if i == 0 { h } else { es[i - 1] }) by {}
            },
            Passo::Pula(_) => {},
        }
    }
}

/// Every error the lexer reports is a lexical error, placed at a line and a column
/// counted from 1.
pub proof fn lei_erros_lexicos(src: Seq<char>)
    requires
        src.len() <= usize::MAX / 8,
    ensures
        forall|i: int| #![trigger varre(src, 0).1[i]]
            0 <= i < varre(src, 0).1.len() ==> varre(src, 0).1[i].fase == Fase::Lexica && varre(src, 0).1[i].line
                >= 1 && varre(src, 0).1[i].col >= 1,
{
    lemma_varre(src, 0);
}

/// An identifier token never spells a reserved word, and its name is its text;
/// every token is placed at a line and a column counted from 1.
pub proof fn lei_identificadores(src: Seq<char>)
    requires
        src.len() <= usize::MAX / 8,
    ensures
        forall|i: int| #![trigger varre(src, 0).0[i]]
            0 <= i < varre(src, 0).0.len() ==> varre(src, 0).0[i].line >= 1 && varre(src, 0).0[i].col >= 1 && (
            varre(src, 0).0[i].token matches TokenV::Ident(w) ==> !eh_reservada(w) && w == varre(src, 0).0[i].lexeme),
{
    lemma_varre(src, 0);
}

/// The positions in `src` at which the tokens from `pos` on start, in order.
pub open spec fn inicios(src: Seq<char>, pos: int) -> Seq<int>
    decreases src.len() - pos,
{
    if pos < 0 || pos >= src.len() {
        Seq::empty()
    } else {
        let p = passo(src, pos);
        let e = fim_do_passo(p);
        if e <= pos || e > src.len() {
            Seq::empty()
        } else {
            match p {
                Passo::Tok(_, _) => seq![pos] + inicios(src, e),
                _ => inicios(src, e),
            }
        }
    }
}

/// Place `p` (line, column) comes before place `q` in the text.
pub open spec fn antes(p: (int, int), q: (int, int)) -> bool {
    p.0 < q.0 || (p.0 == q.0 && p.1 < q.1)
}

proof fn lemma_linha_coluna_passo(src: Seq<char>, k: int)
    requires
        0 <= k < src.len(),
    ensures
        antes(linha_coluna(src, k), linha_coluna(src, k + 1)),
{
}

/// Places further on in the text come later.
proof fn lemma_linha_coluna_cresce(src: Seq<char>, a: int, b: int)
    requires
        0 <= a < b <= src.len(),
    ensures
        antes(linha_coluna(src, a), linha_coluna(src, b)),
    decreases b - a,
{
    lemma_linha_coluna_passo(src, b - 1);
    if a < b - 1 {
        lemma_linha_coluna_cresce(src, a, b - 1);
    }
}

/// Each token from `pos` on is the text it starts at, taken up to its length, and
/// the tokens do not overlap.
proof fn lemma_inicios(src: Seq<char>, pos: int)
    requires
        0 <= pos,
    ensures
        inicios(src, pos).len() == varre(src, pos).0.len(),
        forall|i: int| #![trigger inicios(src, pos)[i]]
            0 <= i < inicios(src, pos).len() ==> {
                let t = varre(src, pos).0[i];
                let a = inicios(src, pos)[i];
                &&& pos <= a
                &&& passo(src, a) == Passo::Tok(t.token, a + t.lexeme.len())
                &&& 0 < t.lexeme.len()
                &&& a + t.lexeme.len() <= src.len()
                &&& t.lexeme == src.subrange(a, a + t.lexeme.len())
                &&& t.line == linha_coluna(src, a).0 as usize
                &&& t.col == linha_coluna(src, a).1 as usize
            },
        forall|i: int, j: int|
            0 <= i < j < inicios(src, pos).len() ==> #[trigger] inicios(src, pos)[i] + varre(src, pos).0[i].lexeme.len()
                <= #[trigger] inicios(src, pos)[j],
    decreases src.len() - pos,
{
    if pos < src.len() {
        lemma_passo_avanca(src, pos);
        let p = passo(src, pos);
        let e = fim_do_passo(p);
        lemma_inicios(src, e);
        let ts = varre(src, e).0;
        let ini = inicios(src, e);
        match p {
            Passo::Tok(t, _) => {
                let h = token_em(src, t, pos, e);
                assert(varre(src, pos).0 == seq![h] + ts);
                assert(inicios(src, pos) == seq![pos] + ini);
                assert forall|i: int| 0 <= i < inicios(src, pos).len() implies #[trigger] varre(src, pos).0[i]
                    == (if i == 0 { h } else { ts[i - 1] }) && inicios(src, pos)[i] == (if i == 0 { pos } else { ini[i - 1] }) by {}
                assert forall|i: int, j: int| 0 <= i < j < inicios(src, pos).len() implies #[trigger] inicios(src, pos)[i]
                    + varre(src, pos).0[i].lexeme.len() <= #[trigger] inicios(src, pos)[j] by {
                    if i > 0 {
                        assert(ini[i - 1] + ts[i - 1].lexeme.len() <= ini[j - 1]);
                    } else {
                        assert(e <= ini[j - 1]);
                    }
                }
            },
            _ => {},
        }
    }
}

/// The tokens come out in the order of the text: each one starts at a place (line,
/// column) after the place of the one before; each one's text is the slice of the
/// source it was matched on, which is not empty, and the slices do not overlap.
pub proof fn lei_posicoes_crescentes(src: Seq<char>)
    requires
        src.len() <= usize::MAX / 8,
    ensures
        inicios(src, 0).len() == varre(src, 0).0.len(),
        forall|i: int, j: int|
            0 <= i < j < varre(src, 0).0.len() ==> antes(
                ((#[trigger] varre(src, 0).0[i]).line as int, varre(src, 0).0[i].col as int),
                ((#[trigger] varre(src, 0).0[j]).line as int, varre(src, 0).0[j].col as int),
            ),
        forall|i: int| #![trigger varre(src, 0).0[i]]
            0 <= i < varre(src, 0).0.len() ==> 0 < varre(src, 0).0[i].lexeme.len() && varre(src, 0).0[i].lexeme
                == src.subrange(inicios(src, 0)[i], inicios(src, 0)[i] + varre(src, 0).0[i].lexeme.len()),
        forall|i: int, j: int|
            0 <= i < j < varre(src, 0).0.len() ==> #[trigger] inicios(src, 0)[i] + varre(src, 0).0[i].lexeme.len()
                <= #[trigger] inicios(src, 0)[j],
{
    lemma_inicios(src, 0);
    let ts = varre(src, 0).0;
    let ini = inicios(src, 0);
    assert forall|i: int, j: int| 0 <= i < j < ts.len() implies antes(
        ((#[trigger] ts[i]).line as int, ts[i].col as int),
        ((#[trigger] ts[j]).line as int, ts[j].col as int),
    ) by {
        assert(ini[i] + ts[i].lexeme.len() <= ini[j]);
        assert(0 <= ini[i]);
        assert(ini[j] < src.len());
        lemma_linha_coluna_cresce(src, ini[i], ini[j]);
        lemma_linha_coluna_limites(src, ini[i]);
        lemma_linha_coluna_limites(src, ini[j]);
    }
    assert forall|i: int| #![trigger ts[i]] 0 <= i < ts.len() implies 0 < ts[i].lexeme.len() && ts[i].lexeme
        == src.subrange(ini[i], ini[i] + ts[i].lexeme.len()) by {
        assert(0 <= ini[i]);
    }
}

/// A run of class `k` read inside the slice `src[a..e]` ends where it ends in `src`
/// (at `q`), as long as it ends inside the slice.
proof fn lemma_avanca_fatia(src: Seq<char>, a: int, e: int, j: int, q: int, k: Classe)
    requires
        0 <= a <= j <= q <= e <= src.len(),
        forall|m: int| j <= m < q ==> pertence(#[trigger] src[m], k),
        q < e ==> !pertence(src[q], k),
    ensures
        avanca(src.subrange(a, e), j - a, k) == q - a,
    decreases q - j,
{
    let w = src.subrange(a, e);
    if j < q {
        assert(w[j - a] == src[j]);
        lemma_avanca_fatia(src, a, e, j + 1, q, k);
    } else if q < e {
        assert(w[q - a] == src[q]);
    }
}

/// The text of a token, read on its own, is that token again: the step at its
/// start in `src` and the step at the start of its text give the same token.
proof fn lemma_passo_fatia(src: Seq<char>, a: int, t: TokenV, e: int)
    requires
        0 <= a < src.len(),
        passo(src, a) == Passo::Tok(t, e),
    ensures
        passo(src.subrange(a, e), 0) == Passo::Tok(t, e - a),
{
    lemma_passo_avanca(src, a);
    let w = src.subrange(a, e);
    let c = src[a];
    assert(w[0] == c);
    if eh_inicio_ident(c) {
        lemma_avanca(src, a, Classe::Ident);
        lemma_avanca_fatia(src, a, e, a, e, Classe::Ident);
        assert(w.subrange(0, e - a) =~= src.subrange(a, e));
    } else if eh_digito(c) {
        lemma_avanca(src, a, Classe::Digito);
        lemma_avanca_fatia(src, a, e, a, e, Classe::Digito);
        assert(w.subrange(0, e - a) =~= src.subrange(a, e));
    } else if c == '"' {
        let q = avanca(src, a + 1, Classe::Texto);
        lemma_avanca(src, a + 1, Classe::Texto);
        lemma_avanca_fatia(src, a, e, a + 1, q, Classe::Texto);
        assert(w[q - a] == src[q]);
        assert(w.subrange(1, q - a) =~= src.subrange(a + 1, q));
    } else if e == a + 2 {
        assert(w[1] == src[a + 1]);
    }
}

/// Reading the text of any token the lexer produced gives back that token alone,
/// at line 1, column 1, and no error.
pub proof fn lei_relexar_token(src: Seq<char>, i: int)
    requires
        src.len() <= usize::MAX / 8,
        0 <= i < varre(src, 0).0.len(),
    ensures
        varre(varre(src, 0).0[i].lexeme, 0) == (
            seq![
                SpannedTokenV {
                    token: varre(src, 0).0[i].token,
                    lexeme: varre(src, 0).0[i].lexeme,
                    line: 1,
                    col: 1,
                },
            ],
            Seq::<ErroV>::empty(),
        ),
{
    lemma_inicios(src, 0);
    let t = varre(src, 0).0[i];
    let a = inicios(src, 0)[i];
    let e = a + t.lexeme.len();
    lemma_passo_fatia(src, a, t.token, e);
    let w = src.subrange(a, e);
    assert(w == t.lexeme);
    assert(w.subrange(0, e - a) =~= w);
    assert(varre(w, e - a) == (Seq::<SpannedTokenV>::empty(), Seq::<ErroV>::empty()));
    assert(linha_coluna(w, 0) == (1int, 1int));
    assert(varre(w, 0).0 =~= seq![token_em(w, t.token, 0, e - a)]);
    assert(varre(w, 0).1 =~= Seq::<ErroV>::empty());
}

/// Tokens moved `d` lines down.
pub open spec fn desloca_tokens(ts: Seq<SpannedTokenV>, d: int) -> Seq<SpannedTokenV> {
    ts.map_values(|t: SpannedTokenV| SpannedTokenV { token: t.token, lexeme: t.lexeme, line: (t.line + d) as usize, col: t.col })
}

/// Errors moved `d` lines down.
pub open spec fn desloca_erros(es: Seq<ErroV>, d: int) -> Seq<ErroV> {
    es.map_values(|x: ErroV| ErroV { fase: x.fase, message: x.message, line: (x.line + d) as usize, col: x.col })
}

/// `a`, a line break, then `b`.
pub open spec fn junta(a: Seq<char>, b: Seq<char>) -> Seq<char> {
    a + seq!['\n'] + b
}

proof fn lemma_lc_prefixo(a: Seq<char>, b: Seq<char>, k: int)
    requires
        0 <= k <= a.len(),
    ensures
        linha_coluna(junta(a, b), k) == linha_coluna(a, k),
    decreases k,
{
    if k > 0 {
        lemma_lc_prefixo(a, b, k - 1);
        assert(junta(a, b)[k - 1] == a[k - 1]);
    }
}

proof fn lemma_lc_sufixo(a: Seq<char>, b: Seq<char>, j: int)
    requires
        0 <= j <= b.len(),
    ensures
        linha_coluna(junta(a, b), a.len() + 1 + j) == (
            linha_coluna(a, a.len() as int).0 + linha_coluna(b, j).0,
            linha_coluna(b, j).1,
        ),
    decreases j,
{
    let s = junta(a, b);
    let n = a.len() as int;
    if j == 0 {
        lemma_lc_prefixo(a, b, n);
        assert(s[n] == '\n');
    } else {
        lemma_lc_sufixo(a, b, j - 1);
        assert(s[n + j] == b[j - 1]);
    }
}

/// Inside `a`, a run that is not of blanks ends where it ends in `a` alone: the
/// line break after `a` stops it.
proof fn lemma_avanca_prefixo(a: Seq<char>, b: Seq<char>, j: int, k: Classe)
    requires
        0 <= j <= a.len(),
    ensures
        k != Classe::Espaco ==> avanca(junta(a, b), j, k) == avanca(a, j, k),
        avanca(a, j, Classe::Espaco) < a.len() ==> avanca(junta(a, b), j, Classe::Espaco) == avanca(a, j, Classe::Espaco),
        avanca(a, j, Classe::Espaco) == a.len() ==> avanca(junta(a, b), j, Classe::Espaco) == avanca(
            junta(a, b),
            a.len() as int,
            Classe::Espaco,
        ),
    decreases a.len() - j,
{
    let s = junta(a, b);
    if j < a.len() {
        assert(s[j] == a[j]);
        lemma_avanca_prefixo(a, b, j + 1, k);
    } else {
        assert(s[j] == '\n');
    }
}

/// Inside `b`, every run ends where it ends in `b` alone.
proof fn lemma_avanca_sufixo(a: Seq<char>, b: Seq<char>, j: int, k: Classe)
    requires
        0 <= j <= b.len(),
    ensures
        avanca(junta(a, b), a.len() + 1 + j, k) == a.len() + 1 + avanca(b, j, k),
    decreases b.len() - j,
{
    let s = junta(a, b);
    if j < b.len() {
        assert(s[a.len() + 1 + j] == b[j]);
        lemma_avanca_sufixo(a, b, j + 1, k);
    }
}

/// A step inside `b` is the step of `b` alone, moved.
proof fn lemma_passo_sufixo(a: Seq<char>, b: Seq<char>, j: int)
    requires
        0 <= j < b.len(),
    ensures
        ({
            let o = a.len() + 1;
            match passo(b, j) {
                Passo::Pula(e) => passo(junta(a, b), o + j) == Passo::Pula(o + e),
                Passo::Tok(t, e) => passo(junta(a, b), o + j) == Passo::Tok(t, o + e),
                Passo::Erro(e) => passo(junta(a, b), o + j) == Passo::Erro(o + e),
            }
        }),
{
    let s = junta(a, b);
    let o = a.len() + 1;
    assert(s[o + j] == b[j]);
    if j + 1 < b.len() {
        assert(s[o + j + 1] == b[j + 1]);
    }
    lemma_avanca_sufixo(a, b, j, Classe::Espaco);
    lemma_avanca_sufixo(a, b, j, Classe::Comentario);
    lemma_avanca_sufixo(a, b, j, Classe::Ident);
    lemma_avanca_sufixo(a, b, j, Classe::Digito);
    lemma_avanca_sufixo(a, b, j + 1, Classe::Texto);
    lemma_avanca(b, j, Classe::Ident);
    lemma_avanca(b, j, Classe::Digito);
    lemma_avanca(b, j + 1, Classe::Texto);
    let ei = avanca(b, j, Classe::Ident);
    assert(s.subrange(o + j, o + ei) =~= b.subrange(j, ei));
    let ed = avanca(b, j, Classe::Digito);
    assert(s.subrange(o + j, o + ed) =~= b.subrange(j, ed));
    let q = avanca(b, j + 1, Classe::Texto);
    assert(s.subrange(o + j + 1, o + q) =~= b.subrange(j + 1, q));
    if q < b.len() {
        assert(s[o + q] == b[q]);
    }
}

/// From a position inside `b`, the scan is the scan of `b` alone, lines moved.
proof fn lemma_varre_sufixo(a: Seq<char>, b: Seq<char>, j: int)
    requires
        0 <= j <= b.len(),
        junta(a, b).len() <= usize::MAX / 8,
    ensures
        varre(junta(a, b), a.len() + 1 + j) == (
            desloca_tokens(varre(b, j).0, linha_coluna(a, a.len() as int).0),
            desloca_erros(varre(b, j).1, linha_coluna(a, a.len() as int).0),
        ),
    decreases b.len() - j,
{
    let s = junta(a, b);
    let o = a.len() + 1;
    let d = linha_coluna(a, a.len() as int).0;
    if j < b.len() {
        lemma_passo_avanca(b, j);
        lemma_passo_sufixo(a, b, j);
        let e = fim_do_passo(passo(b, j));
        lemma_varre_sufixo(a, b, e);
        lemma_lc_sufixo(a, b, j);
        lemma_linha_coluna_limites(b, j);
        lemma_linha_coluna_limites(a, a.len() as int);
        assert(s.subrange(o + j, o + e) =~= b.subrange(j, e));
        let (ts, es) = varre(b, e);
        match passo(b, j) {
            Passo::Tok(t, _) => {
                assert(desloca_tokens(seq![token_em(b, t, j, e)] + ts, d) =~= seq![token_em(s, t, o + j, o + e)]
                    + desloca_tokens(ts, d));
            },
            Passo::Erro(_) => {
                assert(desloca_erros(seq![erro_em(b, j, e)] + es, d) =~= seq![erro_em(s, o + j, o + e)] + desloca_erros(
                    es,
                    d,
                ));
            },
            Passo::Pula(_) => {},
        }
    } else {
        assert(desloca_tokens(Seq::<SpannedTokenV>::empty(), d) =~= Seq::<SpannedTokenV>::empty());
        assert(desloca_erros(Seq::<ErroV>::empty(), d) =~= Seq::<ErroV>::empty());
    }
}

/// At the line break after `a`, the scan is the scan of `b`, lines moved.
proof fn lemma_varre_quebra(a: Seq<char>, b: Seq<char>)
    requires
        junta(a, b).len() <= usize::MAX / 8,
    ensures
        varre(junta(a, b), a.len() as int) == (
            desloca_tokens(varre(b, 0).0, linha_coluna(a, a.len() as int).0),
            desloca_erros(varre(b, 0).1, linha_coluna(a, a.len() as int).0),
        ),
        varre(junta(a, b), a.len() as int) == varre(junta(a, b), avanca(junta(a, b), a.len() as int, Classe::Espaco)),
{
    let s = junta(a, b);
    let n = a.len() as int;
    assert(s[n] == '\n');
    lemma_avanca_sufixo(a, b, 0, Classe::Espaco);
    let sp = avanca(b, 0, Classe::Espaco);
    lemma_avanca(b, 0, Classe::Espaco);
    assert(avanca(s, n, Classe::Espaco) == n + 1 + sp);
    lemma_varre_sufixo(a, b, sp);
    if sp > 0 {
        assert(passo(b, 0) == Passo::Pula(sp));
    }
}

/// From a position inside `a`, the scan is the scan of `a` alone, then that of `b`
/// with its lines moved.
proof fn lemma_varre_prefixo(a: Seq<char>, b: Seq<char>, pos: int)
    requires
        0 <= pos <= a.len(),
        junta(a, b).len() <= usize::MAX / 8,
    ensures
        varre(junta(a, b), pos) == (
            varre(a, pos).0 + desloca_tokens(varre(b, 0).0, linha_coluna(a, a.len() as int).0),
            varre(a, pos).1 + desloca_erros(varre(b, 0).1, linha_coluna(a, a.len() as int).0),
        ),
    decreases a.len() - pos,
{
    let s = junta(a, b);
    let n = a.len() as int;
    let d = linha_coluna(a, n).0;
    let bt = desloca_tokens(varre(b, 0).0, d);
    let be = desloca_erros(varre(b, 0).1, d);
    lemma_varre_quebra(a, b);
    if pos == n {
        assert(varre(a, pos).0 + bt =~= bt);
        assert(varre(a, pos).1 + be =~= be);
    } else {
        let c = a[pos];
        assert(s[pos] == c);
        if pos + 1 < n {
            assert(s[pos + 1] == a[pos + 1]);
        } else {
            assert(s[pos + 1] == '\n');
        }
        lemma_passo_avanca(a, pos);
        lemma_passo_avanca(s, pos);
        lemma_avanca_prefixo(a, b, pos, Classe::Espaco);
        lemma_avanca_prefixo(a, b, pos, Classe::Comentario);
        lemma_avanca_prefixo(a, b, pos, Classe::Ident);
        lemma_avanca_prefixo(a, b, pos, Classe::Digito);
        lemma_avanca_prefixo(a, b, pos + 1, Classe::Texto);
        lemma_avanca(a, pos, Classe::Ident);
        lemma_avanca(a, pos, Classe::Digito);
        lemma_avanca(a, pos + 1, Classe::Texto);
        lemma_avanca(a, pos, Classe::Espaco);
        let ei = avanca(a, pos, Classe::Ident);
        assert(s.subrange(pos, ei) =~= a.subrange(pos, ei));
        let ed = avanca(a, pos, Classe::Digito);
        assert(s.subrange(pos, ed) =~= a.subrange(pos, ed));
        let q = avanca(a, pos + 1, Classe::Texto);
        assert(s.subrange(pos + 1, q) =~= a.subrange(pos + 1, q));
        if q < n {
            assert(s[q] == a[q]);
        } else {
            assert(s[q] == '\n');
        }
        if eh_espaco(c) && avanca(a, pos, Classe::Espaco) == n {
            assert(varre(a, pos) == varre(a, n));
            assert(varre(a, pos).0 + bt =~= bt);
            assert(varre(a, pos).1 + be =~= be);
        } else {
            assert(passo(s, pos) == passo(a, pos));
            let e = fim_do_passo(passo(a, pos));
            lemma_varre_prefixo(a, b, e);
            lemma_lc_prefixo(a, b, pos);
            assert(s.subrange(pos, e) =~= a.subrange(pos, e));
            let (ts, es) = varre(a, e);
            match passo(a, pos) {
                Passo::Tok(t, _) => {
                    assert(seq![token_em(a, t, pos, e)] + ts + bt =~= seq![token_em(s, t, pos, e)] + (ts + bt));
                },
                Passo::Erro(_) => {
                    assert(seq![erro_em(a, pos, e)] + es + be =~= seq![erro_em(s, pos, e)] + (es + be));
                },
                Passo::Pula(_) => {},
            }
        }
    }
}

/// Two texts joined by a line break are read as the first, then the second with
/// its lines moved down by the lines of the first: the tokens and the errors are
/// those of each part, in order, and each keeps its column.
pub proof fn lei_linhas_concatenadas(a: Seq<char>, b: Seq<char>)
    requires
        junta(a, b).len() <= usize::MAX / 8,
    ensures
        varre(junta(a, b), 0) == (
            varre(a, 0).0 + desloca_tokens(varre(b, 0).0, linha_coluna(a, a.len() as int).0),
            varre(a, 0).1 + desloca_erros(varre(b, 0).1, linha_coluna(a, a.len() as int).0),
        ),
{
    lemma_varre_prefixo(a, b, 0);
}

/// A text that is one whole token, read on its own, gives that token at line 1,
/// column 1, and no error.
proof fn lemma_varre_token_unico(w: Seq<char>, t: TokenV)
    requires
        w.len() > 0,
        passo(w, 0) == Passo::Tok(t, w.len() as int),
    ensures
        varre(w, 0) == (seq![SpannedTokenV { token: t, lexeme: w, line: 1, col: 1 }], Seq::<ErroV>::empty()),
{
    assert(varre(w, w.len() as int) == (Seq::<SpannedTokenV>::empty(), Seq::<ErroV>::empty()));
    assert(w.subrange(0, w.len() as int) =~= w);
    assert(linha_coluna(w, 0) == (1int, 1int));
    assert(varre(w, 0).0 =~= seq![token_em(w, t, 0, w.len() as int)]);
    assert(varre(w, 0).1 =~= Seq::<ErroV>::empty());
}

/// A word made only of identifier characters is read as one run.
proof fn lemma_avanca_palavra(w: Seq<char>, i: int)
    requires
        0 <= i <= w.len(),
        forall|j: int| i <= j < w.len() ==> eh_ident(#[trigger] w[j]),
    ensures
        avanca(w, i, Classe::Ident) == w.len(),
    decreases w.len() - i,
{
    if i < w.len() {
        lemma_avanca_palavra(w, i + 1);
    }
}

/// A reserved word, read on its own, is its keyword.
proof fn lemma_reservada(w: Seq<char>, t: TokenV)
    requires
        w.len() > 0,
        eh_inicio_ident(w[0]),
        forall|j: int| 0 <= j < w.len() ==> eh_ident(#[trigger] w[j]),
        palavra(w) == t,
    ensures
        varre(w, 0) == (seq![SpannedTokenV { token: t, lexeme: w, line: 1, col: 1 }], Seq::<ErroV>::empty()),
{
    lemma_avanca_palavra(w, 0);
    assert(w.subrange(0, w.len() as int) =~= w);
    lemma_varre_token_unico(w, t);
}

/// A word `[a-zA-Z_][a-zA-Z0-9_]*` that is not one of the reserved words (`var`,
/// `if`, `else`, `while`, `print`, `read`, `int`, `bool`, `string`, `true`,
/// `false`) is read as one identifier with that name, at line 1, column 1, and
/// no error.
pub proof fn lei_palavras(w: Seq<char>)
    requires
        w.len() > 0,
        ('a' <= w[0] && w[0] <= 'z') || ('A' <= w[0] && w[0] <= 'Z') || w[0] == '_',
        forall|j: int|
            0 <= j < w.len() ==> ('a' <= #[trigger] w[j] && w[j] <= 'z') || ('A' <= w[j] && w[j] <= 'Z') || ('0'
                <= w[j] && w[j] <= '9') || w[j] == '_',
        w != "var"@ && w != "if"@ && w != "else"@ && w != "while"@ && w != "print"@ && w != "read"@ && w != "int"@
            && w != "bool"@ && w != "string"@ && w != "true"@ && w != "false"@,
    ensures
        varre(w, 0) == (
            seq![SpannedTokenV { token: TokenV::Ident(w), lexeme: w, line: 1, col: 1 }],
            Seq::<ErroV>::empty(),
        ),
{
    assert forall|j: int| 0 <= j < w.len() implies eh_ident(#[trigger] w[j]) by {}
    lemma_reservada(w, TokenV::Ident(w));
}

proof fn lemma_digito(d: nat)
    requires
        d < 10,
    ensures
        eh_digito(digito(d)),
        digito(d) as int - '0' as int == d,
{
}

proof fn lemma_valor_decimal(n: nat)
    ensures
        decimal_spec(n).len() > 0,
        valor(decimal_spec(n)) == n,
        forall|j: int| 0 <= j < decimal_spec(n).len() ==> eh_digito(#[trigger] decimal_spec(n)[j]),
    decreases n,
{
    if n < 10 {
        lemma_digito(n);
        assert(decimal_spec(n).drop_last() =~= Seq::<char>::empty());
        assert(decimal_spec(n).last() == digito(n));
        assert(valor(Seq::<char>::empty()) == 0);
        assert(valor(decimal_spec(n)) == valor(Seq::<char>::empty()) * 10 + ((digito(n) as int - '0' as int) as nat));
    } else {
        lemma_valor_decimal(n / 10);
        lemma_digito(n % 10);
        let s = decimal_spec(n / 10);
        assert(decimal_spec(n).drop_last() =~= s);
        assert(decimal_spec(n).last() == digito(n % 10));
        assert(valor(decimal_spec(n)) == valor(s) * 10 + ((digito(n % 10) as int - '0' as int) as nat));
        assert((n / 10) * 10 + n % 10 == n);
        assert(forall|j: int| 0 <= j < s.len() ==> decimal_spec(n)[j] == #[trigger] s[j]);
    }
}

proof fn lemma_avanca_digitos(w: Seq<char>, i: int)
    requires
        0 <= i <= w.len(),
        forall|j: int| i <= j < w.len() ==> eh_digito(#[trigger] w[j]),
    ensures
        avanca(w, i, Classe::Digito) == w.len(),
    decreases w.len() - i,
{
    if i < w.len() {
        lemma_avanca_digitos(w, i + 1);
    }
}

/// A number written in decimal is read as that number: the decimal text of any
/// `n` up to `i64::MAX` gives one number token of value `n` at line 1, column 1,
/// and no error; a larger one gives no token and one error over the whole text.
pub proof fn lei_numeros(n: nat)
    ensures
        n <= i64::MAX ==> varre(decimal_spec(n), 0) == (
            seq![SpannedTokenV { token: TokenV::Number(n as i64), lexeme: decimal_spec(n), line: 1, col: 1 }],
            Seq::<ErroV>::empty(),
        ),
        n > i64::MAX ==> varre(decimal_spec(n), 0).0.len() == 0 && varre(decimal_spec(n), 0).1 == seq![
            erro_em(decimal_spec(n), 0, decimal_spec(n).len() as int),
        ],
{
    let w = decimal_spec(n);
    lemma_valor_decimal(n);
    lemma_avanca_digitos(w, 0);
    assert(w.subrange(0, w.len() as int) =~= w);
    if n <= i64::MAX {
        lemma_varre_token_unico(w, TokenV::Number(n as i64));
    } else {
        assert(varre(w, w.len() as int) == (Seq::<SpannedTokenV>::empty(), Seq::<ErroV>::empty()));
        assert(varre(w, 0).1 =~= seq![erro_em(w, 0, w.len() as int)]);
    }
}

/// Blanks (space, tab, carriage return, line feed, form feed) and `//` comments up
/// to the end of the line are read as nothing: no token and no error.
pub proof fn lei_brancos_e_comentarios(w: Seq<char>)
    requires
        (forall|j: int| 0 <= j < w.len() ==> (#[trigger] w[j] == ' ' || w[j] == '\t' || w[j] == '\r' || w[j] == '\n'
            || w[j] == '\x0C')) || (w.len() >= 2 && w[0] == '/' && w[1] == '/' && forall|j: int|
            0 <= j < w.len() ==> #[trigger] w[j] != '\n'),
    ensures
        varre(w, 0) == (Seq::<SpannedTokenV>::empty(), Seq::<ErroV>::empty()),
{
    if w.len() > 0 {
        if forall|j: int| 0 <= j < w.len() ==> (#[trigger] w[j] == ' ' || w[j] == '\t' || w[j] == '\r' || w[j] == '\n'
            || w[j] == '\x0C') {
            lemma_avanca_classe(w, 0, Classe::Espaco);
        } else {
            lemma_avanca_classe(w, 0, Classe::Comentario);
        }
        assert(varre(w, w.len() as int) == (Seq::<SpannedTokenV>::empty(), Seq::<ErroV>::empty()));
    }
}

/// A run of class `k` that goes to the end of the text ends there.
proof fn lemma_avanca_classe(w: Seq<char>, i: int, k: Classe)
    requires
        0 <= i <= w.len(),
        forall|j: int| i <= j < w.len() ==> pertence(#[trigger] w[j], k),
    ensures
        avanca(w, i, k) == w.len(),
    decreases w.len() - i,
{
    if i < w.len() {
        lemma_avanca_classe(w, i + 1, k);
    }
}

/// A string literal `"s"`, where `s` has no `"` and no line break, is read as one
/// string token holding `s`, at line 1, column 1, and no error.
pub proof fn lei_literais_texto(s: Seq<char>)
    requires
        forall|j: int| 0 <= j < s.len() ==> #[trigger] s[j] != '"' && s[j] != '\n',
    ensures
        varre(seq!['"'] + s + seq!['"'], 0) == (
            seq![SpannedTokenV { token: TokenV::StringLit(s), lexeme: seq!['"'] + s + seq!['"'], line: 1, col: 1 }],
            Seq::<ErroV>::empty(),
        ),
{
    let w = seq!['"'] + s + seq!['"'];
    let q: int = s.len() as int + 1;
    assert(w[0] == '"');
    assert(w[q] == '"');
    assert forall|j: int| 1 <= j < q implies pertence(#[trigger] w[j], Classe::Texto) by {
        assert(w[j] == s[j - 1]);
    }
    lemma_avanca_fatia(w, 0, w.len() as int, 1, q, Classe::Texto);
    assert(w.subrange(0, w.len() as int) =~= w);
    assert(w.subrange(1, q) =~= s);
    lemma_varre_token_unico(w, TokenV::StringLit(s));
}

/// The name of a token kind that carries no value (a keyword or an operator) is
/// that token's spelling: read on its own, it gives back that token alone, at
/// line 1, column 1, and no error.
pub proof fn lei_nome_do_tipo(t: TokenV)
    requires
        !(t is Ident),
        !(t is Number),
        !(t is StringLit),
    ensures
        varre(nome_do_tipo(t), 0) == (
            seq![SpannedTokenV { token: t, lexeme: nome_do_tipo(t), line: 1, col: 1 }],
            Seq::<ErroV>::empty(),
        ),
{
    let w = nome_do_tipo(t);
    reveal_strlit("var");
    reveal_strlit("if");
    reveal_strlit("else");
    reveal_strlit("while");
    reveal_strlit("print");
    reveal_strlit("read");
    reveal_strlit("int");
    reveal_strlit("bool");
    reveal_strlit("string");
    reveal_strlit("true");
    reveal_strlit("false");
    match t {
        TokenV::Var | TokenV::If | TokenV::Else | TokenV::While | TokenV::Print | TokenV::Read | TokenV::IntType
        | TokenV::BoolType | TokenV::StringType | TokenV::True | TokenV::False => {
            assert forall|j: int| 0 <= j < w.len() implies eh_ident(#[trigger] w[j]) by {}
            lemma_reservada(w, t);
        },
        _ => {
            reveal_strlit("==");
            reveal_strlit("!=");
            reveal_strlit("<=");
            reveal_strlit(">=");
            reveal_strlit("&&");
            reveal_strlit("||");
            reveal_strlit("=");
            reveal_strlit("+");
            reveal_strlit("-");
            reveal_strlit("*");
            reveal_strlit("/");
            reveal_strlit("%");
            reveal_strlit("<");
            reveal_strlit(">");
            reveal_strlit("!");
            reveal_strlit(";");
            reveal_strlit(":");
            reveal_strlit("(");
            reveal_strlit(")");
            reveal_strlit("{");
            reveal_strlit("}");
            assert(passo(w, 0) == Passo::Tok(t, w.len() as int));
            lemma_varre_token_unico(w, t);
        },
    }
}

/// The positions in `src` at which the lexer's steps from `pos` on start: each
/// step skips a run, makes a token or reports an error.
pub open spec fn fronteiras(src: Seq<char>, pos: int) -> Seq<int>
    decreases src.len() - pos,
{
    if pos < 0 || pos >= src.len() {
        Seq::empty()
    } else {
        let e = fim_do_passo(passo(src, pos));
        if e <= pos || e > src.len() {
            Seq::empty()
        } else {
            seq![pos] + fronteiras(src, e)
        }
    }
}

/// The positions in `src` at which the errors from `pos` on start, in order.
pub open spec fn inicios_erros(src: Seq<char>, pos: int) -> Seq<int>
    decreases src.len() - pos,
{
    if pos < 0 || pos >= src.len() {
        Seq::empty()
    } else {
        let p = passo(src, pos);
        let e = fim_do_passo(p);
        if e <= pos || e > src.len() {
            Seq::empty()
        } else {
            match p {
                Passo::Erro(_) => seq![pos] + inicios_erros(src, e),
                _ => inicios_erros(src, e),
            }
        }
    }
}

/// The text `src[a..e]` is a run of blanks, or a `//` comment up to the line break.
pub open spec fn branco_ou_comentario(src: Seq<char>, a: int, e: int) -> bool {
    ||| forall|j: int| a <= j < e ==> eh_espaco(#[trigger] src[j])
    ||| (src[a] == '/' && seguido_de(src, a, '/') && forall|j: int| a <= j < e ==> #[trigger] src[j] != '\n')
}

proof fn lemma_fronteiras(src: Seq<char>, pos: int)
    requires
        0 <= pos,
    ensures
        ({
            let f = fronteiras(src, pos);
            let ie = inicios_erros(src, pos);
            &&& (pos < src.len() ==> f.len() > 0 && f[0] == pos)
            &&& (pos >= src.len() ==> f.len() == 0)
            &&& forall|i: int| #![trigger f[i]]
                0 <= i < f.len() ==> {
                    let e = fim_do_passo(passo(src, f[i]));
                    &&& pos <= f[i] < e <= src.len()
                    &&& (i + 1 < f.len() ==> f[i + 1] == e)
                    &&& (i + 1 == f.len() ==> e == src.len())
                    &&& (passo(src, f[i]) is Pula ==> branco_ou_comentario(src, f[i], e))
                    &&& (passo(src, f[i]) is Tok ==> inicios(src, pos).contains(f[i]))
                    &&& (passo(src, f[i]) is Erro ==> ie.contains(f[i]))
                }
            &&& ie.len() == varre(src, pos).1.len()
            &&& forall|i: int| #![trigger ie[i]]
                0 <= i < ie.len() ==> {
                    &&& passo(src, ie[i]) is Erro
                    &&& f.contains(ie[i])
                    &&& varre(src, pos).1[i] == erro_em(src, ie[i], fim_do_passo(passo(src, ie[i])))
                }
            &&& forall|i: int, j: int| 0 <= i < j < ie.len() ==> #[trigger] ie[i] < #[trigger] ie[j]
        }),
    decreases src.len() - pos,
{
    if pos < src.len() {
        lemma_passo_avanca(src, pos);
        let p = passo(src, pos);
        let e = fim_do_passo(p);
        lemma_fronteiras(src, e);
        lemma_avanca(src, pos, Classe::Espaco);
        lemma_avanca(src, pos, Classe::Comentario);
        let f = fronteiras(src, pos);
        let f1 = fronteiras(src, e);
        let ie = inicios_erros(src, pos);
        let ie1 = inicios_erros(src, e);
        let ini = inicios(src, pos);
        let ini1 = inicios(src, e);
        assert(f == seq![pos] + f1);
        assert forall|i: int| 0 <= i < f.len() implies #[trigger] f[i] == (if i == 0 { pos } else { f1[i - 1] }) by {}
        if p is Pula {
            assert(branco_ou_comentario(src, pos, e));
        }
        match p {
            Passo::Tok(t, _) => {
                assert(ini == seq![pos] + ini1);
                assert(ini[0] == pos);
                assert forall|x: int| ini1.contains(x) implies ini.contains(x) by {
                    let k = choose|k: int| 0 <= k < ini1.len() && ini1[k] == x;
                    assert(ini[k + 1] == x);
                }
                assert(ie == ie1);
            },
            Passo::Erro(_) => {
                assert(ie == seq![pos] + ie1);
                assert(ie[0] == pos);
                assert(ini == ini1);
                assert forall|x: int| ie1.contains(x) implies ie.contains(x) by {
                    let k = choose|k: int| 0 <= k < ie1.len() && ie1[k] == x;
                    assert(ie[k + 1] == x);
                }
                let h = erro_em(src, pos, e);
                assert(varre(src, pos).1 == seq![h] + varre(src, e).1);
                assert forall|i: int| 0 <= i < ie.len() implies #[trigger] ie[i] == (if i == 0 { pos } else { ie1[i - 1] })
                    && varre(src, pos).1[i] == (if i == 0 { h } else { varre(src, e).1[i - 1] }) by {}
            },
            Passo::Pula(_) => {
                assert(ie == ie1);
                assert(ini == ini1);
            },
        }
        assert forall|x: int| f1.contains(x) implies f.contains(x) by {
            let k = choose|k: int| 0 <= k < f1.len() && f1[k] == x;
            assert(f[k + 1] == x);
        }
        assert forall|i: int| #![trigger ie[i]] 0 <= i < ie.len() implies f.contains(ie[i]) by {
            if ie[i] == pos {
                assert(f[0] == pos);
            } else {
                assert(f1.contains(ie[i]));
            }
        }
    }
}

/// The lexer reads the whole text: its steps cover the text from the first
/// character to the last, one after the other, each over a non-empty slice; a
/// step that makes nothing is a run of blanks or a `//` comment; every other step
/// makes one token or one error. There is no error exactly when no step is an
/// error, and the errors are those of the error steps, one each, in the order of
/// the text, over the slice that step covers.
pub proof fn lei_cobertura(src: Seq<char>)
    requires
        src.len() <= usize::MAX / 8,
    ensures
        ({
            let f = fronteiras(src, 0);
            let ie = inicios_erros(src, 0);
            &&& (src.len() == 0 <==> f.len() == 0)
            &&& (f.len() > 0 ==> f[0] == 0)
            &&& forall|i: int| #![trigger f[i]]
                0 <= i < f.len() ==> {
                    let e = fim_do_passo(passo(src, f[i]));
                    &&& f[i] < e <= src.len()
                    &&& (i + 1 < f.len() ==> f[i + 1] == e)
                    &&& (i + 1 == f.len() ==> e == src.len())
                    &&& (passo(src, f[i]) is Pula ==> branco_ou_comentario(src, f[i], e))
                    &&& (passo(src, f[i]) is Tok ==> inicios(src, 0).contains(f[i]))
                    &&& (passo(src, f[i]) is Erro ==> ie.contains(f[i]))
                }
            &&& (varre(src, 0).1.len() == 0 <==> forall|i: int| 0 <= i < f.len() ==> !(passo(src, #[trigger] f[i]) is Erro))
            &&& ie.len() == varre(src, 0).1.len()
            &&& forall|i: int| #![trigger ie[i]]
                0 <= i < ie.len() ==> passo(src, ie[i]) is Erro && f.contains(ie[i]) && varre(src, 0).1[i] == erro_em(
                    src,
                    ie[i],
                    fim_do_passo(passo(src, ie[i])),
                )
            &&& forall|i: int, j: int| 0 <= i < j < ie.len() ==> #[trigger] ie[i] < #[trigger] ie[j]
        }),
{
    lemma_fronteiras(src, 0);
    let f = fronteiras(src, 0);
    let ie = inicios_erros(src, 0);
    if varre(src, 0).1.len() > 0 {
        assert(passo(src, ie[0]) is Erro);
        assert(f.contains(ie[0]));
        let k = choose|k: int| 0 <= k < f.len() && f[k] == ie[0];
        assert(passo(src, f[k]) is Erro);
    }
    if exists|i: int| 0 <= i < f.len() && (passo(src, #[trigger] f[i]) is Erro) {
        let k = choose|i: int| 0 <= i < f.len() && (passo(src, #[trigger] f[i]) is Erro);
        assert(ie.contains(f[k]));
    }
}

/// How many line breaks `s` has.
pub open spec fn quebras(s: Seq<char>) -> int
    decreases s.len(),
{
    if s.len() == 0 {
        0
    } else {
        quebras(s.drop_last()) + if s.last() == '\n' { 1int } else { 0int }
    }
}

/// How many bytes `s` takes in UTF-8.
pub open spec fn bytes_utf8(s: Seq<char>) -> int
    decreases s.len(),
{
    if s.len() == 0 {
        0
    } else {
        bytes_utf8(s.drop_last()) + utf8_len(s.last())
    }
}

/// Where the line that position `k` of `src` is on starts: just after the last
/// line break before `k`, or at 0.
pub open spec fn inicio_da_linha(src: Seq<char>, k: int) -> int
    decreases k,
{
    if k <= 0 {
        0
    } else if src[k - 1] == '\n' {
        k
    } else {
        inicio_da_linha(src, k - 1)
    }
}

/// The place of position `k` of `src`: its line is one more than the number of
/// line breaks before it, its column one more than the number of UTF-8 bytes
/// between the start of its line and it.
pub proof fn lei_linha_coluna(src: Seq<char>, k: int)
    requires
        0 <= k <= src.len(),
    ensures
        0 <= inicio_da_linha(src, k) <= k,
        linha_coluna(src, k) == (
            1 + quebras(src.take(k)),
            1 + bytes_utf8(src.subrange(inicio_da_linha(src, k), k)),
        ),
    decreases k,
{
    if k > 0 {
        lei_linha_coluna(src, k - 1);
        assert(src.take(k).drop_last() =~= src.take(k - 1));
        let a = inicio_da_linha(src, k);
        if src[k - 1] == '\n' {
            assert(src.subrange(a, k) =~= Seq::<char>::empty());
        } else {
            assert(src.subrange(a, k).drop_last() =~= src.subrange(a, k - 1));
        }
    } else {
        assert(src.take(0) =~= Seq::<char>::empty());
        assert(src.subrange(0, 0) =~= Seq::<char>::empty());
    }
}

// ─────────────────────────────────────────────────────────────────────────────
// Executable scanner
// ─────────────────────────────────────────────────────────────────────────────

fn eh_espaco_exec(c: char) -> (r: bool)
    ensures
        r == eh_espaco(c),
{
    c == ' ' || c == '\t' || c == '\r' || c == '\n' || c == '\x0C'
}

fn eh_digito_exec(c: char) -> (r: bool)
    ensures
        r == eh_digito(c),
{
    '0' <= c && c <= '9'
}

fn eh_inicio_ident_exec(c: char) -> (r: bool)
    ensures
        r == eh_inicio_ident(c),
{
    ('a' <= c && c <= 'z') || ('A' <= c && c <= 'Z') || c == '_'
}

fn pertence_exec(c: char, k: Classe) -> (r: bool)
    ensures
        r == pertence(c, k),
{
    match k {
        Classe::Espaco => eh_espaco_exec(c),
        Classe::Ident => eh_inicio_ident_exec(c) || eh_digito_exec(c),
        Classe::Digito => eh_digito_exec(c),
        Classe::Comentario => c != '\n',
        Classe::Texto => c != '"' && c != '\n',
    }
}

/// The end of the longest run of class `k` starting at `i`.
fn avancar(src: &Vec<char>, i: usize, k: Classe) -> (r: usize)
    requires
        i <= src.len(),
    ensures
        r == avanca(src@, i as int, k),
{
    let mut j = i;
    while j < src.len() && pertence_exec(src[j], k)
        invariant
            i <= j <= src.len(),
            avanca(src@, i as int, k) == avanca(src@, j as int, k),
        decreases src.len() - j,
    {
        j = j + 1;
    }
    j
}

/// Whether `src[ini..fim]` spells the text `lit`.
fn soletra(src: &Vec<char>, ini: usize, fim: usize, lit: &str) -> (r: bool)
    requires
        ini <= fim <= src.len(),
    ensures
        r == (src@.subrange(ini as int, fim as int) == lit@),
{
    let n = lit.unicode_len();
    if fim - ini != n {
        return false;
    }
    let mut i: usize = 0;
    while i < n
        invariant
            n == lit@.len(),
            fim - ini == n,
            ini <= fim <= src.len(),
            i <= n,
            forall|j: int| 0 <= j < i ==> src@[ini + j] == lit@[j],
        decreases n - i,
    {
        if src[ini + i] != lit.get_char(i) {
            assert(src@.subrange(ini as int, fim as int)[i as int] != lit@[i as int]);
            return false;
        }
        i = i + 1;
    }
    assert(src@.subrange(ini as int, fim as int) =~= lit@);
    true
}

/// The token of the word `src[ini..fim]`.
fn palavra_exec(src: &Vec<char>, ini: usize, fim: usize) -> (t: Token)
    requires
        ini <= fim <= src.len(),
    ensures
        t@ == palavra(src@.subrange(ini as int, fim as int)),
{
    if soletra(src, ini, fim, "var") {
        Token::Var
    } else if soletra(src, ini, fim, "if") {
        Token::If
    } else if soletra(src, ini, fim, "else") {
        Token::Else
    } else if soletra(src, ini, fim, "while") {
        Token::While
    } else if soletra(src, ini, fim, "print") {
        Token::Print
    } else if soletra(src, ini, fim, "read") {
        Token::Read
    } else if soletra(src, ini, fim, "int") {
        Token::IntType
    } else if soletra(src, ini, fim, "bool") {
        Token::BoolType
    } else if soletra(src, ini, fim, "string") {
        Token::StringType
    } else if soletra(src, ini, fim, "true") {
        Token::True
    } else if soletra(src, ini, fim, "false") {
        Token::False
    } else {
        Token::Ident(string_de_intervalo(src, ini, fim))
    }
}

/// The value of the digits `src[ini..fim]`, if it fits in an `i64`.
fn valor_exec(src: &Vec<char>, ini: usize, fim: usize) -> (r: Option<i64>)
    requires
        ini <= fim <= src.len(),
        forall|j: int| ini <= j < fim ==> eh_digito(#[trigger] src@[j]),
    ensures
        match r {
            Some(v) => valor(src@.subrange(ini as int, fim as int)) <= i64::MAX && v == valor(
                src@.subrange(ini as int, fim as int),
            ),
            None => valor(src@.subrange(ini as int, fim as int)) > i64::MAX,
        },
{
    let mut acc: u64 = 0;
    let mut estourou = false;
    let mut i = ini;
    assert(src@.subrange(ini as int, ini as int).len() == 0);
    while i < fim
        invariant
            ini <= i <= fim <= src.len(),
            forall|j: int| ini <= j < fim ==> eh_digito(#[trigger] src@[j]),
            !estourou ==> acc == valor(src@.subrange(ini as int, i as int)),
            estourou ==> valor(src@.subrange(ini as int, i as int)) > i64::MAX,
        decreases fim - i,
    {
        let c = src[i];
        assert(eh_digito(src@[i as int]));
        let d = (c as u32 - '0' as u32) as u64;
        let ghost anterior = src@.subrange(ini as int, i as int);
        let ghost atual = src@.subrange(ini as int, i + 1);
        assert(atual.drop_last() =~= anterior);
        assert(atual.last() == c);
        assert(valor(atual) == valor(anterior) * 10 + d);
        if !estourou {
            match acc.checked_mul(10) {
                Some(m) => match m.checked_add(d) {
                    Some(v) => {
                        acc = v;
                    },
                    None => {
                        estourou = true;
                    },
                },
                None => {
                    estourou = true;
                },
            }
        }
        i = i + 1;
    }
    if estourou || acc > i64::MAX as u64 {
        None
    } else {
        Some(acc as i64)
    }
}

/// Executable form of a step.
enum Lido {
    Pula(usize),
    Tok(Token, usize),
    Erro(usize),
}

spec fn lido_corresponde(l: Lido, p: Passo) -> bool {
    match (l, p) {
        (Lido::Pula(e), Passo::Pula(f)) => e == f,
        (Lido::Tok(t, e), Passo::Tok(u, f)) => e == f && t@ == u,
        (Lido::Erro(e), Passo::Erro(f)) => e == f,
        _ => false,
    }
}

fn simples_exec(c: char) -> (r: Option<Token>)
    ensures
        match (r, simples(c)) {
            (Some(t), Some(u)) => t@ == u,
            (None, None) => true,
            _ => false,
        },
{
    if c == '+' {
        Some(Token::Plus)
    } else if c == '-' {
        Some(Token::Minus)
    } else if c == '*' {
        Some(Token::Star)
    } else if c == '%' {
        Some(Token::Mod)
    } else if c == ';' {
        Some(Token::Semicolon)
    } else if c == ':' {
        Some(Token::Colon)
    } else if c == '(' {
        Some(Token::LParen)
    } else if c == ')' {
        Some(Token::RParen)
    } else if c == '{' {
        Some(Token::LBrace)
    } else if c == '}' {
        Some(Token::RBrace)
    } else {
        None
    }
}

/// One step of the scanner at `pos`.
fn ler(src: &Vec<char>, pos: usize) -> (r: Lido)
    requires
        pos < src.len(),
    ensures
        lido_corresponde(r, passo(src@, pos as int)),
{
    let c = src[pos];
    let seguinte: Option<char> = if pos + 1 < src.len() { Some(src[pos + 1]) } else { None };
    if eh_espaco_exec(c) {
        Lido::Pula(avancar(src, pos, Classe::Espaco))
    } else if c == '/' {
        if seguinte == Some('/') {
            Lido::Pula(avancar(src, pos, Classe::Comentario))
        } else {
            Lido::Tok(Token::Slash, pos + 1)
        }
    } else if eh_inicio_ident_exec(c) {
        let e = avancar(src, pos, Classe::Ident);
        proof {
            lemma_avanca(src@, pos as int, Classe::Ident);
        }
        Lido::Tok(palavra_exec(src, pos, e), e)
    } else if eh_digito_exec(c) {
        let e = avancar(src, pos, Classe::Digito);
        proof {
            lemma_avanca(src@, pos as int, Classe::Digito);
        }
        match valor_exec(src, pos, e) {
            Some(v) => Lido::Tok(Token::Number(v), e),
            None => Lido::Erro(e),
        }
    } else if c == '"' {
        let q = avancar(src, pos + 1, Classe::Texto);
        proof {
            lemma_avanca(src@, pos + 1, Classe::Texto);
        }
        if q < src.len() && src[q] == '"' {
            Lido::Tok(Token::StringLit(string_de_intervalo(src, pos + 1, q)), q + 1)
        } else {
            Lido::Erro(q)
        }
    } else if c == '=' {
        if seguinte == Some('=') {
            Lido::Tok(Token::Eq, pos + 2)
        } else {
            Lido::Tok(Token::Assign, pos + 1)
        }
    } else if c == '!' {
        if seguinte == Some('=') {
            Lido::Tok(Token::Neq, pos + 2)
        } else {
            Lido::Tok(Token::Not, pos + 1)
        }
    } else if c == '<' {
        if seguinte == Some('=') {
            Lido::Tok(Token::Le, pos + 2)
        } else {
            Lido::Tok(Token::Lt, pos + 1)
        }
    } else if c == '>' {
        if seguinte == Some('=') {
            Lido::Tok(Token::Ge, pos + 2)
        } else {
            Lido::Tok(Token::Gt, pos + 1)
        }
    } else if c == '&' {
        if seguinte == Some('&') {
            Lido::Tok(Token::And, pos + 2)
        } else {
            Lido::Erro(pos + 1)
        }
    } else if c == '|' {
        if seguinte == Some('|') {
            Lido::Tok(Token::Or, pos + 2)
        } else {
            Lido::Erro(pos + 1)
        }
    } else {
        match simples_exec(c) {
            Some(t) => Lido::Tok(t, pos + 1),
            None => Lido::Erro(pos + 1),
        }
    }
}

/// Number of bytes of `c` in UTF-8.
fn utf8_len_exec(c: char) -> (r: usize)
    ensures
        r == utf8_len(c),
{
    let u = c as u32;
    if u < 0x80 {
        1
    } else if u < 0x800 {
        2
    } else if u < 0x10000 {
        3
    } else {
        4
    }
}

/// Converts a position into (line, column), both 1-based; the column counts bytes.
fn byte_offset_to_line_col(src: &Vec<char>, offset: usize) -> (r: (usize, usize))
    requires
        offset <= src.len(),
        src.len() <= usize::MAX / 8,
    ensures
        r.0 == linha_coluna(src@, offset as int).0,
        r.1 == linha_coluna(src@, offset as int).1,
{
    let mut line: usize = 1;
    let mut col: usize = 1;
    let mut i: usize = 0;
    while i < offset
        invariant
            i <= offset <= src.len(),
            src.len() <= usize::MAX / 8,
            line == linha_coluna(src@, i as int).0,
            col == linha_coluna(src@, i as int).1,
        decreases offset - i,
    {
        proof {
            lemma_linha_coluna_limites(src@, i as int);
        }
        if src[i] == '\n' {
            line = line + 1;
            col = 1;
        } else {
            col = col + utf8_len_exec(src[i]);
        }
        i = i + 1;
    }
    (line, col)
}

/// The characters of a string.
fn caracteres(s: &str) -> (r: Vec<char>)
    ensures
        r@ == s@,
{
    let mut v: Vec<char> = Vec::new();
    for c in it: s.chars()
        invariant
            v@ == it.seq().take(it.index()),
    {
        v.push(c);
    }
    v
}

/// Turns `source` into a stream of tokens with their places.
///
/// All lexical errors are gathered before returning, so that every problem is
/// reported at once: the result is `Ok` with every token when there is none,
/// and `Err` with every error, in order, otherwise.
pub fn lex(source: &str) -> (r: Result<Vec<SpannedToken>, Vec<PBError>>)
    requires
        source@.len() <= usize::MAX / 8,
    ensures
        varre(source@, 0).1.len() == 0 ==> (r matches Ok(v) && tokens_v(v@) == varre(source@, 0).0),
        varre(source@, 0).1.len() > 0 ==> (r matches Err(v) && erros_v(v@) == varre(source@, 0).1),
{
    let src = caracteres(source);
    let mut tokens: Vec<SpannedToken> = Vec::new();
    let mut errors: Vec<PBError> = Vec::new();
    let mut pos: usize = 0;
    while pos < src.len()
        invariant
            src@ == source@,
            pos <= src.len(),
            src.len() <= usize::MAX / 8,
            varre(src@, 0).0 == tokens_v(tokens@) + varre(src@, pos as int).0,
            varre(src@, 0).1 == erros_v(errors@) + varre(src@, pos as int).1,
        decreases src.len() - pos,
    {
        proof {
            lemma_passo_avanca(src@, pos as int);
        }
        let lido = ler(&src, pos);
        let ghost ts_antes = tokens@;
        let ghost es_antes = errors@;
        match lido {
            Lido::Pula(e) => {
                pos = e;
            },
            Lido::Tok(token, e) => {
                let lexeme = string_de_intervalo(&src, pos, e);
                let (line, col) = byte_offset_to_line_col(&src, pos);
                tokens.push(SpannedToken { token, lexeme, line, col });
                assert(tokens_v(tokens@) =~= tokens_v(ts_antes) + seq![token_em(src@, token@, pos as int, e as int)]);
                pos = e;
            },
            Lido::Erro(e) => {
                let lexeme = string_de_intervalo(&src, pos, e);
                let (line, col) = byte_offset_to_line_col(&src, pos);
                let mut message = String::from_str("Caractere inesperado: '");
                message.append(lexeme.as_str());
                message.append("'");
                errors.push(PBError::Lexical { message, line, col });
                assert(erros_v(errors@) =~= erros_v(es_antes) + seq![erro_em(src@, pos as int, e as int)]);
                pos = e;
            },
        }
    }
    if errors.len() == 0 {
        Ok(tokens)
    } else {
        Err(errors)
    }
}

} // verus!
