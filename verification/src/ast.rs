use vstd::prelude::*;

verus! {

/// Location in the source text (1-based line and column), carried by every AST node.
#[derive(Debug, Clone, Copy, PartialEq, Eq, Structural)]
pub struct Span {
    pub line: usize,
    pub col: usize,
}

impl Span {
    pub fn new(line: usize, col: usize) -> (r: Self)
        ensures
            r.line == line,
            r.col == col,
    {
        Span { line, col }
    }
}

/// Primitive types of the language.
#[derive(Debug, Clone, Copy, PartialEq, Eq, Structural)]
pub enum Tipo {
    Int,
    Bool,
    String,
}

/// The name of a type as written in source programs.
pub open spec fn tipo_nome(t: Tipo) -> Seq<char> {
    match t {
        Tipo::Int => "int"@,
        Tipo::Bool => "bool"@,
        Tipo::String => "string"@,
    }
}

impl Tipo {
    /// The name of the type as written in source programs (`int`, `bool`, `string`).
    pub fn nome(&self) -> (r: &'static str)
        ensures
            r@ == tipo_nome(*self),
    {
        match self {
            Tipo::Int => "int",
            Tipo::Bool => "bool",
            Tipo::String => "string",
        }
    }
}

/// Root of the AST: declarations followed by commands.
#[derive(Debug, PartialEq)]
pub struct Programa {
    pub declaracoes: Vec<Declaracao>,
    pub comandos: Vec<Comando>,
}

/// `var ID : tipo ;`
#[derive(Debug, Clone, PartialEq)]
pub struct Declaracao {
    pub nome: String,
    pub tipo: Tipo,
    pub span: Span,
}

/// Command node.
#[derive(Debug, PartialEq)]
pub enum Comando {
    /// `ID = expressão ;`
    Atribuicao { nome: String, expr: Expressao, span: Span },
    /// `if ( expressão ) bloco ( else bloco )?`
    If { condicao: Expressao, entao: Vec<Comando>, senao: Option<Vec<Comando>>, span: Span },
    /// `while ( expressão ) bloco`
    While { condicao: Expressao, corpo: Vec<Comando>, span: Span },
    /// `print ( expressão ) ;`
    Print { expr: Expressao, span: Span },
    /// `read ( ID ) ;`
    Read { nome: String, span: Span },
    /// `{ comando* }`
    Bloco(Vec<Comando>),
}

/// Expression node; precedence is captured by the shape of the tree.
#[allow(inconsistent_fields)]
#[derive(Debug, PartialEq)]
pub enum Expressao {
    LitInt(i64, Span),
    LitBool(bool, Span),
    LitString(String, Span),
    Var(String, Span),
    BinOp { op: OpBin, esq: Box<Expressao>, dir: Box<Expressao>, span: Span },
    UnOp { op: OpUn, operando: Box<Expressao>, span: Span },
}

/// Binary operators.
#[derive(Debug, Clone, Copy, PartialEq, Eq, Structural)]
pub enum OpBin {
    Mul,
    Div,
    Mod,
    Add,
    Sub,
    Gt,
    Lt,
    Ge,
    Le,
    Eq,
    Neq,
    And,
    Or,
}

/// Source symbol of a binary operator.
pub open spec fn opbin_simbolo(op: OpBin) -> Seq<char> {
    match op {
        OpBin::Mul => "*"@,
        OpBin::Div => "/"@,
        OpBin::Mod => "%"@,
        OpBin::Add => "+"@,
        OpBin::Sub => "-"@,
        OpBin::Gt => ">"@,
        OpBin::Lt => "<"@,
        OpBin::Ge => ">="@,
        OpBin::Le => "<="@,
        OpBin::Eq => "=="@,
        OpBin::Neq => "!="@,
        OpBin::And => "&&"@,
        OpBin::Or => "||"@,
    }
}

impl OpBin {
    /// The operator as written in source programs.
    pub fn simbolo(&self) -> (r: &'static str)
        ensures
            r@ == opbin_simbolo(*self),
    {
        match self {
            OpBin::Mul => "*",
            OpBin::Div => "/",
            OpBin::Mod => "%",
            OpBin::Add => "+",
            OpBin::Sub => "-",
            OpBin::Gt => ">",
            OpBin::Lt => "<",
            OpBin::Ge => ">=",
            OpBin::Le => "<=",
            OpBin::Eq => "==",
            OpBin::Neq => "!=",
            OpBin::And => "&&",
            OpBin::Or => "||",
        }
    }
}

/// Unary operators.
#[derive(Debug, Clone, Copy, PartialEq, Eq, Structural)]
pub enum OpUn {
    Neg,
    Not,
}

/// Source symbol of a unary operator.
pub open spec fn opun_simbolo(op: OpUn) -> Seq<char> {
    match op {
        OpUn::Neg => "-"@,
        OpUn::Not => "!"@,
    }
}

impl OpUn {
    /// The operator as written in source programs.
    pub fn simbolo(&self) -> (r: &'static str)
        ensures
            r@ == opun_simbolo(*self),
    {
        match self {
            OpUn::Neg => "-",
            OpUn::Not => "!",
        }
    }
}

// ── Mathematical model of the AST: names become character sequences ─────────

#[allow(inconsistent_fields)]
pub enum ExprV {
    LitInt(i64, Span),
    LitBool(bool, Span),
    LitString(Seq<char>, Span),
    Var(Seq<char>, Span),
    BinOp { op: OpBin, esq: Box<ExprV>, dir: Box<ExprV>, span: Span },
    UnOp { op: OpUn, operando: Box<ExprV>, span: Span },
}

pub enum CmdV {
    Atribuicao { nome: Seq<char>, expr: ExprV, span: Span },
    If { condicao: ExprV, entao: Seq<CmdV>, senao: Option<Seq<CmdV>>, span: Span },
    While { condicao: ExprV, corpo: Seq<CmdV>, span: Span },
    Print { expr: ExprV, span: Span },
    Read { nome: Seq<char>, span: Span },
    Bloco(Seq<CmdV>),
}

pub struct DeclV {
    pub nome: Seq<char>,
    pub tipo: Tipo,
    pub span: Span,
}

pub struct ProgV {
    pub declaracoes: Seq<DeclV>,
    pub comandos: Seq<CmdV>,
}

pub open spec fn expr_v(e: Expressao) -> ExprV
    decreases e,
{
    match e {
        Expressao::LitInt(n, s) => ExprV::LitInt(n, s),
        Expressao::LitBool(b, s) => ExprV::LitBool(b, s),
        Expressao::LitString(t, s) => ExprV::LitString(t@, s),
        Expressao::Var(n, s) => ExprV::Var(n@, s),
        Expressao::BinOp { op, esq, dir, span } => ExprV::BinOp {
            op,
            esq: Box::new(expr_v(*esq)),
            dir: Box::new(expr_v(*dir)),
            span,
        },
        Expressao::UnOp { op, operando, span } => ExprV::UnOp {
            op,
            operando: Box::new(expr_v(*operando)),
            span,
        },
    }
}

impl View for Expressao {
    type V = ExprV;

    open spec fn view(&self) -> ExprV {
        expr_v(*self)
    }
}

pub open spec fn cmd_v(c: Comando) -> CmdV
    decreases c, 1nat,
{
    match c {
        Comando::Atribuicao { nome, expr, span } => CmdV::Atribuicao { nome: nome@, expr: expr@, span },
        Comando::If { condicao, entao, senao, span } => CmdV::If {
            condicao: condicao@,
            entao: cmds_v(entao@),
            senao: match senao {
                Some(v) => Some(cmds_v(v@)),
                None => None,
            },
            span,
        },
        Comando::While { condicao, corpo, span } => CmdV::While {
            condicao: condicao@,
            corpo: cmds_v(corpo@),
            span,
        },
        Comando::Print { expr, span } => CmdV::Print { expr: expr@, span },
        Comando::Read { nome, span } => CmdV::Read { nome: nome@, span },
        Comando::Bloco(v) => CmdV::Bloco(cmds_v(v@)),
    }
}

pub open spec fn cmds_v(s: Seq<Comando>) -> Seq<CmdV>
    decreases s, 0nat,
{
    if s.len() == 0 {
        Seq::empty()
    } else {
        cmds_v(s.subrange(0, s.len() - 1)).push(cmd_v(s[s.len() - 1]))
    }
}

/// The model of a list of commands has one model per command, in order.
pub proof fn lemma_cmds_v(s: Seq<Comando>)
    ensures
        cmds_v(s).len() == s.len(),
        forall|i: int| 0 <= i < s.len() ==> #[trigger] cmds_v(s)[i] == cmd_v(s[i]),
    decreases s.len(),
{
    if s.len() > 0 {
        lemma_cmds_v(s.subrange(0, s.len() - 1));
        assert forall|i: int| 0 <= i < s.len() implies #[trigger] cmds_v(s)[i] == cmd_v(s[i]) by {
            if i < s.len() - 1 {
                assert(s.subrange(0, s.len() - 1)[i] == s[i]);
            }
        }
    }
}

impl View for Comando {
    type V = CmdV;

    open spec fn view(&self) -> CmdV {
        cmd_v(*self)
    }
}

impl View for Declaracao {
    type V = DeclV;

    open spec fn view(&self) -> DeclV {
        DeclV { nome: self.nome@, tipo: self.tipo, span: self.span }
    }
}

pub open spec fn decls_v(s: Seq<Declaracao>) -> Seq<DeclV> {
    Seq::new(s.len(), |i: int| s[i]@)
}

impl View for Programa {
    type V = ProgV;

    open spec fn view(&self) -> ProgV {
        ProgV { declaracoes: decls_v(self.declaracoes@), comandos: cmds_v(self.comandos@) }
    }
}

/// The span of an expression, whichever its variant.
pub open spec fn span_de(e: ExprV) -> Span {
    match e {
        ExprV::LitInt(_, s) => s,
        ExprV::LitBool(_, s) => s,
        ExprV::LitString(_, s) => s,
        ExprV::Var(_, s) => s,
        ExprV::BinOp { span, .. } => span,
        ExprV::UnOp { span, .. } => span,
    }
}

impl Expressao {
    /// Returns the `Span` of any variant, for error messages.
    pub fn span(&self) -> (r: &Span)
        ensures
            *r == span_de(self@),
    {
        match self {
            Expressao::LitInt(_, s) => s,
            Expressao::LitBool(_, s) => s,
            Expressao::LitString(_, s) => s,
            Expressao::Var(_, s) => s,
            Expressao::BinOp { span, .. } => span,
            Expressao::UnOp { span, .. } => span,
        }
    }
}

} // verus!
