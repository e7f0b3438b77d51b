use vstd::prelude::*;

use crate::texto::{alinhado3, decimal_alinhado3, decimal_spec};

verus! {

/// Errors of every phase of the compiler, each with its location and a readable message.
/// The phases accumulate them in a `Vec<PBError>` rather than stopping at the first.
#[derive(Debug, Clone, PartialEq)]
pub enum PBError {
    Lexical { message: String, line: usize, col: usize },
    Syntactic { message: String, line: usize, col: usize },
    Semantic { message: String, line: usize, col: usize },
}

/// The phase that reported an error.
#[derive(Debug, Clone, Copy, PartialEq, Eq, Structural)]
pub enum Fase {
    Lexica,
    Sintatica,
    Semantica,
}

/// Model of an error: its phase, message and location.
pub struct ErroV {
    pub fase: Fase,
    pub message: Seq<char>,
    pub line: usize,
    pub col: usize,
}

impl View for PBError {
    type V = ErroV;

    open spec fn view(&self) -> ErroV {
        match self {
            PBError::Lexical { message, line, col } => ErroV {
                fase: Fase::Lexica,
                message: message@,
                line: *line,
                col: *col,
            },
            PBError::Syntactic { message, line, col } => ErroV {
                fase: Fase::Sintatica,
                message: message@,
                line: *line,
                col: *col,
            },
            PBError::Semantic { message, line, col } => ErroV {
                fase: Fase::Semantica,
                message: message@,
                line: *line,
                col: *col,
            },
        }
    }
}

/// Model of a list of errors.
pub open spec fn erros_v(s: Seq<PBError>) -> Seq<ErroV> {
    Seq::new(s.len(), |i: int| s[i]@)
}

/// Every error of the list was reported by phase `f`.
pub open spec fn da_fase(es: Seq<ErroV>, f: Fase) -> bool {
    forall|i: int| 0 <= i < es.len() ==> (#[trigger] es[i]).fase == f
}

/// Two lists of errors of phase `f`, one after the other, are of phase `f`.
pub broadcast proof fn lemma_da_fase_concat(a: Seq<ErroV>, b: Seq<ErroV>, f: Fase)
    requires
        da_fase(a, f),
        da_fase(b, f),
    ensures
        #[trigger] da_fase(a + b, f),
{
    assert forall|i: int| 0 <= i < (a + b).len() implies (#[trigger] (a + b)[i]).fase == f by {
        if i < a.len() {
            assert((a + b)[i] == a[i]);
        } else {
            assert((a + b)[i] == b[i - a.len()]);
        }
    }
}

/// The prefix that names the phase in a printed error.
pub open spec fn prefixo_fase(f: Fase) -> Seq<char> {
    match f {
        Fase::Lexica => "[ERRO LÉXICO]    Linha "@,
        Fase::Sintatica => "[ERRO SINTÁTICO] Linha "@,
        Fase::Semantica => "[ERRO SEMÂNTICO] Linha "@,
    }
}

/// The text of a printed error: phase, line and column right-aligned in width 3, message.
pub open spec fn formatado(e: ErroV) -> Seq<char> {
    prefixo_fase(e.fase) + alinhado3(decimal_spec(e.line as nat)) + ", Col "@
        + alinhado3(decimal_spec(e.col as nat)) + "  "@ + e.message
}

impl PBError {
    /// The printed form of the error, e.g. `[ERRO LÉXICO]    Linha   3, Col   7  <message>`.
    pub fn formatar(&self) -> (r: String)
        ensures
            r@ == formatado(self@),
    {
        let (prefixo, message, line, col) = match self {
            PBError::Lexical { message, line, col } => ("[ERRO LÉXICO]    Linha ", message, *line, *col),
            PBError::Syntactic { message, line, col } => ("[ERRO SINTÁTICO] Linha ", message, *line, *col),
            PBError::Semantic { message, line, col } => ("[ERRO SEMÂNTICO] Linha ", message, *line, *col),
        };
        let mut r = String::from_str(prefixo);
        let l = decimal_alinhado3(line);
        r.append(l.as_str());
        r.append(", Col ");
        let c = decimal_alinhado3(col);
        r.append(c.as_str());
        r.append("  ");
        r.append(message.as_str());
        r
    }
}

} // verus!
