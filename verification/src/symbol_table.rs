use vstd::prelude::*;

use crate::ast::{Span, Tipo};
use crate::error::{ErroV, Fase, PBError};
use crate::texto::{decimal, decimal_spec};

verus! {

/// What is recorded for each declared variable.
#[derive(Debug, Clone, Copy, PartialEq, Eq, Structural)]
pub struct Simbolo {
    pub tipo: Tipo,
    /// Where the variable was declared; shown when it is declared again.
    pub span_decl: Span,
}

/// Maps identifiers to their type and place of declaration.
///
/// The language has no nested scopes, so one flat table suffices. The entries
/// are kept in declaration order and no name occurs twice.
#[derive(Debug)]
pub struct TabelaDeSimbolos {
    entradas: Vec<(String, Simbolo)>,
}

/// The map that a sequence of entries describes (a later entry wins, though
/// the table never holds a name twice).
pub open spec fn mapa_de(s: Seq<(String, Simbolo)>) -> Map<Seq<char>, Simbolo>
    decreases s.len(),
{
    if s.len() == 0 {
        Map::empty()
    } else {
        mapa_de(s.drop_last()).insert(s.last().0@, s.last().1)
    }
}

/// No name occurs twice among the entries.
pub open spec fn nomes_distintos(s: Seq<(String, Simbolo)>) -> bool {
    forall|i: int, j: int| 0 <= i < j < s.len() ==> s[i].0@ != s[j].0@
}

/// The message for a second declaration of `nome`, first declared at `orig`.
pub open spec fn msg_redeclaracao(nome: Seq<char>, orig: Span) -> Seq<char> {
    "Variável '"@ + nome + "' já foi declarada (declaração original na linha "@
        + decimal_spec(orig.line as nat) + ", coluna "@ + decimal_spec(orig.col as nat) + ")"@
}

/// The message for the use of an undeclared `nome`.
pub open spec fn msg_nao_declarada(nome: Seq<char>) -> Seq<char> {
    "Variável '"@ + nome + "' usada antes de ser declarada"@
}

/// The error reported when `nome`, already declared at `orig`, is declared again at `span`.
pub open spec fn erro_redeclaracao(nome: Seq<char>, orig: Span, span: Span) -> ErroV {
    ErroV { fase: Fase::Semantica, message: msg_redeclaracao(nome, orig), line: span.line, col: span.col }
}

/// The error reported when the undeclared `nome` is used at `span`.
pub open spec fn erro_nao_declarada(nome: Seq<char>, span: Span) -> ErroV {
    ErroV { fase: Fase::Semantica, message: msg_nao_declarada(nome), line: span.line, col: span.col }
}

proof fn lemma_mapa_de(s: Seq<(String, Simbolo)>)
    ensures
        forall|k: Seq<char>| #[trigger] mapa_de(s).dom().contains(k)
            <==> exists|i: int| 0 <= i < s.len() && s[i].0@ == k,
        nomes_distintos(s) ==> forall|i: int|
            0 <= i < s.len() ==> #[trigger] mapa_de(s)[s[i].0@] == s[i].1,
    decreases s.len(),
{
    if s.len() > 0 {
        let p = s.drop_last();
        lemma_mapa_de(p);
        assert forall|k: Seq<char>| #[trigger] mapa_de(s).dom().contains(k)
            <==> exists|i: int| 0 <= i < s.len() && s[i].0@ == k by {
            assert(mapa_de(s) == mapa_de(p).insert(s.last().0@, s.last().1));
            if mapa_de(s).dom().contains(k) && k != s.last().0@ {
                assert(mapa_de(p).dom().contains(k));
                let i = choose|i: int| 0 <= i < p.len() && p[i].0@ == k;
                assert(s[i] == p[i]);
            }
            if exists|i: int| 0 <= i < s.len() && s[i].0@ == k {
                let i = choose|i: int| 0 <= i < s.len() && s[i].0@ == k;
                if i < s.len() - 1 {
                    assert(p[i] == s[i]);
                    assert(mapa_de(p).dom().contains(k));
                }
            }
        }
        if nomes_distintos(s) {
            assert forall|i: int| 0 <= i < s.len() implies #[trigger] mapa_de(s)[s[i].0@] == s[i].1 by {
                assert(mapa_de(s) == mapa_de(p).insert(s.last().0@, s.last().1));
                if i < s.len() - 1 {
                    assert(p[i] == s[i]);
                    assert(nomes_distintos(p));
                    assert(s[i].0@ != s[s.len() - 1].0@);
                    assert(mapa_de(p)[p[i].0@] == p[i].1);
                }
            }
        }
    }
}

impl TabelaDeSimbolos {
    #[verifier::type_invariant]
    spec fn bem_formada(self) -> bool {
        nomes_distintos(self.entradas@)
    }

    /// The declared variables, each with its type and place of declaration.
    pub closed spec fn mapa(self) -> Map<Seq<char>, Simbolo> {
        mapa_de(self.entradas@)
    }

    /// An empty table.
    pub fn new() -> (r: Self)
        ensures
            r.mapa() == Map::<Seq<char>, Simbolo>::empty(),
    {
        TabelaDeSimbolos { entradas: Vec::new() }
    }

    /// The index of the entry named `chave`, if any.
    fn posicao(&self, chave: &String) -> (r: Option<usize>)
        ensures
            match r {
                Some(i) => i < self.entradas@.len() && self.entradas@[i as int].0@ == chave@,
                None => forall|i: int| 0 <= i < self.entradas@.len() ==> self.entradas@[i].0@ != chave@,
            },
    {
        let mut i: usize = 0;
        while i < self.entradas.len()
            invariant
                i <= self.entradas@.len(),
                forall|j: int| 0 <= j < i ==> self.entradas@[j].0@ != chave@,
            decreases self.entradas@.len() - i,
        {
            if self.entradas[i].0 == *chave {
                return Some(i);
            }
            i = i + 1;
        }
        None
    }

    /// Records a new variable.
    ///
    /// Returns `Err` if the identifier was already declared, with a message that
    /// gives the place of the original declaration; the table is then unchanged.
    pub fn declarar(&mut self, nome: &str, tipo: Tipo, span: &Span) -> (r: Result<(), PBError>)
        ensures
            old(self).mapa().dom().contains(nome@) ==> {
                &&& final(self).mapa() == old(self).mapa()
                &&& r matches Err(e) && e@ == erro_redeclaracao(
                    nome@,
                    old(self).mapa()[nome@].span_decl,
                    *span,
                )
            },
            !old(self).mapa().dom().contains(nome@) ==> {
                &&& r is Ok
                &&& final(self).mapa() == old(self).mapa().insert(
                    nome@,
                    Simbolo { tipo, span_decl: *span },
                )
            },
    {
        proof {
            use_type_invariant(&*self);
            lemma_mapa_de(self.entradas@);
        }
        let chave = String::from_str(nome);
        match self.posicao(&chave) {
            Some(i) => {
                let orig = self.entradas[i].1.span_decl;
                let mut msg = String::from_str("Variável '");
                msg.append(nome);
                msg.append("' já foi declarada (declaração original na linha ");
                let l = decimal(orig.line);
                msg.append(l.as_str());
                msg.append(", coluna ");
                let c = decimal(orig.col);
                msg.append(c.as_str());
                msg.append(")");
                Err(PBError::Semantic { message: msg, line: span.line, col: span.col })
            },
            None => {
                let ghost antes = self.entradas@;
                let sim = Simbolo { tipo, span_decl: *span };
                let mut entradas = Vec::new();
                std::mem::swap(&mut entradas, &mut self.entradas);
                entradas.push((chave, sim));
                assert(entradas@.drop_last() =~= antes);
                assert(nomes_distintos(entradas@)) by {
                    assert forall|i: int, j: int| 0 <= i < j < entradas@.len() implies
                        entradas@[i].0@ != entradas@[j].0@ by {
                        if j < entradas@.len() - 1 {
                            assert(entradas@[i] == antes[i]);
                            assert(entradas@[j] == antes[j]);
                        } else {
                            assert(entradas@[i] == antes[i]);
                        }
                    }
                }
                self.entradas = entradas;
                Ok(())
            },
        }
    }

    /// The type of a declared variable; `Err` if the identifier was not declared.
    pub fn consultar(&self, nome: &str, span: &Span) -> (r: Result<&Tipo, PBError>)
        ensures
            self.mapa().dom().contains(nome@) ==> (r matches Ok(t) && *t == self.mapa()[nome@].tipo),
            !self.mapa().dom().contains(nome@) ==> (r matches Err(e) && e@ == erro_nao_declarada(
                nome@,
                *span,
            )),
    {
        proof {
            use_type_invariant(self);
            lemma_mapa_de(self.entradas@);
        }
        let chave = String::from_str(nome);
        match self.posicao(&chave) {
            Some(i) => Ok(&self.entradas[i].1.tipo),
            None => {
                let mut msg = String::from_str("Variável '");
                msg.append(nome);
                msg.append("' usada antes de ser declarada");
                Err(PBError::Semantic { message: msg, line: span.line, col: span.col })
            },
        }
    }
}

impl Default for TabelaDeSimbolos {
    fn default() -> (r: Self)
        ensures
            r.mapa() == Map::<Seq<char>, Simbolo>::empty(),
    {
        TabelaDeSimbolos::new()
    }
}

} // verus!
