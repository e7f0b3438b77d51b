//! The calls into `inkwell` (LLVM) that code generation makes, one per function.
//!
//! LLVM's values (types, instructions, blocks, the module) are opaque here. What
//! the library knows of them is kept in an [`Emissor`]: the builder together with a
//! ghost model of everything that was asked of LLVM through it: the ordered log of
//! requests, the block the builder is positioned at, whether that block already
//! ends with a terminator, the blocks, stack slots and functions created so far.
//! Each wrapper below states how its call changes that model; those statements
//! are what the rest of the library is proved against.
//!
//! Every `build_*` method of `inkwell` used here fails only with
//! `BuilderError::UnsetPosition`, when the builder is not positioned at a block;
//! the wrappers state so, which lets the generator prove that it never fails.
//!
//! The model holds while this emitter is the only one adding instructions to the
//! blocks it created, which is the case inside this library: neither the blocks
//! nor the builder ever leave it.
use vstd::prelude::*;

use inkwell::basic_block::BasicBlock;
use inkwell::builder::{Builder, BuilderError};
use inkwell::context::Context;
use inkwell::module::{Linkage, Module};
use inkwell::types::BasicTypeEnum;
use inkwell::values::{
    ArrayValue, BasicMetadataValueEnum, BasicValueEnum, CallSiteValue, FunctionValue, GlobalValue, IntValue,
    PointerValue, ValueKind,
};
use inkwell::{AddressSpace, IntPredicate};

verus! {

// ── Outside types ─────────────────────────────────────────────────────────────

#[verifier::external_type_specification]
#[verifier::external_body]
pub struct ExContext(Context);

#[verifier::external_type_specification]
#[verifier::external_body]
pub struct ExModule<'ctx>(Module<'ctx>);

#[verifier::external_type_specification]
#[verifier::external_body]
pub struct ExBuilder<'ctx>(Builder<'ctx>);

#[verifier::external_type_specification]
#[verifier::external_body]
pub struct ExBuilderError(BuilderError);

#[verifier::external_type_specification]
#[verifier::external_body]
pub struct ExBasicBlock<'ctx>(BasicBlock<'ctx>);

#[verifier::external_type_specification]
#[verifier::external_body]
pub struct ExFunctionValue<'ctx>(FunctionValue<'ctx>);

#[verifier::external_type_specification]
#[verifier::external_body]
pub struct ExPointerValue<'ctx>(PointerValue<'ctx>);

#[verifier::external_type_specification]
#[verifier::external_body]
pub struct ExIntValue<'ctx>(IntValue<'ctx>);

#[verifier::external_type_specification]
#[verifier::external_body]
pub struct ExArrayValue<'ctx>(ArrayValue<'ctx>);

#[verifier::external_type_specification]
#[verifier::external_body]
pub struct ExGlobalValue<'ctx>(GlobalValue<'ctx>);

#[verifier::external_type_specification]
#[verifier::external_body]
pub struct ExBasicValueEnum<'ctx>(BasicValueEnum<'ctx>);

#[verifier::external_type_specification]
#[verifier::external_body]
pub struct ExBasicMetadataValueEnum<'ctx>(BasicMetadataValueEnum<'ctx>);

// ── Plain descriptions of what is asked of LLVM ──────────────────────────────

/// An LLVM type the generated code uses. `Ptr` is `i8*`; `Vetor(n)` is `[n x i8]`.
#[derive(Clone, Copy, PartialEq, Eq, Structural)]
pub enum TipoIR {
    I1,
    I8,
    I32,
    Ptr,
    Vetor(u32),
}

/// An integer type.
pub open spec fn eh_inteiro(t: TipoIR) -> bool {
    t == TipoIR::I1 || t == TipoIR::I8 || t == TipoIR::I32
}

/// The signatures of the functions the generated module declares or defines.
#[derive(Clone, Copy, PartialEq, Eq, Structural)]
pub enum Assinatura {
    /// `i32 (i8*, ...)`
    VariadicaI32,
    /// `i8* (i8*, i8*)`
    PtrPtrParaPtr,
    /// `i32 (i8*, i8*)`
    PtrPtrParaI32,
    /// `i32 ()`
    SemParametrosI32,
}

/// The signature returns an `i32`.
pub open spec fn retorna_i32(a: Assinatura) -> bool {
    a != Assinatura::PtrPtrParaPtr
}

/// An integer instruction with two operands.
#[derive(Clone, Copy, PartialEq, Eq, Structural)]
pub enum OpIR {
    Add,
    Sub,
    Mul,
    SDiv,
    SRem,
    And,
    Or,
    Xor,
}

/// The predicate of an integer comparison.
#[derive(Clone, Copy, PartialEq, Eq, Structural)]
pub enum Predicado {
    Eq,
    Ne,
    Sgt,
    Slt,
    Sge,
    Sle,
}

/// What an `icmp` with predicate `p` answers on the integers `a` and `b` (the
/// `s` predicates compare as signed numbers).
pub open spec fn compara_llvm(p: Predicado, a: int, b: int) -> bool {
    match p {
        Predicado::Eq => a == b,
        Predicado::Ne => a != b,
        Predicado::Sgt => a > b,
        Predicado::Slt => a < b,
        Predicado::Sge => a >= b,
        Predicado::Sle => a <= b,
    }
}

/// What an integer instruction `o` computes on the integers `a` and `b`, before
/// the result is wrapped to the width of its type: `sdiv` rounds toward zero and
/// `srem` has the sign of `a`; `and`, `or` and `xor` are taken on `i1` values
/// (0 or 1).
pub open spec fn calcula_llvm(o: OpIR, a: int, b: int) -> int {
    let q = if (a >= 0) == (b >= 0) {
        abs_int(a) / abs_int(b)
    } else {
        -(abs_int(a) / abs_int(b))
    };
    match o {
        OpIR::Add => a + b,
        OpIR::Sub => a - b,
        OpIR::Mul => a * b,
        OpIR::SDiv => q,
        OpIR::SRem => a - b * q,
        OpIR::And => if a != 0 && b != 0 { 1 } else { 0 },
        OpIR::Or => if a != 0 || b != 0 { 1 } else { 0 },
        OpIR::Xor => if (a != 0) != (b != 0) { 1 } else { 0 },
    }
}

/// The absolute value of `a`.
pub open spec fn abs_int(a: int) -> int {
    if a < 0 {
        -a
    } else {
        a
    }
}

/// One request made to LLVM, with the plain values that went into it.
#[allow(inconsistent_fields)]
pub enum Pedido {
    /// The module, with its name.
    Modulo { nome: Seq<char> },
    /// A function of the module, with its name and signature.
    Funcao { nome: Seq<char>, assinatura: Assinatura },
    /// A basic block appended to a function (named by the function's name).
    Bloco { funcao: Seq<char>, rotulo: Seq<char> },
    /// The builder moves to the end of the block with this label.
    Posiciona { rotulo: Seq<char> },
    /// An integer constant (`sinal`: the value is sign-extended).
    Constante { tipo: TipoIR, valor: u64, sinal: bool },
    /// A constant `[n x i8]` array of the last `tamanho` `i8` constants.
    ConstanteVetor { tamanho: nat },
    /// A global variable of type `[tamanho x i8]`.
    Global { nome: Seq<char>, tamanho: u32 },
    /// The global gets the last constant array as its initializer.
    Inicializa,
    /// The global is marked constant, or not.
    MarcaConstante(bool),
    /// The global gets private linkage.
    Privada,
    /// The global's address is marked insignificant, or not.
    EnderecoSemNome(bool),
    /// The address of a global.
    Endereco,
    /// A constant pointer seen as an `i8*`.
    ConverteConstante,
    /// `alloca` of a stack slot.
    Alloca { tipo: TipoIR, nome: Seq<char> },
    /// `store`.
    Store,
    /// `load`.
    Load { nome: Seq<char> },
    /// A pointer cast to `i8*`.
    Converte { nome: Seq<char> },
    /// An integer operation with two operands.
    Binaria { op: OpIR, nome: Seq<char> },
    /// Integer negation.
    Neg { nome: Seq<char> },
    /// `icmp`.
    Compara { pred: Predicado, nome: Seq<char> },
    /// `zext` to `i32`.
    EstendeZero { nome: Seq<char> },
    /// A call of the function with this name.
    Chamada { funcao: Seq<char>, nome: Seq<char> },
    /// `br i1`, to the blocks with these labels.
    DesvioCondicional { entao: Seq<char>, senao: Seq<char> },
    /// `br`, to the block with this label.
    Desvio { destino: Seq<char> },
    /// `ret`.
    Retorno,
}

/// An LLVM value, in the model: what a request takes and gives.
pub enum ValorLLVM<'ctx> {
    Int(IntValue<'ctx>),
    Ptr(PointerValue<'ctx>),
    Bloco(BasicBlock<'ctx>),
    Funcao(FunctionValue<'ctx>),
    Global(GlobalValue<'ctx>),
    Vetor(ArrayValue<'ctx>),
    /// No value (the request gives none, or gives one of a kind never used here).
    Nenhum,
}

/// A value handed to a `store` or to a call: an integer or a pointer.
#[derive(Clone, Copy)]
pub enum Operando<'ctx> {
    Int(IntValue<'ctx>),
    Ptr(PointerValue<'ctx>),
}

/// The value an operand is.
pub open spec fn valor_de<'ctx>(o: Operando<'ctx>) -> ValorLLVM<'ctx> {
    match o {
        Operando::Int(i) => ValorLLVM::Int(i),
        Operando::Ptr(p) => ValorLLVM::Ptr(p),
    }
}

/// A request as it was made: what was asked, the values it was given (in order),
/// and the value it gave back.
pub struct Registro<'ctx> {
    pub pedido: Pedido,
    pub operandos: Seq<ValorLLVM<'ctx>>,
    pub resultado: ValorLLVM<'ctx>,
}

/// The record of request `p` with operands `o` and result `r`.
pub open spec fn reg<'ctx>(p: Pedido, o: Seq<ValorLLVM<'ctx>>, r: ValorLLVM<'ctx>) -> Registro<'ctx> {
    Registro { pedido: p, operandos: o, resultado: r }
}

/// A value that a `load` gave back, by kind.
pub enum Carregado<'ctx> {
    Int(IntValue<'ctx>),
    Ptr(PointerValue<'ctx>),
    Outro,
}

/// The value a `load` gave back.
pub open spec fn valor_carregado<'ctx>(c: Carregado<'ctx>) -> ValorLLVM<'ctx> {
    match c {
        Carregado::Int(i) => ValorLLVM::Int(i),
        Carregado::Ptr(p) => ValorLLVM::Ptr(p),
        Carregado::Outro => ValorLLVM::Nenhum,
    }
}

/// The builder of a module, with the model of what was asked of it.
pub(crate) struct Emissor<'ctx> {
    contexto: &'ctx Context,
    construtor: Builder<'ctx>,
    /// Every request made, in order.
    pedidos: Ghost<Seq<Registro<'ctx>>>,
    /// The block the builder is positioned at, if any.
    atual: Ghost<Option<BasicBlock<'ctx>>>,
    /// Whether the current block ends with a terminator, where that is known.
    terminado: Ghost<Option<bool>>,
    /// The blocks created, with their labels.
    blocos: Ghost<Map<BasicBlock<'ctx>, Seq<char>>>,
    /// The blocks created that the builder has not been positioned at yet (they are empty).
    intocados: Ghost<Set<BasicBlock<'ctx>>>,
    /// The stack slots created, with the type of what they hold.
    alocados: Ghost<Map<PointerValue<'ctx>, TipoIR>>,
    /// The functions created, with their names and signatures.
    funcoes: Ghost<Map<FunctionValue<'ctx>, (Seq<char>, Assinatura)>>,
    /// The module the requests build, once it was created.
    modulo: Ghost<Option<Module<'ctx>>>,
}

impl<'ctx> Emissor<'ctx> {
    /// The context the modules are made in.
    pub(crate) closed spec fn contexto(&self) -> &'ctx Context {
        self.contexto
    }

    /// Every request made, in order.
    pub(crate) closed spec fn pedidos(&self) -> Seq<Registro<'ctx>> {
        self.pedidos@
    }

    /// The block the builder is positioned at, if any.
    pub(crate) closed spec fn atual(&self) -> Option<BasicBlock<'ctx>> {
        self.atual@
    }

    /// Whether the current block ends with a terminator, where that is known.
    pub(crate) closed spec fn terminado(&self) -> Option<bool> {
        self.terminado@
    }

    /// The blocks created, with their labels.
    pub(crate) closed spec fn blocos(&self) -> Map<BasicBlock<'ctx>, Seq<char>> {
        self.blocos@
    }

    /// The blocks created that the builder has not been positioned at yet.
    pub(crate) closed spec fn intocados(&self) -> Set<BasicBlock<'ctx>> {
        self.intocados@
    }

    /// The stack slots created, with the type of what they hold.
    pub(crate) closed spec fn alocados(&self) -> Map<PointerValue<'ctx>, TipoIR> {
        self.alocados@
    }

    /// The module the requests build, once it was created: every change to it
    /// goes through the requests logged here.
    pub(crate) closed spec fn modulo(&self) -> Option<Module<'ctx>> {
        self.modulo@
    }

    /// The functions created, with their names and signatures.
    pub(crate) closed spec fn funcoes(&self) -> Map<FunctionValue<'ctx>, (Seq<char>, Assinatura)> {
        self.funcoes@
    }
    /// The builder is positioned at a block.
    pub(crate) open spec fn posicionado(self) -> bool {
        self.atual() is Some
    }

    /// `depois` is `self` with `p` logged and nothing else changed.
    pub(crate) open spec fn registra(self, depois: Self, p: Registro<'ctx>) -> bool {
        &&& depois.contexto() == self.contexto()
        &&& depois.pedidos() == self.pedidos().push(p)
        &&& depois.atual() == self.atual()
        &&& depois.terminado() == self.terminado()
        &&& depois.blocos() == self.blocos()
        &&& depois.intocados() == self.intocados()
        &&& depois.alocados() == self.alocados()
        &&& depois.funcoes() == self.funcoes()
        &&& depois.modulo() == self.modulo()
    }

    /// `depois` is `self` after an instruction `p` that is never folded away was
    /// appended to the current block.
    pub(crate) open spec fn instrucao(self, depois: Self, p: Registro<'ctx>) -> bool {
        &&& depois.contexto() == self.contexto()
        &&& depois.pedidos() == self.pedidos().push(p)
        &&& depois.atual() == self.atual()
        &&& depois.terminado() == Some(false)
        &&& depois.blocos() == self.blocos()
        &&& depois.intocados() == self.intocados()
        &&& depois.alocados() == self.alocados()
        &&& depois.funcoes() == self.funcoes()
        &&& depois.modulo() == self.modulo()
    }

    /// `depois` is `self` after an instruction `p` that LLVM folds into a constant when
    /// its operands are constants, so that the block may be left as it was.
    pub(crate) open spec fn instrucao_dobravel(self, depois: Self, p: Registro<'ctx>) -> bool {
        &&& depois.contexto() == self.contexto()
        &&& depois.pedidos() == self.pedidos().push(p)
        &&& depois.atual() == self.atual()
        &&& depois.terminado() == (if self.terminado() == Some(false) { Some(false) } else { None })
        &&& depois.blocos() == self.blocos()
        &&& depois.intocados() == self.intocados()
        &&& depois.alocados() == self.alocados()
        &&& depois.funcoes() == self.funcoes()
        &&& depois.modulo() == self.modulo()
    }

    /// `depois` is `self` after the terminator `p` was appended to the current block.
    pub(crate) open spec fn terminador(self, depois: Self, p: Registro<'ctx>) -> bool {
        &&& depois.contexto() == self.contexto()
        &&& depois.pedidos() == self.pedidos().push(p)
        &&& depois.atual() == self.atual()
        &&& depois.terminado() == Some(true)
        &&& depois.blocos() == self.blocos()
        &&& depois.intocados() == self.intocados()
        &&& depois.alocados() == self.alocados()
        &&& depois.funcoes() == self.funcoes()
        &&& depois.modulo() == self.modulo()
    }

    /// A new emitter for modules of `contexto`, with a builder that is not positioned.
    pub(crate) fn novo(contexto: &'ctx Context) -> (r: Self)
        ensures
            r.contexto() == contexto,
            r.pedidos() == Seq::<Registro<'ctx>>::empty(),
            r.atual() is None,
            r.terminado() is None,
            r.blocos() == Map::<BasicBlock<'ctx>, Seq<char>>::empty(),
            r.intocados() == Set::<BasicBlock<'ctx>>::empty(),
            r.alocados() == Map::<PointerValue<'ctx>, TipoIR>::empty(),
            r.funcoes() == Map::<FunctionValue<'ctx>, (Seq<char>, Assinatura)>::empty(),
            r.modulo() is None,
    {
        Emissor {
            contexto,
            construtor: criar_construtor(contexto),
            pedidos: Ghost(Seq::empty()),
            atual: Ghost(None),
            terminado: Ghost(None),
            blocos: Ghost(Map::empty()),
            intocados: Ghost(Set::empty()),
            alocados: Ghost(Map::empty()),
            funcoes: Ghost(Map::empty()),
            modulo: Ghost(None),
        }
    }
}

// ── Context ───────────────────────────────────────────────────────────────────

/// `Context::create_module`: a new, empty module with the given name, which
/// becomes the module that `e`'s requests build.
#[verifier::external_body]
pub(crate) fn criar_modulo<'ctx>(e: &mut Emissor<'ctx>, nome: &str) -> (r: Module<'ctx>)
    requires
        old(e).modulo() is None,
    ensures
        final(e).contexto() == old(e).contexto(),
        final(e).pedidos() == old(e).pedidos().push(reg(Pedido::Modulo { nome: nome@ }, seq![], ValorLLVM::Nenhum)),
        final(e).atual() == old(e).atual(),
        final(e).terminado() == old(e).terminado(),
        final(e).blocos() == old(e).blocos(),
        final(e).intocados() == old(e).intocados(),
        final(e).alocados() == old(e).alocados(),
        final(e).funcoes() == old(e).funcoes(),
        final(e).modulo() == Some(r),
{
    e.contexto.create_module(nome)
}

/// `Context::create_builder`: a new builder, not positioned at any block.
#[verifier::external_body]
fn criar_construtor<'ctx>(ctx: &'ctx Context) -> Builder<'ctx> {
    ctx.create_builder()
}

/// `Module::add_function`: adds a function with the given name and the signature
/// `a` (made into an LLVM function type here). The function value is new, so it is
/// not among those created before.
#[verifier::external_body]
pub(crate) fn adicionar_funcao<'ctx>(e: &mut Emissor<'ctx>, m: &Module<'ctx>, nome: &str, a: Assinatura) -> (r:
    FunctionValue<'ctx>)
    requires
        old(e).modulo() == Some(*m),
    ensures
        !old(e).funcoes().dom().contains(r),
        final(e).contexto() == old(e).contexto(),
        final(e).pedidos() == old(e).pedidos().push(
            reg(Pedido::Funcao { nome: nome@, assinatura: a }, seq![], ValorLLVM::Funcao(r)),
        ),
        final(e).atual() == old(e).atual(),
        final(e).terminado() == old(e).terminado(),
        final(e).blocos() == old(e).blocos(),
        final(e).intocados() == old(e).intocados(),
        final(e).alocados() == old(e).alocados(),
        final(e).funcoes() == old(e).funcoes().insert(r, (nome@, a)),
        final(e).modulo() == old(e).modulo(),
{
    let i8p = e.contexto.i8_type().ptr_type(AddressSpace::default());
    let i32t = e.contexto.i32_type();
    let t = match a {
        Assinatura::VariadicaI32 => i32t.fn_type(&[i8p.into()], true),
        Assinatura::PtrPtrParaPtr => i8p.fn_type(&[i8p.into(), i8p.into()], false),
        Assinatura::PtrPtrParaI32 => i32t.fn_type(&[i8p.into(), i8p.into()], false),
        Assinatura::SemParametrosI32 => i32t.fn_type(&[], false),
    };
    m.add_function(nome, t, None)
}

/// `Context::append_basic_block`: a new, empty block with the given label at the
/// end of function `f`.
#[verifier::external_body]
pub(crate) fn anexar_bloco<'ctx>(e: &mut Emissor<'ctx>, f: FunctionValue<'ctx>, rotulo: &str) -> (r: BasicBlock<'ctx>)
    requires
        old(e).funcoes().dom().contains(f),
    ensures
        !old(e).blocos().dom().contains(r),
        final(e).contexto() == old(e).contexto(),
        final(e).pedidos() == old(e).pedidos().push(
            reg(
                Pedido::Bloco { funcao: old(e).funcoes()[f].0, rotulo: rotulo@ },
                seq![ValorLLVM::Funcao(f)],
                ValorLLVM::Bloco(r),
            ),
        ),
        final(e).atual() == old(e).atual(),
        final(e).terminado() == old(e).terminado(),
        final(e).blocos() == old(e).blocos().insert(r, rotulo@),
        final(e).intocados() == old(e).intocados().insert(r),
        final(e).alocados() == old(e).alocados(),
        final(e).funcoes() == old(e).funcoes(),
        final(e).modulo() == old(e).modulo(),
{
    e.contexto.append_basic_block(f, rotulo)
}

// ── Constants and globals ─────────────────────────────────────────────────────

/// `IntType::const_int` on the integer type `t` (`i1`, `i8` or `i32` of the context).
#[verifier::external_body]
pub(crate) fn constante<'ctx>(e: &mut Emissor<'ctx>, t: TipoIR, valor: u64, sinal: bool) -> (r: IntValue<'ctx>)
    requires
        eh_inteiro(t),
    ensures
        old(e).registra(*final(e), reg(Pedido::Constante { tipo: t, valor, sinal }, seq![], ValorLLVM::Int(r))),
{
    let it = match t {
        TipoIR::I1 => e.contexto.bool_type(),
        TipoIR::I8 => e.contexto.i8_type(),
        _ => e.contexto.i32_type(),
    };
    it.const_int(valor, sinal)
}

/// `IntType::const_array` on `i8`: the constant array of the given elements.
#[verifier::external_body]
pub(crate) fn constante_vetor<'ctx>(e: &mut Emissor<'ctx>, elementos: &[IntValue<'ctx>]) -> (r: ArrayValue<'ctx>)
    ensures
        old(e).registra(
            *final(e),
            reg(
                Pedido::ConstanteVetor { tamanho: elementos@.len() },
                elementos@.map_values(|v: IntValue<'ctx>| ValorLLVM::Int(v)),
                ValorLLVM::Vetor(r),
            ),
        ),
{
    e.contexto.i8_type().const_array(elementos)
}

/// `Module::add_global`: a global variable of type `[tamanho x i8]`.
#[verifier::external_body]
pub(crate) fn adicionar_global<'ctx>(e: &mut Emissor<'ctx>, m: &Module<'ctx>, tamanho: u32, nome: &str) -> (r:
    GlobalValue<'ctx>)
    requires
        old(e).modulo() == Some(*m),
    ensures
        old(e).registra(*final(e), reg(Pedido::Global { nome: nome@, tamanho }, seq![], ValorLLVM::Global(r))),
{
    m.add_global(e.contexto.i8_type().array_type(tamanho), Some(AddressSpace::default()), nome)
}

/// `GlobalValue::set_initializer`.
#[verifier::external_body]
pub(crate) fn definir_inicializador<'ctx>(e: &mut Emissor<'ctx>, g: GlobalValue<'ctx>, v: ArrayValue<'ctx>)
    ensures
        old(e).registra(
            *final(e),
            reg(Pedido::Inicializa, seq![ValorLLVM::Global(g), ValorLLVM::Vetor(v)], ValorLLVM::Nenhum),
        ),
{
    g.set_initializer(&v)
}

/// `GlobalValue::set_constant`.
#[verifier::external_body]
pub(crate) fn definir_constante<'ctx>(e: &mut Emissor<'ctx>, g: GlobalValue<'ctx>, constante: bool)
    ensures
        old(e).registra(*final(e), reg(Pedido::MarcaConstante(constante), seq![ValorLLVM::Global(g)], ValorLLVM::Nenhum)),
{
    g.set_constant(constante)
}

/// `GlobalValue::set_linkage` with private linkage.
#[verifier::external_body]
pub(crate) fn definir_privada<'ctx>(e: &mut Emissor<'ctx>, g: GlobalValue<'ctx>)
    ensures
        old(e).registra(*final(e), reg(Pedido::Privada, seq![ValorLLVM::Global(g)], ValorLLVM::Nenhum)),
{
    g.set_linkage(Linkage::Private)
}

/// `GlobalValue::set_unnamed_addr`.
#[verifier::external_body]
pub(crate) fn definir_endereco_sem_nome<'ctx>(e: &mut Emissor<'ctx>, g: GlobalValue<'ctx>, sem_nome: bool)
    ensures
        old(e).registra(*final(e), reg(Pedido::EnderecoSemNome(sem_nome), seq![ValorLLVM::Global(g)], ValorLLVM::Nenhum)),
{
    g.set_unnamed_addr(sem_nome)
}

/// `GlobalValue::as_pointer_value`: the address of the global.
#[verifier::external_body]
pub(crate) fn endereco_global<'ctx>(e: &mut Emissor<'ctx>, g: GlobalValue<'ctx>) -> (r: PointerValue<'ctx>)
    ensures
        old(e).registra(*final(e), reg(Pedido::Endereco, seq![ValorLLVM::Global(g)], ValorLLVM::Ptr(r))),
{
    g.as_pointer_value()
}

/// `PointerValue::const_cast` to `i8*`.
#[verifier::external_body]
pub(crate) fn converter_constante<'ctx>(e: &mut Emissor<'ctx>, p: PointerValue<'ctx>) -> (r: PointerValue<'ctx>)
    ensures
        old(e).registra(*final(e), reg(Pedido::ConverteConstante, seq![ValorLLVM::Ptr(p)], ValorLLVM::Ptr(r))),
{
    p.const_cast(e.contexto.i8_type().ptr_type(AddressSpace::default()))
}

// ── Builder ───────────────────────────────────────────────────────────────────

/// `Builder::position_at_end`: further instructions go at the end of `bloco`. A
/// block the builder was never positioned at is still empty, so it has no terminator.
#[verifier::external_body]
pub(crate) fn posicionar<'ctx>(e: &mut Emissor<'ctx>, bloco: BasicBlock<'ctx>)
    requires
        old(e).blocos().dom().contains(bloco),
    ensures
        final(e).contexto() == old(e).contexto(),
        final(e).pedidos() == old(e).pedidos().push(
            reg(Pedido::Posiciona { rotulo: old(e).blocos()[bloco] }, seq![ValorLLVM::Bloco(bloco)], ValorLLVM::Nenhum),
        ),
        final(e).atual() == Some(bloco),
        final(e).terminado() == (if old(e).intocados().contains(bloco) { Some(false) } else { None }),
        final(e).blocos() == old(e).blocos(),
        final(e).intocados() == old(e).intocados().remove(bloco),
        final(e).alocados() == old(e).alocados(),
        final(e).funcoes() == old(e).funcoes(),
        final(e).modulo() == old(e).modulo(),
{
    e.construtor.position_at_end(bloco)
}

/// `Builder::get_insert_block`: the block the builder is positioned at.
#[verifier::external_body]
pub(crate) fn bloco_de_insercao<'ctx>(e: &Emissor<'ctx>) -> (r: Option<BasicBlock<'ctx>>)
    ensures
        r == e.atual(),
{
    e.construtor.get_insert_block()
}

/// `BasicBlock::get_terminator`: whether `bloco` ends with a terminator.
#[verifier::external_body]
pub(crate) fn tem_terminador<'ctx>(e: &Emissor<'ctx>, bloco: BasicBlock<'ctx>) -> (r: bool)
    ensures
        e.atual() == Some(bloco) && e.terminado() == Some(true) ==> r,
        e.atual() == Some(bloco) && e.terminado() == Some(false) ==> !r,
{
    bloco.get_terminator().is_some()
}

/// `Builder::build_alloca` of a slot of type `t` (made into the LLVM type here).
/// `Ok` exactly when the builder is positioned; the slot is a new value.
#[verifier::external_body]
pub(crate) fn alocar<'ctx>(e: &mut Emissor<'ctx>, t: TipoIR, nome: &str) -> (r: Result<PointerValue<'ctx>, BuilderError>)
    ensures
        r is Ok <==> old(e).posicionado(),
        r is Ok ==> !old(e).alocados().dom().contains(r->Ok_0),
        r is Ok ==> final(e).contexto() == old(e).contexto(),
        r is Ok ==> final(e).pedidos() == old(e).pedidos().push(
            reg(Pedido::Alloca { tipo: t, nome: nome@ }, seq![], ValorLLVM::Ptr(r->Ok_0)),
        ),
        r is Ok ==> final(e).atual() == old(e).atual(),
        r is Ok ==> final(e).terminado() == Some(false),
        r is Ok ==> final(e).blocos() == old(e).blocos(),
        r is Ok ==> final(e).intocados() == old(e).intocados(),
        r is Ok ==> final(e).alocados() == old(e).alocados().insert(r->Ok_0, t),
        r is Ok ==> final(e).funcoes() == old(e).funcoes(),
        r is Ok ==> final(e).modulo() == old(e).modulo(),
        r is Err ==> *final(e) == *old(e),
{
    let i8t = e.contexto.i8_type();
    let bt: BasicTypeEnum<'ctx> = match t {
        TipoIR::I1 => e.contexto.bool_type().into(),
        TipoIR::I8 => i8t.into(),
        TipoIR::I32 => e.contexto.i32_type().into(),
        TipoIR::Ptr => i8t.ptr_type(AddressSpace::default()).into(),
        TipoIR::Vetor(n) => i8t.array_type(n).into(),
    };
    e.construtor.build_alloca(bt, nome)
}

/// `Builder::build_store` of `v` into `destino`.
#[verifier::external_body]
pub(crate) fn armazenar<'ctx>(e: &mut Emissor<'ctx>, destino: PointerValue<'ctx>, v: Operando<'ctx>) -> (r: Result<
    (),
    BuilderError,
>)
    ensures
        r is Ok <==> old(e).posicionado(),
        r is Ok ==> old(e).instrucao(
            *final(e),
            reg(Pedido::Store, seq![ValorLLVM::Ptr(destino), valor_de(v)], ValorLLVM::Nenhum),
        ),
        r is Err ==> *final(e) == *old(e),
{
    let feito = match v {
        Operando::Int(i) => e.construtor.build_store(destino, i),
        Operando::Ptr(p) => e.construtor.build_store(destino, p),
    };
    match feito {
        Ok(_) => Ok(()),
        Err(err) => Err(err),
    }
}

/// `Builder::build_load`, with the loaded value told apart by kind (`Outro` for
/// the kinds the generated code never loads). On LLVM 14's typed pointers, a slot
/// of an integer type gives an integer and a slot of `i8*` a pointer.
#[verifier::external_body]
pub(crate) fn carregar<'ctx>(e: &mut Emissor<'ctx>, origem: PointerValue<'ctx>, nome: &str) -> (r: Result<
    Carregado<'ctx>,
    BuilderError,
>)
    ensures
        r is Ok <==> old(e).posicionado(),
        r is Ok ==> old(e).instrucao(
            *final(e),
            reg(Pedido::Load { nome: nome@ }, seq![ValorLLVM::Ptr(origem)], valor_carregado(r->Ok_0)),
        ),
        r is Ok && old(e).alocados().dom().contains(origem) && eh_inteiro(old(e).alocados()[origem]) ==> r->Ok_0 is Int,
        r is Ok && old(e).alocados().dom().contains(origem) && old(e).alocados()[origem] == TipoIR::Ptr ==> r->Ok_0 is Ptr,
        r is Err ==> *final(e) == *old(e),
{
    match e.construtor.build_load(origem, nome) {
        Ok(BasicValueEnum::IntValue(i)) => Ok(Carregado::Int(i)),
        Ok(BasicValueEnum::PointerValue(p)) => Ok(Carregado::Ptr(p)),
        Ok(_) => Ok(Carregado::Outro),
        Err(err) => Err(err),
    }
}

/// `Builder::build_pointer_cast` to `i8*`.
#[verifier::external_body]
pub(crate) fn converter_ponteiro<'ctx>(e: &mut Emissor<'ctx>, p: PointerValue<'ctx>, nome: &str) -> (r: Result<
    PointerValue<'ctx>,
    BuilderError,
>)
    ensures
        r is Ok <==> old(e).posicionado(),
        r is Ok ==> old(e).instrucao_dobravel(
            *final(e),
            reg(Pedido::Converte { nome: nome@ }, seq![ValorLLVM::Ptr(p)], ValorLLVM::Ptr(r->Ok_0)),
        ),
        r is Err ==> *final(e) == *old(e),
{
    e.construtor.build_pointer_cast(p, e.contexto.i8_type().ptr_type(AddressSpace::default()), nome)
}

/// `Builder::build_call` of a function created through `e` with the arguments `a`
/// and `b`, with the integer the call gives back when it gives one: a function
/// whose signature returns `i32` does.
#[verifier::external_body]
pub(crate) fn chamar<'ctx>(
    e: &mut Emissor<'ctx>,
    f: FunctionValue<'ctx>,
    a: Operando<'ctx>,
    b: Operando<'ctx>,
    nome: &str,
) -> (r: Result<Option<IntValue<'ctx>>, BuilderError>)
    requires
        old(e).funcoes().dom().contains(f),
    ensures
        r is Ok <==> old(e).posicionado(),
        r is Ok ==> old(e).instrucao(
            *final(e),
            reg(
                Pedido::Chamada { funcao: old(e).funcoes()[f].0, nome: nome@ },
                seq![ValorLLVM::Funcao(f), valor_de(a), valor_de(b)],
                match r->Ok_0 {
                    Some(i) => ValorLLVM::Int(i),
                    None => ValorLLVM::Nenhum,
                },
            ),
        ),
        r is Ok && retorna_i32(old(e).funcoes()[f].1) ==> r->Ok_0 is Some,
        r is Err ==> *final(e) == *old(e),
{
    let args: [BasicMetadataValueEnum<'ctx>; 2] = [
        match a { Operando::Int(i) => i.into(), Operando::Ptr(p) => p.into() },
        match b { Operando::Int(i) => i.into(), Operando::Ptr(p) => p.into() },
    ];
    match e.construtor.build_call(f, &args, nome) {
        Ok(c) => match c.try_as_basic_value() {
            ValueKind::Basic(BasicValueEnum::IntValue(i)) => Ok(Some(i)),
            _ => Ok(None),
        },
        Err(err) => Err(err),
    }
}

/// `Builder::build_conditional_branch` to two blocks created through `e`.
#[verifier::external_body]
pub(crate) fn desviar_se<'ctx>(
    e: &mut Emissor<'ctx>,
    condicao: IntValue<'ctx>,
    entao: BasicBlock<'ctx>,
    senao: BasicBlock<'ctx>,
) -> (r: Result<(), BuilderError>)
    requires
        old(e).blocos().dom().contains(entao),
        old(e).blocos().dom().contains(senao),
    ensures
        r is Ok <==> old(e).posicionado(),
        r is Ok ==> old(e).terminador(
            *final(e),
            reg(
                Pedido::DesvioCondicional { entao: old(e).blocos()[entao], senao: old(e).blocos()[senao] },
                seq![ValorLLVM::Int(condicao), ValorLLVM::Bloco(entao), ValorLLVM::Bloco(senao)],
                ValorLLVM::Nenhum,
            ),
        ),
        r is Err ==> *final(e) == *old(e),
{
    match e.construtor.build_conditional_branch(condicao, entao, senao) {
        Ok(_) => Ok(()),
        Err(err) => Err(err),
    }
}

/// `Builder::build_unconditional_branch` to a block created through `e`.
#[verifier::external_body]
pub(crate) fn desviar<'ctx>(e: &mut Emissor<'ctx>, destino: BasicBlock<'ctx>) -> (r: Result<(), BuilderError>)
    requires
        old(e).blocos().dom().contains(destino),
    ensures
        r is Ok <==> old(e).posicionado(),
        r is Ok ==> old(e).terminador(
            *final(e),
            reg(Pedido::Desvio { destino: old(e).blocos()[destino] }, seq![ValorLLVM::Bloco(destino)], ValorLLVM::Nenhum),
        ),
        r is Err ==> *final(e) == *old(e),
{
    match e.construtor.build_unconditional_branch(destino) {
        Ok(_) => Ok(()),
        Err(err) => Err(err),
    }
}

/// `Builder::build_return` with a value.
#[verifier::external_body]
pub(crate) fn retornar<'ctx>(e: &mut Emissor<'ctx>, v: IntValue<'ctx>) -> (r: Result<(), BuilderError>)
    ensures
        r is Ok <==> old(e).posicionado(),
        r is Ok ==> old(e).terminador(*final(e), reg(Pedido::Retorno, seq![ValorLLVM::Int(v)], ValorLLVM::Nenhum)),
        r is Err ==> *final(e) == *old(e),
{
    match e.construtor.build_return(Some(&v)) {
        Ok(_) => Ok(()),
        Err(err) => Err(err),
    }
}

/// `Builder::build_int_z_extend` to `i32`.
#[verifier::external_body]
pub(crate) fn estender_zero<'ctx>(e: &mut Emissor<'ctx>, v: IntValue<'ctx>, nome: &str) -> (r: Result<
    IntValue<'ctx>,
    BuilderError,
>)
    ensures
        r is Ok <==> old(e).posicionado(),
        r is Ok ==> old(e).instrucao_dobravel(
            *final(e),
            reg(Pedido::EstendeZero { nome: nome@ }, seq![ValorLLVM::Int(v)], ValorLLVM::Int(r->Ok_0)),
        ),
        r is Err ==> *final(e) == *old(e),
{
    e.construtor.build_int_z_extend(v, e.contexto.i32_type(), nome)
}

/// `Builder::build_int_neg`.
#[verifier::external_body]
pub(crate) fn negar<'ctx>(e: &mut Emissor<'ctx>, v: IntValue<'ctx>, nome: &str) -> (r: Result<IntValue<'ctx>, BuilderError>)
    ensures
        r is Ok <==> old(e).posicionado(),
        r is Ok ==> old(e).instrucao_dobravel(
            *final(e),
            reg(Pedido::Neg { nome: nome@ }, seq![ValorLLVM::Int(v)], ValorLLVM::Int(r->Ok_0)),
        ),
        r is Err ==> *final(e) == *old(e),
{
    e.construtor.build_int_neg(v, nome)
}

/// `Builder::build_xor` of `l` and `r`, in that order.
#[verifier::external_body]
pub(crate) fn ou_exclusivo<'ctx>(e: &mut Emissor<'ctx>, l: IntValue<'ctx>, r: IntValue<'ctx>, nome: &str) -> (res: Result<
    IntValue<'ctx>,
    BuilderError,
>)
    ensures
        res is Ok <==> old(e).posicionado(),
        res is Ok ==> old(e).instrucao_dobravel(
            *final(e),
            reg(
                Pedido::Binaria { op: OpIR::Xor, nome: nome@ },
                seq![ValorLLVM::Int(l), ValorLLVM::Int(r)],
                ValorLLVM::Int(res->Ok_0),
            ),
        ),
        res is Err ==> *final(e) == *old(e),
{
    e.construtor.build_xor(l, r, nome)
}

/// `Builder::build_int_add` of `l` and `r`, in that order.
#[verifier::external_body]
pub(crate) fn somar<'ctx>(e: &mut Emissor<'ctx>, l: IntValue<'ctx>, r: IntValue<'ctx>, nome: &str) -> (res: Result<
    IntValue<'ctx>,
    BuilderError,
>)
    ensures
        res is Ok <==> old(e).posicionado(),
        res is Ok ==> old(e).instrucao_dobravel(
            *final(e),
            reg(
                Pedido::Binaria { op: OpIR::Add, nome: nome@ },
                seq![ValorLLVM::Int(l), ValorLLVM::Int(r)],
                ValorLLVM::Int(res->Ok_0),
            ),
        ),
        res is Err ==> *final(e) == *old(e),
{
    e.construtor.build_int_add(l, r, nome)
}

/// `Builder::build_int_sub` of `l` and `r`, in that order.
#[verifier::external_body]
pub(crate) fn subtrair<'ctx>(e: &mut Emissor<'ctx>, l: IntValue<'ctx>, r: IntValue<'ctx>, nome: &str) -> (res: Result<
    IntValue<'ctx>,
    BuilderError,
>)
    ensures
        res is Ok <==> old(e).posicionado(),
        res is Ok ==> old(e).instrucao_dobravel(
            *final(e),
            reg(
                Pedido::Binaria { op: OpIR::Sub, nome: nome@ },
                seq![ValorLLVM::Int(l), ValorLLVM::Int(r)],
                ValorLLVM::Int(res->Ok_0),
            ),
        ),
        res is Err ==> *final(e) == *old(e),
{
    e.construtor.build_int_sub(l, r, nome)
}

/// `Builder::build_int_mul` of `l` and `r`, in that order.
#[verifier::external_body]
pub(crate) fn multiplicar<'ctx>(e: &mut Emissor<'ctx>, l: IntValue<'ctx>, r: IntValue<'ctx>, nome: &str) -> (res: Result<
    IntValue<'ctx>,
    BuilderError,
>)
    ensures
        res is Ok <==> old(e).posicionado(),
        res is Ok ==> old(e).instrucao_dobravel(
            *final(e),
            reg(
                Pedido::Binaria { op: OpIR::Mul, nome: nome@ },
                seq![ValorLLVM::Int(l), ValorLLVM::Int(r)],
                ValorLLVM::Int(res->Ok_0),
            ),
        ),
        res is Err ==> *final(e) == *old(e),
{
    e.construtor.build_int_mul(l, r, nome)
}

/// `Builder::build_int_signed_div` of `l` and `r`, in that order.
#[verifier::external_body]
pub(crate) fn dividir<'ctx>(e: &mut Emissor<'ctx>, l: IntValue<'ctx>, r: IntValue<'ctx>, nome: &str) -> (res: Result<
    IntValue<'ctx>,
    BuilderError,
>)
    ensures
        res is Ok <==> old(e).posicionado(),
        res is Ok ==> old(e).instrucao_dobravel(
            *final(e),
            reg(
                Pedido::Binaria { op: OpIR::SDiv, nome: nome@ },
                seq![ValorLLVM::Int(l), ValorLLVM::Int(r)],
                ValorLLVM::Int(res->Ok_0),
            ),
        ),
        res is Err ==> *final(e) == *old(e),
{
    e.construtor.build_int_signed_div(l, r, nome)
}

/// `Builder::build_int_signed_rem` of `l` and `r`, in that order.
#[verifier::external_body]
pub(crate) fn resto<'ctx>(e: &mut Emissor<'ctx>, l: IntValue<'ctx>, r: IntValue<'ctx>, nome: &str) -> (res: Result<
    IntValue<'ctx>,
    BuilderError,
>)
    ensures
        res is Ok <==> old(e).posicionado(),
        res is Ok ==> old(e).instrucao_dobravel(
            *final(e),
            reg(
                Pedido::Binaria { op: OpIR::SRem, nome: nome@ },
                seq![ValorLLVM::Int(l), ValorLLVM::Int(r)],
                ValorLLVM::Int(res->Ok_0),
            ),
        ),
        res is Err ==> *final(e) == *old(e),
{
    e.construtor.build_int_signed_rem(l, r, nome)
}

/// `Builder::build_and` of `l` and `r`, in that order.
#[verifier::external_body]
pub(crate) fn conjuncao<'ctx>(e: &mut Emissor<'ctx>, l: IntValue<'ctx>, r: IntValue<'ctx>, nome: &str) -> (res: Result<
    IntValue<'ctx>,
    BuilderError,
>)
    ensures
        res is Ok <==> old(e).posicionado(),
        res is Ok ==> old(e).instrucao_dobravel(
            *final(e),
            reg(
                Pedido::Binaria { op: OpIR::And, nome: nome@ },
                seq![ValorLLVM::Int(l), ValorLLVM::Int(r)],
                ValorLLVM::Int(res->Ok_0),
            ),
        ),
        res is Err ==> *final(e) == *old(e),
{
    e.construtor.build_and(l, r, nome)
}

/// `Builder::build_or` of `l` and `r`, in that order.
#[verifier::external_body]
pub(crate) fn disjuncao<'ctx>(e: &mut Emissor<'ctx>, l: IntValue<'ctx>, r: IntValue<'ctx>, nome: &str) -> (res: Result<
    IntValue<'ctx>,
    BuilderError,
>)
    ensures
        res is Ok <==> old(e).posicionado(),
        res is Ok ==> old(e).instrucao_dobravel(
            *final(e),
            reg(
                Pedido::Binaria { op: OpIR::Or, nome: nome@ },
                seq![ValorLLVM::Int(l), ValorLLVM::Int(r)],
                ValorLLVM::Int(res->Ok_0),
            ),
        ),
        res is Err ==> *final(e) == *old(e),
{
    e.construtor.build_or(l, r, nome)
}

/// `Builder::build_int_compare` with the predicate `p`, of `l` and `r` in that order.
#[verifier::external_body]
pub(crate) fn comparar<'ctx>(
    e: &mut Emissor<'ctx>,
    p: Predicado,
    l: IntValue<'ctx>,
    r: IntValue<'ctx>,
    nome: &str,
) -> (res: Result<IntValue<'ctx>, BuilderError>)
    ensures
        res is Ok <==> old(e).posicionado(),
        res is Ok ==> old(e).instrucao_dobravel(
            *final(e),
            reg(
                Pedido::Compara { pred: p, nome: nome@ },
                seq![ValorLLVM::Int(l), ValorLLVM::Int(r)],
                ValorLLVM::Int(res->Ok_0),
            ),
        ),
        res is Err ==> *final(e) == *old(e),
{
    let ip = match p {
        Predicado::Eq => IntPredicate::EQ,
        Predicado::Ne => IntPredicate::NE,
        Predicado::Sgt => IntPredicate::SGT,
        Predicado::Slt => IntPredicate::SLT,
        Predicado::Sge => IntPredicate::SGE,
        Predicado::Sle => IntPredicate::SLE,
    };
    e.construtor.build_int_compare(ip, l, r, nome)
}

// ── Module output ─────────────────────────────────────────────────────────────

/// What LLVM's verifier says of a module built by the requests `p`: nothing
/// (`None`) when it finds the module well formed, else its message.
pub uninterp spec fn falha_de_verificacao(p: Seq<Registro<'_>>) -> Option<Seq<char>>;

/// The text LLVM prints for a module built by the requests `p`.
pub uninterp spec fn texto_ir(p: Seq<Registro<'_>>) -> Seq<char>;

/// `Module::verify` on the module that `e`'s requests build: `Ok` when LLVM's
/// verifier finds it well formed, else its message. Every change to that module
/// went through a request logged in `e`, and the verifier reads only the module,
/// so its answer is named as a function of the log; which modules it accepts is
/// not stated.
#[verifier::external_body]
pub(crate) fn verificar_modulo<'ctx>(e: &Emissor<'ctx>, m: &Module<'ctx>) -> (r: Result<(), String>)
    requires
        e.modulo() == Some(*m),
    ensures
        match r {
            Ok(_) => falha_de_verificacao(e.pedidos()) is None,
            Err(s) => falha_de_verificacao(e.pedidos()) == Some(s@),
        },
{
    m.verify().map_err(|e| e.to_string())
}

/// `Module::print_to_string` on the module that `e`'s requests build: the IR text
/// that LLVM's printer gives. Every change to that module went through a request
/// logged in `e`, so the text is named as a function of the log; the text itself
/// is not stated.
#[verifier::external_body]
pub(crate) fn texto_do_modulo<'ctx>(e: &Emissor<'ctx>, m: &Module<'ctx>) -> (r: String)
    requires
        e.modulo() == Some(*m),
    ensures
        r@ == texto_ir(e.pedidos()),
{
    m.print_to_string().to_string()
}

} // verus!
