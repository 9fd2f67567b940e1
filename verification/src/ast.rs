//! The syntax-level values that the declarative region works with:
//! interned symbols, designators, source positions and a few AST nodes.
use vstd::prelude::*;

verus! {

/// An interned identifier. Two symbols are the same name exactly when
/// their ids are equal.
#[derive(Clone, Copy, Debug, PartialEq, Eq, Hash, Structural)]
pub struct Symbol {
    pub id: u64,
}

impl Symbol {
    pub fn new(id: u64) -> (s: Symbol)
        ensures
            s.id == id,
    {
        Symbol { id }
    }
}

/// The operators that can be overloaded as operator symbols.
#[derive(Clone, Copy, Debug, PartialEq, Eq, Hash, Structural)]
pub enum Operator {
    And,
    Or,
    Nand,
    Nor,
    Xor,
    Xnor,
    EQ,
    NE,
    LT,
    LTE,
    GT,
    GTE,
    QueEQ,
    QueNE,
    QueLT,
    QueLTE,
    QueGT,
    QueGTE,
    SLL,
    SRL,
    SLA,
    SRA,
    ROL,
    ROR,
    Plus,
    Minus,
    Concat,
    Times,
    Div,
    Mod,
    Rem,
    Pow,
    Abs,
    Not,
    QueQue,
}

/// The name under which something is declared: an identifier, an operator
/// symbol or a character literal.
#[derive(Clone, Copy, Debug, PartialEq, Eq, Hash, Structural)]
pub enum Designator {
    Identifier(Symbol),
    OperatorSymbol(Operator),
    Character(u8),
}

impl Designator {
    /// The identifier of an identifier designator.
    pub fn expect_identifier(&self) -> (sym: &Symbol)
        requires
            self is Identifier,
        ensures
            *self == Designator::Identifier(*sym),
    {
        match self {
            Designator::Identifier(sym) => sym,
            _ => vstd::pervasive::unreached(),
        }
    }
}

/// A source file, known by its id.
#[derive(Clone, Copy, Debug, PartialEq, Eq, Hash, Structural)]
pub struct Source {
    pub id: u64,
}

/// A line and a character within that line, both counted from zero.
#[derive(Clone, Copy, Debug, PartialEq, Eq, Hash, Structural)]
pub struct Position {
    pub line: u64,
    pub character: u64,
}

/// A stretch of text from `start` up to `end`.
#[derive(Clone, Copy, Debug, PartialEq, Eq, Hash, Structural)]
pub struct Range {
    pub start: Position,
    pub end: Position,
}

/// A position in a source file.
#[derive(Clone, Copy, Debug, PartialEq, Eq, Hash, Structural)]
pub struct SrcPos {
    pub source: Source,
    pub range: Range,
}

/// A syntax item together with where it was written.
#[derive(Clone, Copy, Debug, PartialEq, Eq)]
pub struct WithPos<T> {
    pub item: T,
    pub pos: SrcPos,
}

impl<T> WithPos<T> {
    pub fn new(item: T, pos: SrcPos) -> (w: WithPos<T>)
        ensures
            w.item == item,
            w.pos == pos,
    {
        WithPos { item, pos }
    }
}

/// An identifier together with its position.
pub type Ident = WithPos<Symbol>;

/// The declaration that a name refers to, once it has been resolved.
pub type Reference = Option<SrcPos>;

/// A syntax item together with the declaration that it refers to.
#[derive(Clone, Copy, Debug, PartialEq, Eq)]
pub struct WithRef<T> {
    pub item: T,
    pub reference: Reference,
}

impl<T> WithRef<T> {
    pub fn new(item: T) -> (w: WithRef<T>)
        ensures
            w.item == item,
            w.reference is None,
    {
        WithRef { item, reference: None }
    }
}

/// Identifies a design unit within a library.
#[derive(Clone, Copy, Debug, PartialEq, Eq, Hash, Structural)]
pub struct UnitId {
    pub library_name: Symbol,
    pub primary_unit_name: Symbol,
    pub secondary_unit_name: Option<Symbol>,
}

/// The class of an object declaration.
#[derive(Clone, Copy, Debug, PartialEq, Eq, Hash, Structural)]
pub enum ObjectClass {
    Signal,
    Constant,
    Variable,
    SharedVariable,
}

/// An object declaration. The initial value expression, where there is one,
/// is represented by its position.
#[derive(Clone, Copy, Debug, PartialEq, Eq)]
pub struct ObjectDeclaration {
    pub ident: Ident,
    pub class: ObjectClass,
    pub expression: Option<SrcPos>,
}

} // verus!
