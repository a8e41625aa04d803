//! The program tree: statements and expressions.
use vstd::prelude::*;

use crate::ident_table::IdentTable;
use crate::value::{HugFunctionArgument, HugValue, Ident};
use crate::variables::Variables;

verus! {

#[derive(Debug)]
pub enum HugTreeEntry {
    /// Declares a namespace; the evaluator does not implement it yet.
    ModuleDefinition { module: Ident },
    /// Binds `module` to the native library that `location` names.
    ExternalModuleDefinition { module: Ident, location: String },
    VariableDefinition { variable: Ident, value: Expression },
    FunctionDefinition { ident: Ident, arguments: Vec<HugFunctionArgument> },
    /// An expression evaluated for its effect only.
    Expression(Expression),
    /// A dotted path: a module, nested modules, and the export to bind.
    Import { path: Vec<Ident> },
}

#[derive(Debug)]
pub enum Expression {
    Literal(HugValue),
    Call { function: Ident, args: Vec<Expression> },
    Variable(Ident),
}

impl Expression {
    pub fn is_constant(&self) -> (r: bool)
        ensures
            r == (self is Literal),
    {
        match self {
            Expression::Literal(_) => true,
            _ => false,
        }
    }

    /// The value of a literal, without evaluating anything.
    pub fn get_constant_value(self) -> (r: Option<HugValue>)
        ensures
            r == (match self {
                Expression::Literal(v) => Some(v),
                _ => None,
            }),
    {
        match self {
            Expression::Literal(value) => Some(value),
            _ => None,
        }
    }
}

/// A scope: its own variables, names and statements.
#[derive(Debug)]
pub struct HugScope {
    pub members: Variables,
    pub idents: IdentTable,
    pub entries: Vec<HugTreeEntry>,
}

impl HugScope {
    pub fn new() -> (r: Self)
        ensures
            r.members@ == Map::<usize, HugValue>::empty(),
            r.idents@ == Seq::<Seq<char>>::empty(),
            r.idents.wf(),
            r.entries@.len() == 0,
    {
        HugScope { members: Variables::new(), idents: IdentTable::new(), entries: Vec::new() }
    }
}

/// The statements of every loaded script: those that run once before the
/// main sequence, and the main sequence, which the evaluator walks by position.
#[derive(Debug)]
pub struct HugTree {
    pub on_load: Vec<HugTreeEntry>,
    pub entries: Vec<HugTreeEntry>,
}

impl HugTree {
    pub fn new() -> (r: Self)
        ensures
            r.on_load@.len() == 0,
            r.entries@.len() == 0,
    {
        HugTree { on_load: Vec::new(), entries: Vec::new() }
    }

    /// Appends the statements of `other` after those already held.
    pub fn merge_with(&mut self, other: HugTree)
        ensures
            final(self).on_load@ == old(self).on_load@ + other.on_load@,
            final(self).entries@ == old(self).entries@ + other.entries@,
    {
        let mut other = other;
        self.on_load.append(&mut other.on_load);
        self.entries.append(&mut other.entries);
    }
}

} // verus!
