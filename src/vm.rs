//! The tree-walking evaluator.
use vstd::prelude::*;
use vstd::string::StringSliceAdditionalSpecFns;

use crate::ast::{Expression, HugTree, HugTreeEntry};
use crate::ident_table::{extends, position, IdentTable};
use vstd::utf8::{decode_utf8, valid_utf8};
use crate::lexicon::{scan_all, LexError};
use crate::pairing::lex;
use crate::parser::SyntaxError;
use crate::value::{HugFunction, HugModule, HugValue, Ident, TypeError};
use crate::variables::Variables;

verus! {

broadcast use crate::ident_table::lemma_extends_trans;

/// What the evaluator asks of the machine it runs on. Nothing is assumed of
/// the answers: every outcome is handled.
pub trait NativeHost {
    /// The file of the native library that `location` names, if one exists.
    fn resolve(&mut self, location: &str) -> Option<String>;

    /// Opens the library at `path`, giving a handle for it.
    fn open(&mut self, path: &str) -> Option<usize>;

    /// The comma-separated names that `library` lists as its exports, when it
    /// offers that list; its exports are then bound when it is declared.
    fn exported_names(&mut self, library: usize) -> Option<String>;

    /// The entry point that `library` exports under `symbol`.
    fn get_symbol(&mut self, library: usize, symbol: &str) -> Option<usize>;

    /// Calls a native entry point with its arguments in order; the caller owns
    /// the value it returns. A type error when an argument's tag is not the
    /// one the entry point expects.
    fn call(&mut self, function: usize, args: Vec<Option<HugValue>>) -> Result<HugValue, TypeError>;
}

#[derive(Debug, PartialEq, Eq)]
pub enum RunError {
    UnboundVariable(Ident),
    NotCallable(Ident),
    /// No library file for this location.
    LibraryNotFound(String),
    /// The library file exists but could not be opened as a module.
    InvalidModule(String),
    /// The module does not export this name.
    MissingSymbol(Ident),
    /// An import path that does not start at a module, or is too short.
    InvalidImport,
    /// A statement kind that the evaluator does not implement.
    Unimplemented,
    /// An identifier too large to bind.
    TooManyNames,
    /// A native function was called with an argument of another type than
    /// it takes.
    ArgumentType(Ident),
}

#[derive(Debug, Clone, Copy, PartialEq, Eq, Structural)]
pub enum LoadError {
    Lex(LexError),
    Syntax(SyntaxError),
}

/// A condition that does not stop evaluation.
#[derive(Debug, Clone, Copy, PartialEq, Eq, Structural)]
pub enum Warning {
    /// The export was imported before; the cached value was used.
    DuplicateImport(Ident),
}

/// The prelude that every session loads before its script: the core native
/// module and the functions it exports.
pub const HUG_CORE_SCRIPT: &'static str = "@extern(\"hug_core\") module core\nuse core.add\nuse core.print\n";

/// The prefix of the native symbol that exports a function to scripts.
pub const EXPORT_PREFIX: &'static str = "_HUG_EXPORT_";

/// The evaluator's mutable state.
#[derive(Debug)]
pub struct Machine {
    pub paused: bool,
    pub pointer: usize,
    pub variables: Variables,
    /// The variable store of each loaded module, by `HugModule::store`.
    pub modules: Vec<Variables>,
}

/// The value that evaluating `e` gives without running anything: a literal's
/// value, or a variable's binding.
pub open spec fn simple_value(vars: Map<usize, HugValue>, e: Expression) -> Option<HugValue> {
    match e {
        Expression::Literal(v) => Some(v),
        Expression::Variable(id) => if vars.contains_key(id.0) {
            Some(vars[id.0])
        } else {
            None
        },
        _ => None,
    }
}

/// The value that an import of `name` from a module store finds cached there.
pub open spec fn cached_export(store: Map<usize, HugValue>, name: Ident) -> Option<HugValue> {
    if store.contains_key(name.0) {
        Some(store[name.0])
    } else {
        None
    }
}

/// The module whose store holds the export that `path[i..]` names inside
/// `module`: each segment but the last must name a nested module.
pub open spec fn innermost(
    stores: Seq<Map<usize, HugValue>>,
    module: HugModule,
    path: Seq<Ident>,
    i: int,
) -> Option<HugModule>
    decreases path.len() - i,
{
    if !(module.store < stores.len()) || !(0 <= i < path.len()) {
        None
    } else if i + 1 < path.len() {
        match stores[module.store as int].get(path[i].0) {
            Some(HugValue::Module(m)) => innermost(stores, m, path, i + 1),
            _ => None,
        }
    } else {
        Some(module)
    }
}

/// The path of the library that `location` names, from the host's answer.
pub fn resolved_path(location: &String, answer: Option<String>) -> (r: Result<String, RunError>)
    ensures
        match answer {
            Some(p) => r == Ok::<String, RunError>(p),
            None => r matches Err(RunError::LibraryNotFound(l)) && l@ == location@,
        },
{
    match answer {
        Some(p) => Ok(p),
        None => Err(RunError::LibraryNotFound(location.clone())),
    }
}

/// The handle of the library opened for `location`, from the host's answer.
pub fn opened_library(location: &String, answer: Option<usize>) -> (r: Result<usize, RunError>)
    ensures
        match answer {
            Some(l) => r == Ok::<usize, RunError>(l),
            None => r matches Err(RunError::InvalidModule(l)) && l@ == location@,
        },
{
    match answer {
        Some(l) => Ok(l),
        None => Err(RunError::InvalidModule(location.clone())),
    }
}

pub proof fn lemma_innermost_in_range(
    stores: Seq<Map<usize, HugValue>>,
    module: HugModule,
    path: Seq<Ident>,
    i: int,
)
    ensures
        innermost(stores, module, path, i) matches Some(m) ==> m.store < stores.len(),
    decreases path.len() - i,
{
    if module.store < stores.len() && 0 <= i < path.len() && i + 1 < path.len() {
        if let Some(HugValue::Module(m)) = stores[module.store as int].get(path[i].0) {
            lemma_innermost_in_range(stores, m, path, i + 1);
        }
    }
}

/// What running the main statement `entry` does, as far as it depends on
/// the bindings alone: a definition of a literal or a variable's value binds
/// it, a bare literal or bound variable changes nothing, and either moves on
/// to the next statement (`next`).
pub open spec fn step_effect(
    entry: HugTreeEntry,
    old_vars: Map<usize, HugValue>,
    new_vars: Map<usize, HugValue>,
    next: usize,
    pointer: usize,
    r: Result<bool, RunError>,
) -> bool {
    match entry {
        HugTreeEntry::VariableDefinition { variable, value } => match simple_value(
            old_vars,
            value,
        ) {
            Some(v) => variable.0 < usize::MAX ==> r == Ok::<bool, RunError>(true) && new_vars
                == old_vars.insert(variable.0, v) && pointer == next,
            None => true,
        },
        HugTreeEntry::Expression(e) => match simple_value(old_vars, e) {
            Some(_) => r == Ok::<bool, RunError>(true) && new_vars == old_vars && pointer == next,
            None => true,
        },
        _ => true,
    }
}

/// What an import of `path` from the module `m0` does to the bindings: a
/// chain that does not lead to a module store fails; an export cached there
/// is bound as it is; any success binds the last segment to what the store
/// now holds for it.
pub open spec fn import_bound(
    old_vars: Map<usize, HugValue>,
    old_stores: Seq<Map<usize, HugValue>>,
    new_vars: Map<usize, HugValue>,
    new_stores: Seq<Map<usize, HugValue>>,
    m0: HugModule,
    path: Seq<Ident>,
    r: Result<Option<Warning>, RunError>,
) -> bool {
    let last = path.last();
    match innermost(old_stores, m0, path, 1) {
        None => r == Err::<Option<Warning>, RunError>(RunError::InvalidImport),
        Some(m) => {
            &&& match cached_export(old_stores[m.store as int], last) {
                Some(v) => last.0 < usize::MAX ==> r == Ok::<Option<Warning>, RunError>(
                    Some(Warning::DuplicateImport(last)),
                ) && new_vars == old_vars.insert(last.0, v),
                None => true,
            }
            &&& r is Ok ==> new_vars == old_vars.insert(
                last.0,
                new_stores[m.store as int][last.0],
            )
        },
    }
}

/// Where the name that starts at `i` of a comma-separated list ends: the
/// next comma, or the end.
pub open spec fn comma_at(s: Seq<u8>, i: int) -> int
    decreases s.len() - i,
{
    if 0 <= i < s.len() && s[i] != 0x2c {
        comma_at(s, i + 1)
    } else {
        i
    }
}

/// The names of the comma-separated list `s[i..]`, in order; empty ones are
/// skipped.
pub open spec fn listed_names(s: Seq<u8>, i: int) -> Seq<Seq<u8>>
    decreases s.len() - i,
{
    let c = comma_at(s, i);
    if !(0 <= i <= c <= s.len()) {
        Seq::empty()
    } else {
        let head = s.subrange(i, c);
        let rest = if c < s.len() {
            listed_names(s, c + 1)
        } else {
            Seq::empty()
        };
        if head.len() == 0 {
            rest
        } else {
            seq![head] + rest
        }
    }
}

/// With no comma in `s[i..j]` and one (or the end) at `j`, the name at `i`
/// ends at `j`.
pub proof fn lemma_comma_at(s: Seq<u8>, i: int, j: int)
    requires
        0 <= i <= j <= s.len(),
        forall|k: int| i <= k < j ==> s[k] != 0x2c,
        j < s.len() ==> s[j] == 0x2c,
    ensures
        comma_at(s, i) == j,
    decreases j - i,
{
    if i < j {
        lemma_comma_at(s, i + 1, j);
    }
}

/// The store keeps every binding it had to a native function, and gains
/// only native functions.
pub open spec fn grows(before: Map<usize, HugValue>, after: Map<usize, HugValue>) -> bool {
    forall|k: usize|
        #[trigger] before.contains_key(k) ==> after.contains_key(k) && (before[k] is Function
            ==> after[k] is Function)
}

/// The name spelled by `name` is interned and bound in `store` to a function.
pub open spec fn bound_name(names: Seq<Seq<char>>, store: Map<usize, HugValue>, name: Seq<u8>) -> bool {
    &&& valid_utf8(name)
    &&& position(names, decode_utf8(name)) is Some
    &&& store.contains_key(position(names, decode_utf8(name))->0 as usize)
    &&& store[position(names, decode_utf8(name))->0 as usize] is Function
}

pub proof fn lemma_bound_kept(
    a: IdentTable,
    b: IdentTable,
    sa: Map<usize, HugValue>,
    sb: Map<usize, HugValue>,
    names: Seq<Seq<u8>>,
)
    requires
        extends(a, b),
        grows(sa, sb),
        forall|k: int| 0 <= k < names.len() ==> bound_name(a@, sa, #[trigger] names[k]),
    ensures
        forall|k: int| 0 <= k < names.len() ==> bound_name(b@, sb, #[trigger] names[k]),
{
    assert forall|k: int| 0 <= k < names.len() implies bound_name(b@, sb, #[trigger] names[k]) by {
        crate::ident_table::lemma_position_kept(a@, b@, decode_utf8(names[k]));
    }
}

/// What evaluating the arguments `args` gives when every one before the
/// first failing one is a literal or a variable: the packed values, or the
/// error of an unbound variable. `None` once a call comes first.
pub open spec fn args_outcome(vars: Map<usize, HugValue>, args: Seq<Expression>) -> Option<
    Result<Seq<Option<HugValue>>, RunError>,
>
    decreases args.len(),
{
    if args.len() == 0 {
        Some(Ok(Seq::empty()))
    } else {
        match simple_value(vars, args[0]) {
            Some(v) => prepend(seq![Some(v)], args_outcome(vars, args.drop_first())),
            None => match args[0] {
                Expression::Variable(id) => Some(Err(RunError::UnboundVariable(id))),
                _ => None,
            },
        }
    }
}

/// `front` followed by what `rest` packed.
pub open spec fn prepend(
    front: Seq<Option<HugValue>>,
    rest: Option<Result<Seq<Option<HugValue>>, RunError>>,
) -> Option<Result<Seq<Option<HugValue>>, RunError>> {
    match rest {
        Some(Ok(tail)) => Some(Ok(front + tail)),
        other => other,
    }
}

/// The packed arguments as a sequence.
pub open spec fn packed(r: Result<Vec<Option<HugValue>>, RunError>) -> Result<
    Seq<Option<HugValue>>,
    RunError,
> {
    match r {
        Ok(v) => Ok(v@),
        Err(e) => Err(e),
    }
}

/// What a native call's answer gives: its value, or the argument type error
/// of the function called as `function`.
pub fn native_result(function: Ident, answer: Result<HugValue, TypeError>) -> (r: Result<
    HugValue,
    RunError,
>)
    ensures
        r == (match answer {
            Ok(v) => Ok::<HugValue, RunError>(v),
            Err(_) => Err(RunError::ArgumentType(function)),
        }),
{
    match answer {
        Ok(v) => Ok(v),
        Err(_) => Err(RunError::ArgumentType(function)),
    }
}

/// An export, once imported into a module's store, is what every later
/// import of the same name returns.
pub proof fn lemma_import_twice(store: Map<usize, HugValue>, name: Ident, value: HugValue)
    ensures
        cached_export(store.insert(name.0, value), name) == Some(value),
{
}

/// The native symbol name for an export called `name`.
fn export_symbol(name: &str) -> (r: String)
    ensures
        r@ == EXPORT_PREFIX@ + name@,
{
    let mut s = String::from_str(EXPORT_PREFIX);
    s.append(name);
    s
}

/// Binds `ident` in `vars`.
fn bind(vars: &mut Variables, ident: Ident, value: HugValue) -> (r: Result<(), RunError>)
    ensures
        r is Ok ==> final(vars)@ == old(vars)@.insert(ident.0, value),
        r is Err ==> final(vars)@ == old(vars)@ && r == Err::<(), RunError>(
            RunError::TooManyNames,
        ),
        r is Ok <==> ident.0 < usize::MAX,
{
    if ident.0 == usize::MAX {
        return Err(RunError::TooManyNames);
    }
    vars.set(ident, value);
    Ok(())
}

impl Machine {
    pub fn new() -> (r: Self)
        ensures
            r.variables@ == Map::<usize, HugValue>::empty(),
            r.modules@.len() == 0,
            r.pointer == 0,
            !r.paused,
    {
        Machine { paused: false, pointer: 0, variables: Variables::new(), modules: Vec::new() }
    }

    /// The stores of the loaded modules, by index.
    pub open spec fn stores(&self) -> Seq<Map<usize, HugValue>> {
        self.modules@.map_values(|v: Variables| v@)
    }

    /// Evaluates `expression`. A literal gives its value and a variable its
    /// binding, with nothing else touched; a call resolves its callee, then
    /// either jumps to a script function's definition (giving `Void`: calls do
    /// not return yet) or evaluates the arguments and calls the host.
    pub fn evaluate<H: NativeHost>(&mut self, host: &mut H, expression: &Expression) -> (r:
        Result<HugValue, RunError>)
        ensures
            final(self).variables@ == old(self).variables@,
            final(self).modules@ == old(self).modules@,
            final(self).paused == old(self).paused,
            simple_value(old(self).variables@, *expression) matches Some(v) ==> r == Ok::<
                HugValue,
                RunError,
            >(v) && *final(self) == *old(self) && *final(host) == *old(host),
            expression matches Expression::Variable(id) ==> (!old(self).variables@.contains_key(
                id.0,
            ) ==> r == Err::<HugValue, RunError>(RunError::UnboundVariable(*id))
                && *final(self) == *old(self) && *final(host) == *old(host)),
            expression matches Expression::Call { function, args } ==> {
                let callee = old(self).variables@.get(function.0);
                &&& callee is None ==> r == Err::<HugValue, RunError>(
                    RunError::UnboundVariable(*function),
                ) && *final(self) == *old(self) && *final(host) == *old(host)
                &&& callee is Some && !(callee->0 is Function) ==> r == Err::<HugValue, RunError>(
                    RunError::NotCallable(*function),
                ) && *final(self) == *old(self) && *final(host) == *old(host)
                &&& callee matches Some(HugValue::Function(HugFunction::Hug { address })) ==> r
                    == Ok::<HugValue, RunError>(HugValue::Void) && final(self).pointer == address
                    && *final(host) == *old(host)
                &&& callee matches Some(HugValue::Function(HugFunction::External { .. }))
                    ==> (args_outcome(old(self).variables@, args@) matches Some(Err(e)) ==> r
                    == Err::<HugValue, RunError>(e) && *final(self) == *old(self) && *final(host)
                    == *old(host))
            },
        decreases expression, 0nat,
    {
        match expression {
            Expression::Literal(value) => Ok(value.clone()),
            Expression::Variable(variable) => match self.variables.get(*variable) {
                Some(v) => Ok(v.clone()),
                None => Err(RunError::UnboundVariable(*variable)),
            },
            Expression::Call { function, args } => {
                let callee = match self.variables.get(*function) {
                    Some(HugValue::Function(f)) => *f,
                    Some(_) => {
                        return Err(RunError::NotCallable(*function));
                    },
                    None => {
                        return Err(RunError::UnboundVariable(*function));
                    },
                };
                match callee {
                    HugFunction::Hug { address } => {
                        self.pointer = address;
                        Ok(HugValue::Void)
                    },
                    HugFunction::External { function: native } => {
                        proof {
                            assert(decreases_to!(expression => args));
                        }
                        let values = self.evaluate_args(host, args)?;
                        native_result(*function, host.call(native, values))
                    },
                }
            },
        }
    }

    /// Evaluates `args` left to right, each into `Some` of its value, up to
    /// the first error.
    pub fn evaluate_args<H: NativeHost>(&mut self, host: &mut H, args: &Vec<Expression>) -> (r:
        Result<Vec<Option<HugValue>>, RunError>)
        ensures
            final(self).variables@ == old(self).variables@,
            final(self).modules@ == old(self).modules@,
            final(self).paused == old(self).paused,
            args_outcome(old(self).variables@, args@) matches Some(o) ==> packed(r) == o
                && *final(self) == *old(self) && *final(host) == *old(host),
        decreases args, 1nat,
    {
        let ghost vars = self.variables@;
        let ghost all = args@;
        let mut values: Vec<Option<HugValue>> = Vec::new();
        let ghost mut saw_call = false;
        let mut i: usize = 0;
        proof {
            assert(all.skip(0) =~= all);
            if let Some(Ok(tail)) = args_outcome(vars, all) {
                assert(values@ + tail =~= tail);
            }
        }
        while i < args.len()
            invariant
                i <= all.len(),
                all == args@,
                self.variables@ == vars,
                vars == old(self).variables@,
                self.modules@ == old(self).modules@,
                self.paused == old(self).paused,
                saw_call ==> args_outcome(vars, all) is None,
                !saw_call ==> args_outcome(vars, all) == prepend(
                    values@,
                    args_outcome(vars, all.skip(i as int)),
                ) && *self == *old(self) && *host == *old(host),
            decreases all.len() - i,
        {
            proof {
                assert(decreases_to!(args => args[i as int]));
                assert(all.skip(i as int)[0] == all[i as int]);
                assert(all.skip(i as int).drop_first() =~= all.skip(i + 1));
            }
            let ghost was_simple = simple_value(vars, all[i as int]) is Some;
            let v = self.evaluate(host, &args[i])?;
            proof {
                if !saw_call {
                    if was_simple {
                        let rest = args_outcome(vars, all.skip(i + 1));
                        if let Some(Ok(tail)) = rest {
                            assert(values@.push(Some(v)) + tail =~= values@ + (seq![Some(v)]
                                + tail));
                        }
                    } else {
                        saw_call = true;
                    }
                }
            }
            values.push(Some(v));
            i = i + 1;
        }
        proof {
            if !saw_call {
                assert(values@ + Seq::<Option<HugValue>>::empty() =~= values@);
            }
        }
        Ok(values)
    }

    /// Caches in store `store` the host's answer for the export `name`: the
    /// native function it found, or a missing symbol.
    pub fn cache_symbol(&mut self, store: usize, name: Ident, answer: Option<usize>) -> (r: Result<
        HugValue,
        RunError,
    >)
        requires
            store < old(self).modules@.len(),
        ensures
            final(self).modules@.len() == old(self).modules@.len(),
            final(self).variables@ == old(self).variables@,
            final(self).pointer == old(self).pointer,
            final(self).paused == old(self).paused,
            match answer {
                None => r == Err::<HugValue, RunError>(RunError::MissingSymbol(name)) && *final(self) == *old(self),
                Some(f) => if name.0 < usize::MAX {
                    r == Ok::<HugValue, RunError>(
                        HugValue::Function(HugFunction::External { function: f }),
                    ) && final(self).stores() == old(self).stores().update(
                        store as int,
                        old(self).stores()[store as int].insert(
                            name.0,
                            HugValue::Function(HugFunction::External { function: f }),
                        ),
                    )
                } else {
                    r == Err::<HugValue, RunError>(RunError::TooManyNames) && *final(self) == *old(self)
                },
            },
    {
        let function = match answer {
            Some(f) => f,
            None => {
                return Err(RunError::MissingSymbol(name));
            },
        };
        if name.0 == usize::MAX {
            return Err(RunError::TooManyNames);
        }
        let value = HugValue::Function(HugFunction::External { function });
        let ghost before = self.stores();
        let mut vars = self.modules.remove(store);
        vars.set(name, value.clone());
        self.modules.insert(store, vars);
        proof {
            assert(self.stores() =~= before.update(
                store as int,
                before[store as int].insert(name.0, value),
            ));
        }
        Ok(value)
    }

    /// Resolves `path[i..]` inside `module`: through nested modules, down to
    /// the export that the last segment names. An export already in the
    /// module's store is returned from there, with the host untouched;
    /// otherwise the host is asked for its native symbol and the answer cached.
    pub fn import<H: NativeHost>(
        &mut self,
        idents: &IdentTable,
        host: &mut H,
        module: HugModule,
        path: &Vec<Ident>,
        i: usize,
    ) -> (r: Result<(HugValue, Option<Warning>), RunError>)
        requires
            1 <= i < path@.len(),
        ensures
            final(self).variables@ == old(self).variables@,
            final(self).pointer == old(self).pointer,
            final(self).paused == old(self).paused,
            final(self).modules@.len() == old(self).modules@.len(),
            ({
                let stores = old(self).stores();
                let name = path@.last();
                match innermost(stores, module, path@, i as int) {
                    None => r == Err::<(HugValue, Option<Warning>), RunError>(
                        RunError::InvalidImport,
                    ) && *final(self) == *old(self) && *final(host) == *old(host),
                    Some(m) => match cached_export(stores[m.store as int], name) {
                        Some(v) => r == Ok::<(HugValue, Option<Warning>), RunError>(
                            (v, Some(Warning::DuplicateImport(name))),
                        ) && *final(self) == *old(self) && *final(host) == *old(host),
                        None => {
                            &&& name.0 >= idents@.len() ==> r == Err::<
                                (HugValue, Option<Warning>),
                                RunError,
                            >(RunError::MissingSymbol(name)) && *final(self) == *old(self)
                                && *final(host) == *old(host)
                            &&& r matches Ok((v, w)) ==> w is None && v is Function
                                && final(self).stores() == stores.update(
                                m.store as int,
                                stores[m.store as int].insert(name.0, v),
                            )
                            &&& r is Err ==> *final(self) == *old(self)
                        },
                    },
                }
            }),
        decreases path@.len() - i,
    {
        if module.store >= self.modules.len() {
            return Err(RunError::InvalidImport);
        }
        let name = path[i];
        if i < path.len() - 1 {
            let inner = match self.modules[module.store].get(name) {
                Some(HugValue::Module(m)) => *m,
                _ => {
                    return Err(RunError::InvalidImport);
                },
            };
            return self.import(idents, host, inner, path, i + 1);
        }
        if let Some(v) = self.modules[module.store].get(name) {
            return Ok((v.clone(), Some(Warning::DuplicateImport(name))));
        }
        if name.0 >= idents.len() {
            return Err(RunError::MissingSymbol(name));
        }
        let symbol = export_symbol(idents.name(name));
        let answer = host.get_symbol(module.library, symbol.as_str());
        let value = self.cache_symbol(module.store, name, answer)?;
        Ok((value, None))
    }

    /// Binds in `store` the export that the bytes `name` spell, when the
    /// host finds its entry point.
    fn bind_export<H: NativeHost>(
        idents: &mut IdentTable,
        host: &mut H,
        library: usize,
        name: &[u8],
        store: &mut Variables,
    ) -> (r: Result<(), ()>)
        requires
            old(idents).wf(),
        ensures
            extends(*old(idents), *final(idents)),
            grows(old(store)@, final(store)@),
            r is Ok ==> bound_name(final(idents)@, final(store)@, name@),
    {
        proof {
            assert(idents@.subrange(0, idents@.len() as int) =~= idents@);
        }
        let text = match crate::literal::text_of(name) {
            Some(text) => text,
            None => {
                return Err(());
            },
        };
        if idents.len() == usize::MAX {
            return Err(());
        }
        let symbol = export_symbol(text.as_str());
        let ghost before = *idents;
        proof {
            vstd::utf8::encode_utf8_decode_utf8(text@);
        }
        let ident = idents.ident_of(text);
        proof {
            crate::ident_table::lemma_intern_stable(before@, text@, text@);
            assert(idents@.subrange(0, before@.len() as int) =~= before@);
            assert(extends(before, *idents));
            crate::ident_table::lemma_position_index(idents@, text@);
        }
        let function = match host.get_symbol(library, symbol.as_str()) {
            Some(f) => f,
            None => {
                return Err(());
            },
        };
        match bind(store, ident, HugValue::Function(HugFunction::External { function })) {
            Ok(()) => Ok(()),
            Err(_) => Err(()),
        }
    }

    /// Binds in `store` every export that the comma-separated `list` names;
    /// on success each listed name is bound to a native function.
    pub fn bind_exports<H: NativeHost>(
        idents: &mut IdentTable,
        host: &mut H,
        library: usize,
        list: &str,
        store: &mut Variables,
    ) -> (r: Result<(), ()>)
        requires
            old(idents).wf(),
        ensures
            extends(*old(idents), *final(idents)),
            r is Ok ==> forall|k: int|
                0 <= k < listed_names(list.spec_bytes(), 0).len() ==> bound_name(
                    final(idents)@,
                    final(store)@,
                    #[trigger] listed_names(list.spec_bytes(), 0)[k],
                ),
    {
        proof {
            assert(idents@.subrange(0, idents@.len() as int) =~= idents@);
        }
        let bytes = list.as_bytes();
        let ghost s = bytes@;
        let n = bytes.len();
        let ghost mut done: Seq<Seq<u8>> = Seq::empty();
        let mut start: usize = 0;
        let mut i: usize = 0;
        proof {
            assert(listed_names(s, 0) =~= done + listed_names(s, 0));
        }
        while i < n
            invariant
                extends(*old(idents), *idents),
                s == bytes@,
                s == list.spec_bytes(),
                n == s.len(),
                start <= i <= n,
                forall|k: int| start <= k < i ==> s[k] != 0x2c,
                listed_names(s, 0) == done + listed_names(s, start as int),
                forall|k: int| 0 <= k < done.len() ==> bound_name(idents@, store@, #[trigger] done[k]),
            decreases n - i,
        {
            if bytes[i] == 0x2c {
                let ghost head = s.subrange(start as int, i as int);
                proof {
                    lemma_comma_at(s, start as int, i as int);
                    assert(listed_names(s, start as int) == if head.len() == 0 {
                        listed_names(s, i + 1)
                    } else {
                        seq![head] + listed_names(s, i + 1)
                    });
                }
                if start < i {
                    let ghost old_idents = *idents;
                    let ghost old_store = store@;
                    Self::bind_export(idents, host, library, vstd::slice::slice_subrange(bytes, start, i), store)?;
                    proof {
                        lemma_bound_kept(old_idents, *idents, old_store, store@, done);
                        done = done.push(head);
                        assert(listed_names(s, 0) =~= done + listed_names(s, i + 1));
                    }
                }
                start = i + 1;
            }
            i = i + 1;
        }
        let ghost head = s.subrange(start as int, n as int);
        proof {
            lemma_comma_at(s, start as int, n as int);
            assert(listed_names(s, start as int) == if head.len() == 0 {
                Seq::<Seq<u8>>::empty()
            } else {
                seq![head]
            });
        }
        if start < n {
            let ghost old_idents = *idents;
            let ghost old_store = store@;
            Self::bind_export(idents, host, library, vstd::slice::slice_subrange(bytes, start, n), store)?;
            proof {
                lemma_bound_kept(old_idents, *idents, old_store, store@, done);
                done = done.push(head);
                assert(listed_names(s, 0) =~= done);
            }
        } else {
            proof {
                assert(listed_names(s, 0) =~= done);
            }
        }
        Ok(())
    }

    /// Opens the native library that `location` names and binds it to
    /// `module`. A library that lists its exports has them all bound now;
    /// one that lists a name it does not export is no valid module.
    pub fn declare_external<H: NativeHost>(
        &mut self,
        idents: &mut IdentTable,
        host: &mut H,
        module: Ident,
        location: &String,
    ) -> (r: Result<(), RunError>)
        requires
            old(idents).wf(),
        ensures
            extends(*old(idents), *final(idents)),
            final(self).pointer == old(self).pointer,
            final(self).paused == old(self).paused,
            r is Err ==> final(self).variables@ == old(self).variables@ && final(self).modules@
                == old(self).modules@,
            r is Ok ==> ({
                &&& final(self).modules@.len() == old(self).modules@.len() + 1
                &&& final(self).modules@.subrange(0, old(self).modules@.len() as int)
                    == old(self).modules@
                &&& final(self).variables@ == old(self).variables@.insert(
                    module.0,
                    final(self).variables@[module.0],
                )
                &&& (final(self).variables@[module.0] matches HugValue::Module(m) && m.store
                    == old(self).modules@.len() as usize)
            }),
            r matches Err(RunError::LibraryNotFound(l)) ==> l@ == location@,
    {
        proof {
            assert(idents@.subrange(0, idents@.len() as int) =~= idents@);
        }
        let path = resolved_path(location, host.resolve(location.as_str()))?;
        let library = opened_library(location, host.open(path.as_str()))?;
        let mut exports = Variables::new();
        if let Some(list) = host.exported_names(library) {
            if Self::bind_exports(idents, host, library, list.as_str(), &mut exports).is_err() {
                return Err(RunError::InvalidModule(location.clone()));
            }
        }
        self.install(module, library, exports)
    }

    /// Adds a module store holding `exports` for the opened `library`, and
    /// binds `module` to it.
    pub fn install(&mut self, module: Ident, library: usize, exports: Variables) -> (r: Result<
        (),
        RunError,
    >)
        ensures
            final(self).pointer == old(self).pointer,
            final(self).paused == old(self).paused,
            module.0 < usize::MAX ==> r is Ok && final(self).modules@.len() == old(
                self,
            ).modules@.len() + 1 && final(self).stores() == old(self).stores().push(
                exports@,
            ) && final(self).modules@.subrange(0, old(self).modules@.len() as int) == old(
                self,
            ).modules@ && final(self).variables@ == old(self).variables@.insert(
                module.0,
                HugValue::Module(HugModule { library, store: old(self).modules@.len() as usize }),
            ),
            module.0 == usize::MAX ==> r == Err::<(), RunError>(RunError::TooManyNames)
                && *final(self) == *old(self),
    {
        if module.0 == usize::MAX {
            return Err(RunError::TooManyNames);
        }
        let store = self.modules.len();
        let ghost before = self.modules@;
        let ghost stores = self.stores();
        let ghost view = exports@;
        self.modules.push(exports);
        proof {
            assert(self.modules@.subrange(0, before.len() as int) =~= before);
            assert(self.stores() =~= stores.push(view));
        }
        bind(&mut self.variables, module, HugValue::Module(HugModule { library, store }))
    }

    /// Runs one statement, which stands at `position` when it is in the main
    /// sequence.
    pub fn execute<H: NativeHost>(
        &mut self,
        idents: &mut IdentTable,
        host: &mut H,
        entry: &HugTreeEntry,
        position: usize,
    ) -> (r: Result<Option<Warning>, RunError>)
        requires
            old(idents).wf(),
        ensures
            extends(*old(idents), *final(idents)),
            final(self).paused == old(self).paused,
            entry is ModuleDefinition ==> r == Err::<Option<Warning>, RunError>(
                RunError::Unimplemented,
            ) && *final(self) == *old(self),
            entry matches HugTreeEntry::VariableDefinition { variable, value } ==> (simple_value(
                old(self).variables@,
                *value,
            ) matches Some(v) ==> (variable.0 < usize::MAX ==> r is Ok && final(self).variables@
                == old(self).variables@.insert(variable.0, v) && final(self).pointer == old(
                self,
            ).pointer && final(self).modules@ == old(self).modules@)),
            entry matches HugTreeEntry::FunctionDefinition { ident, .. } ==> (ident.0
                < usize::MAX ==> r is Ok && final(self).variables@ == old(self).variables@.insert(
                ident.0,
                HugValue::Function(HugFunction::Hug { address: position }),
            )),
            entry matches HugTreeEntry::Import { path } ==> {
                &&& path@.len() < 2 ==> r == Err::<Option<Warning>, RunError>(
                    RunError::InvalidImport,
                )
                &&& path@.len() >= 2 && !(old(self).variables@.get(path@[0].0) matches Some(
                    HugValue::Module(_),
                )) ==> r == Err::<Option<Warning>, RunError>(RunError::InvalidImport)
                &&& old(self).variables@.get(path@[0].0) matches Some(HugValue::Module(m0)) ==> (
                path@.len() >= 2 ==> import_bound(
                    old(self).variables@,
                    old(self).stores(),
                    final(self).variables@,
                    final(self).stores(),
                    m0,
                    path@,
                    r,
                ))
            },
            entry matches HugTreeEntry::ExternalModuleDefinition { module, .. } ==> (r is Ok
                ==> final(self).variables@.get(module.0) matches Some(HugValue::Module(_))),
            entry matches HugTreeEntry::Expression(e) ==> {
                &&& final(self).variables@ == old(self).variables@
                &&& simple_value(old(self).variables@, *e) is Some ==> r == Ok::<
                    Option<Warning>,
                    RunError,
                >(None) && *final(self) == *old(self)
                &&& e matches Expression::Variable(id) ==> (!old(self).variables@.contains_key(
                    id.0,
                ) ==> r == Err::<Option<Warning>, RunError>(RunError::UnboundVariable(*id)))
                &&& e matches Expression::Call { function, .. } ==> (old(self).variables@.get(
                    function.0,
                ) matches Some(HugValue::Function(HugFunction::Hug { address })) ==> r == Ok::<
                    Option<Warning>,
                    RunError,
                >(None) && final(self).pointer == address)
            },
            r is Err ==> final(self).variables@ == old(self).variables@,
    {
        proof {
            assert(idents@.subrange(0, idents@.len() as int) =~= idents@);
        }
        match entry {
            HugTreeEntry::ModuleDefinition { .. } => Err(RunError::Unimplemented),
            HugTreeEntry::ExternalModuleDefinition { module, location } => {
                self.declare_external(idents, host, *module, location)?;
                Ok(None)
            },
            HugTreeEntry::Import { path } => {
                if path.len() < 2 {
                    return Err(RunError::InvalidImport);
                }
                let module = match self.variables.get(path[0]) {
                    Some(HugValue::Module(m)) => *m,
                    _ => {
                        return Err(RunError::InvalidImport);
                    },
                };
                let ghost before = *self;
                let (value, warning) = self.import(idents, host, module, path, 1)?;
                let ghost mid = *self;
                let last = path[path.len() - 1];
                proof {
                    assert(last == path@.last());
                    lemma_innermost_in_range(before.stores(), module, path@, 1);
                    if let Some(m) = innermost(before.stores(), module, path@, 1) {
                        if cached_export(before.stores()[m.store as int], last) is None {
                            assert(mid.stores()[m.store as int][last.0] == value);
                        } else {
                            assert(mid.stores() == before.stores());
                        }
                    }
                }
                bind(&mut self.variables, last, value)?;
                assert(self.stores() == mid.stores());
                Ok(warning)
            },
            HugTreeEntry::VariableDefinition { variable, value } => {
                let v = self.evaluate(host, value)?;
                bind(&mut self.variables, *variable, v)?;
                Ok(None)
            },
            HugTreeEntry::FunctionDefinition { ident, .. } => {
                bind(
                    &mut self.variables,
                    *ident,
                    HugValue::Function(HugFunction::Hug { address: position }),
                )?;
                Ok(None)
            },
            HugTreeEntry::Expression(expression) => {
                match self.evaluate(host, expression) {
                    Ok(_) => Ok(None),
                    Err(e) => Err(e),
                }
            },
        }
    }
}

/// An interpreter session: the merged program tree, the shared identifier
/// table, and the evaluator's state.
#[derive(Debug)]
pub struct HugVM {
    tree: HugTree,
    idents: IdentTable,
    machine: Machine,
    /// How many initializers have run.
    loaded: usize,
    warnings: Vec<Warning>,
}

impl HugVM {
    pub closed spec fn wf(&self) -> bool {
        &&& self.idents.wf()
        &&& self.loaded <= self.tree.on_load@.len()
    }

    /// The names interned so far.
    pub closed spec fn names(&self) -> Seq<Seq<char>> {
        self.idents@
    }

    /// The top-level bindings.
    pub closed spec fn bindings(&self) -> Map<usize, HugValue> {
        self.machine.variables@
    }

    pub closed spec fn main_len(&self) -> nat {
        self.tree.entries@.len()
    }

    pub closed spec fn init_len(&self) -> nat {
        self.tree.on_load@.len()
    }

    pub closed spec fn spec_pointer(&self) -> usize {
        self.machine.pointer
    }

    pub closed spec fn is_paused(&self) -> bool {
        self.machine.paused
    }

    /// The initializer sequence.
    pub closed spec fn inits(&self) -> Seq<HugTreeEntry> {
        self.tree.on_load@
    }

    /// The main sequence.
    pub closed spec fn mains(&self) -> Seq<HugTreeEntry> {
        self.tree.entries@
    }

    /// How many initializers have run.
    pub closed spec fn done(&self) -> nat {
        self.loaded as nat
    }

    pub closed spec fn warning_log(&self) -> Seq<Warning> {
        self.warnings@
    }

    /// Where the pointer goes after the statement at it, unless that
    /// statement moved it.
    pub open spec fn advanced(&self) -> usize {
        if self.is_paused() || self.spec_pointer() == usize::MAX {
            self.spec_pointer()
        } else {
            (self.spec_pointer() + 1) as usize
        }
    }

    pub fn new() -> (r: Self)
        ensures
            r.wf(),
            r.names() == Seq::<Seq<char>>::empty(),
            r.bindings() == Map::<usize, HugValue>::empty(),
            r.main_len() == 0,
            r.init_len() == 0,
            r.spec_pointer() == 0,
    {
        HugVM {
            tree: HugTree::new(),
            idents: IdentTable::new(),
            machine: Machine::new(),
            loaded: 0,
            warnings: Vec::new(),
        }
    }

    /// Scans and parses `program`, and appends its statements to the tree.
    /// On an error the tree is unchanged; names met before the error stay
    /// interned.
    pub fn load_script(&mut self, program: &str) -> (r: Result<(), LoadError>)
        requires
            old(self).wf(),
        ensures
            final(self).wf(),
            final(self).names().len() >= old(self).names().len(),
            final(self).names().subrange(0, old(self).names().len() as int) == old(self).names(),
            final(self).bindings() == old(self).bindings(),
            final(self).spec_pointer() == old(self).spec_pointer(),
            final(self).done() == old(self).done(),
            final(self).is_paused() == old(self).is_paused(),
            scan_all(program.spec_bytes(), 0) matches Err(e) ==> r == Err::<(), LoadError>(
                LoadError::Lex(e),
            ),
            r is Err ==> final(self).mains() == old(self).mains() && final(self).inits() == old(
                self,
            ).inits(),
            r is Ok ==> {
                &&& final(self).mains().len() >= old(self).mains().len()
                &&& final(self).mains().subrange(0, old(self).mains().len() as int) == old(
                    self,
                ).mains()
                &&& final(self).inits().len() >= old(self).inits().len()
                &&& final(self).inits().subrange(0, old(self).inits().len() as int) == old(
                    self,
                ).inits()
            },
    {
        let pairs = match lex(program) {
            Ok(p) => p,
            Err(e) => {
                proof {
                    assert(self.idents@.subrange(0, self.idents@.len() as int) =~= self.idents@);
                }
                return Err(LoadError::Lex(e));
            },
        };
        let tree = match HugTree::from_token_pairs(&pairs, &mut self.idents) {
            Ok(t) => t,
            Err(e) => {
                return Err(LoadError::Syntax(e));
            },
        };
        let ghost before = self.tree;
        self.tree.merge_with(tree);
        proof {
            assert(self.tree.entries@.subrange(0, before.entries@.len() as int)
                =~= before.entries@);
            assert(self.tree.on_load@.subrange(0, before.on_load@.len() as int)
                =~= before.on_load@);
        }
        Ok(())
    }

    /// The value bound to `name` at the top level.
    pub fn variable(&self, name: &str) -> (r: Option<&HugValue>)
        requires
            self.wf(),
        ensures
            match position(self.names(), name@) {
                Some(i) => match r {
                    Some(v) => self.bindings().contains_key(i as usize) && *v == self.bindings()[i as usize],
                    None => !self.bindings().contains_key(i as usize),
                },
                None => r is None,
            },
    {
        match self.idents.try_ident(name) {
            Some(id) => self.machine.variables.get(id),
            None => None,
        }
    }

    /// Position of the next main statement.
    pub fn pointer(&self) -> (r: usize)
        ensures
            r == self.spec_pointer(),
    {
        self.machine.pointer
    }

    /// Warnings raised so far.
    pub fn warnings(&self) -> (r: &Vec<Warning>)
        ensures
            r@ == self.warning_log(),
    {
        &self.warnings
    }

    /// Advances past the current statement, unless paused.
    pub fn next(&mut self)
        ensures
            final(self).spec_pointer() == (if old(self).is_paused() || old(self).spec_pointer()
                == usize::MAX {
                old(self).spec_pointer()
            } else {
                (old(self).spec_pointer() + 1) as usize
            }),
            final(self).bindings() == old(self).bindings(),
            final(self).wf() == old(self).wf(),
            final(self).names() == old(self).names(),
            final(self).main_len() == old(self).main_len(),
            final(self).init_len() == old(self).init_len(),
            final(self).mains() == old(self).mains(),
            final(self).inits() == old(self).inits(),
            final(self).done() == old(self).done(),
            final(self).is_paused() == old(self).is_paused(),
    {
        if !self.machine.paused && self.machine.pointer < usize::MAX {
            self.machine.pointer = self.machine.pointer + 1;
        }
    }

    /// Runs, in load order, each initializer that has not run yet.
    pub fn start<H: NativeHost>(&mut self, host: &mut H) -> (r: Result<(), RunError>)
        requires
            old(self).wf(),
        ensures
            final(self).wf(),
            final(self).names().len() >= old(self).names().len(),
            final(self).names().subrange(0, old(self).names().len() as int) == old(self).names(),
            final(self).main_len() == old(self).main_len(),
            final(self).init_len() == old(self).init_len(),
            final(self).mains() == old(self).mains(),
            final(self).inits() == old(self).inits(),
            final(self).done() >= old(self).done(),
            r is Ok ==> final(self).done() == final(self).init_len(),
            r is Err ==> final(self).done() > old(self).done(),
            old(self).done() == old(self).init_len() ==> r is Ok && final(self).bindings() == old(
                self,
            ).bindings(),
    {
        while self.loaded < self.tree.on_load.len()
            invariant
                self.wf(),
                self.names().len() >= old(self).names().len(),
                self.names().subrange(0, old(self).names().len() as int) == old(self).names(),
                self.main_len() == old(self).main_len(),
                self.init_len() == old(self).init_len(),
                self.mains() == old(self).mains(),
                self.inits() == old(self).inits(),
                self.done() >= old(self).done(),
                old(self).done() == old(self).init_len() ==> self.bindings() == old(
                    self,
                ).bindings(),
            decreases self.tree.on_load@.len() - self.loaded,
        {
            let entry = &self.tree.on_load[self.loaded];
            let warning = self.machine.execute(&mut self.idents, host, entry, 0);
            self.loaded = self.loaded + 1;
            match warning? {
                Some(w) => self.warnings.push(w),
                None => {},
            }
        }
        Ok(())
    }

    /// Runs the main statement at the pointer and advances; `false` when the
    /// pointer is past the main sequence and nothing ran.
    pub fn step<H: NativeHost>(&mut self, host: &mut H) -> (r: Result<bool, RunError>)
        requires
            old(self).wf(),
        ensures
            final(self).wf(),
            final(self).names().len() >= old(self).names().len(),
            final(self).names().subrange(0, old(self).names().len() as int) == old(self).names(),
            final(self).main_len() == old(self).main_len(),
            final(self).mains() == old(self).mains(),
            final(self).inits() == old(self).inits(),
            final(self).done() == old(self).done(),
            old(self).spec_pointer() >= old(self).main_len() ==> r == Ok::<bool, RunError>(false)
                && final(self).bindings() == old(self).bindings(),
            old(self).spec_pointer() < old(self).main_len() ==> r != Ok::<bool, RunError>(false),
            r is Err ==> final(self).bindings() == old(self).bindings(),
            old(self).spec_pointer() < old(self).main_len() ==> step_effect(
                old(self).mains()[old(self).spec_pointer() as int],
                old(self).bindings(),
                final(self).bindings(),
                old(self).advanced(),
                final(self).spec_pointer(),
                r,
            ),
    {
        let at = self.machine.pointer;
        if at >= self.tree.entries.len() {
            return Ok(false);
        }
        let entry = &self.tree.entries[at];
        let warning = self.machine.execute(&mut self.idents, host, entry, at)?;
        match warning {
            Some(w) => self.warnings.push(w),
            None => {},
        }
        self.next();
        Ok(true)
    }
}

} // verus!
