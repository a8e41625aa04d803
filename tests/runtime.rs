use hug::ast::{Expression, HugTree, HugTreeEntry};
use hug::ident_table::IdentTable;
use hug::lexicon::{Base, LiteralKind, Token, TokenKind};
use hug::pairing::{lex, TokenPair};
use hug::parser::{SyntaxError, SyntaxErrorKind};
use hug::value::{HugFunction, HugValue, Ident, TypeError};
use hug::variables::Variables;
use hug::vm::{HugVM, LoadError, NativeHost, RunError, Warning, HUG_CORE_SCRIPT};

/// An in-memory host: one library, "mem", exporting `_HUG_EXPORT_add`.
struct MemHost {
    symbol_lookups: usize,
    calls: Vec<(usize, Vec<Option<HugValue>>)>,
    listed: Option<String>,
}

impl MemHost {
    fn new() -> Self {
        MemHost { symbol_lookups: 0, calls: Vec::new(), listed: None }
    }

    fn listing(names: &str) -> Self {
        MemHost { symbol_lookups: 0, calls: Vec::new(), listed: Some(names.to_string()) }
    }
}

impl NativeHost for MemHost {
    fn resolve(&mut self, location: &str) -> Option<String> {
        if location == "mem" {
            Some("mem.so".to_string())
        } else {
            None
        }
    }

    fn open(&mut self, path: &str) -> Option<usize> {
        if path == "mem.so" {
            Some(7)
        } else {
            None
        }
    }

    fn exported_names(&mut self, _library: usize) -> Option<String> {
        self.listed.clone()
    }

    fn get_symbol(&mut self, library: usize, symbol: &str) -> Option<usize> {
        self.symbol_lookups += 1;
        if library == 7 && symbol == "_HUG_EXPORT_add" {
            Some(100)
        } else {
            None
        }
    }

    fn call(
        &mut self,
        function: usize,
        args: Vec<Option<HugValue>>,
    ) -> Result<HugValue, TypeError> {
        self.calls.push((function, args.clone()));
        let mut sum = 0;
        for a in args {
            match a {
                Some(HugValue::Int32(v)) => sum += v,
                _ => return Err(TypeError),
            }
        }
        Ok(HugValue::Int32(sum))
    }
}

fn run(vm: &mut HugVM, host: &mut MemHost) -> Result<(), RunError> {
    vm.start(host)?;
    while vm.step(host)? {}
    Ok(())
}

fn pair(text: &str, kind: TokenKind) -> TokenPair<'_> {
    TokenPair { text: text.as_bytes(), token: Token { kind, len: text.len() } }
}

#[test]
fn interning_is_stable_and_injective() {
    let mut table = IdentTable::new();
    let a = table.ident("alpha");
    let b = table.ident("beta");
    assert_eq!(table.ident("alpha"), a);
    assert_ne!(a, b);
    assert_eq!(table.try_ident("beta"), Some(b));
    assert_eq!(table.try_ident("gamma"), None);
    assert_eq!(table.name(a), "alpha");
    assert_eq!(a, Ident(0));
    assert_eq!(b, Ident(1));
    assert_eq!(table.len(), 2);
}

#[test]
fn identifiers_are_shared_across_loads() {
    let mut vm = HugVM::new();
    vm.load_script("let x = 1").unwrap();
    vm.load_script("let y = x").unwrap();
    let mut host = MemHost::new();
    run(&mut vm, &mut host).unwrap();
    assert_eq!(vm.variable("x"), Some(&HugValue::Int32(1)));
    assert_eq!(vm.variable("y"), Some(&HugValue::Int32(1)));
}

#[test]
fn let_then_reference_binds_the_value() {
    let mut vm = HugVM::new();
    vm.load_script("let x = 5\nx").unwrap();
    let mut host = MemHost::new();
    run(&mut vm, &mut host).unwrap();
    assert_eq!(vm.variable("x"), Some(&HugValue::Int32(5)));
    assert_eq!(vm.pointer(), 2);
}

#[test]
fn missing_library_is_a_resolution_error() {
    let mut vm = HugVM::new();
    vm.load_script("@extern(\"nowhere\") module io").unwrap();
    let mut host = MemHost::new();
    assert_eq!(
        run(&mut vm, &mut host),
        Err(RunError::LibraryNotFound("nowhere".to_string()))
    );
    assert_eq!(vm.variable("io"), None);
}

#[test]
fn second_import_uses_the_cached_export() {
    let mut vm = HugVM::new();
    vm.load_script("@extern(\"mem\") module m\nuse m.add\nuse m.add\nlet r = add(2, 3)")
        .unwrap();
    let mut host = MemHost::new();
    run(&mut vm, &mut host).unwrap();
    assert_eq!(host.symbol_lookups, 1);
    assert_eq!(vm.warnings().len(), 1);
    assert!(matches!(vm.warnings()[0], Warning::DuplicateImport(_)));
    assert_eq!(
        vm.variable("add"),
        Some(&HugValue::Function(HugFunction::External { function: 100 }))
    );
    assert_eq!(vm.variable("r"), Some(&HugValue::Int32(5)));
    assert_eq!(
        host.calls,
        vec![(100, vec![Some(HugValue::Int32(2)), Some(HugValue::Int32(3))])]
    );
}

#[test]
fn nested_calls_evaluate_arguments_first() {
    let mut vm = HugVM::new();
    vm.load_script("@extern(\"mem\") module m\nuse m.add\nlet r = add(add(1, 2), 4)").unwrap();
    let mut host = MemHost::new();
    run(&mut vm, &mut host).unwrap();
    assert_eq!(vm.variable("r"), Some(&HugValue::Int32(7)));
}

#[test]
fn missing_export_is_a_resolution_error() {
    let mut vm = HugVM::new();
    vm.load_script("@extern(\"mem\") module m\nuse m.sub").unwrap();
    let mut host = MemHost::new();
    assert!(matches!(run(&mut vm, &mut host), Err(RunError::MissingSymbol(_))));
}

#[test]
fn import_from_a_non_module_fails() {
    let mut vm = HugVM::new();
    vm.load_script("use m.add").unwrap();
    let mut host = MemHost::new();
    assert_eq!(run(&mut vm, &mut host), Err(RunError::InvalidImport));
}

#[test]
fn short_import_path_is_a_syntax_error() {
    let mut vm = HugVM::new();
    assert!(matches!(
        vm.load_script("use m"),
        Err(LoadError::Syntax(SyntaxError { kind: SyntaxErrorKind::MalformedImport, .. }))
    ));
}

#[test]
fn runtime_errors() {
    let mut host = MemHost::new();
    let mut vm = HugVM::new();
    vm.load_script("y").unwrap();
    assert!(matches!(run(&mut vm, &mut host), Err(RunError::UnboundVariable(_))));

    let mut vm = HugVM::new();
    vm.load_script("let x = 1\nx(2)").unwrap();
    assert!(matches!(run(&mut vm, &mut host), Err(RunError::NotCallable(_))));

    let mut vm = HugVM::new();
    vm.load_script("module inner").unwrap();
    assert_eq!(run(&mut vm, &mut host), Err(RunError::Unimplemented));
}

#[test]
fn load_errors_leave_the_tree_alone() {
    let mut vm = HugVM::new();
    assert!(matches!(vm.load_script("let s = \"open"), Err(LoadError::Lex(_))));
    assert!(matches!(vm.load_script("let = 1"), Err(LoadError::Syntax(_))));
    let mut host = MemHost::new();
    assert_eq!(vm.step(&mut host), Ok(false));
}

#[test]
fn function_definition_binds_its_entry() {
    let mut vm = HugVM::new();
    vm.load_script("let a = 1\nfn f(x, y = 2)").unwrap();
    let mut host = MemHost::new();
    run(&mut vm, &mut host).unwrap();
    assert_eq!(
        vm.variable("f"),
        Some(&HugValue::Function(HugFunction::Hug { address: 1 }))
    );
}

#[test]
fn literals_take_their_values() {
    let int = |text: &'static str, base: Base| {
        pair(text, TokenKind::Literal(LiteralKind::Integer(base))).parse_literal()
    };
    assert_eq!(int("0x2A", Base::Hexadecimal), Some(HugValue::Int32(42)));
    assert_eq!(int("0b101", Base::Binary), Some(HugValue::Int32(5)));
    assert_eq!(int("0o17", Base::Octal), Some(HugValue::Int32(15)));
    assert_eq!(int("1_000", Base::Decimal), Some(HugValue::Int32(1000)));
    assert_eq!(int("2147483647", Base::Decimal), Some(HugValue::Int32(i32::MAX)));
    assert_eq!(int("2147483648", Base::Decimal), None);
    assert_eq!(
        pair("\"hi\"", TokenKind::Literal(LiteralKind::String)).parse_literal(),
        Some(HugValue::String("hi".to_string()))
    );
    assert_eq!(
        pair("f\"{}\"", TokenKind::Literal(LiteralKind::FormatString)).parse_literal(),
        Some(HugValue::String("{}".to_string()))
    );
    assert_eq!(pair("4.5", TokenKind::Literal(LiteralKind::Float(Base::Decimal))).parse_literal(), None);
    assert_eq!(pair("x", TokenKind::Identifier).parse_literal(), None);
    assert_eq!(TokenPair::null().text.len(), 0);
}

#[test]
fn tree_from_pairs() {
    let mut idents = IdentTable::new();
    let pairs = lex("let x = f(1, y) // c\nuse a.b.c").unwrap();
    let tree = HugTree::from_token_pairs(&pairs, &mut idents).unwrap();
    assert_eq!(tree.entries.len(), 1);
    assert_eq!(tree.on_load.len(), 1);
    match &tree.entries[0] {
        HugTreeEntry::VariableDefinition { variable, value } => {
            assert_eq!(idents.name(*variable), "x");
            match value {
                Expression::Call { function, args } => {
                    assert_eq!(idents.name(*function), "f");
                    assert_eq!(args.len(), 2);
                    assert!(args[0].is_constant());
                    assert!(!args[1].is_constant());
                }
                other => panic!("unexpected {:?}", other),
            }
        }
        other => panic!("unexpected {:?}", other),
    }
    match &tree.on_load[0] {
        HugTreeEntry::Import { path } => assert_eq!(path.len(), 3),
        other => panic!("unexpected {:?}", other),
    }
}

#[test]
fn constant_expressions_unwrap() {
    assert_eq!(
        Expression::Literal(HugValue::Int32(3)).get_constant_value(),
        Some(HugValue::Int32(3))
    );
    assert_eq!(Expression::Variable(Ident(0)).get_constant_value(), None);
}

#[test]
fn variables_are_sparse() {
    let mut vars = Variables::new();
    assert_eq!(vars.get(Ident(3)), None);
    vars.set(Ident(3), HugValue::UInt8(9));
    assert_eq!(vars.get(Ident(3)), Some(&HugValue::UInt8(9)));
    assert_eq!(vars.get(Ident(1)), None);
    vars.set(Ident(3), HugValue::Void);
    assert_eq!(vars.get(Ident(3)), Some(&HugValue::Void));
}

#[test]
fn prelude_loads() {
    let mut vm = HugVM::new();
    vm.load_script(HUG_CORE_SCRIPT).unwrap();
    assert_eq!(vm.pointer(), 0);
}

#[test]
fn listed_exports_are_bound_at_declaration() {
    let mut vm = HugVM::new();
    vm.load_script("@extern(\"mem\") module m\nuse m.add\nlet r = add(1, 1)").unwrap();
    let mut host = MemHost::listing("add");
    run(&mut vm, &mut host).unwrap();
    // bound eagerly, so the import finds it cached
    assert_eq!(host.symbol_lookups, 1);
    assert_eq!(vm.warnings().len(), 1);
    assert_eq!(vm.variable("r"), Some(&HugValue::Int32(2)));
}

#[test]
fn listed_but_missing_export_is_an_invalid_module() {
    let mut vm = HugVM::new();
    vm.load_script("@extern(\"mem\") module m").unwrap();
    let mut host = MemHost::listing("add,mul");
    assert_eq!(run(&mut vm, &mut host), Err(RunError::InvalidModule("mem".to_string())));
    assert_eq!(vm.variable("m"), None);
}

#[test]
fn argument_of_the_wrong_type_is_a_type_error() {
    let mut vm = HugVM::new();
    vm.load_script("@extern(\"mem\") module m\nuse m.add\nadd(1, \"two\")").unwrap();
    let mut host = MemHost::new();
    assert!(matches!(run(&mut vm, &mut host), Err(RunError::ArgumentType(_))));
}
