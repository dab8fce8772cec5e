use mylang::ast::{BinaryOp, DataType, Expr, Parameter, Program, Stmt};
use mylang::error::error::ErrorType;
use mylang::semantic::{program_arrays_nonempty, SemanticAnalyzer, Symbol, SymbolTable};

fn s(t: &str) -> String {
    t.to_string()
}

fn num(n: &str) -> Expr {
    Expr::Number(s(n))
}

fn ident(n: &str) -> Expr {
    Expr::Identifier(s(n))
}

fn let_stmt(name: &str, ty: Option<&str>, init: Option<Expr>, is_mutable: bool) -> Stmt {
    Stmt::VarDecl {
        name: s(name),
        type_annotation: ty.map(ident),
        initializer: init,
        is_mutable,
    }
}

fn assign(name: &str, value: Expr) -> Stmt {
    Stmt::Expression(Expr::Assign { name: s(name), value: Box::new(value) })
}

fn analyze(statements: Vec<Stmt>) -> Result<(), String> {
    let mut program = Program::new();
    for st in statements {
        program.add_statement(st);
    }
    assert!(program_arrays_nonempty(&program));
    let mut analyzer = SemanticAnalyzer::new();
    analyzer.analyze(&program).map_err(|e| e.message)
}

#[test]
fn analyzer_accepts_annotated_declaration() {
    assert_eq!(analyze(vec![let_stmt("x", Some("number"), Some(num("1")), true)]), Ok(()));
}

#[test]
fn analyzer_declaration_type_mismatch() {
    assert_eq!(
        analyze(vec![let_stmt("x", Some("str"), Some(num("1")), true)]),
        Err(s("Type mismatch in variable declaration: expected String, found Number"))
    );
}

#[test]
fn analyzer_declaration_needs_type_or_initializer() {
    assert_eq!(
        analyze(vec![let_stmt("x", None, None, true)]),
        Err(s("Variable declaration must have either type annotation or initializer"))
    );
}

#[test]
fn analyzer_unknown_type_name() {
    let mut program = Program::new();
    program.add_statement(let_stmt("x", Some("float"), None, true));
    let mut analyzer = SemanticAnalyzer::new();
    let e = analyzer.analyze(&program).unwrap_err();
    assert_eq!(e.message, "Unknown type: float");
    assert_eq!(e.error_type, ErrorType::TypeError);
}

#[test]
fn analyzer_undefined_variable() {
    assert_eq!(analyze(vec![Stmt::Expression(ident("y"))]), Err(s("Undefined variable 'y'")));
}

#[test]
fn analyzer_uninitialized_variable() {
    assert_eq!(
        analyze(vec![let_stmt("x", Some("number"), None, true), Stmt::Expression(ident("x"))]),
        Err(s("Use of uninitialized variable 'x'"))
    );
}

#[test]
fn analyzer_assignment_to_immutable() {
    assert_eq!(
        analyze(vec![let_stmt("x", None, Some(num("1")), false), assign("x", num("2"))]),
        Err(s("Cannot assign to immutable variable 'x'"))
    );
}

#[test]
fn analyzer_assignment_type_mismatch() {
    assert_eq!(
        analyze(vec![let_stmt("x", None, Some(num("1")), true), assign("x", Expr::String(s("a")))]),
        Err(s("Type mismatch: expected Number, found String"))
    );
}

#[test]
fn analyzer_redefinition_in_one_scope() {
    let mut program = Program::new();
    program.add_statement(let_stmt("x", None, Some(num("1")), true));
    program.add_statement(let_stmt("x", None, Some(num("2")), true));
    let mut analyzer = SemanticAnalyzer::new();
    let e = analyzer.analyze(&program).unwrap_err();
    assert_eq!(e.message, "Variable 'x' already defined in current scope");
    assert_eq!(e.error_type, ErrorType::InternalError);
}

#[test]
fn analyzer_shadowing_in_block_is_allowed() {
    assert_eq!(
        analyze(vec![
            let_stmt("x", None, Some(num("1")), true),
            Stmt::Block(vec![let_stmt("x", None, Some(Expr::Boolean(true)), true)]),
        ]),
        Ok(())
    );
}

#[test]
fn analyzer_arithmetic_needs_numbers() {
    let sum = Expr::Binary {
        left: Box::new(num("1")),
        operator: BinaryOp::Add,
        right: Box::new(Expr::Boolean(true)),
    };
    assert_eq!(
        analyze(vec![Stmt::Expression(sum)]),
        Err(s("Arithmetic operations require numeric operands"))
    );
}

#[test]
fn analyzer_if_condition_must_be_boolean() {
    let st = Stmt::If { condition: num("1"), then_branch: vec![], else_branch: None };
    assert_eq!(analyze(vec![st]), Err(s("If condition must be boolean, found Number")));
}

#[test]
fn analyzer_while_condition_must_be_boolean() {
    let st = Stmt::While { condition: Expr::String(s("a")), body: vec![] };
    assert_eq!(analyze(vec![st]), Err(s("While condition must be boolean, found String")));
}

fn identity_function() -> Stmt {
    Stmt::FuncDecl {
        name: s("f"),
        parameters: vec![Parameter { name: s("a"), param_type: Some(ident("number")) }],
        return_type: Some(ident("number")),
        body: vec![Stmt::Return { value: Some(ident("a")) }],
    }
}

fn call_f(arg: Expr) -> Stmt {
    Stmt::Expression(Expr::Call { callee: Box::new(ident("f")), arguments: vec![arg] })
}

#[test]
fn analyzer_function_call_checks_arguments() {
    assert_eq!(analyze(vec![identity_function(), call_f(num("1"))]), Ok(()));
    assert_eq!(
        analyze(vec![identity_function(), call_f(Expr::String(s("x")))]),
        Err(s("Argument 0 type mismatch: expected Number, found String"))
    );
}

#[test]
fn analyzer_function_arity() {
    let call = Stmt::Expression(Expr::Call { callee: Box::new(ident("f")), arguments: vec![] });
    assert_eq!(analyze(vec![identity_function(), call]), Err(s("Function expects 1 arguments, got 0")));
}

#[test]
fn analyzer_return_type_mismatch() {
    let f = Stmt::FuncDecl {
        name: s("g"),
        parameters: vec![],
        return_type: Some(ident("bool")),
        body: vec![Stmt::Return { value: Some(num("1")) }],
    };
    assert_eq!(analyze(vec![f]), Err(s("Return type mismatch: expected Boolean, found Number")));
}

#[test]
fn analyzer_for_needs_array() {
    let good = Stmt::For {
        name: s("v"),
        collection: Expr::Array { elements: vec![num("1"), num("2")] },
        body: vec![Stmt::Expression(ident("v"))],
    };
    assert_eq!(analyze(vec![good]), Ok(()));
    let bad = Stmt::For { name: s("v"), collection: num("3"), body: vec![] };
    assert_eq!(analyze(vec![bad]), Err(s("For loop collection must be an array, found Number")));
}

#[test]
fn analyzer_index_needs_array_and_number() {
    let arr = let_stmt("a", None, Some(Expr::Array { elements: vec![num("1")] }), true);
    let bad_index = Stmt::Expression(Expr::Index {
        array: Box::new(ident("a")),
        index: Box::new(Expr::String(s("k"))),
    });
    assert_eq!(analyze(vec![arr, bad_index]), Err(s("Array index must be numeric")));
}

#[test]
fn symbol_table_scopes() {
    let mut table = SymbolTable::new();
    let sym = |name: &str, t: DataType| Symbol {
        name: s(name),
        symbol_type: t,
        is_mutable: true,
        is_initialized: true,
    };
    assert!(table.define(s("a"), sym("a", DataType::Number)).is_ok());
    table.enter_scope();
    assert_eq!(table.depth(), 2);
    assert!(table.define(s("a"), sym("a", DataType::String)).is_ok());
    assert_eq!(table.get("a").map(|x| x.symbol_type.debug_string()), Some(s("String")));
    table.exit_scope();
    assert_eq!(table.depth(), 1);
    assert_eq!(table.get("a").map(|x| x.symbol_type.debug_string()), Some(s("Number")));
    assert!(table.get("b").is_none());
    assert!(table.assign("a", DataType::Number).is_ok());
    let e = table.assign("a", DataType::Boolean).unwrap_err();
    assert_eq!(e.message, "Type mismatch: expected Number, found Boolean");
    let e = table.assign("b", DataType::Number).unwrap_err();
    assert_eq!(e.message, "Undefined variable 'b'");
}

#[test]
fn data_type_compatibility() {
    assert!(DataType::Any.compatible(&DataType::Number));
    assert!(DataType::Number.compatible(&DataType::Any));
    assert!(!DataType::Number.compatible(&DataType::String));
    let a = DataType::Array(Box::new(DataType::Number));
    let b = DataType::Array(Box::new(DataType::Any));
    assert!(a.compatible(&b));
    assert!(a == b);
    assert_eq!(
        DataType::Function(vec![DataType::Number, DataType::Boolean], Box::new(DataType::Void)).debug_string(),
        "Function([Number, Boolean], Void)"
    );
}

#[test]
fn analyzer_precondition_check_finds_empty_arrays() {
    let mut program = Program::new();
    program.add_statement(let_stmt("a", None, Some(Expr::Array { elements: vec![num("1")] }), true));
    assert!(program_arrays_nonempty(&program));
    let nested = Expr::Call {
        callee: Box::new(ident("f")),
        arguments: vec![Expr::Array { elements: vec![] }],
    };
    program.add_statement(Stmt::Block(vec![Stmt::Expression(nested)]));
    assert!(!program_arrays_nonempty(&program));
}

#[test]
fn analyzer_stops_at_first_error_before_an_empty_array() {
    let mut program = Program::new();
    program.add_statement(Stmt::Expression(ident("y")));
    program.add_statement(Stmt::Expression(Expr::Array { elements: vec![] }));
    let mut analyzer = SemanticAnalyzer::new();
    let e = analyzer.analyze(&program).unwrap_err();
    assert_eq!(e.message, "Undefined variable 'y'");
}

#[test]
fn symbol_table_finds_a_symbol_by_the_name_it_was_declared_under() {
    let mut table = SymbolTable::new();
    let symbol = Symbol { name: s("inner"), symbol_type: DataType::Boolean, is_mutable: false, is_initialized: true };
    assert!(table.define(s("outer"), symbol).is_ok());
    let found = table.get("outer").unwrap();
    assert_eq!(found.name, "inner");
    assert_eq!(found.symbol_type.debug_string(), "Boolean");
    assert!(table.get("inner").is_none());
    let e = table.assign("outer", DataType::Boolean).unwrap_err();
    assert_eq!(e.message, "Cannot assign to immutable variable 'outer'");
}

#[test]
fn analyzer_keeps_the_function_scope_open_after_an_error_in_its_body() {
    let f = Stmt::FuncDecl {
        name: s("f"),
        parameters: vec![Parameter { name: s("a"), param_type: Some(ident("number")) }],
        return_type: Some(ident("number")),
        body: vec![Stmt::Expression(ident("missing"))],
    };
    let mut first = Program::new();
    first.add_statement(f);
    let mut analyzer = SemanticAnalyzer::new();
    assert_eq!(analyzer.analyze(&first).map_err(|e| e.message), Err(s("Undefined variable 'missing'")));
    // The parameter and the return type are still in force.
    let mut second = Program::new();
    second.add_statement(Stmt::Return { value: Some(ident("a")) });
    assert_eq!(analyzer.analyze(&second).map_err(|e| e.message), Ok(()));
}
