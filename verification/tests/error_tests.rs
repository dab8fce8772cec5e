use mylang::error::error::{CompilerError, ErrorReporter, ErrorType as FrontErrorType};
use mylang::error::{Error, ErrorType};
use mylang::location::{Located, Location};
use mylang::utils::{Position, Span};

fn loc(line: usize, column: usize) -> Location {
    Location { line, column, offset: 0 }
}

fn p(line: usize, column: usize) -> Position {
    Position { line, column, offset: 0 }
}

#[test]
fn error_display_with_and_without_place() {
    let e = Error::new(ErrorType::Syntax, "bad".to_string());
    assert_eq!(e.to_display_string(), "Syntax Error: bad");
    let e = e.at_location(loc(3, 7));
    assert_eq!(e.to_display_string(), "3:7: Syntax Error: bad");
    let e = e.in_file("main.src".to_string());
    assert_eq!(e.to_display_string(), "main.src:3:7: Syntax Error: bad");
    let e = Error::io("gone".to_string()).in_file("f".to_string());
    assert_eq!(e.to_display_string(), "f: IO Error: gone");
    assert_eq!(e.line(), None);
}

#[test]
fn error_kinds_and_helpers() {
    assert!(Error::division_by_zero().is_vm_runtime());
    assert_eq!(Error::division_by_zero().message, "Division by zero");
    assert!(Error::constant_overflow().is_compilation());
    assert_eq!(Error::constant_overflow().message, "Too many constants in chunk (max 256)");
    assert!(Error::stack_underflow().is_stack_error());
    assert!(Error::stack_overflow("deep".to_string()).is_stack_error());
    assert!(!Error::runtime("r".to_string()).is_stack_error());
    assert_eq!(
        Error::type_error("add", "number", "string").message,
        "Type error in add: expected number, found string"
    );
    assert_eq!(
        Error::arity_error("f", 2, 3).message,
        "Arity error in function 'f': expected 2 arguments, found 3"
    );
    assert_eq!(
        Error::index_out_of_bounds(5, 2).message,
        "Array index 5 out of bounds (length: 2)"
    );
    assert_eq!(Error::undefined_function("g").message, "Undefined function 'g'");
    assert_eq!(Error::invalid_opcode(7).message, "Invalid opcode: 7");
}

#[test]
fn error_debug_context_is_appended() {
    let e = Error::vm_runtime("boom".to_string()).with_ip(12).with_stack_size(3);
    assert_eq!(e.message, "boom (at instruction 12) (stack size: 3)");
    let e = Error::vm_runtime("boom".to_string()).with_frame_info(2, "main");
    assert_eq!(e.message, "boom (in function 'main', frame 2)");
    let e = Error::vm_runtime("boom".to_string()).with_vm_debug(1, 2, 3);
    assert_eq!(e.message, "boom [VM: ip=1, stack=2, frames=3]");
}

#[test]
fn error_line_and_column() {
    let e = Error::syntax("x".to_string(), loc(4, 9));
    assert_eq!(e.line(), Some(4));
    assert_eq!(e.column(), Some(9));
}

#[test]
fn compiler_error_display_forms() {
    let e = CompilerError::semantic_error("oops".to_string());
    assert_eq!(e.to_display_string(), "Semantic Error: oops");
    let e = CompilerError::syntax_error("s".to_string(), Span { start: p(1, 2), end: p(1, 2) });
    assert_eq!(e.to_display_string(), "1:2: Syntax Error: s");
    let e = CompilerError::lexical_error("l".to_string(), Span { start: p(1, 2), end: p(3, 4) });
    assert_eq!(e.to_display_string(), "1:2-3:4: Lexical Error: l");
    let e = e.with_file("a.txt".to_string());
    assert_eq!(e.to_display_string(), "a.txt:1:2-3:4: Lexical Error: l");
    assert_eq!(e.line(), Some(1));
    assert_eq!(e.column(), Some(2));
    let e = CompilerError::io_error("io".to_string());
    assert_eq!(e.to_display_string(), "I/O Error: io");
}

#[test]
fn compiler_error_with_location_and_type() {
    let e = CompilerError::new("m".to_string()).with_type(FrontErrorType::NameError).with_location(5, 6);
    assert_eq!(e.error_type, FrontErrorType::NameError);
    assert_eq!(e.line(), Some(5));
    assert_eq!(e.column(), Some(6));
    assert_eq!(e.to_display_string(), "5:6: Name Error: m");
}

#[test]
fn reporter_lines_for_errors_and_warnings() {
    let mut reporter = ErrorReporter::new();
    assert!(!reporter.has_errors());
    assert!(reporter.report_lines().is_empty());
    reporter.add_warning(CompilerError::semantic_error("w".to_string()));
    assert_eq!(
        reporter.report_lines(),
        vec!["Warning: Semantic Error: w".to_string(), "\nCompilation completed with 1 warning(s)".to_string()]
    );
    reporter.add_error(CompilerError::type_error("t".to_string()));
    reporter.add_error(CompilerError::runtime_error("r".to_string()));
    assert_eq!(reporter.error_count(), 2);
    assert_eq!(reporter.warning_count(), 1);
    assert_eq!(
        reporter.report_lines(),
        vec![
            "Warning: Semantic Error: w".to_string(),
            "Error: Type Error: t".to_string(),
            format!("Error: {}", reporter.get_errors()[1].to_display_string()),
            "\nCompilation failed with 2 error(s)".to_string(),
            "and 1 warning(s)".to_string(),
        ]
    );
    reporter.clear();
    assert!(!reporter.has_errors());
    assert!(!reporter.has_warnings());
    assert_eq!(reporter.get_warnings().len(), 0);
}

#[test]
fn location_advance_counts_lines_columns_and_bytes() {
    let mut l = Location::new();
    assert_eq!(l, Location { line: 1, column: 1, offset: 0 });
    l.advance('a');
    assert_eq!(l, Location { line: 1, column: 2, offset: 1 });
    l.advance('é');
    assert_eq!(l, Location { line: 1, column: 3, offset: 3 });
    l.advance('\n');
    assert_eq!(l, Location { line: 2, column: 1, offset: 4 });
    l.advance('😀');
    assert_eq!(l, Location { line: 2, column: 2, offset: 8 });
}

#[test]
fn position_advance_matches_location() {
    let mut q = Position::new();
    q.advance('x');
    q.advance('\n');
    q.advance('€');
    assert_eq!(q, Position { line: 2, column: 2, offset: 5 });
}

#[test]
fn located_keeps_value_and_place() {
    let v = Located::new(7u32, loc(2, 3));
    assert_eq!(v.location(), loc(2, 3));
    assert_eq!(*v.as_inner(), 7);
    let w = v.map(|x| x + 1);
    assert_eq!(w.location(), loc(2, 3));
    assert_eq!(w.into_inner(), 8);
}
