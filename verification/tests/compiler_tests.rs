use mylang::compile_source;
use mylang::compliler::{Chunk, Constant, Instruction, OpCode};
use mylang::error::ErrorType;
use mylang::location::Location;

fn code_of(chunk: &Chunk) -> Vec<u8> {
    let mut code = Vec::new();
    let mut ip = 0;
    while let Some(b) = chunk.code(ip) {
        code.push(b);
        ip += 1;
    }
    code
}

fn compile(source: &str) -> Chunk {
    compile_source(source.to_string()).unwrap()
}

#[test]
fn compile_print_of_a_number() {
    let chunk = compile("print 1;");
    assert_eq!(code_of(&chunk), vec![0, 0, 71, 1]);
    assert_eq!(chunk.constant_count(), 1);
    assert!(matches!(chunk.constant(0), Some(Constant::Number(n)) if n == "1"));
}

#[test]
fn compile_global_declaration_after_builtins() {
    let chunk = compile("let x = 1;");
    assert_eq!(code_of(&chunk), vec![0, 0, 40, 4]);
    assert_eq!(chunk.global_count(), 5);
    assert_eq!(chunk.global(0).map(|s| s.as_str()), Some("len"));
    assert_eq!(chunk.global(3).map(|s| s.as_str()), Some("assert"));
    assert_eq!(chunk.global(4).map(|s| s.as_str()), Some("x"));
}

#[test]
fn compile_assignment_to_global() {
    let chunk = compile("let x = 1; x = 2;");
    assert_eq!(code_of(&chunk), vec![0, 0, 40, 4, 0, 1, 42, 4, 70]);
}

#[test]
fn compile_equal_constants_are_shared() {
    let chunk = compile("print 1, 1;");
    assert_eq!(code_of(&chunk), vec![0, 0, 0, 0, 71, 2]);
    assert_eq!(chunk.constant_count(), 1);
}

#[test]
fn compile_arithmetic() {
    let chunk = compile("print 1 + 2;");
    assert_eq!(code_of(&chunk), vec![0, 0, 0, 1, 10, 71, 1]);
}

#[test]
fn compile_builtin_reference() {
    let chunk = compile("print len;");
    assert_eq!(code_of(&chunk), vec![41, 0, 71, 1]);
}

#[test]
fn compile_if_patches_both_jumps() {
    let chunk = compile("if true { print 1; }");
    assert_eq!(code_of(&chunk), vec![0, 0, 51, 0, 7, 0, 1, 71, 1, 50, 0, 0]);
    assert!(matches!(chunk.constant(0), Some(Constant::Boolean(true))));
    let (ins, next) = chunk.decode_instruction(2);
    assert!(matches!(ins, Instruction::Jump(OpCode::JumpIfFalse, 12)));
    assert_eq!(next, 5);
}

#[test]
fn compile_locations_follow_statements() {
    let chunk = compile("print 1;\nprint 2;");
    assert_eq!(chunk.location_at(0), Location { line: 1, column: 1, offset: 0 });
    assert_eq!(chunk.location_at(4), Location { line: 2, column: 1, offset: 9 });
}

#[test]
fn compile_undeclared_assignment_fails_at_statement() {
    let e = compile_source("x = 5;".to_string()).unwrap_err();
    assert_eq!(e.error_type, ErrorType::Compilation);
    assert_eq!(e.message, "Assignment to undeclared variable 'x'");
    assert_eq!(e.to_display_string(), "1:1: Compilation Error: Assignment to undeclared variable 'x'");
}

#[test]
fn compile_undefined_variable() {
    let e = compile_source("print 1;\nprint y;".to_string()).unwrap_err();
    assert_eq!(e.error_type, ErrorType::VmRuntime);
    assert_eq!(e.to_display_string(), "2:1: VMRuntime Error: Undefined variable 'y'");
}

#[test]
fn compile_lexical_error_passes_through() {
    let e = compile_source("print @;".to_string()).unwrap_err();
    assert_eq!(e.error_type, ErrorType::Lexical);
}

#[test]
fn opcode_bytes_round_trip() {
    for byte in 0u8..=255 {
        if let Ok(op) = OpCode::try_from(byte) {
            assert_eq!(op.to_byte(), byte);
            assert_eq!(u8::from(op), byte);
        }
    }
    assert_eq!(OpCode::Add.to_byte(), 10);
    assert_eq!(OpCode::Return.to_byte(), 61);
    assert_eq!(OpCode::SetUpvalue.to_byte(), 92);
    assert!(OpCode::try_from(4).is_err());
}

#[test]
fn opcode_invalid_byte_error_text() {
    let e = OpCode::try_from(200).unwrap_err();
    assert_eq!(e.to_display_string(), "VMRuntime Error: Invalid opcode: 200");
}

#[test]
fn chunk_end_with_return_adds_nil_return_once() {
    let mut chunk = Chunk::new();
    chunk.end_with_return();
    chunk.end_with_return();
    assert_eq!(code_of(&chunk), vec![1, 61]);
}

#[test]
fn chunk_patch_jump_writes_distance() {
    let mut chunk = Chunk::new();
    chunk.write(50);
    chunk.write(0);
    chunk.write(0);
    chunk.write(70);
    chunk.write(70);
    chunk.patch_jump(1);
    assert_eq!(code_of(&chunk), vec![50, 0, 2, 70, 70]);
}

#[test]
fn chunk_patch_jump_with_target_backwards_is_loop() {
    let mut chunk = Chunk::new();
    chunk.write(70);
    chunk.write(70);
    chunk.write(50);
    chunk.write(0);
    chunk.write(0);
    chunk.patch_jump_with_target(3, 0);
    assert_eq!(code_of(&chunk), vec![70, 70, 52, 0, 5]);
    let (ins, next) = chunk.decode_instruction(2);
    assert!(matches!(ins, Instruction::Jump(OpCode::Loop, 0)));
    assert_eq!(next, 5);
}

#[test]
fn chunk_globals_are_found_again() {
    let mut chunk = Chunk::new();
    let i = chunk.add_global("z".to_string());
    assert_eq!(i, 4);
    assert_eq!(chunk.resolve_global("z"), Some(4));
    assert_eq!(chunk.resolve_global("type"), Some(1));
    assert_eq!(chunk.resolve_global("w"), None);
}

#[test]
fn env_scopes_count_locals_to_pop() {
    let mut env = mylang::compliler::Env::new_global();
    assert!(env.is_global());
    env.begin_scope();
    assert!(!env.is_global());
    env.add_local("a".to_string());
    env.add_local("b".to_string());
    env.add_local("a".to_string());
    assert_eq!(env.resolve_local("a"), Some(2));
    assert_eq!(env.resolve_local("b"), Some(1));
    assert_eq!(env.resolve_local("c"), None);
    assert_eq!(env.end_scope().unwrap(), 3);
    assert!(env.is_global());
    let e = env.end_scope().unwrap_err();
    assert!(e.is_compilation());
}

#[test]
fn env_upvalues_are_shared() {
    let mut env = mylang::compliler::Env::new_enclosed(0);
    assert_eq!(env.add_upvalue(3, true), 0);
    assert_eq!(env.add_upvalue(1, false), 1);
    assert_eq!(env.add_upvalue(3, true), 0);
    assert!(env.has_upvalue(1, false));
    assert!(!env.has_upvalue(1, true));
}

#[test]
fn env_loops_collect_jumps() {
    let mut env = mylang::compliler::Env::new_global();
    assert!(!env.in_loop());
    assert!(env.add_break_jump(4).is_err());
    assert!(env.add_continue_jump(4).is_err());
}

#[test]
fn chunk_is_decodable_checks_operands() {
    let chunk = compile("if true { print 1; }");
    assert!(chunk.is_decodable(0));
    assert!(chunk.is_decodable(2));
    assert!(!chunk.is_decodable(12));
    let mut cut = Chunk::new();
    cut.write(0);
    assert!(!cut.is_decodable(0));
    cut.write(0);
    assert!(cut.is_decodable(0));
    let mut unknown = Chunk::new();
    unknown.write(200);
    assert!(unknown.is_decodable(0));
    let (ins, next) = unknown.decode_instruction(0);
    assert!(matches!(ins, Instruction::Unknown(200)));
    assert_eq!(next, 1);
}

fn texts_for(chunk: &Chunk) -> Vec<String> {
    (0..chunk.constant_count())
        .map(|i| match chunk.constant(i) {
            Some(Constant::Number(n)) => format!("Number({n})"),
            _ => String::new(),
        })
        .collect()
}

#[test]
fn listing_of_jumps_constants_and_prints() {
    let chunk = compile("if true { print 1; }");
    let texts = texts_for(&chunk);
    assert_eq!(chunk.listing(0, 0, &texts), (vec!["   0 Constant 0 ; Boolean(true)".to_string()], 2));
    assert_eq!(chunk.listing(2, 0, &texts), (vec!["   2 JumpIfFalse ; -> 12".to_string()], 5));
    assert_eq!(chunk.listing(5, 0, &texts), (vec!["   5 Constant 1 ; Number(1)".to_string()], 7));
    assert_eq!(chunk.listing(7, 0, &texts), (vec!["   7 Print 1 ; print".to_string()], 9));
    assert_eq!(chunk.listing(9, 1, &texts), (vec!["     9 Jump ; -> 12".to_string()], 12));
}

#[test]
fn listing_writes_string_and_boolean_constants() {
    let chunk = compile("print 'say \"hi\"'; print false;");
    let texts = texts_for(&chunk);
    assert_eq!(
        chunk.listing(0, 0, &texts),
        (vec!["   0 Constant 0 ; String(\"say \\\"hi\\\"\")".to_string()], 2)
    );
    assert_eq!(chunk.listing(4, 0, &texts), (vec!["   4 Constant 1 ; Boolean(false)".to_string()], 6));
}

#[test]
fn listing_of_globals_and_unknown_bytes() {
    let chunk = compile("let x = 1;");
    let texts = texts_for(&chunk);
    assert_eq!(chunk.listing(2, 0, &texts), (vec!["   2 DefineGlobal 4 ; \"x\"".to_string()], 4));
    let mut odd = Chunk::new();
    odd.write(200);
    assert_eq!(
        odd.listing(0, 0, &Vec::new()),
        (vec!["   0 UNKNOWN_OP 200".to_string(), "   0 Nil".to_string()], 1)
    );
}

#[test]
fn listing_of_a_function() {
    let chunk = compile("fn f(a) { return a; }");
    // The jump over the body, the body, a pop of the parameter, the closure
    // and its global.
    assert_eq!(code_of(&chunk), vec![50, 0, 4, 43, 0, 61, 70, 90, 0, 0, 40, 4]);
    let texts = texts_for(&chunk);
    assert_eq!(chunk.listing(0, 0, &texts), (vec!["   0 Jump ; -> 7".to_string()], 3));
    assert_eq!(chunk.listing(3, 0, &texts), (vec!["   3 GetLocal 0 ; local[0]".to_string()], 5));
    assert_eq!(chunk.listing(5, 0, &texts), (vec!["   5 Return".to_string()], 6));
    assert_eq!(chunk.listing(6, 0, &texts), (vec!["   6 Pop".to_string()], 7));
    assert_eq!(
        chunk.listing(7, 0, &texts),
        (vec!["   7 Closure 0 ; closure for function 'f' with 0 upvalues".to_string()], 10)
    );
    assert_eq!(chunk.listing(10, 0, &texts), (vec!["  10 DefineGlobal 4 ; \"f\"".to_string()], 12));
}

#[test]
fn usage_text_names_the_program() {
    let text = mylang::usage_text("mylang");
    assert!(text.starts_with("Mylang interpreter\n    Usage: mylang [SCRIPT] [OPTIONS]\n"));
    assert!(text.contains("      --tr      Use tree-walk interpreter\n"));
    assert!(text.ends_with("    When no SCRIPT is provided, runs in interactive mode."));
}

#[test]
fn prompt_lines_are_trimmed_and_exit_quits() {
    use_prompt_actions();
}

fn use_prompt_actions() {
    assert_eq!(mylang::prompt_action("  exit \n"), mylang::PromptAction::Quit);
    assert_eq!(mylang::prompt_action("\tprint 1;  \r\n"), mylang::PromptAction::Run("print 1;".to_string()));
    assert_eq!(mylang::prompt_action("exit now"), mylang::PromptAction::Run("exit now".to_string()));
    assert_eq!(mylang::prompt_action("   "), mylang::PromptAction::Run(String::new()));
}

#[test]
fn compile_numbers_written_two_ways_share_a_constant() {
    let chunk = compile("print 1, 1.0, 01, 1.5, 1.50;");
    assert_eq!(code_of(&chunk), vec![0, 0, 0, 0, 0, 0, 0, 1, 0, 1, 71, 5]);
    assert_eq!(chunk.constant_count(), 2);
    assert!(matches!(chunk.constant(0), Some(Constant::Number(n)) if n == "1"));
    assert!(matches!(chunk.constant(1), Some(Constant::Number(n)) if n == "1.5"));
    let chunk = compile("print 0, 0.0, 10, 100.;");
    assert_eq!(code_of(&chunk), vec![0, 0, 0, 0, 0, 1, 0, 2, 71, 4]);
}
