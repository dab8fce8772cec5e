//! A small scripting language: its lexer, parser and bytecode compiler, and
//! the typed front end with its semantic checks.
pub mod ast;
pub mod compliler;
pub mod error;
pub mod lexer;
pub mod location;
pub mod parser;
pub mod scanner;
pub mod semantic;
pub mod text;
pub mod utils;

use compliler::chunk::Chunk;
use compliler::compiler::{compile_program, initial_state, CState, Compiler};
use error::{ErrorView, Result};
use lexer::lexer::{ends_with_eof, lemma_scan_ends_with_eof, overruns, tokenize_spec, tokens_view, Lexer};
use location::Location;
use parser::parser::{lemma_last_eof, located_program_from, Parser};
use text::{join3, same_text, trim, trimmed};
use vstd::prelude::*;

verus! {

/// What compiling a source text gives: its tokens, read into statements, then
/// compiled from an empty chunk.
pub open spec fn compile_source_spec(source: Seq<char>) -> core::result::Result<CState, ErrorView> {
    match tokenize_spec(source) {
        Err(e) => Err(e),
        Ok(ts) => match located_program_from(ts, Seq::empty(), 0) {
            Err((e, _)) => Err(e),
            Ok(stmts) => compile_program(initial_state(), stmts, 0),
        },
    }
}

/// Reads, parses and compiles a program: the chunk the machine runs.
pub fn compile_source(source: String) -> (r: Result<Chunk>)
    requires
        source@.len() <= usize::MAX / 8,
        !overruns(source@, Location { line: 1, column: 1, offset: 0 }),
    ensures
        match compile_source_spec(source@) {
            Ok(s) => r matches Ok(c) && c.code_view() == s.code && c.locations_view() == s.locations
                && c.constants_view() == s.constants && c.globals_view() == s.globals
                && c.constants_view().len() <= 255 && c.globals_view().len() <= 255 && c.wf(),
            Err(e) => r matches Err(x) && x@ == e,
        },
{
    let mut lexer = Lexer::new(source);
    let tokens = match lexer.tokenize() {
        Ok(t) => t,
        Err(e) => {
            return Err(e);
        },
    };
    proof {
        lemma_scan_ends_with_eof(source@, Location { line: 1, column: 1, offset: 0 });
        let ts = tokens_view(tokens@);
        assert(ends_with_eof(ts));
        lemma_last_eof(ts);
    }
    let mut parser = Parser::new(tokens);
    let stmts = match parser.parse_located() {
        Ok(s) => s,
        Err(e) => {
            return Err(e);
        },
    };
    let compiler = Compiler::new();
    compiler.compile(stmts.as_slice())
}

/// The help text of the command-line program run as `program_name`.
pub fn usage_text(program_name: &str) -> (s: String)
    ensures
        s@ == "Mylang interpreter\n    Usage: "@ + program_name@ + " [SCRIPT] [OPTIONS]\n    \n    Options:\n      --tr      Use tree-walk interpreter\n      --vm      Use bytecode VM (default)\n      --help    Display help information\n    \n    When no SCRIPT is provided, runs in interactive mode."@,
{
    join3(
        "Mylang interpreter\n    Usage: ",
        program_name,
        " [SCRIPT] [OPTIONS]\n    \n    Options:\n      --tr      Use tree-walk interpreter\n      --vm      Use bytecode VM (default)\n      --help    Display help information\n    \n    When no SCRIPT is provided, runs in interactive mode.",
    )
}

/// What the interactive loop does with a line it read: stop at `exit`, or
/// run the line without the white space around it.
#[derive(Debug, PartialEq)]
pub enum PromptAction {
    Quit,
    Run(String),
}

/// The action for one line of interactive input.
pub fn prompt_action(line: &str) -> (a: PromptAction)
    ensures
        trimmed(line@) == "exit"@ ==> a is Quit,
        trimmed(line@) != "exit"@ ==> (a matches PromptAction::Run(t) && t@ == trimmed(line@)),
{
    let t = trim(line);
    if same_text(t.as_str(), "exit") {
        PromptAction::Quit
    } else {
        PromptAction::Run(t)
    }
}

} // verus!
