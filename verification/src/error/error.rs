//! Errors of the typed front end, with an optional span and file, and a
//! reporter that gathers errors and warnings.
use crate::text::{decimal, decimal_string};
use crate::utils::{Position, Span};
use vstd::prelude::*;
use vstd::string::*;

verus! {

#[derive(Debug, Clone, PartialEq, Eq, Structural)]
pub enum ErrorType {
    LexicalError,
    SyntaxError,
    SemanticError,
    TypeError,
    NameError,
    IOError,
    InternalError,
}

impl ErrorType {
    /// The heading under which an error of this kind is shown.
    pub open spec fn spec_label(self) -> Seq<char> {
        match self {
            ErrorType::LexicalError => "Lexical Error"@,
            ErrorType::SyntaxError => "Syntax Error"@,
            ErrorType::SemanticError => "Semantic Error"@,
            ErrorType::TypeError => "Type Error"@,
            ErrorType::NameError => "Name Error"@,
            ErrorType::IOError => "I/O Error"@,
            ErrorType::InternalError => "Internal Error"@,
        }
    }

    pub fn label(&self) -> (s: &'static str)
        ensures
            s@ == self.spec_label(),
    {
        match self {
            ErrorType::LexicalError => "Lexical Error",
            ErrorType::SyntaxError => "Syntax Error",
            ErrorType::SemanticError => "Semantic Error",
            ErrorType::TypeError => "Type Error",
            ErrorType::NameError => "Name Error",
            ErrorType::IOError => "I/O Error",
            ErrorType::InternalError => "Internal Error",
        }
    }
}

#[derive(Debug, Clone)]
pub struct CompilerError {
    pub message: String,
    pub error_type: ErrorType,
    pub span: Option<Span>,
    pub file: Option<String>,
}

/// What an error holds, with its strings as character sequences.
pub struct CompilerErrorView {
    pub message: Seq<char>,
    pub error_type: ErrorType,
    pub span: Option<Span>,
    pub file: Option<Seq<char>>,
}

impl View for CompilerError {
    type V = CompilerErrorView;

    open spec fn view(&self) -> CompilerErrorView {
        CompilerErrorView {
            message: self.message@,
            error_type: self.error_type,
            span: self.span,
            file: match self.file {
                Some(f) => Some(f@),
                None => None,
            },
        }
    }
}

/// The error with `message` of kind `error_type`, nowhere in particular.
pub open spec fn error_view(error_type: ErrorType, message: Seq<char>) -> CompilerErrorView {
    CompilerErrorView { message, error_type, span: None, file: None }
}

/// An error of kind `error_type` with `message`, at `span`, with no file.
pub open spec fn made(e: CompilerError, error_type: ErrorType, message: Seq<char>, span: Option<Span>) -> bool {
    &&& e.error_type == error_type
    &&& e.message@ == message
    &&& e.span == span
    &&& e.file is None
}

/// `line:column`, the place a position is shown as.
pub open spec fn place_text(p: Position) -> Seq<char> {
    decimal(p.line as nat) + ":"@ + decimal(p.column as nat)
}

/// Where an error happened: the start, or `start-end` when the span covers
/// more than one place.
pub open spec fn span_text(s: Span) -> Seq<char> {
    if s.start.line != s.end.line || s.start.column != s.end.column {
        place_text(s.start) + "-"@ + place_text(s.end)
    } else {
        place_text(s.start)
    }
}

/// The text of `Display` for an error: `file:place: kind: message`, with the
/// file and the place left out where they are unknown. A file without a span
/// is not shown.
pub open spec fn compiler_error_text(e: CompilerError) -> Seq<char> {
    let tail = e.error_type.spec_label() + ": "@ + e.message@;
    match e.span {
        Some(s) => match e.file {
            Some(f) => f@ + ":"@ + span_text(s) + ": "@ + tail,
            None => span_text(s) + ": "@ + tail,
        },
        None => tail,
    }
}

fn push_place(s: &mut String, p: Position)
    ensures
        final(s)@ == old(s)@ + place_text(p),
{
    let l = decimal_string(p.line);
    s.append(l.as_str());
    s.append(":");
    let c = decimal_string(p.column);
    s.append(c.as_str());
}

impl CompilerError {
    /// An internal error with `message` and nothing else known.
    pub fn new(message: String) -> (e: Self)
        ensures
            made(e, ErrorType::InternalError, message@, None),
    {
        CompilerError { message, error_type: ErrorType::InternalError, span: None, file: None }
    }

    /// The same error with kind `error_type`.
    pub fn with_type(self, error_type: ErrorType) -> (e: Self)
        ensures
            e.error_type == error_type,
            e.message == self.message,
            e.span == self.span,
            e.file == self.file,
    {
        let mut e = self;
        e.error_type = error_type;
        e
    }

    /// The same error, placed at one point: `line` and `column`, offset 0.
    pub fn with_location(self, line: usize, column: usize) -> (e: Self)
        ensures
            e.error_type == self.error_type,
            e.message == self.message,
            e.span == Some(
                Span {
                    start: Position { line, column, offset: 0 },
                    end: Position { line, column, offset: 0 },
                },
            ),
            e.file == self.file,
    {
        let location = Position { line, column, offset: 0 };
        let mut e = self;
        e.span = Some(Span { start: location, end: location });
        e
    }

    /// The same error, reported in `file`.
    pub fn with_file(self, file: String) -> (e: Self)
        ensures
            e.error_type == self.error_type,
            e.message == self.message,
            e.span == self.span,
            e.file == Some(file),
    {
        let mut e = self;
        e.file = Some(file);
        e
    }

    pub fn lexical_error(message: String, span: Span) -> (e: Self)
        ensures
            made(e, ErrorType::LexicalError, message@, Some(span)),
    {
        CompilerError { message, error_type: ErrorType::LexicalError, span: Some(span), file: None }
    }

    pub fn lexical_error_with_span(message: String, span: Span) -> (e: Self)
        ensures
            made(e, ErrorType::LexicalError, message@, Some(span)),
    {
        CompilerError { message, error_type: ErrorType::LexicalError, span: Some(span), file: None }
    }

    pub fn syntax_error(message: String, span: Span) -> (e: Self)
        ensures
            made(e, ErrorType::SyntaxError, message@, Some(span)),
    {
        CompilerError { message, error_type: ErrorType::SyntaxError, span: Some(span), file: None }
    }

    pub fn semantic_error(message: String) -> (e: Self)
        ensures
            made(e, ErrorType::SemanticError, message@, None),
    {
        CompilerError { message, error_type: ErrorType::SemanticError, span: None, file: None }
    }

    pub fn semantic_error_with_span(message: String, span: Span) -> (e: Self)
        ensures
            made(e, ErrorType::SemanticError, message@, Some(span)),
    {
        CompilerError { message, error_type: ErrorType::SemanticError, span: Some(span), file: None }
    }

    pub fn type_error(message: String) -> (e: Self)
        ensures
            made(e, ErrorType::TypeError, message@, None),
    {
        CompilerError { message, error_type: ErrorType::TypeError, span: None, file: None }
    }

    pub fn name_error(message: String, span: Span) -> (e: Self)
        ensures
            made(e, ErrorType::NameError, message@, Some(span)),
    {
        CompilerError { message, error_type: ErrorType::NameError, span: Some(span), file: None }
    }

    pub fn io_error(message: String) -> (e: Self)
        ensures
            made(e, ErrorType::IOError, message@, None),
    {
        CompilerError { message, error_type: ErrorType::IOError, span: None, file: None }
    }

    /// A runtime error; this front end reports it as an internal error.
    pub fn runtime_error(message: String) -> (e: Self)
        ensures
            made(e, ErrorType::InternalError, message@, None),
    {
        CompilerError { message, error_type: ErrorType::InternalError, span: None, file: None }
    }

    /// The line where the span starts, if there is one.
    pub fn line(&self) -> (r: Option<usize>)
        ensures
            r == (match self.span {
                Some(s) => Some(s.start.line),
                None => None,
            }),
    {
        match self.span {
            Some(s) => Some(s.start.line),
            None => None,
        }
    }

    /// The column where the span starts, if there is one.
    pub fn column(&self) -> (r: Option<usize>)
        ensures
            r == (match self.span {
                Some(s) => Some(s.start.column),
                None => None,
            }),
    {
        match self.span {
            Some(s) => Some(s.start.column),
            None => None,
        }
    }

    /// The text shown for this error (its `Display`).
    pub fn to_display_string(&self) -> (s: String)
        ensures
            s@ == compiler_error_text(*self),
    {
        let mut s = String::new();
        if let Some(span) = self.span {
            if let Some(file) = &self.file {
                s.append(file.as_str());
                s.append(":");
            }
            push_place(&mut s, span.start);
            if span.start.line != span.end.line || span.start.column != span.end.column {
                s.append("-");
                push_place(&mut s, span.end);
            }
            s.append(": ");
        }
        s.append(self.error_type.label());
        s.append(": ");
        s.append(self.message.as_str());
        s
    }
}

pub type Result<T> = core::result::Result<T, CompilerError>;

/// Gathers the errors and warnings of a compilation.
pub struct ErrorReporter {
    errors: Vec<CompilerError>,
    warnings: Vec<CompilerError>,
}

/// `"\n"` then `words` after the count, as the summary lines read.
pub open spec fn count_line(lead: Seq<char>, n: nat, words: Seq<char>) -> Seq<char> {
    lead + decimal(n) + words
}

/// The lines `report_all` writes to standard error, in order.
pub open spec fn report_text(errors: Seq<CompilerError>, warnings: Seq<CompilerError>) -> Seq<Seq<char>> {
    let w = warnings.map_values(|e: CompilerError| "Warning: "@ + compiler_error_text(e));
    let r = errors.map_values(|e: CompilerError| "Error: "@ + compiler_error_text(e));
    let summary: Seq<Seq<char>> = if errors.len() > 0 {
        if warnings.len() > 0 {
            seq![
                count_line("\nCompilation failed with "@, errors.len(), " error(s)"@),
                count_line("and "@, warnings.len(), " warning(s)"@),
            ]
        } else {
            seq![count_line("\nCompilation failed with "@, errors.len(), " error(s)"@)]
        }
    } else if warnings.len() > 0 {
        seq![count_line("\nCompilation completed with "@, warnings.len(), " warning(s)"@)]
    } else {
        Seq::empty()
    };
    w + r + summary
}

fn count_text(lead: &str, n: usize, words: &str) -> (s: String)
    ensures
        s@ == count_line(lead@, n as nat, words@),
{
    let mut s = String::from_str(lead);
    let d = decimal_string(n);
    s.append(d.as_str());
    s.append(words);
    s
}

/// Each error's text after `lead`, in order, appended to `lines`.
fn push_all(lines: &mut Vec<String>, lead: &str, errors: &Vec<CompilerError>)
    ensures
        final(lines)@.len() == old(lines)@.len() + errors@.len(),
        forall|i: int| 0 <= i < old(lines)@.len() ==> #[trigger] final(lines)@[i] == old(lines)@[i],
        forall|i: int|
            0 <= i < errors@.len() ==> #[trigger] final(lines)@[old(lines)@.len() + i]@ == lead@
                + compiler_error_text(errors@[i]),
{
    let ghost start = lines@;
    for k in 0..errors.len()
        invariant
            lines@.len() == start.len() + k,
            forall|i: int| 0 <= i < start.len() ==> #[trigger] lines@[i] == start[i],
            forall|i: int|
                0 <= i < k ==> #[trigger] lines@[start.len() + i]@ == lead@ + compiler_error_text(
                    errors@[i],
                ),
    {
        let mut line = String::from_str(lead);
        let t = errors[k].to_display_string();
        line.append(t.as_str());
        lines.push(line);
    }
}

/// A call that changes what a reporter holds.
pub enum ReportCall {
    AddError(CompilerError),
    AddWarning(CompilerError),
    Clear,
}

/// The errors and warnings a reporter holds after `calls`, starting from
/// `errors` and `warnings`, as `add_error`, `add_warning` and `clear` change them.
pub open spec fn after_calls(
    errors: Seq<CompilerError>,
    warnings: Seq<CompilerError>,
    calls: Seq<ReportCall>,
) -> (Seq<CompilerError>, Seq<CompilerError>)
    decreases calls.len(),
{
    if calls.len() == 0 {
        (errors, warnings)
    } else {
        let (e, w) = after_calls(errors, warnings, calls.drop_last());
        match calls.last() {
            ReportCall::AddError(x) => (e.push(x), w),
            ReportCall::AddWarning(x) => (e, w.push(x)),
            ReportCall::Clear => (Seq::empty(), Seq::empty()),
        }
    }
}

/// The errors added by `calls` after their last `Clear`.
pub open spec fn errors_since_clear(calls: Seq<ReportCall>) -> Seq<CompilerError>
    decreases calls.len(),
{
    if calls.len() == 0 {
        Seq::empty()
    } else {
        match calls.last() {
            ReportCall::AddError(x) => errors_since_clear(calls.drop_last()).push(x),
            ReportCall::AddWarning(_) => errors_since_clear(calls.drop_last()),
            ReportCall::Clear => Seq::empty(),
        }
    }
}

/// A new reporter, after any calls, holds exactly the errors added since the
/// last `clear` (so `error_count` counts them): warnings never change them.
pub proof fn lemma_errors_since_clear(calls: Seq<ReportCall>)
    ensures
        after_calls(Seq::empty(), Seq::empty(), calls).0 == errors_since_clear(calls),
    decreases calls.len(),
{
    if calls.len() > 0 {
        lemma_errors_since_clear(calls.drop_last());
    }
}

impl ErrorReporter {
    /// The errors reported so far, in order.
    pub closed spec fn errors(&self) -> Seq<CompilerError> {
        self.errors@
    }

    /// The warnings reported so far, in order.
    pub closed spec fn warnings(&self) -> Seq<CompilerError> {
        self.warnings@
    }

    pub fn new() -> (r: Self)
        ensures
            r.errors() == Seq::<CompilerError>::empty(),
            r.warnings() == Seq::<CompilerError>::empty(),
    {
        ErrorReporter { errors: Vec::new(), warnings: Vec::new() }
    }

    pub fn add_error(&mut self, error: CompilerError)
        ensures
            final(self).errors() == old(self).errors().push(error),
            final(self).warnings() == old(self).warnings(),
    {
        self.errors.push(error);
    }

    pub fn add_warning(&mut self, warning: CompilerError)
        ensures
            final(self).errors() == old(self).errors(),
            final(self).warnings() == old(self).warnings().push(warning),
    {
        self.warnings.push(warning);
    }

    pub fn has_errors(&self) -> (b: bool)
        ensures
            b == (self.errors().len() > 0),
    {
        self.errors.len() > 0
    }

    pub fn has_warnings(&self) -> (b: bool)
        ensures
            b == (self.warnings().len() > 0),
    {
        self.warnings.len() > 0
    }

    pub fn error_count(&self) -> (n: usize)
        ensures
            n == self.errors().len(),
    {
        self.errors.len()
    }

    pub fn warning_count(&self) -> (n: usize)
        ensures
            n == self.warnings().len(),
    {
        self.warnings.len()
    }

    pub fn get_errors(&self) -> (r: &[CompilerError])
        ensures
            r@ == self.errors(),
    {
        self.errors.as_slice()
    }

    pub fn get_warnings(&self) -> (r: &[CompilerError])
        ensures
            r@ == self.warnings(),
    {
        self.warnings.as_slice()
    }

    /// Forgets every error and warning.
    pub fn clear(&mut self)
        ensures
            final(self).errors() == Seq::<CompilerError>::empty(),
            final(self).warnings() == Seq::<CompilerError>::empty(),
    {
        self.errors.clear();
        self.warnings.clear();
    }

    /// The lines that reporting everything writes: each warning, each error,
    /// then a summary of the counts.
    pub fn report_lines(&self) -> (lines: Vec<String>)
        ensures
            lines@.map_values(|s: String| s@) == report_text(self.errors(), self.warnings()),
    {
        let mut lines: Vec<String> = Vec::new();
        push_all(&mut lines, "Warning: ", &self.warnings);
        let ghost mid = lines@;
        push_all(&mut lines, "Error: ", &self.errors);
        let ghost body = lines@;
        proof {
            let w = self.warnings@.map_values(|e: CompilerError| "Warning: "@ + compiler_error_text(e));
            let r = self.errors@.map_values(|e: CompilerError| "Error: "@ + compiler_error_text(e));
            assert forall|i: int| 0 <= i < body.len() implies body.map_values(|s: String| s@)[i] == (w
                + r)[i] by {
                if i < mid.len() {
                    assert(body[i] == mid[i]);
                    assert(mid[0 + i]@ == "Warning: "@ + compiler_error_text(self.warnings@[i]));
                } else {
                    let k = i - mid.len();
                    assert(body[mid.len() + k]@ == "Error: "@ + compiler_error_text(self.errors@[k]));
                }
            }
        }
        if self.errors.len() > 0 {
            lines.push(count_text("\nCompilation failed with ", self.errors.len(), " error(s)"));
            if self.warnings.len() > 0 {
                lines.push(count_text("and ", self.warnings.len(), " warning(s)"));
            }
        } else if self.warnings.len() > 0 {
            lines.push(count_text("\nCompilation completed with ", self.warnings.len(), " warning(s)"));
        }
        proof {
            let w = self.warnings@.map_values(|e: CompilerError| "Warning: "@ + compiler_error_text(e));
            let r = self.errors@.map_values(|e: CompilerError| "Error: "@ + compiler_error_text(e));
            assert(body.map_values(|s: String| s@) =~= w + r);
            assert(lines@.map_values(|s: String| s@) =~= report_text(self.errors(), self.warnings()));
        }
        lines
    }
}

impl Default for ErrorReporter {
    fn default() -> (r: Self)
        ensures
            r.errors() == Seq::<CompilerError>::empty(),
            r.warnings() == Seq::<CompilerError>::empty(),
    {
        Self::new()
    }
}

} // verus!
