//! Errors of the lexer, parser and compiler: a kind, a message, and where in
//! which file it happened.
use crate::location::Location;
use crate::text::{decimal, decimal_string, join2, join3};
use vstd::prelude::*;
use vstd::string::*;

pub mod error;

verus! {

pub type Result<T> = core::result::Result<T, Error>;

#[derive(Debug, Clone, PartialEq, Eq, Structural)]
pub enum ErrorType {
    Lexical,
    Syntax,
    Runtime,
    Io,
    Internal,
    Compilation,
    VmRuntime,
    StackOverflow,
    StackUnderflow,
}

impl ErrorType {
    /// The heading under which an error of this kind is shown.
    pub open spec fn spec_label(self) -> Seq<char> {
        match self {
            ErrorType::Lexical => "Lexical Error"@,
            ErrorType::Syntax => "Syntax Error"@,
            ErrorType::Runtime => "Runtime Error"@,
            ErrorType::Io => "IO Error"@,
            ErrorType::Internal => "Internal Error"@,
            ErrorType::Compilation => "Compilation Error"@,
            ErrorType::VmRuntime => "VMRuntime Error"@,
            ErrorType::StackOverflow => "StackOverflow Error"@,
            ErrorType::StackUnderflow => "StackUnderflow Error"@,
        }
    }

    pub fn label(&self) -> (s: &'static str)
        ensures
            s@ == self.spec_label(),
    {
        match self {
            ErrorType::Lexical => "Lexical Error",
            ErrorType::Syntax => "Syntax Error",
            ErrorType::Runtime => "Runtime Error",
            ErrorType::Io => "IO Error",
            ErrorType::Internal => "Internal Error",
            ErrorType::Compilation => "Compilation Error",
            ErrorType::VmRuntime => "VMRuntime Error",
            ErrorType::StackOverflow => "StackOverflow Error",
            ErrorType::StackUnderflow => "StackUnderflow Error",
        }
    }
}

#[derive(Debug, Clone)]
pub struct Error {
    pub message: String,
    pub error_type: ErrorType,
    pub location: Option<Location>,
    pub file: Option<String>,
}

/// What an error holds, with its strings as character sequences.
pub struct ErrorView {
    pub error_type: ErrorType,
    pub message: Seq<char>,
    pub location: Option<Location>,
    pub file: Option<Seq<char>>,
}

impl View for Error {
    type V = ErrorView;

    open spec fn view(&self) -> ErrorView {
        ErrorView {
            error_type: self.error_type,
            message: self.message@,
            location: self.location,
            file: match self.file {
                Some(f) => Some(f@),
                None => None,
            },
        }
    }
}

/// The error `Error::with_location(error_type, message, location)` builds, as a view.
pub open spec fn located_view(error_type: ErrorType, message: Seq<char>, location: Location) -> ErrorView {
    ErrorView { error_type, message, location: Some(location), file: None }
}

/// The error that `Error::new(error_type, message)` builds.
pub open spec fn plain(e: Error, error_type: ErrorType, message: Seq<char>) -> bool {
    &&& e.error_type == error_type
    &&& e.message@ == message
    &&& e.location is None
    &&& e.file is None
}

/// The error that `Error::with_location(error_type, message, location)` builds.
pub open spec fn located(e: Error, error_type: ErrorType, message: Seq<char>, location: Location) -> bool {
    &&& e.error_type == error_type
    &&& e.message@ == message
    &&& e.location == Some(location)
    &&& e.file is None
}

/// The text of `Display` for an error.
pub open spec fn display_text(e: Error) -> Seq<char> {
    let head = match (e.file, e.location) {
        (Some(file), Some(loc)) => file@ + ":"@ + decimal(loc.line as nat) + ":"@ + decimal(
            loc.column as nat,
        ) + ": "@,
        (None, Some(loc)) => decimal(loc.line as nat) + ":"@ + decimal(loc.column as nat) + ": "@,
        (Some(file), None) => file@ + ": "@,
        (None, None) => Seq::empty(),
    };
    head + e.error_type.spec_label() + ": "@ + e.message@
}

impl Error {
    pub fn new(error_type: ErrorType, message: String) -> (e: Self)
        ensures
            plain(e, error_type, message@),
    {
        Error { message, error_type, location: None, file: None }
    }

    pub fn with_location(error_type: ErrorType, message: String, location: Location) -> (e: Self)
        ensures
            located(e, error_type, message@, location),
    {
        Error { message, error_type, location: Some(location), file: None }
    }

    pub fn with_file_location(
        error_type: ErrorType,
        message: String,
        file: String,
        location: Location,
    ) -> (e: Self)
        ensures
            e.error_type == error_type,
            e.message@ == message@,
            e.location == Some(location),
            e.file == Some(file),
    {
        Error { message, error_type, location: Some(location), file: Some(file) }
    }

    /// The same error, reported in `file`.
    pub fn in_file(self, file: String) -> (e: Self)
        ensures
            e.error_type == self.error_type,
            e.message == self.message,
            e.location == self.location,
            e.file == Some(file),
    {
        let mut e = self;
        e.file = Some(file);
        e
    }

    /// The same error, placed at `location`.
    pub fn at_location(self, location: Location) -> (e: Self)
        ensures
            e.error_type == self.error_type,
            e.message == self.message,
            e.location == Some(location),
            e.file == self.file,
    {
        let mut e = self;
        e.location = Some(location);
        e
    }

    pub fn lexical(message: String, location: Location) -> (e: Self)
        ensures
            located(e, ErrorType::Lexical, message@, location),
    {
        Self::with_location(ErrorType::Lexical, message, location)
    }

    pub fn syntax(message: String, location: Location) -> (e: Self)
        ensures
            located(e, ErrorType::Syntax, message@, location),
    {
        Self::with_location(ErrorType::Syntax, message, location)
    }

    pub fn runtime(message: String) -> (e: Self)
        ensures
            plain(e, ErrorType::Runtime, message@),
    {
        Self::new(ErrorType::Runtime, message)
    }

    pub fn runtime_at(message: String, location: Location) -> (e: Self)
        ensures
            located(e, ErrorType::Runtime, message@, location),
    {
        Self::with_location(ErrorType::Runtime, message, location)
    }

    pub fn io(message: String) -> (e: Self)
        ensures
            plain(e, ErrorType::Io, message@),
    {
        Self::new(ErrorType::Io, message)
    }

    pub fn internal(message: String) -> (e: Self)
        ensures
            plain(e, ErrorType::Internal, message@),
    {
        Self::new(ErrorType::Internal, message)
    }

    /// A compilation error.
    pub fn compilation(message: String) -> (e: Self)
        ensures
            plain(e, ErrorType::Compilation, message@),
    {
        Self::new(ErrorType::Compilation, message)
    }

    /// A compilation error at `location`.
    pub fn compilation_at(message: String, location: Location) -> (e: Self)
        ensures
            located(e, ErrorType::Compilation, message@, location),
    {
        Self::with_location(ErrorType::Compilation, message, location)
    }

    /// A runtime error of the virtual machine.
    pub fn vm_runtime(message: String) -> (e: Self)
        ensures
            plain(e, ErrorType::VmRuntime, message@),
    {
        Self::new(ErrorType::VmRuntime, message)
    }

    /// A runtime error of the virtual machine at `location`.
    pub fn vm_runtime_at(message: String, location: Location) -> (e: Self)
        ensures
            located(e, ErrorType::VmRuntime, message@, location),
    {
        Self::with_location(ErrorType::VmRuntime, message, location)
    }

    pub fn stack_overflow(message: String) -> (e: Self)
        ensures
            plain(e, ErrorType::StackOverflow, message@),
    {
        Self::new(ErrorType::StackOverflow, message)
    }

    pub fn stack_underflow() -> (e: Self)
        ensures
            plain(e, ErrorType::StackUnderflow, "Stack underflow"@),
    {
        Self::new(ErrorType::StackUnderflow, String::from_str("Stack underflow"))
    }

    /// The constant pool of a chunk is full.
    pub fn constant_overflow() -> (e: Self)
        ensures
            plain(e, ErrorType::Compilation, "Too many constants in chunk (max 256)"@),
    {
        Self::compilation(String::from_str("Too many constants in chunk (max 256)"))
    }

    /// The table of global names of a chunk is full.
    pub fn global_overflow() -> (e: Self)
        ensures
            plain(e, ErrorType::Compilation, "Too many globals in chunk (max 256)"@),
    {
        Self::compilation(String::from_str("Too many globals in chunk (max 256)"))
    }

    /// Leaving a scope when only the global one is open.
    pub fn quit_from_global() -> (e: Self)
        ensures
            plain(e, ErrorType::Compilation, "cannot leave the global scope"@),
    {
        Self::compilation(String::from_str("cannot leave the global scope"))
    }

    /// A function that captures more variables than an instruction can count.
    pub fn upvalue_overflow() -> (e: Self)
        ensures
            plain(e, ErrorType::Compilation, "Too many captured variables in function (max 256)"@),
    {
        Self::compilation(String::from_str("Too many captured variables in function (max 256)"))
    }

    pub fn invalid_opcode(opcode: u8) -> (e: Self)
        ensures
            plain(e, ErrorType::VmRuntime, "Invalid opcode: "@ + decimal(opcode as nat)),
    {
        let n = decimal_string(opcode as usize);
        Self::vm_runtime(join2("Invalid opcode: ", n.as_str()))
    }

    pub fn type_error(operation: &str, expected: &str, found: &str) -> (e: Self)
        ensures
            plain(
                e,
                ErrorType::VmRuntime,
                "Type error in "@ + operation@ + ": expected "@ + expected@ + ", found "@ + found@,
            ),
    {
        let mut m = join3("Type error in ", operation, ": expected ");
        m.append(expected);
        m.append(", found ");
        m.append(found);
        Self::vm_runtime(m)
    }

    pub fn arity_error(function: &str, expected: usize, found: usize) -> (e: Self)
        ensures
            plain(
                e,
                ErrorType::VmRuntime,
                "Arity error in function '"@ + function@ + "': expected "@ + decimal(
                    expected as nat,
                ) + " arguments, found "@ + decimal(found as nat),
            ),
    {
        let mut m = join3("Arity error in function '", function, "': expected ");
        let e = decimal_string(expected);
        m.append(e.as_str());
        m.append(" arguments, found ");
        let f = decimal_string(found);
        m.append(f.as_str());
        Self::vm_runtime(m)
    }

    pub fn division_by_zero() -> (e: Self)
        ensures
            plain(e, ErrorType::VmRuntime, "Division by zero"@),
    {
        Self::vm_runtime(String::from_str("Division by zero"))
    }

    pub fn index_out_of_bounds(index: usize, length: usize) -> (e: Self)
        ensures
            plain(
                e,
                ErrorType::VmRuntime,
                "Array index "@ + decimal(index as nat) + " out of bounds (length: "@ + decimal(
                    length as nat,
                ) + ")"@,
            ),
    {
        let i = decimal_string(index);
        let mut m = join2("Array index ", i.as_str());
        m.append(" out of bounds (length: ");
        let l = decimal_string(length);
        m.append(l.as_str());
        m.append(")");
        Self::vm_runtime(m)
    }

    pub fn undefined_variable(name: &str) -> (e: Self)
        ensures
            plain(e, ErrorType::VmRuntime, "Undefined variable '"@ + name@ + "'"@),
    {
        Self::vm_runtime(join3("Undefined variable '", name, "'"))
    }

    pub fn undefined_function(name: &str) -> (e: Self)
        ensures
            plain(e, ErrorType::VmRuntime, "Undefined function '"@ + name@ + "'"@),
    {
        Self::vm_runtime(join3("Undefined function '", name, "'"))
    }

    pub fn line(&self) -> (r: Option<usize>)
        ensures
            r == (match self.location {
                Some(loc) => Some(loc.line),
                None => None,
            }),
    {
        match self.location {
            Some(loc) => Some(loc.line),
            None => None,
        }
    }

    pub fn column(&self) -> (r: Option<usize>)
        ensures
            r == (match self.location {
                Some(loc) => Some(loc.column),
                None => None,
            }),
    {
        match self.location {
            Some(loc) => Some(loc.column),
            None => None,
        }
    }

    /// The text shown for this error: `file:line:column: kind: message`, with
    /// the file and the place left out where they are unknown.
    pub fn to_display_string(&self) -> (s: String)
        ensures
            s@ == display_text(*self),
    {
        let mut s = String::new();
        match (&self.file, &self.location) {
            (Some(file), Some(loc)) => {
                s.append(file.as_str());
                s.append(":");
                let l = decimal_string(loc.line);
                s.append(l.as_str());
                s.append(":");
                let c = decimal_string(loc.column);
                s.append(c.as_str());
                s.append(": ");
            },
            (None, Some(loc)) => {
                let l = decimal_string(loc.line);
                s.append(l.as_str());
                s.append(":");
                let c = decimal_string(loc.column);
                s.append(c.as_str());
                s.append(": ");
            },
            (Some(file), None) => {
                s.append(file.as_str());
                s.append(": ");
            },
            (None, None) => {},
        }
        s.append(self.error_type.label());
        s.append(": ");
        s.append(self.message.as_str());
        s
    }

    /// Whether this is a runtime error of the virtual machine.
    pub fn is_vm_runtime(&self) -> (b: bool)
        ensures
            b == (self.error_type == ErrorType::VmRuntime),
    {
        match self.error_type {
            ErrorType::VmRuntime => true,
            _ => false,
        }
    }

    /// Whether this is a compilation error.
    pub fn is_compilation(&self) -> (b: bool)
        ensures
            b == (self.error_type == ErrorType::Compilation),
    {
        match self.error_type {
            ErrorType::Compilation => true,
            _ => false,
        }
    }

    /// Whether the stack overflowed or underflowed.
    pub fn is_stack_error(&self) -> (b: bool)
        ensures
            b == (self.error_type == ErrorType::StackOverflow || self.error_type
                == ErrorType::StackUnderflow),
    {
        match self.error_type {
            ErrorType::StackOverflow | ErrorType::StackUnderflow => true,
            _ => false,
        }
    }

    /// Adds the instruction pointer to the message.
    pub fn with_ip(self, ip: usize) -> (e: Self)
        ensures
            e.message@ == self.message@ + " (at instruction "@ + decimal(ip as nat) + ")"@,
            e.error_type == self.error_type,
            e.location == self.location,
            e.file == self.file,
    {
        let mut e = self;
        e.message.append(" (at instruction ");
        let n = decimal_string(ip);
        e.message.append(n.as_str());
        e.message.append(")");
        e
    }

    /// Adds the stack size to the message.
    pub fn with_stack_size(self, size: usize) -> (e: Self)
        ensures
            e.message@ == self.message@ + " (stack size: "@ + decimal(size as nat) + ")"@,
            e.error_type == self.error_type,
            e.location == self.location,
            e.file == self.file,
    {
        let mut e = self;
        e.message.append(" (stack size: ");
        let n = decimal_string(size);
        e.message.append(n.as_str());
        e.message.append(")");
        e
    }

    /// Adds the function and the frame number to the message.
    pub fn with_frame_info(self, frame_count: usize, function: &str) -> (e: Self)
        ensures
            e.message@ == self.message@ + " (in function '"@ + function@ + "', frame "@ + decimal(
                frame_count as nat,
            ) + ")"@,
            e.error_type == self.error_type,
            e.location == self.location,
            e.file == self.file,
    {
        let mut e = self;
        e.message.append(" (in function '");
        e.message.append(function);
        e.message.append("', frame ");
        let n = decimal_string(frame_count);
        e.message.append(n.as_str());
        e.message.append(")");
        e
    }

    /// Adds the state of the virtual machine to the message.
    pub fn with_vm_debug(self, ip: usize, stack_size: usize, frame_count: usize) -> (e: Self)
        ensures
            e.message@ == self.message@ + " [VM: ip="@ + decimal(ip as nat) + ", stack="@
                + decimal(stack_size as nat) + ", frames="@ + decimal(frame_count as nat) + "]"@,
            e.error_type == self.error_type,
            e.location == self.location,
            e.file == self.file,
    {
        let mut e = self;
        e.message.append(" [VM: ip=");
        let a = decimal_string(ip);
        e.message.append(a.as_str());
        e.message.append(", stack=");
        let b = decimal_string(stack_size);
        e.message.append(b.as_str());
        e.message.append(", frames=");
        let c = decimal_string(frame_count);
        e.message.append(c.as_str());
        e.message.append("]");
        e
    }
}

} // verus!
