use vstd::prelude::*;

use crate::text::{bytes_eq, bytes_of_str, dec_digits, push_bytes, push_str_bytes, usize_to_dec};

verus! {

/// The mathematical value of a `PreprocessorError`.
pub ghost struct PreprocessorErrorV {
    pub message: Seq<u8>,
    pub path: Seq<u8>,
    pub line_no: int,
    pub overall_line_no: int,
    pub line: Seq<u8>,
}

/// A fatal preprocessing failure: what went wrong, in which file (by name),
/// at which local and overall line, and the offending line text.
#[derive(Debug)]
pub struct PreprocessorError {
    message: Vec<u8>,
    path: Vec<u8>,
    line_no: usize,
    overall_line_no: usize,
    line: Vec<u8>,
}

impl View for PreprocessorError {
    type V = PreprocessorErrorV;

    closed spec fn view(&self) -> PreprocessorErrorV {
        PreprocessorErrorV {
            message: self.message@,
            path: self.path@,
            line_no: self.line_no as int,
            overall_line_no: self.overall_line_no as int,
            line: self.line@,
        }
    }
}

impl PreprocessorError {
    pub fn new(
        message: Vec<u8>,
        path: Vec<u8>,
        line_no: usize,
        overall_line_no: usize,
        line: Vec<u8>,
    ) -> (r: Self)
        ensures
            r@ == (PreprocessorErrorV {
                message: message@,
                path: path@,
                line_no: line_no as int,
                overall_line_no: overall_line_no as int,
                line: line@,
            }),
    {
        PreprocessorError { message, path, line_no, overall_line_no, line }
    }

    pub fn message(&self) -> (r: &Vec<u8>)
        ensures
            r@ == self@.message,
    {
        &self.message
    }

    pub fn path(&self) -> (r: &Vec<u8>)
        ensures
            r@ == self@.path,
    {
        &self.path
    }

    pub fn line_no(&self) -> (r: usize)
        ensures
            r == self@.line_no,
    {
        self.line_no
    }

    pub fn overall_line_no(&self) -> (r: usize)
        ensures
            r == self@.overall_line_no,
    {
        self.overall_line_no
    }

    pub fn line(&self) -> (r: &Vec<u8>)
        ensures
            r@ == self@.line,
    {
        &self.line
    }

    /// The rendered diagnostic: `<message> at <path>:<line>(<overall>): <line text>`.
    pub fn display_bytes(&self) -> (r: Vec<u8>)
        ensures
            r@ == spec_perr_display(self@),
    {
        proof {
            reveal_strlit(" at ");
            reveal_strlit(":");
            reveal_strlit("(");
            reveal_strlit("): ");
        }
        let mut r = Vec::new();
        push_bytes(&mut r, &self.message);
        push_str_bytes(&mut r, " at ");
        push_bytes(&mut r, &self.path);
        push_str_bytes(&mut r, ":");
        let d1 = usize_to_dec(self.line_no);
        push_bytes(&mut r, &d1);
        push_str_bytes(&mut r, "(");
        let d2 = usize_to_dec(self.overall_line_no);
        push_bytes(&mut r, &d2);
        push_str_bytes(&mut r, "): ");
        push_bytes(&mut r, &self.line);
        r
    }
}

pub open spec fn spec_perr_display(e: PreprocessorErrorV) -> Seq<u8> {
    e.message + bytes_of_str(" at "@) + e.path + bytes_of_str(":"@) + dec_digits(
        e.line_no as nat,
    ) + bytes_of_str("("@) + dec_digits(e.overall_line_no as nat) + bytes_of_str("): "@) + e.line
}

impl PartialEq for PreprocessorError {
    fn eq(&self, other: &Self) -> (r: bool)
        ensures
            r == (self@ == other@),
    {
        let r = bytes_eq(&self.message, &other.message) && bytes_eq(&self.path, &other.path)
            && self.line_no == other.line_no && self.overall_line_no == other.overall_line_no
            && bytes_eq(&self.line, &other.line);
        proof {
            if r {
                assert(self@ == other@);
            }
        }
        r
    }
}

impl vstd::std_specs::cmp::PartialEqSpecImpl for PreprocessorError {
    open spec fn obeys_eq_spec() -> bool {
        true
    }

    open spec fn eq_spec(&self, other: &PreprocessorError) -> bool {
        self@ == other@
    }
}

/// The mathematical value of an `Error`.
pub ghost enum ErrorV {
    Io(Seq<u8>),
    Preprocessor(PreprocessorErrorV),
    Parsing(Seq<u8>),
    NotDefined(Seq<u8>),
}

/// The failure taxonomy of the library: a missing source file (by path), a
/// preprocessing failure with its position, a malformed boolean expression,
/// or an identifier used as an expression term without a definition.
#[derive(Debug)]
pub enum Error {
    Io(Vec<u8>),
    Preprocessor(PreprocessorError),
    Parsing(Vec<u8>),
    NotDefined(Vec<u8>),
}

impl View for Error {
    type V = ErrorV;

    open spec fn view(&self) -> ErrorV {
        match self {
            Error::Io(p) => ErrorV::Io(p@),
            Error::Preprocessor(e) => ErrorV::Preprocessor(e@),
            Error::Parsing(m) => ErrorV::Parsing(m@),
            Error::NotDefined(n) => ErrorV::NotDefined(n@),
        }
    }
}

/// Two errors are equal when they are the same kind and, except for the I/O
/// kind, carry the same payload.
pub open spec fn error_eq_spec(a: ErrorV, b: ErrorV) -> bool {
    match a {
        ErrorV::Io(_) => b is Io,
        ErrorV::Preprocessor(l) => b matches ErrorV::Preprocessor(r) && l == r,
        ErrorV::Parsing(l) => b matches ErrorV::Parsing(r) && l == r,
        ErrorV::NotDefined(l) => b matches ErrorV::NotDefined(r) && l == r,
    }
}

impl PartialEq for Error {
    fn eq(&self, other: &Self) -> (r: bool)
        ensures
            r == error_eq_spec(self@, other@),
    {
        match self {
            Error::Io(_) => matches!(other, Error::Io(_)),
            Error::Preprocessor(l) => match other {
                Error::Preprocessor(r) => l == r,
                _ => false,
            },
            Error::Parsing(l) => match other {
                Error::Parsing(r) => bytes_eq(l, r),
                _ => false,
            },
            Error::NotDefined(l) => match other {
                Error::NotDefined(r) => bytes_eq(l, r),
                _ => false,
            },
        }
    }
}

impl vstd::std_specs::cmp::PartialEqSpecImpl for Error {
    open spec fn obeys_eq_spec() -> bool {
        true
    }

    open spec fn eq_spec(&self, other: &Error) -> bool {
        error_eq_spec(self@, other@)
    }
}

impl From<PreprocessorError> for Error {
    fn from(err: PreprocessorError) -> (r: Self)
        ensures
            r@ == ErrorV::Preprocessor(err@),
    {
        Error::Preprocessor(err)
    }
}

impl vstd::std_specs::convert::FromSpecImpl<PreprocessorError> for Error {
    open spec fn obeys_from_spec() -> bool {
        true
    }

    open spec fn from_spec(t: PreprocessorError) -> Error {
        Error::Preprocessor(t)
    }
}

/// The rendered diagnostic for each error kind.
pub open spec fn spec_error_display(e: ErrorV) -> Seq<u8> {
    match e {
        ErrorV::Io(p) => bytes_of_str("IO error: "@) + p,
        ErrorV::Preprocessor(pe) => bytes_of_str("Preprocessor error: "@) + spec_perr_display(pe),
        ErrorV::Parsing(m) => bytes_of_str("Parsing error: "@) + m,
        ErrorV::NotDefined(n) => bytes_of_str("Identifier \""@) + n + bytes_of_str(
            "\" not defined"@,
        ),
    }
}

impl Error {
    /// The rendered diagnostic of this error.
    pub fn display_bytes(&self) -> (r: Vec<u8>)
        ensures
            r@ == spec_error_display(self@),
    {
        let mut r = Vec::new();
        match self {
            Error::Io(p) => {
                proof {
                    reveal_strlit("IO error: ");
                }
                push_str_bytes(&mut r, "IO error: ");
                push_bytes(&mut r, p);
            },
            Error::Preprocessor(pe) => {
                proof {
                    reveal_strlit("Preprocessor error: ");
                }
                push_str_bytes(&mut r, "Preprocessor error: ");
                let d = pe.display_bytes();
                push_bytes(&mut r, &d);
            },
            Error::Parsing(m) => {
                proof {
                    reveal_strlit("Parsing error: ");
                }
                push_str_bytes(&mut r, "Parsing error: ");
                push_bytes(&mut r, m);
            },
            Error::NotDefined(n) => {
                proof {
                    reveal_strlit("Identifier \"");
                    reveal_strlit("\" not defined");
                }
                push_str_bytes(&mut r, "Identifier \"");
                push_bytes(&mut r, n);
                push_str_bytes(&mut r, "\" not defined");
            },
        }
        r
    }
}

} // verus!
