//! Non-fatal, ordered multi-error aggregation.
//!
//! Validators report every violation they find into an [`ErrorCollector`]
//! and keep going, so one pass surfaces as many independent problems as
//! possible.  The collector is consumed exactly once, yielding either the
//! produced value (no errors) or the complete list of diagnostics.

use vstd::prelude::*;
use crate::ast::{Pos, PosV};

verus! {

/// File name, line and offset as carried inside an error.
#[derive(Debug, PartialEq, Eq)]
pub struct ErrorPos(String, usize, usize);

impl View for ErrorPos {
    type V = PosV;

    closed spec fn view(&self) -> PosV {
        PosV { filename: self.0@, line: self.1 as nat, offset: self.2 as nat }
    }
}

impl ErrorPos {
    fn of_pos(pos: &Pos) -> (r: ErrorPos)
        ensures
            r@ == pos@,
    {
        ErrorPos(pos.filename.clone(), pos.line, pos.offset)
    }
}

/// A single diagnostic, with the position it refers to.
#[derive(Debug, PartialEq, Eq)]
pub enum Error {
    /// A resource could not be opened: the path, and the lower-level reason.
    OpenError(String, String),
    /// The lexer rejected the source text.
    TokenizerError(ErrorPos, String),
    /// The parser rejected the token stream.
    ParseError(ErrorPos, String),
    /// A validator rejected a node.
    ValidationError(ErrorPos, String),
    /// The preprocessing pass rejected a node.
    PreprocessError(ErrorPos, String),
    /// The decoder rejected a node; carries the dotted field path.
    DecodeError(ErrorPos, String, String),
}

/// Mathematical image of an [`Error`].
pub enum ErrorV {
    Open(Seq<char>, Seq<char>),
    Tokenizer(PosV, Seq<char>),
    Parse(PosV, Seq<char>),
    Validation(PosV, Seq<char>),
    Preprocess(PosV, Seq<char>),
    Decode(PosV, Seq<char>, Seq<char>),
}

impl View for Error {
    type V = ErrorV;

    open spec fn view(&self) -> ErrorV {
        match self {
            Error::OpenError(path, reason) => ErrorV::Open(path@, reason@),
            Error::TokenizerError(pos, msg) => ErrorV::Tokenizer(pos@, msg@),
            Error::ParseError(pos, msg) => ErrorV::Parse(pos@, msg@),
            Error::ValidationError(pos, msg) => ErrorV::Validation(pos@, msg@),
            Error::PreprocessError(pos, msg) => ErrorV::Preprocess(pos@, msg@),
            Error::DecodeError(pos, path, msg) => ErrorV::Decode(pos@, path@, msg@),
        }
    }
}

impl Error {
    /// A parse error at the given position.
    pub fn parse_error(pos: &Pos, message: String) -> (r: Error)
        ensures
            r@ == ErrorV::Parse(pos@, message@),
    {
        Error::ParseError(ErrorPos::of_pos(pos), message)
    }

    /// A tokenizer error at the given position.
    pub fn tokenizer_error(pos: &Pos, message: String) -> (r: Error)
        ensures
            r@ == ErrorV::Tokenizer(pos@, message@),
    {
        Error::TokenizerError(ErrorPos::of_pos(pos), message)
    }

    /// A validation error at the given position.
    pub fn validation_error(pos: &Pos, message: String) -> (r: Error)
        ensures
            r@ == ErrorV::Validation(pos@, message@),
    {
        Error::ValidationError(ErrorPos::of_pos(pos), message)
    }

    /// A decode error at the given position and dotted field path.
    pub fn decode_error(pos: &Pos, path: &String, message: String) -> (r: Error)
        ensures
            r@ == ErrorV::Decode(pos@, path@, message@),
    {
        Error::DecodeError(ErrorPos::of_pos(pos), path.clone(), message)
    }

    /// A preprocessing error at the given position.
    pub fn preprocess_error(pos: &Pos, message: String) -> (r: Error)
        ensures
            r@ == ErrorV::Preprocess(pos@, message@),
    {
        Error::PreprocessError(ErrorPos::of_pos(pos), message)
    }
}

/// The rendered position prefix `file:line:offset: `.
pub open spec fn render_pos(p: PosV) -> Seq<char> {
    p.filename + ":"@ + crate::text::nat_dec(p.line) + ":"@ + crate::text::nat_dec(p.offset)
        + ": "@
}

/// The one-line rendering of a diagnostic.
pub open spec fn render_error(e: ErrorV) -> Seq<char> {
    match e {
        ErrorV::Open(path, reason) => path + ": Error reading file: "@ + reason,
        ErrorV::Tokenizer(p, m) => render_pos(p) + "Tokenizer Error: "@ + m,
        ErrorV::Parse(p, m) => render_pos(p) + "Parse Error: "@ + m,
        ErrorV::Validation(p, m) => render_pos(p) + "Validation Error: "@ + m,
        ErrorV::Preprocess(p, m) => render_pos(p) + "Preprocess Error: "@ + m,
        ErrorV::Decode(p, path, m) => render_pos(p) + "Decode error at "@ + path + ": "@ + m,
    }
}

fn render_pos_str(p: &ErrorPos) -> (r: String)
    ensures
        r@ == render_pos(p@),
{
    let mut s = p.0.clone();
    s.append(":");
    let line = crate::text::usize_dec_str(p.1);
    s.append(line.as_str());
    s.append(":");
    let offset = crate::text::usize_dec_str(p.2);
    s.append(offset.as_str());
    s.append(": ");
    s
}

impl Error {
    /// Render this diagnostic as one line:
    /// `filename:line:offset: Kind: message`.
    pub fn render(&self) -> (r: String)
        ensures
            r@ == render_error(self@),
    {
        match self {
            Error::OpenError(path, reason) => {
                let mut s = path.clone();
                s.append(": Error reading file: ");
                s.append(reason.as_str());
                s
            },
            Error::TokenizerError(pos, m) => {
                let mut s = render_pos_str(pos);
                s.append("Tokenizer Error: ");
                s.append(m.as_str());
                s
            },
            Error::ParseError(pos, m) => {
                let mut s = render_pos_str(pos);
                s.append("Parse Error: ");
                s.append(m.as_str());
                s
            },
            Error::ValidationError(pos, m) => {
                let mut s = render_pos_str(pos);
                s.append("Validation Error: ");
                s.append(m.as_str());
                s
            },
            Error::PreprocessError(pos, m) => {
                let mut s = render_pos_str(pos);
                s.append("Preprocess Error: ");
                s.append(m.as_str());
                s
            },
            Error::DecodeError(pos, path, m) => {
                let mut s = render_pos_str(pos);
                s.append("Decode error at ");
                s.append(path.as_str());
                s.append(": ");
                s.append(m.as_str());
                s
            },
        }
    }
}

/// The ordered list of diagnostics gathered in one session.
#[must_use]
#[derive(Debug, PartialEq, Eq)]
pub struct ErrorList {
    errors: Vec<Error>,
}

impl View for ErrorList {
    type V = Seq<ErrorV>;

    closed spec fn view(&self) -> Seq<ErrorV> {
        Seq::new(self.errors@.len(), |i: int| self.errors@[i]@)
    }
}

impl ErrorList {
    /// Append one more diagnostic at the end of the list.
    pub fn add_error(&mut self, err: Error)
        ensures
            final(self)@ == old(self)@.push(err@),
    {
        self.errors.push(err);
        proof {
            assert(final(self)@ =~= old(self)@.push(err@));
        }
    }

    /// The recorded diagnostics, oldest first.
    pub fn errors(&self) -> (r: &Vec<Error>)
        ensures
            r@.len() == self@.len(),
            forall|i: int| 0 <= i < r@.len() ==> r@[i]@ == self@[i],
    {
        &self.errors
    }
}

/// The error sink shared by every validator invoked in one session.
///
/// Created once per session and consumed exactly once by one of the
/// terminal operations ([`into_result`](ErrorCollector::into_result),
/// [`into_fatal`](ErrorCollector::into_fatal) or
/// [`unwrap`](ErrorCollector::unwrap)); consumption is by value, so a
/// second consume is impossible.
pub struct ErrorCollector {
    list: ErrorList,
}

impl View for ErrorCollector {
    type V = Seq<ErrorV>;

    closed spec fn view(&self) -> Seq<ErrorV> {
        self.list@
    }
}

impl ErrorCollector {
    /// A fresh collector with no diagnostics.
    pub fn new() -> (r: ErrorCollector)
        ensures
            r@ == Seq::<ErrorV>::empty(),
    {
        let r = ErrorCollector { list: ErrorList { errors: Vec::new() } };
        proof {
            assert(r@ =~= Seq::<ErrorV>::empty());
        }
        r
    }

    /// Record one more diagnostic.
    pub fn add_error(&mut self, err: Error)
        ensures
            final(self)@ == old(self)@.push(err@),
    {
        self.list.add_error(err);
    }

    /// Record one final, unconditional diagnostic and yield the list.
    pub fn into_fatal(self, err: Error) -> (r: ErrorList)
        ensures
            r@ == self@.push(err@),
    {
        let mut list = self.list;
        list.add_error(err);
        list
    }

    /// `Ok(val)` when no diagnostics were recorded, `Err` with the
    /// complete list otherwise.
    pub fn into_result<T>(self, val: T) -> (r: Result<T, ErrorList>)
        ensures
            self@.len() == 0 ==> (r matches Ok(v) && v == val),
            self@.len() > 0 ==> (r matches Err(l) && l@ == self@),
    {
        if self.list.errors.len() > 0 {
            Err(self.list)
        } else {
            Ok(val)
        }
    }

    /// Yield the list of diagnostics gathered so far.
    pub fn unwrap(self) -> (r: ErrorList)
        ensures
            r@ == self@,
    {
        self.list
    }
}

} // verus!
