use vstd::prelude::*;
use vstd::string::*;

use crate::span::Span;

verus! {

/// The phase in which an error arose.
#[derive(Debug, Clone, Copy, PartialEq, Eq, Structural)]
pub enum ErrorType {
    CompileError,
    RuntimeError,
}

/// How an error type is named to the user.
pub open spec fn error_type_text(t: ErrorType) -> Seq<char> {
    match t {
        ErrorType::CompileError => "Compile Error"@,
        ErrorType::RuntimeError => "Runtime Error"@,
    }
}

impl ErrorType {
    /// The name under which this error type is shown to the user.
    pub fn as_str(&self) -> (s: &'static str)
        ensures
            s@ == error_type_text(*self),
    {
        match self {
            ErrorType::CompileError => "Compile Error",
            ErrorType::RuntimeError => "Runtime Error",
        }
    }
}

/// An error of the language: where it happened, what is wrong, and in which phase.
#[derive(Debug)]
pub struct LangError {
    espan: Span,
    emsg: String,
    etype: ErrorType,
}

/// What an error holds, as mathematical values.
pub struct ErrorView {
    pub span: Span,
    pub msg: Seq<char>,
    pub etype: ErrorType,
}

impl View for LangError {
    type V = ErrorView;

    closed spec fn view(&self) -> ErrorView {
        ErrorView { span: self.espan, msg: self.emsg@, etype: self.etype }
    }
}

/// A result with its error taken by its view.
pub open spec fn result_view<T>(r: Result<T, LangError>) -> Result<T, ErrorView> {
    match r {
        Ok(v) => Ok(v),
        Err(e) => Err(e@),
    }
}

/// The exit code that a program reports for an error of the given type.
pub open spec fn exit_code_of(t: ErrorType) -> i32 {
    match t {
        ErrorType::CompileError => 65,
        ErrorType::RuntimeError => 70,
    }
}

/// Number of newline bytes in `s`.
pub open spec fn count_newlines(s: Seq<u8>) -> nat
    decreases s.len(),
{
    if s.len() == 0 {
        0
    } else {
        count_newlines(s.drop_last()) + if s.last() == 10u8 { 1nat } else { 0nat }
    }
}

/// Index of the last newline byte in `s`, or 0 when there is none.
pub open spec fn last_newline(s: Seq<u8>) -> int
    decreases s.len(),
{
    if s.len() == 0 {
        0
    } else if s.last() == 10u8 {
        s.len() - 1
    } else {
        last_newline(s.drop_last())
    }
}

/// Line and column reported for the byte index `start` of the source `src`:
/// the line is one more than the newlines before `start`, the column is the
/// distance from the last of those newlines (or from index 0).
/// An index past the end of the source gives `(0, 0)`.
pub open spec fn location_of(src: Seq<u8>, start: u32) -> (u32, u32) {
    if (start as int) < src.len() {
        let before = src.take(start as int);
        ((1 + count_newlines(before)) as u32, (start - last_newline(before)) as u32)
    } else {
        (0, 0)
    }
}

/// How far the search for `start` reads into `src`: up to `start` itself, or to
/// the end of `src` when `start` lies past it.
pub open spec fn scan_limit(src: Seq<u8>, start: u32) -> int {
    if (start as int) < src.len() {
        start as int
    } else {
        src.len() as int
    }
}

/// Counting newlines in a longer prefix never gives fewer.
proof fn lemma_count_newlines_prefix(s: Seq<u8>, i: int, j: int)
    requires
        0 <= i <= j <= s.len(),
    ensures
        count_newlines(s.take(i)) <= count_newlines(s.take(j)),
    decreases j - i,
{
    if i < j {
        lemma_count_newlines_prefix(s, i, j - 1);
        assert(s.take(j).drop_last() =~= s.take(j - 1));
    }
}

impl LangError {
    pub fn compile(espan: Span, emsg: String) -> (e: LangError)
        ensures
            e@ == (ErrorView { span: espan, msg: emsg@, etype: ErrorType::CompileError }),
    {
        LangError { espan, emsg, etype: ErrorType::CompileError }
    }

    pub fn runtime(espan: Span, emsg: String) -> (e: LangError)
        ensures
            e@ == (ErrorView { span: espan, msg: emsg@, etype: ErrorType::RuntimeError }),
    {
        LangError { espan, emsg, etype: ErrorType::RuntimeError }
    }

    /// 65 for a compile error, 70 for a runtime error.
    pub fn exit_code(&self) -> (c: i32)
        ensures
            c == exit_code_of(self@.etype),
    {
        match self.etype {
            ErrorType::CompileError => 65,
            ErrorType::RuntimeError => 70,
        }
    }

    /// Line and column of the error's start in `src`, or `(0, 0)` when the
    /// start lies past the end of `src`.
    pub fn span_to_loc(&self, src: &str) -> (loc: (u32, u32))
        requires
            1 + count_newlines(src.spec_bytes().take(scan_limit(src.spec_bytes(), self@.span.0)))
                <= i32::MAX,
        ensures
            loc == location_of(src.spec_bytes(), self@.span.0),
    {
        let bytes = src.as_bytes();
        let target = self.espan.start_u32();
        let mut current_line: i32 = 1;
        let mut line_ptr: usize = 0;
        let mut src_ptr: usize = 0;
        while src_ptr < bytes.len()
            invariant
                bytes@ == src.spec_bytes(),
                src_ptr <= bytes.len(),
                src_ptr <= target,
                line_ptr <= src_ptr,
                target == self@.span.0,
                current_line == 1 + count_newlines(bytes@.take(src_ptr as int)),
                line_ptr == last_newline(bytes@.take(src_ptr as int)),
                1 + count_newlines(bytes@.take(scan_limit(bytes@, target))) <= i32::MAX,
            decreases bytes.len() - src_ptr,
        {
            assert(src_ptr as u32 == src_ptr);
            if src_ptr as u32 == target {
                return (current_line as u32, (src_ptr - line_ptr) as u32);
            }
            assert(bytes@.take(src_ptr + 1).drop_last() =~= bytes@.take(src_ptr as int));
            if bytes[src_ptr] == 10u8 {
                proof {
                    lemma_count_newlines_prefix(bytes@, src_ptr + 1, scan_limit(bytes@, target));
                }
                current_line += 1;
                line_ptr = src_ptr;
            }
            src_ptr += 1;
        }
        (0, 0)
    }

    pub fn span(&self) -> (s: Span)
        ensures
            s == self@.span,
    {
        self.espan
    }

    pub fn message(&self) -> (m: &str)
        ensures
            m@ == self@.msg,
    {
        self.emsg.as_str()
    }

    pub fn error_type(&self) -> (t: ErrorType)
        ensures
            t == self@.etype,
    {
        self.etype
    }
}

} // verus!
