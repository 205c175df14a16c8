//! The error model: every failure of the pipeline carries either a source
//! slice (generic syntax error), a slice plus a message (contextual syntax
//! error), or a bare message (internal error signalling a bug in the reducer
//! itself), and renders to a caret-style message with the offending source
//! text and its line and column.

use vstd::prelude::*;

use crate::codeslice::CodeSlice;

verus! {

/// A parse failure.  The first error encountered anywhere in the pipeline
/// aborts the whole parse and is returned to the caller unmodified.
#[derive(Debug, Clone, PartialEq)]
pub enum SyntaxError {
    /// A group of elements could not be reduced to one node; the slice
    /// implicates the irreducible material.
    Syntax { span: CodeSlice },
    /// A specific grammatical expectation failed at the slice.
    Contextual { message: String, span: CodeSlice },
    /// An invariant the reducer itself must guarantee was violated: a bug,
    /// not a user mistake.
    Internal { message: String },
}

/// The mathematical value of a [`SyntaxError`].
pub enum ErrV {
    Syntax { span: CodeSlice },
    Contextual { message: Seq<char>, span: CodeSlice },
    Internal { message: Seq<char> },
}

impl View for SyntaxError {
    type V = ErrV;

    open spec fn view(&self) -> ErrV {
        match self {
            SyntaxError::Syntax { span } => ErrV::Syntax { span: *span },
            SyntaxError::Contextual { message, span } => ErrV::Contextual {
                message: message@,
                span: *span,
            },
            SyntaxError::Internal { message } => ErrV::Internal { message: message@ },
        }
    }
}

impl SyntaxError {
    /// A generic syntax error at the given slice.
    pub fn syntax(span: CodeSlice) -> (e: SyntaxError)
        ensures
            e@ == (ErrV::Syntax { span }),
    {
        SyntaxError::Syntax { span }
    }

    /// A contextual syntax error: a message and the slice it speaks of.
    pub fn contextual(message: &str, span: CodeSlice) -> (e: SyntaxError)
        ensures
            e@ == (ErrV::Contextual { message: message@, span }),
    {
        SyntaxError::Contextual { message: String::from_str(message), span }
    }

    /// An internal error with no source location.
    pub fn internal(message: &str) -> (e: SyntaxError)
        ensures
            e@ == (ErrV::Internal { message: message@ }),
    {
        SyntaxError::Internal { message: String::from_str(message) }
    }
}

/// The character standing for one decimal digit.
pub open spec fn digit_char(d: int) -> char {
    if d == 0 {
        '0'
    } else if d == 1 {
        '1'
    } else if d == 2 {
        '2'
    } else if d == 3 {
        '3'
    } else if d == 4 {
        '4'
    } else if d == 5 {
        '5'
    } else if d == 6 {
        '6'
    } else if d == 7 {
        '7'
    } else if d == 8 {
        '8'
    } else {
        '9'
    }
}

/// The decimal rendering of a natural number, most significant digit first.
pub open spec fn dec_str(n: int) -> Seq<char>
    decreases n,
{
    if n < 10 {
        seq![digit_char(n)]
    } else {
        dec_str(n / 10) + seq![digit_char(n % 10)]
    }
}

/// One decimal digit as source text.
fn digit_str(d: usize) -> (r: &'static str)
    requires
        d < 10,
    ensures
        r@ == seq![digit_char(d as int)],
{
    proof {
        reveal_strlit("0");
        reveal_strlit("1");
        reveal_strlit("2");
        reveal_strlit("3");
        reveal_strlit("4");
        reveal_strlit("5");
        reveal_strlit("6");
        reveal_strlit("7");
        reveal_strlit("8");
        reveal_strlit("9");
    }
    let r = match d {
        0 => "0",
        1 => "1",
        2 => "2",
        3 => "3",
        4 => "4",
        5 => "5",
        6 => "6",
        7 => "7",
        8 => "8",
        _ => "9",
    };
    proof {
        assert(r@ =~= seq![digit_char(d as int)]);
    }
    r
}

/// Renders a number in decimal.
pub fn usize_to_string(n: usize) -> (r: String)
    ensures
        r@ == dec_str(n as int),
    decreases n,
{
    if n < 10 {
        String::from_str(digit_str(n))
    } else {
        let mut s = usize_to_string(n / 10);
        s.append(digit_str(n % 10));
        s
    }
}

/// The rendering of a message together with a source slice: the message, the
/// offending source text, and a caret line naming line and column.  A slice
/// that does not fit the source is rendered without the excerpt.
pub open spec fn rendered_at(message: Seq<char>, span: CodeSlice, code: Seq<char>) -> Seq<char> {
    if span.wf() && span.abs_end <= code.len() {
        message + ":\n      "@ + code.subrange(span.abs_start as int, span.abs_end as int)
            + "\n      ^ line: "@ + dec_str(span.line_no as int) + " col: "@ + dec_str(
            span.start as int,
        )
    } else {
        message
    }
}

/// The message a syntax error renders to, against the source it arose from.
pub open spec fn rendered(e: ErrV, code: Seq<char>) -> Seq<char> {
    match e {
        ErrV::Syntax { span } => rendered_at("invalid syntax"@, span, code),
        ErrV::Contextual { message, span } => rendered_at(message, span, code),
        ErrV::Internal { message } => message,
    }
}

impl SyntaxError {
    /// Renders the error against the source it arose from: the message, the
    /// offending source text, and its line and column.
    pub fn render(&self, raw_code: &str) -> (r: String)
        ensures
            r@ == rendered(self@, raw_code@),
    {
        match self {
            SyntaxError::Internal { message } => message.clone(),
            SyntaxError::Syntax { span } => {
                let mut out = String::from_str("invalid syntax");
                Self::append_location(&mut out, span, raw_code);
                proof {
                    assert(out@ =~= rendered(self@, raw_code@));
                }
                out
            },
            SyntaxError::Contextual { message, span } => {
                let mut out = message.clone();
                Self::append_location(&mut out, span, raw_code);
                proof {
                    assert(out@ =~= rendered(self@, raw_code@));
                }
                out
            },
        }
    }

    /// Appends the source excerpt and the caret line for a slice, when the
    /// slice fits the source.
    fn append_location(out: &mut String, span: &CodeSlice, raw_code: &str)
        ensures
            final(out)@ == rendered_at(old(out)@, *span, raw_code@),
    {
        let fits = span.abs_start <= span.abs_end && span.abs_end <= raw_code.unicode_len();
        if fits {
            out.append(":\n      ");
            out.append(span.slice_code(raw_code));
            out.append("\n      ^ line: ");
            out.append(usize_to_string(span.get_line()).as_str());
            out.append(" col: ");
            out.append(usize_to_string(span.get_column()).as_str());
        }
    }
}

} // verus!
