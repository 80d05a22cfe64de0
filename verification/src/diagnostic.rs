//! Error reports about a source file.
use vstd::prelude::*;

use crate::ast::Span;
use crate::input::Source;
use vstd::string::StrSliceExecFns;

verus! {

/// How serious a report is.
#[derive(Debug, Clone, Copy, PartialEq, Eq, Structural)]
pub enum Severity {
    Error,
}

/// A report about a byte range of a source file.
pub struct Diagnostic {
    pub severity: Severity,
    pub source: Source,
    pub start_byte: usize,
    pub end_byte: usize,
    pub message: String,
    pub notes: Vec<String>,
}

/// The mathematical value of a report.
pub struct DiagnosticV {
    pub severity: Severity,
    pub source: Source,
    pub start_byte: usize,
    pub end_byte: usize,
    pub message: Seq<char>,
    pub notes: Seq<Seq<char>>,
}

impl View for Diagnostic {
    type V = DiagnosticV;

    open spec fn view(&self) -> DiagnosticV {
        DiagnosticV {
            severity: self.severity,
            source: self.source,
            start_byte: self.start_byte,
            end_byte: self.end_byte,
            message: self.message@,
            notes: self.notes@.map_values(|n: String| n@),
        }
    }
}

/// An error report with no notes.
pub open spec fn error_report(source: Source, span: Span, message: Seq<char>) -> DiagnosticV {
    DiagnosticV {
        severity: Severity::Error,
        source,
        start_byte: span.start_byte,
        end_byte: span.end_byte,
        message,
        notes: Seq::empty(),
    }
}

/// The decimal digits of `n`, most significant first.
pub open spec fn decimal(n: nat) -> Seq<char>
    decreases n,
{
    if n < 10 {
        seq![(n + '0' as nat) as char]
    } else {
        decimal(n / 10) + seq![((n % 10) + '0' as nat) as char]
    }
}

/// The decimal digits of `n`, most significant first.
pub fn decimal_text(n: usize) -> (s: String)
    ensures
        s@ == decimal(n as nat),
    decreases n,
{
    if n < 10 {
        let mut s = String::new();
        push_char(&mut s, ((n as u8) + 48u8) as char);
        assert(s@ =~= decimal(n as nat));
        s
    } else {
        let mut s = decimal_text(n / 10);
        push_char(&mut s, (((n % 10) as u8) + 48u8) as char);
        assert(s@ =~= decimal(n as nat));
        s
    }
}

/// Appends a character to a string.
#[verifier::external_body]
pub(crate) fn push_char(s: &mut String, c: char)
    ensures
        final(s)@ == old(s)@.push(c),
{
    s.push(c)
}

/// Appends the text of `t` to a string.
pub fn push_text(s: &mut String, t: &str)
    ensures
        final(s)@ == old(s)@ + t@,
{
    let n = t.unicode_len();
    let ghost start = s@;
    for k in 0..n
        invariant
            n == t@.len(),
            s@ == start + t@.take(k as int),
    {
        let c = t.get_char(k);
        push_char(s, c);
        assert(t@.take(k + 1) =~= t@.take(k as int).push(c));
        assert(s@ =~= start + t@.take(k + 1));
    }
    assert(t@.take(n as int) =~= t@);
}

impl Diagnostic {
    /// An error report about `span` of `source`.
    pub fn error(source: Source, span: Span, message: String) -> (d: Self)
        ensures
            d@ == error_report(source, span, message@),
    {
        let d = Self {
            severity: Severity::Error,
            source,
            start_byte: span.start_byte,
            end_byte: span.end_byte,
            message,
            notes: Vec::new(),
        };
        assert(d@.notes =~= Seq::<Seq<char>>::empty());
        d
    }
}


/// Why a source file failed to parse: a token that the lexer does not
/// know, an end of file or a token where the grammar expected one of
/// `expected`, or a token after a complete file. A token is its start,
/// its text and its end.
pub enum ParseFailure {
    InvalidToken { location: usize },
    UnrecognizedEof { location: usize, expected: Vec<String> },
    UnrecognizedToken { token: (usize, String, usize), expected: Vec<String> },
    ExtraToken { token: (usize, String, usize) },
}

/// `parts` joined with `sep` between them.
pub open spec fn joined(parts: Seq<Seq<char>>, sep: Seq<char>) -> Seq<char>
    decreases parts.len(),
{
    if parts.len() == 0 {
        Seq::empty()
    } else if parts.len() == 1 {
        parts[0]
    } else {
        joined(parts.drop_last(), sep) + sep + parts.last()
    }
}

/// The note that lists the expected tokens.
pub open spec fn expected_note(expected: Seq<Seq<char>>) -> Seq<char> {
    "expected one of:\n"@ + joined(expected, "\n"@)
}

/// The report of a parse failure in `source`.
pub open spec fn parser_error_spec(source: Source, err: ParseFailure) -> DiagnosticV {
    match err {
        ParseFailure::InvalidToken { location } => DiagnosticV {
            severity: Severity::Error,
            source,
            start_byte: location,
            end_byte: location,
            message: "invalid token"@,
            notes: Seq::empty(),
        },
        ParseFailure::UnrecognizedEof { location, expected } => DiagnosticV {
            severity: Severity::Error,
            source,
            start_byte: location,
            end_byte: location,
            message: "unexpected end of file"@,
            notes: seq![expected_note(expected@.map_values(|s: String| s@))],
        },
        ParseFailure::UnrecognizedToken { token, expected } => DiagnosticV {
            severity: Severity::Error,
            source,
            start_byte: token.0,
            end_byte: token.2,
            message: "unexpected token: "@ + token.1@,
            notes: seq![expected_note(expected@.map_values(|s: String| s@))],
        },
        ParseFailure::ExtraToken { token } => DiagnosticV {
            severity: Severity::Error,
            source,
            start_byte: token.0,
            end_byte: token.2,
            message: "unexpected token: "@ + token.1@,
            notes: Seq::empty(),
        },
    }
}

/// The note that lists the expected tokens.
fn expected_note_exec(expected: &Vec<String>) -> (s: String)
    ensures
        s@ == expected_note(expected@.map_values(|e: String| e@)),
{
    let ghost ev = expected@.map_values(|e: String| e@);
    let mut s = String::new();
    push_text(&mut s, "expected one of:\n");
    let ghost head = s@;
    for i in 0..expected.len()
        invariant
            ev == expected@.map_values(|e: String| e@),
            s@ == head + joined(ev.take(i as int), "\n"@),
    {
        let ghost before = s@;
        if i > 0 {
            push_text(&mut s, "\n");
        }
        push_text(&mut s, expected[i].as_str());
        proof {
            assert(ev.take(i + 1).drop_last() =~= ev.take(i as int));
            assert(ev[i as int] == expected@[i as int]@);
            if i == 0 {
                assert(joined(ev.take(1), "\n"@) == ev[0]);
                assert(s@ =~= head + joined(ev.take(i + 1), "\n"@));
            } else {
                assert(s@ =~= head + joined(ev.take(i + 1), "\n"@));
            }
        }
    }
    assert(ev.take(expected@.len() as int) =~= ev);
    s
}

impl Diagnostic {
    /// The report of a parse failure in `source`.
    pub fn parser_error(source: Source, err: ParseFailure) -> (d: Self)
        ensures
            d@ == parser_error_spec(source, err),
    {
        let ghost ev = err;
        match err {
            ParseFailure::InvalidToken { location } => {
                let mut m = String::new();
                push_text(&mut m, "invalid token");
                let d = Self { severity: Severity::Error, source, start_byte: location, end_byte: location, message: m, notes: Vec::new() };
                assert(d@.notes =~= Seq::<Seq<char>>::empty());
                d
            },
            ParseFailure::UnrecognizedEof { location, expected } => {
                let mut m = String::new();
                push_text(&mut m, "unexpected end of file");
                let mut notes = Vec::new();
                notes.push(expected_note_exec(&expected));
                let d = Self { severity: Severity::Error, source, start_byte: location, end_byte: location, message: m, notes };
                assert(d@.notes =~= parser_error_spec(source, ev).notes);
                d
            },
            ParseFailure::UnrecognizedToken { token, expected } => {
                let mut m = String::new();
                push_text(&mut m, "unexpected token: ");
                push_text(&mut m, token.1.as_str());
                let mut notes = Vec::new();
                notes.push(expected_note_exec(&expected));
                let d = Self { severity: Severity::Error, source, start_byte: token.0, end_byte: token.2, message: m, notes };
                assert(d@.notes =~= parser_error_spec(source, ev).notes);
                d
            },
            ParseFailure::ExtraToken { token } => {
                let mut m = String::new();
                push_text(&mut m, "unexpected token: ");
                push_text(&mut m, token.1.as_str());
                let d = Self { severity: Severity::Error, source, start_byte: token.0, end_byte: token.2, message: m, notes: Vec::new() };
                assert(d@.notes =~= Seq::<Seq<char>>::empty());
                d
            },
        }
    }
}
} // verus!
