//! Violations reported by the scanners.

use vstd::prelude::*;
use vstd::string::StringExecFns;

verus! {

/// Severity level of a scanner issue: hardcoded strings are warnings, every
/// other violation is an error.
#[derive(Debug, Clone, Copy, PartialEq, Eq, Structural)]
pub enum Severity {
    Error,
    Warning,
}

/// The word for a severity in an issue's text.
pub open spec fn severity_word(s: Severity) -> Seq<char> {
    match s {
        Severity::Error => seq!['e', 'r', 'r', 'o', 'r'],
        Severity::Warning => seq!['w', 'a', 'r', 'n', 'i', 'n', 'g'],
    }
}

/// A single violation found by the scanner — file, line, column, rule ID, and message.
#[derive(Debug, Clone)]
pub struct Issue {
    /// The path of the scanned file, as text.
    pub file: String,
    /// 1-based line number.
    pub line: usize,
    /// 1-based byte column.
    pub col: usize,
    pub severity: Severity,
    pub rule: String,
    pub message: String,
}

/// The mathematical value of an [`Issue`].
pub struct IssueView {
    pub file: Seq<char>,
    pub line: int,
    pub col: int,
    pub severity: Severity,
    pub rule: Seq<char>,
    pub message: Seq<char>,
}

impl View for Issue {
    type V = IssueView;

    open spec fn view(&self) -> IssueView {
        IssueView {
            file: self.file@,
            line: self.line as int,
            col: self.col as int,
            severity: self.severity,
            rule: self.rule@,
            message: self.message@,
        }
    }
}

impl DeepView for Issue {
    type V = IssueView;

    open spec fn deep_view(&self) -> IssueView {
        self@
    }
}

/// The error-severity issue at `file:line:col` with the given rule and message.
pub open spec fn error_view(file: Seq<char>, line: int, col: int, rule: Seq<char>, message: Seq<char>) -> IssueView {
    IssueView { file, line, col, severity: Severity::Error, rule, message }
}

/// The warning-severity issue at `file:line:col` with the given rule and message.
pub open spec fn warning_view(file: Seq<char>, line: int, col: int, rule: Seq<char>, message: Seq<char>) -> IssueView {
    IssueView { file, line, col, severity: Severity::Warning, rule, message }
}

/// The decimal digit character of `d < 10`.
pub open spec fn digit_char(d: nat) -> char {
    if d == 0 { '0' } else if d == 1 { '1' } else if d == 2 { '2' } else if d == 3 { '3' }
    else if d == 4 { '4' } else if d == 5 { '5' } else if d == 6 { '6' } else if d == 7 { '7' }
    else if d == 8 { '8' } else { '9' }
}

/// The decimal notation of `n`, without leading zeros.
pub open spec fn decimal(n: nat) -> Seq<char>
    decreases n,
{
    if n < 10 {
        seq![digit_char(n)]
    } else {
        decimal(n / 10) + seq![digit_char(n % 10)]
    }
}

/// The text of an issue: `file:line:col: severity rule: message`.
pub open spec fn render(i: IssueView) -> Seq<char> {
    i.file + seq![':'] + decimal(i.line as nat) + seq![':'] + decimal(i.col as nat)
        + seq![':', ' '] + severity_word(i.severity) + seq![' '] + i.rule + seq![':', ' '] + i.message
}

impl Issue {
    /// Create an Error-severity issue at the given file location with rule ID and message.
    pub fn error(file: &str, line: usize, col: usize, rule: &str, message: String) -> (r: Self)
        ensures
            r@ == error_view(file@, line as int, col as int, rule@, message@),
    {
        Issue { file: file.to_owned(), line, col, severity: Severity::Error, rule: rule.to_owned(), message }
    }

    /// Create a Warning-severity issue at the given file location with rule ID and message.
    pub fn warning(file: &str, line: usize, col: usize, rule: &str, message: String) -> (r: Self)
        ensures
            r@ == warning_view(file@, line as int, col as int, rule@, message@),
    {
        Issue { file: file.to_owned(), line, col, severity: Severity::Warning, rule: rule.to_owned(), message }
    }

    /// The issue as one line of text, `file:line:col: severity rule: message`.
    pub fn to_string(&self) -> (r: String)
        ensures
            r@ == render(self@),
    {
        let mut out = self.file.as_str().to_owned();
        out.append(text_of(':'));
        push_decimal(&mut out, self.line);
        out.append(text_of(':'));
        push_decimal(&mut out, self.col);
        out.append(text_of(':'));
        out.append(text_of(' '));
        let label = match self.severity {
            Severity::Error => {
                proof {
                    reveal_strlit("error ");
                }
                "error "
            },
            Severity::Warning => {
                proof {
                    reveal_strlit("warning ");
                }
                "warning "
            },
        };
        out.append(label);
        out.append(self.rule.as_str());
        out.append(text_of(':'));
        out.append(text_of(' '));
        out.append(self.message.as_str());
        proof {
            assert(out@ =~= render(self@));
        }
        out
    }
}

/// A one-character string for the few characters `to_string` writes.
fn text_of(c: char) -> (r: &'static str)
    requires
        c == ':' || c == ' ',
    ensures
        r@ == seq![c],
{
    if c == ':' {
        proof {
            reveal_strlit(":");
        }
        ":"
    } else {
        proof {
            reveal_strlit(" ");
        }
        " "
    }
}

/// The one-character string of the digit `d`.
fn digit_text(d: usize) -> (r: &'static str)
    requires
        d < 10,
    ensures
        r@ == seq![digit_char(d as nat)],
{
    if d == 0 {
        proof { reveal_strlit("0"); }
        "0"
    } else if d == 1 {
        proof { reveal_strlit("1"); }
        "1"
    } else if d == 2 {
        proof { reveal_strlit("2"); }
        "2"
    } else if d == 3 {
        proof { reveal_strlit("3"); }
        "3"
    } else if d == 4 {
        proof { reveal_strlit("4"); }
        "4"
    } else if d == 5 {
        proof { reveal_strlit("5"); }
        "5"
    } else if d == 6 {
        proof { reveal_strlit("6"); }
        "6"
    } else if d == 7 {
        proof { reveal_strlit("7"); }
        "7"
    } else if d == 8 {
        proof { reveal_strlit("8"); }
        "8"
    } else {
        proof { reveal_strlit("9"); }
        "9"
    }
}

/// Appends the decimal notation of `n` to `out`.
pub fn push_decimal(out: &mut String, n: usize)
    ensures
        final(out)@ == old(out)@ + decimal(n as nat),
    decreases n,
{
    if n >= 10 {
        push_decimal(out, n / 10);
    }
    out.append(digit_text(n % 10));
    proof {
        assert(final(out)@ =~= old(out)@ + decimal(n as nat));
    }
}

} // verus!
