use crate::scanner::grammar::{scan, scan_reports};
use crate::scanner::scanner::Scanner;
use crate::scanner::token::{token_views, Token};
use vstd::prelude::*;
use vstd::string::{StringExecFns, StringSliceAdditionalSpecFns};

verus! {

/// One reported error: where, and what.
#[derive(Debug)]
pub struct Diagnostic {
    pub line: usize,
    pub col: usize,
    pub place: String,
    pub message: String,
}

/// The mathematical value of a [`Diagnostic`].
pub struct DiagnosticView {
    pub line: nat,
    pub col: nat,
    pub place: Seq<char>,
    pub message: Seq<char>,
}

impl View for Diagnostic {
    type V = DiagnosticView;

    open spec fn view(&self) -> DiagnosticView {
        DiagnosticView {
            line: self.line as nat,
            col: self.col as nat,
            place: self.place@,
            message: self.message@,
        }
    }
}

/// The character of a decimal digit.
pub open spec fn digit_char(d: nat) -> char
    recommends
        d < 10,
{
    (0x30 + d) as char
}

/// The decimal numeral of `n`, without leading zeros.
pub open spec fn decimal(n: nat) -> Seq<char>
    decreases n,
{
    if n < 10 {
        seq![digit_char(n)]
    } else {
        decimal(n / 10).push(digit_char(n % 10))
    }
}

/// The line that shows a diagnostic to the user.
pub open spec fn rendered(entry: DiagnosticView) -> Seq<char> {
    "[line "@ + decimal(entry.line) + ": col "@ + decimal(entry.col) + "] Error"@ + entry.place
        + ": "@ + entry.message
}

fn digit_text(d: usize) -> (text: &'static str)
    requires
        d < 10,
    ensures
        text@ == seq![digit_char(d as nat)],
{
    proof {
        reveal_strlit("0");
        reveal_strlit("1");
        reveal_strlit("2");
        reveal_strlit("3");
        reveal_strlit("4");
        reveal_strlit("5");
        reveal_strlit("6");
        reveal_strlit("7");
        reveal_strlit("8");
        reveal_strlit("9");
    }
    let text = if d == 0 {
        "0"
    } else if d == 1 {
        "1"
    } else if d == 2 {
        "2"
    } else if d == 3 {
        "3"
    } else if d == 4 {
        "4"
    } else if d == 5 {
        "5"
    } else if d == 6 {
        "6"
    } else if d == 7 {
        "7"
    } else if d == 8 {
        "8"
    } else {
        "9"
    };
    assert(text@ =~= seq![digit_char(d as nat)]);
    text
}

/// Writes `n` in decimal.
pub fn decimal_text(n: usize) -> (text: String)
    ensures
        text@ == decimal(n as nat),
    decreases n,
{
    if n < 10 {
        digit_text(n).to_owned()
    } else {
        let mut text = decimal_text(n / 10);
        text.append(digit_text(n % 10));
        assert(text@ =~= decimal(n as nat));
        text
    }
}

impl Diagnostic {
    /// The line that shows this diagnostic to the user: its position, then
    /// the place if one is given, then the message.
    pub fn render(&self) -> (text: String)
        ensures
            text@ == rendered(self@),
    {
        let mut text = "[line ".to_owned();
        text.append(decimal_text(self.line).as_str());
        text.append(": col ");
        text.append(decimal_text(self.col).as_str());
        text.append("] Error");
        text.append(self.place.as_str());
        text.append(": ");
        text.append(self.message.as_str());
        text
    }
}

/// The diagnostic sink of the interpreter: it keeps every reported error, in
/// order, and remembers that any was reported.
pub struct Lox {
    had_err: bool,
    reports: Vec<Diagnostic>,
}

/// The mathematical value of a [`Lox`].
pub struct LoxView {
    pub had_error: bool,
    pub reports: Seq<DiagnosticView>,
}

impl View for Lox {
    type V = LoxView;

    closed spec fn view(&self) -> LoxView {
        LoxView {
            had_error: self.had_err,
            reports: self.reports@.map_values(|d: Diagnostic| d@),
        }
    }
}

impl Lox {
    /// A sink to which nothing was reported.
    pub fn new() -> (lox: Self)
        ensures
            !lox@.had_error,
            lox@.reports == Seq::<DiagnosticView>::empty(),
    {
        let lox = Self { had_err: false, reports: Vec::new() };
        assert(lox@.reports =~= Seq::<DiagnosticView>::empty());
        lox
    }

    /// Scans `input` from its first byte to its last and returns its
    /// tokens, the closing end-of-input token included. What is malformed
    /// in it is reported to this sink, which is not reset first.
    pub fn run(&mut self, input: &str) -> (tokens: Vec<Token>)
        ensures
            token_views(tokens@) == scan(input.spec_bytes()),
            final(self)@.reports == old(self)@.reports + scan_reports(input.spec_bytes()),
            final(self)@.had_error == (old(self)@.had_error || scan_reports(
                input.spec_bytes(),
            ).len() > 0),
    {
        let mut scanner: Scanner = Scanner::new(input);
        let tokens: Vec<Token> = scanner.scan_tokens(self);
        assert(token_views(tokens@) =~= scan(input.spec_bytes()));
        tokens
    }

    /// Reports `msg` at the given position.
    pub fn error(&mut self, line: usize, col: usize, msg: &str)
        ensures
            final(self)@.had_error,
            final(self)@.reports == old(self)@.reports.push(
                DiagnosticView {
                    line: line as nat,
                    col: col as nat,
                    place: Seq::<char>::empty(),
                    message: msg@,
                },
            ),
    {
        self.report(line, col, "", msg);
        proof {
            reveal_strlit("");
            assert(""@ =~= Seq::<char>::empty());
        }
    }

    fn report(&mut self, line: usize, col: usize, poc: &str, msg: &str)
        ensures
            final(self)@.had_error,
            final(self)@.reports == old(self)@.reports.push(
                DiagnosticView { line: line as nat, col: col as nat, place: poc@, message: msg@ },
            ),
    {
        let entry = Diagnostic { line, col, place: poc.to_owned(), message: msg.to_owned() };
        self.reports.push(entry);
        self.had_err = true;
        assert(final(self)@.reports =~= old(self)@.reports.push(entry@));
    }

    /// Whether anything was reported since the sink was made or last reset.
    pub fn had_error(&self) -> (flag: bool)
        ensures
            flag == self@.had_error,
    {
        self.had_err
    }

    /// The number of diagnostics kept.
    pub fn report_count(&self) -> (count: usize)
        ensures
            count == self@.reports.len(),
    {
        self.reports.len()
    }

    /// The diagnostic at `index`, in the order of reporting.
    pub fn report_at(&self, index: usize) -> (entry: &Diagnostic)
        requires
            index < self@.reports.len(),
        ensures
            entry@ == self@.reports[index as int],
    {
        &self.reports[index]
    }

    /// Forgets what was reported, for a caller that starts an independent
    /// scan with the same sink.
    pub fn reset(&mut self)
        ensures
            !final(self)@.had_error,
            final(self)@.reports == Seq::<DiagnosticView>::empty(),
    {
        self.had_err = false;
        self.reports.clear();
        assert(final(self)@.reports =~= Seq::<DiagnosticView>::empty());
    }
}

} // verus!
