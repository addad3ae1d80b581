use vstd::prelude::*;

use crate::parser::Rule;
use crate::text::{chars_of, lines, lines_view, split_lines, string_from_chars};

verus! {

/// Where the text stopped matching the grammar, and what would have fit there.
#[derive(Debug, PartialEq)]
pub struct SyntaxError {
    /// 1-based line.
    pub line: usize,
    /// 1-based column, counted in characters.
    pub column: usize,
    /// Position of the offending character in the text, counted in characters.
    pub offset: usize,
    /// The kinds of token that were valid at that position.
    pub expected: Vec<Rule>,
}

/// Everything that can go wrong while reading a document.
#[derive(Debug, PartialEq)]
pub enum Error {
    /// The text does not match the grammar.
    ParserError(SyntaxError),
    /// A referenced input was never declared (or not before its use).
    InputResolveError(String),
    /// Dot-notation tried to pass through a value that is not an object.
    InvalidPathError(String),
    /// A spread's source has a different type from its container.
    InvalidSpreadError(String),
    /// A non-string value was interpolated into a string.
    InvalidInterpolationError(String),
    /// A value does not fit the shape that was asked for.
    DeserializationError(String),
}

/// The model of an error: its kind and the text it names.
pub ghost enum Fault {
    Syntax(nat, nat),
    InputResolve(Seq<char>),
    InvalidPath(Seq<char>),
    InvalidSpread(Seq<char>),
    InvalidInterpolation(Seq<char>),
    Deserialization(Seq<char>),
}

impl Error {
    pub open spec fn view(&self) -> Fault {
        match self {
            Error::ParserError(e) => Fault::Syntax(e.line as nat, e.column as nat),
            Error::InputResolveError(s) => Fault::InputResolve(s@),
            Error::InvalidPathError(s) => Fault::InvalidPath(s@),
            Error::InvalidSpreadError(s) => Fault::InvalidSpread(s@),
            Error::InvalidInterpolationError(s) => Fault::InvalidInterpolation(s@),
            Error::DeserializationError(s) => Fault::Deserialization(s@),
        }
    }
}

/// The process exit code that goes with each kind of error.
pub open spec fn exit_code(f: Fault) -> i32 {
    match f {
        Fault::Syntax(_, _) => 1,
        Fault::InputResolve(_) => 2,
        Fault::Deserialization(_) => 5,
        Fault::InvalidPath(_) => 6,
        Fault::InvalidSpread(_) => 7,
        Fault::InvalidInterpolation(_) => 8,
    }
}

pub open spec fn digit_char(d: nat) -> char {
    if d == 0 {
        '0'
    } else if d == 1 {
        '1'
    } else if d == 2 {
        '2'
    } else if d == 3 {
        '3'
    } else if d == 4 {
        '4'
    } else if d == 5 {
        '5'
    } else if d == 6 {
        '6'
    } else if d == 7 {
        '7'
    } else if d == 8 {
        '8'
    } else {
        '9'
    }
}

/// The decimal digits of `n`.
pub open spec fn decimal(n: nat) -> Seq<char>
    decreases n,
{
    if n < 10 {
        seq![digit_char(n)]
    } else {
        decimal(n / 10).push(digit_char(n % 10))
    }
}

/// The one-line message of an error.
pub open spec fn message_of(f: Fault) -> Seq<char> {
    match f {
        Fault::Syntax(line, column) => "syntax error at line "@ + decimal(line) + ", column "@ + decimal(column),
        Fault::InputResolve(n) => "failed to resolve referenced input `"@ + n + "`"@,
        Fault::InvalidPath(p) => "attempted to use dot-notation on non-object value at `"@ + p + "`"@,
        Fault::InvalidSpread(n) => "attempted to spread a type that differs from its containing type at `"@ + n + "`"@,
        Fault::InvalidInterpolation(n) => "attempted to interpolate a non-string type into a string at `"@ + n + "`"@,
        Fault::Deserialization(m) => "failed to deserialize input: "@ + m,
    }
}

/// The name of a token kind in messages.
pub open spec fn rule_name(r: Rule) -> Seq<char> {
    match r {
        Rule::AssignBlock => "assign_block"@,
        Rule::Assignment => "assignment"@,
        Rule::Object => "object"@,
        Rule::Pair => "pair"@,
        Rule::Spread => "spread"@,
        Rule::Path => "path"@,
        Rule::Value => "value"@,
        Rule::Array => "array"@,
        Rule::String => "string"@,
        Rule::Char => "char"@,
        Rule::Input => "input"@,
        Rule::Integer => "integer"@,
        Rule::Float => "float"@,
        Rule::Boolean => "boolean"@,
        Rule::Null => "null"@,
        Rule::Eoi => "EOI"@,
    }
}

/// The first `n` token names, separated by `, `.
pub open spec fn join_rule_names(rs: Seq<Rule>, n: int) -> Seq<char>
    decreases n,
{
    if n <= 0 {
        Seq::empty()
    } else if n == 1 {
        rule_name(rs[0])
    } else {
        join_rule_names(rs, n - 1) + ", "@ + rule_name(rs[n - 1])
    }
}

/// The marker line under a source line: as long as the line, `^` under
/// the offending column and spaces elsewhere (no `^` past the line's end).
pub open spec fn underline(line: Seq<char>, column: nat) -> Seq<char> {
    Seq::new(line.len(), |i: int| if i + 1 == column { '^' } else { ' ' })
}

/// A syntax error shown against its text, in the manner of a compiler
/// diagnostic: the place, the offending line with a marker under the
/// offending column, and every token that was expected there.
pub open spec fn syntax_report(path: Seq<char>, text: Seq<char>, line: nat, column: nat, expected: Seq<Rule>) -> Seq<char> {
    let ls = lines(text);
    let excerpt = if 1 <= line <= ls.len() {
        "  | "@ + ls[line - 1] + "\n"@ + "  | "@ + underline(ls[line - 1], column) + "\n"@
    } else {
        Seq::empty()
    };
    "--> "@ + path + ":"@ + decimal(line) + ":"@ + decimal(column) + "\n"@ + "  | \n"@ + excerpt + "  | \n"@
        + "Expected one of:\n\t"@ + join_rule_names(expected, expected.len() as int)
}

impl Rule {
    /// The name of this token kind in messages.
    pub fn name(&self) -> (n: &'static str)
        ensures
            n@ == rule_name(*self),
    {
        match self {
            Rule::AssignBlock => "assign_block",
            Rule::Assignment => "assignment",
            Rule::Object => "object",
            Rule::Pair => "pair",
            Rule::Spread => "spread",
            Rule::Path => "path",
            Rule::Value => "value",
            Rule::Array => "array",
            Rule::String => "string",
            Rule::Char => "char",
            Rule::Input => "input",
            Rule::Integer => "integer",
            Rule::Float => "float",
            Rule::Boolean => "boolean",
            Rule::Null => "null",
            Rule::Eoi => "EOI",
        }
    }
}

/// Appends the decimal digits of `n`.
fn push_decimal(out: &mut String, n: usize)
    ensures
        final(out)@ == old(out)@ + decimal(n as nat),
    decreases n,
{
    if n >= 10 {
        push_decimal(out, n / 10);
    }
    let d = n % 10;
    let c = if d == 0 {
        "0"
    } else if d == 1 {
        "1"
    } else if d == 2 {
        "2"
    } else if d == 3 {
        "3"
    } else if d == 4 {
        "4"
    } else if d == 5 {
        "5"
    } else if d == 6 {
        "6"
    } else if d == 7 {
        "7"
    } else if d == 8 {
        "8"
    } else {
        "9"
    };
    proof {
        reveal_strlit("0");
        reveal_strlit("1");
        reveal_strlit("2");
        reveal_strlit("3");
        reveal_strlit("4");
        reveal_strlit("5");
        reveal_strlit("6");
        reveal_strlit("7");
        reveal_strlit("8");
        reveal_strlit("9");
    }
    out.append(c);
    assert(c@ =~= seq![digit_char(d as nat)]);
}

impl Error {
    /// The exit code of a command-line run that ends with this error.
    pub fn get_exit_code(&self) -> (r: i32)
        ensures
            r == exit_code(self@),
    {
        match self {
            Error::ParserError(_) => 1,
            Error::InputResolveError(_) => 2,
            Error::DeserializationError(_) => 5,
            Error::InvalidPathError(_) => 6,
            Error::InvalidSpreadError(_) => 7,
            Error::InvalidInterpolationError(_) => 8,
        }
    }

    /// The one-line message of this error.
    pub fn message(&self) -> (r: String)
        ensures
            r@ == message_of(self@),
    {
        match self {
            Error::ParserError(e) => {
                let mut m = String::from_str("syntax error at line ");
                push_decimal(&mut m, e.line);
                m.append(", column ");
                push_decimal(&mut m, e.column);
                m
            },
            Error::InputResolveError(n) => {
                let mut m = String::from_str("failed to resolve referenced input `");
                m.append(n.as_str());
                m.append("`");
                m
            },
            Error::InvalidPathError(p) => {
                let mut m = String::from_str("attempted to use dot-notation on non-object value at `");
                m.append(p.as_str());
                m.append("`");
                m
            },
            Error::InvalidSpreadError(n) => {
                let mut m = String::from_str("attempted to spread a type that differs from its containing type at `");
                m.append(n.as_str());
                m.append("`");
                m
            },
            Error::InvalidInterpolationError(n) => {
                let mut m = String::from_str("attempted to interpolate a non-string type into a string at `");
                m.append(n.as_str());
                m.append("`");
                m
            },
            Error::DeserializationError(d) => {
                let mut m = String::from_str("failed to deserialize input: ");
                m.append(d.as_str());
                m
            },
        }
    }

    /// This error as a user reads it: a syntax error is shown against the
    /// text it was found in (see `format_parser_err`); any other error is
    /// its message.
    pub fn render(&self, text: &str, path: &str) -> (r: String)
        ensures
            match self {
                Error::ParserError(e) => r@ == syntax_report(path@, text@, e.line as nat, e.column as nat, e.expected@),
                _ => r@ == message_of(self@),
            },
    {
        match self {
            Error::ParserError(e) => format_parser_err(e, text, path),
            _ => self.message(),
        }
    }
}

/// Shows a syntax error against the text `file` read from `path` (see
/// `syntax_report`).
pub fn format_parser_err(error: &SyntaxError, file: &str, path: &str) -> (r: String)
    ensures
        r@ == syntax_report(path@, file@, error.line as nat, error.column as nat, error.expected@),
{
    let mut m = String::from_str("--> ");
    m.append(path);
    m.append(":");
    push_decimal(&mut m, error.line);
    m.append(":");
    push_decimal(&mut m, error.column);
    m.append("\n");
    m.append("  | \n");
    let cs = chars_of(file);
    let ls = split_lines(&cs);
    if 1 <= error.line && error.line <= ls.len() {
        m.append("  | ");
        let line_chars = &ls[error.line - 1];
        let line_text = string_from_chars(line_chars);
        assert(lines_view(ls@)[error.line - 1] == ls@[error.line - 1]@);
        m.append(line_text.as_str());
        m.append("\n");
        m.append("  | ");
        let mut marks: Vec<char> = Vec::new();
        let mut i: usize = 0;
        while i < line_chars.len()
            invariant
                i <= line_chars.len(),
                marks@ =~= underline(line_chars@, error.column as nat).subrange(0, i as int),
            decreases line_chars.len() - i,
        {
            if i < usize::MAX && i + 1 == error.column {
                marks.push('^');
            } else {
                marks.push(' ');
            }
            i = i + 1;
        }
        let marks_text = string_from_chars(&marks);
        m.append(marks_text.as_str());
        m.append("\n");
    }
    m.append("  | \n");
    m.append("Expected one of:\n\t");
    let mut k: usize = 0;
    let ghost head = m@;
    while k < error.expected.len()
        invariant
            k <= error.expected.len(),
            m@ == head + join_rule_names(error.expected@, k as int),
        decreases error.expected.len() - k,
    {
        if k > 0 {
            m.append(", ");
        }
        m.append(error.expected[k].name());
        k = k + 1;
    }
    m
}

} // verus!
