use vstd::prelude::*;

use crate::scalar::{fits_i64, integer_literal_value, is_digit};
use crate::syntax::{SynDocument, SynElement, SynEntry, SynExpr, SynPiece};
use crate::text::hex_digit_value;

verus! {

pub open spec fn is_space(c: char) -> bool {
    c == ' ' || c == '\t' || c == '\n' || c == '\r'
}

pub open spec fn is_ident_start(c: char) -> bool {
    ('a' <= c <= 'z') || ('A' <= c <= 'Z') || c == '_'
}

pub open spec fn is_ident_char(c: char) -> bool {
    is_ident_start(c) || is_digit(c)
}

pub open spec fn is_hex_char(c: char) -> bool {
    hex_digit_value(c) >= 0
}

/// A character that may stand in a bare path segment.
pub open spec fn is_path_char(c: char) -> bool {
    !is_space(c) && c != '=' && c != '.' && c != '\'' && c != '"' && c != '{' && c != '}' && c
        != '[' && c != ']' && c != '$'
}

/// End of the run, from `p`, of characters other than a line break.
pub open spec fn line_end(cs: Seq<char>, p: int) -> int
    decreases cs.len() - p,
{
    if 0 <= p < cs.len() && cs[p] != '\n' {
        line_end(cs, p + 1)
    } else {
        p
    }
}

/// End of the whitespace and `//` comments from `p`.
pub open spec fn ws_end(cs: Seq<char>, p: int) -> int
    decreases cs.len() - p,
{
    if p < 0 || p >= cs.len() {
        p
    } else if is_space(cs[p]) {
        ws_end(cs, p + 1)
    } else if p + 1 < cs.len() && cs[p] == '/' && cs[p + 1] == '/' {
        let q = line_end(cs, p + 2);
        if p < q <= cs.len() {
            ws_end(cs, q)
        } else {
            p
        }
    } else {
        p
    }
}

/// End of the run, from `p`, of identifier characters.
pub open spec fn ident_run_end(cs: Seq<char>, p: int) -> int
    decreases cs.len() - p,
{
    if 0 <= p < cs.len() && is_ident_char(cs[p]) {
        ident_run_end(cs, p + 1)
    } else {
        p
    }
}

/// End of the run, from `p`, of bare path characters.
pub open spec fn path_run_end(cs: Seq<char>, p: int) -> int
    decreases cs.len() - p,
{
    if 0 <= p < cs.len() && is_path_char(cs[p]) {
        path_run_end(cs, p + 1)
    } else {
        p
    }
}

/// End of the run, from `p`, of decimal digits.
pub open spec fn digit_run_end(cs: Seq<char>, p: int) -> int
    decreases cs.len() - p,
{
    if 0 <= p < cs.len() && is_digit(cs[p]) {
        digit_run_end(cs, p + 1)
    } else {
        p
    }
}

/// End of the run, from `p`, of decimal digits and `_`.
pub open spec fn digit_sep_run_end(cs: Seq<char>, p: int) -> int
    decreases cs.len() - p,
{
    if 0 <= p < cs.len() && (is_digit(cs[p]) || cs[p] == '_') {
        digit_sep_run_end(cs, p + 1)
    } else {
        p
    }
}

/// End of the run, from `p`, of hexadecimal digits.
pub open spec fn hex_run_end(cs: Seq<char>, p: int) -> int
    decreases cs.len() - p,
{
    if 0 <= p < cs.len() && is_hex_char(cs[p]) {
        hex_run_end(cs, p + 1)
    } else {
        p
    }
}

/// Whether the characters of `w` stand at `p`.
pub open spec fn word_at(cs: Seq<char>, p: int, w: Seq<char>) -> bool {
    0 <= p && p + w.len() <= cs.len() && cs.subrange(p, p + w.len()) == w
}

/// Whether no identifier character follows at `p`.
pub open spec fn ends_word(cs: Seq<char>, p: int) -> bool {
    !(0 <= p < cs.len() && is_ident_char(cs[p]))
}

/// A reference at `p`: `$`, a letter or `_`, then identifier characters.
pub open spec fn input_at(cs: Seq<char>, p: int) -> Option<(Seq<char>, int)> {
    if 0 <= p && p + 1 < cs.len() && cs[p] == '$' && is_ident_start(cs[p + 1]) {
        let q = ident_run_end(cs, p + 2);
        Some((cs.subrange(p, q), q))
    } else {
        None
    }
}

/// The rest of a quoted path segment from `q`, `acc` read so far: `\'`
/// stands for a quote, other backslashes are dropped, a quote ends it.
pub open spec fn quoted_from(cs: Seq<char>, q: int, acc: Seq<char>) -> Option<(Seq<char>, int)>
    decreases cs.len() - q,
{
    if q < 0 || q >= cs.len() {
        None
    } else if cs[q] == '\'' {
        Some((acc, q + 1))
    } else if cs[q] == '\\' && q + 1 < cs.len() && cs[q + 1] == '\'' {
        quoted_from(cs, q + 2, acc.push('\''))
    } else if cs[q] != '\\' {
        quoted_from(cs, q + 1, acc.push(cs[q]))
    } else {
        quoted_from(cs, q + 1, acc)
    }
}

/// One path segment at `p`: quoted, or a non-empty run of path characters.
pub open spec fn segment_at(cs: Seq<char>, p: int) -> Option<(Seq<char>, int)> {
    if 0 <= p < cs.len() && cs[p] == '\'' {
        quoted_from(cs, p + 1, Seq::empty())
    } else {
        let q = path_run_end(cs, p);
        if q == p {
            None
        } else {
            Some((cs.subrange(p, q), q))
        }
    }
}

/// The rest of a dotted path from `p`, `segs` read so far.
pub open spec fn path_from(cs: Seq<char>, p: int, segs: Seq<Seq<char>>) -> Option<(Seq<Seq<char>>, int)>
    decreases cs.len() - p,
{
    if p < 0 || p > cs.len() {
        None
    } else {
        match segment_at(cs, p) {
            None => None,
            Some((seg, q)) => if !(p < q <= cs.len()) {
                None
            } else if q < cs.len() && cs[q] == '.' && q + 1 < cs.len() {
                path_from(cs, q + 1, segs.push(seg))
            } else {
                Some((segs.push(seg), q))
            },
        }
    }
}

pub open spec fn is_simple_escape(e: char) -> bool {
    e == 'n' || e == 'r' || e == 't' || e == '"' || e == '$' || e == '\\'
}

/// The rest of a string literal from `p`, `acc` read so far, up to and
/// past its closing quote.
pub open spec fn string_from(cs: Seq<char>, p: int, acc: Seq<SynPiece>) -> Option<(Seq<SynPiece>, int)>
    decreases cs.len() - p,
{
    if p < 0 || p >= cs.len() {
        None
    } else if cs[p] == '"' {
        Some((acc, p + 1))
    } else if cs[p] == '$' {
        match input_at(cs, p) {
            Some((name, q)) => if p < q <= cs.len() {
                string_from(cs, q, acc.push(SynPiece::Input(name)))
            } else {
                None
            },
            None => None,
        }
    } else if cs[p] == '\\' {
        if p + 1 >= cs.len() {
            None
        } else if is_simple_escape(cs[p + 1]) {
            string_from(cs, p + 2, acc.push(SynPiece::Char(cs.subrange(p, p + 2))))
        } else if cs[p + 1] == 'u' {
            if cs.len() - p < 6 {
                None
            } else if is_hex_char(cs[p + 2]) && is_hex_char(cs[p + 3]) && is_hex_char(cs[p + 4])
                && is_hex_char(cs[p + 5]) {
                string_from(cs, p + 6, acc.push(SynPiece::Char(cs.subrange(p, p + 6))))
            } else {
                None
            }
        } else {
            None
        }
    } else {
        string_from(cs, p + 1, acc.push(SynPiece::Char(seq![cs[p]])))
    }
}

/// An integer literal `cs[from..to]` as an expression, when it fits.
pub open spec fn integer_token(cs: Seq<char>, from: int, to: int) -> Option<(SynExpr, int)> {
    match integer_literal_value(cs.subrange(from, to)) {
        Some(v) => if fits_i64(v) {
            Some((SynExpr::Integer(v as i64), to))
        } else {
            None
        },
        None => None,
    }
}

/// End of the fraction and exponent after the integer digits ending at
/// `q`, and whether there was one.
pub open spec fn float_tail(cs: Seq<char>, q: int) -> (bool, int) {
    let (f1, q2) = if 0 <= q && q + 1 < cs.len() && cs[q] == '.' && is_digit(cs[q + 1]) {
        (true, digit_run_end(cs, q + 1))
    } else {
        (false, q)
    };
    if 0 <= q2 < cs.len() && (cs[q2] == 'e' || cs[q2] == 'E') {
        let k = if q2 + 1 < cs.len() && (cs[q2 + 1] == '+' || cs[q2 + 1] == '-') {
            q2 + 2
        } else {
            q2 + 1
        };
        if k < cs.len() && is_digit(cs[k]) {
            (true, digit_run_end(cs, k))
        } else {
            (f1, q2)
        }
    } else {
        (f1, q2)
    }
}

/// A number at `pos`: an optional minus, then `0x` and hex digits, or
/// digits with `_`, a fraction and an exponent (a float when either of the
/// last two is there).
pub open spec fn number_at(cs: Seq<char>, pos: int) -> Option<(SynExpr, int)> {
    let p = if 0 <= pos < cs.len() && cs[pos] == '-' {
        pos + 1
    } else {
        pos
    };
    if 0 <= p && p + 1 < cs.len() && cs[p] == '0' && cs[p + 1] == 'x' {
        integer_token(cs, pos, hex_run_end(cs, p + 2))
    } else if !(0 <= p < cs.len() && is_digit(cs[p])) {
        None
    } else {
        let q1 = digit_sep_run_end(cs, p);
        let (is_float, q) = float_tail(cs, q1);
        if q <= pos {
            None
        } else if is_float {
            Some((SynExpr::Float(cs.subrange(pos, q)), q))
        } else {
            integer_token(cs, pos, q)
        }
    }
}

/// Any value at `pos`.
pub open spec fn expr_at(cs: Seq<char>, pos: int) -> Option<(SynExpr, int)>
    decreases cs.len() - pos, 1nat,
{
    if pos < 0 || pos >= cs.len() {
        None
    } else {
        let c = cs[pos];
        if c == '{' {
            let p = ws_end(cs, pos + 1);
            if pos < p <= cs.len() {
                match object_from(cs, p, Seq::empty()) {
                    Some((es, q)) => Some((SynExpr::Object(es), q)),
                    None => None,
                }
            } else {
                None
            }
        } else if c == '[' {
            let p = ws_end(cs, pos + 1);
            if pos < p <= cs.len() {
                match array_from(cs, p, Seq::empty()) {
                    Some((xs, q)) => Some((SynExpr::Array(xs), q)),
                    None => None,
                }
            } else {
                None
            }
        } else if c == '"' {
            match string_from(cs, pos + 1, Seq::empty()) {
                Some((ps, q)) => Some((SynExpr::Str(ps), q)),
                None => None,
            }
        } else if c == '$' {
            match input_at(cs, pos) {
                Some((name, q)) => Some((SynExpr::Input(name), q)),
                None => None,
            }
        } else if c == '-' || is_digit(c) {
            number_at(cs, pos)
        } else if word_at(cs, pos, seq!['t', 'r', 'u', 'e']) {
            Some((SynExpr::Boolean(true), pos + 4))
        } else if word_at(cs, pos, seq!['f', 'a', 'l', 's', 'e']) {
            Some((SynExpr::Boolean(false), pos + 5))
        } else if word_at(cs, pos, seq!['n', 'u', 'l', 'l']) {
            Some((SynExpr::Null, pos + 4))
        } else {
            None
        }
    }
}

/// The rest of an object from `p` (after `{` and whitespace), `acc` read
/// so far, up to and past its `}`.
pub open spec fn object_from(cs: Seq<char>, p: int, acc: Seq<SynEntry>) -> Option<(Seq<SynEntry>, int)>
    decreases cs.len() - p, 0nat,
{
    if p < 0 || p >= cs.len() {
        None
    } else if cs[p] == '}' {
        Some((acc, p + 1))
    } else if cs[p] == '.' && p + 1 < cs.len() && cs[p + 1] == '.' {
        match input_at(cs, ws_end(cs, p + 2)) {
            Some((name, q)) => {
                let q2 = ws_end(cs, q);
                if p < q2 <= cs.len() {
                    object_from(cs, q2, acc.push(SynEntry::Spread(name)))
                } else {
                    None
                }
            },
            None => None,
        }
    } else {
        match path_from(cs, p, Seq::empty()) {
            None => None,
            Some((path, q)) => {
                let q1 = ws_end(cs, q);
                if 0 <= q1 < cs.len() && cs[q1] == '=' {
                    let q2 = ws_end(cs, q1 + 1);
                    if p < q2 <= cs.len() {
                        match expr_at(cs, q2) {
                            Some((v, q3)) => {
                                let q4 = ws_end(cs, q3);
                                if p < q4 <= cs.len() {
                                    object_from(cs, q4, acc.push(SynEntry::Pair(path, v)))
                                } else {
                                    None
                                }
                            },
                            None => None,
                        }
                    } else {
                        None
                    }
                } else {
                    None
                }
            },
        }
    }
}

/// The rest of an array from `p` (after `[` and whitespace), `acc` read so
/// far, up to and past its `]`.
pub open spec fn array_from(cs: Seq<char>, p: int, acc: Seq<SynElement>) -> Option<(Seq<SynElement>, int)>
    decreases cs.len() - p, 2nat,
{
    if p < 0 || p >= cs.len() {
        None
    } else if cs[p] == ']' {
        Some((acc, p + 1))
    } else if cs[p] == '.' && p + 1 < cs.len() && cs[p + 1] == '.' {
        match input_at(cs, ws_end(cs, p + 2)) {
            Some((name, q)) => {
                let q2 = ws_end(cs, q);
                if p < q2 <= cs.len() {
                    array_from(cs, q2, acc.push(SynElement::Spread(name)))
                } else {
                    None
                }
            },
            None => None,
        }
    } else {
        match expr_at(cs, p) {
            Some((v, q)) => {
                let q2 = ws_end(cs, q);
                if p < q2 <= cs.len() {
                    array_from(cs, q2, acc.push(SynElement::Item(v)))
                } else {
                    None
                }
            },
            None => None,
        }
    }
}

/// The rest of a `let` block from `p`, `acc` read so far, up to and past
/// its `}`.
pub open spec fn inputs_from(cs: Seq<char>, p: int, acc: Seq<(Seq<char>, SynExpr)>) -> Option<(Seq<(Seq<char>, SynExpr)>, int)>
    decreases cs.len() - p,
{
    if p < 0 || p > cs.len() {
        None
    } else if p < cs.len() && cs[p] == '}' {
        Some((acc, p + 1))
    } else {
        match input_at(cs, p) {
            Some((name, q)) => {
                let q1 = ws_end(cs, q);
                if 0 <= q1 < cs.len() && cs[q1] == '=' {
                    match expr_at(cs, ws_end(cs, q1 + 1)) {
                        Some((v, q3)) => {
                            let q4 = ws_end(cs, q3);
                            if p < q4 <= cs.len() {
                                inputs_from(cs, q4, acc.push((name, v)))
                            } else {
                                None
                            }
                        },
                        None => None,
                    }
                } else {
                    None
                }
            },
            None => None,
        }
    }
}

/// The declarations of an optional `let { ... } in` block at `p`, and where
/// the text goes on after it.
pub open spec fn let_block_at(cs: Seq<char>, p: int) -> Option<(Seq<(Seq<char>, SynExpr)>, int)> {
    if word_at(cs, p, seq!['l', 'e', 't']) && ends_word(cs, p + 3) {
        let b = ws_end(cs, p + 3);
        if 0 <= b < cs.len() && cs[b] == '{' {
            match inputs_from(cs, ws_end(cs, b + 1), Seq::empty()) {
                Some((ins, q)) => {
                    let q1 = ws_end(cs, q);
                    if word_at(cs, q1, seq!['i', 'n']) && ends_word(cs, q1 + 2) {
                        Some((ins, ws_end(cs, q1 + 2)))
                    } else {
                        None
                    }
                },
                None => None,
            }
        } else {
            None
        }
    } else {
        Some((Seq::empty(), p))
    }
}

/// The document a text denotes, or `None` when the text does not match the
/// grammar: whitespace and `//` comments, an optional `let { $name = value
/// ... } in` block, the top-level object, and nothing after it but
/// whitespace and comments.
pub open spec fn document_of(cs: Seq<char>) -> Option<SynDocument> {
    match let_block_at(cs, ws_end(cs, 0)) {
        None => None,
        Some((ins, p)) => if 0 <= p < cs.len() && cs[p] == '{' {
            match object_from(cs, ws_end(cs, p + 1), Seq::empty()) {
                Some((body, q)) => if ws_end(cs, q) < cs.len() {
                    None
                } else {
                    Some(SynDocument { inputs: ins, body })
                },
                None => None,
            }
        } else {
            None
        },
    }
}

} // verus!
