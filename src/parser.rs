use vstd::prelude::*;

use crate::error::{Error, SyntaxError};
use crate::scalar::parse_integer;
use crate::grammar::{
    array_from, document_of, ends_word as spec_ends_word, expr_at, float_tail, input_at,
    inputs_from, integer_token, is_hex_char, is_ident_char, is_ident_start, is_path_char as spec_path_char,
    is_space as spec_space, let_block_at, line_end, number_at, object_from, path_from,
    quoted_from, ident_run_end, path_run_end, digit_run_end, digit_sep_run_end, hex_run_end, segment_at, string_from, word_at, ws_end,
};
use crate::scalar::is_digit;
use crate::syntax::{
    elements_model, entries_model, inputs_model, lemma_array_model, lemma_object_model, path_view,
    pieces_model, Document, Element, Entry, Expr, Piece, SynElement, SynEntry, SynPiece,
};
use crate::text::{chars_of, string_from_chars};

verus! {

/// The kinds of token that the grammar names, as reported in syntax errors.
#[derive(Debug, Clone, Copy, PartialEq, Eq, Structural)]
pub enum Rule {
    AssignBlock,
    Assignment,
    Object,
    Pair,
    Spread,
    Path,
    Value,
    Array,
    String,
    Char,
    Input,
    Integer,
    Float,
    Boolean,
    Null,
    Eoi,
}

/// A place where the text stopped matching, with what would have fit there.
pub struct Fail {
    pub at: usize,
    pub expected: Vec<Rule>,
}

fn fail(at: usize, expected: Vec<Rule>) -> (f: Fail)
    ensures
        f.at == at,
{
    Fail { at, expected }
}

fn is_space(c: char) -> (r: bool)
    ensures
        r == spec_space(c),
{
    c == ' ' || c == '\t' || c == '\n' || c == '\r'
}

fn ident_start(c: char) -> (r: bool)
    ensures
        r == is_ident_start(c),
{
    ('a' <= c && c <= 'z') || ('A' <= c && c <= 'Z') || c == '_'
}

fn ident_char(c: char) -> (r: bool)
    ensures
        r == is_ident_char(c),
{
    ident_start(c) || ('0' <= c && c <= '9')
}

fn hex_char(c: char) -> (r: bool)
    ensures
        r == is_hex_char(c),
{
    ('0' <= c && c <= '9') || ('a' <= c && c <= 'f') || ('A' <= c && c <= 'F')
}

fn digit_char(c: char) -> (r: bool)
    ensures
        r == is_digit(c),
{
    '0' <= c && c <= '9'
}

fn path_char(c: char) -> (r: bool)
    ensures
        r == spec_path_char(c),
{
    !is_space(c) && c != '=' && c != '.' && c != '\'' && c != '"' && c != '{' && c != '}'
        && c != '[' && c != ']' && c != '$'
}

fn at(cs: &Vec<char>, p: usize, c: char) -> (r: bool)
    ensures
        r == (p < cs.len() && cs@[p as int] == c),
{
    p < cs.len() && cs[p] == c
}

/// Whether the characters of `w` stand in `cs` at `p`.
fn at_word(cs: &Vec<char>, p: usize, w: &Vec<char>) -> (r: bool)
    ensures
        r == word_at(cs@, p as int, w@),
{
    if p > cs.len() || w.len() > cs.len() - p {
        return false;
    }
    let mut i: usize = 0;
    while i < w.len()
        invariant
            i <= w.len(),
            p + w.len() <= cs.len(),
            forall|j: int| 0 <= j < i ==> cs@[p + j] == w@[j],
        decreases w.len() - i,
    {
        if cs[p + i] != w[i] {
            assert(cs@.subrange(p as int, p + w.len())[i as int] != w@[i as int]);
            return false;
        }
        i = i + 1;
    }
    assert(cs@.subrange(p as int, p + w.len()) =~= w@);
    true
}

/// The characters `cs[from..to]` as a string.
fn slice_string(cs: &Vec<char>, from: usize, to: usize) -> (r: String)
    requires
        from <= to <= cs.len(),
    ensures
        r@ == cs@.subrange(from as int, to as int),
{
    let v = slice_chars(cs, from, to);
    string_from_chars(&v)
}

fn slice_chars(cs: &Vec<char>, from: usize, to: usize) -> (r: Vec<char>)
    requires
        from <= to <= cs.len(),
    ensures
        r@ == cs@.subrange(from as int, to as int),
{
    let mut out: Vec<char> = Vec::new();
    let mut i: usize = from;
    while i < to
        invariant
            from <= i <= to,
            to <= cs.len(),
            out@ == cs@.subrange(from as int, i as int),
        decreases to - i,
    {
        out.push(cs[i]);
        i = i + 1;
        assert(out@ =~= cs@.subrange(from as int, i as int));
    }
    out
}

/// Skips whitespace and `//` comments.
fn skip_ws(cs: &Vec<char>, pos: usize) -> (r: usize)
    requires
        pos <= cs.len(),
    ensures
        pos <= r <= cs.len(),
        r == ws_end(cs@, pos as int),
{
    let mut p = pos;
    loop
        invariant
            pos <= p <= cs.len(),
            ws_end(cs@, p as int) == ws_end(cs@, pos as int),
        decreases cs.len() - p,
    {
        let ghost start = p;
        if p < cs.len() && is_space(cs[p]) {
            p = p + 1;
        } else if cs.len() - p >= 2 && cs[p] == '/' && cs[p + 1] == '/' {
            p = p + 2;
            while p < cs.len() && cs[p] != '\n'
                invariant
                    pos <= p <= cs.len(),
                    start + 2 <= p,
                    line_end(cs@, p as int) == line_end(cs@, start + 2),
                decreases cs.len() - p,
            {
                p = p + 1;
            }
        } else {
            return p;
        }
    }
}

/// End of the run from `p` of identifier characters.
fn ident_run(cs: &Vec<char>, p0: usize) -> (r: usize)
    requires
        p0 <= cs.len(),
    ensures
        p0 <= r <= cs.len(),
        r == ident_run_end(cs@, p0 as int),
{
    let mut p = p0;
    while p < cs.len() && ident_char(cs[p])
        invariant
            p0 <= p <= cs.len(),
            ident_run_end(cs@, p as int) == ident_run_end(cs@, p0 as int),
        decreases cs.len() - p,
    {
        p = p + 1;
    }
    p
}

/// `$name`: a reference to an input, sigil included.
fn parse_input(cs: &Vec<char>, pos: usize) -> (r: Result<(String, usize), Fail>)
    requires
        pos <= cs.len(),
    ensures
        match r {
            Ok((name, p)) => pos < p <= cs.len() && input_at(cs@, pos as int) == Some((name@, p as int)),
            Err(f) => f.at <= cs.len() && input_at(cs@, pos as int) is None,
        },
{
    if !(at(cs, pos, '$') && pos + 1 < cs.len() && ident_start(cs[pos + 1])) {
        return Err(fail(pos, vec![Rule::Input]));
    }
    let p = ident_run(cs, pos + 2);
    Ok((slice_string(cs, pos, p), p))
}

/// `..$name`, from the first dot.
fn parse_spread(cs: &Vec<char>, pos: usize) -> (r: Result<(String, usize), Fail>)
    requires
        pos + 2 <= cs.len(),
    ensures
        match r {
            Ok((name, p)) => pos < p <= cs.len() && input_at(cs@, ws_end(cs@, pos + 2)) == Some((name@, p as int)),
            Err(f) => f.at <= cs.len() && input_at(cs@, ws_end(cs@, pos + 2)) is None,
        },
{
    let p = skip_ws(cs, pos + 2);
    parse_input(cs, p)
}

/// A quoted path segment from after its opening quote: `\'` stands for a
/// quote and other backslashes are dropped.
fn parse_quoted(cs: &Vec<char>, start: usize) -> (r: Result<(String, usize), Fail>)
    requires
        start <= cs.len(),
    ensures
        match r {
            Ok((seg, p)) => start < p <= cs.len() && quoted_from(cs@, start as int, Seq::empty()) == Some((seg@, p as int)),
            Err(f) => f.at <= cs.len() && quoted_from(cs@, start as int, Seq::empty()) is None,
        },
{
    let mut q = start;
    let mut seg: Vec<char> = Vec::new();
    while q < cs.len() && cs[q] != '\''
        invariant
            start <= q <= cs.len(),
            quoted_from(cs@, q as int, seg@) == quoted_from(cs@, start as int, Seq::empty()),
        decreases cs.len() - q,
    {
        if cs[q] == '\\' && q + 1 < cs.len() && cs[q + 1] == '\'' {
            seg.push('\'');
            q = q + 2;
        } else if cs[q] != '\\' {
            seg.push(cs[q]);
            q = q + 1;
        } else {
            q = q + 1;
        }
    }
    if q >= cs.len() {
        return Err(fail(cs.len(), vec![Rule::Path]));
    }
    Ok((string_from_chars(&seg), q + 1))
}

/// A dotted path: segments bare or in single quotes, split at the dots.
fn parse_path(cs: &Vec<char>, pos: usize) -> (r: Result<(Vec<String>, usize), Fail>)
    requires
        pos <= cs.len(),
    ensures
        match r {
            Ok((segs, p)) => pos < p <= cs.len() && path_from(cs@, pos as int, Seq::empty()) == Some((path_view(segs@), p as int)),
            Err(f) => f.at <= cs.len() && path_from(cs@, pos as int, Seq::empty()) is None,
        },
{
    let mut segs: Vec<String> = Vec::new();
    let mut p = pos;
    assert(path_view(segs@) =~= Seq::<Seq<char>>::empty());
    loop
        invariant
            pos <= p <= cs.len(),
            segs.len() >= 1 ==> pos < p,
            path_from(cs@, p as int, path_view(segs@)) == path_from(cs@, pos as int, Seq::empty()),
        decreases cs.len() - p,
    {
        let ghost before = path_view(segs@);
        let q: usize;
        if at(cs, p, '\'') {
            let (seg, q1) = parse_quoted(cs, p + 1)?;
            segs.push(seg);
            q = q1;
        } else {
            let mut k = p;
            while k < cs.len() && path_char(cs[k])
                invariant
                    p <= k <= cs.len(),
                    path_run_end(cs@, k as int) == path_run_end(cs@, p as int),
                decreases cs.len() - k,
            {
                k = k + 1;
            }
            if k == p {
                return Err(fail(p, vec![Rule::Path]));
            }
            segs.push(slice_string(cs, p, k));
            q = k;
        }
        assert(path_view(segs@) =~= before.push(segs@.last()@));
        assert(segment_at(cs@, p as int) == Some((segs@.last()@, q as int)));
        if at(cs, q, '.') && q + 1 < cs.len() {
            p = q + 1;
        } else {
            return Ok((segs, q));
        }
    }
}

/// A string literal from its opening quote: characters, escapes and
/// interpolated inputs.
fn parse_string_literal(cs: &Vec<char>, pos: usize) -> (r: Result<(Vec<Piece>, usize), Fail>)
    requires
        pos < cs.len(),
    ensures
        match r {
            Ok((ps, p)) => pos < p <= cs.len() && string_from(cs@, pos + 1, Seq::empty()) == Some((pieces_model(ps@), p as int)),
            Err(f) => f.at <= cs.len() && string_from(cs@, pos + 1, Seq::empty()) is None,
        },
{
    let mut pieces: Vec<Piece> = Vec::new();
    let mut p = pos + 1;
    assert(pieces_model(pieces@) =~= Seq::<SynPiece>::empty());
    loop
        invariant
            pos < p <= cs.len(),
            string_from(cs@, p as int, pieces_model(pieces@)) == string_from(cs@, pos + 1, Seq::empty()),
        decreases cs.len() - p,
    {
        let ghost before = pieces_model(pieces@);
        if p >= cs.len() {
            return Err(fail(p, vec![Rule::Char, Rule::Input]));
        }
        let c = cs[p];
        if c == '"' {
            return Ok((pieces, p + 1));
        } else if c == '$' {
            let (name, q) = parse_input(cs, p)?;
            let ghost nv = name@;
            pieces.push(Piece::Input(name));
            assert(pieces_model(pieces@) =~= before.push(SynPiece::Input(nv)));
            p = q;
        } else if c == '\\' {
            if p + 1 >= cs.len() {
                return Err(fail(p + 1, vec![Rule::Char]));
            }
            let e = cs[p + 1];
            if e == 'n' || e == 'r' || e == 't' || e == '"' || e == '$' || e == '\\' {
                let raw = slice_chars(cs, p, p + 2);
                let ghost rv = raw@;
                pieces.push(Piece::Char(raw));
                assert(pieces_model(pieces@) =~= before.push(SynPiece::Char(rv)));
                p = p + 2;
            } else if e == 'u' {
                if cs.len() - p < 6 {
                    return Err(fail(p, vec![Rule::Char]));
                }
                if !(hex_char(cs[p + 2]) && hex_char(cs[p + 3]) && hex_char(cs[p + 4]) && hex_char(cs[p + 5])) {
                    return Err(fail(p + 2, vec![Rule::Char]));
                }
                let raw = slice_chars(cs, p, p + 6);
                let ghost rv = raw@;
                pieces.push(Piece::Char(raw));
                assert(pieces_model(pieces@) =~= before.push(SynPiece::Char(rv)));
                p = p + 6;
            } else {
                return Err(fail(p, vec![Rule::Char]));
            }
        } else {
            let raw = vec![c];
            assert(raw@ =~= seq![c]);
            pieces.push(Piece::Char(raw));
            assert(pieces_model(pieces@) =~= before.push(SynPiece::Char(seq![c])));
            p = p + 1;
        }
    }
}

fn in_run(c: char, kind: u8) -> (r: bool)
    ensures
        kind == 0 ==> r == is_digit(c),
        kind == 1 ==> r == (is_digit(c) || c == '_'),
        kind == 2 ==> r == is_hex_char(c),
{
    if kind == 0 {
        digit_char(c)
    } else if kind == 1 {
        digit_char(c) || c == '_'
    } else {
        hex_char(c)
    }
}

/// End of the run from `p0` of characters that `kind` selects: 0 for
/// digits, 1 for digits and `_`, 2 for hexadecimal digits.
fn digit_run(cs: &Vec<char>, p0: usize, kind: u8) -> (r: usize)
    requires
        p0 <= cs.len(),
    ensures
        p0 <= r <= cs.len(),
        kind == 0 ==> r == digit_run_end(cs@, p0 as int),
        kind == 1 ==> r == digit_sep_run_end(cs@, p0 as int),
        kind == 2 ==> r == hex_run_end(cs@, p0 as int),
{
    let mut p = p0;
    while p < cs.len() && in_run(cs[p], kind)
        invariant
            p0 <= p <= cs.len(),
            kind == 0 ==> digit_run_end(cs@, p as int) == digit_run_end(cs@, p0 as int),
            kind == 1 ==> digit_sep_run_end(cs@, p as int) == digit_sep_run_end(cs@, p0 as int),
            kind == 2 ==> hex_run_end(cs@, p as int) == hex_run_end(cs@, p0 as int),
        decreases cs.len() - p,
    {
        p = p + 1;
    }
    p
}

/// The integer literal `cs[from..to]` as an expression.
fn integer_expr(cs: &Vec<char>, from: usize, to: usize) -> (r: Result<(Expr, usize), Fail>)
    requires
        from < to <= cs.len(),
    ensures
        match r {
            Ok((e, p)) => p == to && integer_token(cs@, from as int, to as int) == Some((e@, p as int)),
            Err(f) => f.at <= cs.len() && integer_token(cs@, from as int, to as int) is None,
        },
{
    let lit = slice_chars(cs, from, to);
    match parse_integer(&lit) {
        Some(n) => Ok((Expr::Integer(n), to)),
        None => Err(fail(from, vec![Rule::Integer])),
    }
}

/// An integer (decimal or `0x` hexadecimal) or a float.
fn parse_number(cs: &Vec<char>, pos: usize) -> (r: Result<(Expr, usize), Fail>)
    requires
        pos < cs.len(),
    ensures
        match r {
            Ok((e, p)) => pos < p <= cs.len() && number_at(cs@, pos as int) == Some((e@, p as int)),
            Err(f) => f.at <= cs.len() && number_at(cs@, pos as int) is None,
        },
{
    let mut p = pos;
    if at(cs, p, '-') {
        p = p + 1;
    }
    if at(cs, p, '0') && at(cs, p + 1, 'x') {
        let q = digit_run(cs, p + 2, 2);
        return integer_expr(cs, pos, q);
    }
    if !(p < cs.len() && digit_char(cs[p])) {
        return Err(fail(p, vec![Rule::Integer, Rule::Float]));
    }
    let q1 = digit_run(cs, p, 1);
    let mut is_float = false;
    let mut q = q1;
    if cs.len() - q1 > 1 && cs[q1] == '.' && digit_char(cs[q1 + 1]) {
        is_float = true;
        q = digit_run(cs, q1 + 1, 0);
    }
    if at(cs, q, 'e') || at(cs, q, 'E') {
        let k = if q + 1 < cs.len() && (cs[q + 1] == '+' || cs[q + 1] == '-') {
            q + 2
        } else {
            q + 1
        };
        if k < cs.len() && digit_char(cs[k]) {
            is_float = true;
            q = digit_run(cs, k, 0);
        }
    }
    assert(float_tail(cs@, q1 as int) == (is_float, q as int));
    if q <= pos {
        return Err(fail(pos, vec![Rule::Integer, Rule::Float]));
    }
    if is_float {
        return Ok((Expr::Float(slice_string(cs, pos, q)), q));
    }
    integer_expr(cs, pos, q)
}

fn word_true() -> (w: Vec<char>)
    ensures
        w@ == seq!['t', 'r', 'u', 'e'],
{
    let w = vec!['t', 'r', 'u', 'e'];
    assert(w@ =~= seq!['t', 'r', 'u', 'e']);
    w
}

fn word_false() -> (w: Vec<char>)
    ensures
        w@ == seq!['f', 'a', 'l', 's', 'e'],
{
    let w = vec!['f', 'a', 'l', 's', 'e'];
    assert(w@ =~= seq!['f', 'a', 'l', 's', 'e']);
    w
}

fn word_null() -> (w: Vec<char>)
    ensures
        w@ == seq!['n', 'u', 'l', 'l'],
{
    let w = vec!['n', 'u', 'l', 'l'];
    assert(w@ =~= seq!['n', 'u', 'l', 'l']);
    w
}

fn word_let() -> (w: Vec<char>)
    ensures
        w@ == seq!['l', 'e', 't'],
{
    let w = vec!['l', 'e', 't'];
    assert(w@ =~= seq!['l', 'e', 't']);
    w
}

fn word_in() -> (w: Vec<char>)
    ensures
        w@ == seq!['i', 'n'],
{
    let w = vec!['i', 'n'];
    assert(w@ =~= seq!['i', 'n']);
    w
}

fn value_rules() -> Vec<Rule> {
    vec![
        Rule::Object,
        Rule::Array,
        Rule::Input,
        Rule::String,
        Rule::Float,
        Rule::Integer,
        Rule::Boolean,
        Rule::Null,
    ]
}

/// Any value expression.
fn parse_expr(cs: &Vec<char>, pos: usize) -> (r: Result<(Expr, usize), Fail>)
    requires
        pos <= cs.len(),
    ensures
        match r {
            Ok((e, p)) => pos < p <= cs.len() && expr_at(cs@, pos as int) == Some((e@, p as int)),
            Err(f) => f.at <= cs.len() && expr_at(cs@, pos as int) is None,
        },
    decreases cs.len() - pos, 1nat,
{
    if pos >= cs.len() {
        return Err(fail(pos, value_rules()));
    }
    let c = cs[pos];
    if c == '{' {
        let (es, p) = parse_object(cs, pos)?;
        proof {
            lemma_object_model(es);
        }
        Ok((Expr::Object(es), p))
    } else if c == '[' {
        let (xs, p) = parse_array(cs, pos)?;
        proof {
            lemma_array_model(xs);
        }
        Ok((Expr::Array(xs), p))
    } else if c == '"' {
        let (ps, p) = parse_string_literal(cs, pos)?;
        Ok((Expr::Str(ps), p))
    } else if c == '$' {
        let (name, p) = parse_input(cs, pos)?;
        Ok((Expr::Input(name), p))
    } else if c == '-' || digit_char(c) {
        parse_number(cs, pos)
    } else if at_word(cs, pos, &word_true()) {
        Ok((Expr::Boolean(true), pos + 4))
    } else if at_word(cs, pos, &word_false()) {
        Ok((Expr::Boolean(false), pos + 5))
    } else if at_word(cs, pos, &word_null()) {
        Ok((Expr::Null, pos + 4))
    } else {
        Err(fail(pos, value_rules()))
    }
}

/// `{ entries }`: pairs `path = value` and spreads `..$name`.
fn parse_object(cs: &Vec<char>, pos: usize) -> (r: Result<(Vec<Entry>, usize), Fail>)
    requires
        pos < cs.len(),
    ensures
        pos < ws_end(cs@, pos + 1) <= cs.len(),
        match r {
            Ok((es, p)) => pos < p <= cs.len() && object_from(cs@, ws_end(cs@, pos + 1), Seq::empty()) == Some((entries_model(es@), p as int)),
            Err(f) => f.at <= cs.len() && object_from(cs@, ws_end(cs@, pos + 1), Seq::empty()) is None,
        },
    decreases cs.len() - pos, 0nat,
{
    let mut entries: Vec<Entry> = Vec::new();
    let mut p = skip_ws(cs, pos + 1);
    let ghost p0 = p as int;
    assert(entries_model(entries@) =~= Seq::<SynEntry>::empty());
    loop
        invariant
            pos < p <= cs.len(),
            p0 == ws_end(cs@, pos + 1),
            pos < p0 <= cs.len(),
            object_from(cs@, p as int, entries_model(entries@)) == object_from(cs@, p0, Seq::empty()),
        decreases cs.len() - p,
    {
        let ghost before = entries_model(entries@);
        if p >= cs.len() {
            return Err(fail(p, vec![Rule::Pair, Rule::Spread]));
        }
        if cs[p] == '}' {
            return Ok((entries, p + 1));
        }
        if at(cs, p, '.') && at(cs, p + 1, '.') {
            let (name, q) = parse_spread(cs, p)?;
            let ghost nv = name@;
            entries.push(Entry::Spread(name));
            assert(entries_model(entries@) =~= before.push(SynEntry::Spread(nv)));
            p = skip_ws(cs, q);
        } else {
            let (path, q) = parse_path(cs, p)?;
            let q = skip_ws(cs, q);
            if !at(cs, q, '=') {
                return Err(fail(q, vec![Rule::Pair]));
            }
            let q = skip_ws(cs, q + 1);
            let (v, q) = parse_expr(cs, q)?;
            let ghost en = SynEntry::Pair(path_view(path@), v@);
            entries.push(Entry::Pair(path, v));
            assert(entries_model(entries@) =~= before.push(en));
            p = skip_ws(cs, q);
        }
    }
}

/// `[ elements ]`: values and spreads `..$name`.
fn parse_array(cs: &Vec<char>, pos: usize) -> (r: Result<(Vec<Element>, usize), Fail>)
    requires
        pos < cs.len(),
    ensures
        pos < ws_end(cs@, pos + 1) <= cs.len(),
        match r {
            Ok((xs, p)) => pos < p <= cs.len() && array_from(cs@, ws_end(cs@, pos + 1), Seq::empty()) == Some((elements_model(xs@), p as int)),
            Err(f) => f.at <= cs.len() && array_from(cs@, ws_end(cs@, pos + 1), Seq::empty()) is None,
        },
    decreases cs.len() - pos, 0nat,
{
    let mut elements: Vec<Element> = Vec::new();
    let mut p = skip_ws(cs, pos + 1);
    let ghost p0 = p as int;
    assert(elements_model(elements@) =~= Seq::<SynElement>::empty());
    loop
        invariant
            pos < p <= cs.len(),
            p0 == ws_end(cs@, pos + 1),
            pos < p0 <= cs.len(),
            array_from(cs@, p as int, elements_model(elements@)) == array_from(cs@, p0, Seq::empty()),
        decreases cs.len() - p,
    {
        let ghost before = elements_model(elements@);
        if p >= cs.len() {
            return Err(fail(p, value_rules()));
        }
        if cs[p] == ']' {
            return Ok((elements, p + 1));
        }
        if at(cs, p, '.') && at(cs, p + 1, '.') {
            let (name, q) = parse_spread(cs, p)?;
            let ghost nv = name@;
            elements.push(Element::Spread(name));
            assert(elements_model(elements@) =~= before.push(SynElement::Spread(nv)));
            p = skip_ws(cs, q);
        } else {
            let (v, q) = parse_expr(cs, p)?;
            let ghost vv = v@;
            elements.push(Element::Item(v));
            assert(elements_model(elements@) =~= before.push(SynElement::Item(vv)));
            p = skip_ws(cs, q);
        }
    }
}

/// Whether no identifier character follows at `p`.
fn ends_word(cs: &Vec<char>, p: usize) -> (r: bool)
    ensures
        r == spec_ends_word(cs@, p as int),
{
    !(p < cs.len() && ident_char(cs[p]))
}

/// The declarations of a `let` block from after its `{`.
fn parse_inputs(cs: &Vec<char>, start: usize) -> (r: Result<(Vec<(String, Expr)>, usize), Fail>)
    requires
        start <= cs.len(),
    ensures
        match r {
            Ok((ins, p)) => p <= cs.len() && inputs_from(cs@, start as int, Seq::empty()) == Some((inputs_model(ins@), p as int)),
            Err(f) => f.at <= cs.len() && inputs_from(cs@, start as int, Seq::empty()) is None,
        },
{
    let mut inputs: Vec<(String, Expr)> = Vec::new();
    let mut p = start;
    assert(inputs_model(inputs@) =~= Seq::<(Seq<char>, crate::syntax::SynExpr)>::empty());
    loop
        invariant
            p <= cs.len(),
            inputs_from(cs@, p as int, inputs_model(inputs@)) == inputs_from(cs@, start as int, Seq::empty()),
        decreases cs.len() - p,
    {
        let ghost before = inputs_model(inputs@);
        if at(cs, p, '}') {
            return Ok((inputs, p + 1));
        }
        let (name, q) = parse_input(cs, p)?;
        let q = skip_ws(cs, q);
        if !at(cs, q, '=') {
            return Err(fail(q, vec![Rule::Assignment]));
        }
        let q = skip_ws(cs, q + 1);
        let (v, q) = parse_expr(cs, q)?;
        let ghost item = (name@, v@);
        inputs.push((name, v));
        assert(inputs_model(inputs@) =~= before.push(item));
        p = skip_ws(cs, q);
    }
}

/// A whole document: an optional `let { $name = value ... } in` block, then
/// the top-level object, then nothing but whitespace and comments.
fn parse_chars(cs: &Vec<char>) -> (r: Result<Document, Fail>)
    ensures
        match r {
            Ok(d) => document_of(cs@) == Some(d@),
            Err(f) => f.at <= cs.len() && document_of(cs@) is None,
        },
{
    let mut inputs: Vec<(String, Expr)> = Vec::new();
    let mut p = skip_ws(cs, 0);
    let ghost p0 = p as int;
    if at_word(cs, p, &word_let()) && ends_word(cs, p + 3) {
        p = skip_ws(cs, p + 3);
        if !at(cs, p, '{') {
            return Err(fail(p, vec![Rule::AssignBlock]));
        }
        let b = skip_ws(cs, p + 1);
        let (ins, q) = parse_inputs(cs, b)?;
        inputs = ins;
        p = skip_ws(cs, q);
        if !(at_word(cs, p, &word_in()) && ends_word(cs, p + 2)) {
            return Err(fail(p, vec![Rule::AssignBlock]));
        }
        p = skip_ws(cs, p + 2);
    } else {
        assert(inputs_model(inputs@) =~= Seq::<(Seq<char>, crate::syntax::SynExpr)>::empty());
    }
    assert(let_block_at(cs@, p0) == Some((inputs_model(inputs@), p as int)));
    if !at(cs, p, '{') {
        return Err(fail(p, vec![Rule::Object]));
    }
    let (body, q) = parse_object(cs, p)?;
    let q = skip_ws(cs, q);
    if q < cs.len() {
        return Err(fail(q, vec![Rule::Eoi]));
    }
    Ok(Document { inputs, body })
}

/// 1-based line and column of position `at`.
fn line_col(cs: &Vec<char>, at: usize) -> (r: (usize, usize))
    requires
        at <= cs.len(),
        at < usize::MAX,
    ensures
        1 <= r.0 <= at + 1,
        1 <= r.1 <= at + 1,
{
    let mut line: usize = 1;
    let mut col: usize = 1;
    let mut i: usize = 0;
    while i < at
        invariant
            i <= at <= cs.len(),
            at < usize::MAX,
            1 <= line <= i + 1,
            1 <= col <= i + 1,
        decreases at - i,
    {
        if cs[i] == '\n' {
            line = line + 1;
            col = 1;
        } else {
            col = col + 1;
        }
        assert(line <= i + 2);
        i = i + 1;
    }
    (line, col)
}

/// The grammar of the configuration language.
pub struct AstParser;

impl AstParser {
    /// Reads the syntax of a document. A text that does not match the
    /// grammar gives a syntax error with its place and what was expected there.
    pub fn parse(text: &str) -> (r: Result<Document, Error>)
        ensures
            r matches Ok(d) ==> document_of(text@) == Some(d@),
            r is Err <==> document_of(text@) is None,
            r matches Err(e) ==> e is ParserError,
            r matches Err(Error::ParserError(e)) ==> e.offset <= text@.len() && e.line >= 1 && e.column >= 1,
    {
        parse_document(text)
    }
}

fn parse_document(text: &str) -> (r: Result<Document, Error>)
    ensures
        r matches Ok(d) ==> document_of(text@) == Some(d@),
        r is Err <==> document_of(text@) is None,
        r matches Err(e) ==> e is ParserError,
        r matches Err(Error::ParserError(e)) ==> e.offset <= text@.len() && e.line >= 1 && e.column >= 1,
{
    let cs = chars_of(text);
    match parse_chars(&cs) {
        Ok(d) => Ok(d),
        Err(f) => {
            let (line, column) = if f.at < usize::MAX {
                line_col(&cs, f.at)
            } else {
                (1, 1)
            };
            Err(Error::ParserError(SyntaxError { line, column, offset: f.at, expected: f.expected }))
        },
    }
}

} // verus!
