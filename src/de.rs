use vstd::prelude::*;

use crate::error::{decimal, digit_char, Error, Fault};
use crate::text::{chars_of, string_from_chars};
use crate::parser::AstParser;
use crate::resolve::{eval_document, resolve_document, Env};
use crate::grammar::document_of;
use crate::value::{
    entries_view, keys_unique, lemma_array_view, lemma_element_smaller, lemma_entry_smaller,
    lemma_insert_new_key, object_entries, values_view, val_size, ObjectMap, Val, Value,
};

verus! {

/// The shape a target type asks for.
#[derive(Debug, Clone, Copy, PartialEq, Eq, Structural)]
pub enum Request {
    /// Whatever the value is (also used to skip a value).
    Any,
    Bool,
    I8,
    I16,
    I32,
    I64,
    U8,
    U16,
    U32,
    U64,
    F32,
    F64,
    Char,
    /// A string, or an identifier.
    Str,
    Bytes,
    Option,
    /// `()` or a unit struct.
    Unit,
    NewtypeStruct,
    /// A sequence, a tuple or a tuple struct.
    Sequence,
    /// A map or a struct.
    Mapping,
    Enum,
}

/// How a variant of an enum is shaped.
#[derive(Debug, Clone, Copy, PartialEq, Eq, Structural)]
pub enum VariantShape {
    Unit,
    Newtype,
    Tuple,
    Struct,
}

/// The visitor call that answers a request, with what it is handed.
#[derive(Debug, PartialEq)]
pub enum Visit {
    /// Entries in insertion order: each key as a string, then its value.
    Mapping(Vec<(String, Value)>),
    Sequence(Vec<Value>),
    Str(String),
    /// The UTF-8 bytes of the string.
    Bytes(String),
    Char(char),
    Bool(bool),
    /// An integer, for a 64-bit signed target or for any value.
    Integer(i64),
    /// An integer cut down to a narrower or unsigned target: its low bits,
    /// with no range check.
    I8(i8),
    I16(i16),
    I32(i32),
    U8(u8),
    U16(u16),
    U32(u32),
    U64(u64),
    /// The text of a float literal.
    Float(String),
    Unit,
    Absent,
    Present(Value),
    Newtype(Value),
    /// A variant tag and what the variant holds, if anything.
    Enum(String, Option<Value>),
}

/// The model of a visitor call.
pub ghost enum Answer {
    Mapping(Seq<(Seq<char>, Val)>),
    Sequence(Seq<Val>),
    Str(Seq<char>),
    Bytes(Seq<char>),
    Char(char),
    Bool(bool),
    Integer(i64),
    I8(i8),
    I16(i16),
    I32(i32),
    U8(u8),
    U16(u16),
    U32(u32),
    U64(u64),
    Float(Seq<char>),
    Unit,
    Absent,
    Present(Val),
    Newtype(Val),
    Enum(Seq<char>, Option<Val>),
}

impl Visit {
    pub open spec fn view(&self) -> Answer {
        match self {
            Visit::Mapping(es) => Answer::Mapping(entries_view(es@)),
            Visit::Sequence(vs) => Answer::Sequence(values_view(vs@)),
            Visit::Str(s) => Answer::Str(s@),
            Visit::Bytes(s) => Answer::Bytes(s@),
            Visit::Char(c) => Answer::Char(*c),
            Visit::Bool(b) => Answer::Bool(*b),
            Visit::Integer(n) => Answer::Integer(*n),
            Visit::I8(n) => Answer::I8(*n),
            Visit::I16(n) => Answer::I16(*n),
            Visit::I32(n) => Answer::I32(*n),
            Visit::U8(n) => Answer::U8(*n),
            Visit::U16(n) => Answer::U16(*n),
            Visit::U32(n) => Answer::U32(*n),
            Visit::U64(n) => Answer::U64(*n),
            Visit::Float(s) => Answer::Float(s@),
            Visit::Unit => Answer::Unit,
            Visit::Absent => Answer::Absent,
            Visit::Present(v) => Answer::Present(v@),
            Visit::Newtype(v) => Answer::Newtype(v@),
            Visit::Enum(t, c) => Answer::Enum(
                t@,
                match c {
                    Some(v) => Some(v@),
                    None => None,
                },
            ),
        }
    }
}

/// The name of a value's kind, as error messages give it.
pub open spec fn kind_name(v: Val) -> Seq<char> {
    match v {
        Val::Object(_) => "object"@,
        Val::Array(_) => "array"@,
        Val::Str(_) => "string"@,
        Val::Integer(_) => "integer"@,
        Val::Float(_) => "float"@,
        Val::Boolean(_) => "boolean"@,
        Val::Null => "null"@,
    }
}

/// The name of what a request expects, as error messages give it.
pub open spec fn expected_name(req: Request) -> Seq<char> {
    match req {
        Request::Any => "any value"@,
        Request::Bool => "boolean"@,
        Request::I8 => "integer (i8)"@,
        Request::I16 => "integer (i16)"@,
        Request::I32 => "integer (i32)"@,
        Request::I64 => "integer (i64)"@,
        Request::U8 => "integer (u8)"@,
        Request::U16 => "integer (u16)"@,
        Request::U32 => "integer (u32)"@,
        Request::U64 => "integer (u64)"@,
        Request::F32 => "float (f32)"@,
        Request::F64 => "float (f64)"@,
        Request::Char => "char"@,
        Request::Str => "string"@,
        Request::Bytes => "bytes array"@,
        Request::Option => "any value"@,
        Request::Unit => "null"@,
        Request::NewtypeStruct => "any value"@,
        Request::Sequence => "array"@,
        Request::Mapping => "object"@,
        Request::Enum => "object or string (enum variant)"@,
    }
}

/// The message of a type mismatch: what was expected, and the value found
/// in its debug form.
pub open spec fn mismatch(expected: Seq<char>, found: Seq<char>) -> Seq<char> {
    "Expected "@ + expected + ", found '"@ + found + "'"@
}

/// One character of a string in debug form.
pub open spec fn escape_char(c: char) -> Seq<char> {
    if c == '"' {
        seq!['\\', '"']
    } else if c == '\\' {
        seq!['\\', '\\']
    } else if c == '\n' {
        seq!['\\', 'n']
    } else if c == '\r' {
        seq!['\\', 'r']
    } else if c == '\t' {
        seq!['\\', 't']
    } else if c == '\0' {
        seq!['\\', '0']
    } else {
        seq![c]
    }
}

/// The first `n` characters of `s` in debug form.
pub open spec fn escaped(s: Seq<char>, n: int) -> Seq<char>
    decreases n,
{
    if n <= 0 || n > s.len() {
        Seq::empty()
    } else {
        escaped(s, n - 1) + escape_char(s[n - 1])
    }
}

/// A string in debug form: in double quotes, with `"`, `\`, and the line
/// break, carriage return, tab and NUL characters escaped.
pub open spec fn quoted(s: Seq<char>) -> Seq<char> {
    seq!['"'] + escaped(s, s.len() as int) + seq!['"']
}

pub open spec fn signed_decimal(n: i64) -> Seq<char> {
    if n < 0 {
        seq!['-'] + decimal((-(n as int)) as nat)
    } else {
        decimal(n as nat)
    }
}

/// A value in debug form, as `{:?}` shows the value tree: `Integer(1)`,
/// `Boolean(true)`, `Null(None)`, `String("a")`, `Float(1.5)` (the float as
/// written), `Array([Integer(1), Null(None)])`, `Object({"k": Integer(1)})`.
pub open spec fn debug_text(v: Val) -> Seq<char>
    decreases v,
{
    match v {
        Val::Object(es) => "Object({"@ + debug_entries(es, es.len() as int) + "})"@,
        Val::Array(vs) => "Array(["@ + debug_items(vs, vs.len() as int) + "])"@,
        Val::Str(s) => "String("@ + quoted(s) + ")"@,
        Val::Integer(n) => "Integer("@ + signed_decimal(n) + ")"@,
        Val::Float(s) => "Float("@ + s + ")"@,
        Val::Boolean(b) => if b {
            "Boolean(true)"@
        } else {
            "Boolean(false)"@
        },
        Val::Null => "Null(None)"@,
    }
}

/// The first `n` entries in debug form, separated by `, `.
pub open spec fn debug_entries(es: Seq<(Seq<char>, Val)>, n: int) -> Seq<char>
    decreases es, n,
{
    if n <= 0 || n > es.len() {
        Seq::empty()
    } else if n == 1 {
        quoted(es[0].0) + ": "@ + debug_text(es[0].1)
    } else {
        debug_entries(es, n - 1) + ", "@ + quoted(es[n - 1].0) + ": "@ + debug_text(es[n - 1].1)
    }
}

/// The first `n` elements in debug form, separated by `, `.
pub open spec fn debug_items(vs: Seq<Val>, n: int) -> Seq<char>
    decreases vs, n,
{
    if n <= 0 || n > vs.len() {
        Seq::empty()
    } else if n == 1 {
        debug_text(vs[0])
    } else {
        debug_items(vs, n - 1) + ", "@ + debug_text(vs[n - 1])
    }
}

pub open spec fn is_integer_request(req: Request) -> bool {
    req == Request::I8 || req == Request::I16 || req == Request::I32 || req == Request::I64
        || req == Request::U8 || req == Request::U16 || req == Request::U32 || req == Request::U64
}

/// An integer cut to the width a request names (its low bits).
pub open spec fn narrowed(n: i64, req: Request) -> Answer {
    match req {
        Request::I8 => Answer::I8(n as i8),
        Request::I16 => Answer::I16(n as i16),
        Request::I32 => Answer::I32(n as i32),
        Request::U8 => Answer::U8(n as u8),
        Request::U16 => Answer::U16(n as u16),
        Request::U32 => Answer::U32(n as u32),
        Request::U64 => Answer::U64(n as u64),
        _ => Answer::Integer(n),
    }
}

/// How a value answers a request: the visitor call, or the error.
pub open spec fn answer_of(v: Val, req: Request) -> Result<Answer, Fault> {
    let wrong = Err(Fault::Deserialization(mismatch(expected_name(req), debug_text(v))));
    if req == Request::Any {
        match v {
            Val::Object(es) => Ok(Answer::Mapping(es)),
            Val::Array(vs) => Ok(Answer::Sequence(vs)),
            Val::Str(s) => Ok(Answer::Str(s)),
            Val::Integer(n) => Ok(Answer::Integer(n)),
            Val::Float(s) => Ok(Answer::Float(s)),
            Val::Boolean(b) => Ok(Answer::Bool(b)),
            Val::Null => Ok(Answer::Unit),
        }
    } else if req == Request::Option {
        if v is Null {
            Ok(Answer::Absent)
        } else {
            Ok(Answer::Present(v))
        }
    } else if req == Request::NewtypeStruct {
        Ok(Answer::Newtype(v))
    } else if req == Request::Enum {
        match v {
            Val::Str(s) => Ok(Answer::Enum(s, None)),
            Val::Object(es) => if es.len() == 1 {
                Ok(Answer::Enum(es[0].0, Some(es[0].1)))
            } else {
                Err(Fault::Deserialization(enum_object_message()))
            },
            _ => wrong,
        }
    } else if req == Request::Char {
        match v {
            Val::Str(s) => if s.len() > 0 {
                Ok(Answer::Char(s[0]))
            } else {
                Err(Fault::Deserialization(mismatch("char"@, quoted("empty string"@))))
            },
            _ => wrong,
        }
    } else {
        match v {
            Val::Boolean(b) if req == Request::Bool => Ok(Answer::Bool(b)),
            Val::Integer(n) if is_integer_request(req) => Ok(narrowed(n, req)),
            Val::Float(s) if req == Request::F32 || req == Request::F64 => Ok(Answer::Float(s)),
            Val::Str(s) if req == Request::Str => Ok(Answer::Str(s)),
            Val::Str(s) if req == Request::Bytes => Ok(Answer::Bytes(s)),
            Val::Null if req == Request::Unit => Ok(Answer::Unit),
            Val::Array(vs) if req == Request::Sequence => Ok(Answer::Sequence(vs)),
            Val::Object(es) if req == Request::Mapping => Ok(Answer::Mapping(es)),
            _ => wrong,
        }
    }
}

pub open spec fn enum_object_message() -> Seq<char> {
    "Cannot determine variant: an enum object needs exactly one entry"@
}

/// How what a variant holds answers the shape the target expects.
pub open spec fn variant_answer_of(content: Option<Val>, shape: VariantShape) -> Result<Answer, Fault> {
    match shape {
        VariantShape::Unit => match content {
            None => Ok(Answer::Unit),
            Some(Val::Null) => Ok(Answer::Unit),
            Some(v) => Err(Fault::Deserialization(mismatch("null"@, debug_text(v)))),
        },
        VariantShape::Newtype => match content {
            Some(v) => Ok(Answer::Newtype(v)),
            None => Err(Fault::Deserialization(missing_value_message())),
        },
        VariantShape::Tuple => match content {
            Some(Val::Array(vs)) => Ok(Answer::Sequence(vs)),
            Some(v) => Err(Fault::Deserialization(mismatch("array"@, debug_text(v)))),
            None => Err(Fault::Deserialization(missing_value_message())),
        },
        VariantShape::Struct => match content {
            Some(Val::Object(es)) => Ok(Answer::Mapping(es)),
            Some(v) => Err(Fault::Deserialization(mismatch("object"@, debug_text(v)))),
            None => Err(Fault::Deserialization(missing_value_message())),
        },
    }
}

pub open spec fn missing_value_message() -> Seq<char> {
    "Expected value to exist"@
}

pub open spec fn taken_twice_message() -> Seq<char> {
    "Deserializer value unexpectedly `None`"@
}

/// The model of an answer or its error.
pub open spec fn visit_result_view(r: Result<Visit, Error>) -> Result<Answer, Fault> {
    match r {
        Ok(a) => Ok(a@),
        Err(e) => Err(e@),
    }
}

impl Value {
    /// The name of this value's kind: `object`, `array`, `string`,
    /// `integer`, `float`, `boolean` or `null`.
    pub fn kind(&self) -> (r: &'static str)
        ensures
            r@ == kind_name(self@),
    {
        match self {
            Value::Object(_) => "object",
            Value::Array(_) => "array",
            Value::String(_) => "string",
            Value::Integer(_) => "integer",
            Value::Float(_) => "float",
            Value::Boolean(_) => "boolean",
            Value::Null => "null",
        }
    }
}

fn expected_name_of(req: Request) -> (r: &'static str)
    ensures
        r@ == expected_name(req),
{
    match req {
        Request::Any => "any value",
        Request::Bool => "boolean",
        Request::I8 => "integer (i8)",
        Request::I16 => "integer (i16)",
        Request::I32 => "integer (i32)",
        Request::I64 => "integer (i64)",
        Request::U8 => "integer (u8)",
        Request::U16 => "integer (u16)",
        Request::U32 => "integer (u32)",
        Request::U64 => "integer (u64)",
        Request::F32 => "float (f32)",
        Request::F64 => "float (f64)",
        Request::Char => "char",
        Request::Str => "string",
        Request::Bytes => "bytes array",
        Request::Option => "any value",
        Request::Unit => "null",
        Request::NewtypeStruct => "any value",
        Request::Sequence => "array",
        Request::Mapping => "object",
        Request::Enum => "object or string (enum variant)",
    }
}

/// Appends the characters of `s`.
fn push_text(out: &mut Vec<char>, s: &str)
    ensures
        final(out)@ == old(out)@ + s@,
{
    let cs = chars_of(s);
    let ghost start = out@;
    let mut i: usize = 0;
    while i < cs.len()
        invariant
            i <= cs.len(),
            out@ == start + cs@.subrange(0, i as int),
        decreases cs.len() - i,
    {
        out.push(cs[i]);
        i = i + 1;
        assert(out@ =~= start + cs@.subrange(0, i as int));
    }
    assert(cs@.subrange(0, cs.len() as int) =~= cs@);
}

fn digit_of(d: u64) -> (c: char)
    requires
        d < 10,
    ensures
        c == digit_char(d as nat),
{
    if d == 0 {
        '0'
    } else if d == 1 {
        '1'
    } else if d == 2 {
        '2'
    } else if d == 3 {
        '3'
    } else if d == 4 {
        '4'
    } else if d == 5 {
        '5'
    } else if d == 6 {
        '6'
    } else if d == 7 {
        '7'
    } else if d == 8 {
        '8'
    } else {
        '9'
    }
}

/// Appends the decimal digits of `n`.
fn push_digits(out: &mut Vec<char>, n: u64)
    ensures
        final(out)@ == old(out)@ + decimal(n as nat),
    decreases n,
{
    if n >= 10 {
        push_digits(out, n / 10);
    }
    out.push(digit_of(n % 10));
}

/// Appends `s` in debug form (see `quoted`).
fn push_quoted(out: &mut Vec<char>, s: &str)
    ensures
        final(out)@ == old(out)@ + quoted(s@),
{
    let cs = chars_of(s);
    let ghost start = out@;
    out.push('"');
    let mut i: usize = 0;
    while i < cs.len()
        invariant
            i <= cs.len(),
            cs@ == s@,
            out@ == start + seq!['"'] + escaped(cs@, i as int),
        decreases cs.len() - i,
    {
        let c = cs[i];
        if c == '"' {
            out.push('\\');
            out.push('"');
        } else if c == '\\' {
            out.push('\\');
            out.push('\\');
        } else if c == '\n' {
            out.push('\\');
            out.push('n');
        } else if c == '\r' {
            out.push('\\');
            out.push('r');
        } else if c == '\t' {
            out.push('\\');
            out.push('t');
        } else if c == '\0' {
            out.push('\\');
            out.push('0');
        } else {
            out.push(c);
        }
        i = i + 1;
        assert(out@ =~= start + seq!['"'] + escaped(cs@, i as int));
    }
    out.push('"');
    assert(out@ =~= start + quoted(s@));
}

/// Appends `v` in debug form (see `debug_text`).
fn push_debug(out: &mut Vec<char>, v: &Value)
    ensures
        final(out)@ == old(out)@ + debug_text(v@),
    decreases val_size(v@),
{
    let ghost start = out@;
    proof {
        reveal_strlit("true");
    }
    match v {
        Value::Object(m) => {
            let ghost ev = object_entries(*m);
            let refs = m.entry_refs();
            push_text(out, "Object({");
            let ghost head = out@;
            let mut i: usize = 0;
            while i < refs.len()
                invariant
                    i <= refs.len(),
                    refs@.len() == ev.len(),
                    ev == object_entries(*m),
                    *v == Value::Object(*m),
                    forall|j: int| 0 <= j < refs@.len() ==> (#[trigger] refs@[j].0@, refs@[j].1@) == ev[j],
                    out@ == head + debug_entries(ev, i as int),
                decreases refs.len() - i,
            {
                assert((refs@[i as int].0@, refs@[i as int].1@) == ev[i as int]);
                proof {
                    lemma_entry_smaller(ev, ev.len() as int, i as int);
                }
                if i > 0 {
                    push_text(out, ", ");
                }
                push_quoted(out, refs[i].0.as_str());
                push_text(out, ": ");
                push_debug(out, refs[i].1);
                i = i + 1;
                assert(out@ =~= head + debug_entries(ev, i as int));
            }
            push_text(out, "})");
            assert(out@ =~= start + debug_text(v@));
        },
        Value::Array(vs) => {
            proof {
                lemma_array_view(*vs);
            }
            let ghost vv = values_view(vs@);
            push_text(out, "Array([");
            let ghost head = out@;
            let mut i: usize = 0;
            while i < vs.len()
                invariant
                    i <= vs.len(),
                    vv == values_view(vs@),
                    v@ == Val::Array(vv),
                    out@ == head + debug_items(vv, i as int),
                decreases vs.len() - i,
            {
                proof {
                    lemma_element_smaller(vv, vv.len() as int, i as int);
                }
                if i > 0 {
                    push_text(out, ", ");
                }
                push_debug(out, &vs[i]);
                i = i + 1;
                assert(out@ =~= head + debug_items(vv, i as int));
            }
            push_text(out, "])");
            assert(out@ =~= start + debug_text(v@));
        },
        Value::String(s) => {
            push_text(out, "String(");
            push_quoted(out, s.as_str());
            push_text(out, ")");
            assert(out@ =~= start + debug_text(v@));
        },
        Value::Integer(n) => {
            push_text(out, "Integer(");
            if *n < 0 {
                out.push('-');
                let mag: u64 = (0i128 - (*n as i128)) as u64;
                push_digits(out, mag);
            } else {
                push_digits(out, *n as u64);
            }
            push_text(out, ")");
            assert(out@ =~= start + debug_text(v@));
        },
        Value::Float(s) => {
            push_text(out, "Float(");
            push_text(out, s.as_str());
            push_text(out, ")");
            assert(out@ =~= start + debug_text(v@));
        },
        Value::Boolean(b) => {
            if *b {
                push_text(out, "Boolean(true)");
            } else {
                push_text(out, "Boolean(false)");
            }
        },
        Value::Null => {
            push_text(out, "Null(None)");
        },
    }
}

/// The error of a char request on an empty string.
fn empty_char_error() -> (e: Error)
    ensures
        e@ == Fault::Deserialization(mismatch("char"@, quoted("empty string"@))),
{
    let mut out: Vec<char> = Vec::new();
    push_text(&mut out, "Expected ");
    push_text(&mut out, "char");
    push_text(&mut out, ", found '");
    push_quoted(&mut out, "empty string");
    push_text(&mut out, "'");
    Error::DeserializationError(string_from_chars(&out))
}

/// The error of a type mismatch with the value found.
fn mismatch_error(expected: &str, found: &Value) -> (e: Error)
    ensures
        e@ == Fault::Deserialization(mismatch(expected@, debug_text(found@))),
{
    let mut out: Vec<char> = Vec::new();
    push_text(&mut out, "Expected ");
    push_text(&mut out, expected);
    push_text(&mut out, ", found '");
    push_debug(&mut out, found);
    push_text(&mut out, "'");
    Error::DeserializationError(string_from_chars(&out))
}

fn message_error(text: &str) -> (e: Error)
    ensures
        e@ == Fault::Deserialization(text@),
{
    Error::DeserializationError(String::from_str(text))
}

/// A single-use cursor over one value: the first request takes the value,
/// any later one is an error.
pub struct Deserializer {
    value: Option<Value>,
}

impl Deserializer {
    /// The value that still waits for its request, if any.
    pub closed spec fn pending(&self) -> Option<Val> {
        match self.value {
            Some(v) => Some(v@),
            None => None,
        }
    }

    pub fn from_value(value: Value) -> (d: Deserializer)
        ensures
            d.pending() == Some(value@),
    {
        Deserializer { value: Some(value) }
    }

    /// Reads, resolves and wraps a document (see `crate::parse`).
    pub fn from_str(input: &str, env: &Env) -> (r: Result<Deserializer, Error>)
        ensures
            r matches Err(Error::ParserError(_)) <==> document_of(input@) is None,
            r matches Ok(d) ==> d.pending() is Some && eval_document(document_of(input@)->0, env.vars@) == Ok::<Val, Fault>(d.pending()->0),
            r is Err && !(r->Err_0 is ParserError) ==> eval_document(document_of(input@)->0, env.vars@) == Err::<Val, Fault>(r->Err_0@),
    {
        let doc = AstParser::parse(input)?;
        let value = resolve_document(&doc, env)?;
        Ok(Deserializer::from_value(value))
    }

    /// Takes the pending value.
    pub fn take(&mut self) -> (r: Result<Value, Error>)
        ensures
            final(self).pending() is None,
            match old(self).pending() {
                Some(v) => r is Ok && r->Ok_0@ == v,
                None => r is Err && r->Err_0@ == Fault::Deserialization(taken_twice_message()),
            },
    {
        match self.value.take() {
            Some(v) => Ok(v),
            None => Err(message_error("Deserializer value unexpectedly `None`")),
        }
    }

    /// Answers a request with the pending value (see `answer_of`).
    pub fn answer(&mut self, req: Request) -> (r: Result<Visit, Error>)
        ensures
            final(self).pending() is None,
            r matches Ok(Visit::Mapping(es)) ==> keys_unique(entries_view(es@)),
            match old(self).pending() {
                Some(v) => visit_result_view(r) == answer_of(v, req),
                None => r is Err && r->Err_0@ == Fault::Deserialization(taken_twice_message()),
            },
    {
        let value = self.take()?;
        answer_value(value, req)
    }
}

/// Cuts an integer to the width `req` names (see `narrowed`).
pub fn narrow(n: i64, req: Request) -> (r: Visit)
    ensures
        r@ == narrowed(n, req),
{
    match req {
        Request::I8 => Visit::I8(#[verifier::truncate] (n as i8)),
        Request::I16 => Visit::I16(#[verifier::truncate] (n as i16)),
        Request::I32 => Visit::I32(#[verifier::truncate] (n as i32)),
        Request::U8 => Visit::U8(#[verifier::truncate] (n as u8)),
        Request::U16 => Visit::U16(#[verifier::truncate] (n as u16)),
        Request::U32 => Visit::U32(#[verifier::truncate] (n as u32)),
        Request::U64 => Visit::U64(#[verifier::truncate] (n as u64)),
        _ => Visit::Integer(n),
    }
}

/// How `value` answers `req` (see `answer_of`).
pub fn answer_value(value: Value, req: Request) -> (r: Result<Visit, Error>)
    ensures
        visit_result_view(r) == answer_of(value@, req),
        r matches Ok(Visit::Mapping(es)) ==> keys_unique(entries_view(es@)),
{
    proof {
        if value is Array {
            lemma_array_view(value->Array_0);
        }
    }
    match req {
        Request::Any => match value {
            Value::Object(m) => Ok(Visit::Mapping(m.into_entries())),
            Value::Array(vs) => Ok(Visit::Sequence(vs)),
            Value::String(s) => Ok(Visit::Str(s)),
            Value::Integer(n) => Ok(Visit::Integer(n)),
            Value::Float(s) => Ok(Visit::Float(s)),
            Value::Boolean(b) => Ok(Visit::Bool(b)),
            Value::Null => Ok(Visit::Unit),
        },
        Request::Option => match value {
            Value::Null => Ok(Visit::Absent),
            other => Ok(Visit::Present(other)),
        },
        Request::NewtypeStruct => Ok(Visit::Newtype(value)),
        Request::Enum => match value {
            Value::String(s) => Ok(Visit::Enum(s, None)),
            Value::Object(m) => {
                let mut es = m.into_entries();
                if es.len() == 1 {
                    let (tag, content) = es.remove(0);
                    Ok(Visit::Enum(tag, Some(content)))
                } else {
                    Err(message_error("Cannot determine variant: an enum object needs exactly one entry"))
                }
            },
            other => Err(mismatch_error(expected_name_of(req), &other)),
        },
        Request::Char => match value {
            Value::String(s) => {
                let cs = crate::text::chars_of(s.as_str());
                if cs.len() > 0 {
                    Ok(Visit::Char(cs[0]))
                } else {
                    Err(empty_char_error())
                }
            },
            other => Err(mismatch_error(expected_name_of(req), &other)),
        },
        _ => match value {
            Value::Boolean(b) if req == Request::Bool => Ok(Visit::Bool(b)),
            Value::Integer(n) if req == Request::I8 || req == Request::I16 || req == Request::I32
                || req == Request::I64 || req == Request::U8 || req == Request::U16 || req
                == Request::U32 || req == Request::U64 => Ok(narrow(n, req)),
            Value::Float(s) if req == Request::F32 || req == Request::F64 => Ok(Visit::Float(s)),
            Value::String(s) if req == Request::Str => Ok(Visit::Str(s)),
            Value::String(s) if req == Request::Bytes => Ok(Visit::Bytes(s)),
            Value::Null if req == Request::Unit => Ok(Visit::Unit),
            Value::Array(vs) if req == Request::Sequence => Ok(Visit::Sequence(vs)),
            Value::Object(m) if req == Request::Mapping => Ok(Visit::Mapping(m.into_entries())),
            other => Err(mismatch_error(expected_name_of(req), &other)),
        },
    }
}

/// How what an enum variant holds answers the shape the target expects
/// (see `variant_answer_of`).
pub fn answer_variant(content: Option<Value>, shape: VariantShape) -> (r: Result<Visit, Error>)
    ensures
        r matches Ok(Visit::Mapping(es)) ==> keys_unique(entries_view(es@)),
        visit_result_view(r) == variant_answer_of(
            match content {
                Some(v) => Some(v@),
                None => None,
            },
            shape,
        ),
{
    proof {
        if content is Some && content->Some_0 is Array {
            lemma_array_view(content->Some_0->Array_0);
        }
    }
    match shape {
        VariantShape::Unit => match content {
            None => Ok(Visit::Unit),
            Some(Value::Null) => Ok(Visit::Unit),
            Some(v) => Err(mismatch_error("null", &v)),
        },
        VariantShape::Newtype => match content {
            Some(v) => Ok(Visit::Newtype(v)),
            None => Err(message_error("Expected value to exist")),
        },
        VariantShape::Tuple => match content {
            Some(Value::Array(vs)) => Ok(Visit::Sequence(vs)),
            Some(v) => Err(mismatch_error("array", &v)),
            None => Err(message_error("Expected value to exist")),
        },
        VariantShape::Struct => match content {
            Some(Value::Object(m)) => Ok(Visit::Mapping(m.into_entries())),
            Some(v) => Err(mismatch_error("object", &v)),
            None => Err(message_error("Expected value to exist")),
        },
    }
}

/// Size of what a cursor still holds.
pub open spec fn pending_size(d: Deserializer) -> nat {
    match d.pending() {
        Some(v) => val_size(v),
        None => 0,
    }
}

/// Reads a `Value` back through the generic path: asks for anything, then
/// rebuilds what the answer describes, each key read as a string and each
/// nested value through a fresh cursor. The result equals the value the
/// cursor held.
pub fn deserialize_value(cursor: Deserializer) -> (r: Result<Value, Error>)
    ensures
        match cursor.pending() {
            Some(v) => r is Ok && r->Ok_0@ == v,
            None => r is Err,
        },
    decreases pending_size(cursor),
{
    let ghost held = cursor.pending();
    let ghost entry_size = pending_size(cursor);
    let mut d = cursor;
    let visit = d.answer(Request::Any);
    match visit {
        Err(e) => Err(e),
        Ok(Visit::Mapping(es)) => {
            let ghost v = held->0;
            let ghost ev = entries_view(es@);
            assert(v == Val::Object(ev));
            let mut out = ObjectMap::new();
            let mut i: usize = 0;
            while i < es.len()
                invariant
                    i <= es.len(),
                    ev == entries_view(es@),
                    keys_unique(ev),
                    v == Val::Object(ev),
                    held == Some(v),
                    entry_size == val_size(v),
                    entry_size == pending_size(cursor),
                    object_entries(out) == ev.subrange(0, i as int),
                decreases es.len() - i,
            {
                let mut kd = Deserializer::from_value(Value::String(es[i].0.clone()));
                let key = match kd.answer(Request::Str) {
                    Ok(Visit::Str(k)) => k,
                    _ => {
                        assert(false);
                        return Err(message_error("Expected string"));
                    },
                };
                let child = Deserializer::from_value(es[i].1.deep_clone());
                proof {
                    lemma_entry_smaller(ev, ev.len() as int, i as int);
                    assert(ev[i as int].1 == es@[i as int].1@);
                    assert(child.pending() == Some(ev[i as int].1));
                    assert(val_size(v) == 1 + crate::value::entries_size(ev, ev.len() as int));
                    assert(pending_size(child) < entry_size);
                }
                let val = match deserialize_value(child) {
                    Ok(x) => x,
                    Err(e) => {
                        assert(false);
                        return Err(e);
                    },
                };
                proof {
                    lemma_insert_new_key(ev.subrange(0, i as int), ev[i as int].0, ev[i as int].1);
                }
                out.insert(key, val);
                i = i + 1;
                assert(object_entries(out) =~= ev.subrange(0, i as int));
            }
            assert(ev.subrange(0, es.len() as int) =~= ev);
            Ok(Value::Object(out))
        },
        Ok(Visit::Sequence(vs)) => {
            let ghost v = held->0;
            let ghost vv = values_view(vs@);
            assert(v == Val::Array(vv));
            let mut out: Vec<Value> = Vec::new();
            let mut i: usize = 0;
            while i < vs.len()
                invariant
                    i <= vs.len(),
                    vv == values_view(vs@),
                    v == Val::Array(vv),
                    held == Some(v),
                    entry_size == val_size(v),
                    entry_size == pending_size(cursor),
                    values_view(out@) =~= vv.subrange(0, i as int),
                decreases vs.len() - i,
            {
                let child = Deserializer::from_value(vs[i].deep_clone());
                proof {
                    lemma_element_smaller(vv, vv.len() as int, i as int);
                    assert(vv[i as int] == vs@[i as int]@);
                    assert(child.pending() == Some(vv[i as int]));
                    assert(val_size(v) == 1 + crate::value::vals_size(vv, vv.len() as int));
                    assert(pending_size(child) < entry_size);
                }
                let val = match deserialize_value(child) {
                    Ok(x) => x,
                    Err(e) => {
                        assert(false);
                        return Err(e);
                    },
                };
                let ghost before = out@;
                assert(values_view(before).len() == i);
                out.push(val);
                proof {
                    assert(forall|j: int| 0 <= j < i ==> out@[j] == before[j]);
                    assert(values_view(out@)[i as int] == vv[i as int]);
                }
                i = i + 1;
            }
            proof {
                lemma_array_view(out);
                assert(vv.subrange(0, vs.len() as int) =~= vv);
            }
            Ok(Value::Array(out))
        },
        Ok(Visit::Str(s)) => Ok(Value::String(s)),
        Ok(Visit::Integer(n)) => Ok(Value::Integer(n)),
        Ok(Visit::Float(s)) => Ok(Value::Float(s)),
        Ok(Visit::Bool(b)) => Ok(Value::Boolean(b)),
        Ok(Visit::Unit) => Ok(Value::Null),
        Ok(_) => {
            assert(false);
            Err(message_error("Expected any value"))
        },
    }
}

} // verus!
