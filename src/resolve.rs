use vstd::prelude::*;

use crate::error::{Error, Fault};
use crate::syntax::{
    entries_model, elements_model, inputs_model, lemma_array_model, lemma_object_model, path_view,
    pieces_model, Document, Element, Entry, Expr, Piece, SynDocument, SynElement, SynEntry, SynExpr,
    SynPiece,
};
use crate::text::{chars_of, decode_char, dedent, dedent_chars, parse_char, string_from_chars};
use crate::value::{
    entries_view, lemma_array_view, lemma_insert_twice, obj_extend, obj_get,
    obj_insert, object_entries, object_extend, values_view, ObjectMap, Val, Value,
};

verus! {

/// A snapshot of the process environment: variable names and values.
pub struct Env {
    pub vars: Vec<(String, String)>,
}

/// The value of environment variable `name` (the last entry that names it).
pub open spec fn env_get(vars: Seq<(String, String)>, name: Seq<char>) -> Option<Seq<char>>
    decreases vars.len(),
{
    if vars.len() == 0 {
        None
    } else if vars.last().0@ == name {
        Some(vars.last().1@)
    } else {
        env_get(vars.drop_last(), name)
    }
}

/// The value of input `k` in the inputs table (the latest declaration wins).
pub open spec fn table_get(t: Seq<(Seq<char>, Val)>, k: Seq<char>) -> Option<Val>
    decreases t.len(),
{
    if t.len() == 0 {
        None
    } else if t.last().0 == k {
        Some(t.last().1)
    } else {
        table_get(t.drop_last(), k)
    }
}

/// The sigil of references that read the environment first.
pub open spec fn env_sigil() -> Seq<char> {
    seq!['$', 'e', 'n', 'v', '_']
}

pub open spec fn is_env_ref(k: Seq<char>) -> bool {
    k.len() >= 5 && k.subrange(0, 5) == env_sigil()
}

/// What reference `k` resolves to: for `$env_NAME`, the environment variable
/// `NAME` when it is set; otherwise the inputs table.
pub open spec fn lookup(vars: Seq<(String, String)>, t: Seq<(Seq<char>, Val)>, k: Seq<char>) -> Result<Val, Fault> {
    if is_env_ref(k) && env_get(vars, k.subrange(5, k.len() as int)) is Some {
        Ok(Val::Str(env_get(vars, k.subrange(5, k.len() as int))->0))
    } else {
        match table_get(t, k) {
            Some(v) => Ok(v),
            None => Err(Fault::InputResolve(k)),
        }
    }
}

/// A path written back with dots between its segments.
pub open spec fn join_path(p: Seq<Seq<char>>) -> Seq<char>
    decreases p.len(),
{
    if p.len() == 0 {
        Seq::empty()
    } else if p.len() == 1 {
        p[0]
    } else {
        join_path(p.drop_last()) + seq!['.'] + p.last()
    }
}

/// `o` with `v` stored at path `p`, creating objects along the way; `None`
/// when a segment before the last holds something other than an object.
pub open spec fn add_path(o: Seq<(Seq<char>, Val)>, p: Seq<Seq<char>>, v: Val) -> Option<Seq<(Seq<char>, Val)>>
    decreases p.len(),
{
    if p.len() == 0 {
        Some(o)
    } else if p.len() == 1 {
        Some(obj_insert(o, p[0], v))
    } else {
        let child = match obj_get(o, p[0]) {
            Some(c) => c,
            None => Val::Object(Seq::empty()),
        };
        match child {
            Val::Object(m) => match add_path(m, p.drop_first(), v) {
                Some(m2) => Some(obj_insert(o, p[0], Val::Object(m2))),
                None => None,
            },
            _ => None,
        }
    }
}

/// A string after its parts are put together: dedented when it spans lines.
pub open spec fn finish_string(s: Seq<char>) -> Seq<char> {
    if s.contains('\n') {
        dedent(s)
    } else {
        s
    }
}

/// The first `n` parts of a string literal, put together.
pub open spec fn eval_pieces(
    ps: Seq<SynPiece>,
    n: int,
    vars: Seq<(String, String)>,
    t: Seq<(Seq<char>, Val)>,
) -> Result<Seq<char>, Fault>
    decreases n,
{
    if n <= 0 {
        Ok(Seq::empty())
    } else {
        match eval_pieces(ps, n - 1, vars, t) {
            Err(f) => Err(f),
            Ok(acc) => match ps[n - 1] {
                SynPiece::Char(raw) => Ok(acc.push(decode_char(raw))),
                SynPiece::Input(name) => match lookup(vars, t, name) {
                    Ok(Val::Str(s)) => Ok(acc + s),
                    Ok(_) => Err(Fault::InvalidInterpolation(name)),
                    Err(f) => Err(f),
                },
            },
        }
    }
}

/// What an expression resolves to, given the environment and the inputs table.
pub open spec fn eval(e: SynExpr, vars: Seq<(String, String)>, t: Seq<(Seq<char>, Val)>) -> Result<Val, Fault>
    decreases e,
{
    match e {
        SynExpr::Object(es) => match eval_entries(es, es.len() as int, vars, t) {
            Ok(o) => Ok(Val::Object(o)),
            Err(f) => Err(f),
        },
        SynExpr::Array(xs) => match eval_elements(xs, xs.len() as int, vars, t) {
            Ok(a) => Ok(Val::Array(a)),
            Err(f) => Err(f),
        },
        SynExpr::Str(ps) => match eval_pieces(ps, ps.len() as int, vars, t) {
            Ok(s) => Ok(Val::Str(finish_string(s))),
            Err(f) => Err(f),
        },
        SynExpr::Integer(n) => Ok(Val::Integer(n)),
        SynExpr::Float(s) => Ok(Val::Float(s)),
        SynExpr::Boolean(b) => Ok(Val::Boolean(b)),
        SynExpr::Null => Ok(Val::Null),
        SynExpr::Input(name) => lookup(vars, t, name),
    }
}

/// The object made of the first `n` entries of an object literal.
pub open spec fn eval_entries(
    es: Seq<SynEntry>,
    n: int,
    vars: Seq<(String, String)>,
    t: Seq<(Seq<char>, Val)>,
) -> Result<Seq<(Seq<char>, Val)>, Fault>
    decreases es, n,
{
    if n <= 0 || n > es.len() {
        Ok(Seq::empty())
    } else {
        match eval_entries(es, n - 1, vars, t) {
            Err(f) => Err(f),
            Ok(o) => match es[n - 1] {
                SynEntry::Pair(path, sub) => match eval(sub, vars, t) {
                    Err(f) => Err(f),
                    Ok(v) => match add_path(o, path, v) {
                        Some(o2) => Ok(o2),
                        None => Err(Fault::InvalidPath(join_path(path))),
                    },
                },
                SynEntry::Spread(name) => match lookup(vars, t, name) {
                    Ok(Val::Object(other)) => Ok(obj_extend(o, other)),
                    Ok(_) => Err(Fault::InvalidSpread(name)),
                    Err(f) => Err(f),
                },
            },
        }
    }
}

/// The elements given by the first `n` elements of an array literal.
pub open spec fn eval_elements(
    xs: Seq<SynElement>,
    n: int,
    vars: Seq<(String, String)>,
    t: Seq<(Seq<char>, Val)>,
) -> Result<Seq<Val>, Fault>
    decreases xs, n,
{
    if n <= 0 || n > xs.len() {
        Ok(Seq::empty())
    } else {
        match eval_elements(xs, n - 1, vars, t) {
            Err(f) => Err(f),
            Ok(a) => match xs[n - 1] {
                SynElement::Item(sub) => match eval(sub, vars, t) {
                    Err(f) => Err(f),
                    Ok(v) => Ok(a.push(v)),
                },
                SynElement::Spread(name) => match lookup(vars, t, name) {
                    Ok(Val::Array(other)) => Ok(a + other),
                    Ok(_) => Err(Fault::InvalidSpread(name)),
                    Err(f) => Err(f),
                },
            },
        }
    }
}

/// The inputs table after the first `n` declarations, each resolved against
/// the declarations before it.
pub open spec fn eval_inputs(ins: Seq<(Seq<char>, SynExpr)>, n: int, vars: Seq<(String, String)>) -> Result<Seq<(Seq<char>, Val)>, Fault>
    decreases n,
{
    if n <= 0 {
        Ok(Seq::empty())
    } else {
        match eval_inputs(ins, n - 1, vars) {
            Err(f) => Err(f),
            Ok(t) => match eval(ins[n - 1].1, vars, t) {
                Err(f) => Err(f),
                Ok(v) => Ok(t.push((ins[n - 1].0, v))),
            },
        }
    }
}

/// What a whole document resolves to: always an object.
pub open spec fn eval_document(d: SynDocument, vars: Seq<(String, String)>) -> Result<Val, Fault> {
    match eval_inputs(d.inputs, d.inputs.len() as int, vars) {
        Err(f) => Err(f),
        Ok(t) => match eval_entries(d.body, d.body.len() as int, vars, t) {
            Ok(o) => Ok(Val::Object(o)),
            Err(f) => Err(f),
        },
    }
}

/// The model of a result.
pub open spec fn result_view(r: Result<Value, Error>) -> Result<Val, Fault> {
    match r {
        Ok(v) => Ok(v@),
        Err(e) => Err(e@),
    }
}

pub proof fn lemma_entries_error_stays(
    es: Seq<SynEntry>,
    m: int,
    n: int,
    vars: Seq<(String, String)>,
    t: Seq<(Seq<char>, Val)>,
)
    requires
        0 < m <= n <= es.len(),
        eval_entries(es, m, vars, t) is Err,
    ensures
        eval_entries(es, n, vars, t) == eval_entries(es, m, vars, t),
    decreases n - m,
{
    if n > m {
        lemma_entries_error_stays(es, m, n - 1, vars, t);
    }
}

pub proof fn lemma_elements_error_stays(
    xs: Seq<SynElement>,
    m: int,
    n: int,
    vars: Seq<(String, String)>,
    t: Seq<(Seq<char>, Val)>,
)
    requires
        0 < m <= n <= xs.len(),
        eval_elements(xs, m, vars, t) is Err,
    ensures
        eval_elements(xs, n, vars, t) == eval_elements(xs, m, vars, t),
    decreases n - m,
{
    if n > m {
        lemma_elements_error_stays(xs, m, n - 1, vars, t);
    }
}

pub proof fn lemma_pieces_error_stays(
    ps: Seq<SynPiece>,
    m: int,
    n: int,
    vars: Seq<(String, String)>,
    t: Seq<(Seq<char>, Val)>,
)
    requires
        0 < m <= n,
        eval_pieces(ps, m, vars, t) is Err,
    ensures
        eval_pieces(ps, n, vars, t) == eval_pieces(ps, m, vars, t),
    decreases n - m,
{
    if n > m {
        lemma_pieces_error_stays(ps, m, n - 1, vars, t);
    }
}

pub proof fn lemma_inputs_error_stays(ins: Seq<(Seq<char>, SynExpr)>, m: int, n: int, vars: Seq<(String, String)>)
    requires
        0 < m <= n,
        eval_inputs(ins, m, vars) is Err,
    ensures
        eval_inputs(ins, n, vars) == eval_inputs(ins, m, vars),
    decreases n - m,
{
    if n > m {
        lemma_inputs_error_stays(ins, m, n - 1, vars);
    }
}

/// The value of environment variable `name` in the snapshot.
fn env_var(env: &Env, name: &String) -> (r: Option<String>)
    ensures
        match r {
            Some(v) => env_get(env.vars@, name@) == Some(v@),
            None => env_get(env.vars@, name@) is None,
        },
{
    let mut i: usize = env.vars.len();
    assert(env.vars@.subrange(0, i as int) =~= env.vars@);
    while i > 0
        invariant
            i <= env.vars.len(),
            env_get(env.vars@, name@) == env_get(env.vars@.subrange(0, i as int), name@),
        decreases i,
    {
        assert(env.vars@.subrange(0, i as int).drop_last() =~= env.vars@.subrange(0, i - 1));
        if env.vars[i - 1].0 == *name {
            return Some(env.vars[i - 1].1.clone());
        }
        i = i - 1;
    }
    None
}

/// The value of input `k` in the inputs table.
fn table_value(t: &Vec<(String, Value)>, k: &String) -> (r: Option<Value>)
    ensures
        match r {
            Some(v) => table_get(entries_view(t@), k@) == Some(v@),
            None => table_get(entries_view(t@), k@) is None,
        },
{
    let ghost tv = entries_view(t@);
    let mut i: usize = t.len();
    assert(tv.subrange(0, t.len() as int) =~= tv);
    while i > 0
        invariant
            i <= t.len(),
            tv == entries_view(t@),
            table_get(tv, k@) == table_get(tv.subrange(0, i as int), k@),
        decreases i,
    {
        assert(tv.subrange(0, i as int).drop_last() =~= tv.subrange(0, i - 1));
        if t[i - 1].0 == *k {
            return Some(t[i - 1].1.deep_clone());
        }
        i = i - 1;
    }
    None
}

/// Resolves reference `key`: `$env_NAME` reads environment variable `NAME`
/// first; otherwise, or when it is unset, the inputs table decides.
pub fn get_input(env: &Env, t: &Vec<(String, Value)>, key: &String) -> (r: Result<Value, Error>)
    ensures
        r is Err ==> !(r->Err_0 is ParserError),
        result_view(r) == lookup(env.vars@, entries_view(t@), key@),
{
    let cs = chars_of(key.as_str());
    let ghost k = key@;
    let is_env = cs.len() >= 5 && cs[0] == '$' && cs[1] == 'e' && cs[2] == 'n' && cs[3] == 'v'
        && cs[4] == '_';
    proof {
        if is_env {
            assert(k.subrange(0, 5) =~= env_sigil());
        } else if k.len() >= 5 {
            assert(k.subrange(0, 5)[0] == k[0]);
            assert(k.subrange(0, 5)[1] == k[1]);
            assert(k.subrange(0, 5)[2] == k[2]);
            assert(k.subrange(0, 5)[3] == k[3]);
            assert(k.subrange(0, 5)[4] == k[4]);
            assert(k.subrange(0, 5) != env_sigil());
        }
    }
    if is_env {
        let mut rest: Vec<char> = Vec::new();
        let mut i: usize = 5;
        while i < cs.len()
            invariant
                5 <= i <= cs.len(),
                rest@ == cs@.subrange(5, i as int),
            decreases cs.len() - i,
        {
            rest.push(cs[i]);
            i = i + 1;
            assert(rest@ =~= cs@.subrange(5, i as int));
        }
        let name = string_from_chars(&rest);
        match env_var(env, &name) {
            Some(v) => {
                return Ok(Value::String(v));
            },
            None => {},
        }
    }
    match table_value(t, key) {
        Some(v) => Ok(v),
        None => Err(Error::InputResolveError(key.clone())),
    }
}

/// Whether `s` holds a line break.
fn has_newline(s: &Vec<char>) -> (r: bool)
    ensures
        r == s@.contains('\n'),
{
    let mut i: usize = 0;
    while i < s.len()
        invariant
            i <= s.len(),
            forall|j: int| 0 <= j < i ==> s@[j] != '\n',
        decreases s.len() - i,
    {
        if s[i] == '\n' {
            return true;
        }
        i = i + 1;
    }
    false
}

/// Puts the parts of a string literal together.
fn resolve_pieces(ps: &Vec<Piece>, env: &Env, t: &Vec<(String, Value)>) -> (r: Result<Vec<char>, Error>)
    ensures
        r is Err ==> !(r->Err_0 is ParserError),
        match r {
            Ok(s) => eval_pieces(pieces_model(ps@), ps.len() as int, env.vars@, entries_view(t@)) == Ok::<Seq<char>, Fault>(s@),
            Err(e) => eval_pieces(pieces_model(ps@), ps.len() as int, env.vars@, entries_view(t@)) == Err::<Seq<char>, Fault>(e@),
        },
{
    let ghost vars = env.vars@;
    let ghost tv = entries_view(t@);
    let mut acc: Vec<char> = Vec::new();
    let mut i: usize = 0;
    while i < ps.len()
        invariant
            i <= ps.len(),
            eval_pieces(pieces_model(ps@), i as int, vars, tv) == Ok::<Seq<char>, Fault>(acc@),
            vars == env.vars@,
            tv == entries_view(t@),
        decreases ps.len() - i,
    {
        match &ps[i] {
            Piece::Char(raw) => {
                acc.push(parse_char(raw));
            },
            Piece::Input(name) => {
                let v = get_input(env, t, name);
                match v {
                    Ok(Value::String(s)) => {
                        let sc = chars_of(s.as_str());
                        let ghost before = acc@;
                        let mut j: usize = 0;
                        while j < sc.len()
                            invariant
                                j <= sc.len(),
                                acc@ == before + sc@.subrange(0, j as int),
                            decreases sc.len() - j,
                        {
                            acc.push(sc[j]);
                            j = j + 1;
                            assert(acc@ =~= before + sc@.subrange(0, j as int));
                        }
                        assert(sc@.subrange(0, sc.len() as int) =~= sc@);
                    },
                    Ok(_) => {
                        proof {
                            lemma_pieces_error_stays(pieces_model(ps@), i + 1, ps.len() as int, vars, tv);
                        }
                        return Err(Error::InvalidInterpolationError(name.clone()));
                    },
                    Err(e) => {
                        proof {
                            lemma_pieces_error_stays(pieces_model(ps@), i + 1, ps.len() as int, vars, tv);
                        }
                        return Err(e);
                    },
                }
            },
        }
        i = i + 1;
    }
    Ok(acc)
}

/// Writes a path back with dots between its segments.
fn join_segments(path: &Vec<String>) -> (r: String)
    ensures
        r@ == join_path(path_view(path@)),
{
    let ghost pv = path_view(path@);
    let mut out: Vec<char> = Vec::new();
    let mut i: usize = 0;
    while i < path.len()
        invariant
            i <= path.len(),
            pv == path_view(path@),
            out@ == join_path(pv.subrange(0, i as int)),
        decreases path.len() - i,
    {
        assert(pv.subrange(0, i + 1).drop_last() =~= pv.subrange(0, i as int));
        let ghost before = out@;
        if i > 0 {
            out.push('.');
        }
        let seg = chars_of(path[i].as_str());
        let mut j: usize = 0;
        let ghost mid = out@;
        while j < seg.len()
            invariant
                j <= seg.len(),
                out@ == mid + seg@.subrange(0, j as int),
            decreases seg.len() - j,
        {
            out.push(seg[j]);
            j = j + 1;
            assert(out@ =~= mid + seg@.subrange(0, j as int));
        }
        assert(seg@.subrange(0, seg.len() as int) =~= seg@);
        i = i + 1;
        proof {
            if i == 1 {
                assert(out@ =~= pv.subrange(0, 1)[0]);
            } else {
                assert(out@ =~= before + seq!['.'] + pv.subrange(0, i as int).last());
            }
        }
    }
    assert(pv.subrange(0, path.len() as int) =~= pv);
    string_from_chars(&out)
}

/// Stores `v` at `path[from..]` in `obj`, creating objects along the way.
/// Returns false when a segment before the last holds something other than
/// an object.
pub fn insert_at_path(obj: &mut ObjectMap, path: &Vec<String>, from: usize, v: Value) -> (ok: bool)
    requires
        from <= path.len(),
    ensures
        add_path(object_entries(*old(obj)), path_view(path@).subrange(from as int, path.len() as int), v@)
            == (if ok {
            Some(object_entries(*final(obj)))
        } else {
            None
        }),
    decreases path.len() - from,
{
    let ghost o = object_entries(*obj);
    let ghost p = path_view(path@).subrange(from as int, path.len() as int);
    if from == path.len() {
        return true;
    }
    let key = path[from].clone();
    assert(p[0] == key@);
    if from + 1 == path.len() {
        obj.insert(key, v);
        return true;
    }
    assert(p.drop_first() =~= path_view(path@).subrange(from + 1, path.len() as int));
    let mut child = match obj.insert(key.clone(), Value::Null) {
        Some(Value::Object(m)) => m,
        Some(_) => {
            return false;
        },
        None => ObjectMap::new(),
    };
    let ok = insert_at_path(&mut child, path, from + 1, v);
    if ok {
        let ghost cv = object_entries(child);
        obj.insert(key, Value::Object(child));
        proof {
            lemma_insert_twice(o, p[0], Val::Null, Val::Object(cv));
        }
    }
    ok
}

/// Resolves an expression against the environment and the inputs table.
pub fn resolve_value(e: &Expr, env: &Env, t: &Vec<(String, Value)>) -> (r: Result<Value, Error>)
    ensures
        r is Err ==> !(r->Err_0 is ParserError),
        result_view(r) == eval(e@, env.vars@, entries_view(t@)),
    decreases e,
{
    proof {
        if *e is Object {
            lemma_object_model(e->Object_0);
        }
        if *e is Array {
            lemma_array_model(e->Array_0);
        }
    }
    match e {
        Expr::Object(es) => match resolve_entries(es, env, t) {
            Ok(o) => Ok(Value::Object(o)),
            Err(err) => Err(err),
        },
        Expr::Array(xs) => match resolve_elements(xs, env, t) {
            Ok(a) => {
                proof {
                    lemma_array_view(a);
                }
                Ok(Value::Array(a))
            },
            Err(err) => Err(err),
        },
        Expr::Str(ps) => match resolve_pieces(ps, env, t) {
            Ok(s) => {
                if has_newline(&s) {
                    let d = dedent_chars(&s);
                    Ok(Value::String(string_from_chars(&d)))
                } else {
                    Ok(Value::String(string_from_chars(&s)))
                }
            },
            Err(err) => Err(err),
        },
        Expr::Integer(n) => Ok(Value::Integer(*n)),
        Expr::Float(s) => Ok(Value::Float(s.clone())),
        Expr::Boolean(b) => Ok(Value::Boolean(*b)),
        Expr::Null => Ok(Value::Null),
        Expr::Input(name) => get_input(env, t, name),
    }
}

/// Builds the object that the entries of an object literal describe.
pub fn resolve_entries(es: &Vec<Entry>, env: &Env, t: &Vec<(String, Value)>) -> (r: Result<ObjectMap, Error>)
    ensures
        r is Err ==> !(r->Err_0 is ParserError),
        match r {
            Ok(o) => eval_entries(entries_model(es@), es.len() as int, env.vars@, entries_view(t@)) == Ok::<Seq<(Seq<char>, Val)>, Fault>(object_entries(o)),
            Err(err) => eval_entries(entries_model(es@), es.len() as int, env.vars@, entries_view(t@)) == Err::<Seq<(Seq<char>, Val)>, Fault>(err@),
        },
    decreases es,
{
    let ghost vars = env.vars@;
    let ghost tv = entries_view(t@);
    let mut obj = ObjectMap::new();
    let mut i: usize = 0;
    while i < es.len()
        invariant
            i <= es.len(),
            eval_entries(entries_model(es@), i as int, vars, tv) == Ok::<Seq<(Seq<char>, Val)>, Fault>(object_entries(obj)),
            vars == env.vars@,
            tv == entries_view(t@),
        decreases es.len() - i,
    {
        proof {
            assert(decreases_to!(es => es[i as int]));
        }
        match &es[i] {
            Entry::Pair(path, sub) => {
                match resolve_value(sub, env, t) {
                    Ok(v) => {
                        if !insert_at_path(&mut obj, path, 0, v) {
                            proof {
                                assert(path_view(path@).subrange(0, path.len() as int) =~= path_view(path@));
                                lemma_entries_error_stays(entries_model(es@), i + 1, es.len() as int, vars, tv);
                            }
                            return Err(Error::InvalidPathError(join_segments(path)));
                        }
                        assert(path_view(path@).subrange(0, path.len() as int) =~= path_view(path@));
                    },
                    Err(err) => {
                        proof {
                            lemma_entries_error_stays(entries_model(es@), i + 1, es.len() as int, vars, tv);
                        }
                        return Err(err);
                    },
                }
            },
            Entry::Spread(name) => {
                match get_input(env, t, name) {
                    Ok(Value::Object(other)) => {
                        object_extend(&mut obj, &other);
                    },
                    Ok(_) => {
                        proof {
                            lemma_entries_error_stays(entries_model(es@), i + 1, es.len() as int, vars, tv);
                        }
                        return Err(Error::InvalidSpreadError(name.clone()));
                    },
                    Err(err) => {
                        proof {
                            lemma_entries_error_stays(entries_model(es@), i + 1, es.len() as int, vars, tv);
                        }
                        return Err(err);
                    },
                }
            },
        }
        i = i + 1;
    }
    Ok(obj)
}

/// Builds the elements that the elements of an array literal describe.
pub fn resolve_elements(xs: &Vec<Element>, env: &Env, t: &Vec<(String, Value)>) -> (r: Result<Vec<Value>, Error>)
    ensures
        r is Err ==> !(r->Err_0 is ParserError),
        match r {
            Ok(a) => eval_elements(elements_model(xs@), xs.len() as int, env.vars@, entries_view(t@)) == Ok::<Seq<Val>, Fault>(values_view(a@)),
            Err(err) => eval_elements(elements_model(xs@), xs.len() as int, env.vars@, entries_view(t@)) == Err::<Seq<Val>, Fault>(err@),
        },
    decreases xs,
{
    let ghost vars = env.vars@;
    let ghost tv = entries_view(t@);
    let mut arr: Vec<Value> = Vec::new();
    let mut i: usize = 0;
    assert(values_view(arr@) =~= Seq::<Val>::empty());
    while i < xs.len()
        invariant
            i <= xs.len(),
            eval_elements(elements_model(xs@), i as int, vars, tv) == Ok::<Seq<Val>, Fault>(values_view(arr@)),
            vars == env.vars@,
            tv == entries_view(t@),
        decreases xs.len() - i,
    {
        proof {
            assert(decreases_to!(xs => xs[i as int]));
        }
        let ghost before = values_view(arr@);
        match &xs[i] {
            Element::Item(sub) => {
                match resolve_value(sub, env, t) {
                    Ok(v) => {
                        arr.push(v);
                        assert(values_view(arr@) =~= before.push(v@));
                    },
                    Err(err) => {
                        proof {
                            lemma_elements_error_stays(elements_model(xs@), i + 1, xs.len() as int, vars, tv);
                        }
                        return Err(err);
                    },
                }
            },
            Element::Spread(name) => {
                match get_input(env, t, name) {
                    Ok(Value::Array(mut other)) => {
                        proof {
                            lemma_array_view(other);
                        }
                        let ghost ov = values_view(other@);
                        arr.append(&mut other);
                        assert(values_view(arr@) =~= before + ov);
                    },
                    Ok(_) => {
                        proof {
                            lemma_elements_error_stays(elements_model(xs@), i + 1, xs.len() as int, vars, tv);
                        }
                        return Err(Error::InvalidSpreadError(name.clone()));
                    },
                    Err(err) => {
                        proof {
                            lemma_elements_error_stays(elements_model(xs@), i + 1, xs.len() as int, vars, tv);
                        }
                        return Err(err);
                    },
                }
            },
        }
        i = i + 1;
    }
    Ok(arr)
}

/// Resolves the declarations of a `let { } in` block in order; each one sees
/// only those declared before it.
pub fn resolve_inputs(ins: &Vec<(String, Expr)>, env: &Env) -> (r: Result<Vec<(String, Value)>, Error>)
    ensures
        r is Err ==> !(r->Err_0 is ParserError),
        match r {
            Ok(t) => eval_inputs(inputs_model(ins@), ins.len() as int, env.vars@) == Ok::<Seq<(Seq<char>, Val)>, Fault>(entries_view(t@)),
            Err(err) => eval_inputs(inputs_model(ins@), ins.len() as int, env.vars@) == Err::<Seq<(Seq<char>, Val)>, Fault>(err@),
        },
{
    let ghost vars = env.vars@;
    let mut table: Vec<(String, Value)> = Vec::new();
    let mut i: usize = 0;
    assert(entries_view(table@) =~= Seq::<(Seq<char>, Val)>::empty());
    while i < ins.len()
        invariant
            i <= ins.len(),
            eval_inputs(inputs_model(ins@), i as int, vars) == Ok::<Seq<(Seq<char>, Val)>, Fault>(entries_view(table@)),
            vars == env.vars@,
        decreases ins.len() - i,
    {
        let ghost before = entries_view(table@);
        match resolve_value(&ins[i].1, env, &table) {
            Ok(v) => {
                let name = ins[i].0.clone();
                let ghost entry = (name@, v@);
                table.push((name, v));
                assert(entries_view(table@) =~= before.push(entry));
            },
            Err(err) => {
                proof {
                    lemma_inputs_error_stays(inputs_model(ins@), i + 1, ins.len() as int, vars);
                }
                return Err(err);
            },
        }
        i = i + 1;
    }
    Ok(table)
}

/// Resolves a whole document into its top-level object.
pub fn resolve_document(doc: &Document, env: &Env) -> (r: Result<Value, Error>)
    ensures
        r is Err ==> !(r->Err_0 is ParserError),
        result_view(r) == eval_document(doc@, env.vars@),
{
    let table = resolve_inputs(&doc.inputs, env)?;
    match resolve_entries(&doc.body, env, &table) {
        Ok(o) => Ok(Value::Object(o)),
        Err(err) => Err(err),
    }
}

} // verus!
