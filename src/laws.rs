use vstd::prelude::*;

use crate::error::{Error, Fault};
use crate::grammar::document_of;
use crate::resolve::{
    add_path, env_get, eval, eval_document, eval_entries, eval_inputs, is_env_ref, join_path, lookup,
    result_view, table_get,
};
use crate::syntax::{SynDocument, SynEntry, SynExpr};
use crate::value::{
    lemma_obj_get_insert_other, lemma_obj_get_insert_same, obj_extend, obj_get, obj_insert, Val,
    Value,
};

verus! {

/// The value found by following path `p` from object `o`.
pub open spec fn get_path(o: Seq<(Seq<char>, Val)>, p: Seq<Seq<char>>) -> Option<Val>
    decreases p.len(),
{
    if p.len() == 0 {
        None
    } else if p.len() == 1 {
        obj_get(o, p[0])
    } else {
        match obj_get(o, p[0]) {
            Some(Val::Object(m)) => get_path(m, p.drop_first()),
            _ => None,
        }
    }
}

/// The objects that path `p` builds around `x` when nothing is bound yet:
/// `a.b.c = x` gives `{a = {b = {c = x}}}`.
pub open spec fn nested(p: Seq<Seq<char>>, x: Val) -> Seq<(Seq<char>, Val)>
    decreases p.len(),
{
    if p.len() <= 1 {
        seq![(p[0], x)]
    } else {
        seq![(p[0], Val::Object(nested(p.drop_first(), x)))]
    }
}

/// Determinism: reading and resolving the same text twice with the same
/// environment gives equal value trees, or a syntax error both times. The
/// requirements are what `parse` ensures of each of its results.
pub proof fn law_parse_is_deterministic(
    text: Seq<char>,
    env_vars: Seq<(String, String)>,
    r1: Result<Value, Error>,
    r2: Result<Value, Error>,
)
    requires
        r1 matches Err(Error::ParserError(_)) <==> document_of(text) is None,
        document_of(text) is Some ==> result_view(r1) == eval_document(document_of(text)->0, env_vars),
        r2 matches Err(Error::ParserError(_)) <==> document_of(text) is None,
        document_of(text) is Some ==> result_view(r2) == eval_document(document_of(text)->0, env_vars),
    ensures
        (r1 matches Err(Error::ParserError(_))) == (r2 matches Err(Error::ParserError(_))),
        !(r1 matches Err(Error::ParserError(_))) ==> result_view(r1) == result_view(r2),
{
}

/// Storing `x` at a dotted path and following that path again finds `x`.
pub proof fn law_path_reaches_value(o: Seq<(Seq<char>, Val)>, p: Seq<Seq<char>>, x: Val)
    requires
        p.len() >= 1,
        add_path(o, p, x) is Some,
    ensures
        get_path(add_path(o, p, x)->0, p) == Some(x),
    decreases p.len(),
{
    let o2 = add_path(o, p, x)->0;
    if p.len() == 1 {
        lemma_obj_get_insert_same(o, p[0], x);
    } else {
        let child = match obj_get(o, p[0]) {
            Some(c) => c,
            None => Val::Object(Seq::empty()),
        };
        let m = child->Object_0;
        let m2 = add_path(m, p.drop_first(), x)->0;
        lemma_obj_get_insert_same(o, p[0], Val::Object(m2));
        law_path_reaches_value(m, p.drop_first(), x);
    }
}

/// A dotted path into an empty object builds one object per segment:
/// `a.b.c = x` gives `{a = {b = {c = x}}}`.
pub proof fn law_path_nests_objects(p: Seq<Seq<char>>, x: Val)
    requires
        p.len() >= 1,
    ensures
        add_path(Seq::empty(), p, x) == Some(nested(p, x)),
    decreases p.len(),
{
    let e = Seq::<(Seq<char>, Val)>::empty();
    assert(obj_get(e, p[0]) is None);
    if p.len() == 1 {
        assert(obj_insert(e, p[0], x) =~= seq![(p[0], x)]);
    } else {
        law_path_nests_objects(p.drop_first(), x);
        assert(obj_insert(e, p[0], Val::Object(nested(p.drop_first(), x))) =~= nested(p, x));
    }
}

/// A document whose only entry is `a.b.c = X` resolves to `{a = {b = {c = X}}}`.
pub proof fn law_document_path_nesting(d: SynDocument, env_vars: Seq<(String, String)>, x: Val)
    requires
        d.inputs.len() == 0,
        d.body.len() == 1,
        d.body[0] matches SynEntry::Pair(path, e) && path.len() >= 1 && eval(e, env_vars, Seq::empty()) == Ok::<Val, Fault>(x),
    ensures
        eval_document(d, env_vars) == Ok::<Val, Fault>(Val::Object(nested(d.body[0]->Pair_0, x))),
{
    let p = d.body[0]->Pair_0;
    law_path_nests_objects(p, x);
    assert(eval_inputs(d.inputs, 0, env_vars) == Ok::<Seq<(Seq<char>, Val)>, Fault>(Seq::empty()));
    assert(eval_entries(d.body, 0, env_vars, Seq::empty()) == Ok::<Seq<(Seq<char>, Val)>, Fault>(Seq::empty()));
}

/// Dot-notation cannot pass through a value that is not an object: with `a`
/// bound to one, `a.b = ...` has no result.
pub proof fn law_path_conflict(o: Seq<(Seq<char>, Val)>, a: Seq<char>, b: Seq<char>, x: Val)
    requires
        obj_get(o, a) is Some,
        !(obj_get(o, a)->0 is Object),
    ensures
        add_path(o, seq![a, b], x) is None,
{
    assert(seq![a, b][0] == a);
}

/// `{a = 1, a.b = 2}` fails with an invalid-path error that names `a.b`.
pub proof fn law_document_path_conflict(
    d: SynDocument,
    env_vars: Seq<(String, String)>,
    a: Seq<char>,
    b: Seq<char>,
    v1: Val,
    v2: Val,
)
    requires
        d.inputs.len() == 0,
        d.body.len() == 2,
        d.body[0] matches SynEntry::Pair(first_path, e1) && first_path == seq![a] && eval(e1, env_vars, Seq::empty()) == Ok::<Val, Fault>(v1),
        d.body[1] matches SynEntry::Pair(second_path, e2) && second_path == seq![a, b] && eval(e2, env_vars, Seq::empty()) == Ok::<Val, Fault>(v2),
        !(v1 is Object),
    ensures
        eval_document(d, env_vars) == Err::<Val, Fault>(Fault::InvalidPath(a + seq!['.'] + b)),
{
    let t = Seq::<(Seq<char>, Val)>::empty();
    let e = Seq::<(Seq<char>, Val)>::empty();
    assert(eval_inputs(d.inputs, 0, env_vars) == Ok::<Seq<(Seq<char>, Val)>, Fault>(t));
    assert(eval_entries(d.body, 0, env_vars, t) == Ok::<Seq<(Seq<char>, Val)>, Fault>(e));
    assert(seq![a][0] == a);
    let o1 = obj_insert(e, a, v1);
    assert(eval_entries(d.body, 1, env_vars, t) == Ok::<Seq<(Seq<char>, Val)>, Fault>(o1));
    lemma_obj_get_insert_same(e, a, v1);
    law_path_conflict(o1, a, b, v2);
    let second_path = seq![a, b];
    assert(second_path.drop_last() =~= seq![a]);
    assert(join_path(second_path) == join_path(seq![a]) + seq!['.'] + b);
}

/// A declaration may only use inputs declared before it: in
/// `let { x = $y, y = ... } in { }` resolution fails naming `$y`.
pub proof fn law_forward_reference_fails(d: SynDocument, env_vars: Seq<(String, String)>, y: Seq<char>)
    requires
        d.inputs.len() >= 2,
        d.inputs[0].1 matches SynExpr::Input(name) && name == y,
        !is_env_ref(y) || env_get(env_vars, y.subrange(5, y.len() as int)) is None,
    ensures
        eval_document(d, env_vars) == Err::<Val, Fault>(Fault::InputResolve(y)),
{
    let t = Seq::<(Seq<char>, Val)>::empty();
    assert(eval_inputs(d.inputs, 0, env_vars) == Ok::<Seq<(Seq<char>, Val)>, Fault>(t));
    assert(table_get(t, y) is None);
    assert(eval_inputs(d.inputs, 1, env_vars) == Err::<Seq<(Seq<char>, Val)>, Fault>(Fault::InputResolve(y)));
    crate::resolve::lemma_inputs_error_stays(d.inputs, 1, d.inputs.len() as int, env_vars);
}

/// Spreading something other than an object into an object fails with an
/// invalid-spread error that names the reference.
pub proof fn law_spread_needs_object(
    es: Seq<SynEntry>,
    n: int,
    env_vars: Seq<(String, String)>,
    t: Seq<(Seq<char>, Val)>,
)
    requires
        0 < n <= es.len(),
        eval_entries(es, n - 1, env_vars, t) is Ok,
        es[n - 1] matches SynEntry::Spread(name) && lookup(env_vars, t, name) is Ok && !(lookup(env_vars, t, name)->Ok_0 is Object),
    ensures
        eval_entries(es, n, env_vars, t) == Err::<Seq<(Seq<char>, Val)>, Fault>(Fault::InvalidSpread(es[n - 1]->Spread_0)),
{
}

/// Spread merges last-write-wins: a key of the spread object takes the
/// spread's value, whatever the object held before.
pub proof fn law_spread_last_write_wins(o: Seq<(Seq<char>, Val)>, other: Seq<(Seq<char>, Val)>, k: Seq<char>)
    requires
        table_get(other, k) is Some,
    ensures
        obj_get(obj_extend(o, other), k) == table_get(other, k),
    decreases other.len(),
{
    let rest = other.drop_last();
    if other.last().0 == k {
        lemma_obj_get_insert_same(obj_extend(o, rest), k, other.last().1);
    } else {
        lemma_obj_get_insert_other(obj_extend(o, rest), other.last().0, other.last().1, k);
        law_spread_last_write_wins(o, rest, k);
    }
}

/// An environment reference reads the environment first: with `FOO` set,
/// `$env_FOO` resolves to its value whatever the inputs table holds.
pub proof fn law_env_takes_precedence(env_vars: Seq<(String, String)>, t: Seq<(Seq<char>, Val)>, k: Seq<char>, s: Seq<char>)
    requires
        is_env_ref(k),
        env_get(env_vars, k.subrange(5, k.len() as int)) == Some(s),
    ensures
        lookup(env_vars, t, k) == Ok::<Val, Fault>(Val::Str(s)),
{
}

} // verus!
