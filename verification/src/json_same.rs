//! When two JSON documents are the same document: they agree wherever one
//! looks, following any path of members and elements. Entry order and
//! later duplicates of a key (which a lookup never reaches) do not count,
//! just as they do not count for `serde_json`'s own `Value`.
use vstd::prelude::*;
use crate::json::{Json, jget, jstr, jarray, lemma_first_key_index};
use crate::text::decimal;

verus! {

/// One step into a JSON value: the member under a key, or an element.
pub enum Step {
    Key(Seq<char>),
    Index(int),
}

/// Where one step leads from an optional value (`None` once nothing is
/// there).
pub open spec fn step(o: Option<Json>, s: Step) -> Option<Json> {
    match s {
        Step::Key(k) => match o {
            Some(j) => jget(j, k),
            None => None,
        },
        Step::Index(i) => match o {
            Some(Json::Array(xs)) => if 0 <= i < xs.len() { Some(xs[i]) } else { None },
            _ => None,
        },
    }
}

/// Where a path of steps leads.
pub open spec fn at(o: Option<Json>, p: Seq<Step>) -> Option<Json>
    decreases p.len(),
{
    if p.len() == 0 {
        o
    } else {
        at(step(o, p[0]), p.drop_first())
    }
}

/// What one sees of a value without looking inside it.
pub enum Shape {
    Missing,
    Null,
    Bool(bool),
    Number(Seq<char>),
    Str(Seq<char>),
    Array(nat),
    Object,
}

/// The shape of an optional value.
pub open spec fn shape(o: Option<Json>) -> Shape {
    match o {
        None => Shape::Missing,
        Some(Json::Null) => Shape::Null,
        Some(Json::Bool(b)) => Shape::Bool(b),
        Some(Json::Number(n)) => Shape::Number(n),
        Some(Json::Str(s)) => Shape::Str(s),
        Some(Json::Array(xs)) => Shape::Array(xs.len()),
        Some(Json::Object(_)) => Shape::Object,
    }
}

/// Two optional values are the same document: every path shows the same
/// shape in both.
pub open spec fn same_opt(a: Option<Json>, b: Option<Json>) -> bool {
    forall|p: Seq<Step>| #![trigger at(a, p)] #![trigger at(b, p)] shape(at(a, p)) == shape(at(b, p))
}

/// Two values are the same document.
pub open spec fn same_json(a: Json, b: Json) -> bool {
    same_opt(Some(a), Some(b))
}

/// Two lists of values are element by element the same documents.
pub open spec fn same_seq(a: Seq<Json>, b: Seq<Json>) -> bool {
    &&& a.len() == b.len()
    &&& forall|i: int| 0 <= i < a.len() ==> #[trigger] same_json(a[i], b[i])
}

/// A number text `serde_json` reads as an integer and prints back as it
/// is: `0`, or a decimal without leading zeros up to `u64::MAX`, or the
/// negative of one down to `i64::MIN`.
pub open spec fn integer_text(s: Seq<char>) -> bool {
    ||| exists|n: nat| n <= 0xffff_ffff_ffff_ffff && s == #[trigger] decimal(n)
    ||| exists|n: nat| 1 <= n <= 0x8000_0000_0000_0000 && s == seq!['-'] + #[trigger] decimal(n)
}

/// Whether what shows at a depth of `d` steps fits: a number is an
/// integer text, and a list or object stands fewer than 127 steps deep
/// (`serde_json` refuses to read more than 127 nested lists and objects).
pub open spec fn fits(sh: Shape, d: nat) -> bool {
    match sh {
        Shape::Number(n) => integer_text(n),
        Shape::Array(_) => d < 127,
        Shape::Object => d < 127,
        _ => true,
    }
}

/// A document that printing and reading back gives back as it is: every
/// number is an integer text and nothing is nested too deeply.
pub open spec fn printable(v: Json) -> bool {
    forall|p: Seq<Step>| #[trigger] fits(shape(at(Some(v), p)), p.len())
}

/// Taking a first step, then the rest.
pub proof fn lemma_at_cons(o: Option<Json>, s: Step, p: Seq<Step>)
    ensures
        at(o, seq![s] + p) == at(step(o, s), p),
{
    let q = seq![s] + p;
    assert(q[0] == s);
    assert(q.drop_first() =~= p);
}

/// The empty path leads to the value itself.
pub proof fn lemma_at_empty(o: Option<Json>)
    ensures
        at(o, Seq::<Step>::empty()) == o,
{
}

/// Every value is the same document as itself.
pub proof fn lemma_same_refl(a: Option<Json>)
    ensures
        same_opt(a, a),
{
}

/// Being the same document goes both ways.
pub proof fn lemma_same_sym(a: Option<Json>, b: Option<Json>)
    requires
        same_opt(a, b),
    ensures
        same_opt(b, a),
{
    assert forall|p: Seq<Step>| #![trigger at(b, p)] #![trigger at(a, p)] shape(at(b, p)) == shape(at(a, p)) by {
        assert(shape(at(a, p)) == shape(at(b, p)));
    }
}

/// Being the same document carries over.
pub proof fn lemma_same_trans(a: Option<Json>, b: Option<Json>, c: Option<Json>)
    requires
        same_opt(a, b),
        same_opt(b, c),
    ensures
        same_opt(a, c),
{
    assert forall|p: Seq<Step>| #![trigger at(a, p)] #![trigger at(c, p)] shape(at(a, p)) == shape(at(c, p)) by {
        assert(shape(at(a, p)) == shape(at(b, p)));
        assert(shape(at(b, p)) == shape(at(c, p)));
    }
}

/// The same documents show the same shape.
pub proof fn lemma_same_shape(a: Option<Json>, b: Option<Json>)
    requires
        same_opt(a, b),
    ensures
        shape(a) == shape(b),
{
    lemma_at_empty(a);
    lemma_at_empty(b);
    assert(shape(at(a, Seq::<Step>::empty())) == shape(at(b, Seq::<Step>::empty())));
}

/// One step into the same documents leads to the same documents.
pub proof fn lemma_same_step(a: Option<Json>, b: Option<Json>, s: Step)
    requires
        same_opt(a, b),
    ensures
        same_opt(step(a, s), step(b, s)),
{
    assert forall|p: Seq<Step>| #![trigger at(step(a, s), p)] #![trigger at(step(b, s), p)]
        shape(at(step(a, s), p)) == shape(at(step(b, s), p)) by {
        lemma_at_cons(a, s, p);
        lemma_at_cons(b, s, p);
        assert(shape(at(a, seq![s] + p)) == shape(at(b, seq![s] + p)));
    }
}

/// Values with the same shape whose every step leads to the same
/// documents are the same document.
pub proof fn lemma_same_intro(a: Option<Json>, b: Option<Json>)
    requires
        shape(a) == shape(b),
        forall|s: Step| #[trigger] same_opt(step(a, s), step(b, s)),
    ensures
        same_opt(a, b),
{
    assert forall|p: Seq<Step>| #![trigger at(a, p)] #![trigger at(b, p)] shape(at(a, p)) == shape(at(b, p)) by {
        if p.len() > 0 {
            let s = p[0];
            assert(same_opt(step(a, s), step(b, s)));
            assert(shape(at(step(a, s), p.drop_first())) == shape(at(step(b, s), p.drop_first())));
        }
    }
}

/// Member lookups in the same documents give the same documents.
pub proof fn lemma_same_jget(a: Json, b: Json, k: Seq<char>)
    requires
        same_json(a, b),
    ensures
        same_opt(jget(a, k), jget(b, k)),
{
    lemma_same_step(Some(a), Some(b), Step::Key(k));
}

/// Objects are the same document when every key looks up the same.
pub proof fn lemma_same_object(x: Seq<(Seq<char>, Json)>, y: Seq<(Seq<char>, Json)>)
    requires
        forall|k: Seq<char>| #[trigger] same_opt(jget(Json::Object(x), k), jget(Json::Object(y), k)),
    ensures
        same_json(Json::Object(x), Json::Object(y)),
{
    let a = Some(Json::Object(x));
    let b = Some(Json::Object(y));
    assert forall|s: Step| #[trigger] same_opt(step(a, s), step(b, s)) by {
        match s {
            Step::Key(k) => {
                assert(same_opt(jget(Json::Object(x), k), jget(Json::Object(y), k)));
            },
            Step::Index(i) => {},
        }
    }
    lemma_same_intro(a, b);
}

/// Lists are the same document when they are element by element.
pub proof fn lemma_same_array(x: Seq<Json>, y: Seq<Json>)
    requires
        same_seq(x, y),
    ensures
        same_json(Json::Array(x), Json::Array(y)),
{
    let a = Some(Json::Array(x));
    let b = Some(Json::Array(y));
    assert forall|s: Step| #[trigger] same_opt(step(a, s), step(b, s)) by {
        match s {
            Step::Key(k) => {},
            Step::Index(i) => {
                if 0 <= i < x.len() {
                    assert(same_json(x[i], y[i]));
                }
            },
        }
    }
    lemma_same_intro(a, b);
}

/// What the same document as a list is: a list of the same length whose
/// elements are the same documents.
pub proof fn lemma_same_array_elim(x: Seq<Json>, b: Option<Json>)
    requires
        same_opt(Some(Json::Array(x)), b),
    ensures
        b matches Some(Json::Array(y)) && same_seq(x, y),
{
    lemma_same_shape(Some(Json::Array(x)), b);
    let y = b->0->Array_0;
    assert forall|i: int| 0 <= i < x.len() implies #[trigger] same_json(x[i], y[i]) by {
        lemma_same_step(Some(Json::Array(x)), b, Step::Index(i));
    }
}

/// The same document as an object is an object.
pub proof fn lemma_same_object_elim(x: Seq<(Seq<char>, Json)>, b: Option<Json>)
    requires
        same_opt(Some(Json::Object(x)), b),
    ensures
        b matches Some(Json::Object(y)),
{
    lemma_same_shape(Some(Json::Object(x)), b);
}

/// The same documents hold the same string (or both none).
pub proof fn lemma_same_jstr(a: Option<Json>, b: Option<Json>)
    requires
        same_opt(a, b),
    ensures
        jstr(a) == jstr(b),
{
    lemma_same_shape(a, b);
}

/// The same documents are both lists of the same documents, or neither a
/// list.
pub proof fn lemma_same_jarray(a: Option<Json>, b: Option<Json>)
    requires
        same_opt(a, b),
    ensures
        (jarray(a) is Some) == (jarray(b) is Some),
        jarray(a) matches Some(x) ==> same_seq(x, jarray(b)->0),
{
    lemma_same_shape(a, b);
    if jarray(a) is Some {
        lemma_same_array_elim(jarray(a)->0, b);
    }
}

/// Lists that are the same documents element by element are so after
/// appending the same documents.
pub proof fn lemma_same_seq_push(x: Seq<Json>, y: Seq<Json>, a: Json, b: Json)
    requires
        same_seq(x, y),
        same_json(a, b),
    ensures
        same_seq(x.push(a), y.push(b)),
{
    assert forall|i: int| 0 <= i < x.len() + 1 implies #[trigger] same_json(x.push(a)[i], y.push(b)[i]) by {
        if i < x.len() {
            assert(same_json(x[i], y[i]));
        }
    }
}

/// Dropping the last element keeps lists the same element by element.
pub proof fn lemma_same_seq_drop_last(x: Seq<Json>, y: Seq<Json>)
    requires
        same_seq(x, y),
        x.len() > 0,
    ensures
        same_seq(x.drop_last(), y.drop_last()),
        same_json(x.last(), y.last()),
{
    assert forall|i: int| 0 <= i < x.len() - 1 implies #[trigger] same_json(x.drop_last()[i], y.drop_last()[i]) by {
        assert(same_json(x[i], y[i]));
    }
    assert(same_json(x[x.len() - 1], y[y.len() - 1]));
}

/// Objects that are the same document are both empty or both not.
pub proof fn lemma_same_object_empty(x: Seq<(Seq<char>, Json)>, y: Seq<(Seq<char>, Json)>)
    requires
        same_json(Json::Object(x), Json::Object(y)),
    ensures
        (x.len() == 0) == (y.len() == 0),
{
    if x.len() > 0 {
        lemma_first_key_index(x, x[0].0);
        lemma_same_jget(Json::Object(x), Json::Object(y), x[0].0);
        lemma_same_shape(jget(Json::Object(x), x[0].0), jget(Json::Object(y), x[0].0));
        lemma_first_key_index(y, x[0].0);
    }
    if y.len() > 0 {
        lemma_first_key_index(y, y[0].0);
        lemma_same_jget(Json::Object(x), Json::Object(y), y[0].0);
        lemma_same_shape(jget(Json::Object(x), y[0].0), jget(Json::Object(y), y[0].0));
        lemma_first_key_index(x, y[0].0);
    }
}

/// A document that is the same as a printable one is printable.
pub proof fn lemma_same_printable(a: Json, b: Json)
    requires
        same_json(a, b),
        printable(a),
    ensures
        printable(b),
{
    assert forall|p: Seq<Step>| #[trigger] fits(shape(at(Some(b), p)), p.len()) by {
        assert(fits(shape(at(Some(a), p)), p.len()));
        assert(shape(at(Some(a), p)) == shape(at(Some(b), p)));
    }
}

} // verus!
