//! The value model: tagged variants for scalars, null, lists and
//! string-keyed dictionaries, with structural equality and the total
//! text ordering used by the comparison operators.

use vstd::prelude::*;

verus! {

/// A runtime value of the query language.
///
/// A `Dict` holds its entries as key/value pairs; a well-formed dictionary
/// (see [`wf_val`]) keeps the keys strictly increasing in the lexicographic
/// character order, so that structural equality coincides with equality of
/// the underlying mapping.
#[derive(Debug)]
pub enum Value {
    Null,
    Bool(bool),
    Int(i64),
    Text(String),
    List(Vec<Value>),
    Dict(Vec<(String, Value)>),
}

/// Mathematical model of a [`Value`]: sequences in place of vectors and
/// unbounded integers in place of machine words.
pub enum Val {
    Null,
    Bool(bool),
    Int(int),
    Text(Seq<char>),
    List(Seq<Val>),
    Dict(Seq<(Seq<char>, Val)>),
}

/// The model that a [`Value`] denotes.
pub open spec fn val_view(v: Value) -> Val
    decreases v, 1int,
{
    match v {
        Value::Null => Val::Null,
        Value::Bool(b) => Val::Bool(b),
        Value::Int(i) => Val::Int(i as int),
        Value::Text(s) => Val::Text(s@),
        Value::List(l) => {
            proof {
                assert(decreases_to!(v => l));
            }
            Val::List(vals_view(l@))
        },
        Value::Dict(d) => {
            proof {
                assert(decreases_to!(v => d));
            }
            Val::Dict(dict_view(d@))
        },
    }
}

/// The models of a sequence of values, elementwise.
pub open spec fn vals_view(s: Seq<Value>) -> Seq<Val>
    decreases s, 0int,
{
    if s.len() == 0 {
        Seq::empty()
    } else {
        seq![val_view(s[0])] + vals_view(s.skip(1))
    }
}

/// The models of a sequence of dictionary entries, elementwise.
pub open spec fn dict_view(s: Seq<(String, Value)>) -> Seq<(Seq<char>, Val)>
    decreases s, 0int,
{
    if s.len() == 0 {
        Seq::empty()
    } else {
        seq![(s[0].0@, val_view(s[0].1))] + dict_view(s.skip(1))
    }
}

impl View for Value {
    type V = Val;

    open spec fn view(&self) -> Val {
        val_view(*self)
    }
}

/// Strict lexicographic order on character sequences: the order of text
/// values under the comparison operators, and the order of dictionary keys.
pub open spec fn lex_lt(a: Seq<char>, b: Seq<char>) -> bool
    decreases a.len(),
{
    if b.len() == 0 {
        false
    } else if a.len() == 0 {
        true
    } else if (a[0] as u32) < (b[0] as u32) {
        true
    } else if (b[0] as u32) < (a[0] as u32) {
        false
    } else {
        lex_lt(a.skip(1), b.skip(1))
    }
}

/// A well-formed value: every dictionary reachable from it has its keys in
/// strictly increasing lexicographic order (hence unique).
pub open spec fn wf_val(v: Val) -> bool
    decreases v,
{
    match v {
        Val::List(l) => forall|i: int| 0 <= i < l.len() ==> wf_val(#[trigger] l[i]),
        Val::Dict(d) => (forall|i: int| 0 <= i < d.len() ==> wf_val(#[trigger] d[i].1)) && (forall|
            i: int,
        |
            #![trigger d[i]]
            0 <= i < d.len() - 1 ==> lex_lt(d[i].0, d[i + 1].0)),
        _ => true,
    }
}

/// First entry of `d` whose key is `k`, or `Null` when no entry has that
/// key: the meaning of field access on a dictionary value.
pub open spec fn dict_get(d: Seq<(Seq<char>, Val)>, k: Seq<char>) -> Val
    decreases d.len(),
{
    if d.len() == 0 {
        Val::Null
    } else if d[0].0 == k {
        d[0].1
    } else {
        dict_get(d.skip(1), k)
    }
}

/// The model of a sequence of values is the sequence of their models.
pub proof fn lemma_vals_view(s: Seq<Value>)
    ensures
        vals_view(s).len() == s.len(),
        forall|i: int| 0 <= i < s.len() ==> vals_view(s)[i] == val_view(#[trigger] s[i]),
    decreases s.len(),
{
    if s.len() > 0 {
        lemma_vals_view(s.skip(1));
        assert forall|i: int| 0 <= i < s.len() implies vals_view(s)[i] == val_view(
            #[trigger] s[i],
        ) by {
            if i > 0 {
                assert(s.skip(1)[i - 1] == s[i]);
                assert(vals_view(s)[i] == vals_view(s.skip(1))[i - 1]);
            }
        }
    }
}

/// The model of a sequence of dictionary entries, entry by entry.
pub proof fn lemma_dict_view(s: Seq<(String, Value)>)
    ensures
        dict_view(s).len() == s.len(),
        forall|i: int|
            0 <= i < s.len() ==> dict_view(s)[i] == ((#[trigger] s[i]).0@, val_view(s[i].1)),
    decreases s.len(),
{
    if s.len() > 0 {
        lemma_dict_view(s.skip(1));
        assert forall|i: int| 0 <= i < s.len() implies dict_view(s)[i] == (
            (#[trigger] s[i]).0@,
            val_view(s[i].1),
        ) by {
            if i > 0 {
                assert(s.skip(1)[i - 1] == s[i]);
                assert(dict_view(s)[i] == dict_view(s.skip(1))[i - 1]);
            }
        }
    }
}


/// Appending a value appends its model.
pub proof fn lemma_vals_view_push(s: Seq<Value>, v: Value)
    ensures
        vals_view(s.push(v)) == vals_view(s).push(val_view(v)),
{
    lemma_vals_view(s);
    lemma_vals_view(s.push(v));
    assert forall|i: int| 0 <= i < s.len() + 1 implies vals_view(s.push(v))[i] == vals_view(
        s,
    ).push(val_view(v))[i] by {
        if i < s.len() {
            assert(s.push(v)[i] == s[i]);
        } else {
            assert(s.push(v)[i] == v);
        }
    }
    assert(vals_view(s.push(v)) =~= vals_view(s).push(val_view(v)));
}

/// Appending an entry appends its model.
pub proof fn lemma_dict_view_push(s: Seq<(String, Value)>, e: (String, Value))
    ensures
        dict_view(s.push(e)) == dict_view(s).push((e.0@, val_view(e.1))),
{
    lemma_dict_view(s);
    lemma_dict_view(s.push(e));
    assert forall|i: int| 0 <= i < s.len() + 1 implies dict_view(s.push(e))[i] == dict_view(
        s,
    ).push((e.0@, val_view(e.1)))[i] by {
        if i < s.len() {
            assert(s.push(e)[i] == s[i]);
        } else {
            assert(s.push(e)[i] == e);
        }
    }
    assert(dict_view(s.push(e)) =~= dict_view(s).push((e.0@, val_view(e.1))));
}

/// Whether some entry of `d` has key `k`.
pub open spec fn dict_has(d: Seq<(Seq<char>, Val)>, k: Seq<char>) -> bool
    decreases d.len(),
{
    if d.len() == 0 {
        false
    } else if d[0].0 == k {
        true
    } else {
        dict_has(d.skip(1), k)
    }
}

impl Clone for Value {
    /// A structural copy: the copy denotes the same model.
    fn clone(&self) -> (r: Value)
        ensures
            r@ == self@,
        decreases *self, 1int,
    {
        match self {
            Value::Null => Value::Null,
            Value::Bool(b) => Value::Bool(*b),
            Value::Int(i) => Value::Int(*i),
            Value::Text(s) => Value::Text(s.clone()),
            Value::List(l) => {
                proof {
                    assert(decreases_to!(*self => *l));
                }
                Value::List(clone_values(l))
            },
            Value::Dict(d) => {
                proof {
                    assert(decreases_to!(*self => *d));
                }
                Value::Dict(clone_entries(d))
            },
        }
    }
}

/// A structural copy of a vector of values, elementwise.
fn clone_values(l: &Vec<Value>) -> (r: Vec<Value>)
    ensures
        vals_view(r@) == vals_view(l@),
    decreases *l, 0int,
{
    let mut out: Vec<Value> = Vec::new();
    for i in 0..l.len()
        invariant
            out@.len() == i,
            forall|j: int| 0 <= j < i ==> val_view(#[trigger] out@[j]) == val_view(l@[j]),
    {
        proof {
            assert(decreases_to!(*l => l@[i as int]));
        }
        out.push(l[i].clone());
    }
    proof {
        lemma_vals_view(out@);
        lemma_vals_view(l@);
        assert forall|j: int| 0 <= j < l@.len() implies vals_view(out@)[j] == vals_view(l@)[j] by {
            assert(val_view(out@[j]) == val_view(l@[j]));
        }
        assert(vals_view(out@) =~= vals_view(l@));
    }
    out
}

/// A structural copy of a vector of dictionary entries, elementwise.
fn clone_entries(d: &Vec<(String, Value)>) -> (r: Vec<(String, Value)>)
    ensures
        dict_view(r@) == dict_view(d@),
    decreases *d, 0int,
{
    let mut out: Vec<(String, Value)> = Vec::new();
    for i in 0..d.len()
        invariant
            out@.len() == i,
            forall|j: int|
                0 <= j < i ==> (#[trigger] out@[j]).0@ == d@[j].0@ && val_view(out@[j].1)
                    == val_view(d@[j].1),
    {
        proof {
            assert(decreases_to!(*d => d@[i as int]));
        }
        let entry = &d[i];
        out.push((entry.0.clone(), entry.1.clone()));
    }
    proof {
        lemma_dict_view(out@);
        lemma_dict_view(d@);
        assert forall|j: int| 0 <= j < d@.len() implies dict_view(out@)[j] == dict_view(d@)[j] by {
            assert(out@[j].0@ == d@[j].0@ && val_view(out@[j].1) == val_view(d@[j].1));
        }
        assert(dict_view(out@) =~= dict_view(d@));
    }
    out
}

/// Structural equality of two values: equality of their models.
pub fn value_eq(a: &Value, b: &Value) -> (r: bool)
    ensures
        r == (a@ == b@),
    decreases *a, 1int,
{
    match a {
        Value::Null => matches!(b, Value::Null),
        Value::Bool(x) => match b {
            Value::Bool(y) => x == y,
            _ => false,
        },
        Value::Int(x) => match b {
            Value::Int(y) => x == y,
            _ => false,
        },
        Value::Text(x) => match b {
            Value::Text(y) => *x == *y,
            _ => false,
        },
        Value::List(x) => match b {
            Value::List(y) => {
                proof {
                    assert(decreases_to!(*a => *x));
                }
                values_eq(x, y)
            },
            _ => false,
        },
        Value::Dict(x) => match b {
            Value::Dict(y) => {
                proof {
                    assert(decreases_to!(*a => *x));
                }
                entries_eq(x, y)
            },
            _ => false,
        },
    }
}

/// Elementwise structural equality of two value vectors.
fn values_eq(x: &Vec<Value>, y: &Vec<Value>) -> (r: bool)
    ensures
        r == (vals_view(x@) == vals_view(y@)),
    decreases *x, 0int,
{
    proof {
        lemma_vals_view(x@);
        lemma_vals_view(y@);
    }
    if x.len() != y.len() {
        return false;
    }
    for i in 0..x.len()
        invariant
            x@.len() == y@.len(),
            forall|j: int| 0 <= j < i ==> val_view(#[trigger] x@[j]) == val_view(y@[j]),
    {
        proof {
            assert(decreases_to!(*x => x@[i as int]));
        }
        if !value_eq(&x[i], &y[i]) {
            proof {
                lemma_vals_view(x@);
                lemma_vals_view(y@);
            }
            return false;
        }
    }
    proof {
        lemma_vals_view(x@);
        lemma_vals_view(y@);
        assert forall|j: int| 0 <= j < x@.len() implies vals_view(x@)[j] == vals_view(y@)[j] by {
            assert(val_view(x@[j]) == val_view(y@[j]));
        }
        assert(vals_view(x@) =~= vals_view(y@));
    }
    true
}

/// Elementwise structural equality of two dictionary entry vectors.
fn entries_eq(x: &Vec<(String, Value)>, y: &Vec<(String, Value)>) -> (r: bool)
    ensures
        r == (dict_view(x@) == dict_view(y@)),
    decreases *x, 0int,
{
    proof {
        lemma_dict_view(x@);
        lemma_dict_view(y@);
    }
    if x.len() != y.len() {
        return false;
    }
    for i in 0..x.len()
        invariant
            x@.len() == y@.len(),
            forall|j: int|
                0 <= j < i ==> (#[trigger] x@[j]).0@ == y@[j].0@ && val_view(x@[j].1) == val_view(
                    y@[j].1,
                ),
    {
        proof {
            assert(decreases_to!(*x => x@[i as int]));
        }
        let xe = &x[i];
        let ye = &y[i];
        if !(xe.0 == ye.0) {
            proof {
                lemma_dict_view(x@);
                lemma_dict_view(y@);
            }
            return false;
        }
        if !value_eq(&xe.1, &ye.1) {
            proof {
                lemma_dict_view(x@);
                lemma_dict_view(y@);
            }
            return false;
        }
    }
    proof {
        lemma_dict_view(x@);
        lemma_dict_view(y@);
        assert forall|j: int| 0 <= j < x@.len() implies dict_view(x@)[j] == dict_view(y@)[j] by {
            assert(x@[j].0@ == y@[j].0@ && val_view(x@[j].1) == val_view(y@[j].1));
        }
        assert(dict_view(x@) =~= dict_view(y@));
    }
    true
}

/// Equality of two string slices, decided character by character.
pub fn str_eq(a: &str, b: &str) -> (r: bool)
    ensures
        r == (a@ == b@),
{
    let la = a.unicode_len();
    let lb = b.unicode_len();
    if la != lb {
        return false;
    }
    for i in 0..la
        invariant
            la == a@.len(),
            la == b@.len(),
            forall|j: int| 0 <= j < i ==> a@[j] == b@[j],
    {
        let ca = a.get_char(i);
        let cb = b.get_char(i);
        if ca != cb {
            return false;
        }
    }
    proof {
        assert(a@ =~= b@);
    }
    true
}

/// Strict lexicographic comparison of two text values.
pub fn text_lt(a: &String, b: &String) -> (r: bool)
    ensures
        r == lex_lt(a@, b@),
{
    let la = a.as_str().unicode_len();
    let lb = b.as_str().unicode_len();
    let mut i: usize = 0;
    proof {
        assert(a@.skip(0) =~= a@);
        assert(b@.skip(0) =~= b@);
    }
    loop
        invariant
            i <= la,
            i <= lb,
            la == a@.len(),
            lb == b@.len(),
            lex_lt(a@, b@) == lex_lt(a@.skip(i as int), b@.skip(i as int)),
        decreases lb - i,
    {
        if i >= lb {
            return false;
        }
        if i >= la {
            return true;
        }
        let ca = a.as_str().get_char(i);
        let cb = b.as_str().get_char(i);
        if (ca as u32) < (cb as u32) {
            return true;
        }
        if (cb as u32) < (ca as u32) {
            return false;
        }
        proof {
            assert(a@.skip(i as int).skip(1) =~= a@.skip(i + 1));
            assert(b@.skip(i as int).skip(1) =~= b@.skip(i + 1));
        }
        i = i + 1;
    }
}

} // verus!
