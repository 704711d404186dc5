use crate::number::{num_eq, num_lt, Number};
use vstd::prelude::*;

verus! {

/// A dynamically typed datum: null, boolean, number, string, ordered list,
/// or string-keyed dictionary (a list of entries; where a key repeats, the
/// first entry holding it is the one looked up).
#[derive(Debug, PartialEq)]
pub enum Value {
    Null,
    Bool(bool),
    Number(Number),
    String(String),
    List(Vec<Value>),
    Dict(Vec<(String, Value)>),
}

/// The mathematical model of a `Value`.
pub enum JVal {
    Null,
    Bool(bool),
    Number(Number),
    String(Seq<char>),
    List(Seq<JVal>),
    Dict(Seq<(Seq<char>, JVal)>),
}

pub open spec fn model_of(v: Value) -> JVal
    decreases v,
{
    match v {
        Value::Null => JVal::Null,
        Value::Bool(b) => JVal::Bool(b),
        Value::Number(n) => JVal::Number(n),
        Value::String(s) => JVal::String(s@),
        Value::List(l) => JVal::List(
            Seq::new(
                l.len() as nat,
                |i: int|
                    if 0 <= i < l.len() {
                        model_of(l[i])
                    } else {
                        JVal::Null
                    },
            ),
        ),
        Value::Dict(d) => JVal::Dict(
            Seq::new(
                d.len() as nat,
                |i: int|
                    if 0 <= i < d.len() {
                        (d[i].0@, model_of(d[i].1))
                    } else {
                        (Seq::empty(), JVal::Null)
                    },
            ),
        ),
    }
}

impl View for Value {
    type V = JVal;

    open spec fn view(&self) -> JVal {
        model_of(*self)
    }
}

/// The model of a list of values.
pub open spec fn models(l: Seq<Value>) -> Seq<JVal> {
    l.map_values(|v: Value| v@)
}

/// The model of a list of dictionary entries.
pub open spec fn entry_models(d: Seq<(String, Value)>) -> Seq<(Seq<char>, JVal)> {
    d.map_values(|e: (String, Value)| (e.0@, e.1@))
}

pub proof fn lemma_list_view(l: Vec<Value>)
    ensures
        Value::List(l)@ == JVal::List(models(l@)),
{
    reveal_with_fuel(model_of, 1);
    assert(model_of(Value::List(l))->List_0 =~= models(l@));
}

pub proof fn lemma_dict_view(d: Vec<(String, Value)>)
    ensures
        Value::Dict(d)@ == JVal::Dict(entry_models(d@)),
{
    reveal_with_fuel(model_of, 1);
    assert(model_of(Value::Dict(d))->Dict_0 =~= entry_models(d@));
}

/// Truthiness: null, false, zero and empty strings, lists and dictionaries
/// are false; everything else is true.
pub open spec fn truthy(v: JVal) -> bool {
    match v {
        JVal::Null => false,
        JVal::Bool(b) => b,
        JVal::Number(n) => n.n() != 0,
        JVal::String(s) => s.len() > 0,
        JVal::List(l) => l.len() > 0,
        JVal::Dict(d) => d.len() > 0,
    }
}

/// The position of the first entry of `d` under key `k`.
pub open spec fn key_pos(d: Seq<(Seq<char>, JVal)>, k: Seq<char>) -> Option<int>
    decreases d.len(),
{
    if d.len() == 0 {
        None
    } else {
        match key_pos(d.drop_last(), k) {
            Some(i) => Some(i),
            None => if d.last().0 == k {
                Some(d.len() - 1)
            } else {
                None
            },
        }
    }
}

/// The value stored under key `k`: that of the first entry that holds the key.
pub open spec fn lookup(d: Seq<(Seq<char>, JVal)>, k: Seq<char>) -> Option<JVal> {
    match key_pos(d, k) {
        Some(i) => Some(d[i].1),
        None => None,
    }
}

pub proof fn lemma_key_pos_range(d: Seq<(Seq<char>, JVal)>, k: Seq<char>)
    ensures
        key_pos(d, k) is Some ==> 0 <= key_pos(d, k)->0 < d.len() && d[key_pos(d, k)->0].0 == k,
    decreases d.len(),
{
    if d.len() > 0 {
        lemma_key_pos_range(d.drop_last(), k);
    }
}

/// Element-wise equality of two lists.
pub open spec fn list_eq(a: Seq<JVal>, b: Seq<JVal>) -> bool
    decreases a,
{
    if a.len() == 0 {
        b.len() == 0
    } else {
        b.len() == a.len() && list_eq(a.drop_last(), b.drop_last()) && json_eq(a.last(), b.last())
    }
}

/// Every entry of `a` is matched, under its key, by an equal value in `b`.
pub open spec fn entries_match(a: Seq<(Seq<char>, JVal)>, b: Seq<(Seq<char>, JVal)>) -> bool
    decreases a,
{
    if a.len() == 0 {
        true
    } else {
        entries_match(a.drop_last(), b) && match lookup(b, a.last().0) {
            Some(w) => json_eq(a.last().1, w),
            None => false,
        }
    }
}

/// Every key of `b` occurs in `a`.
pub open spec fn keys_covered(a: Seq<(Seq<char>, JVal)>, b: Seq<(Seq<char>, JVal)>) -> bool {
    forall|j: int| 0 <= j < b.len() ==> (#[trigger] lookup(a, b[j].0)) is Some
}

/// Equality of the engine: numbers by value, lists element-wise,
/// dictionaries key-wise; a boolean never equals a number.
pub open spec fn json_eq(a: JVal, b: JVal) -> bool
    decreases a,
{
    match (a, b) {
        (JVal::Null, JVal::Null) => true,
        (JVal::Bool(x), JVal::Bool(y)) => x == y,
        (JVal::Number(x), JVal::Number(y)) => num_eq(x, y),
        (JVal::String(x), JVal::String(y)) => x == y,
        (JVal::List(x), JVal::List(y)) => list_eq(x, y),
        (JVal::Dict(x), JVal::Dict(y)) => entries_match(x, y) && keys_covered(x, y),
        _ => false,
    }
}

/// No two entries of `d` hold the same key.
pub open spec fn keys_distinct(d: Seq<(Seq<char>, JVal)>) -> bool {
    forall|i: int, j: int| 0 <= i < j < d.len() ==> (#[trigger] d[i]).0 != (#[trigger] d[j]).0
}

pub open spec fn well_formed_list(s: Seq<JVal>) -> bool
    decreases s,
{
    s.len() == 0 || (well_formed_list(s.drop_last()) && well_formed(s.last()))
}

pub open spec fn well_formed_entries(d: Seq<(Seq<char>, JVal)>) -> bool
    decreases d,
{
    d.len() == 0 || (well_formed_entries(d.drop_last()) && well_formed(d.last().1))
}

/// Every dictionary within `v` holds each key once.
pub open spec fn well_formed(v: JVal) -> bool
    decreases v,
{
    match v {
        JVal::List(s) => well_formed_list(s),
        JVal::Dict(d) => keys_distinct(d) && well_formed_entries(d),
        _ => true,
    }
}

/// Lexicographic order on code points.
pub open spec fn str_lt(a: Seq<char>, b: Seq<char>) -> bool
    decreases a.len(),
{
    if b.len() == 0 {
        false
    } else if a.len() == 0 {
        true
    } else if a[0] != b[0] {
        a[0] < b[0]
    } else {
        str_lt(a.drop_first(), b.drop_first())
    }
}

/// The ordered comparisons: defined on two numbers or two strings, false on
/// any other pair.
pub enum Ordering {
    Lt,
    Le,
    Gt,
    Ge,
}

pub open spec fn less_spec(a: JVal, b: JVal) -> bool {
    match (a, b) {
        (JVal::Number(x), JVal::Number(y)) => num_lt(x, y),
        (JVal::String(x), JVal::String(y)) => str_lt(x, y),
        _ => false,
    }
}

pub open spec fn same_spec(a: JVal, b: JVal) -> bool {
    match (a, b) {
        (JVal::Number(x), JVal::Number(y)) => num_eq(x, y),
        (JVal::String(x), JVal::String(y)) => x == y,
        _ => false,
    }
}

pub open spec fn compare_spec(a: JVal, b: JVal, o: Ordering) -> bool {
    match o {
        Ordering::Lt => less_spec(a, b),
        Ordering::Le => less_spec(a, b) || same_spec(a, b),
        Ordering::Gt => less_spec(b, a),
        Ordering::Ge => less_spec(b, a) || same_spec(a, b),
    }
}

/// Relies on `str::chars`: the characters of `s`, in order.
#[verifier::external_body]
pub(crate) fn chars_of(s: &str) -> (r: Vec<char>)
    ensures
        r@ == s@,
{
    s.chars().collect()
}

/// Relies on `String::from_iter` over `char`: the string made of `v`.
#[verifier::external_body]
pub(crate) fn string_of(v: &Vec<char>) -> (r: String)
    ensures
        r@ == v@,
{
    v.iter().collect()
}


pub proof fn lemma_key_pos_prefix(s: Seq<(Seq<char>, JVal)>, j: int, k: Seq<char>)
    requires
        0 <= j <= s.len(),
        key_pos(s.take(j), k) is Some,
    ensures
        key_pos(s, k) == key_pos(s.take(j), k),
    decreases s.len(),
{
    if j == s.len() {
        assert(s.take(j) =~= s);
    } else {
        assert(s.drop_last().take(j) =~= s.take(j));
        lemma_key_pos_prefix(s.drop_last(), j, k);
    }
}

/// The position of the first entry of `d` under key `k`.
pub fn find_key(d: &Vec<(String, Value)>, k: &String) -> (r: Option<usize>)
    ensures
        r is None ==> key_pos(entry_models(d@), k@) is None,
        r is None ==> lookup(entry_models(d@), k@) is None,
        r is Some ==> r->0 < d.len() && d[r->0 as int].0@ == k@ && lookup(entry_models(d@), k@)
            == Some(d[r->0 as int].1@),
        r is Some ==> key_pos(entry_models(d@), k@) == Some(r->0 as int),
{
    let ghost em = entry_models(d@);
    let mut i: usize = 0;
    while i < d.len()
        invariant
            em == entry_models(d@),
            i <= d.len(),
            key_pos(em.take(i as int), k@) is None,
        decreases d.len() - i,
    {
        proof {
            assert(em.take(i + 1).drop_last() =~= em.take(i as int));
        }
        if d[i].0 == *k {
            proof {
                lemma_key_pos_prefix(em, i + 1, k@);
            }
            return Some(i);
        }
        i = i + 1;
    }
    proof {
        assert(em.take(i as int) =~= em);
    }
    None
}

/// Equality of the engine: structural, with numbers compared by value and
/// dictionaries key-wise; a boolean never equals a number.
pub fn eq_semantics(a: &Value, b: &Value) -> (r: bool)
    ensures
        r == json_eq(a@, b@),
    decreases a,
{
    match (a, b) {
        (Value::Null, Value::Null) => true,
        (Value::Bool(x), Value::Bool(y)) => *x == *y,
        (Value::Number(x), Value::Number(y)) => x.same_value(*y),
        (Value::String(x), Value::String(y)) => *x == *y,
        (Value::List(x), Value::List(y)) => {
            proof {
                lemma_list_view(*x);
                lemma_list_view(*y);
            }
            let ghost mx = models(x@);
            let ghost my = models(y@);
            if x.len() != y.len() {
                return false;
            }
            let mut all = true;
            let mut i: usize = 0;
            while i < x.len()
                invariant
                    *a == Value::List(*x),
                    mx == models(x@),
                    my == models(y@),
                    x.len() == y.len(),
                    i <= x.len(),
                    all == list_eq(mx.take(i as int), my.take(i as int)),
                decreases x.len() - i,
            {
                proof {
                    vstd::std_specs::vec::axiom_vec_index_decreases(a->List_0, i as int);
                    assert(decreases_to!(*a => a->List_0[i as int]));
                    assert(mx.take(i + 1).drop_last() =~= mx.take(i as int));
                    assert(my.take(i + 1).drop_last() =~= my.take(i as int));
                }
                if all {
                    all = eq_semantics(&x[i], &y[i]);
                }
                i = i + 1;
            }
            proof {
                assert(mx.take(i as int) =~= mx);
                assert(my.take(i as int) =~= my);
            }
            all
        },
        (Value::Dict(x), Value::Dict(y)) => {
            proof {
                lemma_dict_view(*x);
                lemma_dict_view(*y);
            }
            let ghost ex = entry_models(x@);
            let ghost ey = entry_models(y@);
            let mut all = true;
            let mut i: usize = 0;
            while i < x.len()
                invariant
                    *a == Value::Dict(*x),
                    ex == entry_models(x@),
                    ey == entry_models(y@),
                    i <= x.len(),
                    all == entries_match(ex.take(i as int), ey),
                decreases x.len() - i,
            {
                proof {
                    vstd::std_specs::vec::axiom_vec_index_decreases(a->Dict_0, i as int);
                    assert(decreases_to!(*a => a->Dict_0[i as int].1));
                    assert(ex.take(i + 1).drop_last() =~= ex.take(i as int));
                }
                if all {
                    match find_key(y, &x[i].0) {
                        Some(j) => {
                            all = eq_semantics(&x[i].1, &y[j].1);
                        },
                        None => {
                            all = false;
                        },
                    }
                }
                i = i + 1;
            }
            proof {
                assert(ex.take(i as int) =~= ex);
            }
            if !all {
                return false;
            }
            let mut j: usize = 0;
            while j < y.len()
                invariant
                    *a == Value::Dict(*x),
                    *b == Value::Dict(*y),
                    a@ == JVal::Dict(ex),
                    b@ == JVal::Dict(ey),
                    entries_match(ex, ey),
                    ex == entry_models(x@),
                    ey == entry_models(y@),
                    j <= y.len(),
                    forall|t: int| 0 <= t < j ==> (#[trigger] lookup(ex, ey[t].0)) is Some,
                decreases y.len() - j,
            {
                match find_key(x, &y[j].0) {
                    Some(_) => {},
                    None => {
                        proof {
                            assert(lookup(ex, ey[j as int].0) is None);
                        }
                        return false;
                    },
                }
                j = j + 1;
            }
            true
        },
        _ => false,
    }
}

fn distinct_keys(d: &Vec<(String, Value)>) -> (r: bool)
    ensures
        r == keys_distinct(entry_models(d@)),
{
    let ghost em = entry_models(d@);
    let mut i: usize = 0;
    while i < d.len()
        invariant
            em == entry_models(d@),
            i <= d.len(),
            forall|a: int, b: int| 0 <= a < i && a < b < em.len() ==> (#[trigger] em[a]).0 != (#[trigger] em[b]).0,
        decreases d.len() - i,
    {
        let mut j: usize = i + 1;
        while j < d.len()
            invariant
                em == entry_models(d@),
                i < d.len(),
                i + 1 <= j <= d.len(),
                forall|a: int, b: int| 0 <= a < i && a < b < em.len() ==> (#[trigger] em[a]).0 != (#[trigger] em[b]).0,
                forall|b: int| i < b < j ==> em[i as int].0 != (#[trigger] em[b]).0,
            decreases d.len() - j,
        {
            if d[i].0 == d[j].0 {
                proof {
                    assert(em[i as int].0 == em[j as int].0);
                }
                return false;
            }
            j = j + 1;
        }
        i = i + 1;
    }
    true
}

/// Whether every dictionary within `v` holds each key once.
pub fn is_well_formed(v: &Value) -> (r: bool)
    ensures
        r == well_formed(v@),
    decreases v,
{
    match v {
        Value::List(l) => {
            proof {
                lemma_list_view(*l);
            }
            let ghost ms = models(l@);
            let mut ok = true;
            let mut i: usize = 0;
            while i < l.len()
                invariant
                    *v == Value::List(*l),
                    ms == models(l@),
                    i <= l.len(),
                    ok == well_formed_list(ms.take(i as int)),
                decreases l.len() - i,
            {
                proof {
                    vstd::std_specs::vec::axiom_vec_index_decreases(v->List_0, i as int);
                    assert(decreases_to!(*v => v->List_0[i as int]));
                    assert(ms.take(i + 1).drop_last() =~= ms.take(i as int));
                }
                if ok {
                    ok = is_well_formed(&l[i]);
                }
                i = i + 1;
            }
            proof {
                assert(ms.take(i as int) =~= ms);
            }
            ok
        },
        Value::Dict(d) => {
            proof {
                lemma_dict_view(*d);
            }
            let ghost em = entry_models(d@);
            let mut ok = distinct_keys(d);
            let ghost distinct = ok;
            let mut i: usize = 0;
            while i < d.len()
                invariant
                    *v == Value::Dict(*d),
                    em == entry_models(d@),
                    i <= d.len(),
                    distinct == keys_distinct(em),
                    ok == (distinct && well_formed_entries(em.take(i as int))),
                decreases d.len() - i,
            {
                proof {
                    vstd::std_specs::vec::axiom_vec_index_decreases(v->Dict_0, i as int);
                    assert(decreases_to!(*v => v->Dict_0[i as int].1));
                    assert(em.take(i + 1).drop_last() =~= em.take(i as int));
                }
                if ok {
                    ok = is_well_formed(&d[i].1);
                }
                i = i + 1;
            }
            proof {
                assert(em.take(i as int) =~= em);
            }
            ok
        },
        _ => true,
    }
}

/// `a < b` on code points, lexicographically.
pub fn str_less(a: &str, b: &str) -> (r: bool)
    ensures
        r == str_lt(a@, b@),
{
    let x = chars_of(a);
    let y = chars_of(b);
    let mut i: usize = 0;
    proof {
        assert(a@.skip(0) =~= a@);
        assert(b@.skip(0) =~= b@);
    }
    while i < x.len() && i < y.len() && x[i] == y[i]
        invariant
            x@ == a@,
            y@ == b@,
            i <= x.len(),
            i <= y.len(),
            str_lt(a@, b@) == str_lt(a@.skip(i as int), b@.skip(i as int)),
        decreases x.len() - i,
    {
        proof {
            assert(a@.skip(i as int).drop_first() =~= a@.skip(i + 1));
            assert(b@.skip(i as int).drop_first() =~= b@.skip(i + 1));
        }
        i = i + 1;
    }
    if i == y.len() {
        false
    } else if i == x.len() {
        true
    } else {
        x[i] < y[i]
    }
}

/// The ordered comparison `o` of `a` and `b`.
pub fn compare(a: &Value, b: &Value, o: &Ordering) -> (r: bool)
    ensures
        r == compare_spec(a@, b@, *o),
{
    let (less, more, same) = match (a, b) {
        (Value::Number(x), Value::Number(y)) => (x.less_than(*y), y.less_than(*x), x.same_value(*y)),
        (Value::String(x), Value::String(y)) => (
            str_less(x.as_str(), y.as_str()),
            str_less(y.as_str(), x.as_str()),
            *x == *y,
        ),
        _ => (false, false, false),
    };
    match o {
        Ordering::Lt => less,
        Ordering::Le => less || same,
        Ordering::Gt => more,
        Ordering::Ge => more || same,
    }
}

impl Value {
    pub fn is_null(&self) -> (r: bool)
        ensures
            r == (self@ is Null),
    {
        matches!(self, Value::Null)
    }

    pub fn is_number(&self) -> (r: bool)
        ensures
            r == (self@ is Number),
    {
        matches!(self, Value::Number(_))
    }

    pub fn is_string(&self) -> (r: bool)
        ensures
            r == (self@ is String),
    {
        matches!(self, Value::String(_))
    }

    pub fn is_list(&self) -> (r: bool)
        ensures
            r == (self@ is List),
    {
        matches!(self, Value::List(_))
    }

    pub fn is_dict(&self) -> (r: bool)
        ensures
            r == (self@ is Dict),
    {
        matches!(self, Value::Dict(_))
    }

    /// The number held, if any.
    pub fn as_number(&self) -> (r: Option<Number>)
        ensures
            r is Some <==> self@ is Number,
            r is Some ==> self@ == JVal::Number(r->0),
    {
        match self {
            Value::Number(n) => Some(*n),
            _ => None,
        }
    }

    /// The string held, if any.
    pub fn as_string(&self) -> (r: Option<&str>)
        ensures
            r is Some <==> self@ is String,
            r is Some ==> self@ == JVal::String(r->0@),
    {
        match self {
            Value::String(s) => Some(s.as_str()),
            _ => None,
        }
    }

    /// The elements held, if the value is a list.
    pub fn as_list(&self) -> (r: Option<&Vec<Value>>)
        ensures
            r is Some <==> self@ is List,
            r is Some ==> self@ == JVal::List(models(r->0@)),
    {
        match self {
            Value::List(l) => {
                proof {
                    lemma_list_view(*l);
                }
                Some(l)
            },
            _ => None,
        }
    }

    /// The entries held, if the value is a dictionary.
    pub fn as_dict(&self) -> (r: Option<&Vec<(String, Value)>>)
        ensures
            r is Some <==> self@ is Dict,
            r is Some ==> self@ == JVal::Dict(entry_models(r->0@)),
    {
        match self {
            Value::Dict(d) => {
                proof {
                    lemma_dict_view(*d);
                }
                Some(d)
            },
            _ => None,
        }
    }

    /// Equality of the engine (see `eq_semantics`).
    pub fn eq_strict(&self, other: &Value) -> (r: bool)
        ensures
            r == json_eq(self@, other@),
    {
        eq_semantics(self, other)
    }

    /// Truthiness of the value.
    pub fn is_truthy(&self) -> (r: bool)
        ensures
            r == truthy(self@),
    {
        proof {
            match self {
                Value::List(l) => lemma_list_view(*l),
                Value::Dict(d) => lemma_dict_view(*d),
                _ => {},
            }
        }
        match self {
            Value::Null => false,
            Value::Bool(b) => *b,
            Value::Number(n) => !n.is_zero(),
            Value::String(s) => !s.as_str().is_empty(),
            Value::List(l) => l.len() > 0,
            Value::Dict(d) => d.len() > 0,
        }
    }

    /// A copy of the whole value tree.
    pub fn deep_copy(&self) -> (r: Value)
        ensures
            r@ == self@,
        decreases self,
    {
        match self {
            Value::Null => Value::Null,
            Value::Bool(b) => Value::Bool(*b),
            Value::Number(n) => Value::Number(*n),
            Value::String(s) => Value::String(s.clone()),
            Value::List(l) => {
                let mut out: Vec<Value> = Vec::new();
                let mut i: usize = 0;
                while i < l.len()
                    invariant
                        *self == Value::List(*l),
                        i <= l.len(),
                        out.len() == i,
                        forall|j: int| 0 <= j < i ==> (#[trigger] out[j])@ == l[j]@,
                    decreases l.len() - i,
                {
                    proof {
                        vstd::std_specs::vec::axiom_vec_index_decreases(self->List_0, i as int);
                        assert(decreases_to!(*self => self->List_0[i as int]));
                    }
                    let c = l[i].deep_copy();
                    out.push(c);
                    i = i + 1;
                }
                proof {
                    lemma_list_view(out);
                    lemma_list_view(*l);
                    assert(models(out@) =~= models(l@));
                }
                Value::List(out)
            },
            Value::Dict(d) => {
                let mut out: Vec<(String, Value)> = Vec::new();
                let mut i: usize = 0;
                while i < d.len()
                    invariant
                        *self == Value::Dict(*d),
                        i <= d.len(),
                        out.len() == i,
                        forall|j: int|
                            0 <= j < i ==> (#[trigger] out[j]).0@ == d[j].0@ && out[j].1@ == d[j].1@,
                    decreases d.len() - i,
                {
                    let k = d[i].0.clone();
                    proof {
                        vstd::std_specs::vec::axiom_vec_index_decreases(self->Dict_0, i as int);
                        assert(decreases_to!(*self => self->Dict_0[i as int].1));
                    }
                    let c = d[i].1.deep_copy();
                    out.push((k, c));
                    i = i + 1;
                }
                proof {
                    lemma_dict_view(out);
                    lemma_dict_view(*d);
                    assert(entry_models(out@) =~= entry_models(d@));
                }
                Value::Dict(out)
            },
        }
    }
}

/// Whether `v` is a list.
pub fn is_list(v: &Value) -> (r: bool)
    ensures
        r == (v@ is List),
{
    v.is_list()
}

/// Whether `v` is a number.
pub fn is_number(v: &Value) -> (r: bool)
    ensures
        r == (v@ is Number),
{
    v.is_number()
}

/// Whether `v` is a string.
pub fn is_string(v: &Value) -> (r: bool)
    ensures
        r == (v@ is String),
{
    v.is_string()
}

/// Whether `v` is a dictionary.
pub fn is_dict(v: &Value) -> (r: bool)
    ensures
        r == (v@ is Dict),
{
    v.is_dict()
}

/// Whether `v` can be ordered: a number or a string.
pub fn is_comparable(v: &Value) -> (r: bool)
    ensures
        r == (v@ is Number || v@ is String),
{
    v.is_number() || v.is_string()
}

/// Whether `v` is falsy: null, false, zero, or an empty string, list or
/// dictionary.
pub fn is_empty(v: &Value) -> (r: bool)
    ensures
        r == !truthy(v@),
{
    !v.is_truthy()
}

/// Whether `v` is truthy.
pub fn not_empty(v: &Value) -> (r: bool)
    ensures
        r == truthy(v@),
{
    v.is_truthy()
}

impl Clone for Value {
    fn clone(&self) -> (r: Value)
        ensures
            r@ == self@,
    {
        self.deep_copy()
    }
}

} // verus!
