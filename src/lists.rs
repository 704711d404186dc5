use crate::number::{add_parts, fits, num_lt, reduce, Number};
use crate::value::{
    compare, lemma_list_view, less_spec, models, str_less, str_lt, JVal, Ordering, Value,
};
use vstd::prelude::*;
use vstd::string::*;

verus! {

/// One level of flattening: list elements are spliced, others kept.
pub open spec fn flatten_spec(s: Seq<JVal>) -> Seq<JVal>
    decreases s.len(),
{
    if s.len() == 0 {
        Seq::empty()
    } else {
        flatten_spec(s.drop_last()) + match s.last() {
            JVal::List(x) => x,
            _ => seq![s.last()],
        }
    }
}

pub open spec fn all_strings(s: Seq<JVal>) -> bool {
    forall|i: int| 0 <= i < s.len() ==> (#[trigger] s[i]) is String
}

pub open spec fn all_numbers(s: Seq<JVal>) -> bool {
    forall|i: int| 0 <= i < s.len() ==> (#[trigger] s[i]) is Number
}

/// The strings of `s` with `glue` between neighbours.
pub open spec fn join_spec(s: Seq<JVal>, glue: Seq<char>) -> Seq<char>
    decreases s.len(),
{
    if s.len() == 0 {
        Seq::empty()
    } else if s.len() == 1 {
        s[0]->String_0
    } else {
        join_spec(s.drop_last(), glue) + glue + s.last()->String_0
    }
}

/// The running sum of the numbers of `s`, as numerator and denominator in
/// lowest terms.
pub open spec fn sum_parts(s: Seq<JVal>) -> (int, int)
    decreases s.len(),
{
    if s.len() == 0 {
        (0, 1)
    } else {
        let p = sum_parts(s.drop_last());
        reduce(add_parts(p.0, p.1, s.last()->Number_0))
    }
}

/// Every running sum of `s`, in lowest terms, can be held in a `Number`.
pub open spec fn sum_fits(s: Seq<JVal>) -> bool {
    forall|k: int| 0 <= k <= s.len() ==> fits(#[trigger] sum_parts(s.take(k)))
}

pub open spec fn number_of(p: (int, int)) -> JVal {
    JVal::Number(Number { num: p.0 as i64, den: p.1 as i64 })
}

/// `sum`: the exact sum of a list of numbers in lowest terms (zero when
/// empty); null when an element is not a number or a running sum, in lowest
/// terms, leaves the range of `Number`.
pub open spec fn sum_spec(s: Seq<JVal>) -> JVal {
    if all_numbers(s) && sum_fits(s) {
        number_of(sum_parts(s))
    } else {
        JVal::Null
    }
}

/// `avg`: the sum over the count, in lowest terms; null when empty, when an
/// element is not a number, or when a running sum or the result, in lowest
/// terms, leaves the range of `Number`.
pub open spec fn avg_spec(s: Seq<JVal>) -> JVal {
    let p = sum_parts(s);
    let q = reduce((p.0, p.1 * s.len()));
    if s.len() > 0 && all_numbers(s) && sum_fits(s) && fits(q) {
        number_of(q)
    } else {
        JVal::Null
    }
}

/// All numbers or all strings.
pub open spec fn same_kind(s: Seq<JVal>) -> bool {
    all_numbers(s) || all_strings(s)
}

/// The first element that no later one beats: `want_max` picks the largest.
pub open spec fn best_of(s: Seq<JVal>, want_max: bool) -> JVal
    decreases s.len(),
{
    if s.len() <= 1 {
        s[0]
    } else {
        let b = best_of(s.drop_last(), want_max);
        if (want_max && less_spec(b, s.last())) || (!want_max && less_spec(s.last(), b)) {
            s.last()
        } else {
            b
        }
    }
}

/// `min` / `max`: null when empty or of mixed kinds.
pub open spec fn extreme_spec(s: Seq<JVal>, want_max: bool) -> JVal {
    if s.len() > 0 && same_kind(s) {
        best_of(s, want_max)
    } else {
        JVal::Null
    }
}

/// The bucket and kind of a sort key: numbers, then strings, then keys with
/// no order.
pub open spec fn key_rank(k: JVal) -> int {
    match k {
        JVal::Number(_) => 0,
        JVal::String(_) => 1,
        _ => 2,
    }
}

/// The order of sort keys: by rank, then by value within numbers and within
/// strings; keys with no order are all equivalent.
pub open spec fn key_le(a: JVal, b: JVal) -> bool {
    key_rank(a) < key_rank(b) || (key_rank(a) == key_rank(b) && match (a, b) {
        (JVal::Number(x), JVal::Number(y)) => !num_lt(y, x),
        (JVal::String(x), JVal::String(y)) => !str_lt(y, x),
        _ => true,
    })
}

/// Inserts `x` after every element whose key is not above its own.
pub open spec fn insert_keyed(x: (JVal, JVal), t: Seq<(JVal, JVal)>) -> Seq<(JVal, JVal)>
    decreases t.len(),
{
    if t.len() == 0 {
        seq![x]
    } else if !key_le(t.last().0, x.0) {
        insert_keyed(x, t.drop_last()).push(t.last())
    } else {
        t.push(x)
    }
}

/// Stable sort of (key, item) pairs by key.
pub open spec fn sort_keyed(s: Seq<(JVal, JVal)>) -> Seq<(JVal, JVal)>
    decreases s.len(),
{
    if s.len() == 0 {
        Seq::empty()
    } else {
        insert_keyed(s.last(), sort_keyed(s.drop_last()))
    }
}

pub open spec fn keyed_sorted(s: Seq<(JVal, JVal)>) -> bool {
    forall|i: int| 0 < i < s.len() ==> key_le(#[trigger] s[i - 1].0, s[i].0)
}

pub open spec fn items_of(s: Seq<(JVal, JVal)>) -> Seq<JVal> {
    s.map_values(|p: (JVal, JVal)| p.1)
}

pub open spec fn pair_models(v: Seq<(Value, Value)>) -> Seq<(JVal, JVal)> {
    v.map_values(|p: (Value, Value)| (p.0@, p.1@))
}

/// Each element paired with itself as its key.
pub open spec fn self_keyed(s: Seq<JVal>) -> Seq<(JVal, JVal)> {
    s.map_values(|x: JVal| (x, x))
}

/// `sort`: numbers by value or strings by code points; null on a mix.
pub open spec fn sort_spec(s: Seq<JVal>) -> JVal {
    if same_kind(s) {
        JVal::List(items_of(sort_keyed(self_keyed(s))))
    } else {
        JVal::Null
    }
}

pub fn flatten(l: &Vec<Value>) -> (r: Vec<Value>)
    ensures
        models(r@) == flatten_spec(models(l@)),
{
    let ghost ms = models(l@);
    let mut out: Vec<Value> = Vec::new();
    let mut i: usize = 0;
    while i < l.len()
        invariant
            ms == models(l@),
            i <= l.len(),
            models(out@) == flatten_spec(ms.take(i as int)),
        decreases l.len() - i,
    {
        proof {
            assert(ms.take(i + 1).drop_last() =~= ms.take(i as int));
        }
        match &l[i] {
            Value::List(inner) => {
                proof {
                    lemma_list_view(*inner);
                }
                let ghost base = models(out@);
                let mut j: usize = 0;
                while j < inner.len()
                    invariant
                        j <= inner.len(),
                        models(out@) == base + models(inner@).take(j as int),
                    decreases inner.len() - j,
                {
                    let c = inner[j].deep_copy();
                    let ghost before = out@;
                    out.push(c);
                    proof {
                        assert(models(out@) =~= models(before).push(c@));
                        assert(models(inner@).take(j + 1) =~= models(inner@).take(j as int).push(c@));
                        assert(models(out@) =~= base + models(inner@).take(j + 1));
                    }
                    j = j + 1;
                }
                proof {
                    assert(models(inner@).take(j as int) =~= models(inner@));
                    assert(ms[i as int] == JVal::List(models(inner@)));
                }
            },
            other => {
                let ghost before = out@;
                let c = other.deep_copy();
                out.push(c);
                proof {
                    assert(models(out@) =~= models(before) + seq![ms[i as int]]);
                }
            },
        }
        i = i + 1;
    }
    proof {
        assert(ms.take(i as int) =~= ms);
    }
    out
}

/// The strings of `l` joined by `glue`, or `None` if an element is not a string.
pub fn join(l: &Vec<Value>, glue: &String) -> (r: Option<String>)
    ensures
        r is Some <==> all_strings(models(l@)),
        r is Some ==> r->0@ == join_spec(models(l@), glue@),
{
    let ghost ms = models(l@);
    let mut out = String::new();
    let mut i: usize = 0;
    while i < l.len()
        invariant
            ms == models(l@),
            i <= l.len(),
            all_strings(ms.take(i as int)),
            out@ == join_spec(ms.take(i as int), glue@),
        decreases l.len() - i,
    {
        proof {
            assert(ms.take(i + 1).drop_last() =~= ms.take(i as int));
        }
        match &l[i] {
            Value::String(s) => {
                if i > 0 {
                    out.append(glue.as_str());
                }
                out.append(s.as_str());
                proof {
                    assert(ms.take(i + 1)[i as int] == ms[i as int]);
                    if i == 0 {
                        assert(out@ =~= join_spec(ms.take(1), glue@));
                    }
                }
            },
            _ => {
                proof {
                    assert(!(ms[i as int] is String));
                }
                return None;
            },
        }
        i = i + 1;
    }
    proof {
        assert(ms.take(i as int) =~= ms);
    }
    Some(out)
}

/// `sum` of a list.
pub fn sum(l: &Vec<Value>) -> (r: Value)
    ensures
        r@ == sum_spec(models(l@)),
{
    let ghost ms = models(l@);
    let mut acc = Number::whole(0);
    let mut i: usize = 0;
    proof {
        assert(ms.take(0) =~= Seq::<JVal>::empty());
    }
    while i < l.len()
        invariant
            ms == models(l@),
            i <= l.len(),
            all_numbers(ms.take(i as int)),
            acc.den >= 1,
            acc.n() == sum_parts(ms.take(i as int)).0,
            acc.den as int == sum_parts(ms.take(i as int)).1,
            forall|k: int| 0 <= k <= i ==> fits(#[trigger] sum_parts(ms.take(k))),
        decreases l.len() - i,
    {
        proof {
            assert(ms.take(i + 1).drop_last() =~= ms.take(i as int));
        }
        match &l[i] {
            Value::Number(x) => {
                match acc.checked_add(*x) {
                    Some(a) => {
                        proof {
                            assert(fits(sum_parts(ms.take(i + 1))));
                        }
                        acc = a;
                    },
                    None => {
                        proof {
                            assert(!fits(sum_parts(ms.take(i + 1))));
                        }
                        return Value::Null;
                    },
                }
            },
            _ => {
                proof {
                    assert(!(ms[i as int] is Number));
                }
                return Value::Null;
            },
        }
        i = i + 1;
    }
    proof {
        assert(ms.take(i as int) =~= ms);
    }
    Value::Number(acc)
}

/// `avg` of a list.
pub fn avg(l: &Vec<Value>) -> (r: Value)
    ensures
        r@ == avg_spec(models(l@)),
{
    if l.len() == 0 {
        return Value::Null;
    }
    let ghost ms = models(l@);
    match sum(l) {
        Value::Number(t) => {
            proof {
                assert(ms.take(ms.len() as int) =~= ms);
                assert(fits(sum_parts(ms.take(ms.len() as int))));
            }
            match t.checked_div_count(l.len()) {
                Some(a) => Value::Number(a),
                None => Value::Null,
            }
        },
        _ => Value::Null,
    }
}

/// `min` (or `max` when `want_max`) of a list.
pub fn extreme(l: &Vec<Value>, want_max: bool) -> (r: Value)
    ensures
        r@ == extreme_spec(models(l@), want_max),
{
    let ghost ms = models(l@);
    if l.len() == 0 {
        return Value::Null;
    }
    let numbers = l[0].is_number();
    let strings = l[0].is_string();
    if !numbers && !strings {
        return Value::Null;
    }
    let mut b: usize = 0;
    let mut i: usize = 1;
    proof {
        assert(ms.take(1).drop_last() =~= Seq::<JVal>::empty());
    }
    while i < l.len()
        invariant
            ms == models(l@),
            1 <= i <= l.len(),
            b < i,
            numbers == (ms[0] is Number),
            strings == (ms[0] is String),
            numbers || strings,
            numbers ==> all_numbers(ms.take(i as int)),
            strings ==> all_strings(ms.take(i as int)),
            ms[b as int] == best_of(ms.take(i as int), want_max),
        decreases l.len() - i,
    {
        proof {
            assert(ms.take(i + 1).drop_last() =~= ms.take(i as int));
        }
        if (numbers && !l[i].is_number()) || (strings && !l[i].is_string()) {
            proof {
                assert(ms[i as int] == l[i as int]@);
                if numbers {
                    assert(!(ms[i as int] is Number));
                    assert(!all_numbers(ms));
                    assert(!(ms[0] is String));
                    assert(!all_strings(ms));
                } else {
                    assert(!(ms[i as int] is String));
                    assert(!all_strings(ms));
                    assert(!(ms[0] is Number));
                    assert(!all_numbers(ms));
                }
            }
            return Value::Null;
        }
        let beats = if want_max {
            compare(&l[b], &l[i], &Ordering::Lt)
        } else {
            compare(&l[i], &l[b], &Ordering::Lt)
        };
        if beats {
            b = i;
        }
        i = i + 1;
    }
    proof {
        assert(ms.take(i as int) =~= ms);
    }
    l[b].deep_copy()
}

/// The order of sort keys.
pub fn key_le_exec(a: &Value, b: &Value) -> (r: bool)
    ensures
        r == key_le(a@, b@),
{
    match (a, b) {
        (Value::Number(x), Value::Number(y)) => !y.less_than(*x),
        (Value::String(x), Value::String(y)) => !str_less(y.as_str(), x.as_str()),
        (Value::Number(_), _) => true,
        (Value::String(_), Value::Number(_)) => false,
        (Value::String(_), _) => true,
        (_, Value::Number(_)) => false,
        (_, Value::String(_)) => false,
        _ => true,
    }
}

proof fn lemma_insert_at(x: (JVal, JVal), t: Seq<(JVal, JVal)>, p: int)
    requires
        0 <= p <= t.len(),
        p == 0 || key_le(t[p - 1].0, x.0),
        forall|j: int| p <= j < t.len() ==> !key_le(#[trigger] t[j].0, x.0),
    ensures
        insert_keyed(x, t) == t.take(p).push(x) + t.skip(p),
    decreases t.len(),
{
    if t.len() == 0 {
        assert(t.take(p).push(x) + t.skip(p) =~= seq![x]);
    } else if !key_le(t.last().0, x.0) {
        assert(p < t.len());
        let u = t.drop_last();
        lemma_insert_at(x, u, p);
        assert(insert_keyed(x, t) == insert_keyed(x, u).push(t.last()));
        assert(t.take(p).push(x) + t.skip(p) =~= (u.take(p).push(x) + u.skip(p)).push(t.last()));
    } else {
        if p < t.len() {
            assert(!key_le(t[t.len() - 1].0, x.0));
        }
        assert(p == t.len());
        assert(t.take(p).push(x) + t.skip(p) =~= t.push(x));
    }
}

pub proof fn lemma_insert_len(x: (JVal, JVal), t: Seq<(JVal, JVal)>)
    ensures
        insert_keyed(x, t).len() == t.len() + 1,
    decreases t.len(),
{
    if t.len() > 0 && !key_le(t.last().0, x.0) {
        lemma_insert_len(x, t.drop_last());
    }
}

pub proof fn lemma_sort_len(s: Seq<(JVal, JVal)>)
    ensures
        sort_keyed(s).len() == s.len(),
    decreases s.len(),
{
    if s.len() > 0 {
        lemma_sort_len(s.drop_last());
        lemma_insert_len(s.last(), sort_keyed(s.drop_last()));
    }
}

/// Whether every element is a number, and whether every one is a string.
pub fn kinds(l: &Vec<Value>) -> (r: (bool, bool))
    ensures
        r.0 == all_numbers(models(l@)),
        r.1 == all_strings(models(l@)),
{
    let ghost ms = models(l@);
    let mut numbers = true;
    let mut strings = true;
    let mut i: usize = 0;
    while i < l.len()
        invariant
            ms == models(l@),
            i <= l.len(),
            numbers == all_numbers(ms.take(i as int)),
            strings == all_strings(ms.take(i as int)),
        decreases l.len() - i,
    {
        proof {
            assert(ms.take(i + 1)[i as int] == ms[i as int]);
            if numbers && !(ms[i as int] is Number) {
                assert(!all_numbers(ms.take(i + 1)));
            }
            if strings && !(ms[i as int] is String) {
                assert(!all_strings(ms.take(i + 1)));
            }
            if !numbers {
                assert(!all_numbers(ms.take(i + 1)));
            }
            if !strings {
                assert(!all_strings(ms.take(i + 1)));
            }
        }
        numbers = numbers && l[i].is_number();
        strings = strings && l[i].is_string();
        i = i + 1;
    }
    proof {
        assert(ms.take(i as int) =~= ms);
    }
    (numbers, strings)
}

/// The items of (key, item) pairs.
pub fn items(v: &Vec<(Value, Value)>) -> (r: Vec<Value>)
    ensures
        models(r@) == items_of(pair_models(v@)),
{
    let mut out: Vec<Value> = Vec::new();
    let mut i: usize = 0;
    while i < v.len()
        invariant
            i <= v.len(),
            models(out@) == items_of(pair_models(v@)).take(i as int),
        decreases v.len() - i,
    {
        let c = v[i].1.deep_copy();
        let ghost before = out@;
        out.push(c);
        proof {
            assert(models(out@) =~= models(before).push(c@));
            assert(models(out@) =~= items_of(pair_models(v@)).take(i + 1));
        }
        i = i + 1;
    }
    proof {
        assert(items_of(pair_models(v@)).take(i as int) =~= items_of(pair_models(v@)));
    }
    out
}

/// `sort` of a list.
pub fn sort(l: &Vec<Value>) -> (r: Value)
    ensures
        r@ == sort_spec(models(l@)),
{
    let (numbers, strings) = kinds(l);
    if !numbers && !strings {
        return Value::Null;
    }
    let mut pairs: Vec<(Value, Value)> = Vec::new();
    let mut i: usize = 0;
    while i < l.len()
        invariant
            i <= l.len(),
            pair_models(pairs@) == self_keyed(models(l@)).take(i as int),
        decreases l.len() - i,
    {
        let a = l[i].deep_copy();
        let b = l[i].deep_copy();
        let ghost before = pairs@;
        pairs.push((a, b));
        proof {
            assert(pair_models(pairs@) =~= pair_models(before).push((a@, b@)));
            assert(pair_models(pairs@) =~= self_keyed(models(l@)).take(i + 1));
        }
        i = i + 1;
    }
    proof {
        assert(self_keyed(models(l@)).take(i as int) =~= self_keyed(models(l@)));
    }
    let sorted = sort_pairs(&pairs);
    let out = items(&sorted);
    proof {
        lemma_list_view(out);
    }
    Value::List(out)
}

/// Stable sort of (key, item) pairs by key, by insertion.
pub fn sort_pairs(v: &Vec<(Value, Value)>) -> (r: Vec<(Value, Value)>)
    ensures
        pair_models(r@) == sort_keyed(pair_models(v@)),
{
    let ghost ms = pair_models(v@);
    let mut out: Vec<(Value, Value)> = Vec::new();
    let mut i: usize = 0;
    while i < v.len()
        invariant
            ms == pair_models(v@),
            i <= v.len(),
            pair_models(out@) == sort_keyed(ms.take(i as int)),
        decreases v.len() - i,
    {
        let x = (v[i].0.deep_copy(), v[i].1.deep_copy());
        let ghost xm = (x.0@, x.1@);
        let ghost om = pair_models(out@);
        assert(xm == ms[i as int]);
        let mut p: usize = out.len();
        while p > 0 && !key_le_exec(&out[p - 1].0, &x.0)
            invariant
                p <= out.len(),
                om == pair_models(out@),
                xm == (x.0@, x.1@),
                forall|j: int| p <= j < om.len() ==> !key_le(#[trigger] om[j].0, xm.0),
            decreases p,
        {
            p = p - 1;
        }
        proof {
            lemma_insert_at(xm, om, p as int);
            assert(ms.take(i + 1).drop_last() =~= ms.take(i as int));
        }
        out.insert(p, x);
        proof {
            assert(pair_models(out@) =~= om.take(p as int).push(xm) + om.skip(p as int));
        }
        i = i + 1;
    }
    proof {
        assert(ms.take(i as int) =~= ms);
    }
    out
}

} // verus!
