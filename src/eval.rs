use crate::lists::{avg, extreme, flatten, items, join, pair_models, sort_pairs, sum};
use crate::node::{
    all_dicts, contains_spec, drop_nulls, entry_results, eval_spec, first_non_null, flags_of,
    bad_literal_among, bad_literal_among_entries, has_bad_literal, has_zero_step, keep, keyed_by, mapped, merge_entries, results, scalar_op_spec, set_all,
    str_op_spec, struct_op_spec, values_of, zero_step_among, zero_step_among_entries, ComparisonOp,
    ListOp, Node, ScalarOp, StrOp, StructOp,
};
use crate::slicing::{pick, positions, slice_positions};
use crate::strs;
use crate::strs::reversed;
use crate::value::{
    compare, entry_models, eq_semantics, find_key, is_well_formed, well_formed, lemma_dict_view, lemma_list_view, models, JVal,
    Ordering, Value,
};
use vstd::prelude::*;

verus! {

/// `f` evaluated against each element of `l`.
fn map_each(f: &Node, l: &Vec<Value>) -> (r: Vec<Value>)
    ensures
        models(r@) == mapped(models(l@), *f),
    decreases f, 2nat,
{
    let ghost target = mapped(models(l@), *f);
    let mut out: Vec<Value> = Vec::new();
    let mut i: usize = 0;
    while i < l.len()
        invariant
            i <= l.len(),
            target == mapped(models(l@), *f),
            models(out@) == target.take(i as int),
        decreases l.len() - i,
    {
        let r = eval_node(f, &l[i]);
        let ghost before = out@;
        out.push(r);
        proof {
            assert(models(out@) =~= models(before).push(r@));
            assert(models(out@) =~= target.take(i + 1));
        }
        i = i + 1;
    }
    proof {
        assert(target.take(i as int) =~= target);
    }
    out
}

/// Whether `c` is truthy against each element of `l`.
fn flags_with(c: &Node, l: &Vec<Value>) -> (r: Vec<bool>)
    ensures
        r@ == flags_of(models(l@), *c),
    decreases c, 2nat,
{
    let ghost target = flags_of(models(l@), *c);
    let mut out: Vec<bool> = Vec::new();
    let mut i: usize = 0;
    while i < l.len()
        invariant
            i <= l.len(),
            target == flags_of(models(l@), *c),
            out@ == target.take(i as int),
        decreases l.len() - i,
    {
        let r = eval_node(c, &l[i]);
        let t = r.is_truthy();
        out.push(t);
        proof {
            assert(out@ =~= target.take(i + 1));
        }
        i = i + 1;
    }
    proof {
        assert(target.take(i as int) =~= target);
    }
    out
}

/// Each element of `l` paired with its key under `k`.
fn keyed_with(k: &Node, l: &Vec<Value>) -> (r: Vec<(Value, Value)>)
    ensures
        pair_models(r@) == keyed_by(models(l@), *k),
    decreases k, 2nat,
{
    let ghost target = keyed_by(models(l@), *k);
    let mut out: Vec<(Value, Value)> = Vec::new();
    let mut i: usize = 0;
    while i < l.len()
        invariant
            i <= l.len(),
            target == keyed_by(models(l@), *k),
            pair_models(out@) == target.take(i as int),
        decreases l.len() - i,
    {
        let key = eval_node(k, &l[i]);
        let item = l[i].deep_copy();
        let ghost before = out@;
        out.push((key, item));
        proof {
            assert(pair_models(out@) =~= pair_models(before).push((key@, item@)));
            assert(pair_models(out@) =~= target.take(i + 1));
        }
        i = i + 1;
    }
    proof {
        assert(target.take(i as int) =~= target);
    }
    out
}

/// Each node of `items` evaluated against `input`.
fn eval_all(items: &Vec<Node>, input: &Value) -> (r: Vec<Value>)
    ensures
        models(r@) == results(*items, input@),
    decreases items, 2nat,
{
    let ghost target = results(*items, input@);
    let mut out: Vec<Value> = Vec::new();
    let mut i: usize = 0;
    while i < items.len()
        invariant
            i <= items.len(),
            target == results(*items, input@),
            models(out@) == target.take(i as int),
        decreases items.len() - i,
    {
        proof {
            vstd::std_specs::vec::axiom_vec_index_decreases(*items, i as int);
        }
        let r = eval_node(&items[i], input);
        let ghost before = out@;
        out.push(r);
        proof {
            assert(models(out@) =~= models(before).push(r@));
            assert(models(out@) =~= target.take(i + 1));
        }
        i = i + 1;
    }
    proof {
        assert(target.take(i as int) =~= target);
    }
    out
}

/// Each keyed node of `items` evaluated against `input`.
fn eval_entries(items: &Vec<(String, Node)>, input: &Value) -> (r: Vec<(String, Value)>)
    ensures
        entry_models(r@) == entry_results(*items, input@),
    decreases items, 2nat,
{
    let ghost target = entry_results(*items, input@);
    let mut out: Vec<(String, Value)> = Vec::new();
    let mut i: usize = 0;
    while i < items.len()
        invariant
            i <= items.len(),
            target == entry_results(*items, input@),
            entry_models(out@) == target.take(i as int),
        decreases items.len() - i,
    {
        proof {
            vstd::std_specs::vec::axiom_vec_index_decreases(*items, i as int);
            assert(decreases_to!(*items => items[i as int].1));
        }
        let r = eval_node(&items[i].1, input);
        let k = items[i].0.clone();
        let ghost before = out@;
        out.push((k, r));
        proof {
            assert(entry_models(out@) =~= entry_models(before).push((k@, r@)));
            assert(entry_models(out@) =~= target.take(i + 1));
        }
        i = i + 1;
    }
    proof {
        assert(target.take(i as int) =~= target);
    }
    out
}

/// The elements of `vals` whose flag is set.
fn keep_flagged(vals: &Vec<Value>, flags: &Vec<bool>) -> (r: Vec<Value>)
    requires
        vals.len() == flags.len(),
    ensures
        models(r@) == keep(models(vals@), flags@),
{
    let ghost ms = models(vals@);
    let mut out: Vec<Value> = Vec::new();
    let mut i: usize = 0;
    while i < vals.len()
        invariant
            ms == models(vals@),
            vals.len() == flags.len(),
            i <= vals.len(),
            models(out@) == keep(ms.take(i as int), flags@),
        decreases vals.len() - i,
    {
        proof {
            assert(ms.take(i + 1).drop_last() =~= ms.take(i as int));
        }
        if flags[i] {
            let c = vals[i].deep_copy();
            let ghost before = out@;
            out.push(c);
            proof {
                assert(models(out@) =~= models(before).push(c@));
            }
        }
        i = i + 1;
    }
    proof {
        assert(ms.take(i as int) =~= ms);
    }
    out
}

/// The elements of `vals` that are not null.
fn without_nulls(vals: &Vec<Value>) -> (r: Vec<Value>)
    ensures
        models(r@) == drop_nulls(models(vals@)),
{
    let ghost ms = models(vals@);
    let mut out: Vec<Value> = Vec::new();
    let mut i: usize = 0;
    while i < vals.len()
        invariant
            ms == models(vals@),
            i <= vals.len(),
            models(out@) == drop_nulls(ms.take(i as int)),
        decreases vals.len() - i,
    {
        proof {
            assert(ms.take(i + 1).drop_last() =~= ms.take(i as int));
        }
        if !vals[i].is_null() {
            let c = vals[i].deep_copy();
            let ghost before = out@;
            out.push(c);
            proof {
                assert(models(out@) =~= models(before).push(c@));
            }
        }
        i = i + 1;
    }
    proof {
        assert(ms.take(i as int) =~= ms);
    }
    out
}

proof fn lemma_first_non_null_prefix(s: Seq<JVal>, j: int)
    requires
        0 <= j <= s.len(),
        !(first_non_null(s.take(j)) is Null),
    ensures
        first_non_null(s) == first_non_null(s.take(j)),
    decreases s.len(),
{
    if j == s.len() {
        assert(s.take(j) =~= s);
    } else {
        assert(s.drop_last().take(j) =~= s.take(j));
        lemma_first_non_null_prefix(s.drop_last(), j);
    }
}

/// The first element of `vals` that is not null, or null.
fn first_present(vals: &Vec<Value>) -> (r: Value)
    ensures
        r@ == first_non_null(models(vals@)),
{
    let ghost ms = models(vals@);
    let mut i: usize = 0;
    while i < vals.len()
        invariant
            ms == models(vals@),
            i <= vals.len(),
            first_non_null(ms.take(i as int)) is Null,
        decreases vals.len() - i,
    {
        proof {
            assert(ms.take(i + 1).drop_last() =~= ms.take(i as int));
        }
        if !vals[i].is_null() {
            proof {
                lemma_first_non_null_prefix(ms, i + 1);
            }
            return vals[i].deep_copy();
        }
        i = i + 1;
    }
    proof {
        assert(ms.take(i as int) =~= ms);
    }
    Value::Null
}

/// `out` with every entry of `d` set in order: in place where the key is
/// present, else appended.
fn set_entries(out: &mut Vec<(String, Value)>, d: &Vec<(String, Value)>)
    ensures
        entry_models(final(out)@) == set_all(entry_models(old(out)@), entry_models(d@)),
{
    let ghost dm = entry_models(d@);
    let ghost base = entry_models(out@);
    let mut j: usize = 0;
    while j < d.len()
        invariant
            dm == entry_models(d@),
            base == entry_models(old(out)@),
            j <= d.len(),
            entry_models(out@) == set_all(base, dm.take(j as int)),
        decreases d.len() - j,
    {
        proof {
            assert(dm.take(j + 1).drop_last() =~= dm.take(j as int));
        }
        let k = d[j].0.clone();
        let v = d[j].1.deep_copy();
        let ghost before = entry_models(out@);
        match find_key(out, &k) {
            Some(p) => {
                out.set(p, (k, v));
                proof {
                    assert(entry_models(out@) =~= before.update(p as int, (k@, v@)));
                }
            },
            None => {
                out.push((k, v));
                proof {
                    assert(entry_models(out@) =~= before.push((k@, v@)));
                }
            },
        }
        j = j + 1;
    }
    proof {
        assert(dm.take(j as int) =~= dm);
    }
}

/// The dictionaries of `vals` merged left to right, or null if one is not a
/// dictionary.
fn merge_values(vals: &Vec<Value>) -> (r: Value)
    ensures
        r@ == crate::node::merge_spec(models(vals@)),
{
    let ghost ms = models(vals@);
    let mut out: Vec<(String, Value)> = Vec::new();
    let mut i: usize = 0;
    while i < vals.len()
        invariant
            ms == models(vals@),
            i <= vals.len(),
            all_dicts(ms.take(i as int)),
            entry_models(out@) == merge_entries(ms.take(i as int)),
        decreases vals.len() - i,
    {
        proof {
            assert(ms.take(i + 1).drop_last() =~= ms.take(i as int));
        }
        match &vals[i] {
            Value::Dict(d) => {
                proof {
                    lemma_dict_view(*d);
                }
                set_entries(&mut out, d);
            },
            _ => {
                proof {
                    assert(ms[i as int] == vals[i as int]@);
                    assert(!(ms[i as int] is Dict));
                    assert(!all_dicts(ms));
                }
                return Value::Null;
            },
        }
        i = i + 1;
    }
    proof {
        assert(ms.take(i as int) =~= ms);
        lemma_dict_view(out);
    }
    Value::Dict(out)
}

fn copy_all(l: &Vec<Value>) -> (r: Vec<Value>)
    ensures
        models(r@) == models(l@),
{
    let mut out: Vec<Value> = Vec::new();
    let mut i: usize = 0;
    while i < l.len()
        invariant
            i <= l.len(),
            models(out@) == models(l@).take(i as int),
        decreases l.len() - i,
    {
        let c = l[i].deep_copy();
        let ghost before = out@;
        out.push(c);
        proof {
            assert(models(out@) =~= models(before).push(c@));
            assert(models(out@) =~= models(l@).take(i + 1));
        }
        i = i + 1;
    }
    proof {
        assert(models(l@).take(i as int) =~= models(l@));
    }
    out
}

} // verus!
verus! {

/// The elements of `l` at the positions of a slice.
fn slice_values(l: &Vec<Value>, start: Option<isize>, end: Option<isize>, step: Option<isize>) -> (r: Vec<Value>)
    ensures
        models(r@) == crate::slicing::slice_of(models(l@), start, end, step),
{
    let p = positions(l.len(), start, end, step);
    let ghost ps = slice_positions(l.len() as int, start, end, step);
    let ghost target = pick(models(l@), ps);
    let mut out: Vec<Value> = Vec::new();
    let mut j: usize = 0;
    while j < p.len()
        invariant
            j <= p.len(),
            p@.len() == ps.len(),
            target == pick(models(l@), ps),
            forall|t: int| 0 <= t < p@.len() ==> (#[trigger] p@[t]) as int == ps[t] && p@[t] < l.len(),
            models(out@) == target.take(j as int),
        decreases p.len() - j,
    {
        let c = l[p[j]].deep_copy();
        let ghost before = out@;
        out.push(c);
        proof {
            assert(models(out@) =~= models(before).push(c@));
            assert(models(out@) =~= target.take(j + 1));
        }
        j = j + 1;
    }
    proof {
        assert(target.take(j as int) =~= target);
    }
    out
}

fn reversed_values(l: &Vec<Value>) -> (r: Vec<Value>)
    ensures
        models(r@) == reversed(models(l@)),
{
    let ghost target = reversed(models(l@));
    let mut out: Vec<Value> = Vec::new();
    let mut j: usize = 0;
    while j < l.len()
        invariant
            j <= l.len(),
            target == reversed(models(l@)),
            models(out@) == target.take(j as int),
        decreases l.len() - j,
    {
        let c = l[l.len() - 1 - j].deep_copy();
        let ghost before = out@;
        out.push(c);
        proof {
            assert(models(out@) =~= models(before).push(c@));
            assert(models(out@) =~= target.take(j + 1));
        }
        j = j + 1;
    }
    proof {
        assert(target.take(j as int) =~= target);
    }
    out
}

fn count_value(n: usize) -> (r: Value)
    ensures
        r@ == crate::node::count_spec(n as int),
{
    if (n as u128) <= (i64::MAX as u128) {
        Value::Number(crate::number::Number::whole(n as i64))
    } else {
        Value::Null
    }
}

fn list_contains(l: &Vec<Value>, x: &Value) -> (r: bool)
    ensures
        r == contains_spec(models(l@), x@),
{
    let ghost ms = models(l@);
    let mut i: usize = 0;
    while i < l.len()
        invariant
            ms == models(l@),
            i <= l.len(),
            forall|k: int| 0 <= k < i ==> !crate::value::json_eq(#[trigger] ms[k], x@),
        decreases l.len() - i,
    {
        if eq_semantics(&l[i], x) {
            proof {
                assert(crate::value::json_eq(ms[i as int], x@));
            }
            return true;
        }
        i = i + 1;
    }
    false
}

/// A list operator applied to the base list `l`.
fn eval_list_op(node: &Node, l: &Vec<Value>, input: &Value) -> (r: Value)
    requires
        node is List,
        eval_spec(*node->List_0, input@) == JVal::List(models(l@)),
    ensures
        r@ == eval_spec(*node, input@),
    decreases node, 0nat,
{
    let ghost s = models(l@);
    let op = match node {
        Node::List(_, op) => op,
        _ => {
            proof {
                assert(false);
            }
            return Value::Null;
        },
    };
    match op {
        ListOp::Index(i) => {
            let n = l.len() as i128;
            let k: i128 = if *i < 0 { n + *i as i128 } else { *i as i128 };
            if 0 <= k && k < n {
                l[k as usize].deep_copy()
            } else {
                Value::Null
            }
        },
        ListOp::Slice { start, end, step } => {
            let out = slice_values(l, *start, *end, *step);
            proof {
                lemma_list_view(out);
            }
            Value::List(out)
        },
        ListOp::Length => count_value(l.len()),
        ListOp::Reverse => {
            let out = reversed_values(l);
            proof {
                lemma_list_view(out);
            }
            Value::List(out)
        },
        ListOp::Flatten => {
            let out = flatten(l);
            proof {
                lemma_list_view(out);
            }
            Value::List(out)
        },
        ListOp::Contains(t) => {
            let x = eval_node(t, input);
            Value::Bool(list_contains(l, &x))
        },
        ListOp::Filter(c) => {
            let flags = flags_with(c, l);
            let out = keep_flagged(l, &flags);
            proof {
                lemma_list_view(out);
            }
            Value::List(out)
        },
        ListOp::Apply(f) => {
            let out = map_each(f, l);
            proof {
                lemma_list_view(out);
            }
            Value::List(out)
        },
        ListOp::Join(glue) => match join(l, glue) {
            Some(t) => Value::String(t),
            None => Value::Null,
        },
        ListOp::Sort => crate::lists::sort(l),
        ListOp::Max => extreme(l, true),
        ListOp::Min => extreme(l, false),
        ListOp::Sum => sum(l),
        ListOp::Avg => avg(l),
        ListOp::SortBy(k) => {
            let pairs = keyed_with(k, l);
            let sorted = sort_pairs(&pairs);
            let out = items(&sorted);
            proof {
                lemma_list_view(out);
            }
            Value::List(out)
        },
        ListOp::MinBy(k) => {
            if l.len() == 0 {
                return Value::Null;
            }
            let pairs = keyed_with(k, l);
            let sorted = sort_pairs(&pairs);
            proof {
                crate::lists::lemma_sort_len(pair_models(pairs@));
            }
            sorted[0].1.deep_copy()
        },
        ListOp::MaxBy(k) => {
            if l.len() == 0 {
                return Value::Null;
            }
            let pairs = keyed_with(k, l);
            let sorted = sort_pairs(&pairs);
            proof {
                crate::lists::lemma_sort_len(pair_models(pairs@));
            }
            sorted[sorted.len() - 1].1.deep_copy()
        },
    }
}

fn dict_keys(d: &Vec<(String, Value)>) -> (r: Vec<Value>)
    ensures
        models(r@) == entry_models(d@).map_values(|e: (Seq<char>, JVal)| JVal::String(e.0)),
{
    let ghost target = entry_models(d@).map_values(|e: (Seq<char>, JVal)| JVal::String(e.0));
    let mut out: Vec<Value> = Vec::new();
    let mut i: usize = 0;
    while i < d.len()
        invariant
            target == entry_models(d@).map_values(|e: (Seq<char>, JVal)| JVal::String(e.0)),
            i <= d.len(),
            models(out@) == target.take(i as int),
        decreases d.len() - i,
    {
        let k = Value::String(d[i].0.clone());
        let ghost before = out@;
        out.push(k);
        proof {
            assert(models(out@) =~= models(before).push(k@));
            assert(models(out@) =~= target.take(i + 1));
        }
        i = i + 1;
    }
    proof {
        assert(target.take(i as int) =~= target);
    }
    out
}

fn dict_values(d: &Vec<(String, Value)>) -> (r: Vec<Value>)
    ensures
        models(r@) == values_of(entry_models(d@)),
{
    let ghost target = values_of(entry_models(d@));
    let mut out: Vec<Value> = Vec::new();
    let mut i: usize = 0;
    while i < d.len()
        invariant
            target == values_of(entry_models(d@)),
            i <= d.len(),
            models(out@) == target.take(i as int),
        decreases d.len() - i,
    {
        let c = d[i].1.deep_copy();
        let ghost before = out@;
        out.push(c);
        proof {
            assert(models(out@) =~= models(before).push(c@));
            assert(models(out@) =~= target.take(i + 1));
        }
        i = i + 1;
    }
    proof {
        assert(target.take(i as int) =~= target);
    }
    out
}

/// A string operator applied to the base value `b`.
fn eval_str_op(op: &StrOp, b: &Value) -> (r: Value)
    ensures
        r@ == str_op_spec(*op, b@),
{
    match b {
        Value::String(s) => match op {
            StrOp::Slice { start, end, step } => {
                if *step == Some(0isize) {
                    proof {
                        assert(crate::slicing::slice_positions(s@.len() as int, *start, *end, *step)
                            =~= Seq::empty());
                        assert(crate::slicing::slice_of(s@, *start, *end, *step) =~= Seq::empty());
                    }
                    Value::String(String::new())
                } else {
                    Value::String(strs::slice(s.as_str(), start, end, step))
                }
            },
            StrOp::Reverse => Value::String(strs::reverse(s.as_str())),
            StrOp::Contains(t) => Value::Bool(strs::contains(s.as_str(), t.as_str())),
            StrOp::StartsWith(t) => Value::Bool(strs::starts_with(s.as_str(), t.as_str())),
            StrOp::EndsWith(t) => Value::Bool(strs::ends_with(s.as_str(), t.as_str())),
            StrOp::Length => count_value(strs::length(s.as_str())),
        },
        _ => match op {
            StrOp::Contains(_) | StrOp::StartsWith(_) | StrOp::EndsWith(_) => Value::Bool(false),
            _ => Value::Null,
        },
    }
}

/// A dictionary operator applied to the base value `b`.
fn eval_struct_op(op: &StructOp, b: &Value) -> (r: Value)
    ensures
        r@ == struct_op_spec(*op, b@),
{
    match b {
        Value::Dict(d) => {
            proof {
                lemma_dict_view(*d);
            }
            match op {
                StructOp::Field(k) => match find_key(d, k) {
                    Some(p) => d[p].1.deep_copy(),
                    None => Value::Null,
                },
                StructOp::Keys => {
                    let out = dict_keys(d);
                    proof {
                        lemma_list_view(out);
                    }
                    Value::List(out)
                },
                StructOp::Values => {
                    let out = dict_values(d);
                    proof {
                        lemma_list_view(out);
                    }
                    Value::List(out)
                },
            }
        },
        _ => Value::Null,
    }
}

/// A number operator applied to the base value `b`.
fn eval_scalar_op(op: &ScalarOp, b: &Value) -> (r: Value)
    ensures
        r@ == scalar_op_spec(*op, b@),
{
    match b {
        Value::Number(x) => match op {
            ScalarOp::Abs => match x.checked_abs() {
                Some(a) => Value::Number(a),
                None => Value::Null,
            },
            ScalarOp::Ceil => Value::Number(x.ceil()),
            ScalarOp::Floor => Value::Number(x.floor()),
        },
        _ => Value::Null,
    }
}

/// Evaluates `node` against `input`, reporting no fault: a slice with step
/// zero picks nothing here, and dictionaries with a repeated key are taken as
/// they are. `evaluate` is the entry point that reports malformed trees and
/// inputs first.
pub fn eval_node(node: &Node, input: &Value) -> (r: Value)
    ensures
        r@ == eval_spec(*node, input@),
    decreases node, 1nat,
{
    match node {
        Node::This => input.deep_copy(),
        Node::Literal(x) => x.deep_copy(),
        Node::Pipe(a, b) => {
            let m = eval_node(a, input);
            eval_node(b, &m)
        },
        Node::MultiList(items) => {
            let out = eval_all(items, input);
            proof {
                lemma_list_view(out);
                assert(models(out@) =~= eval_spec(*node, input@)->List_0);
            }
            Value::List(out)
        },
        Node::MultiDict(items) => {
            let entries = eval_entries(items, input);
            let mut out: Vec<(String, Value)> = Vec::new();
            proof {
                assert(entry_models(out@) =~= Seq::empty());
            }
            set_entries(&mut out, &entries);
            proof {
                lemma_dict_view(out);
            }
            Value::Dict(out)
        },
        Node::ProjectArray(base, rhs) => match eval_node(base, input) {
            Value::List(l) => {
                proof {
                    lemma_list_view(l);
                }
                let m = map_each(rhs, &l);
                let out = without_nulls(&m);
                proof {
                    lemma_list_view(out);
                }
                Value::List(out)
            },
            other => {
                proof {
                    assert(!(other@ is List));
                }
                Value::Null
            },
        },
        Node::ProjectObject(base, rhs) => match eval_node(base, input) {
            Value::Dict(d) => {
                proof {
                    lemma_dict_view(d);
                }
                let vl = dict_values(&d);
                let m = map_each(rhs, &vl);
                let out = without_nulls(&m);
                proof {
                    lemma_list_view(out);
                }
                Value::List(out)
            },
            other => {
                proof {
                    assert(!(other@ is Dict));
                }
                Value::Null
            },
        },
        Node::FilterProjection(base, cond, then) => match eval_node(base, input) {
            Value::List(l) => {
                proof {
                    lemma_list_view(l);
                }
                let vals = map_each(then, &l);
                let flags = flags_with(cond, &l);
                proof {
                    assert(models(vals@).len() == vals@.len());
                    assert(flags@.len() == models(l@).len());
                }
                let out = keep_flagged(&vals, &flags);
                proof {
                    lemma_list_view(out);
                }
                Value::List(out)
            },
            other => {
                proof {
                    assert(!(other@ is List));
                }
                Value::Null
            },
        },
        Node::And(a, b) => {
            let l = eval_node(a, input);
            if l.is_truthy() {
                eval_node(b, input)
            } else {
                l
            }
        },
        Node::Or(a, b) => {
            let l = eval_node(a, input);
            if l.is_truthy() {
                l
            } else {
                eval_node(b, input)
            }
        },
        Node::Not(x) => {
            let v = eval_node(x, input);
            Value::Bool(!v.is_truthy())
        },
        Node::Coalesce(items) => {
            let vals = eval_all(items, input);
            first_present(&vals)
        },
        Node::Merge(items) => {
            let vals = eval_all(items, input);
            merge_values(&vals)
        },
        Node::List(base, _) => match eval_node(base, input) {
            Value::List(l) => {
                proof {
                    lemma_list_view(l);
                }
                eval_list_op(node, &l, input)
            },
            other => {
                proof {
                    assert(!(other@ is List));
                }
                Value::Null
            },
        },
        Node::Str(base, op) => {
            let b = eval_node(base, input);
            eval_str_op(op, &b)
        },
        Node::Struct(base, op) => {
            let b = eval_node(base, input);
            eval_struct_op(op, &b)
        },
        Node::Scalar(base, op) => {
            let b = eval_node(base, input);
            eval_scalar_op(op, &b)
        },
        Node::Compare(base, op) => {
            let l = eval_node(base, input);
            match op {
                ComparisonOp::Eq(o) => {
                    let r = eval_node(o, input);
                    Value::Bool(eq_semantics(&l, &r))
                },
                ComparisonOp::Ne(o) => {
                    let r = eval_node(o, input);
                    Value::Bool(!eq_semantics(&l, &r))
                },
                ComparisonOp::Lt(o) => {
                    let r = eval_node(o, input);
                    Value::Bool(compare(&l, &r, &Ordering::Lt))
                },
                ComparisonOp::Le(o) => {
                    let r = eval_node(o, input);
                    Value::Bool(compare(&l, &r, &Ordering::Le))
                },
                ComparisonOp::Gt(o) => {
                    let r = eval_node(o, input);
                    Value::Bool(compare(&l, &r, &Ordering::Gt))
                },
                ComparisonOp::Ge(o) => {
                    let r = eval_node(o, input);
                    Value::Bool(compare(&l, &r, &Ordering::Ge))
                },
            }
        },
    }
}

} // verus!

verus! {

/// A fault in how a tree was built, reported by `evaluate`.
#[derive(Debug, Clone, Copy, PartialEq, Eq)]
pub enum EvalError {
    /// A slice with step zero.
    ZeroStep,
    /// A dictionary, in the input or in a literal, that holds a key twice.
    RepeatedKey,
}

fn zero_step_in(items: &Vec<Node>) -> (r: bool)
    ensures
        r == zero_step_among(*items, items.len() as int),
    decreases items, 2nat, items.len() as int,
{
    let mut i: usize = 0;
    let mut found = false;
    while i < items.len()
        invariant
            i <= items.len(),
            found == zero_step_among(*items, i as int),
        decreases items.len() - i,
    {
        proof {
            vstd::std_specs::vec::axiom_vec_index_decreases(*items, i as int);
        }
        if !found {
            found = find_zero_step(&items[i]);
        }
        i = i + 1;
    }
    found
}

fn zero_step_in_entries(items: &Vec<(String, Node)>) -> (r: bool)
    ensures
        r == zero_step_among_entries(*items, items.len() as int),
    decreases items, 2nat, items.len() as int,
{
    let mut i: usize = 0;
    let mut found = false;
    while i < items.len()
        invariant
            i <= items.len(),
            found == zero_step_among_entries(*items, i as int),
        decreases items.len() - i,
    {
        proof {
            vstd::std_specs::vec::axiom_vec_index_decreases(*items, i as int);
            assert(decreases_to!(*items => items[i as int].1));
        }
        if !found {
            found = find_zero_step(&items[i].1);
        }
        i = i + 1;
    }
    found
}

/// Whether the tree holds a slice with step zero.
pub fn find_zero_step(node: &Node) -> (r: bool)
    ensures
        r == has_zero_step(*node),
    decreases node, 3nat, 0int,
{
    match node {
        Node::This | Node::Literal(_) => false,
        Node::Pipe(a, b) | Node::ProjectArray(a, b) | Node::ProjectObject(a, b) | Node::And(a, b)
        | Node::Or(a, b) => find_zero_step(a) || find_zero_step(b),
        Node::FilterProjection(a, b, c) => find_zero_step(a) || find_zero_step(b) || find_zero_step(c),
        Node::Not(x) => find_zero_step(x),
        Node::MultiList(items) | Node::Coalesce(items) | Node::Merge(items) => zero_step_in(items),
        Node::MultiDict(items) => zero_step_in_entries(items),
        Node::List(b, op) => find_zero_step(b) || match op {
            ListOp::Slice { step, .. } => *step == Some(0isize),
            ListOp::Contains(t) | ListOp::Filter(t) | ListOp::Apply(t) | ListOp::SortBy(t)
            | ListOp::MinBy(t) | ListOp::MaxBy(t) => find_zero_step(t),
            _ => false,
        },
        Node::Str(b, op) => find_zero_step(b) || match op {
            StrOp::Slice { step, .. } => *step == Some(0isize),
            _ => false,
        },
        Node::Struct(b, _) | Node::Scalar(b, _) => find_zero_step(b),
        Node::Compare(b, op) => find_zero_step(b) || match op {
            ComparisonOp::Eq(o) | ComparisonOp::Ne(o) | ComparisonOp::Lt(o) | ComparisonOp::Le(o)
            | ComparisonOp::Gt(o) | ComparisonOp::Ge(o) => find_zero_step(o),
        },
    }
}

fn bad_literal_in(items: &Vec<Node>) -> (r: bool)
    ensures
        r == bad_literal_among(*items, items.len() as int),
    decreases items, 2nat, items.len() as int,
{
    let mut i: usize = 0;
    let mut found = false;
    while i < items.len()
        invariant
            i <= items.len(),
            found == bad_literal_among(*items, i as int),
        decreases items.len() - i,
    {
        proof {
            vstd::std_specs::vec::axiom_vec_index_decreases(*items, i as int);
        }
        if !found {
            found = find_bad_literal(&items[i]);
        }
        i = i + 1;
    }
    found
}

fn bad_literal_in_entries(items: &Vec<(String, Node)>) -> (r: bool)
    ensures
        r == bad_literal_among_entries(*items, items.len() as int),
    decreases items, 2nat, items.len() as int,
{
    let mut i: usize = 0;
    let mut found = false;
    while i < items.len()
        invariant
            i <= items.len(),
            found == bad_literal_among_entries(*items, i as int),
        decreases items.len() - i,
    {
        proof {
            vstd::std_specs::vec::axiom_vec_index_decreases(*items, i as int);
            assert(decreases_to!(*items => items[i as int].1));
        }
        if !found {
            found = find_bad_literal(&items[i].1);
        }
        i = i + 1;
    }
    found
}

/// Whether the tree holds a literal in which a dictionary repeats a key.
pub fn find_bad_literal(node: &Node) -> (r: bool)
    ensures
        r == has_bad_literal(*node),
    decreases node, 3nat, 0int,
{
    match node {
        Node::This => false,
        Node::Literal(x) => !is_well_formed(x),
        Node::Pipe(a, b) | Node::ProjectArray(a, b) | Node::ProjectObject(a, b) | Node::And(a, b)
        | Node::Or(a, b) => find_bad_literal(a) || find_bad_literal(b),
        Node::FilterProjection(a, b, c) => find_bad_literal(a) || find_bad_literal(b) || find_bad_literal(c),
        Node::Not(x) => find_bad_literal(x),
        Node::MultiList(items) | Node::Coalesce(items) | Node::Merge(items) => bad_literal_in(items),
        Node::MultiDict(items) => bad_literal_in_entries(items),
        Node::List(b, op) => find_bad_literal(b) || match op {
            ListOp::Contains(t) | ListOp::Filter(t) | ListOp::Apply(t) | ListOp::SortBy(t)
            | ListOp::MinBy(t) | ListOp::MaxBy(t) => find_bad_literal(t),
            _ => false,
        },
        Node::Str(b, _) | Node::Struct(b, _) | Node::Scalar(b, _) => find_bad_literal(b),
        Node::Compare(b, op) => find_bad_literal(b) || match op {
            ComparisonOp::Eq(o) | ComparisonOp::Ne(o) | ComparisonOp::Lt(o) | ComparisonOp::Le(o)
            | ComparisonOp::Gt(o) | ComparisonOp::Ge(o) => find_bad_literal(o),
        },
    }
}

/// Evaluates the tree `node` against `input`. A tree that holds a slice
/// with step zero, or a literal in which a dictionary repeats a key, is
/// malformed and reported as such; so is an input in which a dictionary
/// repeats a key. Any other tree and input yield a value, type mismatches
/// resolving to null or false.
pub fn evaluate(node: &Node, input: &Value) -> (r: Result<Value, EvalError>)
    ensures
        r == Err::<Value, EvalError>(EvalError::ZeroStep) <==> has_zero_step(*node),
        r == Err::<Value, EvalError>(EvalError::RepeatedKey) <==> !has_zero_step(*node) && (
        has_bad_literal(*node) || !well_formed(input@)),
        r is Ok ==> r->Ok_0@ == eval_spec(*node, input@),
{
    if find_zero_step(node) {
        Err(EvalError::ZeroStep)
    } else if find_bad_literal(node) || !is_well_formed(input) {
        Err(EvalError::RepeatedKey)
    } else {
        Ok(eval_node(node, input))
    }
}

} // verus!
