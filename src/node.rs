use crate::lists::{
    avg_spec, extreme_spec, flatten_spec, items_of, join_spec, all_strings, sort_keyed, sort_spec,
    sum_spec,
};
use crate::number::{abs_int, ceil_of, floor_of, Number};
use crate::slicing::{index_position, slice_of};
use crate::strs::{occurs_at, occurs_in, reversed};
use crate::value::{
    compare_spec, json_eq, key_pos, lookup, truthy, well_formed, JVal, Ordering, Value,
};
use vstd::prelude::*;

verus! {

/// An operator on a list.
pub enum ListOp {
    Index(isize),
    Slice { start: Option<isize>, end: Option<isize>, step: Option<isize> },
    Length,
    Reverse,
    Flatten,
    Contains(Box<Node>),
    Filter(Box<Node>),
    Apply(Box<Node>),
    Join(String),
    Sort,
    Max,
    Min,
    Sum,
    Avg,
    SortBy(Box<Node>),
    MinBy(Box<Node>),
    MaxBy(Box<Node>),
}

/// An operator on a string.
pub enum StrOp {
    Slice { start: Option<isize>, end: Option<isize>, step: Option<isize> },
    Reverse,
    Contains(String),
    StartsWith(String),
    EndsWith(String),
    Length,
}

/// An operator on a dictionary.
pub enum StructOp {
    Field(String),
    Keys,
    Values,
}

/// An operator on a number.
pub enum ScalarOp {
    Abs,
    Ceil,
    Floor,
}

/// A comparison of the base with the value of another node.
pub enum ComparisonOp {
    Eq(Box<Node>),
    Ne(Box<Node>),
    Lt(Box<Node>),
    Le(Box<Node>),
    Gt(Box<Node>),
    Ge(Box<Node>),
}

/// One step of an expression tree.
pub enum Node {
    /// The input itself.
    This,
    /// A constant.
    Literal(Value),
    /// The right node applied to the result of the left one.
    Pipe(Box<Node>, Box<Node>),
    /// A list of the children's results, all on the same input.
    MultiList(Vec<Node>),
    /// A dictionary of the children's results under the given keys; where a
    /// key repeats, the later child's result stands in the first one's place.
    MultiDict(Vec<(String, Node)>),
    /// The right node over each element of the base list, nulls dropped.
    ProjectArray(Box<Node>, Box<Node>),
    /// The right node over each value of the base dictionary, nulls dropped.
    ProjectObject(Box<Node>, Box<Node>),
    /// Base list, condition, result: the result node over each element for
    /// which the condition is truthy.
    FilterProjection(Box<Node>, Box<Node>, Box<Node>),
    And(Box<Node>, Box<Node>),
    Or(Box<Node>, Box<Node>),
    Not(Box<Node>),
    /// The first child result that is not null.
    Coalesce(Vec<Node>),
    /// The children's dictionaries merged, later keys winning.
    Merge(Vec<Node>),
    List(Box<Node>, ListOp),
    Str(Box<Node>, StrOp),
    Struct(Box<Node>, StructOp),
    Scalar(Box<Node>, ScalarOp),
    Compare(Box<Node>, ComparisonOp),
}

/// The elements of `s` that are not null, in order.
pub open spec fn drop_nulls(s: Seq<JVal>) -> Seq<JVal>
    decreases s.len(),
{
    if s.len() == 0 {
        Seq::empty()
    } else if s.last() is Null {
        drop_nulls(s.drop_last())
    } else {
        drop_nulls(s.drop_last()).push(s.last())
    }
}

/// The elements of `s` whose flag is set, in order.
pub open spec fn keep(s: Seq<JVal>, flags: Seq<bool>) -> Seq<JVal>
    decreases s.len(),
{
    if s.len() == 0 {
        Seq::empty()
    } else if flags[s.len() - 1] {
        keep(s.drop_last(), flags).push(s.last())
    } else {
        keep(s.drop_last(), flags)
    }
}

/// The first element that is not null, or null.
pub open spec fn first_non_null(s: Seq<JVal>) -> JVal
    decreases s.len(),
{
    if s.len() == 0 {
        JVal::Null
    } else {
        let f = first_non_null(s.drop_last());
        if f is Null {
            s.last()
        } else {
            f
        }
    }
}

pub open spec fn all_dicts(s: Seq<JVal>) -> bool {
    forall|i: int| 0 <= i < s.len() ==> (#[trigger] s[i]) is Dict
}

/// `m` with entry `e` set: in place if its key is present, else appended.
pub open spec fn dict_set(m: Seq<(Seq<char>, JVal)>, e: (Seq<char>, JVal)) -> Seq<(Seq<char>, JVal)> {
    match key_pos(m, e.0) {
        Some(i) => m.update(i, e),
        None => m.push(e),
    }
}

/// `m` with every entry of `d` set, in order.
pub open spec fn set_all(m: Seq<(Seq<char>, JVal)>, d: Seq<(Seq<char>, JVal)>) -> Seq<(Seq<char>, JVal)>
    decreases d.len(),
{
    if d.len() == 0 {
        m
    } else {
        dict_set(set_all(m, d.drop_last()), d.last())
    }
}

/// The dictionaries of `s` merged left to right.
pub open spec fn merge_entries(s: Seq<JVal>) -> Seq<(Seq<char>, JVal)>
    decreases s.len(),
{
    if s.len() == 0 {
        Seq::empty()
    } else {
        set_all(merge_entries(s.drop_last()), s.last()->Dict_0)
    }
}

pub open spec fn merge_spec(s: Seq<JVal>) -> JVal {
    if all_dicts(s) {
        JVal::Dict(merge_entries(s))
    } else {
        JVal::Null
    }
}

/// Some element of `s` equals `t` under the engine's equality.
pub open spec fn contains_spec(s: Seq<JVal>, t: JVal) -> bool {
    exists|i: int| 0 <= i < s.len() && json_eq(#[trigger] s[i], t)
}

pub open spec fn index_spec(s: Seq<JVal>, i: int) -> JVal {
    let k = index_position(s.len() as int, i);
    if 0 <= k < s.len() {
        s[k]
    } else {
        JVal::Null
    }
}

pub open spec fn whole_number(n: int) -> JVal {
    JVal::Number(Number { num: n as i64, den: 1 })
}

/// A count as a number, or null beyond the range of `Number`.
pub open spec fn count_spec(n: int) -> JVal {
    if n <= i64::MAX {
        whole_number(n)
    } else {
        JVal::Null
    }
}

/// A string operator on base value `b`: null when `b` is not a string, or
/// false for the operators that answer yes or no.
pub open spec fn str_op_spec(op: StrOp, b: JVal) -> JVal {
    match b {
        JVal::String(s) => match op {
            StrOp::Slice { start, end, step } => JVal::String(slice_of(s, start, end, step)),
            StrOp::Reverse => JVal::String(reversed(s)),
            StrOp::Contains(t) => JVal::Bool(occurs_in(s, t@)),
            StrOp::StartsWith(t) => JVal::Bool(occurs_at(s, t@, 0)),
            StrOp::EndsWith(t) => JVal::Bool(occurs_at(s, t@, s.len() - t@.len())),
            StrOp::Length => count_spec(s.len() as int),
        },
        _ => match op {
            StrOp::Contains(_) | StrOp::StartsWith(_) | StrOp::EndsWith(_) => JVal::Bool(false),
            _ => JVal::Null,
        },
    }
}

/// A dictionary operator on base value `b`: null when `b` is not a dictionary.
pub open spec fn struct_op_spec(op: StructOp, b: JVal) -> JVal {
    match b {
        JVal::Dict(d) => match op {
            StructOp::Field(k) => match lookup(d, k@) {
                Some(x) => x,
                None => JVal::Null,
            },
            StructOp::Keys => JVal::List(d.map_values(|e: (Seq<char>, JVal)| JVal::String(e.0))),
            StructOp::Values => JVal::List(values_of(d)),
        },
        _ => JVal::Null,
    }
}

/// A number operator on base value `b`: null when `b` is not a number, or
/// when the absolute value leaves the range of `Number`.
pub open spec fn scalar_op_spec(op: ScalarOp, b: JVal) -> JVal {
    match b {
        JVal::Number(x) => match op {
            ScalarOp::Abs => if x.num == i64::MIN {
                JVal::Null
            } else {
                JVal::Number(Number { num: abs_int(x.n()) as i64, den: x.den })
            },
            ScalarOp::Ceil => whole_number(ceil_of(x)),
            ScalarOp::Floor => whole_number(floor_of(x)),
        },
        _ => JVal::Null,
    }
}

/// Each node of `items` evaluated against `v`.
pub open spec fn results(items: Vec<Node>, v: JVal) -> Seq<JVal>
    decreases items, 2nat,
{
    Seq::new(
        items.len() as nat,
        |i: int|
            if 0 <= i < items.len() {
                eval_spec(items[i], v)
            } else {
                JVal::Null
            },
    )
}

/// Each keyed node of `items` evaluated against `v`.
pub open spec fn entry_results(items: Vec<(String, Node)>, v: JVal) -> Seq<(Seq<char>, JVal)>
    decreases items, 2nat,
{
    Seq::new(
        items.len() as nat,
        |i: int|
            if 0 <= i < items.len() {
                (items[i].0@, eval_spec(items[i].1, v))
            } else {
                (Seq::empty(), JVal::Null)
            },
    )
}

/// `f` evaluated against each element of `s`.
pub open spec fn mapped(s: Seq<JVal>, f: Node) -> Seq<JVal>
    decreases f, 2nat,
{
    Seq::new(s.len(), |i: int| eval_spec(f, s[i]))
}

/// Whether `c` is truthy against each element of `s`.
pub open spec fn flags_of(s: Seq<JVal>, c: Node) -> Seq<bool>
    decreases c, 2nat,
{
    Seq::new(s.len(), |i: int| truthy(eval_spec(c, s[i])))
}

/// The values of the entries of `d`.
pub open spec fn values_of(d: Seq<(Seq<char>, JVal)>) -> Seq<JVal> {
    d.map_values(|e: (Seq<char>, JVal)| e.1)
}

/// Each element of `s` paired with its key under `k`.
pub open spec fn keyed_by(s: Seq<JVal>, k: Node) -> Seq<(JVal, JVal)>
    decreases k, 2nat,
{
    Seq::new(s.len(), |i: int| (eval_spec(k, s[i]), s[i]))
}

/// What evaluating `node` against input `v` yields.
pub open spec fn eval_spec(node: Node, v: JVal) -> JVal
    decreases node, 1nat,
{
    match node {
        Node::This => v,
        Node::Literal(x) => x@,
        Node::Pipe(a, b) => eval_spec(*b, eval_spec(*a, v)),
        Node::MultiList(items) => JVal::List(results(items, v)),
        Node::MultiDict(items) => JVal::Dict(set_all(Seq::empty(), entry_results(items, v))),
        Node::ProjectArray(base, rhs) => match eval_spec(*base, v) {
            JVal::List(s) => JVal::List(drop_nulls(mapped(s, *rhs))),
            _ => JVal::Null,
        },
        Node::ProjectObject(base, rhs) => match eval_spec(*base, v) {
            JVal::Dict(d) => JVal::List(drop_nulls(mapped(values_of(d), *rhs))),
            _ => JVal::Null,
        },
        Node::FilterProjection(base, cond, then) => match eval_spec(*base, v) {
            JVal::List(s) => JVal::List(keep(mapped(s, *then), flags_of(s, *cond))),
            _ => JVal::Null,
        },
        Node::And(a, b) => {
            let l = eval_spec(*a, v);
            if truthy(l) {
                eval_spec(*b, v)
            } else {
                l
            }
        },
        Node::Or(a, b) => {
            let l = eval_spec(*a, v);
            if truthy(l) {
                l
            } else {
                eval_spec(*b, v)
            }
        },
        Node::Not(x) => JVal::Bool(!truthy(eval_spec(*x, v))),
        Node::Coalesce(items) => first_non_null(results(items, v)),
        Node::Merge(items) => merge_spec(results(items, v)),
        Node::List(base, op) => match eval_spec(*base, v) {
            JVal::List(s) => match op {
                ListOp::Index(i) => index_spec(s, i as int),
                ListOp::Slice { start, end, step } => JVal::List(slice_of(s, start, end, step)),
                ListOp::Length => count_spec(s.len() as int),
                ListOp::Reverse => JVal::List(reversed(s)),
                ListOp::Flatten => JVal::List(flatten_spec(s)),
                ListOp::Contains(t) => JVal::Bool(contains_spec(s, eval_spec(*t, v))),
                ListOp::Filter(c) => JVal::List(keep(s, flags_of(s, *c))),
                ListOp::Apply(f) => JVal::List(mapped(s, *f)),
                ListOp::Join(glue) => if all_strings(s) {
                    JVal::String(join_spec(s, glue@))
                } else {
                    JVal::Null
                },
                ListOp::Sort => sort_spec(s),
                ListOp::Max => extreme_spec(s, true),
                ListOp::Min => extreme_spec(s, false),
                ListOp::Sum => sum_spec(s),
                ListOp::Avg => avg_spec(s),
                ListOp::SortBy(k) => JVal::List(items_of(sort_keyed(keyed_by(s, *k)))),
                ListOp::MinBy(k) => if s.len() == 0 {
                    JVal::Null
                } else {
                    sort_keyed(keyed_by(s, *k))[0].1
                },
                ListOp::MaxBy(k) => if s.len() == 0 {
                    JVal::Null
                } else {
                    sort_keyed(keyed_by(s, *k)).last().1
                },
            },
            _ => JVal::Null,
        },
        Node::Str(base, op) => str_op_spec(op, eval_spec(*base, v)),
        Node::Struct(base, op) => struct_op_spec(op, eval_spec(*base, v)),
        Node::Scalar(base, op) => scalar_op_spec(op, eval_spec(*base, v)),
        Node::Compare(base, op) => {
            let l = eval_spec(*base, v);
            match op {
                ComparisonOp::Eq(o) => JVal::Bool(json_eq(l, eval_spec(*o, v))),
                ComparisonOp::Ne(o) => JVal::Bool(!json_eq(l, eval_spec(*o, v))),
                ComparisonOp::Lt(o) => JVal::Bool(compare_spec(l, eval_spec(*o, v), Ordering::Lt)),
                ComparisonOp::Le(o) => JVal::Bool(compare_spec(l, eval_spec(*o, v), Ordering::Le)),
                ComparisonOp::Gt(o) => JVal::Bool(compare_spec(l, eval_spec(*o, v), Ordering::Gt)),
                ComparisonOp::Ge(o) => JVal::Bool(compare_spec(l, eval_spec(*o, v), Ordering::Ge)),
            }
        },
    }
}

} // verus!

verus! {

/// Some node among the first `n` of `items` holds a slice with step zero.
pub open spec fn zero_step_among(items: Vec<Node>, n: int) -> bool
    decreases items, 2nat, n,
{
    if 0 < n <= items.len() {
        zero_step_among(items, n - 1) || has_zero_step(items[n - 1])
    } else {
        false
    }
}

/// Some node among the first `n` entries of `items` holds a slice with step zero.
pub open spec fn zero_step_among_entries(items: Vec<(String, Node)>, n: int) -> bool
    decreases items, 2nat, n,
{
    if 0 < n <= items.len() {
        zero_step_among_entries(items, n - 1) || has_zero_step(items[n - 1].1)
    } else {
        false
    }
}

/// The tree holds a slice whose step is zero: a malformed tree.
pub open spec fn has_zero_step(node: Node) -> bool
    decreases node, 3nat, 0int,
{
    match node {
        Node::This | Node::Literal(_) => false,
        Node::Pipe(a, b) | Node::ProjectArray(a, b) | Node::ProjectObject(a, b) | Node::And(a, b)
        | Node::Or(a, b) => has_zero_step(*a) || has_zero_step(*b),
        Node::FilterProjection(a, b, c) => has_zero_step(*a) || has_zero_step(*b) || has_zero_step(*c),
        Node::Not(x) => has_zero_step(*x),
        Node::MultiList(items) | Node::Coalesce(items) | Node::Merge(items) => zero_step_among(
            items,
            items.len() as int,
        ),
        Node::MultiDict(items) => zero_step_among_entries(items, items.len() as int),
        Node::List(b, op) => has_zero_step(*b) || match op {
            ListOp::Slice { step, .. } => step == Some(0isize),
            ListOp::Contains(t) | ListOp::Filter(t) | ListOp::Apply(t) | ListOp::SortBy(t)
            | ListOp::MinBy(t) | ListOp::MaxBy(t) => has_zero_step(*t),
            _ => false,
        },
        Node::Str(b, op) => has_zero_step(*b) || match op {
            StrOp::Slice { step, .. } => step == Some(0isize),
            _ => false,
        },
        Node::Struct(b, _) | Node::Scalar(b, _) => has_zero_step(*b),
        Node::Compare(b, op) => has_zero_step(*b) || match op {
            ComparisonOp::Eq(o) | ComparisonOp::Ne(o) | ComparisonOp::Lt(o) | ComparisonOp::Le(o)
            | ComparisonOp::Gt(o) | ComparisonOp::Ge(o) => has_zero_step(*o),
        },
    }
}

} // verus!

verus! {

/// Some node among the first `n` of `items` holds a literal with a repeated dictionary key.
pub open spec fn bad_literal_among(items: Vec<Node>, n: int) -> bool
    decreases items, 2nat, n,
{
    if 0 < n <= items.len() {
        bad_literal_among(items, n - 1) || has_bad_literal(items[n - 1])
    } else {
        false
    }
}

/// Some node among the first `n` entries of `items` holds a literal with a repeated dictionary key.
pub open spec fn bad_literal_among_entries(items: Vec<(String, Node)>, n: int) -> bool
    decreases items, 2nat, n,
{
    if 0 < n <= items.len() {
        bad_literal_among_entries(items, n - 1) || has_bad_literal(items[n - 1].1)
    } else {
        false
    }
}

/// The tree holds a literal in which some dictionary repeats a key: a
/// malformed tree.
pub open spec fn has_bad_literal(node: Node) -> bool
    decreases node, 3nat, 0int,
{
    match node {
        Node::This => false,
        Node::Literal(x) => !well_formed(x@),
        Node::Pipe(a, b) | Node::ProjectArray(a, b) | Node::ProjectObject(a, b) | Node::And(a, b)
        | Node::Or(a, b) => has_bad_literal(*a) || has_bad_literal(*b),
        Node::FilterProjection(a, b, c) => has_bad_literal(*a) || has_bad_literal(*b) || has_bad_literal(*c),
        Node::Not(x) => has_bad_literal(*x),
        Node::MultiList(items) | Node::Coalesce(items) | Node::Merge(items) => bad_literal_among(
            items,
            items.len() as int,
        ),
        Node::MultiDict(items) => bad_literal_among_entries(items, items.len() as int),
        Node::List(b, op) => has_bad_literal(*b) || match op {
            ListOp::Contains(t) | ListOp::Filter(t) | ListOp::Apply(t) | ListOp::SortBy(t)
            | ListOp::MinBy(t) | ListOp::MaxBy(t) => has_bad_literal(*t),
            _ => false,
        },
        Node::Str(b, _) | Node::Struct(b, _) | Node::Scalar(b, _) => has_bad_literal(*b),
        Node::Compare(b, op) => has_bad_literal(*b) || match op {
            ComparisonOp::Eq(o) | ComparisonOp::Ne(o) | ComparisonOp::Lt(o) | ComparisonOp::Le(o)
            | ComparisonOp::Gt(o) | ComparisonOp::Ge(o) => has_bad_literal(*o),
        },
    }
}

} // verus!
