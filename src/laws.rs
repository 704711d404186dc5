use crate::lists::{insert_keyed, items_of, key_le, key_rank, keyed_sorted, sort_keyed};
use crate::node::{
    all_dicts, drop_nulls, eval_spec, keyed_by, results, ListOp, Node, ScalarOp, StrOp, StructOp,
};
use crate::number::Number;
use crate::value::{json_eq, str_lt, JVal};
use vstd::prelude::*;

verus! {

/// A list operator applied to the input itself.
pub open spec fn on_input_list(op: ListOp) -> Node {
    Node::List(Box::new(Node::This), op)
}

/// Every list operator yields null on an input that is not a list.
pub proof fn lemma_list_ops_need_list(op: ListOp, v: JVal)
    requires
        !(v is List),
    ensures
        eval_spec(on_input_list(op), v) == JVal::Null,
{
    reveal_with_fuel(eval_spec, 2);
}

/// Every string operator yields null on an input that is not a string,
/// but `contains`, `starts_with` and `ends_with`, which yield false.
pub proof fn lemma_str_ops_need_string(op: StrOp, v: JVal)
    requires
        !(v is String),
    ensures
        eval_spec(Node::Str(Box::new(Node::This), op), v) == match op {
            StrOp::Contains(_) | StrOp::StartsWith(_) | StrOp::EndsWith(_) => JVal::Bool(false),
            _ => JVal::Null,
        },
{
    reveal_with_fuel(eval_spec, 2);
}

/// Every dictionary operator yields null on an input that is not a dictionary.
pub proof fn lemma_struct_ops_need_dict(op: StructOp, v: JVal)
    requires
        !(v is Dict),
    ensures
        eval_spec(Node::Struct(Box::new(Node::This), op), v) == JVal::Null,
{
    reveal_with_fuel(eval_spec, 2);
}

/// Every number operator yields null on an input that is not a number.
pub proof fn lemma_scalar_ops_need_number(op: ScalarOp, v: JVal)
    requires
        !(v is Number),
    ensures
        eval_spec(Node::Scalar(Box::new(Node::This), op), v) == JVal::Null,
{
    reveal_with_fuel(eval_spec, 2);
}

/// A boolean never equals a number, whatever the two hold.
pub proof fn lemma_bool_never_equals_number(b: bool, n: Number)
    ensures
        !json_eq(JVal::Bool(b), JVal::Number(n)),
        !json_eq(JVal::Number(n), JVal::Bool(b)),
{
}

/// An array projection over a list holds no null.
pub proof fn lemma_projection_has_no_null(base: Node, rhs: Node, v: JVal)
    ensures
        eval_spec(Node::ProjectArray(Box::new(base), Box::new(rhs)), v) matches JVal::List(o) ==> forall|i: int|
            0 <= i < o.len() ==> !(#[trigger] o[i] is Null),
{
    match eval_spec(base, v) {
        JVal::List(s) => lemma_drop_nulls_no_null(crate::node::mapped(s, rhs)),
        _ => {},
    }
}

proof fn lemma_drop_nulls_no_null(s: Seq<JVal>)
    ensures
        forall|i: int| 0 <= i < drop_nulls(s).len() ==> !(#[trigger] drop_nulls(s)[i] is Null),
    decreases s.len(),
{
    if s.len() > 0 {
        lemma_drop_nulls_no_null(s.drop_last());
    }
}

/// A merge yields null as soon as one child's result is not a dictionary.
pub proof fn lemma_merge_needs_dicts(items: Vec<Node>, v: JVal, i: int)
    requires
        0 <= i < items.len(),
        !(eval_spec(items[i], v) is Dict),
    ensures
        eval_spec(Node::Merge(items), v) == JVal::Null,
{
    assert(results(items, v)[i] == eval_spec(items[i], v));
    assert(!all_dicts(results(items, v)));
}

proof fn lemma_str_lt_asym(a: Seq<char>, b: Seq<char>)
    ensures
        !(str_lt(a, b) && str_lt(b, a)),
    decreases a.len(),
{
    if a.len() > 0 && b.len() > 0 && a[0] == b[0] {
        lemma_str_lt_asym(a.drop_first(), b.drop_first());
    }
}

/// Any two sort keys are ordered one way or the other.
pub proof fn lemma_key_le_total(a: JVal, b: JVal)
    ensures
        key_le(a, b) || key_le(b, a),
{
    match (a, b) {
        (JVal::String(x), JVal::String(y)) => lemma_str_lt_asym(x, y),
        _ => {},
    }
}

proof fn lemma_insert_sorted(x: (JVal, JVal), t: Seq<(JVal, JVal)>)
    requires
        keyed_sorted(t),
    ensures
        keyed_sorted(insert_keyed(x, t)),
        insert_keyed(x, t).len() == t.len() + 1,
        insert_keyed(x, t).last() == if t.len() == 0 || key_le(t.last().0, x.0) {
            x
        } else {
            t.last()
        },
    decreases t.len(),
{
    if t.len() > 0 && !key_le(t.last().0, x.0) {
        let u = t.drop_last();
        assert(keyed_sorted(u)) by {
            assert forall|i: int| 0 < i < u.len() implies key_le(#[trigger] u[i - 1].0, u[i].0) by {
                assert(t[i - 1] == u[i - 1] && t[i] == u[i]);
            }
        }
        lemma_insert_sorted(x, u);
        let w = insert_keyed(x, u);
        lemma_key_le_total(t.last().0, x.0);
        if u.len() > 0 {
            assert(key_le(t[t.len() - 2].0, t[t.len() - 1].0));
        }
        assert(key_le(w.last().0, t.last().0));
        let r = w.push(t.last());
        assert forall|i: int| 0 < i < r.len() implies key_le(#[trigger] r[i - 1].0, r[i].0) by {
            if i < r.len() - 1 {
                assert(r[i - 1] == w[i - 1] && r[i] == w[i]);
            }
        }
    } else if t.len() > 0 {
        let r = t.push(x);
        assert forall|i: int| 0 < i < r.len() implies key_le(#[trigger] r[i - 1].0, r[i].0) by {
            if i < r.len() - 1 {
                assert(r[i - 1] == t[i - 1] && r[i] == t[i]);
            }
        }
    }
}

/// The stable sort by key yields pairs whose keys never decrease.
pub proof fn lemma_sort_keyed_sorted(s: Seq<(JVal, JVal)>)
    ensures
        keyed_sorted(sort_keyed(s)),
        sort_keyed(s).len() == s.len(),
    decreases s.len(),
{
    if s.len() > 0 {
        lemma_sort_keyed_sorted(s.drop_last());
        lemma_insert_sorted(s.last(), sort_keyed(s.drop_last()));
    }
}

/// Sorting pairs whose keys never decrease changes nothing.
pub proof fn lemma_sort_keyed_fixes_sorted(t: Seq<(JVal, JVal)>)
    requires
        keyed_sorted(t),
    ensures
        sort_keyed(t) == t,
    decreases t.len(),
{
    if t.len() > 0 {
        let u = t.drop_last();
        assert(keyed_sorted(u)) by {
            assert forall|i: int| 0 < i < u.len() implies key_le(#[trigger] u[i - 1].0, u[i].0) by {
                assert(t[i - 1] == u[i - 1] && t[i] == u[i]);
            }
        }
        lemma_sort_keyed_fixes_sorted(u);
        if u.len() > 0 {
            assert(key_le(t[t.len() - 2].0, t[t.len() - 1].0));
            assert(u.push(t.last()) =~= t);
        } else {
            assert(seq![t.last()] =~= t);
        }
    }
}

/// Every pair holds the key of its item under `k`.
pub open spec fn keys_agree(s: Seq<(JVal, JVal)>, k: Node) -> bool {
    forall|i: int| 0 <= i < s.len() ==> (#[trigger] s[i]).0 == eval_spec(k, s[i].1)
}

proof fn lemma_insert_keys_agree(x: (JVal, JVal), t: Seq<(JVal, JVal)>, k: Node)
    requires
        keys_agree(t, k),
        x.0 == eval_spec(k, x.1),
    ensures
        keys_agree(insert_keyed(x, t), k),
    decreases t.len(),
{
    if t.len() > 0 && !key_le(t.last().0, x.0) {
        let u = t.drop_last();
        assert(keys_agree(u, k)) by {
            assert forall|i: int| 0 <= i < u.len() implies (#[trigger] u[i]).0 == eval_spec(k, u[i].1) by {
                assert(u[i] == t[i]);
            }
        }
        lemma_insert_keys_agree(x, u, k);
    }
}

proof fn lemma_sort_keys_agree(s: Seq<(JVal, JVal)>, k: Node)
    requires
        keys_agree(s, k),
    ensures
        keys_agree(sort_keyed(s), k),
    decreases s.len(),
{
    if s.len() > 0 {
        let u = s.drop_last();
        assert(keys_agree(u, k)) by {
            assert forall|i: int| 0 <= i < u.len() implies (#[trigger] u[i]).0 == eval_spec(k, u[i].1) by {
                assert(u[i] == s[i]);
            }
        }
        lemma_sort_keys_agree(u, k);
        lemma_insert_keys_agree(s.last(), sort_keyed(u), k);
    }
}

/// The pairs that `sort_by` with key `k` orders for list `s`.
pub open spec fn sorted_pairs(s: Seq<JVal>, k: Node) -> Seq<(JVal, JVal)> {
    sort_keyed(keyed_by(s, k))
}

proof fn lemma_sorted_pairs_facts(s: Seq<JVal>, k: Node)
    ensures
        keyed_sorted(sorted_pairs(s, k)),
        keys_agree(sorted_pairs(s, k), k),
        sorted_pairs(s, k).len() == s.len(),
        keyed_by(items_of(sorted_pairs(s, k)), k) == sorted_pairs(s, k),
{
    let p = keyed_by(s, k);
    assert(keys_agree(p, k));
    lemma_sort_keyed_sorted(p);
    lemma_sort_keys_agree(p, k);
    let q = sorted_pairs(s, k);
    assert(keyed_by(items_of(q), k) =~= q);
}

/// `sort_by` on a list it has already sorted gives that list back.
pub proof fn lemma_sort_by_idempotent(k: Node, v: JVal)
    requires
        v is List,
    ensures
        eval_spec(on_input_list(ListOp::SortBy(Box::new(k))), eval_spec(
            on_input_list(ListOp::SortBy(Box::new(k))),
            v,
        )) == eval_spec(on_input_list(ListOp::SortBy(Box::new(k))), v),
{
    reveal_with_fuel(eval_spec, 2);
    let s = v->List_0;
    let q = sorted_pairs(s, k);
    lemma_sorted_pairs_facts(s, k);
    lemma_sort_keyed_fixes_sorted(q);
}

proof fn lemma_ranks_rise(t: Seq<(JVal, JVal)>, i: int, j: int)
    requires
        keyed_sorted(t),
        0 <= i <= j < t.len(),
    ensures
        key_rank(t[i].0) <= key_rank(t[j].0),
    decreases j - i,
{
    if i < j {
        lemma_ranks_rise(t, i, j - 1);
        assert(key_le(t[j - 1].0, t[j].0));
    }
}

/// In the result of `sort_by`, elements whose key is a number come before
/// those whose key is a string, and those before elements whose key has no
/// order; within a bucket, keys never decrease.
pub proof fn lemma_sort_by_buckets(k: Node, v: JVal)
    requires
        v is List,
    ensures
        eval_spec(on_input_list(ListOp::SortBy(Box::new(k))), v) matches JVal::List(o) && (forall|
            i: int,
            j: int,
        |
            0 <= i <= j < o.len() ==> key_rank(eval_spec(k, #[trigger] o[i])) <= key_rank(
                eval_spec(k, #[trigger] o[j]),
            )) && (forall|i: int|
            0 < i < o.len() ==> key_le(eval_spec(k, #[trigger] o[i - 1]), eval_spec(k, o[i]))),
{
    reveal_with_fuel(eval_spec, 2);
    let s = v->List_0;
    let q = sorted_pairs(s, k);
    lemma_sorted_pairs_facts(s, k);
    let o = items_of(q);
    assert forall|i: int, j: int| 0 <= i <= j < o.len() implies key_rank(
        eval_spec(k, #[trigger] o[i]),
    ) <= key_rank(eval_spec(k, #[trigger] o[j])) by {
        lemma_ranks_rise(q, i, j);
    }
    assert forall|i: int| 0 < i < o.len() implies key_le(
        eval_spec(k, #[trigger] o[i - 1]),
        eval_spec(k, o[i]),
    ) by {
        assert(key_le(q[i - 1].0, q[i].0));
    }
}

/// Neither key is below the other.
pub open spec fn keys_tie(a: JVal, b: JVal) -> bool {
    key_le(a, b) && key_le(b, a)
}

/// The item of `a` is a smaller whole-number tag than that of `b`.
pub open spec fn tag_before(a: (JVal, JVal), b: (JVal, JVal)) -> bool {
    a.1 is Number && b.1 is Number && a.1->Number_0.num < b.1->Number_0.num
}

/// Pairs with tied keys stand in the order of their tags.
pub open spec fn ties_in_tag_order(t: Seq<(JVal, JVal)>) -> bool {
    forall|p: int, q: int|
        0 <= p < q < t.len() && keys_tie(t[p].0, t[q].0) ==> tag_before(#[trigger] t[p], #[trigger] t[q])
}

proof fn lemma_insert_members(x: (JVal, JVal), t: Seq<(JVal, JVal)>)
    ensures
        forall|i: int|
            0 <= i < insert_keyed(x, t).len() ==> #[trigger] insert_keyed(x, t)[i] == x || t.contains(
                insert_keyed(x, t)[i],
            ),
    decreases t.len(),
{
    crate::lists::lemma_insert_len(x, t);
    if t.len() > 0 && !key_le(t.last().0, x.0) {
        let u = t.drop_last();
        lemma_insert_members(x, u);
        let w = insert_keyed(x, u);
        assert forall|i: int| 0 <= i < insert_keyed(x, t).len() implies #[trigger] insert_keyed(x, t)[i]
            == x || t.contains(insert_keyed(x, t)[i]) by {
            if i < w.len() {
                if w[i] != x {
                    let j = choose|j: int| 0 <= j < u.len() && u[j] == w[i];
                    assert(t[j] == w[i]);
                }
            } else {
                assert(t[t.len() - 1] == t.last());
            }
        }
    } else if t.len() > 0 {
        assert forall|i: int| 0 <= i < insert_keyed(x, t).len() implies #[trigger] insert_keyed(x, t)[i]
            == x || t.contains(insert_keyed(x, t)[i]) by {
            if i < t.len() {
                assert(t[i] == insert_keyed(x, t)[i]);
            }
        }
    }
}

proof fn lemma_insert_keeps_ties(x: (JVal, JVal), t: Seq<(JVal, JVal)>)
    requires
        ties_in_tag_order(t),
        forall|j: int| 0 <= j < t.len() ==> tag_before(#[trigger] t[j], x),
    ensures
        ties_in_tag_order(insert_keyed(x, t)),
    decreases t.len(),
{
    crate::lists::lemma_insert_len(x, t);
    if t.len() > 0 && !key_le(t.last().0, x.0) {
        let u = t.drop_last();
        assert(ties_in_tag_order(u)) by {
            assert forall|p: int, q: int|
                0 <= p < q < u.len() && keys_tie(u[p].0, u[q].0) implies tag_before(
                #[trigger] u[p],
                #[trigger] u[q],
            ) by {
                assert(u[p] == t[p] && u[q] == t[q]);
            }
        }
        assert forall|j: int| 0 <= j < u.len() implies tag_before(#[trigger] u[j], x) by {
            assert(u[j] == t[j]);
        }
        lemma_insert_keeps_ties(x, u);
        lemma_insert_members(x, u);
        let w = insert_keyed(x, u);
        let r = w.push(t.last());
        assert forall|p: int, q: int|
            0 <= p < q < r.len() && keys_tie(r[p].0, r[q].0) implies tag_before(
            #[trigger] r[p],
            #[trigger] r[q],
        ) by {
            if q < w.len() {
                assert(r[p] == w[p] && r[q] == w[q]);
            } else {
                assert(r[q] == t.last());
                assert(r[p] == w[p]);
                assert(w[p] == x || u.contains(w[p]));
                if w[p] != x {
                    let j = choose|j: int| 0 <= j < u.len() && u[j] == w[p];
                    assert(t[j] == u[j] && t[t.len() - 1] == t.last());
                }
            }
        }
    } else if t.len() > 0 {
        let r = t.push(x);
        assert forall|p: int, q: int|
            0 <= p < q < r.len() && keys_tie(r[p].0, r[q].0) implies tag_before(
            #[trigger] r[p],
            #[trigger] r[q],
        ) by {
            assert(r[p] == t[p]);
            if q < t.len() {
                assert(r[q] == t[q]);
            }
        }
    }
}

proof fn lemma_sort_members(s: Seq<(JVal, JVal)>)
    ensures
        forall|i: int| 0 <= i < sort_keyed(s).len() ==> s.contains(#[trigger] sort_keyed(s)[i]),
    decreases s.len(),
{
    if s.len() > 0 {
        let u = s.drop_last();
        lemma_sort_members(u);
        lemma_insert_members(s.last(), sort_keyed(u));
        assert forall|i: int| 0 <= i < sort_keyed(s).len() implies s.contains(#[trigger] sort_keyed(s)[i]) by {
            let e = sort_keyed(s)[i];
            if e == s.last() {
                assert(s[s.len() - 1] == e);
            } else {
                let m = choose|m: int| 0 <= m < sort_keyed(u).len() && sort_keyed(u)[m] == e;
                let j = choose|j: int| 0 <= j < u.len() && u[j] == sort_keyed(u)[m];
                assert(s[j] == e);
            }
        }
    }
}

/// The sort by key is stable: pairs tagged with increasing whole numbers
/// come out with tied keys still in tag order.
pub proof fn lemma_sort_keyed_stable(s: Seq<(JVal, JVal)>)
    requires
        forall|i: int, j: int| 0 <= i < j < s.len() ==> tag_before(#[trigger] s[i], #[trigger] s[j]),
    ensures
        ties_in_tag_order(sort_keyed(s)),
    decreases s.len(),
{
    if s.len() > 0 {
        let u = s.drop_last();
        assert forall|i: int, j: int| 0 <= i < j < u.len() implies tag_before(#[trigger] u[i], #[trigger] u[j]) by {
            assert(u[i] == s[i] && u[j] == s[j]);
        }
        lemma_sort_keyed_stable(u);
        lemma_sort_members(u);
        lemma_sort_keyed_sorted(u);
        let t = sort_keyed(u);
        assert forall|j: int| 0 <= j < t.len() implies tag_before(#[trigger] t[j], s.last()) by {
            assert(u.contains(t[j]));
            let m = choose|m: int| 0 <= m < u.len() && u[m] == t[j];
            assert(s[m] == u[m]);
            assert(tag_before(s[m], s[s.len() - 1]));
        }
        lemma_insert_keeps_ties(s.last(), t);
    }
}

proof fn lemma_insert_items_multiset(x: (JVal, JVal), t: Seq<(JVal, JVal)>)
    ensures
        items_of(insert_keyed(x, t)).to_multiset() =~= items_of(t).to_multiset().insert(x.1),
    decreases t.len(),
{
    broadcast use vstd::seq_lib::group_to_multiset_ensures;

    if t.len() == 0 {
        assert(items_of(insert_keyed(x, t)) =~= Seq::<JVal>::empty().push(x.1));
        assert(items_of(t) =~= Seq::<JVal>::empty());
    } else if !key_le(t.last().0, x.0) {
        let u = t.drop_last();
        lemma_insert_items_multiset(x, u);
        assert(items_of(insert_keyed(x, t)) =~= items_of(insert_keyed(x, u)).push(t.last().1));
        assert(items_of(t) =~= items_of(u).push(t.last().1));
    } else {
        assert(items_of(insert_keyed(x, t)) =~= items_of(t).push(x.1));
    }
}

proof fn lemma_sort_items_multiset(s: Seq<(JVal, JVal)>)
    ensures
        items_of(sort_keyed(s)).to_multiset() =~= items_of(s).to_multiset(),
    decreases s.len(),
{
    broadcast use vstd::seq_lib::group_to_multiset_ensures;

    if s.len() == 0 {
        assert(items_of(sort_keyed(s)) =~= items_of(s));
    } else {
        let u = s.drop_last();
        lemma_sort_items_multiset(u);
        lemma_insert_items_multiset(s.last(), sort_keyed(u));
        assert(items_of(s) =~= items_of(u).push(s.last().1));
    }
}

/// `sort_by` returns a permutation of its input: the same elements, each as
/// many times.
pub proof fn lemma_sort_by_permutes(k: Node, v: JVal)
    requires
        v is List,
    ensures
        eval_spec(on_input_list(ListOp::SortBy(Box::new(k))), v) matches JVal::List(o)
            && o.to_multiset() == v->List_0.to_multiset(),
{
    reveal_with_fuel(eval_spec, 2);
    let s = v->List_0;
    lemma_sort_items_multiset(keyed_by(s, k));
    assert(items_of(keyed_by(s, k)) =~= s);
}

} // verus!
