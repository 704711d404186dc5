use dictexprs::eval::{evaluate, EvalError};
use dictexprs::node::{ComparisonOp, ListOp, Node, ScalarOp, StrOp, StructOp};
use dictexprs::number::Number;
use dictexprs::builder::{coalesce, element, field as field_of, list as list_ns, lit as literal, merge, Expr};
use dictexprs::value::{
    eq_semantics, is_comparable, is_dict, is_empty, is_list, is_number, is_string, not_empty, Value,
};

fn num(n: i64) -> Value {
    Value::Number(Number::whole(n))
}

fn frac(n: i64, d: i64) -> Value {
    Value::Number(Number::ratio(n, d).unwrap())
}

fn text(s: &str) -> Value {
    Value::String(s.to_string())
}

fn list(v: Vec<Value>) -> Value {
    Value::List(v)
}

fn dict(v: Vec<(&str, Value)>) -> Value {
    Value::Dict(v.into_iter().map(|(k, x)| (k.to_string(), x)).collect())
}

fn this() -> Box<Node> {
    Box::new(Node::This)
}

fn lit(v: Value) -> Box<Node> {
    Box::new(Node::Literal(v))
}

fn field(name: &str) -> Node {
    Node::Struct(this(), StructOp::Field(name.to_string()))
}

fn on_list(op: ListOp) -> Node {
    Node::List(this(), op)
}

fn on_str(op: StrOp) -> Node {
    Node::Str(this(), op)
}

fn run(node: Node, input: Value) -> Value {
    evaluate(&node, &input).unwrap()
}

fn nums(v: &[i64]) -> Value {
    list(v.iter().map(|n| num(*n)).collect())
}

#[test]
fn list_operators_on_non_lists_yield_null() {
    let non_lists = vec![Value::Null, Value::Bool(true), num(3), text("abc"), dict(vec![("a", num(1))])];
    for v in non_lists {
        assert_eq!(run(on_list(ListOp::Index(0)), v.clone()), Value::Null);
        assert_eq!(run(on_list(ListOp::Length), v.clone()), Value::Null);
        assert_eq!(run(on_list(ListOp::Reverse), v.clone()), Value::Null);
        assert_eq!(run(on_list(ListOp::Flatten), v.clone()), Value::Null);
        assert_eq!(run(on_list(ListOp::Sum), v.clone()), Value::Null);
        assert_eq!(run(on_list(ListOp::Sort), v.clone()), Value::Null);
        assert_eq!(run(on_list(ListOp::Contains(lit(num(1)))), v.clone()), Value::Null);
        assert_eq!(run(on_list(ListOp::SortBy(this())), v.clone()), Value::Null);
        assert_eq!(
            run(on_list(ListOp::Slice { start: Some(1), end: None, step: None }), v.clone()),
            Value::Null
        );
    }
}

#[test]
fn string_operators_on_non_strings() {
    let non_strings = vec![Value::Null, Value::Bool(false), num(3), nums(&[1]), dict(vec![])];
    for v in non_strings {
        assert_eq!(run(on_str(StrOp::Contains("a".to_string())), v.clone()), Value::Bool(false));
        assert_eq!(run(on_str(StrOp::StartsWith("a".to_string())), v.clone()), Value::Bool(false));
        assert_eq!(run(on_str(StrOp::EndsWith("a".to_string())), v.clone()), Value::Bool(false));
        assert_eq!(run(on_str(StrOp::Length), v.clone()), Value::Null);
        assert_eq!(run(on_str(StrOp::Reverse), v.clone()), Value::Null);
    }
}

#[test]
fn struct_and_scalar_operators_on_wrong_types_yield_null() {
    assert_eq!(run(field("a"), nums(&[1])), Value::Null);
    assert_eq!(run(Node::Struct(this(), StructOp::Keys), text("a")), Value::Null);
    assert_eq!(run(Node::Struct(this(), StructOp::Values), Value::Null), Value::Null);
    assert_eq!(run(Node::Scalar(this(), ScalarOp::Abs), text("-1")), Value::Null);
    assert_eq!(run(Node::Scalar(this(), ScalarOp::Floor), Value::Bool(true)), Value::Null);
}

#[test]
fn negative_index_counts_from_the_end() {
    assert_eq!(run(on_list(ListOp::Index(-1)), nums(&[1, 2, 3])), num(3));
    assert_eq!(run(on_list(ListOp::Index(0)), nums(&[1, 2, 3])), num(1));
}

#[test]
fn index_out_of_range_is_null() {
    assert_eq!(run(on_list(ListOp::Index(5)), nums(&[1, 2, 3])), Value::Null);
    assert_eq!(run(on_list(ListOp::Index(-4)), nums(&[1, 2, 3])), Value::Null);
    assert_eq!(run(on_list(ListOp::Index(0)), nums(&[])), Value::Null);
}

#[test]
fn slice_from_one() {
    let node = on_list(ListOp::Slice { start: Some(1), end: None, step: None });
    assert_eq!(run(node, nums(&[1, 2, 3, 4])), nums(&[2, 3, 4]));
}

#[test]
fn slice_with_negative_step_reverses() {
    let node = on_list(ListOp::Slice { start: None, end: None, step: Some(-1) });
    assert_eq!(run(node, nums(&[1, 2, 3])), nums(&[3, 2, 1]));
}

#[test]
fn slice_bounds_are_normalized_and_clamped() {
    let s = |start, end, step| on_list(ListOp::Slice { start, end, step });
    let input = nums(&[0, 1, 2, 3, 4, 5]);
    assert_eq!(run(s(Some(-2), None, None), input.clone()), nums(&[4, 5]));
    assert_eq!(run(s(None, None, Some(2)), input.clone()), nums(&[0, 2, 4]));
    assert_eq!(run(s(Some(10), None, Some(-2)), input.clone()), nums(&[5, 3, 1]));
    assert_eq!(run(s(Some(4), Some(1), Some(-1)), input.clone()), nums(&[4, 3, 2]));
    assert_eq!(run(s(Some(-100), Some(100), None), input.clone()), input.clone());
    assert_eq!(run(s(Some(3), Some(1), None), input.clone()), nums(&[]));
}

#[test]
fn zero_step_is_reported() {
    let node = on_list(ListOp::Slice { start: None, end: None, step: Some(0) });
    assert_eq!(evaluate(&node, &nums(&[1, 2])), Err(EvalError::ZeroStep));
    let hidden = Node::Or(lit(Value::Bool(true)), Box::new(on_str(StrOp::Slice { start: None, end: None, step: Some(0) })));
    assert_eq!(evaluate(&hidden, &Value::Null), Err(EvalError::ZeroStep));
}

#[test]
fn a_boolean_never_equals_a_number() {
    let eq = |a: Value, b: Value| Node::Compare(lit(a), ComparisonOp::Eq(lit(b)));
    assert_eq!(run(eq(Value::Bool(true), num(1)), Value::Null), Value::Bool(false));
    assert_eq!(run(eq(Value::Bool(false), num(0)), Value::Null), Value::Bool(false));
    assert_eq!(run(eq(num(1), num(1)), Value::Null), Value::Bool(true));
    assert_eq!(run(eq(Value::Bool(true), Value::Bool(true)), Value::Null), Value::Bool(true));
    assert_eq!(run(eq(frac(1, 2), frac(2, 4)), Value::Null), Value::Bool(true));
    let ne = Node::Compare(lit(Value::Bool(true)), ComparisonOp::Ne(lit(num(1))));
    assert_eq!(run(ne, Value::Null), Value::Bool(true));
}

#[test]
fn equality_is_structural_and_key_wise() {
    assert!(!eq_semantics(&Value::Bool(true), &num(1)));
    assert!(eq_semantics(&num(1), &num(1)));
    let a = dict(vec![("x", num(1)), ("y", nums(&[1, 2]))]);
    let b = dict(vec![("y", nums(&[1, 2])), ("x", frac(2, 2))]);
    assert!(eq_semantics(&a, &b));
    let c = dict(vec![("y", nums(&[1, 2])), ("z", num(1))]);
    assert!(!eq_semantics(&a, &c));
    assert!(!eq_semantics(&nums(&[1, 2]), &nums(&[1, 2, 3])));
    assert!(eq_semantics(&list(vec![]), &list(vec![])));
    assert!(!eq_semantics(&Value::Null, &list(vec![])));
}

#[test]
fn truthiness() {
    assert!(!num(0).is_truthy());
    assert!(!text("").is_truthy());
    assert!(!list(vec![]).is_truthy());
    assert!(list(vec![Value::Null]).is_truthy());
    assert!(!Value::Null.is_truthy());
    assert!(!dict(vec![]).is_truthy());
    assert!(frac(1, 3).is_truthy());
    assert!(text("a").is_truthy());
}

#[test]
fn sort_by_puts_numbers_before_strings() {
    let input = list(vec![
        dict(vec![("k", text("b"))]),
        dict(vec![("k", num(1))]),
        dict(vec![("k", text("a"))]),
    ]);
    let node = on_list(ListOp::SortBy(Box::new(field("k"))));
    let once = run(on_list(ListOp::SortBy(Box::new(field("k")))), input);
    assert_eq!(
        once,
        list(vec![
            dict(vec![("k", num(1))]),
            dict(vec![("k", text("a"))]),
            dict(vec![("k", text("b"))]),
        ])
    );
    assert_eq!(run(node, once.clone()), once);
}

#[test]
fn sort_by_is_stable_and_keeps_unordered_keys_last() {
    let input = list(vec![
        dict(vec![("k", num(2)), ("i", num(0))]),
        dict(vec![("i", num(1))]),
        dict(vec![("k", num(1)), ("i", num(2))]),
        dict(vec![("k", num(2)), ("i", num(3))]),
        dict(vec![("k", Value::Bool(true)), ("i", num(4))]),
    ]);
    let order = Node::ProjectArray(
        Box::new(on_list(ListOp::SortBy(Box::new(field("k"))))),
        Box::new(field("i")),
    );
    assert_eq!(run(order, input.clone()), nums(&[2, 0, 3, 1, 4]));
    let min = Node::Pipe(Box::new(on_list(ListOp::MinBy(Box::new(field("k"))))), Box::new(field("i")));
    assert_eq!(run(min, input.clone()), num(2));
    let max = Node::Pipe(Box::new(on_list(ListOp::MaxBy(Box::new(field("k"))))), Box::new(field("i")));
    assert_eq!(run(max, input), num(4));
    assert_eq!(run(on_list(ListOp::MinBy(this())), nums(&[])), Value::Null);
}

#[test]
fn projection_skips_nulls() {
    let input = list(vec![dict(vec![("x", num(1))]), dict(vec![]), dict(vec![("x", num(2))])]);
    let node = Node::ProjectArray(this(), Box::new(field("x")));
    assert_eq!(run(node, input), nums(&[1, 2]));
}

#[test]
fn object_projection_and_filter_projection() {
    let d = dict(vec![("a", dict(vec![("v", num(1))])), ("b", num(7)), ("c", dict(vec![("v", num(3))]))]);
    let node = Node::ProjectObject(this(), Box::new(field("v")));
    assert_eq!(run(node, d), nums(&[1, 3]));
    let people = list(vec![
        dict(vec![("age", num(30)), ("name", text("ann"))]),
        dict(vec![("age", num(12)), ("name", text("bob"))]),
        dict(vec![("age", num(40))]),
    ]);
    let adults = Node::FilterProjection(
        this(),
        Box::new(Node::Compare(Box::new(field("age")), ComparisonOp::Ge(lit(num(18))))),
        Box::new(field("name")),
    );
    assert_eq!(run(adults, people), list(vec![text("ann"), Value::Null]));
}

#[test]
fn merge_with_a_non_dict_is_null() {
    let node = Node::Merge(vec![Node::Literal(dict(vec![("a", num(1))])), Node::Literal(num(2))]);
    assert_eq!(run(node, Value::Null), Value::Null);
}

#[test]
fn merge_lets_later_keys_win() {
    let node = Node::Merge(vec![
        Node::Literal(dict(vec![("a", num(1)), ("b", num(2))])),
        Node::Literal(dict(vec![("b", num(3)), ("c", num(4))])),
    ]);
    assert_eq!(run(node, Value::Null), dict(vec![("a", num(1)), ("b", num(3)), ("c", num(4))]));
    assert_eq!(run(Node::Merge(vec![]), Value::Null), dict(vec![]));
}

#[test]
fn sum_and_avg() {
    assert_eq!(run(on_list(ListOp::Sum), nums(&[1, 2, 3])), num(6));
    assert_eq!(run(on_list(ListOp::Sum), nums(&[])), num(0));
    assert_eq!(run(on_list(ListOp::Sum), list(vec![num(1), text("2")])), Value::Null);
    assert_eq!(run(on_list(ListOp::Sum), list(vec![frac(1, 2), frac(1, 3)])), frac(5, 6));
    assert_eq!(run(on_list(ListOp::Avg), nums(&[1, 2])), frac(3, 2));
    assert_eq!(run(on_list(ListOp::Avg), nums(&[])), Value::Null);
    assert_eq!(run(on_list(ListOp::Avg), list(vec![Value::Null])), Value::Null);
    assert_eq!(run(on_list(ListOp::Sum), nums(&[i64::MAX, 1])), Value::Null);
}

#[test]
fn min_and_max() {
    assert_eq!(run(on_list(ListOp::Max), nums(&[3, 9, 2])), num(9));
    assert_eq!(run(on_list(ListOp::Min), nums(&[3, 9, 2])), num(2));
    assert_eq!(run(on_list(ListOp::Min), list(vec![text("b"), text("a"), text("c")])), text("a"));
    assert_eq!(run(on_list(ListOp::Max), list(vec![num(1), text("a")])), Value::Null);
    assert_eq!(run(on_list(ListOp::Max), nums(&[])), Value::Null);
    assert_eq!(run(on_list(ListOp::Max), list(vec![frac(1, 2), frac(2, 4)])), frac(1, 2));
}

#[test]
fn sort_numbers_and_strings() {
    assert_eq!(run(on_list(ListOp::Sort), nums(&[3, 1, 2])), nums(&[1, 2, 3]));
    assert_eq!(
        run(on_list(ListOp::Sort), list(vec![text("b"), text("ab"), text("a")])),
        list(vec![text("a"), text("ab"), text("b")])
    );
    assert_eq!(run(on_list(ListOp::Sort), list(vec![num(1), text("a")])), Value::Null);
    assert_eq!(run(on_list(ListOp::Sort), nums(&[])), nums(&[]));
}

#[test]
fn list_reshaping_operators() {
    let nested = list(vec![num(1), nums(&[2, 3]), list(vec![nums(&[4])])]);
    assert_eq!(run(on_list(ListOp::Flatten), nested), list(vec![num(1), num(2), num(3), nums(&[4])]));
    assert_eq!(run(on_list(ListOp::Reverse), nums(&[1, 2, 3])), nums(&[3, 2, 1]));
    assert_eq!(run(on_list(ListOp::Length), nums(&[1, 2, 3])), num(3));
    let doubled = on_list(ListOp::Apply(Box::new(field("x"))));
    assert_eq!(
        run(doubled, list(vec![dict(vec![("x", num(1))]), dict(vec![])])),
        list(vec![num(1), Value::Null])
    );
    let big = on_list(ListOp::Filter(Box::new(Node::Compare(this(), ComparisonOp::Gt(lit(num(1)))))));
    assert_eq!(run(big, nums(&[0, 5, 1, 2])), nums(&[5, 2]));
}

#[test]
fn contains_and_join() {
    assert_eq!(run(on_list(ListOp::Contains(lit(num(2)))), nums(&[1, 2])), Value::Bool(true));
    assert_eq!(run(on_list(ListOp::Contains(lit(Value::Bool(true)))), nums(&[1])), Value::Bool(false));
    let join = on_list(ListOp::Join(", ".to_string()));
    assert_eq!(run(join, list(vec![text("a"), text("b"), text("c")])), text("a, b, c"));
    let join = on_list(ListOp::Join("-".to_string()));
    assert_eq!(run(join, list(vec![text("a"), num(1)])), Value::Null);
    let join = on_list(ListOp::Join("-".to_string()));
    assert_eq!(run(join, list(vec![])), text(""));
}

#[test]
fn string_operators() {
    let s = || text("héllo");
    assert_eq!(run(on_str(StrOp::Length), s()), num(5));
    assert_eq!(run(on_str(StrOp::Reverse), s()), text("olléh"));
    assert_eq!(run(on_str(StrOp::Contains("éll".to_string())), s()), Value::Bool(true));
    assert_eq!(run(on_str(StrOp::Contains("hl".to_string())), s()), Value::Bool(false));
    assert_eq!(run(on_str(StrOp::StartsWith("hé".to_string())), s()), Value::Bool(true));
    assert_eq!(run(on_str(StrOp::EndsWith("lo".to_string())), s()), Value::Bool(true));
    assert_eq!(run(on_str(StrOp::EndsWith("he".to_string())), s()), Value::Bool(false));
    let sl = on_str(StrOp::Slice { start: Some(1), end: Some(-1), step: None });
    assert_eq!(run(sl, s()), text("éll"));
    let sl = on_str(StrOp::Slice { start: None, end: None, step: Some(-2) });
    assert_eq!(run(sl, s()), text("olh"));
}

#[test]
fn struct_operators() {
    let d = dict(vec![("a", num(1)), ("b", text("x"))]);
    assert_eq!(run(field("b"), d.clone()), text("x"));
    assert_eq!(run(field("z"), d.clone()), Value::Null);
    assert_eq!(run(Node::Struct(this(), StructOp::Keys), d.clone()), list(vec![text("a"), text("b")]));
    assert_eq!(run(Node::Struct(this(), StructOp::Values), d), list(vec![num(1), text("x")]));
}

#[test]
fn scalar_operators() {
    let op = |o, v| run(Node::Scalar(this(), o), v);
    assert_eq!(op(ScalarOp::Abs, frac(-3, 2)), frac(3, 2));
    assert_eq!(op(ScalarOp::Floor, frac(-3, 2)), num(-2));
    assert_eq!(op(ScalarOp::Ceil, frac(-3, 2)), num(-1));
    assert_eq!(op(ScalarOp::Floor, frac(7, 2)), num(3));
    assert_eq!(op(ScalarOp::Ceil, frac(7, 2)), num(4));
    assert_eq!(op(ScalarOp::Ceil, num(5)), num(5));
    assert_eq!(op(ScalarOp::Abs, num(i64::MIN)), Value::Null);
}

#[test]
fn boolean_connectives_propagate_values() {
    let and = Node::And(lit(num(0)), lit(text("x")));
    assert_eq!(run(and, Value::Null), num(0));
    let and = Node::And(lit(num(2)), lit(text("x")));
    assert_eq!(run(and, Value::Null), text("x"));
    let or = Node::Or(lit(text("")), lit(nums(&[1])));
    assert_eq!(run(or, Value::Null), nums(&[1]));
    let or = Node::Or(lit(text("a")), lit(nums(&[1])));
    assert_eq!(run(or, Value::Null), text("a"));
    assert_eq!(run(Node::Not(lit(list(vec![]))), Value::Null), Value::Bool(true));
    assert_eq!(run(Node::Not(lit(num(3))), Value::Null), Value::Bool(false));
}

#[test]
fn coalesce_and_multi_selections() {
    let c = Node::Coalesce(vec![field("a"), field("b"), field("c")]);
    assert_eq!(run(c, dict(vec![("b", num(2)), ("c", num(3))])), num(2));
    let c = Node::Coalesce(vec![field("a")]);
    assert_eq!(run(c, dict(vec![])), Value::Null);
    let ml = Node::MultiList(vec![field("a"), Node::This]);
    assert_eq!(run(ml, dict(vec![("a", num(1))])), list(vec![num(1), dict(vec![("a", num(1))])]));
    let md = Node::MultiDict(vec![("x".to_string(), field("a")), ("y".to_string(), Node::Literal(num(9)))]);
    assert_eq!(run(md, dict(vec![("a", num(1))])), dict(vec![("x", num(1)), ("y", num(9))]));
    let pipe = Node::Pipe(Box::new(field("a")), Box::new(field("b")));
    assert_eq!(run(pipe, dict(vec![("a", dict(vec![("b", num(5))]))])), num(5));
}

#[test]
fn ordered_comparisons() {
    let cmp = |a: Value, op: fn(Box<Node>) -> ComparisonOp, b: Value| run(Node::Compare(lit(a), op(lit(b))), Value::Null);
    assert_eq!(cmp(num(1), ComparisonOp::Lt, num(2)), Value::Bool(true));
    assert_eq!(cmp(frac(1, 2), ComparisonOp::Le, frac(2, 4)), Value::Bool(true));
    assert_eq!(cmp(text("b"), ComparisonOp::Gt, text("a")), Value::Bool(true));
    assert_eq!(cmp(text("a"), ComparisonOp::Ge, text("ab")), Value::Bool(false));
    assert_eq!(cmp(num(1), ComparisonOp::Lt, text("2")), Value::Bool(false));
    assert_eq!(cmp(Value::Null, ComparisonOp::Ge, Value::Null), Value::Bool(false));
}

#[test]
fn builders_assemble_trees() {
    let last = list_ns().get(-1);
    assert_eq!(last.search(&nums(&[1, 2, 3])), Ok(num(3)));
    let slice = Expr::new().list().slice(Some(1), None, None);
    assert_eq!(slice.search(&nums(&[1, 2, 3, 4])), Ok(nums(&[2, 3, 4])));
    let names = list_ns().map(field_of("name")).list().join("+");
    let people = list(vec![dict(vec![("name", text("a"))]), dict(vec![("name", text("b"))])]);
    assert_eq!(names.search(&people), Ok(text("a+b")));
    let adult = field_of("age").ge(literal(num(18))).and_(field_of("ok"));
    assert_eq!(adult.search(&dict(vec![("age", num(20)), ("ok", text("y"))])), Ok(text("y")));
    let pick = coalesce(vec![field_of("a"), field_of("b")]);
    assert_eq!(pick.search(&dict(vec![("b", num(2))])), Ok(num(2)));
    let joined = merge(vec![literal(dict(vec![("a", num(1))])), element()]);
    assert_eq!(joined.search(&dict(vec![("a", num(2))])), Ok(dict(vec![("a", num(2))])));
    let neg = Expr::new().abs().floor();
    assert_eq!(neg.search(&frac(-7, 2)), Ok(num(3)));
    let up = Expr::new().str().starts_with("ab").not_();
    assert_eq!(up.search(&text("abc")), Ok(Value::Bool(false)));
    let ks = Expr::new().struct_().keys().list().length();
    assert_eq!(ks.search(&dict(vec![("a", num(1)), ("b", num(2))])), Ok(num(2)));
    let bad = Expr::new().str().slice(None, None, Some(0));
    assert_eq!(bad.search(&text("abc")), Err(EvalError::ZeroStep));
}

#[test]
fn value_getters_and_predicates() {
    assert_eq!(num(2).as_number(), Some(Number::whole(2)));
    assert_eq!(text("a").as_number(), None);
    assert_eq!(text("a").as_string(), Some("a"));
    assert_eq!(nums(&[1]).as_list().map(|l| l.len()), Some(1));
    assert!(dict(vec![]).as_dict().is_some());
    assert!(Value::Bool(true).eq_strict(&Value::Bool(true)));
    assert!(!Value::Bool(false).eq_strict(&num(0)));
    assert!(is_list(&nums(&[])) && !is_list(&Value::Null));
    assert!(is_number(&num(1)) && !is_number(&Value::Bool(true)));
    assert!(is_string(&text("")) && is_dict(&dict(vec![])));
    assert!(is_comparable(&text("x")) && !is_comparable(&nums(&[1])));
    assert!(is_empty(&Value::Bool(false)) && not_empty(&nums(&[0])));
}

#[test]
fn number_arithmetic() {
    let a = Number::ratio(1, 2).unwrap();
    let b = Number::ratio(1, 3).unwrap();
    let s = a.checked_add(b).unwrap();
    assert_eq!((s.num, s.den), (5, 6));
    let t = a.checked_add(Number::ratio(3, 2).unwrap()).unwrap();
    assert_eq!((t.num, t.den), (2, 1));
    assert!(a.same_value(Number::ratio(3, 6).unwrap()));
    assert!(b.less_than(a));
    assert!(Number::ratio(1, 0).is_none());
    assert!(Number::whole(i64::MAX).checked_add(Number::whole(1)).is_none());
    let avg = Number::whole(3).checked_div_count(2).unwrap();
    assert_eq!((avg.num, avg.den), (3, 2));
}

#[test]
fn sums_of_decimals_stay_numbers() {
    let input = list(vec![frac(1, 1_000_000), frac(1, 10_000_000), frac(1, 100_000_000)]);
    assert_eq!(run(on_list(ListOp::Sum), input.clone()), frac(111, 100_000_000));
    assert_eq!(run(on_list(ListOp::Avg), input), frac(37, 100_000_000));
    let mut items = Vec::new();
    for i in 0..40 {
        items.push(if i % 2 == 0 { frac(1, 10) } else { frac(1, 4) });
    }
    assert_eq!(run(on_list(ListOp::Sum), list(items.clone())), frac(7, 1));
    assert_eq!(run(on_list(ListOp::Avg), list(items)), frac(7, 40));
    assert_eq!(run(on_list(ListOp::Sum), list(vec![frac(1, 2), frac(1, 2)])), num(1));
    assert_eq!(run(on_list(ListOp::Avg), nums(&[2, 4])), num(3));
}

#[test]
fn repeated_keys_are_reported() {
    let twice = Value::Dict(vec![("a".to_string(), num(1)), ("a".to_string(), num(2))]);
    assert_eq!(evaluate(&Node::This, &twice), Err(EvalError::RepeatedKey));
    assert_eq!(evaluate(&Node::This, &list(vec![twice.clone()])), Err(EvalError::RepeatedKey));
    assert_eq!(evaluate(&Node::Literal(twice), &Value::Null), Err(EvalError::RepeatedKey));
    let zero = on_list(ListOp::Slice { start: None, end: None, step: Some(0) });
    let both = Value::Dict(vec![("a".to_string(), num(1)), ("a".to_string(), num(2))]);
    assert_eq!(evaluate(&zero, &both), Err(EvalError::ZeroStep));
}

#[test]
fn multi_dict_keeps_one_entry_per_key() {
    let md = Node::MultiDict(vec![
        ("x".to_string(), Node::Literal(num(1))),
        ("y".to_string(), Node::Literal(num(2))),
        ("x".to_string(), Node::Literal(num(3))),
    ]);
    assert_eq!(run(md, Value::Null), dict(vec![("x", num(3)), ("y", num(2))]));
}
