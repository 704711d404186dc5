use crate::eval::{evaluate, EvalError};
use crate::node::{eval_spec, has_bad_literal, has_zero_step, ComparisonOp, ListOp, Node, ScalarOp, StrOp, StructOp};
use crate::value::{well_formed, Value};
use vstd::prelude::*;
use vstd::string::*;

verus! {

/// A tree under construction, built one operator at a time.
pub struct Expr {
    pub node: Node,
}

/// The list operators over an expression.
pub struct ExprListNameSpace {
    pub expr: Expr,
}

/// The string operators over an expression.
pub struct ExprStrNameSpace {
    pub expr: Expr,
}

/// The dictionary operators over an expression.
pub struct ExprStructNameSpace {
    pub expr: Expr,
}

impl Expr {
    /// The input itself.
    pub fn new() -> (r: Expr)
        ensures
            r.node == Node::This,
    {
        Expr { node: Node::This }
    }

    /// The list operators over this expression.
    pub fn list(self) -> (r: ExprListNameSpace)
        ensures
            r.expr == self,
    {
        ExprListNameSpace { expr: self }
    }

    /// The string operators over this expression.
    pub fn str(self) -> (r: ExprStrNameSpace)
        ensures
            r.expr == self,
    {
        ExprStrNameSpace { expr: self }
    }

    /// The dictionary operators over this expression.
    pub fn struct_(self) -> (r: ExprStructNameSpace)
        ensures
            r.expr == self,
    {
        ExprStructNameSpace { expr: self }
    }

    /// Whether this value is equal to the value of `other`.
    pub fn eq(self, other: Expr) -> (r: Expr)
        ensures
            r.node == Node::Compare(Box::new(self.node), ComparisonOp::Eq(Box::new(other.node))),
    {
        Expr { node: Node::Compare(Box::new(self.node), ComparisonOp::Eq(Box::new(other.node))) }
    }

    /// Whether this value is not equal to the value of `other`.
    pub fn ne(self, other: Expr) -> (r: Expr)
        ensures
            r.node == Node::Compare(Box::new(self.node), ComparisonOp::Ne(Box::new(other.node))),
    {
        Expr { node: Node::Compare(Box::new(self.node), ComparisonOp::Ne(Box::new(other.node))) }
    }

    /// Whether this value is below the value of `other`.
    pub fn lt(self, other: Expr) -> (r: Expr)
        ensures
            r.node == Node::Compare(Box::new(self.node), ComparisonOp::Lt(Box::new(other.node))),
    {
        Expr { node: Node::Compare(Box::new(self.node), ComparisonOp::Lt(Box::new(other.node))) }
    }

    /// Whether this value is at most the value of `other`.
    pub fn le(self, other: Expr) -> (r: Expr)
        ensures
            r.node == Node::Compare(Box::new(self.node), ComparisonOp::Le(Box::new(other.node))),
    {
        Expr { node: Node::Compare(Box::new(self.node), ComparisonOp::Le(Box::new(other.node))) }
    }

    /// Whether this value is above the value of `other`.
    pub fn gt(self, other: Expr) -> (r: Expr)
        ensures
            r.node == Node::Compare(Box::new(self.node), ComparisonOp::Gt(Box::new(other.node))),
    {
        Expr { node: Node::Compare(Box::new(self.node), ComparisonOp::Gt(Box::new(other.node))) }
    }

    /// Whether this value is at least the value of `other`.
    pub fn ge(self, other: Expr) -> (r: Expr)
        ensures
            r.node == Node::Compare(Box::new(self.node), ComparisonOp::Ge(Box::new(other.node))),
    {
        Expr { node: Node::Compare(Box::new(self.node), ComparisonOp::Ge(Box::new(other.node))) }
    }

    /// This value if falsy, else the value of `other`.
    pub fn and_(self, other: Expr) -> (r: Expr)
        ensures
            r.node == Node::And(Box::new(self.node), Box::new(other.node)),
    {
        Expr { node: Node::And(Box::new(self.node), Box::new(other.node)) }
    }

    /// This value if truthy, else the value of `other`.
    pub fn or_(self, other: Expr) -> (r: Expr)
        ensures
            r.node == Node::Or(Box::new(self.node), Box::new(other.node)),
    {
        Expr { node: Node::Or(Box::new(self.node), Box::new(other.node)) }
    }

    /// Whether this value is falsy.
    pub fn not_(self) -> (r: Expr)
        ensures
            r.node == Node::Not(Box::new(self.node)),
    {
        Expr { node: Node::Not(Box::new(self.node)) }
    }

    /// The absolute value.
    pub fn abs(self) -> (r: Expr)
        ensures
            r.node == Node::Scalar(Box::new(self.node), ScalarOp::Abs),
    {
        Expr { node: Node::Scalar(Box::new(self.node), ScalarOp::Abs) }
    }

    /// Rounded up.
    pub fn ceil(self) -> (r: Expr)
        ensures
            r.node == Node::Scalar(Box::new(self.node), ScalarOp::Ceil),
    {
        Expr { node: Node::Scalar(Box::new(self.node), ScalarOp::Ceil) }
    }

    /// Rounded down.
    pub fn floor(self) -> (r: Expr)
        ensures
            r.node == Node::Scalar(Box::new(self.node), ScalarOp::Floor),
    {
        Expr { node: Node::Scalar(Box::new(self.node), ScalarOp::Floor) }
    }

    /// This expression evaluated against `data`.
    pub fn search(&self, data: &Value) -> (r: Result<Value, EvalError>)
        ensures
            r == Err::<Value, EvalError>(EvalError::ZeroStep) <==> has_zero_step(self.node),
            r == Err::<Value, EvalError>(EvalError::RepeatedKey) <==> !has_zero_step(self.node) && (
            has_bad_literal(self.node) || !well_formed(data@)),
            r is Ok ==> r->Ok_0@ == eval_spec(self.node, data@),
    {
        evaluate(&self.node, data)
    }
}

impl ExprListNameSpace {

    /// The element at index `i` (negative counts from the end).
    pub fn get(self, i: isize) -> (r: Expr)
        ensures
            r.node == Node::List(Box::new(self.expr.node), ListOp::Index(i)),
    {
        Expr { node: Node::List(Box::new(self.expr.node), ListOp::Index(i)) }
    }

    /// The slice `start:end:step`.
    pub fn slice(self, start: Option<isize>, end: Option<isize>, step: Option<isize>) -> (r: Expr)
        ensures
            r.node == Node::List(Box::new(self.expr.node), ListOp::Slice { start, end, step }),
    {
        Expr { node: Node::List(Box::new(self.expr.node), ListOp::Slice { start, end, step }) }
    }

    /// One level of flattening.
    pub fn flatten(self) -> (r: Expr)
        ensures
            r.node == Node::List(Box::new(self.expr.node), ListOp::Flatten),
    {
        Expr { node: Node::List(Box::new(self.expr.node), ListOp::Flatten) }
    }

    /// The list reversed.
    pub fn reverse(self) -> (r: Expr)
        ensures
            r.node == Node::List(Box::new(self.expr.node), ListOp::Reverse),
    {
        Expr { node: Node::List(Box::new(self.expr.node), ListOp::Reverse) }
    }

    /// The list sorted.
    pub fn sort(self) -> (r: Expr)
        ensures
            r.node == Node::List(Box::new(self.expr.node), ListOp::Sort),
    {
        Expr { node: Node::List(Box::new(self.expr.node), ListOp::Sort) }
    }

    /// The sum of the numbers.
    pub fn sum(self) -> (r: Expr)
        ensures
            r.node == Node::List(Box::new(self.expr.node), ListOp::Sum),
    {
        Expr { node: Node::List(Box::new(self.expr.node), ListOp::Sum) }
    }

    /// The smallest element.
    pub fn min(self) -> (r: Expr)
        ensures
            r.node == Node::List(Box::new(self.expr.node), ListOp::Min),
    {
        Expr { node: Node::List(Box::new(self.expr.node), ListOp::Min) }
    }

    /// The largest element.
    pub fn max(self) -> (r: Expr)
        ensures
            r.node == Node::List(Box::new(self.expr.node), ListOp::Max),
    {
        Expr { node: Node::List(Box::new(self.expr.node), ListOp::Max) }
    }

    /// The mean of the numbers.
    pub fn avg(self) -> (r: Expr)
        ensures
            r.node == Node::List(Box::new(self.expr.node), ListOp::Avg),
    {
        Expr { node: Node::List(Box::new(self.expr.node), ListOp::Avg) }
    }

    /// The number of elements.
    pub fn length(self) -> (r: Expr)
        ensures
            r.node == Node::List(Box::new(self.expr.node), ListOp::Length),
    {
        Expr { node: Node::List(Box::new(self.expr.node), ListOp::Length) }
    }

    /// The strings joined by `glue`.
    pub fn join(self, glue: &str) -> (r: Expr)
        ensures
            r.node matches Node::List(b, ListOp::Join(g)) && *b == self.expr.node && g@ == glue@,
    {
        let glue_s = String::from_str(glue);
        Expr { node: Node::List(Box::new(self.expr.node), ListOp::Join(glue_s)) }
    }

    /// `expr` evaluated against each element.
    pub fn map(self, expr: Expr) -> (r: Expr)
        ensures
            r.node == Node::List(Box::new(self.expr.node), ListOp::Apply(Box::new(expr.node))),
    {
        Expr { node: Node::List(Box::new(self.expr.node), ListOp::Apply(Box::new(expr.node))) }
    }

    /// Whether some element equals the value of `other`.
    pub fn contains(self, other: Expr) -> (r: Expr)
        ensures
            r.node == Node::List(Box::new(self.expr.node), ListOp::Contains(Box::new(other.node))),
    {
        Expr { node: Node::List(Box::new(self.expr.node), ListOp::Contains(Box::new(other.node))) }
    }

    /// The elements for which `cond` is truthy.
    pub fn filter(self, cond: Expr) -> (r: Expr)
        ensures
            r.node == Node::List(Box::new(self.expr.node), ListOp::Filter(Box::new(cond.node))),
    {
        Expr { node: Node::List(Box::new(self.expr.node), ListOp::Filter(Box::new(cond.node))) }
    }

    /// The elements sorted by the value of `key`.
    pub fn sort_by(self, key: Expr) -> (r: Expr)
        ensures
            r.node == Node::List(Box::new(self.expr.node), ListOp::SortBy(Box::new(key.node))),
    {
        Expr { node: Node::List(Box::new(self.expr.node), ListOp::SortBy(Box::new(key.node))) }
    }

    /// The first element with the smallest key.
    pub fn min_by(self, key: Expr) -> (r: Expr)
        ensures
            r.node == Node::List(Box::new(self.expr.node), ListOp::MinBy(Box::new(key.node))),
    {
        Expr { node: Node::List(Box::new(self.expr.node), ListOp::MinBy(Box::new(key.node))) }
    }

    /// The last element with the largest key.
    pub fn max_by(self, key: Expr) -> (r: Expr)
        ensures
            r.node == Node::List(Box::new(self.expr.node), ListOp::MaxBy(Box::new(key.node))),
    {
        Expr { node: Node::List(Box::new(self.expr.node), ListOp::MaxBy(Box::new(key.node))) }
    }

}

impl ExprStrNameSpace {

    /// Whether `other` occurs in the string.
    pub fn contains(self, other: &str) -> (r: Expr)
        ensures
            r.node matches Node::Str(b, StrOp::Contains(t)) && *b == self.expr.node && t@ == other@,
    {
        Expr { node: Node::Str(Box::new(self.expr.node), StrOp::Contains(String::from_str(other))) }
    }

    /// Whether the string begins with `other`.
    pub fn starts_with(self, other: &str) -> (r: Expr)
        ensures
            r.node matches Node::Str(b, StrOp::StartsWith(t)) && *b == self.expr.node && t@ == other@,
    {
        Expr { node: Node::Str(Box::new(self.expr.node), StrOp::StartsWith(String::from_str(other))) }
    }

    /// Whether the string ends with `other`.
    pub fn ends_with(self, other: &str) -> (r: Expr)
        ensures
            r.node matches Node::Str(b, StrOp::EndsWith(t)) && *b == self.expr.node && t@ == other@,
    {
        Expr { node: Node::Str(Box::new(self.expr.node), StrOp::EndsWith(String::from_str(other))) }
    }

    /// The string reversed.
    pub fn reverse(self) -> (r: Expr)
        ensures
            r.node == Node::Str(Box::new(self.expr.node), StrOp::Reverse),
    {
        Expr { node: Node::Str(Box::new(self.expr.node), StrOp::Reverse) }
    }

    /// The characters of the slice `start:end:step`.
    pub fn slice(self, start: Option<isize>, end: Option<isize>, step: Option<isize>) -> (r: Expr)
        ensures
            r.node == Node::Str(Box::new(self.expr.node), StrOp::Slice { start, end, step }),
    {
        Expr { node: Node::Str(Box::new(self.expr.node), StrOp::Slice { start, end, step }) }
    }

    /// The number of characters.
    pub fn length(self) -> (r: Expr)
        ensures
            r.node == Node::Str(Box::new(self.expr.node), StrOp::Length),
    {
        Expr { node: Node::Str(Box::new(self.expr.node), StrOp::Length) }
    }

}

impl ExprStructNameSpace {
    /// The value under key `name`.
    pub fn field(self, name: &str) -> (r: Expr)
        ensures
            r.node matches Node::Struct(b, StructOp::Field(k)) && *b == self.expr.node && k@ == name@,
    {
        Expr { node: Node::Struct(Box::new(self.expr.node), StructOp::Field(String::from_str(name))) }
    }

    /// The keys.
    pub fn keys(self) -> (r: Expr)
        ensures
            r.node == Node::Struct(Box::new(self.expr.node), StructOp::Keys),
    {
        Expr { node: Node::Struct(Box::new(self.expr.node), StructOp::Keys) }
    }

    /// The values.
    pub fn values(self) -> (r: Expr)
        ensures
            r.node == Node::Struct(Box::new(self.expr.node), StructOp::Values),
    {
        Expr { node: Node::Struct(Box::new(self.expr.node), StructOp::Values) }
    }
}

/// The input itself.
pub fn element() -> (r: Expr)
    ensures
        r.node == Node::This,
{
    Expr::new()
}

/// The value under key `name` of the input.
pub fn field(name: &str) -> (r: Expr)
    ensures
        r.node matches Node::Struct(b, StructOp::Field(k)) && *b == Node::This && k@ == name@,
{
    Expr::new().struct_().field(name)
}

/// The dictionary operators over the input.
pub fn struct_() -> (r: ExprStructNameSpace)
    ensures
        r.expr.node == Node::This,
{
    Expr::new().struct_()
}

/// The list operators over the input.
pub fn list() -> (r: ExprListNameSpace)
    ensures
        r.expr.node == Node::This,
{
    Expr::new().list()
}

/// The dictionaries of `args` merged, later keys winning.
pub fn merge(args: Vec<Expr>) -> (r: Expr)
    ensures
        r.node matches Node::Merge(items) && items.len() == args.len() && forall|i: int|
            0 <= i < args.len() ==> items[i] == #[trigger] args[i].node,
{
    Expr { node: Node::Merge(nodes_of(args)) }
}

/// The first value of `args` that is not null.
pub fn coalesce(args: Vec<Expr>) -> (r: Expr)
    ensures
        r.node matches Node::Coalesce(items) && items.len() == args.len() && forall|i: int|
            0 <= i < args.len() ==> items[i] == #[trigger] args[i].node,
{
    Expr { node: Node::Coalesce(nodes_of(args)) }
}

/// The constant `value`.
pub fn lit(value: Value) -> (r: Expr)
    ensures
        r.node == Node::Literal(value),
{
    Expr { node: Node::Literal(value) }
}

fn nodes_of(args: Vec<Expr>) -> (r: Vec<Node>)
    ensures
        r.len() == args.len(),
        forall|i: int| 0 <= i < args.len() ==> r[i] == #[trigger] args[i].node,
{
    let ghost orig = args@;
    let mut rest = args;
    let mut out: Vec<Node> = Vec::new();
    while rest.len() > 0
        invariant
            out.len() + rest.len() == orig.len(),
            forall|i: int| 0 <= i < out.len() ==> out[i] == #[trigger] orig[i].node,
            forall|i: int| 0 <= i < rest.len() ==> rest[i] == #[trigger] orig[i + out.len()],
        decreases rest.len(),
    {
        let ghost old_rest = rest@;
        let ghost old_out = out@;
        let e = rest.remove(0);
        proof {
            assert(old_rest[0] == orig[0 + old_out.len() as int]);
            assert(e == orig[old_out.len() as int]);
        }
        out.push(e.node);
        proof {
            assert forall|i: int| 0 <= i < out.len() implies out[i] == #[trigger] orig[i].node by {
                if i < old_out.len() {
                    assert(out[i] == old_out[i]);
                }
            }
            assert forall|i: int| 0 <= i < rest.len() implies rest[i] == #[trigger] orig[i + out.len()] by {
                assert(rest[i] == old_rest[i + 1]);
                assert(old_rest[i + 1] == orig[(i + 1) + old_out.len() as int]);
            }
        }
    }
    out
}

} // verus!
