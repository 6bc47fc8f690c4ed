//! The syntax tree of a PIL file: statements, expressions, and the array
//! expressions that define fixed columns.

use crate::path::{Part, SymbolPath};
use crate::sequence::{current_values, each_mut};
use crate::source::SourceRef;
use crate::types::{lemma_copies_exactly, same_but_lengths, values_of_refs, Type, TypeScheme};
use vstd::prelude::*;

verus! {

/// A number literal of any size: its digits to the base 2^64.
///
/// The digits are kept most significant first and without leading zeros, and
/// their count is kept in front of them, so that the derived order is the
/// order of the numbers.
#[derive(Debug, PartialEq, Eq, PartialOrd, Ord)]
pub struct Natural {
    count: usize,
    digits: Vec<u64>,
}

/// The number that digits to the base 2^64 stand for, most significant first.
pub open spec fn value_of_digits(digits: Seq<u64>) -> nat
    decreases digits.len(),
{
    if digits.len() == 0 {
        0
    } else {
        value_of_digits(digits.drop_last()) * 0x1_0000_0000_0000_0000 + digits.last() as nat
    }
}

proof fn lemma_leading_digit(digits: Seq<u64>)
    requires
        digits.len() > 0,
        digits[0] != 0,
    ensures
        value_of_digits(digits) >= 1,
        digits.len() >= 2 ==> value_of_digits(digits) >= 0x1_0000_0000_0000_0000,
    decreases digits.len(),
{
    if digits.len() == 1 {
        assert(digits.drop_last().len() == 0);
        assert(value_of_digits(digits.drop_last()) == 0);
    } else {
        lemma_leading_digit(digits.drop_last());
    }
}

impl Natural {
    #[verifier::type_invariant]
    spec fn well_formed(self) -> bool {
        &&& self.count == self.digits@.len()
        &&& self.digits@.len() > 0 ==> self.digits@[0] != 0
    }

    /// The number.
    pub closed spec fn value(self) -> nat {
        value_of_digits(self.digits@)
    }

    /// The number `value`.
    pub fn from_u64(value: u64) -> (number: Natural)
        ensures
            number.value() == value,
    {
        let mut digits: Vec<u64> = Vec::new();
        if value != 0 {
            digits.push(value);
            assert(digits@.drop_last().len() == 0);
            assert(value_of_digits(digits@.drop_last()) == 0);
            assert(digits@.last() == value);
        }
        Natural { count: digits.len(), digits }
    }

    /// The number `value`.
    pub fn from_u32(value: u32) -> (number: Natural)
        ensures
            number.value() == value,
    {
        Natural::from_u64(value as u64)
    }

    /// The number as a `u64`, where it is small enough.
    pub fn to_u64(&self) -> (small: Option<u64>)
        ensures
            small == if self.value() <= u64::MAX {
                Some(self.value() as u64)
            } else {
                None
            },
    {
        proof {
            use_type_invariant(self);
        }
        if self.digits.len() == 0 {
            Some(0)
        } else if self.digits.len() == 1 {
            assert(self.digits@.drop_last().len() == 0);
            assert(value_of_digits(self.digits@.drop_last()) == 0);
            assert(self.digits@.last() == self.digits@[0]);
            Some(self.digits[0])
        } else {
            proof {
                lemma_leading_digit(self.digits@);
            }
            None
        }
    }

    /// The number with the given digits to the base 2^64, most significant
    /// first; leading zeros do not count.
    pub fn from_digits(digits: &Vec<u64>) -> (number: Natural)
        ensures
            number.value() == value_of_digits(digits@),
    {
        let mut start: usize = 0;
        while start < digits.len() && digits[start] == 0
            invariant
                start <= digits.len(),
                forall|k: int| 0 <= k < start ==> digits@[k] == 0,
            decreases digits.len() - start,
        {
            start += 1;
        }
        let mut kept: Vec<u64> = Vec::new();
        let mut i: usize = start;
        while i < digits.len()
            invariant
                start <= i <= digits.len(),
                kept@ == digits@.subrange(start as int, i as int),
            decreases digits.len() - i,
        {
            kept.push(digits[i]);
            i += 1;
        }
        proof {
            lemma_leading_zeros(digits@, start as int);
            assert(kept@ =~= digits@.skip(start as int));
        }
        Natural { count: kept.len(), digits: kept }
    }

    /// The digits to the base 2^64, most significant first, without leading zeros.
    pub fn digits(&self) -> (digits: &Vec<u64>)
        ensures
            value_of_digits(digits@) == self.value(),
            digits@.len() > 0 ==> digits@[0] != 0,
    {
        proof {
            use_type_invariant(self);
        }
        &self.digits
    }

    fn duplicate(&self) -> (copy: Natural)
        ensures
            copy.value() == self.value(),
    {
        proof {
            use_type_invariant(self);
        }
        let mut digits: Vec<u64> = Vec::new();
        let mut i: usize = 0;
        while i < self.digits.len()
            invariant
                i <= self.digits.len(),
                digits@ == self.digits@.take(i as int),
            decreases self.digits.len() - i,
        {
            digits.push(self.digits[i]);
            i += 1;
        }
        assert(digits@ =~= self.digits@);
        Natural { count: digits.len(), digits }
    }
}

impl Clone for Natural {
    fn clone(&self) -> (copy: Self)
        ensures
            copy.value() == self.value(),
    {
        self.duplicate()
    }
}

impl Default for Natural {
    fn default() -> (number: Self)
        ensures
            number.value() == 0,
    {
        Natural::from_u64(0)
    }
}

proof fn lemma_leading_zeros(digits: Seq<u64>, start: int)
    requires
        0 <= start <= digits.len(),
        forall|k: int| 0 <= k < start ==> digits[k] == 0,
    ensures
        value_of_digits(digits.skip(start)) == value_of_digits(digits),
    decreases digits.len(),
{
    if start < digits.len() {
        lemma_leading_zeros(digits.drop_last(), start);
        assert(digits.drop_last().skip(start) =~= digits.skip(start).drop_last());
    } else {
        assert(digits.skip(start).len() == 0);
        lemma_all_zeros(digits);
    }
}

proof fn lemma_all_zeros(digits: Seq<u64>)
    requires
        forall|k: int| 0 <= k < digits.len() ==> digits[k] == 0,
    ensures
        value_of_digits(digits) == 0,
    decreases digits.len(),
{
    if digits.len() > 0 {
        lemma_all_zeros(digits.drop_last());
    }
}

/// An optional selector and a list of expressions: one side of a lookup or of
/// a permutation.
#[derive(Debug, PartialEq, Eq, PartialOrd, Ord, Clone)]
pub struct SelectedExpressions<Expr> {
    pub selector: Option<Expr>,
    pub expressions: Vec<Expr>,
}

/// The items of an option: one or none.
pub open spec fn option_items<A>(item: Option<A>) -> Seq<A> {
    match item {
        Some(a) => seq![a],
        None => Seq::empty(),
    }
}

impl<Expr> SelectedExpressions<Expr> {
    /// The selector, where there is one, and then the expressions.
    pub open spec fn spec_expressions(self) -> Seq<Expr> {
        option_items(self.selector) + self.expressions@
    }

    /// The selector, where there is one, and then the expressions.
    pub fn expressions(&self) -> (found: Vec<&Expr>)
        ensures
            values_of_refs(found@) == self.spec_expressions(),
    {
        let mut found: Vec<&Expr> = Vec::new();
        match &self.selector {
            Some(selector) => {
                found.push(selector);
            },
            None => {},
        }
        assert(values_of_refs(found@) =~= option_items(self.selector));
        let mut more = refs_of(&self.expressions);
        proof {
            assert(values_of_refs(found@ + more@) =~= values_of_refs(found@) + values_of_refs(
                more@,
            ));
        }
        found.append(&mut more);
        found
    }
}

impl<Expr> Default for SelectedExpressions<Expr> {
    fn default() -> (empty: Self)
        ensures
            empty.selector is None,
            empty.expressions@.len() == 0,
    {
        SelectedExpressions { selector: None, expressions: Vec::new() }
    }
}

/// References to the items of a list, in order.
pub fn refs_of<A>(items: &Vec<A>) -> (found: Vec<&A>)
    ensures
        values_of_refs(found@) == items@,
{
    let mut found: Vec<&A> = Vec::new();
    let mut i: usize = 0;
    while i < items.len()
        invariant
            i <= items.len(),
            found@.len() == i,
            forall|k: int| 0 <= k < i ==> *found@[k] == items@[k],
        decreases items.len() - i,
    {
        found.push(&items[i]);
        i += 1;
    }
    assert(values_of_refs(found@) =~= items@);
    found
}

/// A reference to a polynomial, written as a path.
#[derive(Debug, PartialEq, Eq, Default, PartialOrd, Ord)]
pub struct NamespacedPolynomialReference {
    pub path: SymbolPath,
}

impl NamespacedPolynomialReference {
    /// The reference made of the one name `name`.
    pub fn from_identifier(name: std::string::String) -> (reference: Self)
        ensures
            reference.path.spec_parts() == seq![Part::Named(name)],
    {
        let mut parts: Vec<Part> = Vec::new();
        parts.push(Part::Named(name));
        NamespacedPolynomialReference { path: SymbolPath::from_parts(parts) }
    }

    /// The name, where the path is a single named part.
    pub fn try_to_identifier(&self) -> (name: Option<&std::string::String>)
        ensures
            name == match self.path.spec_parts().len() == 1 {
                true => match self.path.spec_parts()[0] {
                    Part::Named(n) => Some(&n),
                    _ => None,
                },
                false => None,
            },
    {
        self.path.try_to_identifier()
    }
}

#[derive(Debug, PartialEq, Eq, PartialOrd, Ord, Clone, Copy, Hash)]
pub enum UnaryOperator {
    Minus,
    LogicalNot,
    Next,
}

impl UnaryOperator {
    /// Whether the operator is written before its operand: all but `Next` are.
    pub fn is_prefix(&self) -> (prefix: bool)
        ensures
            prefix == !(*self is Next),
    {
        match self {
            UnaryOperator::Minus | UnaryOperator::LogicalNot => true,
            UnaryOperator::Next => false,
        }
    }
}

#[derive(Debug, PartialEq, Eq, PartialOrd, Ord, Clone, Copy, Hash)]
pub enum BinaryOperator {
    Add,
    Sub,
    Mul,
    Div,
    Mod,
    Pow,
    BinaryAnd,
    BinaryXor,
    BinaryOr,
    ShiftLeft,
    ShiftRight,
    LogicalOr,
    LogicalAnd,
    Less,
    LessEqual,
    Equal,
    Identity,
    NotEqual,
    GreaterEqual,
    Greater,
}

/// An expression. `Ref` is how it refers to a symbol.
#[derive(Debug, PartialEq, Eq, PartialOrd, Ord)]
pub enum Expression<Ref = NamespacedPolynomialReference> {
    Reference(Ref),
    PublicReference(std::string::String),
    /// A number literal and the type written behind it, if any.
    Number(Natural, Option<Type>),
    String(std::string::String),
    Tuple(Vec<Expression<Ref>>),
    LambdaExpression(LambdaExpression<Ref>),
    ArrayLiteral(ArrayLiteral<Ref>),
    BinaryOperation(Box<Expression<Ref>>, BinaryOperator, Box<Expression<Ref>>),
    UnaryOperation(UnaryOperator, Box<Expression<Ref>>),
    IndexAccess(IndexAccess<Ref>),
    FunctionCall(FunctionCall<Ref>),
    FreeInput(Box<Expression<Ref>>),
    MatchExpression(Box<Expression<Ref>>, Vec<MatchArm<Ref>>),
    IfExpression(IfExpression<Ref>),
}

#[derive(Debug, PartialEq, Eq, PartialOrd, Ord, Clone)]
pub struct LambdaExpression<Ref = NamespacedPolynomialReference> {
    pub params: Vec<std::string::String>,
    pub body: Box<Expression<Ref>>,
}

#[derive(Debug, PartialEq, Eq, PartialOrd, Ord, Clone)]
pub struct ArrayLiteral<Ref = NamespacedPolynomialReference> {
    pub items: Vec<Expression<Ref>>,
}

#[derive(Debug, PartialEq, Eq, PartialOrd, Ord, Clone)]
pub struct IndexAccess<Ref = NamespacedPolynomialReference> {
    pub array: Box<Expression<Ref>>,
    pub index: Box<Expression<Ref>>,
}

#[derive(Debug, PartialEq, Eq, PartialOrd, Ord, Clone)]
pub struct FunctionCall<Ref = NamespacedPolynomialReference> {
    pub function: Box<Expression<Ref>>,
    pub arguments: Vec<Expression<Ref>>,
}

#[derive(Debug, PartialEq, Eq, PartialOrd, Ord, Clone)]
pub struct MatchArm<Ref = NamespacedPolynomialReference> {
    pub pattern: MatchPattern<Ref>,
    pub value: Expression<Ref>,
}

/// What a match arm is chosen by.
#[derive(Debug, PartialEq, Eq, PartialOrd, Ord, Clone)]
pub enum MatchPattern<Ref = NamespacedPolynomialReference> {
    CatchAll,
    Pattern(Expression<Ref>),
}

#[derive(Debug, PartialEq, Eq, PartialOrd, Ord, Clone)]
pub struct IfExpression<Ref = NamespacedPolynomialReference> {
    pub condition: Box<Expression<Ref>>,
    pub body: Box<Expression<Ref>>,
    pub else_body: Box<Expression<Ref>>,
}

/// An expression and the type scheme declared for it, if any.
#[derive(Debug, PartialEq, Eq, PartialOrd, Ord, Clone)]
pub struct TypedExpression<Ref = NamespacedPolynomialReference, E = Expression<Ref>> {
    pub e: Expression<Ref>,
    pub type_scheme: Option<TypeScheme<E>>,
}

#[derive(Debug, PartialEq, Eq, PartialOrd, Ord, Default, Clone)]
pub struct PolynomialName {
    pub name: std::string::String,
    pub array_size: Option<Expression>,
}

impl<Ref> Expression<Ref> {
    /// The binary operation `left op right`.
    pub fn new_binary(left: Self, op: BinaryOperator, right: Self) -> (e: Self)
        ensures
            e == Expression::BinaryOperation(Box::new(left), op, Box::new(right)),
    {
        Expression::BinaryOperation(Box::new(left), op, Box::new(right))
    }

    /// The literal for `value`, without a type.
    pub fn from_u32(value: u32) -> (e: Self)
        ensures
            ({
                &&& e matches Expression::Number(n, ty)
                &&& n.value() == value
                &&& ty is None
            }),
    {
        Expression::Number(Natural::from_u32(value), None)
    }

    /// The literal for `value`, without a type.
    pub fn from_number(value: Natural) -> (e: Self)
        ensures
            e == Expression::<Ref>::Number(value, None),
    {
        Expression::Number(value, None)
    }

    /// The sum `self + rhs`.
    pub fn add(self, rhs: Self) -> (e: Self)
        ensures
            e == Expression::BinaryOperation(Box::new(self), BinaryOperator::Add, Box::new(rhs)),
    {
        Self::new_binary(self, BinaryOperator::Add, rhs)
    }

    /// The difference `self - rhs`.
    pub fn sub(self, rhs: Self) -> (e: Self)
        ensures
            e == Expression::BinaryOperation(Box::new(self), BinaryOperator::Sub, Box::new(rhs)),
    {
        Self::new_binary(self, BinaryOperator::Sub, rhs)
    }

    /// The product `self * rhs`.
    pub fn mul(self, rhs: Self) -> (e: Self)
        ensures
            e == Expression::BinaryOperation(Box::new(self), BinaryOperator::Mul, Box::new(rhs)),
    {
        Self::new_binary(self, BinaryOperator::Mul, rhs)
    }
}

/// Whether `copy` is what cloning `given` gives: the same expression,
/// each reference a clone of the reference in its place.
pub open spec fn same_expression<Ref: Clone>(given: Expression<Ref>, copy: Expression<Ref>) -> bool
    decreases given,
{
    match (given, copy) {
        (Expression::Reference(x), Expression::Reference(y)) => cloned(x, y),
        (Expression::PublicReference(x), Expression::PublicReference(y)) => x == y,
        (Expression::Number(n, t), Expression::Number(m, u)) => {
            &&& n.value() == m.value()
            &&& match (t, u) {
                (Some(a), Some(b)) => a@ == b@,
                (None, None) => true,
                _ => false,
            }
        },
        (Expression::String(x), Expression::String(y)) => x == y,
        (Expression::Tuple(xs), Expression::Tuple(ys)) => same_expressions(xs@, ys@),
        (Expression::LambdaExpression(x), Expression::LambdaExpression(y)) => {
            &&& x.params@ == y.params@
            &&& same_expression(*x.body, *y.body)
        },
        (Expression::ArrayLiteral(x), Expression::ArrayLiteral(y)) => same_expressions(
            x.items@,
            y.items@,
        ),
        (Expression::BinaryOperation(l, op, r), Expression::BinaryOperation(l2, op2, r2)) => {
            &&& op == op2
            &&& same_expression(*l, *l2)
            &&& same_expression(*r, *r2)
        },
        (Expression::UnaryOperation(op, e), Expression::UnaryOperation(op2, e2)) => {
            &&& op == op2
            &&& same_expression(*e, *e2)
        },
        (Expression::IndexAccess(x), Expression::IndexAccess(y)) => {
            &&& same_expression(*x.array, *y.array)
            &&& same_expression(*x.index, *y.index)
        },
        (Expression::FunctionCall(x), Expression::FunctionCall(y)) => {
            &&& same_expression(*x.function, *y.function)
            &&& same_expressions(x.arguments@, y.arguments@)
        },
        (Expression::FreeInput(x), Expression::FreeInput(y)) => same_expression(*x, *y),
        (Expression::MatchExpression(s, arms), Expression::MatchExpression(s2, arms2)) => {
            &&& same_expression(*s, *s2)
            &&& same_arms(arms@, arms2@)
        },
        (Expression::IfExpression(x), Expression::IfExpression(y)) => {
            &&& same_expression(*x.condition, *y.condition)
            &&& same_expression(*x.body, *y.body)
            &&& same_expression(*x.else_body, *y.else_body)
        },
        _ => false,
    }
}

/// Whether each expression of `copies` is the same as the one in its place.
pub open spec fn same_expressions<Ref: Clone>(
    givens: Seq<Expression<Ref>>,
    copies: Seq<Expression<Ref>>,
) -> bool
    decreases givens,
{
    &&& givens.len() == copies.len()
    &&& forall|i: int|
        0 <= i < givens.len() ==> same_expression(#[trigger] givens[i], copies[i])
}

/// Whether each arm of `copies` is the same as the one in its place.
pub open spec fn same_arms<Ref: Clone>(givens: Seq<MatchArm<Ref>>, copies: Seq<MatchArm<Ref>>) -> bool
    decreases givens,
{
    &&& givens.len() == copies.len()
    &&& forall|i: int| 0 <= i < givens.len() ==> same_arm(#[trigger] givens[i], copies[i])
}

/// Whether `copy` has the same pattern and the same value as `given`.
pub open spec fn same_arm<Ref: Clone>(given: MatchArm<Ref>, copy: MatchArm<Ref>) -> bool
    decreases given,
{
    &&& same_expression(given.value, copy.value)
    &&& match (given.pattern, copy.pattern) {
        (MatchPattern::CatchAll, MatchPattern::CatchAll) => true,
        (MatchPattern::Pattern(x), MatchPattern::Pattern(y)) => same_expression(x, y),
        _ => false,
    }
}

fn duplicate_names(names: &Vec<std::string::String>) -> (copied: Vec<std::string::String>)
    ensures
        copied@ == names@,
{
    let mut copied: Vec<std::string::String> = Vec::new();
    let mut i: usize = 0;
    while i < names.len()
        invariant
            i <= names.len(),
            copied@ == names@.take(i as int),
        decreases names.len() - i,
    {
        copied.push(names[i].clone());
        i += 1;
    }
    assert(copied@ =~= names@);
    copied
}

fn duplicate_expressions<Ref: Clone>(items: &Vec<Expression<Ref>>) -> (copied: Vec<Expression<Ref>>)
    ensures
        same_expressions(items@, copied@),
    decreases items,
{
    let mut copied: Vec<Expression<Ref>> = Vec::new();
    let mut i: usize = 0;
    while i < items.len()
        invariant
            i <= items.len(),
            copied@.len() == i,
            forall|k: int| 0 <= k < i ==> same_expression(#[trigger] items@[k], copied@[k]),
        decreases items.len() - i,
    {
        proof {
            vstd::std_specs::vec::axiom_vec_index_decreases(*items, i as int);
        }
        copied.push(items[i].duplicate());
        i += 1;
    }
    copied
}

fn duplicate_arms<Ref: Clone>(arms: &Vec<MatchArm<Ref>>) -> (copied: Vec<MatchArm<Ref>>)
    ensures
        same_arms(arms@, copied@),
    decreases arms,
{
    let mut copied: Vec<MatchArm<Ref>> = Vec::new();
    let mut i: usize = 0;
    while i < arms.len()
        invariant
            i <= arms.len(),
            copied@.len() == i,
            forall|k: int| 0 <= k < i ==> same_arm(#[trigger] arms@[k], copied@[k]),
        decreases arms.len() - i,
    {
        proof {
            vstd::std_specs::vec::axiom_vec_index_decreases(*arms, i as int);
        }
        let arm = &arms[i];
        let pattern = match &arm.pattern {
            MatchPattern::CatchAll => MatchPattern::CatchAll,
            MatchPattern::Pattern(e) => MatchPattern::Pattern(e.duplicate()),
        };
        let value = arm.value.duplicate();
        copied.push(MatchArm { pattern, value });
        i += 1;
    }
    copied
}

impl<Ref: Clone> Expression<Ref> {
    fn duplicate(&self) -> (copy: Self)
        ensures
            same_expression(*self, copy),
        decreases self,
    {
        match self {
            Expression::Reference(r) => Expression::Reference(r.clone()),
            Expression::PublicReference(name) => Expression::PublicReference(name.clone()),
            Expression::Number(n, ty) => {
                let ty_copy = match ty {
                    Some(t) => {
                        let c = t.clone();
                        proof {
                            lemma_copies_exactly(t@, c@);
                        }
                        Some(c)
                    },
                    None => None,
                };
                Expression::Number(n.duplicate(), ty_copy)
            },
            Expression::String(text) => Expression::String(text.clone()),
            Expression::Tuple(items) => Expression::Tuple(duplicate_expressions(items)),
            Expression::LambdaExpression(lambda) => Expression::LambdaExpression(
                LambdaExpression {
                    params: duplicate_names(&lambda.params),
                    body: Box::new((&*lambda.body).duplicate()),
                },
            ),
            Expression::ArrayLiteral(array) => Expression::ArrayLiteral(
                ArrayLiteral { items: duplicate_expressions(&array.items) },
            ),
            Expression::BinaryOperation(left, op, right) => Expression::BinaryOperation(
                Box::new((&**left).duplicate()),
                *op,
                Box::new((&**right).duplicate()),
            ),
            Expression::UnaryOperation(op, e) => Expression::UnaryOperation(
                *op,
                Box::new((&**e).duplicate()),
            ),
            Expression::IndexAccess(access) => Expression::IndexAccess(
                IndexAccess {
                    array: Box::new((&*access.array).duplicate()),
                    index: Box::new((&*access.index).duplicate()),
                },
            ),
            Expression::FunctionCall(call) => Expression::FunctionCall(
                FunctionCall {
                    function: Box::new((&*call.function).duplicate()),
                    arguments: duplicate_expressions(&call.arguments),
                },
            ),
            Expression::FreeInput(e) => Expression::FreeInput(Box::new((&**e).duplicate())),
            Expression::MatchExpression(scrutinee, arms) => Expression::MatchExpression(
                Box::new((&**scrutinee).duplicate()),
                duplicate_arms(arms),
            ),
            Expression::IfExpression(branch) => Expression::IfExpression(
                IfExpression {
                    condition: Box::new((&*branch.condition).duplicate()),
                    body: Box::new((&*branch.body).duplicate()),
                    else_body: Box::new((&*branch.else_body).duplicate()),
                },
            ),
        }
    }
}

impl<Ref: Clone> Clone for Expression<Ref> {
    fn clone(&self) -> (copy: Self)
        ensures
            same_expression(*self, copy),
    {
        self.duplicate()
    }
}

/// The definition of a fixed column by its values: literal blocks and blocks
/// that are repeated as often as the degree asks for.
#[derive(Debug, PartialEq, Eq, PartialOrd, Ord)]
pub enum ArrayExpression {
    Value(Vec<Expression>),
    RepeatedValue(Vec<Expression>),
    Concat(Box<ArrayExpression>, Box<ArrayExpression>),
}

/// Why an array expression does not fit a degree.
#[derive(Debug, PartialEq, Eq, Clone)]
pub enum ArraySolveError {
    /// More than one block is marked as repeated.
    AmbiguousRepetition,
    /// The literal blocks together are longer than the degree. The length
    /// is theirs, or the largest number where it is larger.
    ArrayTooLarge { length: u64, degree: u64 },
}

/// The number of repeated blocks in an array expression.
pub open spec fn repetitions(array: ArrayExpression) -> nat
    decreases array,
{
    match array {
        ArrayExpression::RepeatedValue(_) => 1,
        ArrayExpression::Value(_) => 0,
        ArrayExpression::Concat(left, right) => repetitions(*left) + repetitions(*right),
    }
}

/// The number of items in the blocks that are not repeated.
pub open spec fn constant_length(array: ArrayExpression) -> nat
    decreases array,
{
    match array {
        ArrayExpression::RepeatedValue(_) => 0,
        ArrayExpression::Value(items) => items@.len(),
        ArrayExpression::Concat(left, right) => constant_length(*left) + constant_length(*right),
    }
}

/// The expressions of all blocks, from left to right.
pub open spec fn array_expressions(array: ArrayExpression) -> Seq<Expression>
    decreases array,
{
    match array {
        ArrayExpression::Value(items) | ArrayExpression::RepeatedValue(items) => items@,
        ArrayExpression::Concat(left, right) => array_expressions(*left) + array_expressions(*right),
    }
}

/// What `solve` answers: how often the repeated block is written so that the
/// array has `degree` items.
pub open spec fn solved(array: ArrayExpression, degree: u64) -> Result<u64, ArraySolveError> {
    if repetitions(array) > 1 {
        Err(ArraySolveError::AmbiguousRepetition)
    } else if constant_length(array) > degree {
        Err(
            ArraySolveError::ArrayTooLarge {
                length: if constant_length(array) <= u64::MAX {
                    constant_length(array) as u64
                } else {
                    u64::MAX
                },
                degree,
            },
        )
    } else {
        Ok((degree - constant_length(array)) as u64)
    }
}

impl ArrayExpression {
    /// The literal block of the given items.
    pub fn value(v: Vec<Expression>) -> (array: Self)
        ensures
            array == ArrayExpression::Value(v),
    {
        ArrayExpression::Value(v)
    }

    /// The repeated block of the given items.
    pub fn repeated_value(v: Vec<Expression>) -> (array: Self)
        ensures
            array == ArrayExpression::RepeatedValue(v),
    {
        ArrayExpression::RepeatedValue(v)
    }

    /// `self` followed by `other`.
    pub fn concat(self, other: Self) -> (array: Self)
        ensures
            array == ArrayExpression::Concat(Box::new(self), Box::new(other)),
    {
        ArrayExpression::Concat(Box::new(self), Box::new(other))
    }

    fn pad_with(self, pad: Expression) -> (array: Self)
        ensures
            ({
                &&& array matches ArrayExpression::Concat(left, right)
                &&& *left == self
                &&& *right matches ArrayExpression::RepeatedValue(items)
                &&& items@ == seq![pad]
            }),
    {
        let mut items: Vec<Expression> = Vec::new();
        items.push(pad);
        Self::concat(self, Self::repeated_value(items))
    }

    fn has_expressions(&self) -> (found: bool)
        ensures
            found == (array_expressions(*self).len() > 0),
        decreases self,
    {
        match self {
            ArrayExpression::Value(items) | ArrayExpression::RepeatedValue(items) => items.len()
                > 0,
            ArrayExpression::Concat(left, right) => {
                let l = (&**left).has_expressions();
                let r = (&**right).has_expressions();
                l || r
            },
        }
    }

    /// The array followed by a repeated block that holds the literal zero.
    /// An array without expressions is left as it is.
    pub fn pad_with_zeroes(self) -> (array: Self)
        ensures
            array_expressions(self).len() == 0 ==> array == self,
            array_expressions(self).len() > 0 ==> {
                &&& array matches ArrayExpression::Concat(left, right)
                &&& *left == self
                &&& *right matches ArrayExpression::RepeatedValue(items)
                &&& items@.len() == 1
                &&& items@[0] matches Expression::Number(n, ty)
                &&& n.value() == 0
                &&& ty is None
            },
    {
        if self.has_expressions() {
            self.pad_with(Expression::from_u32(0))
        } else {
            self
        }
    }

    fn last(&self) -> (last: Option<&Expression>)
        ensures
            match last {
                Some(e) => array_expressions(*self).len() > 0 && array_expressions(*self).last()
                    == *e,
                None => array_expressions(*self).len() == 0,
            },
        decreases self,
    {
        match self {
            ArrayExpression::Value(items) | ArrayExpression::RepeatedValue(items) => {
                if items.len() > 0 {
                    Some(&items[items.len() - 1])
                } else {
                    None
                }
            },
            ArrayExpression::Concat(left, right) => {
                match (&**right).last() {
                    Some(e) => Some(e),
                    None => {
                        proof {
                            assert(array_expressions(*self) =~= array_expressions(**left));
                        }
                        (&**left).last()
                    },
                }
            },
        }
    }

    /// The array followed by a repeated block that holds a clone of its last
    /// expression, the last of all its blocks read from left to right;
    /// `None` where the array holds no expression.
    pub fn pad_with_last(self) -> (array: Option<Self>)
        ensures
            match array {
                Some(padded) => {
                    &&& array_expressions(self).len() > 0
                    &&& padded matches ArrayExpression::Concat(left, right)
                    &&& *left == self
                    &&& *right matches ArrayExpression::RepeatedValue(items)
                    &&& items@.len() == 1
                    &&& same_expression(array_expressions(self).last(), items@[0])
                },
                None => array_expressions(self).len() == 0,
            },
    {
        let copy = match self.last() {
            Some(last) => Some(last.duplicate()),
            None => None,
        };
        match copy {
            Some(pad) => Some(self.pad_with(pad)),
            None => None,
        }
    }

    fn repeats_more_than_once(&self) -> (count: u8)
        ensures
            count <= 2,
            repetitions(*self) < 2 ==> count == repetitions(*self),
            repetitions(*self) >= 2 ==> count == 2,
        decreases self,
    {
        match self {
            ArrayExpression::RepeatedValue(_) => 1,
            ArrayExpression::Value(_) => 0,
            ArrayExpression::Concat(left, right) => {
                let l = (&**left).repeats_more_than_once();
                let r = (&**right).repeats_more_than_once();
                if l + r >= 2 {
                    2
                } else {
                    l + r
                }
            },
        }
    }

    fn constant_length_within(&self, limit: u64) -> (length: Option<u64>)
        ensures
            length == if constant_length(*self) <= limit {
                Some(constant_length(*self) as u64)
            } else {
                None
            },
        decreases self,
    {
        match self {
            ArrayExpression::RepeatedValue(_) => Some(0),
            ArrayExpression::Value(items) => {
                if items.len() as u64 <= limit {
                    Some(items.len() as u64)
                } else {
                    None
                }
            },
            ArrayExpression::Concat(left, right) => {
                match (&**left).constant_length_within(limit) {
                    Some(l) => match (&**right).constant_length_within(limit - l) {
                        Some(r) => Some(l + r),
                        None => None,
                    },
                    None => None,
                }
            },
        }
    }

    /// How often the repeated block is written so that the array has `degree`
    /// items: the degree less the items of the literal blocks. More than one
    /// repeated block is refused, whatever the degree; so is an array whose
    /// literal blocks hold more than `degree` items.
    pub fn solve(&self, degree: u64) -> (repeats: Result<u64, ArraySolveError>)
        ensures
            repeats == solved(*self, degree),
    {
        if self.repeats_more_than_once() > 1 {
            return Err(ArraySolveError::AmbiguousRepetition);
        }
        match self.constant_length_within(u64::MAX) {
            Some(length) => if length <= degree {
                Ok(degree - length)
            } else {
                Err(ArraySolveError::ArrayTooLarge { length, degree })
            },
            None => Err(ArraySolveError::ArrayTooLarge { length: u64::MAX, degree }),
        }
    }

    /// The expressions of all blocks, from left to right.
    pub fn expressions(&self) -> (found: Vec<&Expression>)
        ensures
            values_of_refs(found@) == array_expressions(*self),
        decreases self,
    {
        match self {
            ArrayExpression::Value(items) | ArrayExpression::RepeatedValue(items) => refs_of(items),
            ArrayExpression::Concat(left, right) => {
                let mut found = (&**left).expressions();
                let mut more = (&**right).expressions();
                proof {
                    assert(values_of_refs(found@ + more@) =~= values_of_refs(found@)
                        + values_of_refs(more@));
                }
                found.append(&mut more);
                found
            },
        }
    }
}

/// Whether `copy` is what cloning `given` gives: the same blocks in the
/// same arrangement.
pub open spec fn same_array(given: ArrayExpression, copy: ArrayExpression) -> bool
    decreases given,
{
    match (given, copy) {
        (ArrayExpression::Value(xs), ArrayExpression::Value(ys)) => same_expressions(xs@, ys@),
        (ArrayExpression::RepeatedValue(xs), ArrayExpression::RepeatedValue(ys)) => same_expressions(
            xs@,
            ys@,
        ),
        (ArrayExpression::Concat(l, r), ArrayExpression::Concat(l2, r2)) => {
            &&& same_array(*l, *l2)
            &&& same_array(*r, *r2)
        },
        _ => false,
    }
}

impl ArrayExpression {
    fn duplicate(&self) -> (copy: Self)
        ensures
            same_array(*self, copy),
        decreases self,
    {
        match self {
            ArrayExpression::Value(items) => ArrayExpression::Value(duplicate_expressions(items)),
            ArrayExpression::RepeatedValue(items) => ArrayExpression::RepeatedValue(
                duplicate_expressions(items),
            ),
            ArrayExpression::Concat(left, right) => ArrayExpression::Concat(
                Box::new((&**left).duplicate()),
                Box::new((&**right).duplicate()),
            ),
        }
    }
}

impl Clone for ArrayExpression {
    fn clone(&self) -> (copy: Self)
        ensures
            same_array(*self, copy),
    {
        self.duplicate()
    }
}

/// The definition of a function, without its name.
#[derive(Debug, PartialEq, Eq, PartialOrd, Ord, Clone)]
pub enum FunctionDefinition {
    /// The values, one by one.
    Array(ArrayExpression),
    /// A query to the prover.
    Query(Expression),
    /// An expression.
    Expression(Expression),
}

impl FunctionDefinition {
    /// The expressions of the definition.
    pub open spec fn spec_expressions(self) -> Seq<Expression> {
        match self {
            FunctionDefinition::Array(array) => array_expressions(array),
            FunctionDefinition::Query(e) | FunctionDefinition::Expression(e) => seq![e],
        }
    }

    /// The expressions of the definition.
    pub fn expressions(&self) -> (found: Vec<&Expression>)
        ensures
            values_of_refs(found@) == self.spec_expressions(),
    {
        match self {
            FunctionDefinition::Array(array) => array.expressions(),
            FunctionDefinition::Query(e) | FunctionDefinition::Expression(e) => {
                let mut found: Vec<&Expression> = Vec::new();
                found.push(e);
                assert(values_of_refs(found@) =~= self.spec_expressions());
                found
            },
        }
    }
}

/// A PIL file: its statements in order.
#[derive(Debug, PartialEq, Eq, Clone)]
pub struct PILFile(pub Vec<PilStatement>);

#[derive(Debug, PartialEq, Eq, PartialOrd, Ord, Clone)]
pub enum PilStatement {
    /// The name of a file to include.
    Include(SourceRef, std::string::String),
    /// The name of a namespace and its degree.
    Namespace(SourceRef, SymbolPath, Expression),
    LetStatement(
        SourceRef,
        std::string::String,
        Option<TypeScheme<Expression>>,
        Option<Expression>,
    ),
    PolynomialDefinition(SourceRef, std::string::String, Expression),
    /// The name of the public value, the column that holds it, the index into
    /// that column where it is an array, and the row.
    PublicDeclaration(
        SourceRef,
        std::string::String,
        NamespacedPolynomialReference,
        Option<Expression>,
        Expression,
    ),
    PolynomialConstantDeclaration(SourceRef, Vec<PolynomialName>),
    PolynomialConstantDefinition(SourceRef, std::string::String, FunctionDefinition),
    PolynomialCommitDeclaration(SourceRef, Vec<PolynomialName>, Option<FunctionDefinition>),
    PlookupIdentity(SourceRef, SelectedExpressions<Expression>, SelectedExpressions<Expression>),
    PermutationIdentity(
        SourceRef,
        SelectedExpressions<Expression>,
        SelectedExpressions<Expression>,
    ),
    ConnectIdentity(SourceRef, Vec<Expression>, Vec<Expression>),
    ConstantDefinition(SourceRef, std::string::String, Expression),
    Expression(SourceRef, Expression),
}

/// The names of the polynomials of a declaration, in order.
pub open spec fn polynomial_names(polynomials: Seq<PolynomialName>) -> Seq<std::string::String> {
    polynomials.map_values(|p: PolynomialName| p.name)
}

/// The expressions of a type scheme, where there is one: the array lengths
/// written in its type.
pub open spec fn scheme_expressions(scheme: Option<TypeScheme<Expression>>) -> Seq<Expression> {
    match scheme {
        Some(s) => crate::types::lengths(s.ty@),
        None => Seq::empty(),
    }
}

/// The expressions of a function definition, where there is one.
pub open spec fn definition_expressions(definition: Option<FunctionDefinition>) -> Seq<Expression> {
    match definition {
        Some(d) => d.spec_expressions(),
        None => Seq::empty(),
    }
}

impl PilStatement {
    /// The names of the symbols that the statement defines.
    pub open spec fn spec_symbol_definition_names(self) -> Seq<std::string::String> {
        match self {
            PilStatement::PolynomialDefinition(_, name, _)
            | PilStatement::PolynomialConstantDefinition(_, name, _)
            | PilStatement::ConstantDefinition(_, name, _)
            | PilStatement::PublicDeclaration(_, name, _, _, _)
            | PilStatement::LetStatement(_, name, _, _) => seq![name],
            PilStatement::PolynomialConstantDeclaration(_, polynomials)
            | PilStatement::PolynomialCommitDeclaration(_, polynomials, _) => polynomial_names(
                polynomials@,
            ),
            PilStatement::Include(_, _)
            | PilStatement::Namespace(_, _, _)
            | PilStatement::PlookupIdentity(_, _, _)
            | PilStatement::PermutationIdentity(_, _, _)
            | PilStatement::ConnectIdentity(_, _, _)
            | PilStatement::Expression(_, _) => Seq::empty(),
        }
    }

    /// The expressions written in the statement, from left to right, not
    /// those inside other expressions.
    pub open spec fn spec_expressions(self) -> Seq<Expression> {
        match self {
            PilStatement::PlookupIdentity(_, left, right)
            | PilStatement::PermutationIdentity(_, left, right) => left.spec_expressions()
                + right.spec_expressions(),
            PilStatement::ConnectIdentity(_, left, right) => left@ + right@,
            PilStatement::Expression(_, e)
            | PilStatement::Namespace(_, _, e)
            | PilStatement::PolynomialDefinition(_, _, e)
            | PilStatement::ConstantDefinition(_, _, e) => seq![e],
            PilStatement::LetStatement(_, _, type_scheme, value) => scheme_expressions(type_scheme)
                + option_items(value),
            PilStatement::PublicDeclaration(_, _, _, i, e) => option_items(i) + seq![e],
            PilStatement::PolynomialConstantDefinition(_, _, definition) => {
                definition.spec_expressions()
            },
            PilStatement::PolynomialCommitDeclaration(_, _, definition) => definition_expressions(
                definition,
            ),
            PilStatement::Include(_, _) | PilStatement::PolynomialConstantDeclaration(_, _) => {
                Seq::empty()
            },
        }
    }

    /// The names of the symbols that the statement defines: one for a
    /// definition, one for each polynomial of a declaration, none otherwise.
    pub fn symbol_definition_names(&self) -> (names: Vec<&std::string::String>)
        ensures
            values_of_refs(names@) == self.spec_symbol_definition_names(),
    {
        match self {
            PilStatement::PolynomialDefinition(_, name, _)
            | PilStatement::PolynomialConstantDefinition(_, name, _)
            | PilStatement::ConstantDefinition(_, name, _)
            | PilStatement::PublicDeclaration(_, name, _, _, _)
            | PilStatement::LetStatement(_, name, _, _) => {
                let mut names: Vec<&std::string::String> = Vec::new();
                names.push(name);
                assert(values_of_refs(names@) =~= seq![*name]);
                names
            },
            PilStatement::PolynomialConstantDeclaration(_, polynomials)
            | PilStatement::PolynomialCommitDeclaration(_, polynomials, _) => {
                let mut names: Vec<&std::string::String> = Vec::new();
                let mut i: usize = 0;
                while i < polynomials.len()
                    invariant
                        i <= polynomials.len(),
                        names@.len() == i,
                        forall|k: int| 0 <= k < i ==> *names@[k] == polynomials@[k].name,
                    decreases polynomials.len() - i,
                {
                    names.push(&polynomials[i].name);
                    i += 1;
                }
                assert(values_of_refs(names@) =~= polynomial_names(polynomials@));
                names
            },
            PilStatement::Include(_, _)
            | PilStatement::Namespace(_, _, _)
            | PilStatement::PlookupIdentity(_, _, _)
            | PilStatement::PermutationIdentity(_, _, _)
            | PilStatement::ConnectIdentity(_, _, _)
            | PilStatement::Expression(_, _) => {
                let names: Vec<&std::string::String> = Vec::new();
                assert(values_of_refs(names@) =~= Seq::<std::string::String>::empty());
                names
            },
        }
    }

    /// The expressions written in the statement, from left to right, not
    /// those inside other expressions.
    pub fn expressions(&self) -> (found: Vec<&Expression>)
        ensures
            values_of_refs(found@) == self.spec_expressions(),
    {
        match self {
            PilStatement::PlookupIdentity(_, left, right)
            | PilStatement::PermutationIdentity(_, left, right) => {
                joined_refs(left.expressions(), right.expressions())
            },
            PilStatement::ConnectIdentity(_, left, right) => {
                joined_refs(refs_of(left), refs_of(right))
            },
            PilStatement::Expression(_, e)
            | PilStatement::Namespace(_, _, e)
            | PilStatement::PolynomialDefinition(_, _, e)
            | PilStatement::ConstantDefinition(_, _, e) => {
                let mut found: Vec<&Expression> = Vec::new();
                found.push(e);
                assert(values_of_refs(found@) =~= seq![*e]);
                found
            },
            PilStatement::LetStatement(_, _, type_scheme, value) => {
                let first = match type_scheme {
                    Some(scheme) => scheme.ty.expressions(),
                    None => {
                        let none: Vec<&Expression> = Vec::new();
                        assert(values_of_refs(none@) =~= Seq::<Expression>::empty());
                        none
                    },
                };
                joined_refs(first, option_refs(value))
            },
            PilStatement::PublicDeclaration(_, _, _, i, e) => {
                let mut last: Vec<&Expression> = Vec::new();
                last.push(e);
                assert(values_of_refs(last@) =~= seq![*e]);
                joined_refs(option_refs(i), last)
            },
            PilStatement::PolynomialConstantDefinition(_, _, definition) => {
                definition.expressions()
            },
            PilStatement::PolynomialCommitDeclaration(_, _, Some(definition)) => {
                definition.expressions()
            },
            PilStatement::PolynomialCommitDeclaration(_, _, None)
            | PilStatement::Include(_, _)
            | PilStatement::PolynomialConstantDeclaration(_, _) => {
                let found: Vec<&Expression> = Vec::new();
                assert(values_of_refs(found@) =~= Seq::<Expression>::empty());
                found
            },
        }
    }
}

fn joined_refs<'a, A>(first: Vec<&'a A>, second: Vec<&'a A>) -> (joined: Vec<&'a A>)
    ensures
        values_of_refs(joined@) == values_of_refs(first@) + values_of_refs(second@),
{
    let mut joined = first;
    let mut more = second;
    proof {
        assert(values_of_refs(joined@ + more@) =~= values_of_refs(joined@) + values_of_refs(more@));
    }
    joined.append(&mut more);
    joined
}

fn option_refs<A>(item: &Option<A>) -> (found: Vec<&A>)
    ensures
        values_of_refs(found@) == option_items(*item),
{
    let mut found: Vec<&A> = Vec::new();
    match item {
        Some(a) => {
            found.push(a);
        },
        None => {},
    }
    assert(values_of_refs(found@) =~= option_items(*item));
    found
}

impl<Expr> SelectedExpressions<Expr> {
    /// Mutable references to the selector, where there is one, and then to
    /// the expressions. What is written through them is what the selector
    /// and the expressions are afterwards; their number does not change.
    pub fn expressions_mut(&mut self) -> (found: Vec<&mut Expr>)
        ensures
            current_values(found@) == old(self).spec_expressions(),
            final(self).spec_expressions().len() == found@.len(),
            forall|i: int|
                0 <= i < found@.len() ==> #[trigger] final(self).spec_expressions()[i] == *final(found@[i]),
            final(self).selector is Some <==> old(self).selector is Some,
    {
        let mut found: Vec<&mut Expr> = Vec::new();
        match &mut self.selector {
            Some(selector) => {
                found.push(selector);
            },
            None => {},
        }
        let mut more = each_mut(&mut self.expressions);
        found.append(&mut more);
        assert(current_values(found@) =~= old(self).spec_expressions());
        found
    }
}

/// Whether two array expressions have the same blocks of the same lengths in
/// the same arrangement.
pub open spec fn same_arrangement(a: ArrayExpression, b: ArrayExpression) -> bool
    decreases a,
{
    match (a, b) {
        (ArrayExpression::Value(xs), ArrayExpression::Value(ys)) => xs@.len() == ys@.len(),
        (ArrayExpression::RepeatedValue(xs), ArrayExpression::RepeatedValue(ys)) => xs@.len()
            == ys@.len(),
        (ArrayExpression::Concat(l, r), ArrayExpression::Concat(l2, r2)) => {
            &&& same_arrangement(*l, *l2)
            &&& same_arrangement(*r, *r2)
        },
        _ => false,
    }
}

impl ArrayExpression {
    /// Mutable references to the expressions of all blocks, from left to
    /// right. What is written through them is what the blocks hold
    /// afterwards; the blocks and their lengths do not change.
    pub fn expressions_mut(&mut self) -> (found: Vec<&mut Expression>)
        ensures
            current_values(found@) == array_expressions(*old(self)),
            array_expressions(*final(self)).len() == found@.len(),
            forall|i: int|
                0 <= i < found@.len() ==> #[trigger] array_expressions(*final(self))[i] == *final(found@[i]),
            same_arrangement(*old(self), *final(self)),
        decreases *old(self),
    {
        match self {
            ArrayExpression::Value(items) => {
                each_mut(items)
            },
            ArrayExpression::RepeatedValue(items) => {
                each_mut(items)
            },
            ArrayExpression::Concat(left, right) => {
                let mut found = (&mut **left).expressions_mut();
                let mut more = (&mut **right).expressions_mut();
                let ghost first = found@;
                let ghost second = more@;
                found.append(&mut more);
                proof {
                    assert(found@ =~= first + second);
                    assert(current_values(found@) =~= current_values(first) + current_values(
                        second,
                    ));
                }
                found
            },
        }
    }
}

/// Whether two function definitions are of the same kind and, where they are
/// arrays, of the same arrangement.
pub open spec fn same_definition_shape(a: FunctionDefinition, b: FunctionDefinition) -> bool {
    match (a, b) {
        (FunctionDefinition::Array(x), FunctionDefinition::Array(y)) => same_arrangement(x, y),
        (FunctionDefinition::Query(_), FunctionDefinition::Query(_)) => true,
        (FunctionDefinition::Expression(_), FunctionDefinition::Expression(_)) => true,
        _ => false,
    }
}

impl FunctionDefinition {
    /// Mutable references to the expressions of the definition. What is
    /// written through them is what the definition holds afterwards; its
    /// kind and arrangement do not change.
    pub fn expressions_mut(&mut self) -> (found: Vec<&mut Expression>)
        ensures
            current_values(found@) == old(self).spec_expressions(),
            final(self).spec_expressions().len() == found@.len(),
            forall|i: int|
                0 <= i < found@.len() ==> final(self).spec_expressions()[i] == *final(#[trigger] found@[i]),
            same_definition_shape(*old(self), *final(self)),
    {
        match self {
            FunctionDefinition::Array(array) => array.expressions_mut(),
            FunctionDefinition::Query(e) => one_mut(e),
            FunctionDefinition::Expression(e) => one_mut(e),
        }
    }
}

fn one_mut<'a, A>(item: &'a mut A) -> (found: Vec<&'a mut A>)
    ensures
        current_values(found@) == seq![*old(item)],
        found@.len() == 1,
        *final(item) == *final(found@[0]),
{
    let ghost value = *item;
    let mut found: Vec<&mut A> = Vec::new();
    found.push(item);
    proof {
        assert(current_values(found@) =~= seq![value]);
    }
    found
}

fn option_mut<'a, A>(item: &'a mut Option<A>) -> (found: Vec<&'a mut A>)
    ensures
        current_values(found@) == option_items(*old(item)),
        option_items(*final(item)).len() == found@.len(),
        forall|i: int|
            0 <= i < found@.len() ==> option_items(*final(item))[i] == *final(#[trigger] found@[i]),
        *final(item) is Some <==> *old(item) is Some,
{
    let mut found: Vec<&mut A> = Vec::new();
    match item {
        Some(a) => {
            let ghost value = *a;
            found.push(a);
            proof {
                assert(current_values(found@) =~= seq![value]);
            }
        },
        None => {
            proof {
                assert(current_values(found@) =~= Seq::<A>::empty());
            }
        },
    }
    found
}

fn joined_mut<'a, A>(first: Vec<&'a mut A>, second: Vec<&'a mut A>) -> (joined: Vec<&'a mut A>)
    ensures
        joined@ == first@ + second@,
        current_values(joined@) == current_values(first@) + current_values(second@),
{
    let mut joined = first;
    let mut more = second;
    joined.append(&mut more);
    proof {
        assert(current_values(joined@) =~= current_values(first@) + current_values(second@));
    }
    joined
}

/// Whether both sides have a selector or none, and as many expressions.
pub open spec fn same_selected_shape<Expr>(
    a: SelectedExpressions<Expr>,
    b: SelectedExpressions<Expr>,
) -> bool {
    &&& a.selector is Some <==> b.selector is Some
    &&& a.expressions@.len() == b.expressions@.len()
}

/// Whether two statements are the same but for their expressions: of the
/// same kind, with the same names and sources, and with expressions in the
/// same places.
pub open spec fn same_but_expressions(a: PilStatement, b: PilStatement) -> bool {
    match (a, b) {
        (PilStatement::Include(s, f), PilStatement::Include(s2, f2)) => s == s2 && f == f2,
        (PilStatement::Namespace(s, p, _), PilStatement::Namespace(s2, p2, _)) => s == s2 && p
            == p2,
        (PilStatement::LetStatement(s, n, t, v), PilStatement::LetStatement(s2, n2, t2, v2)) => {
            &&& s == s2
            &&& n == n2
            &&& v is Some <==> v2 is Some
            &&& match (t, t2) {
                (Some(x), Some(y)) => x.vars == y.vars && same_but_lengths(x.ty@, y.ty@),
                (None, None) => true,
                _ => false,
            }
        },
        (
            PilStatement::PolynomialDefinition(s, n, _),
            PilStatement::PolynomialDefinition(s2, n2, _),
        ) => s == s2 && n == n2,
        (
            PilStatement::PublicDeclaration(s, n, r, i, _),
            PilStatement::PublicDeclaration(s2, n2, r2, i2, _),
        ) => {
            &&& s == s2
            &&& n == n2
            &&& r == r2
            &&& i is Some <==> i2 is Some
        },
        (
            PilStatement::PolynomialConstantDeclaration(s, ps),
            PilStatement::PolynomialConstantDeclaration(s2, ps2),
        ) => s == s2 && ps == ps2,
        (
            PilStatement::PolynomialConstantDefinition(s, n, d),
            PilStatement::PolynomialConstantDefinition(s2, n2, d2),
        ) => s == s2 && n == n2 && same_definition_shape(d, d2),
        (
            PilStatement::PolynomialCommitDeclaration(s, ps, d),
            PilStatement::PolynomialCommitDeclaration(s2, ps2, d2),
        ) => {
            &&& s == s2
            &&& ps == ps2
            &&& match (d, d2) {
                (Some(x), Some(y)) => same_definition_shape(x, y),
                (None, None) => true,
                _ => false,
            }
        },
        (PilStatement::PlookupIdentity(s, l, r), PilStatement::PlookupIdentity(s2, l2, r2)) => {
            &&& s == s2
            &&& same_selected_shape(l, l2)
            &&& same_selected_shape(r, r2)
        },
        (
            PilStatement::PermutationIdentity(s, l, r),
            PilStatement::PermutationIdentity(s2, l2, r2),
        ) => {
            &&& s == s2
            &&& same_selected_shape(l, l2)
            &&& same_selected_shape(r, r2)
        },
        (PilStatement::ConnectIdentity(s, l, r), PilStatement::ConnectIdentity(s2, l2, r2)) => {
            &&& s == s2
            &&& l@.len() == l2@.len()
            &&& r@.len() == r2@.len()
        },
        (
            PilStatement::ConstantDefinition(s, n, _),
            PilStatement::ConstantDefinition(s2, n2, _),
        ) => s == s2 && n == n2,
        (PilStatement::Expression(s, _), PilStatement::Expression(s2, _)) => s == s2,
        _ => false,
    }
}

impl PilStatement {
    /// Mutable references to the expressions written in the statement, from
    /// left to right. What is written through them is what the statement
    /// holds afterwards; nothing else of it changes.
    pub fn expressions_mut(&mut self) -> (found: Vec<&mut Expression>)
        ensures
            current_values(found@) == old(self).spec_expressions(),
            final(self).spec_expressions().len() == found@.len(),
            forall|i: int|
                0 <= i < found@.len() ==> final(self).spec_expressions()[i] == *final(#[trigger] found@[i]),
            same_but_expressions(*old(self), *final(self)),
    {
        match self {
            PilStatement::PlookupIdentity(_, left, right) => {
                joined_mut(left.expressions_mut(), right.expressions_mut())
            },
            PilStatement::PermutationIdentity(_, left, right) => {
                joined_mut(left.expressions_mut(), right.expressions_mut())
            },
            PilStatement::ConnectIdentity(_, left, right) => {
                joined_mut(each_mut(left), each_mut(right))
            },
            PilStatement::Expression(_, e) => one_mut(e),
            PilStatement::Namespace(_, _, e) => one_mut(e),
            PilStatement::PolynomialDefinition(_, _, e) => one_mut(e),
            PilStatement::ConstantDefinition(_, _, e) => one_mut(e),
            PilStatement::LetStatement(_, _, type_scheme, value) => {
                let first = match type_scheme {
                    Some(scheme) => scheme.ty.expressions_mut(),
                    None => {
                        let none: Vec<&mut Expression> = Vec::new();
                        proof {
                            assert(current_values(none@) =~= Seq::<Expression>::empty());
                        }
                        none
                    },
                };
                joined_mut(first, option_mut(value))
            },
            PilStatement::PublicDeclaration(_, _, _, i, e) => {
                joined_mut(option_mut(i), one_mut(e))
            },
            PilStatement::PolynomialConstantDefinition(_, _, definition) => {
                definition.expressions_mut()
            },
            PilStatement::PolynomialCommitDeclaration(_, _, definition) => {
                match definition {
                    Some(d) => d.expressions_mut(),
                    None => {
                        let none: Vec<&mut Expression> = Vec::new();
                        proof {
                            assert(current_values(none@) =~= Seq::<Expression>::empty());
                        }
                        none
                    },
                }
            },
            PilStatement::Include(_, _) => {
                let none: Vec<&mut Expression> = Vec::new();
                proof {
                    assert(current_values(none@) =~= Seq::<Expression>::empty());
                }
                none
            },
            PilStatement::PolynomialConstantDeclaration(_, _) => {
                let none: Vec<&mut Expression> = Vec::new();
                proof {
                    assert(current_values(none@) =~= Seq::<Expression>::empty());
                }
                none
            },
        }
    }
}

impl From<SymbolPath> for NamespacedPolynomialReference {
    /// The reference made of the given path.
    fn from(value: SymbolPath) -> (reference: Self)
        ensures
            reference.path == value,
    {
        NamespacedPolynomialReference { path: value }
    }
}

impl vstd::std_specs::convert::FromSpecImpl<SymbolPath> for NamespacedPolynomialReference {
    open spec fn obeys_from_spec() -> bool {
        true
    }

    open spec fn from_spec(value: SymbolPath) -> NamespacedPolynomialReference {
        NamespacedPolynomialReference { path: value }
    }
}

impl From<NamespacedPolynomialReference> for Expression {
    /// The expression that is the given reference.
    fn from(value: NamespacedPolynomialReference) -> (e: Self)
        ensures
            e == Expression::Reference(value),
    {
        Expression::Reference(value)
    }
}

impl vstd::std_specs::convert::FromSpecImpl<NamespacedPolynomialReference> for Expression {
    open spec fn obeys_from_spec() -> bool {
        true
    }

    open spec fn from_spec(value: NamespacedPolynomialReference) -> Expression {
        Expression::Reference(value)
    }
}

impl From<Natural> for Expression {
    /// The literal for `value`, without a type.
    fn from(value: Natural) -> (e: Self)
        ensures
            e == Expression::<NamespacedPolynomialReference>::Number(value, None),
    {
        Expression::Number(value, None)
    }
}

impl vstd::std_specs::convert::FromSpecImpl<Natural> for Expression {
    open spec fn obeys_from_spec() -> bool {
        true
    }

    open spec fn from_spec(value: Natural) -> Expression {
        Expression::Number(value, None)
    }
}

impl From<u32> for Expression {
    /// The literal for `value`, without a type.
    fn from(value: u32) -> (e: Self)
        ensures
            ({
                &&& e matches Expression::Number(n, ty)
                &&& n.value() == value
                &&& ty is None
            }),
    {
        Expression::from_u32(value)
    }
}

impl vstd::std_specs::convert::FromSpecImpl<u32> for Expression {
    open spec fn obeys_from_spec() -> bool {
        false
    }

    open spec fn from_spec(value: u32) -> Expression {
        arbitrary()
    }
}

impl Clone for NamespacedPolynomialReference {
    fn clone(&self) -> (copy: Self)
        ensures
            copy.path.spec_parts() == self.path.spec_parts(),
            copy.path@ == self.path@,
    {
        NamespacedPolynomialReference { path: self.path.clone() }
    }
}

/// An expression and all expressions inside it: first itself, then those of
/// its parts from left to right, each with all that is inside it.
pub open spec fn subexpressions<Ref>(e: Expression<Ref>) -> Seq<Expression<Ref>>
    decreases e, 1int,
{
    seq![e] + inner_expressions(e)
}

/// The expressions inside an expression: those of its parts from left to
/// right, each with all that is inside it.
pub open spec fn inner_expressions<Ref>(e: Expression<Ref>) -> Seq<Expression<Ref>>
    decreases e, 0int,
{
    match e {
        Expression::Tuple(items) => subexpressions_of_all(items@),
        Expression::LambdaExpression(lambda) => subexpressions(*lambda.body),
        Expression::ArrayLiteral(array) => subexpressions_of_all(array.items@),
        Expression::BinaryOperation(left, _, right) => subexpressions(*left) + subexpressions(
            *right,
        ),
        Expression::UnaryOperation(_, inner) => subexpressions(*inner),
        Expression::IndexAccess(access) => subexpressions(*access.array) + subexpressions(
            *access.index,
        ),
        Expression::FunctionCall(call) => subexpressions(*call.function) + subexpressions_of_all(
            call.arguments@,
        ),
        Expression::FreeInput(inner) => subexpressions(*inner),
        Expression::MatchExpression(scrutinee, arms) => subexpressions(*scrutinee)
            + subexpressions_of_arms(arms@),
        Expression::IfExpression(branch) => subexpressions(*branch.condition) + subexpressions(
            *branch.body,
        ) + subexpressions(*branch.else_body),
        _ => Seq::empty(),
    }
}

/// The expressions of a list, each with all that is inside it.
pub open spec fn subexpressions_of_all<Ref>(items: Seq<Expression<Ref>>) -> Seq<Expression<Ref>>
    decreases items, 0int,
{
    if items.len() == 0 {
        Seq::empty()
    } else {
        subexpressions_of_all(items.drop_last()) + subexpressions(items.last())
    }
}

/// The expressions of a match arm: its pattern, where that is an
/// expression, and its value, each with all that is inside it.
pub open spec fn subexpressions_of_arm<Ref>(arm: MatchArm<Ref>) -> Seq<Expression<Ref>>
    decreases arm, 0int,
{
    (match arm.pattern {
        MatchPattern::CatchAll => Seq::empty(),
        MatchPattern::Pattern(e) => subexpressions(e),
    }) + subexpressions(arm.value)
}

/// The expressions of a list of match arms.
pub open spec fn subexpressions_of_arms<Ref>(arms: Seq<MatchArm<Ref>>) -> Seq<Expression<Ref>>
    decreases arms, 0int,
{
    if arms.len() == 0 {
        Seq::empty()
    } else {
        subexpressions_of_arms(arms.drop_last()) + subexpressions_of_arm(arms.last())
    }
}

/// Whether `f`, asked for the expressions in order, may answer `true` for
/// one of them after `false` for each one before it.
pub open spec fn accepts_some<Ref, F: Fn(&Expression<Ref>) -> bool>(
    f: F,
    expressions: Seq<Expression<Ref>>,
) -> bool {
    exists|i: int|
        0 <= i < expressions.len() && f.ensures((&#[trigger] expressions[i],), true)
            && rejects_all(f, expressions.take(i))
}

/// Whether `f` may answer `false` for each of the expressions.
pub open spec fn rejects_all<Ref, F: Fn(&Expression<Ref>) -> bool>(
    f: F,
    expressions: Seq<Expression<Ref>>,
) -> bool {
    forall|i: int| 0 <= i < expressions.len() ==> f.ensures((&#[trigger] expressions[i],), false)
}

proof fn lemma_accepts_some<Ref, F: Fn(&Expression<Ref>) -> bool>(
    f: F,
    a: Seq<Expression<Ref>>,
    b: Seq<Expression<Ref>>,
)
    ensures
        accepts_some(f, a) ==> accepts_some(f, a + b),
        rejects_all(f, a) && accepts_some(f, b) ==> accepts_some(f, a + b),
        rejects_all(f, a) && rejects_all(f, b) ==> rejects_all(f, a + b),
{
    if accepts_some(f, a) {
        let i = choose|i: int|
            0 <= i < a.len() && f.ensures((&#[trigger] a[i],), true) && rejects_all(f, a.take(i));
        assert((a + b)[i] == a[i]);
        assert((a + b).take(i) =~= a.take(i));
    }
    if rejects_all(f, a) && accepts_some(f, b) {
        let i = choose|i: int|
            0 <= i < b.len() && f.ensures((&#[trigger] b[i],), true) && rejects_all(f, b.take(i));
        assert((a + b)[a.len() + i] == b[i]);
        let front = (a + b).take(a.len() + i);
        assert forall|j: int| 0 <= j < front.len() implies f.ensures((&#[trigger] front[j],), false) by {
            if j < a.len() {
                assert(front[j] == a[j]);
            } else {
                assert(front[j] == b.take(i)[j - a.len()]);
            }
        }
    }
    if rejects_all(f, a) && rejects_all(f, b) {
        assert forall|i: int| 0 <= i < (a + b).len() implies f.ensures(
            (&#[trigger] (a + b)[i],),
            false,
        ) by {
            if i < a.len() {
                assert((a + b)[i] == a[i]);
            } else {
                assert((a + b)[i] == b[i - a.len()]);
            }
        }
    }
}

fn any_of<Ref, F: Fn(&Expression<Ref>) -> bool>(items: &Vec<Expression<Ref>>, f: &F) -> (found:
    bool)
    requires
        forall|e: Expression<Ref>| #[trigger] f.requires((&e,)),
    ensures
        found ==> accepts_some(*f, subexpressions_of_all(items@)),
        !found ==> rejects_all(*f, subexpressions_of_all(items@)),
    decreases items,
{
    let mut i: usize = 0;
    assert(items@.take(0) =~= Seq::empty());
    while i < items.len()
        invariant
            i <= items.len(),
            forall|e: Expression<Ref>| #[trigger] f.requires((&e,)),
            rejects_all(*f, subexpressions_of_all(items@.take(i as int))),
        decreases items.len() - i,
    {
        proof {
            vstd::std_specs::vec::axiom_vec_index_decreases(*items, i as int);
            assert(items@.take(i + 1).drop_last() =~= items@.take(i as int));
            lemma_accepts_some(
                *f,
                subexpressions_of_all(items@.take(i as int)),
                subexpressions(items@[i as int]),
            );
        }
        if items[i].any_with(f) {
            proof {
                lemma_any_of_prefix(*f, items@, i + 1);
            }
            return true;
        }
        i += 1;
    }
    assert(items@.take(i as int) =~= items@);
    false
}

proof fn lemma_any_of_prefix<Ref, F: Fn(&Expression<Ref>) -> bool>(
    f: F,
    items: Seq<Expression<Ref>>,
    i: int,
)
    requires
        0 <= i <= items.len(),
        accepts_some(f, subexpressions_of_all(items.take(i))),
    ensures
        accepts_some(f, subexpressions_of_all(items)),
    decreases items.len() - i,
{
    if i < items.len() {
        assert(items.take(i + 1).drop_last() =~= items.take(i));
        lemma_accepts_some(f, subexpressions_of_all(items.take(i)), subexpressions(items[i]));
        lemma_any_of_prefix(f, items, i + 1);
    } else {
        assert(items.take(i) =~= items);
    }
}

proof fn lemma_any_arm_prefix<Ref, F: Fn(&Expression<Ref>) -> bool>(
    f: F,
    arms: Seq<MatchArm<Ref>>,
    i: int,
)
    requires
        0 <= i <= arms.len(),
        accepts_some(f, subexpressions_of_arms(arms.take(i))),
    ensures
        accepts_some(f, subexpressions_of_arms(arms)),
    decreases arms.len() - i,
{
    if i < arms.len() {
        assert(arms.take(i + 1).drop_last() =~= arms.take(i));
        lemma_accepts_some(f, subexpressions_of_arms(arms.take(i)), subexpressions_of_arm(arms[i]));
        lemma_any_arm_prefix(f, arms, i + 1);
    } else {
        assert(arms.take(i) =~= arms);
    }
}

fn any_arm<Ref, F: Fn(&Expression<Ref>) -> bool>(arms: &Vec<MatchArm<Ref>>, f: &F) -> (found: bool)
    requires
        forall|e: Expression<Ref>| #[trigger] f.requires((&e,)),
    ensures
        found ==> accepts_some(*f, subexpressions_of_arms(arms@)),
        !found ==> rejects_all(*f, subexpressions_of_arms(arms@)),
    decreases arms,
{
    let mut i: usize = 0;
    assert(arms@.take(0) =~= Seq::empty());
    while i < arms.len()
        invariant
            i <= arms.len(),
            forall|e: Expression<Ref>| #[trigger] f.requires((&e,)),
            rejects_all(*f, subexpressions_of_arms(arms@.take(i as int))),
        decreases arms.len() - i,
    {
        let arm = &arms[i];
        proof {
            vstd::std_specs::vec::axiom_vec_index_decreases(*arms, i as int);
            assert(arms@.take(i + 1).drop_last() =~= arms@.take(i as int));
            lemma_accepts_some(
                *f,
                subexpressions_of_arms(arms@.take(i as int)),
                subexpressions_of_arm(*arm),
            );
            match &arm.pattern {
                MatchPattern::CatchAll => {
                    lemma_accepts_some(*f, Seq::empty(), subexpressions(arm.value));
                },
                MatchPattern::Pattern(e) => {
                    lemma_accepts_some(*f, subexpressions(*e), subexpressions(arm.value));
                },
            }
        }
        let in_pattern = match &arm.pattern {
            MatchPattern::CatchAll => false,
            MatchPattern::Pattern(e) => e.any_with(f),
        };
        if in_pattern || arm.value.any_with(f) {
            proof {
                lemma_any_arm_prefix(*f, arms@, i + 1);
            }
            return true;
        }
        i += 1;
    }
    assert(arms@.take(i as int) =~= arms@);
    false
}

impl<Ref> Expression<Ref> {
    fn any_with<F: Fn(&Self) -> bool>(&self, f: &F) -> (found: bool)
        requires
            forall|e: Expression<Ref>| #[trigger] f.requires((&e,)),
        ensures
            found ==> accepts_some(*f, subexpressions(*self)),
            !found ==> rejects_all(*f, subexpressions(*self)),
        decreases self,
    {
        let here = f(self);
        let ghost first = seq![*self];
        proof {
            assert(first[0] == *self);
            if here {
                assert(rejects_all(*f, first.take(0)));
                assert(accepts_some(*f, first));
            } else {
                assert(rejects_all(*f, first));
            }
        }
        if here {
            proof {
                lemma_accepts_some(*f, first, inner_expressions(*self));
            }
            return true;
        }
        let inside = match self {
            Expression::Tuple(items) => any_of(items, f),
            Expression::LambdaExpression(lambda) => (&*lambda.body).any_with(f),
            Expression::ArrayLiteral(array) => any_of(&array.items, f),
            Expression::BinaryOperation(left, _, right) => {
                proof {
                    lemma_accepts_some(*f, subexpressions(**left), subexpressions(**right));
                }
                (&**left).any_with(f) || (&**right).any_with(f)
            },
            Expression::UnaryOperation(_, inner) => (&**inner).any_with(f),
            Expression::IndexAccess(access) => {
                proof {
                    lemma_accepts_some(
                        *f,
                        subexpressions(*access.array),
                        subexpressions(*access.index),
                    );
                }
                (&*access.array).any_with(f) || (&*access.index).any_with(f)
            },
            Expression::FunctionCall(call) => {
                proof {
                    lemma_accepts_some(
                        *f,
                        subexpressions(*call.function),
                        subexpressions_of_all(call.arguments@),
                    );
                }
                (&*call.function).any_with(f) || any_of(&call.arguments, f)
            },
            Expression::FreeInput(inner) => (&**inner).any_with(f),
            Expression::MatchExpression(scrutinee, arms) => {
                proof {
                    lemma_accepts_some(
                        *f,
                        subexpressions(**scrutinee),
                        subexpressions_of_arms(arms@),
                    );
                }
                (&**scrutinee).any_with(f) || any_arm(arms, f)
            },
            Expression::IfExpression(branch) => {
                proof {
                    lemma_accepts_some(
                        *f,
                        subexpressions(*branch.condition),
                        subexpressions(*branch.body),
                    );
                    lemma_accepts_some(
                        *f,
                        subexpressions(*branch.condition) + subexpressions(*branch.body),
                        subexpressions(*branch.else_body),
                    );
                }
                (&*branch.condition).any_with(f) || (&*branch.body).any_with(f) || (
                &*branch.else_body).any_with(f)
            },
            _ => {
                proof {
                    assert(rejects_all(*f, Seq::<Expression<Ref>>::empty()));
                }
                false
            },
        };
        proof {
            lemma_accepts_some(*f, first, inner_expressions(*self));
        }
        inside
    }

    /// Whether `f` answers `true` for the expression or for one of the
    /// expressions inside it. The expressions are asked in order, the
    /// expression itself first, until one is accepted.
    pub fn any<F: Fn(&Self) -> bool>(&self, f: F) -> (found: bool)
        requires
            forall|e: Expression<Ref>| #[trigger] f.requires((&e,)),
        ensures
            found ==> accepts_some(f, subexpressions(*self)),
            !found ==> rejects_all(f, subexpressions(*self)),
    {
        self.any_with(&f)
    }
}

} // verus!
