//! The analyzed program: symbols, identities over algebraic expressions, and
//! the result of the whole analysis.

use crate::parsed::{self, ArrayExpression, SelectedExpressions};
use crate::source::SourceRef;
use vstd::prelude::*;

verus! {

/// What kind of column a polynomial is.
#[derive(Debug, PartialEq, Eq, PartialOrd, Ord, Clone, Copy, Hash)]
pub enum PolynomialType {
    /// A witness column: its values come from the execution.
    Committed,
    /// A fixed column: its values are known beforehand.
    Constant,
    /// A column defined by an expression over other columns.
    Intermediate,
}

/// The resolved id of a column: its number among the columns of its kind.
#[derive(Debug, PartialEq, Eq, PartialOrd, Ord, Clone, Copy, Hash)]
pub struct PolyID {
    pub id: u64,
    pub ptype: PolynomialType,
}

#[derive(Debug, PartialEq, Eq, PartialOrd, Ord, Clone, Copy, Hash)]
pub enum SymbolKind {
    /// A column.
    Poly(PolynomialType),
    /// A constant.
    Constant(),
    /// Anything else: a function, a value.
    Other(),
}

/// A symbol of the program.
#[derive(Debug, PartialEq, Eq)]
pub struct Symbol {
    pub id: u64,
    pub source: SourceRef,
    pub absolute_name: String,
    pub stage: Option<u32>,
    pub kind: SymbolKind,
    /// The number of elements, where the symbol is an array of columns.
    pub length: Option<u64>,
}

impl Symbol {
    /// The resolved id of the column, where the symbol is a column.
    pub open spec fn spec_poly_id(self) -> Option<PolyID> {
        match self.kind {
            SymbolKind::Poly(ptype) => Some(PolyID { id: self.id, ptype }),
            _ => None,
        }
    }

    /// The resolved id of the column, where the symbol is a column.
    pub fn poly_id(&self) -> (id: Option<PolyID>)
        ensures
            id == self.spec_poly_id(),
    {
        match self.kind {
            SymbolKind::Poly(ptype) => Some(PolyID { id: self.id, ptype }),
            _ => None,
        }
    }

    /// Whether the symbol is an intermediate column.
    pub open spec fn spec_is_intermediate(self) -> bool {
        self.kind == SymbolKind::Poly(PolynomialType::Intermediate)
    }

    /// Whether the symbol is an intermediate column.
    pub fn is_intermediate(&self) -> (intermediate: bool)
        ensures
            intermediate == self.spec_is_intermediate(),
    {
        match self.kind {
            SymbolKind::Poly(PolynomialType::Intermediate) => true,
            _ => false,
        }
    }

}

impl Clone for Symbol {
    fn clone(&self) -> (copy: Self)
        ensures
            copy == *self,
    {
        Symbol {
            id: self.id,
            source: self.source.clone(),
            absolute_name: self.absolute_name.clone(),
            stage: self.stage,
            kind: self.kind,
            length: self.length,
        }
    }
}

/// A reference to a column by name, with its resolved id once that is known.
#[derive(Debug, PartialEq, Eq, PartialOrd, Ord)]
pub struct PolynomialReference {
    pub name: String,
    pub poly_id: Option<PolyID>,
}

impl Clone for PolynomialReference {
    fn clone(&self) -> (copy: Self)
        ensures
            copy == *self,
    {
        PolynomialReference { name: self.name.clone(), poly_id: self.poly_id }
    }
}

/// What an expression of the analyzed program refers to.
#[derive(Debug, PartialEq, Eq, PartialOrd, Ord)]
pub enum Reference {
    LocalVar(u64, String),
    Poly(PolynomialReference),
}

impl Clone for Reference {
    fn clone(&self) -> (copy: Self)
        ensures
            copy == *self,
    {
        match self {
            Reference::LocalVar(id, name) => Reference::LocalVar(*id, name.clone()),
            Reference::Poly(reference) => Reference::Poly(reference.clone()),
        }
    }
}

/// An expression of the analyzed program.
pub type Expression = parsed::Expression<Reference>;

/// An expression of the analyzed program with its type scheme, whose array
/// lengths are resolved.
pub type TypedExpression = parsed::TypedExpression<Reference, u64>;

/// The body of a symbol before condensation.
#[derive(Debug, PartialEq, Eq, Clone)]
pub enum FunctionValueDefinition {
    Array(ArrayExpression),
    Query(Expression),
    Expression(TypedExpression),
}

/// A value made public: the cell of a column at a row.
#[derive(Debug, PartialEq, Eq, Clone)]
pub struct PublicDeclaration {
    pub id: u64,
    pub source: SourceRef,
    pub name: String,
    pub polynomial: PolynomialReference,
    pub array_index: Option<usize>,
    /// The row.
    pub index: u64,
}

#[derive(Debug, PartialEq, Eq, PartialOrd, Ord, Clone, Copy, Hash)]
pub enum IdentityKind {
    Polynomial,
    Lookup,
    Permutation,
    Connect,
}

/// An identity. A polynomial identity holds its one expression as the
/// selector of its left side; a connect identity has no selectors.
#[derive(Debug, PartialEq, Eq, Clone)]
pub struct Identity<Expr> {
    pub id: u64,
    pub kind: IdentityKind,
    pub source: SourceRef,
    pub left: SelectedExpressions<Expr>,
    pub right: SelectedExpressions<Expr>,
}

/// The mathematical value of a [`SelectedExpressions`].
pub struct SelectedView<Expr> {
    pub selector: Option<Expr>,
    pub expressions: Seq<Expr>,
}

/// The mathematical value of an [`Identity`].
pub struct IdentityView<Expr> {
    pub id: u64,
    pub kind: IdentityKind,
    pub source: SourceRef,
    pub left: SelectedView<Expr>,
    pub right: SelectedView<Expr>,
}

/// The value of one side of an identity.
pub open spec fn selected_view<Expr>(side: SelectedExpressions<Expr>) -> SelectedView<Expr> {
    SelectedView { selector: side.selector, expressions: side.expressions@ }
}

impl<Expr> View for Identity<Expr> {
    type V = IdentityView<Expr>;

    open spec fn view(&self) -> IdentityView<Expr> {
        IdentityView {
            id: self.id,
            kind: self.kind,
            source: self.source,
            left: selected_view(self.left),
            right: selected_view(self.right),
        }
    }
}

/// The values of a list of identities.
pub open spec fn identity_views<Expr>(identities: Seq<Identity<Expr>>) -> Seq<IdentityView<Expr>> {
    identities.map_values(|i: Identity<Expr>| i@)
}

/// The polynomial identity that says that `expression` is zero.
pub open spec fn polynomial_identity<Expr>(
    id: u64,
    source: SourceRef,
    expression: Expr,
) -> IdentityView<Expr> {
    IdentityView {
        id,
        kind: IdentityKind::Polynomial,
        source,
        left: SelectedView { selector: Some(expression), expressions: Seq::empty() },
        right: SelectedView { selector: None, expressions: Seq::empty() },
    }
}

impl<Expr> Identity<Expr> {
    /// The polynomial identity that says that `identity` is zero.
    pub fn from_polynomial_identity(id: u64, source: SourceRef, identity: Expr) -> (made: Self)
        ensures
            made@ == polynomial_identity(id, source, identity),
    {
        Identity {
            id,
            kind: IdentityKind::Polynomial,
            source,
            left: SelectedExpressions { selector: Some(identity), expressions: Vec::new() },
            right: SelectedExpressions { selector: None, expressions: Vec::new() },
        }
    }

    /// The expression of a polynomial identity, where the identity is one
    /// and holds it.
    pub fn expression_for_poly_id(&self) -> (expression: Option<&Expr>)
        ensures
            expression == match (self.kind, self.left.selector) {
                (IdentityKind::Polynomial, Some(e)) => Some(&e),
                _ => None,
            },
    {
        match self.kind {
            IdentityKind::Polynomial => match &self.left.selector {
                Some(e) => Some(e),
                None => None,
            },
            _ => None,
        }
    }
}

/// An entry of the order in which the statements were written.
#[derive(Debug, PartialEq, Eq, PartialOrd, Ord)]
pub enum StatementIdentifier {
    /// The definition of the symbol of this name.
    Definition(String),
    /// The public declaration of this name.
    PublicDeclaration(String),
    /// The identity at this position in the list of identities.
    Identity(usize),
}

impl Clone for StatementIdentifier {
    fn clone(&self) -> (copy: Self)
        ensures
            copy == *self,
    {
        match self {
            StatementIdentifier::Definition(name) => StatementIdentifier::Definition(name.clone()),
            StatementIdentifier::PublicDeclaration(name) => StatementIdentifier::PublicDeclaration(
                name.clone(),
            ),
            StatementIdentifier::Identity(index) => StatementIdentifier::Identity(*index),
        }
    }
}

/// A reference to a column in an algebraic expression.
#[derive(Debug, PartialEq, Eq, PartialOrd, Ord)]
pub struct AlgebraicReference {
    pub name: String,
    pub poly_id: PolyID,
    /// Whether the next row is meant.
    pub next: bool,
}

impl Clone for AlgebraicReference {
    fn clone(&self) -> (copy: Self)
        ensures
            copy == *self,
    {
        AlgebraicReference { name: self.name.clone(), poly_id: self.poly_id, next: self.next }
    }
}

#[derive(Debug, PartialEq, Eq, PartialOrd, Ord, Clone, Copy, Hash)]
pub enum AlgebraicBinaryOperator {
    Add,
    Sub,
    Mul,
    Pow,
}

#[derive(Debug, PartialEq, Eq, PartialOrd, Ord, Clone, Copy, Hash)]
pub enum AlgebraicUnaryOperator {
    Minus,
}

/// An expression over columns and field elements. `T` is the field.
#[derive(Debug, PartialEq, Eq, PartialOrd, Ord)]
pub enum AlgebraicExpression<T> {
    Reference(AlgebraicReference),
    PublicReference(String),
    Number(T),
    BinaryOperation(Box<AlgebraicExpression<T>>, AlgebraicBinaryOperator, Box<AlgebraicExpression<T>>),
    UnaryOperation(AlgebraicUnaryOperator, Box<AlgebraicExpression<T>>),
}

/// The difference `left - right`.
pub open spec fn difference<T>(
    left: AlgebraicExpression<T>,
    right: AlgebraicExpression<T>,
) -> AlgebraicExpression<T> {
    AlgebraicExpression::BinaryOperation(
        Box::new(left),
        AlgebraicBinaryOperator::Sub,
        Box::new(right),
    )
}

impl<T> AlgebraicExpression<T> {
    /// The binary operation `left op right`.
    pub fn new_binary(left: Self, op: AlgebraicBinaryOperator, right: Self) -> (e: Self)
        ensures
            e == AlgebraicExpression::BinaryOperation(Box::new(left), op, Box::new(right)),
    {
        AlgebraicExpression::BinaryOperation(Box::new(left), op, Box::new(right))
    }

    /// The difference `self - rhs`.
    pub fn sub(self, rhs: Self) -> (e: Self)
        ensures
            e == difference(self, rhs),
    {
        Self::new_binary(self, AlgebraicBinaryOperator::Sub, rhs)
    }
}

impl<T: Copy> AlgebraicExpression<T> {
    fn duplicate(&self) -> (copy: Self)
        ensures
            copy == *self,
        decreases self,
    {
        match self {
            AlgebraicExpression::Reference(r) => AlgebraicExpression::Reference(r.clone()),
            AlgebraicExpression::PublicReference(name) => AlgebraicExpression::PublicReference(
                name.clone(),
            ),
            AlgebraicExpression::Number(n) => AlgebraicExpression::Number(*n),
            AlgebraicExpression::BinaryOperation(left, op, right) => {
                AlgebraicExpression::BinaryOperation(
                    Box::new((&**left).duplicate()),
                    *op,
                    Box::new((&**right).duplicate()),
                )
            },
            AlgebraicExpression::UnaryOperation(op, e) => AlgebraicExpression::UnaryOperation(
                *op,
                Box::new((&**e).duplicate()),
            ),
        }
    }
}

impl<T: Copy> Clone for AlgebraicExpression<T> {
    fn clone(&self) -> (copy: Self)
        ensures
            copy == *self,
    {
        self.duplicate()
    }
}

/// The result of the analysis.
#[derive(Debug, PartialEq, Eq)]
pub struct Analyzed<T> {
    /// The number of rows, where it is known.
    pub degree: Option<u64>,
    /// The symbols that are not intermediate columns, each with its body.
    pub definitions: Vec<(String, (Symbol, Option<FunctionValueDefinition>))>,
    /// The public declarations, each with the resolved id of its column.
    pub public_declarations: Vec<(String, PublicDeclaration)>,
    /// The intermediate columns, each with one expression for each element.
    pub intermediate_columns: Vec<(String, (Symbol, Vec<AlgebraicExpression<T>>))>,
    /// The identities, numbered in order.
    pub identities: Vec<Identity<AlgebraicExpression<T>>>,
    /// The order in which the statements were written.
    pub source_order: Vec<StatementIdentifier>,
}

/// The mathematical value of an [`Analyzed`].
pub struct AnalyzedView<T> {
    pub degree: Option<u64>,
    pub definitions: Seq<(String, (Symbol, Option<FunctionValueDefinition>))>,
    pub public_declarations: Seq<(String, PublicDeclaration)>,
    pub intermediate_columns: Seq<(String, (Symbol, Seq<AlgebraicExpression<T>>))>,
    pub identities: Seq<IdentityView<AlgebraicExpression<T>>>,
    pub source_order: Seq<StatementIdentifier>,
}

/// The values of a list of intermediate columns.
pub open spec fn column_views<T>(
    columns: Seq<(String, (Symbol, Vec<AlgebraicExpression<T>>))>,
) -> Seq<(String, (Symbol, Seq<AlgebraicExpression<T>>))> {
    columns.map_values(
        |c: (String, (Symbol, Vec<AlgebraicExpression<T>>))| (c.0, (c.1.0, c.1.1@)),
    )
}

/// The names of the entries of a table, in order.
pub open spec fn table_names<V>(table: Seq<(String, V)>) -> Seq<Seq<char>> {
    table.map_values(|entry: (String, V)| entry.0@)
}

/// Whether each name stands for one thing: no name occurs twice among the
/// definitions, among the intermediate columns or among the public
/// declarations, and no intermediate column has the name of a definition.
pub open spec fn names_occur_once<T>(analyzed: AnalyzedView<T>) -> bool {
    &&& table_names(analyzed.definitions).no_duplicates()
    &&& table_names(analyzed.intermediate_columns).no_duplicates()
    &&& table_names(analyzed.public_declarations).no_duplicates()
    &&& forall|i: int, j: int|
        0 <= i < analyzed.definitions.len() && 0 <= j < analyzed.intermediate_columns.len()
            ==> (#[trigger] analyzed.definitions[i]).0@
            != (#[trigger] analyzed.intermediate_columns[j]).0@
}

impl<T> View for Analyzed<T> {
    type V = AnalyzedView<T>;

    open spec fn view(&self) -> AnalyzedView<T> {
        AnalyzedView {
            degree: self.degree,
            definitions: self.definitions@,
            public_declarations: self.public_declarations@,
            intermediate_columns: column_views(self.intermediate_columns@),
            identities: identity_views(self.identities@),
            source_order: self.source_order@,
        }
    }
}

} // verus!
