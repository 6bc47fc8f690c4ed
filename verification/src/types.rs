//! Structural types with type variables, substitution, and type schemes whose
//! variables carry trait bounds.

use crate::parsed::Expression;
use crate::sequence::{current_values, each_mut};
use itertools::Itertools;
use std::collections::BTreeSet;
use vstd::prelude::*;

verus! {

/// A type. `E` is what an array length is written in: an expression before
/// the lengths are resolved, an unsigned integer after.
#[derive(Debug, PartialEq, Eq, PartialOrd, Ord)]
pub enum Type<E = u64> {
    /// The bottom type `!`, which has no value and fits everywhere.
    Bottom,
    /// Boolean.
    Bool,
    /// Integer of arbitrary precision.
    Int,
    /// Field element.
    Fe,
    /// String.
    String,
    /// Column.
    Col,
    /// Algebraic expression.
    Expr,
    /// Polynomial identity.
    Constr,
    Array(ArrayType<E>),
    Tuple(TupleType<E>),
    Function(FunctionType<E>),
    TypeVar(std::string::String),
}

#[derive(Debug, PartialEq, Eq, PartialOrd, Ord)]
pub struct ArrayType<E = u64> {
    pub base: Box<Type<E>>,
    pub length: Option<E>,
}

#[derive(Debug, PartialEq, Eq, PartialOrd, Ord)]
pub struct TupleType<E = u64> {
    pub items: Vec<Type<E>>,
}

#[derive(Debug, PartialEq, Eq, PartialOrd, Ord)]
pub struct FunctionType<E = u64> {
    pub params: Vec<Type<E>>,
    pub value: Box<Type<E>>,
}

/// The mathematical value of a [`Type`]: names are character sequences, lists
/// are sequences.
pub enum TypeView<E> {
    Bottom,
    Bool,
    Int,
    Fe,
    String,
    Col,
    Expr,
    Constr,
    Array(Box<TypeView<E>>, Option<E>),
    Tuple(Seq<TypeView<E>>),
    Function(Seq<TypeView<E>>, Box<TypeView<E>>),
    TypeVar(Seq<char>),
}

impl<E> Type<E> {
    /// The value of the type; `@` is short for it.
    pub open spec fn model(self) -> TypeView<E>
        decreases self,
    {
        match self {
            Type::Bottom => TypeView::Bottom,
            Type::Bool => TypeView::Bool,
            Type::Int => TypeView::Int,
            Type::Fe => TypeView::Fe,
            Type::String => TypeView::String,
            Type::Col => TypeView::Col,
            Type::Expr => TypeView::Expr,
            Type::Constr => TypeView::Constr,
            Type::Array(a) => TypeView::Array(Box::new((*a.base).model()), a.length),
            Type::Tuple(t) => TypeView::Tuple(
                Seq::new(
                    t.items@.len(),
                    |i: int|
                        if 0 <= i < t.items@.len() {
                            t.items@[i].model()
                        } else {
                            TypeView::Bottom
                        },
                ),
            ),
            Type::Function(f) => TypeView::Function(
                Seq::new(
                    f.params@.len(),
                    |i: int|
                        if 0 <= i < f.params@.len() {
                            f.params@[i].model()
                        } else {
                            TypeView::Bottom
                        },
                ),
                Box::new((*f.value).model()),
            ),
            Type::TypeVar(name) => TypeView::TypeVar(name@),
        }
    }
}

impl<E> View for Type<E> {
    type V = TypeView<E>;

    open spec fn view(&self) -> TypeView<E> {
        self.model()
    }
}

impl<E> View for ArrayType<E> {
    type V = TypeView<E>;

    open spec fn view(&self) -> TypeView<E> {
        TypeView::Array(Box::new((*self.base)@), self.length)
    }
}

impl<E> View for TupleType<E> {
    type V = TypeView<E>;

    open spec fn view(&self) -> TypeView<E> {
        TypeView::Tuple(models_of(self.items@))
    }
}

impl<E> View for FunctionType<E> {
    type V = TypeView<E>;

    open spec fn view(&self) -> TypeView<E> {
        TypeView::Function(models_of(self.params@), Box::new((*self.value)@))
    }
}

/// The values of a list of types.
pub open spec fn models_of<E>(items: Seq<Type<E>>) -> Seq<TypeView<E>> {
    Seq::new(items.len(), |i: int| items[i]@)
}

/// The value of a tuple type is made of the values of its items, and the like
/// for a function type.
pub proof fn lemma_models<E>(ty: Type<E>)
    ensures
        ty matches Type::Array(a) ==> ty@ == a@,
        ty matches Type::Tuple(t) ==> ty@ == t@,
        ty matches Type::Function(f) ==> ty@ == f@,
{
    match ty {
        Type::Tuple(t) => {
            assert(ty@->Tuple_0 =~= models_of(t.items@));
        },
        Type::Function(f) => {
            assert(ty@->Function_0 =~= models_of(f.params@));
        },
        _ => {},
    }
}

/// Whether the type is one of the eight that have no parts. A type variable is not.
pub open spec fn elementary<E>(ty: TypeView<E>) -> bool {
    match ty {
        TypeView::Array(_, _) | TypeView::Tuple(_) | TypeView::Function(_, _) | TypeView::TypeVar(
            _,
        ) => false,
        _ => true,
    }
}

/// The type variables that occur in a type, in the order in which they are
/// written, each as often as it occurs: of an array, those of its base; of a
/// tuple, those of its items from left to right; of a function, those of its
/// parameters from left to right and then those of its result.
pub open spec fn type_vars<E>(ty: TypeView<E>) -> Seq<Seq<char>>
    decreases ty,
{
    match ty {
        TypeView::TypeVar(name) => seq![name],
        TypeView::Array(base, _) => type_vars(*base),
        TypeView::Tuple(items) => type_vars_of_all(items),
        TypeView::Function(params, value) => type_vars_of_all(params) + type_vars(*value),
        _ => Seq::empty(),
    }
}

/// The type variables of each type in a list, one list after the other.
pub open spec fn type_vars_of_all<E>(items: Seq<TypeView<E>>) -> Seq<Seq<char>>
    decreases items,
{
    if items.len() == 0 {
        Seq::empty()
    } else {
        type_vars_of_all(items.drop_last()) + type_vars(items.last())
    }
}

/// The array lengths written in a type, in the order in which they are
/// written: of an array, those of its base and then its own.
pub open spec fn lengths<E>(ty: TypeView<E>) -> Seq<E>
    decreases ty,
{
    match ty {
        TypeView::Array(base, length) => lengths(*base) + match length {
            Some(l) => seq![l],
            None => Seq::empty(),
        },
        TypeView::Tuple(items) => lengths_of_all(items),
        TypeView::Function(params, value) => lengths_of_all(params) + lengths(*value),
        _ => Seq::empty(),
    }
}

/// The array lengths of each type in a list, one list after the other.
pub open spec fn lengths_of_all<E>(items: Seq<TypeView<E>>) -> Seq<E>
    decreases items,
{
    if items.len() == 0 {
        Seq::empty()
    } else {
        lengths_of_all(items.drop_last()) + lengths(items.last())
    }
}

/// The names of a list without repetitions: each name where it first occurs.
pub open spec fn first_occurrences(names: Seq<Seq<char>>) -> Seq<Seq<char>>
    decreases names.len(),
{
    if names.len() == 0 {
        Seq::empty()
    } else {
        let before = first_occurrences(names.drop_last());
        if names.drop_last().contains(names.last()) {
            before
        } else {
            before.push(names.last())
        }
    }
}

/// The texts that a list of borrowed strings holds.
pub open spec fn texts_of_refs(names: Seq<&std::string::String>) -> Seq<Seq<char>> {
    names.map_values(|s: &std::string::String| s@)
}

/// The values that a list of references points to.
pub open spec fn values_of_refs<E>(items: Seq<&E>) -> Seq<E> {
    items.map_values(|e: &E| *e)
}

/// `Itertools::unique`, collected: the items without repetitions, each where it
/// first occurs; two strings are the same item where their texts are equal.
#[verifier::external_body]
fn unique_names<'a>(names: Vec<&'a std::string::String>) -> (unique: Vec<&'a std::string::String>)
    ensures
        texts_of_refs(unique@) == first_occurrences(texts_of_refs(names@)),
{
    names.into_iter().unique().collect()
}

proof fn lemma_tuple_step<E>(items: Seq<Type<E>>, i: int)
    requires
        0 <= i < items.len(),
    ensures
        models_of(items).take(i + 1).drop_last() == models_of(items).take(i),
        models_of(items).take(i + 1).last() == items[i]@,
        models_of(items).take(items.len() as int) == models_of(items),
{
    assert(models_of(items).take(i + 1).drop_last() =~= models_of(items).take(i));
    assert(models_of(items).take(items.len() as int) =~= models_of(items));
}

impl<E> Type<E> {
    /// Whether the type has no parts. A type variable is not elementary.
    pub fn is_elementary(&self) -> (elementary: bool)
        ensures
            elementary == self::elementary(self@),
    {
        match self {
            Type::Bottom
            | Type::Bool
            | Type::Int
            | Type::Fe
            | Type::String
            | Type::Col
            | Type::Expr
            | Type::Constr => true,
            Type::Array(_) | Type::Tuple(_) | Type::Function(_) | Type::TypeVar(_) => false,
        }
    }

    /// Whether the type is written in parentheses inside a larger type: only a
    /// function type is.
    pub fn needs_parentheses(&self) -> (needed: bool)
        ensures
            needed == (self@ is Function),
    {
        match self {
            Type::Function(_) => true,
            _ => false,
        }
    }

    /// The array lengths written in the type, in the order in which they are written.
    pub fn expressions(&self) -> (found: Vec<&E>)
        ensures
            values_of_refs(found@) == lengths(self@),
        decreases self,
    {
        match self {
            Type::Array(a) => {
                proof {
                    lemma_models(*self);
                }
                a.expressions()
            },
            Type::Tuple(t) => {
                proof {
                    lemma_models(*self);
                }
                t.expressions()
            },
            Type::Function(f) => {
                proof {
                    lemma_models(*self);
                }
                f.expressions()
            },
            _ => {
                let found: Vec<&E> = Vec::new();
                assert(values_of_refs(found@) =~= lengths(self@));
                found
            },
        }
    }

    /// The type variables that occur in the type, in the order in which they
    /// are written, each as often as it occurs.
    pub fn contained_type_vars_with_repetitions(&self) -> (names: Vec<&std::string::String>)
        ensures
            texts_of_refs(names@) == type_vars(self@),
        decreases self,
    {
        match self {
            Type::TypeVar(name) => {
                let mut names: Vec<&std::string::String> = Vec::new();
                names.push(name);
                assert(texts_of_refs(names@) =~= type_vars(self@));
                names
            },
            Type::Array(a) => (&*a.base).contained_type_vars_with_repetitions(),
            Type::Tuple(t) => {
                proof {
                    lemma_models(*self);
                }
                let names = type_vars_in(&t.items);
                names
            },
            Type::Function(f) => {
                proof {
                    lemma_models(*self);
                }
                let mut names = type_vars_in(&f.params);
                let mut more = (&*f.value).contained_type_vars_with_repetitions();
                proof {
                    assert(texts_of_refs(names@ + more@) =~= texts_of_refs(names@) + texts_of_refs(
                        more@,
                    ));
                }
                names.append(&mut more);
                names
            },
            _ => {
                let names: Vec<&std::string::String> = Vec::new();
                assert(texts_of_refs(names@) =~= type_vars(self@));
                names
            },
        }
    }

    /// Whether no type variable occurs in the type.
    pub fn is_concrete_type(&self) -> (concrete: bool)
        ensures
            concrete == (type_vars(self@).len() == 0),
    {
        let names = self.contained_type_vars_with_repetitions();
        assert(texts_of_refs(names@).len() == names@.len());
        names.len() == 0
    }

    /// Whether the type variable `name` occurs in the type.
    pub fn contains_type_var(&self, name: &str) -> (found: bool)
        ensures
            found == type_vars(self@).contains(name@),
    {
        let names = self.contained_type_vars_with_repetitions();
        let wanted = name.to_owned();
        let mut i: usize = 0;
        while i < names.len()
            invariant
                i <= names.len(),
                wanted@ == name@,
                texts_of_refs(names@) == type_vars(self@),
                forall|k: int| 0 <= k < i ==> type_vars(self@)[k] != name@,
            decreases names.len() - i,
        {
            proof {
                assert(texts_of_refs(names@)[i as int] == names@[i as int]@);
            }
            if *names[i] == wanted {
                return true;
            }
            i += 1;
        }
        assert(texts_of_refs(names@).len() == names@.len());
        false
    }

    /// The type variables that occur in the type, each once, in the order in
    /// which they first occur.
    pub fn contained_type_vars(&self) -> (names: Vec<&std::string::String>)
        ensures
            texts_of_refs(names@) == first_occurrences(type_vars(self@)),
    {
        unique_names(self.contained_type_vars_with_repetitions())
    }
}

fn type_vars_in<'a, E>(items: &'a Vec<Type<E>>) -> (names: Vec<&'a std::string::String>)
    ensures
        texts_of_refs(names@) == type_vars_of_all(models_of(items@)),
    decreases items,
{
    let mut names: Vec<&std::string::String> = Vec::new();
    let mut i: usize = 0;
    assert(texts_of_refs(names@) =~= type_vars_of_all(models_of(items@).take(0)));
    while i < items.len()
        invariant
            i <= items.len(),
            texts_of_refs(names@) == type_vars_of_all(models_of(items@).take(i as int)),
        decreases items.len() - i,
    {
        proof {
            vstd::std_specs::vec::axiom_vec_index_decreases(*items, i as int);
        }
        let mut more = items[i].contained_type_vars_with_repetitions();
        proof {
            lemma_tuple_step(items@, i as int);
            assert(texts_of_refs(names@ + more@) =~= texts_of_refs(names@) + texts_of_refs(more@));
        }
        names.append(&mut more);
        i += 1;
    }
    proof {
        assert(models_of(items@).take(items@.len() as int) =~= models_of(items@));
    }
    names
}

fn lengths_in<'a, E>(items: &'a Vec<Type<E>>) -> (found: Vec<&'a E>)
    ensures
        values_of_refs(found@) == lengths_of_all(models_of(items@)),
    decreases items,
{
    let mut found: Vec<&E> = Vec::new();
    let mut i: usize = 0;
    assert(values_of_refs(found@) =~= lengths_of_all(models_of(items@).take(0)));
    while i < items.len()
        invariant
            i <= items.len(),
            values_of_refs(found@) == lengths_of_all(models_of(items@).take(i as int)),
        decreases items.len() - i,
    {
        proof {
            vstd::std_specs::vec::axiom_vec_index_decreases(*items, i as int);
        }
        let mut more = items[i].expressions();
        proof {
            lemma_tuple_step(items@, i as int);
            assert(values_of_refs(found@ + more@) =~= values_of_refs(found@) + values_of_refs(
                more@,
            ));
        }
        found.append(&mut more);
        i += 1;
    }
    proof {
        assert(models_of(items@).take(items@.len() as int) =~= models_of(items@));
    }
    found
}

impl<E> ArrayType<E> {
    /// The array lengths written in the type: those of the base, then its own.
    pub fn expressions(&self) -> (found: Vec<&E>)
        ensures
            values_of_refs(found@) == lengths(self@),
        decreases self,
    {
        let mut found = (&*self.base).expressions();
        match &self.length {
            Some(length) => {
                proof {
                    assert(values_of_refs(found@.push(length)) =~= values_of_refs(found@) + seq![
                        *length,
                    ]);
                }
                found.push(length);
            },
            None => {
                assert(values_of_refs(found@) =~= values_of_refs(found@) + Seq::<E>::empty());
            },
        }
        found
    }
}

impl<E> TupleType<E> {
    /// The array lengths written in the items, from left to right.
    pub fn expressions(&self) -> (found: Vec<&E>)
        ensures
            values_of_refs(found@) == lengths(self@),
        decreases self,
    {
        lengths_in(&self.items)
    }
}

impl<E> FunctionType<E> {
    /// The array lengths written in the parameters, from left to right, and
    /// then those written in the result.
    pub fn expressions(&self) -> (found: Vec<&E>)
        ensures
            values_of_refs(found@) == lengths(self@),
        decreases self,
    {
        let mut found = lengths_in(&self.params);
        let mut more = (&*self.value).expressions();
        proof {
            assert(values_of_refs(found@ + more@) =~= values_of_refs(found@) + values_of_refs(
                more@,
            ));
        }
        found.append(&mut more);
        found
    }
}

/// Whether `copy` is what cloning `given` may give: the same type with the
/// same names, each array length a clone of the length in its place.
pub open spec fn copies<E: Clone>(given: TypeView<E>, copy: TypeView<E>) -> bool
    decreases given,
{
    match (given, copy) {
        (TypeView::Array(base, length), TypeView::Array(copied_base, copied_length)) => {
            &&& copies(*base, *copied_base)
            &&& match (length, copied_length) {
                (Some(x), Some(y)) => cloned(x, y),
                (None, None) => true,
                _ => false,
            }
        },
        (TypeView::Tuple(items), TypeView::Tuple(copied)) => copies_each(items, copied),
        (TypeView::Function(params, value), TypeView::Function(copied_params, copied_value)) => {
            &&& copies_each(params, copied_params)
            &&& copies(*value, *copied_value)
        },
        (TypeView::TypeVar(name), TypeView::TypeVar(copied)) => name == copied,
        (TypeView::Array(_, _), _) | (TypeView::Tuple(_), _) | (TypeView::Function(_, _), _) | (
            TypeView::TypeVar(_),
            _,
        ) => false,
        _ => given == copy,
    }
}

/// Whether each type of `copied` is a copy of the type in its place in `items`.
pub open spec fn copies_each<E: Clone>(items: Seq<TypeView<E>>, copied: Seq<TypeView<E>>) -> bool
    decreases items,
{
    &&& items.len() == copied.len()
    &&& forall|i: int| 0 <= i < items.len() ==> copies(#[trigger] items[i], copied[i])
}

/// The type that a substitution list gives for a name: that of the first entry
/// with that name.
pub open spec fn substitution_for<E>(
    substitutions: Seq<(Seq<char>, TypeView<E>)>,
    name: Seq<char>,
) -> Option<TypeView<E>>
    decreases substitutions.len(),
{
    if substitutions.len() == 0 {
        None
    } else if substitutions[0].0 == name {
        Some(substitutions[0].1)
    } else {
        substitution_for(substitutions.drop_first(), name)
    }
}

/// The type with each type variable replaced by what the substitution list
/// gives for it, in one pass: what is put in is not searched again.
pub open spec fn substituted<E>(
    ty: TypeView<E>,
    substitutions: Seq<(Seq<char>, TypeView<E>)>,
) -> TypeView<E>
    decreases ty,
{
    match ty {
        TypeView::TypeVar(name) => match substitution_for(substitutions, name) {
            Some(replacement) => replacement,
            None => ty,
        },
        TypeView::Array(base, length) => TypeView::Array(
            Box::new(substituted(*base, substitutions)),
            length,
        ),
        TypeView::Tuple(items) => TypeView::Tuple(
            Seq::new(
                items.len(),
                |i: int|
                    if 0 <= i < items.len() {
                        substituted(items[i], substitutions)
                    } else {
                        TypeView::Bottom
                    },
            ),
        ),
        TypeView::Function(params, value) => TypeView::Function(
            Seq::new(
                params.len(),
                |i: int|
                    if 0 <= i < params.len() {
                        substituted(params[i], substitutions)
                    } else {
                        TypeView::Bottom
                    },
            ),
            Box::new(substituted(*value, substitutions)),
        ),
        _ => ty,
    }
}

/// Whether `result` is `ty` after the substitution: what is not replaced is
/// unchanged, and what stands for a replaced variable is a copy of the
/// replacement.
pub open spec fn substitutes<E: Clone>(
    ty: TypeView<E>,
    substitutions: Seq<(Seq<char>, TypeView<E>)>,
    result: TypeView<E>,
) -> bool
    decreases ty,
{
    match ty {
        TypeView::TypeVar(name) => match substitution_for(substitutions, name) {
            Some(replacement) => copies(replacement, result),
            None => result == ty,
        },
        TypeView::Array(base, length) => {
            &&& result matches TypeView::Array(new_base, new_length)
            &&& new_length == length
            &&& substitutes(*base, substitutions, *new_base)
        },
        TypeView::Tuple(items) => {
            &&& result matches TypeView::Tuple(new_items)
            &&& substitutes_each(items, substitutions, new_items)
        },
        TypeView::Function(params, value) => {
            &&& result matches TypeView::Function(new_params, new_value)
            &&& substitutes_each(params, substitutions, new_params)
            &&& substitutes(*value, substitutions, *new_value)
        },
        _ => result == ty,
    }
}

/// Whether each type of `results` is the type in its place in `items` after the substitution.
pub open spec fn substitutes_each<E: Clone>(
    items: Seq<TypeView<E>>,
    substitutions: Seq<(Seq<char>, TypeView<E>)>,
    results: Seq<TypeView<E>>,
) -> bool
    decreases items,
{
    &&& items.len() == results.len()
    &&& forall|i: int|
        0 <= i < items.len() ==> substitutes(#[trigger] items[i], substitutions, results[i])
}

/// The value of a substitution list.
pub open spec fn substitutions_view<E>(substitutions: Seq<(std::string::String, Type<E>)>) -> Seq<
    (Seq<char>, TypeView<E>),
> {
    substitutions.map_values(|entry: (std::string::String, Type<E>)| (entry.0@, entry.1@))
}

/// Whether a clone of an `E` always equals what it was made from.
pub open spec fn clones_exactly<E: Clone>() -> bool {
    forall|given: E, copy: E| cloned(given, copy) ==> given == copy
}

fn find_substitution<'a, E>(
    substitutions: &'a Vec<(std::string::String, Type<E>)>,
    name: &std::string::String,
) -> (found: Option<&'a Type<E>>)
    ensures
        match found {
            Some(ty) => substitution_for(substitutions_view(substitutions@), name@) == Some(ty@),
            None => substitution_for(substitutions_view(substitutions@), name@) is None,
        },
{
    let ghost all = substitutions_view(substitutions@);
    let mut i: usize = 0;
    assert(all.skip(0) =~= all);
    while i < substitutions.len()
        invariant
            i <= substitutions.len(),
            all == substitutions_view(substitutions@),
            substitution_for(all, name@) == substitution_for(all.skip(i as int), name@),
        decreases substitutions.len() - i,
    {
        proof {
            assert(all.skip(i as int).drop_first() =~= all.skip(i + 1));
            assert(all.skip(i as int)[0] == (substitutions@[i as int].0@, substitutions@[i as int].1@));
        }
        if substitutions[i].0 == *name {
            return Some(&substitutions[i].1);
        }
        i += 1;
    }
    None
}

fn take_item<E>(items: &mut Vec<Type<E>>, i: usize) -> (item: Type<E>)
    requires
        i < old(items)@.len(),
    ensures
        item == old(items)@[i as int],
        final(items)@ == old(items)@.update(i as int, Type::Bottom),
{
    let mut item = Type::Bottom;
    std::mem::swap(&mut item, &mut items[i]);
    item
}

fn duplicate_all<E: Clone>(items: &Vec<Type<E>>) -> (copied: Vec<Type<E>>)
    ensures
        copies_each(models_of(items@), models_of(copied@)),
    decreases items,
{
    let mut copied: Vec<Type<E>> = Vec::new();
    let mut i: usize = 0;
    while i < items.len()
        invariant
            i <= items.len(),
            copied@.len() == i,
            forall|k: int| 0 <= k < i ==> copies(items@[k]@, #[trigger] copied@[k]@),
        decreases items.len() - i,
    {
        proof {
            vstd::std_specs::vec::axiom_vec_index_decreases(*items, i as int);
        }
        copied.push(items[i].duplicate());
        i += 1;
    }
    proof {
        let a = models_of(items@);
        let b = models_of(copied@);
        assert forall|k: int| 0 <= k < a.len() implies copies(#[trigger] a[k], b[k]) by {
            assert(copies(items@[k]@, copied@[k]@));
        }
    }
    copied
}

fn substitute_all<E: Clone>(
    items: Vec<Type<E>>,
    substitutions: &Vec<(std::string::String, Type<E>)>,
) -> (results: Vec<Type<E>>)
    ensures
        substitutes_each(
            models_of(items@),
            substitutions_view(substitutions@),
            models_of(results@),
        ),
    decreases items,
{
    let mut rest = items;
    let mut results: Vec<Type<E>> = Vec::new();
    let mut i: usize = 0;
    while i < rest.len()
        invariant
            i <= rest.len(),
            rest@.len() == items@.len(),
            forall|k: int| i <= k < items@.len() ==> rest@[k] == items@[k],
            results@.len() == i,
            forall|k: int|
                0 <= k < i ==> substitutes(
                    items@[k]@,
                    substitutions_view(substitutions@),
                    #[trigger] results@[k]@,
                ),
        decreases rest.len() - i,
    {
        let item = take_item(&mut rest, i);
        proof {
            vstd::std_specs::vec::axiom_vec_index_decreases(items, i as int);
        }
        results.push(item.substitute_type_vars_to(substitutions));
        i += 1;
    }
    proof {
        let a = models_of(items@);
        let b = models_of(results@);
        assert forall|k: int| 0 <= k < a.len() implies substitutes(
            #[trigger] a[k],
            substitutions_view(substitutions@),
            b[k],
        ) by {
            assert(substitutes(items@[k]@, substitutions_view(substitutions@), results@[k]@));
        }
    }
    results
}

impl<E: Clone> Type<E> {
    fn duplicate(&self) -> (copy: Self)
        ensures
            copies(self@, copy@),
        decreases self,
    {
        match self {
            Type::Bottom => Type::Bottom,
            Type::Bool => Type::Bool,
            Type::Int => Type::Int,
            Type::Fe => Type::Fe,
            Type::String => Type::String,
            Type::Col => Type::Col,
            Type::Expr => Type::Expr,
            Type::Constr => Type::Constr,
            Type::Array(a) => {
                let base = (&*a.base).duplicate();
                let length = match &a.length {
                    Some(l) => Some(l.clone()),
                    None => None,
                };
                let copy = Type::Array(ArrayType { base: Box::new(base), length });
                assert(copies(self@, copy@));
                copy
            },
            Type::Tuple(t) => {
                let items = duplicate_all(&t.items);
                let copy = Type::Tuple(TupleType { items });
                proof {
                    lemma_models(*self);
                    lemma_models(copy);
                }
                copy
            },
            Type::Function(f) => {
                let params = duplicate_all(&f.params);
                let value = (&*f.value).duplicate();
                let copy = Type::Function(FunctionType { params, value: Box::new(value) });
                proof {
                    lemma_models(*self);
                    lemma_models(copy);
                }
                copy
            },
            Type::TypeVar(name) => {
                let copy = Type::TypeVar(name.clone());
                assert(copies(self@, copy@));
                copy
            },
        }
    }

    /// The type with each type variable replaced by a copy of the type that
    /// the first entry of `substitutions` with its name gives. What is put in
    /// is not searched again.
    pub fn substitute_type_vars_to(
        self,
        substitutions: &Vec<(std::string::String, Type<E>)>,
    ) -> (result: Self)
        ensures
            substitutes(self@, substitutions_view(substitutions@), result@),
        decreases self,
    {
        match self {
            Type::TypeVar(name) => match find_substitution(substitutions, &name) {
                Some(replacement) => replacement.duplicate(),
                None => Type::TypeVar(name),
            },
            Type::Array(a) => {
                let base = (*a.base).substitute_type_vars_to(substitutions);
                let result = Type::Array(ArrayType { base: Box::new(base), length: a.length });
                assert(substitutes(self@, substitutions_view(substitutions@), result@));
                result
            },
            Type::Tuple(t) => {
                let items = substitute_all(t.items, substitutions);
                let result = Type::Tuple(TupleType { items });
                proof {
                    lemma_models(self);
                    lemma_models(result);
                }
                result
            },
            Type::Function(f) => {
                let params = substitute_all(f.params, substitutions);
                let value = (*f.value).substitute_type_vars_to(substitutions);
                let result = Type::Function(FunctionType { params, value: Box::new(value) });
                proof {
                    lemma_models(self);
                    lemma_models(result);
                }
                result
            },
            other => other,
        }
    }

    /// Replaces each type variable by a copy of the type that the first entry
    /// of `substitutions` with its name gives.
    pub fn substitute_type_vars(&mut self, substitutions: &Vec<(std::string::String, Type<E>)>)
        ensures
            substitutes(old(self)@, substitutions_view(substitutions@), final(self)@),
    {
        let mut taken = Type::Bottom;
        std::mem::swap(self, &mut taken);
        *self = taken.substitute_type_vars_to(substitutions);
    }
}

impl<E: Clone> Clone for Type<E> {
    fn clone(&self) -> (copy: Self)
        ensures
            copies(self@, copy@),
    {
        self.duplicate()
    }
}

impl<E: Clone> Clone for ArrayType<E> {
    fn clone(&self) -> (copy: Self)
        ensures
            copies(self@, copy@),
    {
        let base = (&*self.base).duplicate();
        let length = match &self.length {
            Some(l) => Some(l.clone()),
            None => None,
        };
        ArrayType { base: Box::new(base), length }
    }
}

impl<E: Clone> Clone for TupleType<E> {
    fn clone(&self) -> (copy: Self)
        ensures
            copies(self@, copy@),
    {
        TupleType { items: duplicate_all(&self.items) }
    }
}

impl<E: Clone> Clone for FunctionType<E> {
    fn clone(&self) -> (copy: Self)
        ensures
            copies(self@, copy@),
    {
        let params = duplicate_all(&self.params);
        let value = (&*self.value).duplicate();
        FunctionType { params, value: Box::new(value) }
    }
}

/// Whether every copy of what the list gives for `name` equals it.
pub open spec fn replaced_exactly<E: Clone>(
    substitutions: Seq<(Seq<char>, TypeView<E>)>,
    name: Seq<char>,
) -> bool {
    match substitution_for(substitutions, name) {
        Some(replacement) => forall|copy: TypeView<E>| #[trigger]
            copies(replacement, copy) ==> copy == replacement,
        None => true,
    }
}

/// Where clones of lengths are exact, a copy of a type equals the type.
pub proof fn lemma_copies_exactly<E: Clone>(given: TypeView<E>, copy: TypeView<E>)
    requires
        clones_exactly::<E>(),
        copies(given, copy),
    ensures
        copy == given,
    decreases given,
{
    match (given, copy) {
        (TypeView::Array(base, length), TypeView::Array(copied_base, copied_length)) => {
            lemma_copies_exactly(*base, *copied_base);
        },
        (TypeView::Tuple(items), TypeView::Tuple(copied)) => {
            lemma_copies_each_exactly(items, copied);
        },
        (TypeView::Function(params, value), TypeView::Function(copied_params, copied_value)) => {
            lemma_copies_each_exactly(params, copied_params);
            lemma_copies_exactly(*value, *copied_value);
        },
        _ => {},
    }
}

proof fn lemma_copies_each_exactly<E: Clone>(items: Seq<TypeView<E>>, copied: Seq<TypeView<E>>)
    requires
        clones_exactly::<E>(),
        copies_each(items, copied),
    ensures
        copied == items,
    decreases items,
{
    assert forall|i: int| 0 <= i < items.len() implies copied[i] == items[i] by {
        assert(copies(items[i], copied[i]));
        lemma_copies_exactly(items[i], copied[i]);
    }
    assert(copied =~= items);
}

/// Where every copy of a replacement equals it, the result of a substitution
/// is the one type that `substituted` names.
pub proof fn lemma_substitutes_exactly<E: Clone>(
    ty: TypeView<E>,
    substitutions: Seq<(Seq<char>, TypeView<E>)>,
    result: TypeView<E>,
)
    requires
        forall|name: Seq<char>| #[trigger] replaced_exactly(substitutions, name),
        substitutes(ty, substitutions, result),
    ensures
        result == substituted(ty, substitutions),
    decreases ty,
{
    match ty {
        TypeView::TypeVar(name) => {
            assert(replaced_exactly(substitutions, name));
        },
        TypeView::Array(base, length) => {
            lemma_substitutes_exactly(*base, substitutions, *result->Array_0);
        },
        TypeView::Tuple(items) => {
            lemma_substitutes_each_exactly(items, substitutions, result->Tuple_0);
            assert(result->Tuple_0 =~= substituted(ty, substitutions)->Tuple_0);
        },
        TypeView::Function(params, value) => {
            lemma_substitutes_each_exactly(params, substitutions, result->Function_0);
            lemma_substitutes_exactly(*value, substitutions, *result->Function_1);
            assert(result->Function_0 =~= substituted(ty, substitutions)->Function_0);
        },
        _ => {},
    }
}

proof fn lemma_substitutes_each_exactly<E: Clone>(
    items: Seq<TypeView<E>>,
    substitutions: Seq<(Seq<char>, TypeView<E>)>,
    results: Seq<TypeView<E>>,
)
    requires
        forall|name: Seq<char>| #[trigger] replaced_exactly(substitutions, name),
        substitutes_each(items, substitutions, results),
    ensures
        results.len() == items.len(),
        forall|i: int|
            0 <= i < items.len() ==> #[trigger] results[i] == substituted(items[i], substitutions),
    decreases items,
{
    assert forall|i: int| 0 <= i < items.len() implies #[trigger] results[i] == substituted(
        items[i],
        substitutions,
    ) by {
        assert(substitutes(items[i], substitutions, results[i]));
        lemma_substitutes_exactly(items[i], substitutions, results[i]);
    }
}

/// Where clones of lengths are exact, the result of a substitution is the
/// one type that `substituted` names.
pub proof fn lemma_substitution_is_exact<E: Clone>(
    ty: TypeView<E>,
    substitutions: Seq<(Seq<char>, TypeView<E>)>,
    result: TypeView<E>,
)
    requires
        clones_exactly::<E>(),
        substitutes(ty, substitutions, result),
    ensures
        result == substituted(ty, substitutions),
{
    lemma_replaced_exactly(substitutions);
    lemma_substitutes_exactly(ty, substitutions, result);
}

proof fn lemma_replaced_exactly<E: Clone>(substitutions: Seq<(Seq<char>, TypeView<E>)>)
    requires
        clones_exactly::<E>(),
    ensures
        forall|name: Seq<char>| #[trigger] replaced_exactly(substitutions, name),
{
    assert forall|name: Seq<char>| #[trigger] replaced_exactly(substitutions, name) by {
        match substitution_for(substitutions, name) {
            Some(replacement) => {
                assert forall|copy: TypeView<E>| #[trigger]
                    copies(replacement, copy) implies copy == replacement by {
                    lemma_copies_exactly(replacement, copy);
                }
            },
            None => {},
        }
    }
}

/// A substitution that gives, for each name, nothing or the type variable of
/// that same name leaves every type as it is.
pub proof fn lemma_substituted_identity<E>(
    ty: TypeView<E>,
    substitutions: Seq<(Seq<char>, TypeView<E>)>,
)
    requires
        forall|name: Seq<char>|
            (#[trigger] substitution_for(substitutions, name)) matches Some(replacement)
                ==> replacement == TypeView::<E>::TypeVar(name),
    ensures
        substituted(ty, substitutions) == ty,
    decreases ty,
{
    match ty {
        TypeView::TypeVar(name) => {
            assert(substitution_for(substitutions, name) matches Some(replacement) ==> replacement
                == TypeView::<E>::TypeVar(name));
        },
        TypeView::Array(base, length) => {
            lemma_substituted_identity(*base, substitutions);
        },
        TypeView::Tuple(items) => {
            assert forall|i: int| 0 <= i < items.len() implies substituted(items[i], substitutions)
                == items[i] by {
                lemma_substituted_identity(items[i], substitutions);
            }
            assert(substituted(ty, substitutions)->Tuple_0 =~= items);
        },
        TypeView::Function(params, value) => {
            assert forall|i: int| 0 <= i < params.len() implies substituted(
                params[i],
                substitutions,
            ) == params[i] by {
                lemma_substituted_identity(params[i], substitutions);
            }
            lemma_substituted_identity(*value, substitutions);
            assert(substituted(ty, substitutions)->Function_0 =~= params);
        },
        _ => {},
    }
}

/// A list of names without repetitions is empty exactly where the list is:
/// it begins with the first name.
pub proof fn lemma_first_occurrences(names: Seq<Seq<char>>)
    ensures
        first_occurrences(names).len() <= names.len(),
        names.len() > 0 ==> first_occurrences(names).len() > 0 && first_occurrences(names)[0]
            == names[0],
    decreases names.len(),
{
    if names.len() > 0 {
        lemma_first_occurrences(names.drop_last());
        if names.len() == 1 {
            assert(!names.drop_last().contains(names.last()));
        }
    }
}

/// A type is concrete exactly where the list of its type variables without
/// repetitions is empty.
pub proof fn lemma_concrete_iff_no_type_vars<E>(ty: Type<E>)
    ensures
        (type_vars(ty@).len() == 0) <==> (first_occurrences(type_vars(ty@)).len() == 0),
{
    lemma_first_occurrences(type_vars(ty@));
}

/// The type variables of a scheme, in the order of their declaration, each
/// with the names of the traits that it must have.
#[derive(Debug, PartialEq, Eq, PartialOrd, Ord, Clone, Default)]
pub struct TypeBounds(Vec<(std::string::String, BTreeSet<std::string::String>)>);

/// The value of a list of bounded type variables.
pub open spec fn bounds_view(
    vars: Seq<(std::string::String, BTreeSet<std::string::String>)>,
) -> Seq<(Seq<char>, BTreeSet<std::string::String>)> {
    vars.map_values(|entry: (std::string::String, BTreeSet<std::string::String>)| (entry.0@, entry.1))
}

impl View for TypeBounds {
    type V = Seq<(Seq<char>, BTreeSet<std::string::String>)>;

    closed spec fn view(&self) -> Self::V {
        bounds_view(self.0@)
    }
}

impl TypeBounds {
    /// The bounds made of the given variables and trait sets, in this order.
    pub fn new(vars: Vec<(std::string::String, BTreeSet<std::string::String>)>) -> (bounds: Self)
        ensures
            bounds@ == bounds_view(vars@),
    {
        TypeBounds(vars)
    }

    /// Whether no type variable is declared.
    pub fn is_empty(&self) -> (empty: bool)
        ensures
            empty == (self@.len() == 0),
    {
        self.0.len() == 0
    }

    /// The number of declared type variables.
    pub fn len(&self) -> (n: usize)
        ensures
            n == self@.len(),
    {
        self.0.len()
    }

    /// The declared type variables, in the order of their declaration.
    pub fn vars(&self) -> (names: Vec<&std::string::String>)
        ensures
            names@.len() == self@.len(),
            forall|i: int| 0 <= i < names@.len() ==> names@[i]@ == self@[i].0,
    {
        let mut names: Vec<&std::string::String> = Vec::new();
        let mut i: usize = 0;
        while i < self.0.len()
            invariant
                i <= self.0.len(),
                names@.len() == i,
                forall|k: int| 0 <= k < i ==> names@[k]@ == self.0@[k].0@,
            decreases self.0.len() - i,
        {
            names.push(&self.0[i].0);
            i += 1;
        }
        names
    }

    /// The declared type variables, each with its trait set.
    pub fn bounds(&self) -> (entries: Vec<(&std::string::String, &BTreeSet<std::string::String>)>)
        ensures
            entries@.len() == self@.len(),
            forall|i: int|
                0 <= i < entries@.len() ==> entries@[i].0@ == self@[i].0 && *entries@[i].1
                    == self@[i].1,
    {
        let mut entries: Vec<(&std::string::String, &BTreeSet<std::string::String>)> = Vec::new();
        let mut i: usize = 0;
        while i < self.0.len()
            invariant
                i <= self.0.len(),
                entries@.len() == i,
                forall|k: int|
                    0 <= k < i ==> entries@[k].0@ == self.0@[k].0@ && *entries@[k].1
                        == self.0@[k].1,
            decreases self.0.len() - i,
        {
            entries.push((&self.0[i].0, &self.0[i].1));
            i += 1;
        }
        entries
    }
}

/// A type together with the type variables that it is generic over.
#[derive(Debug, PartialEq, Eq, PartialOrd, Ord, Clone)]
pub struct TypeScheme<E = u64> {
    /// The type variables and their trait bounds.
    pub vars: TypeBounds,
    /// The type, which may hold these type variables and others.
    pub ty: Type<E>,
}

/// The mathematical value of a [`TypeScheme`].
pub struct TypeSchemeView<E> {
    pub vars: Seq<(Seq<char>, BTreeSet<std::string::String>)>,
    pub ty: TypeView<E>,
}

impl<E> View for TypeScheme<E> {
    type V = TypeSchemeView<E>;

    open spec fn view(&self) -> TypeSchemeView<E> {
        TypeSchemeView { vars: self.vars@, ty: self.ty@ }
    }
}

/// The decimal digit for a number below ten.
pub open spec fn digit(d: nat) -> char {
    if d == 0 {
        '0'
    } else if d == 1 {
        '1'
    } else if d == 2 {
        '2'
    } else if d == 3 {
        '3'
    } else if d == 4 {
        '4'
    } else if d == 5 {
        '5'
    } else if d == 6 {
        '6'
    } else if d == 7 {
        '7'
    } else if d == 8 {
        '8'
    } else {
        '9'
    }
}

/// A number in decimal digits, without leading zeros.
pub open spec fn decimal(n: nat) -> Seq<char>
    decreases n,
{
    if n < 10 {
        seq![digit(n)]
    } else {
        decimal(n / 10).push(digit(n % 10))
    }
}

/// The name that the variable at place `i` of the numbering gets, where
/// `count` variables are declared: `T` where it is the only one, else `T`
/// and its place counted from one.
pub open spec fn canonical_name(count: nat, i: int) -> Seq<char> {
    if count == 1 {
        seq!['T']
    } else {
        seq!['T'] + decimal((i + 1) as nat)
    }
}

/// The place of a name in a list: that of its first occurrence, or the
/// length of the list where it does not occur.
pub open spec fn position_of(names: Seq<Seq<char>>, name: Seq<char>) -> int
    decreases names.len(),
{
    if names.len() == 0 {
        0
    } else if names[0] == name {
        0
    } else {
        1 + position_of(names.drop_first(), name)
    }
}

/// The order in which the declared variables are numbered: those that occur
/// in the type, in the order in which they first occur there, and then those
/// that do not, in the order of their declaration.
pub open spec fn numbering_order(declared: Seq<Seq<char>>, used: Seq<Seq<char>>) -> Seq<Seq<char>> {
    names_found_in(first_occurrences(used), declared) + names_missing_in(declared, used)
}

/// The name that a variable of the scheme is renamed to: the canonical name
/// for its place in the numbering order.
pub open spec fn renamed_name<E>(scheme: TypeSchemeView<E>, name: Seq<char>) -> Seq<char> {
    canonical_name(
        scheme.vars.len(),
        position_of(numbering_order(declared_names(scheme.vars), type_vars(scheme.ty)), name),
    )
}

/// The substitution list that gives each declared variable its new name.
pub open spec fn canonical_substitutions<E>(scheme: TypeSchemeView<E>) -> Seq<
    (Seq<char>, TypeView<E>),
> {
    Seq::new(
        scheme.vars.len(),
        |i: int| (scheme.vars[i].0, TypeView::<E>::TypeVar(renamed_name(scheme, scheme.vars[i].0))),
    )
}

/// The scheme with its declared variables renamed, in the declaration and in
/// the type: to `T` where one is declared, else to `T1`, `T2`, ... in the
/// order in which they first occur in the type, those that do not occur
/// there coming last in the order of their declaration. Each entry of the
/// declaration keeps its place and its trait set.
pub open spec fn simplified<E>(scheme: TypeSchemeView<E>) -> TypeSchemeView<E> {
    if scheme.vars.len() == 0 {
        scheme
    } else {
        TypeSchemeView {
            vars: Seq::new(
                scheme.vars.len(),
                |i: int| (renamed_name(scheme, scheme.vars[i].0), scheme.vars[i].1),
            ),
            ty: substituted(scheme.ty, canonical_substitutions(scheme)),
        }
    }
}

fn digit_char(d: usize) -> (c: char)
    requires
        d < 10,
    ensures
        c == digit(d as nat),
{
    if d == 0 {
        '0'
    } else if d == 1 {
        '1'
    } else if d == 2 {
        '2'
    } else if d == 3 {
        '3'
    } else if d == 4 {
        '4'
    } else if d == 5 {
        '5'
    } else if d == 6 {
        '6'
    } else if d == 7 {
        '7'
    } else if d == 8 {
        '8'
    } else {
        '9'
    }
}

fn decimal_digits(n: usize) -> (digits: Vec<char>)
    ensures
        digits@ == decimal(n as nat),
    decreases n,
{
    if n < 10 {
        let mut digits: Vec<char> = Vec::new();
        digits.push(digit_char(n));
        assert(digits@ =~= seq![digit(n as nat)]);
        digits
    } else {
        let mut digits = decimal_digits(n / 10);
        digits.push(digit_char(n % 10));
        digits
    }
}

fn numbered_name(number: usize) -> (name: std::string::String)
    ensures
        name@ == seq!['T'] + decimal(number as nat),
{
    let mut chars: Vec<char> = Vec::new();
    chars.push('T');
    let mut digits = decimal_digits(number);
    let ghost tail = digits@;
    chars.append(&mut digits);
    assert(chars@ =~= seq!['T'] + tail);
    crate::text::string_of(&chars)
}

fn canonical_var_name(count: usize, i: usize) -> (name: std::string::String)
    requires
        i < usize::MAX,
    ensures
        name@ == canonical_name(count as nat, i as int),
{
    if count == 1 {
        proof {
            reveal_strlit("T");
            assert("T"@ =~= seq!['T']);
        }
        "T".to_owned()
    } else {
        numbered_name(i + 1)
    }
}

fn position_of_name(names: &Vec<std::string::String>, name: &std::string::String) -> (place: usize)
    ensures
        place == position_of(crate::text::texts_of(names@), name@),
        place <= names@.len(),
{
    let ghost all = crate::text::texts_of(names@);
    let mut i: usize = 0;
    assert(all.skip(0) =~= all);
    while i < names.len()
        invariant
            i <= names.len(),
            all == crate::text::texts_of(names@),
            position_of(all, name@) == i + position_of(all.skip(i as int), name@),
        decreases names.len() - i,
    {
        proof {
            assert(all.skip(i as int).drop_first() =~= all.skip(i + 1));
            assert(all.skip(i as int)[0] == names@[i as int]@);
        }
        if names[i] == *name {
            return i;
        }
        i += 1;
    }
    i
}

/// A name that occurs in a list has its place before the end of the list,
/// and the list holds it there.
pub proof fn lemma_position_of(names: Seq<Seq<char>>, name: Seq<char>)
    ensures
        0 <= position_of(names, name) <= names.len(),
        names.contains(name) <==> position_of(names, name) < names.len(),
        names.contains(name) ==> names[position_of(names, name)] == name,
    decreases names.len(),
{
    if names.len() > 0 {
        if names[0] == name {
            assert(names.contains(name));
        } else {
            let rest = names.drop_first();
            lemma_position_of(rest, name);
            if rest.contains(name) {
                let j = choose|j: int| 0 <= j < rest.len() && rest[j] == name;
                assert(names[j + 1] == name);
            }
            if names.contains(name) {
                let j = choose|j: int| 0 <= j < names.len() && names[j] == name;
                assert(rest[j - 1] == name);
            }
        }
    }
}

/// Every declared name has a place in the numbering order.
pub proof fn lemma_declared_is_numbered(
    declared: Seq<Seq<char>>,
    used: Seq<Seq<char>>,
    name: Seq<char>,
)
    requires
        declared.contains(name),
    ensures
        numbering_order(declared, used).contains(name),
{
    let once = first_occurrences(used);
    let found = names_found_in(once, declared);
    let missing = names_missing_in(declared, used);
    lemma_first_occurrences_contains(used, name);
    if used.contains(name) {
        let j = choose|j: int| 0 <= j < once.len() && once[j] == name;
        once.lemma_filter_contains(|n: Seq<char>| declared.contains(n) == true, j);
        let k = choose|k: int| 0 <= k < found.len() && found[k] == name;
        assert((found + missing)[k] == name);
    } else {
        let j = choose|j: int| 0 <= j < declared.len() && declared[j] == name;
        declared.lemma_filter_contains(|n: Seq<char>| used.contains(n) == false, j);
        let k = choose|k: int| 0 <= k < missing.len() && missing[k] == name;
        assert((found + missing)[found.len() + k] == name);
    }
}

/// A list of names without repetitions holds the names that the list holds.
pub proof fn lemma_first_occurrences_contains(names: Seq<Seq<char>>, name: Seq<char>)
    ensures
        first_occurrences(names).contains(name) <==> names.contains(name),
    decreases names.len(),
{
    if names.len() > 0 {
        let front = names.drop_last();
        let last = names.last();
        lemma_first_occurrences_contains(front, name);
        lemma_first_occurrences_contains(front, last);
        let before = first_occurrences(front);
        if names.contains(name) {
            let j = choose|j: int| 0 <= j < names.len() && names[j] == name;
            if j < names.len() - 1 {
                assert(front[j] == name);
            }
        }
        if front.contains(name) {
            let j = choose|j: int| 0 <= j < front.len() && front[j] == name;
            assert(names[j] == name);
        }
        assert(names[names.len() - 1] == last);
        if front.contains(last) {
        } else {
            let after = before.push(last);
            if before.contains(name) {
                let j = choose|j: int| 0 <= j < before.len() && before[j] == name;
                assert(after[j] == name);
            }
            if after.contains(name) {
                let j = choose|j: int| 0 <= j < after.len() && after[j] == name;
                if j < before.len() {
                    assert(before[j] == name);
                }
            }
            assert(after[after.len() - 1] == last);
        }
    }
}

impl<E: Clone> TypeScheme<E> {
    /// The scheme with its declared type variables renamed: to `T` where
    /// there is one, else to `T1`, `T2`, ... in the order in which they first
    /// occur in the type; those that do not occur in the type are numbered
    /// after these, in the order of their declaration. Each entry of the
    /// declaration keeps its place and its trait set; a scheme without
    /// variables is unchanged.
    pub fn simplify_type_vars(self) -> (scheme: TypeScheme<E>)
        ensures
            scheme@ == simplified(self@),
    {
        let count = self.vars.0.len();
        if count == 0 {
            return self;
        }
        let ghost names = declared_names(self.vars@);
        let ghost wanted = numbering_order(names, type_vars(self.ty@));
        let order = numbering(&self);
        let mut declared = self.vars.0;
        let ghost all = declared@;
        let mut substitutions: Vec<(std::string::String, Type<E>)> = Vec::new();
        let mut renamed: Vec<(std::string::String, BTreeSet<std::string::String>)> = Vec::new();
        let mut i: usize = 0;
        while i < count
            invariant
                i <= count,
                count == all.len(),
                all == self.vars.0@,
                names == declared_names(self.vars@),
                wanted == numbering_order(names, type_vars(self.ty@)),
                crate::text::texts_of(order@) == wanted,
                declared@.len() == count,
                forall|k: int| i <= k < count ==> declared@[k] == all[k],
                substitutions@.len() == i,
                renamed@.len() == i,
                forall|k: int|
                    0 <= k < i ==> (#[trigger] substitutions@[k]).0@ == all[k].0@
                        && substitutions@[k].1@ == TypeView::<E>::TypeVar(
                        renamed_name(self@, all[k].0@),
                    ),
                forall|k: int|
                    0 <= k < i ==> (#[trigger] renamed@[k]).0@ == renamed_name(self@, all[k].0@)
                        && renamed@[k].1 == all[k].1,
            decreases count - i,
        {
            let mut entry = (std::string::String::new(), BTreeSet::new());
            std::mem::swap(&mut entry, &mut declared[i]);
            let place = position_of_name(&order, &entry.0);
            proof {
                assert(names[i as int] == all[i as int].0@);
                assert(names.contains(entry.0@));
                lemma_declared_is_numbered(names, type_vars(self.ty@), entry.0@);
                lemma_position_of(wanted, entry.0@);
                assert(wanted.len() == order.len());
            }
            let name = canonical_var_name(count, place);
            substitutions.push((entry.0, Type::TypeVar(name.clone())));
            renamed.push((name, entry.1));
            i += 1;
        }
        let ty = self.ty.substitute_type_vars_to(&substitutions);
        let scheme = TypeScheme { vars: TypeBounds(renamed), ty };
        proof {
            let wanted = canonical_substitutions::<E>(self@);
            assert(substitutions_view(substitutions@) =~= wanted);
            lemma_renaming_replaced_exactly::<E>(self@);
            lemma_substitutes_exactly(self.ty@, wanted, ty@);
            assert(scheme.vars@ =~= simplified(self@).vars);
        }
        scheme
    }
}

fn numbering<E>(scheme: &TypeScheme<E>) -> (order: Vec<std::string::String>)
    ensures
        crate::text::texts_of(order@) == numbering_order(
            declared_names(scheme.vars@),
            type_vars(scheme.ty@),
        ),
{
    let used = scheme.ty.contained_type_vars_with_repetitions();
    let used_once = scheme.ty.contained_type_vars();
    let declared = scheme.vars.vars();
    proof {
        assert(texts_of_refs(declared@) =~= declared_names(scheme.vars@));
    }
    let mut order = selected_names(&used_once, &declared, true);
    let mut rest = selected_names(&declared, &used, false);
    let ghost first = order@;
    let ghost second = rest@;
    order.append(&mut rest);
    proof {
        assert(crate::text::texts_of(first + second) =~= crate::text::texts_of(first)
            + crate::text::texts_of(second));
    }
    order
}

proof fn lemma_canonical_substitution_for<E>(scheme: TypeSchemeView<E>, name: Seq<char>)
    ensures
        substitution_for(canonical_substitutions::<E>(scheme), name) matches Some(replacement)
            ==> replacement == TypeView::<E>::TypeVar(renamed_name(scheme, name)),
{
    lemma_substitution_for_member(canonical_substitutions::<E>(scheme), name);
}

/// What a substitution list gives for a name is the type of one of its entries
/// with that name.
pub proof fn lemma_substitution_for_member<E>(
    substitutions: Seq<(Seq<char>, TypeView<E>)>,
    name: Seq<char>,
)
    ensures
        substitution_for(substitutions, name) matches Some(replacement) ==> exists|i: int|
            0 <= i < substitutions.len() && #[trigger] substitutions[i] == (name, replacement),
    decreases substitutions.len(),
{
    if substitutions.len() > 0 && substitutions[0].0 != name {
        let rest = substitutions.drop_first();
        lemma_substitution_for_member(rest, name);
        if let Some(replacement) = substitution_for(rest, name) {
            let i = choose|i: int| 0 <= i < rest.len() && #[trigger] rest[i] == (name, replacement);
            assert(substitutions[i + 1] == (name, replacement));
        }
    } else if substitutions.len() > 0 {
        assert(substitutions[0] == (name, substitutions[0].1));
    }
}

proof fn lemma_renaming_replaced_exactly<E: Clone>(scheme: TypeSchemeView<E>)
    ensures
        forall|name: Seq<char>| #[trigger]
            replaced_exactly(canonical_substitutions::<E>(scheme), name),
{
    assert forall|name: Seq<char>| #[trigger]
        replaced_exactly(canonical_substitutions::<E>(scheme), name) by {
        lemma_canonical_substitution_for::<E>(scheme, name);
    }
}



proof fn lemma_decimal_len(n: nat)
    ensures
        decimal(n).len() >= 1,
        n >= 10 ==> decimal(n).len() >= 2,
    decreases n,
{
    if n >= 10 {
        lemma_decimal_len(n / 10);
    }
}

/// Two numbers with the same decimal digits are the same number.
pub proof fn lemma_decimal_injective(a: nat, b: nat)
    requires
        decimal(a) == decimal(b),
    ensures
        a == b,
    decreases a,
{
    lemma_decimal_len(a);
    lemma_decimal_len(b);
    if a < 10 && b < 10 {
        assert(decimal(a)[0] == digit(a));
        assert(decimal(b)[0] == digit(b));
    } else if a >= 10 && b >= 10 {
        assert(decimal(a).last() == digit(a % 10));
        assert(decimal(b).last() == digit(b % 10));
        assert(decimal(a).drop_last() =~= decimal(a / 10));
        assert(decimal(b).drop_last() =~= decimal(b / 10));
        lemma_decimal_injective(a / 10, b / 10);
    } else if a < 10 {
        assert(decimal(a).len() == 1);
    } else {
        assert(decimal(b).len() == 1);
    }
}

/// Where more than one variable is declared, different places have
/// different canonical names.
pub proof fn lemma_canonical_name_injective(count: nat, i: int, j: int)
    requires
        count != 1,
        0 <= i,
        0 <= j,
        canonical_name(count, i) == canonical_name(count, j),
    ensures
        i == j,
{
    let a = canonical_name(count, i);
    let b = canonical_name(count, j);
    assert(a.skip(1) =~= decimal((i + 1) as nat));
    assert(b.skip(1) =~= decimal((j + 1) as nat));
    lemma_decimal_injective((i + 1) as nat, (j + 1) as nat);
}

proof fn lemma_renamed_differs<E>(scheme: TypeSchemeView<E>, x: Seq<char>, y: Seq<char>)
    requires
        scheme.vars.len() != 1,
        numbering_order(declared_names(scheme.vars), type_vars(scheme.ty)).contains(x),
        numbering_order(declared_names(scheme.vars), type_vars(scheme.ty)).contains(y),
        renamed_name(scheme, x) == renamed_name(scheme, y),
    ensures
        x == y,
{
    let order = numbering_order(declared_names(scheme.vars), type_vars(scheme.ty));
    lemma_position_of(order, x);
    lemma_position_of(order, y);
    lemma_canonical_name_injective(
        scheme.vars.len(),
        position_of(order, x),
        position_of(order, y),
    );
}

proof fn lemma_position_of_renamed(
    names: Seq<Seq<char>>,
    f: spec_fn(Seq<char>) -> Seq<char>,
    name: Seq<char>,
)
    requires
        forall|i: int| 0 <= i < names.len() && f(#[trigger] names[i]) == f(name) ==> names[i] == name,
    ensures
        position_of(names.map_values(f), f(name)) == position_of(names, name),
    decreases names.len(),
{
    if names.len() > 0 {
        let rest = names.drop_first();
        assert(names.map_values(f).drop_first() =~= rest.map_values(f));
        assert(names.map_values(f)[0] == f(names[0]));
        assert forall|i: int| 0 <= i < rest.len() && f(#[trigger] rest[i]) == f(name) implies rest[i]
            == name by {
            assert(rest[i] == names[i + 1]);
        }
        lemma_position_of_renamed(rest, f, name);
    }
}

proof fn lemma_first_occurrences_renamed(names: Seq<Seq<char>>, f: spec_fn(Seq<char>) -> Seq<char>)
    requires
        forall|i: int, j: int|
            0 <= i < names.len() && 0 <= j < names.len() && f(#[trigger] names[i]) == f(
                #[trigger] names[j],
            ) ==> names[i] == names[j],
    ensures
        first_occurrences(names.map_values(f)) == first_occurrences(names).map_values(f),
    decreases names.len(),
{
    let mapped = names.map_values(f);
    if names.len() > 0 {
        let front = names.drop_last();
        let last = names.last();
        assert(mapped.drop_last() =~= front.map_values(f));
        assert(mapped.last() == f(last));
        assert forall|i: int, j: int|
            0 <= i < front.len() && 0 <= j < front.len() && f(#[trigger] front[i]) == f(
                #[trigger] front[j],
            ) implies front[i] == front[j] by {
            assert(front[i] == names[i]);
            assert(front[j] == names[j]);
        }
        lemma_first_occurrences_renamed(front, f);
        if front.contains(last) {
            let j = choose|j: int| 0 <= j < front.len() && front[j] == last;
            assert(front.map_values(f)[j] == f(last));
        }
        if front.map_values(f).contains(f(last)) {
            let j = choose|j: int|
                0 <= j < front.map_values(f).len() && front.map_values(f)[j] == f(last);
            assert(front[j] == names[j]);
            assert(names[names.len() - 1] == last);
            assert(front[j] == last);
        }
        assert(first_occurrences(front).push(last).map_values(f) =~= first_occurrences(
            front,
        ).map_values(f).push(f(last)));
    } else {
        assert(first_occurrences(names).map_values(f) =~= Seq::<Seq<char>>::empty());
        assert(mapped =~= Seq::<Seq<char>>::empty());
    }
}

proof fn lemma_filter_renamed(
    names: Seq<Seq<char>>,
    f: spec_fn(Seq<char>) -> Seq<char>,
    p: spec_fn(Seq<char>) -> bool,
    q: spec_fn(Seq<char>) -> bool,
)
    requires
        forall|i: int| 0 <= i < names.len() ==> q(f(#[trigger] names[i])) == p(names[i]),
    ensures
        names.map_values(f).filter(q) == names.filter(p).map_values(f),
    decreases names.len(),
{
    reveal(Seq::filter);
    let mapped = names.map_values(f);
    if names.len() > 0 {
        let front = names.drop_last();
        assert(mapped.drop_last() =~= front.map_values(f));
        assert(mapped.last() == f(names.last()));
        assert(names[names.len() - 1] == names.last());
        assert forall|i: int| 0 <= i < front.len() implies q(f(#[trigger] front[i])) == p(
            front[i],
        ) by {
            assert(front[i] == names[i]);
        }
        lemma_filter_renamed(front, f, p, q);
        assert(front.filter(p).push(names.last()).map_values(f) =~= front.filter(p).map_values(
            f,
        ).push(f(names.last())));
    } else {
        assert(names.filter(p).map_values(f) =~= Seq::<Seq<char>>::empty());
        assert(mapped =~= Seq::<Seq<char>>::empty());
    }
}

/// The name that a substitution list turns a type variable into, where
/// what it gives is a type variable; else the name itself.
pub open spec fn renamed_by<E>(
    substitutions: Seq<(Seq<char>, TypeView<E>)>,
    name: Seq<char>,
) -> Seq<char> {
    match substitution_for(substitutions, name) {
        Some(TypeView::TypeVar(renamed)) => renamed,
        _ => name,
    }
}

/// Where a substitution list gives type variables only, the type variables
/// of the result are those of the type, each renamed, in the same order.
pub proof fn lemma_type_vars_substituted<E>(
    ty: TypeView<E>,
    substitutions: Seq<(Seq<char>, TypeView<E>)>,
    f: spec_fn(Seq<char>) -> Seq<char>,
)
    requires
        forall|name: Seq<char>|
            (#[trigger] substitution_for(substitutions, name)) matches Some(r) ==> r is TypeVar,
        forall|name: Seq<char>| #[trigger] f(name) == renamed_by(substitutions, name),
    ensures
        type_vars(substituted(ty, substitutions)) == type_vars(ty).map_values(f),
    decreases ty,
{
    let result = substituted(ty, substitutions);
    match ty {
        TypeView::TypeVar(name) => {
            assert(f(name) == renamed_by(substitutions, name));
            assert(type_vars(ty).map_values(f) =~= seq![f(name)]);
            match substitution_for(substitutions, name) {
                Some(r) => {
                    assert(r is TypeVar);
                },
                None => {},
            }
        },
        TypeView::Array(base, _) => {
            lemma_type_vars_substituted(*base, substitutions, f);
        },
        TypeView::Tuple(items) => {
            lemma_type_vars_substituted_all(items, substitutions, f, result->Tuple_0);
        },
        TypeView::Function(params, value) => {
            lemma_type_vars_substituted_all(params, substitutions, f, result->Function_0);
            lemma_type_vars_substituted(*value, substitutions, f);
            assert((type_vars_of_all(params) + type_vars(*value)).map_values(f)
                =~= type_vars_of_all(params).map_values(f) + type_vars(*value).map_values(f));
        },
        _ => {
            assert(type_vars(ty).map_values(f) =~= Seq::<Seq<char>>::empty());
        },
    }
}

proof fn lemma_type_vars_substituted_all<E>(
    items: Seq<TypeView<E>>,
    substitutions: Seq<(Seq<char>, TypeView<E>)>,
    f: spec_fn(Seq<char>) -> Seq<char>,
    results: Seq<TypeView<E>>,
)
    requires
        forall|name: Seq<char>|
            (#[trigger] substitution_for(substitutions, name)) matches Some(r) ==> r is TypeVar,
        forall|name: Seq<char>| #[trigger] f(name) == renamed_by(substitutions, name),
        results.len() == items.len(),
        forall|i: int|
            0 <= i < items.len() ==> #[trigger] results[i] == substituted(items[i], substitutions),
    ensures
        type_vars_of_all(results) == type_vars_of_all(items).map_values(f),
    decreases items, items.len(),
{
    if items.len() > 0 {
        let front = items.drop_last();
        let front_results = results.drop_last();
        assert forall|i: int| 0 <= i < front.len() implies #[trigger] front_results[i]
            == substituted(front[i], substitutions) by {
            assert(front_results[i] == results[i]);
            assert(front[i] == items[i]);
        }
        lemma_type_vars_substituted_all(front, substitutions, f, front_results);
        assert(results.last() == results[results.len() - 1]);
        assert(items.last() == items[items.len() - 1]);
        lemma_type_vars_substituted(items.last(), substitutions, f);
        assert((type_vars_of_all(front) + type_vars(items.last())).map_values(f)
            =~= type_vars_of_all(front).map_values(f) + type_vars(items.last()).map_values(f));
    } else {
        assert(type_vars_of_all(items).map_values(f) =~= Seq::<Seq<char>>::empty());
    }
}

/// A substitution list gives something for each name that it holds.
pub proof fn lemma_substitution_for_some<E>(
    substitutions: Seq<(Seq<char>, TypeView<E>)>,
    i: int,
)
    requires
        0 <= i < substitutions.len(),
    ensures
        substitution_for(substitutions, substitutions[i].0) is Some,
    decreases substitutions.len(),
{
    if substitutions[0].0 != substitutions[i].0 {
        let rest = substitutions.drop_first();
        assert(rest[i - 1] == substitutions[i]);
        lemma_substitution_for_some(rest, i - 1);
    }
}

/// Whether every type variable of the type of the scheme is declared.
pub open spec fn all_declared<E>(scheme: TypeSchemeView<E>) -> bool {
    forall|i: int|
        0 <= i < type_vars(scheme.ty).len() ==> declared_names(scheme.vars).contains(
            #[trigger] type_vars(scheme.ty)[i],
        )
}

/// No used type variable is undeclared exactly where every type variable of
/// the type is declared.
pub proof fn lemma_all_declared<E>(scheme: TypeSchemeView<E>)
    ensures
        all_declared(scheme) <==> used_but_undeclared(scheme).len() == 0,
{
    let used = type_vars(scheme.ty);
    let once = first_occurrences(used);
    let declared = declared_names(scheme.vars);
    let p = |name: Seq<char>| declared.contains(name) == false;
    if all_declared(scheme) && once.filter(p).len() > 0 {
        once.lemma_filter_pred(p, 0);
        let x = once.filter(p)[0];
        assert(once.filter(p).contains(x));
        once.lemma_filter_contains_rev(p, x);
        lemma_first_occurrences_contains(used, x);
        let j = choose|j: int| 0 <= j < used.len() && used[j] == x;
        assert(declared.contains(used[j]));
    }
    if once.filter(p).len() == 0 {
        assert forall|i: int| 0 <= i < used.len() implies declared.contains(#[trigger] used[i]) by {
            lemma_first_occurrences_contains(used, used[i]);
            let j = choose|j: int| 0 <= j < once.len() && once[j] == used[i];
            if !declared.contains(used[i]) {
                once.lemma_filter_contains(p, j);
            }
        }
    }
}

/// Simplifying a scheme that was simplified changes nothing, where every
/// type variable of its type is declared.
pub proof fn lemma_simplify_is_idempotent<E>(scheme: TypeScheme<E>)
    requires
        used_but_undeclared(scheme@).len() == 0,
    ensures
        simplified(simplified(scheme@)) == simplified(scheme@),
{
    let given = scheme@;
    let once = simplified(given);
    let twice = simplified(once);
    let count = given.vars.len();
    if count > 0 {
        lemma_all_declared(given);
        assert forall|i: int| 0 <= i < count implies renamed_name(once, #[trigger] once.vars[i].0)
            == once.vars[i].0 by {
            if count != 1 {
                lemma_renamed_again(given, i);
            }
        }
        let renaming = canonical_substitutions::<E>(once);
        assert forall|name: Seq<char>|
            ((#[trigger] substitution_for(renaming, name)) matches Some(replacement)
                ==> replacement == TypeView::<E>::TypeVar(name)) by {
            lemma_substitution_for_member(renaming, name);
        }
        lemma_substituted_identity(once.ty, renaming);
        assert(twice.vars =~= once.vars);
    }
}

proof fn lemma_renamed_again<E>(given: TypeSchemeView<E>, at: int)
    requires
        given.vars.len() > 1,
        all_declared(given),
        0 <= at < given.vars.len(),
    ensures
        renamed_name(simplified(given), simplified(given).vars[at].0) == simplified(given).vars[at].0,
{
    let once = simplified(given);
    let declared = declared_names(given.vars);
    let used = type_vars(given.ty);
    let order = numbering_order(declared, used);
    let f = |name: Seq<char>| renamed_name(given, name);
    let list = canonical_substitutions::<E>(given);
    let g = |name: Seq<char>| renamed_by(list, name);
    // every declared and every used name has its place in the order
    assert forall|i: int| 0 <= i < declared.len() implies order.contains(#[trigger] declared[i]) by {
        lemma_declared_is_numbered(declared, used, declared[i]);
    }
    assert forall|i: int| 0 <= i < used.len() implies order.contains(#[trigger] used[i])
        && declared.contains(used[i]) by {
        lemma_declared_is_numbered(declared, used, used[i]);
    }
    // the type variables of the renamed type
    assert forall|name: Seq<char>|
        ((#[trigger] substitution_for(list, name)) matches Some(r) ==> r is TypeVar) by {
        lemma_canonical_substitution_for(given, name);
    }
    lemma_type_vars_substituted(given.ty, list, g);
    assert forall|i: int| 0 <= i < used.len() implies g(#[trigger] used[i]) == f(used[i]) by {
        let j = choose|j: int| 0 <= j < declared.len() && declared[j] == used[i];
        assert(list[j].0 == used[i]);
        lemma_substitution_for_some(list, j);
        lemma_canonical_substitution_for(given, used[i]);
    }
    let used_after = type_vars(once.ty);
    assert(used_after =~= used.map_values(f));
    let declared_after = declared_names(once.vars);
    assert(declared_after =~= declared.map_values(f));
    // first occurrences
    assert forall|i: int, j: int|
        0 <= i < used.len() && 0 <= j < used.len() && f(#[trigger] used[i]) == f(
            #[trigger] used[j],
        ) implies used[i] == used[j] by {
        lemma_renamed_differs(given, used[i], used[j]);
    }
    lemma_first_occurrences_renamed(used, f);
    let first = first_occurrences(used);
    // the declared among them
    let p1 = |name: Seq<char>| declared.contains(name) == true;
    let q1 = |name: Seq<char>| declared_after.contains(name) == true;
    assert forall|i: int| 0 <= i < first.len() implies q1(f(#[trigger] first[i])) == p1(
        first[i],
    ) by {
        assert(first.contains(first[i]));
        lemma_first_occurrences_contains(used, first[i]);
        let k = choose|k: int| 0 <= k < used.len() && used[k] == first[i];
        assert(declared.contains(used[k]));
        let j = choose|j: int| 0 <= j < declared.len() && declared[j] == first[i];
        assert(declared_after[j] == f(first[i]));
    }
    lemma_filter_renamed(first, f, p1, q1);
    // the declared that do not occur
    let p2 = |name: Seq<char>| used.contains(name) == false;
    let q2 = |name: Seq<char>| used_after.contains(name) == false;
    assert forall|i: int| 0 <= i < declared.len() implies q2(f(#[trigger] declared[i])) == p2(
        declared[i],
    ) by {
        let d = declared[i];
        if used.contains(d) {
            let k = choose|k: int| 0 <= k < used.len() && used[k] == d;
            assert(used_after[k] == f(d));
        }
        if used_after.contains(f(d)) {
            let k = choose|k: int| 0 <= k < used_after.len() && used_after[k] == f(d);
            assert(used_after[k] == f(used[k]));
            assert(order.contains(used[k]));
            lemma_renamed_differs(given, used[k], d);
        }
    }
    lemma_filter_renamed(declared, f, p2, q2);
    let order_after = numbering_order(declared_after, used_after);
    assert(order_after =~= order.map_values(f));
    // the place of the renamed name
    let name = declared[at];
    assert forall|i: int| 0 <= i < order.len() && f(#[trigger] order[i]) == f(name) implies order[i]
        == name by {
        assert(order.contains(order[i]));
        lemma_renamed_differs(given, order[i], name);
    }
    lemma_position_of_renamed(order, f, name);
    assert(once.vars[at].0 == f(name));
}

/// Why an array length written as an expression is not a length, with the
/// expression.
#[derive(Debug, PartialEq, Eq, Clone)]
pub enum UnresolvedArrayLength<R> {
    /// The expression is not a number literal.
    NotANumber(Expression<R>),
    /// The number literal has a type written behind it.
    TypedLiteral(Expression<R>),
    /// The number does not fit into 64 bits.
    TooLarge(Expression<R>),
}

/// The length that an expression stands for: that of a number literal without
/// a type.
pub open spec fn resolved_length<R>(e: Expression<R>) -> Result<u64, UnresolvedArrayLength<R>> {
    match e {
        Expression::Number(n, ty) => if ty is Some {
            Err(UnresolvedArrayLength::TypedLiteral(e))
        } else if n.value() > u64::MAX {
            Err(UnresolvedArrayLength::TooLarge(e))
        } else {
            Ok(n.value() as u64)
        },
        _ => Err(UnresolvedArrayLength::NotANumber(e)),
    }
}

/// The type with each array length resolved, or what is wrong with the first
/// length that cannot be: of an array, its own length comes before those of
/// its base.
pub open spec fn resolved<R>(ty: TypeView<Expression<R>>) -> Result<
    TypeView<u64>,
    UnresolvedArrayLength<R>,
>
    decreases ty,
{
    match ty {
        TypeView::Bottom => Ok(TypeView::Bottom),
        TypeView::Bool => Ok(TypeView::Bool),
        TypeView::Int => Ok(TypeView::Int),
        TypeView::Fe => Ok(TypeView::Fe),
        TypeView::String => Ok(TypeView::String),
        TypeView::Col => Ok(TypeView::Col),
        TypeView::Expr => Ok(TypeView::Expr),
        TypeView::Constr => Ok(TypeView::Constr),
        TypeView::TypeVar(name) => Ok(TypeView::TypeVar(name)),
        TypeView::Array(base, length) => {
            let own = match length {
                Some(l) => match resolved_length(l) {
                    Ok(n) => Ok(Some(n)),
                    Err(e) => Err(e),
                },
                None => Ok(None),
            };
            match own {
                Ok(n) => match resolved(*base) {
                    Ok(b) => Ok(TypeView::Array(Box::new(b), n)),
                    Err(e) => Err(e),
                },
                Err(e) => Err(e),
            }
        },
        TypeView::Tuple(items) => match resolved_all(items) {
            Ok(r) => Ok(TypeView::Tuple(r)),
            Err(e) => Err(e),
        },
        TypeView::Function(params, value) => match resolved_all(params) {
            Ok(p) => match resolved(*value) {
                Ok(v) => Ok(TypeView::Function(p, Box::new(v))),
                Err(e) => Err(e),
            },
            Err(e) => Err(e),
        },
    }
}

/// Each type of a list with its array lengths resolved, or what is wrong
/// with the first length, from left to right, that cannot be.
pub open spec fn resolved_all<R>(items: Seq<TypeView<Expression<R>>>) -> Result<
    Seq<TypeView<u64>>,
    UnresolvedArrayLength<R>,
>
    decreases items,
{
    if items.len() == 0 {
        Ok(Seq::empty())
    } else {
        match resolved_all(items.drop_last()) {
            Ok(front) => match resolved(items.last()) {
                Ok(last) => Ok(front.push(last)),
                Err(e) => Err(e),
            },
            Err(e) => Err(e),
        }
    }
}

fn resolve_length<R>(e: Expression<R>) -> (length: Result<u64, UnresolvedArrayLength<R>>)
    ensures
        length == resolved_length(e),
{
    let small = match &e {
        Expression::Number(n, ty) => {
            if ty.is_some() {
                return Err(UnresolvedArrayLength::TypedLiteral(e));
            }
            n.to_u64()
        },
        _ => {
            return Err(UnresolvedArrayLength::NotANumber(e));
        },
    };
    match small {
        Some(v) => Ok(v),
        None => Err(UnresolvedArrayLength::TooLarge(e)),
    }
}

fn resolve_all<R>(items: Vec<Type<Expression<R>>>) -> (results: Result<
    Vec<Type<u64>>,
    UnresolvedArrayLength<R>,
>)
    ensures
        match results {
            Ok(r) => resolved_all(models_of(items@)) == Ok::<_, UnresolvedArrayLength<R>>(
                models_of(r@),
            ),
            Err(e) => resolved_all(models_of(items@)) == Err::<Seq<TypeView<u64>>, _>(e),
        },
    decreases items,
{
    let mut rest = items;
    let mut results: Vec<Type<u64>> = Vec::new();
    let mut i: usize = 0;
    assert(models_of(items@).take(0) =~= Seq::<TypeView<Expression<R>>>::empty());
    assert(models_of(results@) =~= Seq::<TypeView<u64>>::empty());
    while i < rest.len()
        invariant
            i <= rest.len(),
            rest@.len() == items@.len(),
            forall|k: int| i <= k < items@.len() ==> rest@[k] == items@[k],
            resolved_all(models_of(items@).take(i as int)) == Ok::<_, UnresolvedArrayLength<R>>(
                models_of(results@),
            ),
        decreases rest.len() - i,
    {
        let item = take_item(&mut rest, i);
        proof {
            vstd::std_specs::vec::axiom_vec_index_decreases(items, i as int);
            lemma_tuple_step(items@, i as int);
        }
        match item.resolve_lengths() {
            Ok(r) => {
                proof {
                    assert(models_of(results@.push(r)) =~= models_of(results@).push(r@));
                }
                results.push(r);
            },
            Err(e) => {
                proof {
                    lemma_resolved_all_fails(models_of(items@), i as int);
                }
                return Err(e);
            },
        }
        i += 1;
    }
    proof {
        assert(models_of(items@).take(i as int) =~= models_of(items@));
    }
    Ok(results)
}

proof fn lemma_resolved_all_fails<R>(items: Seq<TypeView<Expression<R>>>, i: int)
    requires
        0 <= i < items.len(),
        resolved_all(items.take(i)) is Ok,
        resolved(items[i]) is Err,
    ensures
        resolved_all(items) == Err::<Seq<TypeView<u64>>, _>(resolved(items[i])->Err_0),
    decreases items.len(),
{
    if i == items.len() - 1 {
        assert(items.drop_last() =~= items.take(i));
    } else {
        assert(items.drop_last().take(i) =~= items.take(i));
        lemma_resolved_all_fails(items.drop_last(), i);
    }
}

impl<R> Type<Expression<R>> {
    /// The type with each array length, written as an expression, turned into
    /// the number that it stands for. Every length must be a number literal
    /// without a type that fits into 64 bits; the first one that is not, in
    /// the order in which they are checked, is reported.
    pub fn resolve_lengths(self) -> (result: Result<Type<u64>, UnresolvedArrayLength<R>>)
        ensures
            match result {
                Ok(ty) => resolved(self@) == Ok::<_, UnresolvedArrayLength<R>>(ty@),
                Err(e) => resolved(self@) == Err::<TypeView<u64>, _>(e),
            },
        decreases self,
    {
        match self {
            Type::Bottom => Ok(Type::Bottom),
            Type::Bool => Ok(Type::Bool),
            Type::Int => Ok(Type::Int),
            Type::Fe => Ok(Type::Fe),
            Type::String => Ok(Type::String),
            Type::Col => Ok(Type::Col),
            Type::Expr => Ok(Type::Expr),
            Type::Constr => Ok(Type::Constr),
            Type::TypeVar(name) => Ok(Type::TypeVar(name)),
            Type::Array(a) => {
                proof {
                    lemma_models(self);
                }
                match a.resolve_lengths() {
                    Ok(r) => {
                        let ty = Type::Array(r);
                        proof {
                            lemma_models(ty);
                        }
                        Ok(ty)
                    },
                    Err(e) => Err(e),
                }
            },
            Type::Tuple(t) => {
                proof {
                    lemma_models(self);
                }
                match t.resolve_lengths() {
                    Ok(r) => {
                        let ty = Type::Tuple(r);
                        proof {
                            lemma_models(ty);
                        }
                        Ok(ty)
                    },
                    Err(e) => Err(e),
                }
            },
            Type::Function(f) => {
                proof {
                    lemma_models(self);
                }
                match f.resolve_lengths() {
                    Ok(r) => {
                        let ty = Type::Function(r);
                        proof {
                            lemma_models(ty);
                        }
                        Ok(ty)
                    },
                    Err(e) => Err(e),
                }
            },
        }
    }
}

impl<R> ArrayType<Expression<R>> {
    /// The array type with its length and those of its base resolved.
    pub fn resolve_lengths(self) -> (result: Result<ArrayType<u64>, UnresolvedArrayLength<R>>)
        ensures
            match result {
                Ok(ty) => resolved(self@) == Ok::<_, UnresolvedArrayLength<R>>(ty@),
                Err(e) => resolved(self@) == Err::<TypeView<u64>, _>(e),
            },
        decreases self,
    {
        let length = match self.length {
            Some(l) => match resolve_length(l) {
                Ok(n) => Some(n),
                Err(e) => {
                    return Err(e);
                },
            },
            None => None,
        };
        match (*self.base).resolve_lengths() {
            Ok(base) => Ok(ArrayType { base: Box::new(base), length }),
            Err(e) => Err(e),
        }
    }
}

impl<R> TupleType<Expression<R>> {
    /// The tuple type with the array lengths of its items resolved.
    pub fn resolve_lengths(self) -> (result: Result<TupleType<u64>, UnresolvedArrayLength<R>>)
        ensures
            match result {
                Ok(ty) => resolved(self@) == Ok::<_, UnresolvedArrayLength<R>>(ty@),
                Err(e) => resolved(self@) == Err::<TypeView<u64>, _>(e),
            },
        decreases self,
    {
        match resolve_all(self.items) {
            Ok(items) => Ok(TupleType { items }),
            Err(e) => Err(e),
        }
    }
}

impl<R> FunctionType<Expression<R>> {
    /// The function type with the array lengths of its parameters and of its
    /// result resolved.
    pub fn resolve_lengths(self) -> (result: Result<FunctionType<u64>, UnresolvedArrayLength<R>>)
        ensures
            match result {
                Ok(ty) => resolved(self@) == Ok::<_, UnresolvedArrayLength<R>>(ty@),
                Err(e) => resolved(self@) == Err::<TypeView<u64>, _>(e),
            },
        decreases self,
    {
        match resolve_all(self.params) {
            Ok(params) => match (*self.value).resolve_lengths() {
                Ok(value) => Ok(FunctionType { params, value: Box::new(value) }),
                Err(e) => Err(e),
            },
            Err(e) => Err(e),
        }
    }
}

impl From<Type<u64>> for TypeScheme<u64> {
    /// The scheme of a type without declared type variables.
    fn from(value: Type<u64>) -> (scheme: TypeScheme<u64>)
        ensures
            scheme@.vars.len() == 0,
            scheme.ty == value,
    {
        TypeScheme { vars: TypeBounds(Vec::new()), ty: value }
    }
}

impl vstd::std_specs::convert::FromSpecImpl<Type<u64>> for TypeScheme<u64> {
    open spec fn obeys_from_spec() -> bool {
        false
    }

    open spec fn from_spec(value: Type<u64>) -> TypeScheme<u64> {
        arbitrary()
    }
}

/// How the declared type variables of a scheme and those of its type differ.
#[derive(Debug, PartialEq, Eq, Clone)]
pub enum TypeSchemeError {
    /// These type variables are declared and do not occur in the type.
    DeclaredButUnusedTypeVar(Vec<std::string::String>),
    /// These type variables occur in the type and are not declared.
    UsedButUndeclaredTypeVar(Vec<std::string::String>),
    /// Both at once.
    DeclaredAndUsedDiffer {
        declared_but_unused: Vec<std::string::String>,
        used_but_undeclared: Vec<std::string::String>,
    },
}

/// The names of a list that are in `others`, or else those that are not, in
/// the order of the list.
pub open spec fn names_selected(
    names: Seq<Seq<char>>,
    others: Seq<Seq<char>>,
    present: bool,
) -> Seq<Seq<char>> {
    names.filter(|name: Seq<char>| others.contains(name) == present)
}

/// The names of a list that are not in `others`, in the order of the list.
pub open spec fn names_missing_in(names: Seq<Seq<char>>, others: Seq<Seq<char>>) -> Seq<Seq<char>> {
    names_selected(names, others, false)
}

/// The names of a list that are in `others`, in the order of the list.
pub open spec fn names_found_in(names: Seq<Seq<char>>, others: Seq<Seq<char>>) -> Seq<Seq<char>> {
    names_selected(names, others, true)
}

/// The declared names of a scheme, in the order of their declaration.
pub open spec fn declared_names(vars: Seq<(Seq<char>, BTreeSet<std::string::String>)>) -> Seq<
    Seq<char>,
> {
    vars.map_values(|entry: (Seq<char>, BTreeSet<std::string::String>)| entry.0)
}

/// The declared type variables that do not occur in the type of the scheme.
pub open spec fn declared_but_unused<E>(scheme: TypeSchemeView<E>) -> Seq<Seq<char>> {
    names_missing_in(declared_names(scheme.vars), type_vars(scheme.ty))
}

/// The type variables of the type of the scheme that are not declared, each
/// once, in the order in which they first occur.
pub open spec fn used_but_undeclared<E>(scheme: TypeSchemeView<E>) -> Seq<Seq<char>> {
    names_missing_in(first_occurrences(type_vars(scheme.ty)), declared_names(scheme.vars))
}

fn holds_name(names: &Vec<&std::string::String>, name: &std::string::String) -> (found: bool)
    ensures
        found == texts_of_refs(names@).contains(name@),
{
    let mut i: usize = 0;
    while i < names.len()
        invariant
            i <= names.len(),
            forall|k: int| 0 <= k < i ==> texts_of_refs(names@)[k] != name@,
        decreases names.len() - i,
    {
        proof {
            assert(texts_of_refs(names@)[i as int] == names@[i as int]@);
        }
        if *names[i] == *name {
            return true;
        }
        i += 1;
    }
    false
}

fn selected_names(
    names: &Vec<&std::string::String>,
    others: &Vec<&std::string::String>,
    present: bool,
) -> (missing: Vec<std::string::String>)
    ensures
        crate::text::texts_of(missing@) == names_selected(
            texts_of_refs(names@),
            texts_of_refs(others@),
            present,
        ),
{
    let ghost all = texts_of_refs(names@);
    let ghost rest = texts_of_refs(others@);
    let ghost keep = |name: Seq<char>| rest.contains(name) == present;
    let mut missing: Vec<std::string::String> = Vec::new();
    let mut i: usize = 0;
    proof {
        reveal(Seq::filter);
        assert(all.take(0) =~= Seq::empty());
        assert(crate::text::texts_of(missing@) =~= Seq::empty());
    }
    while i < names.len()
        invariant
            i <= names.len(),
            all == texts_of_refs(names@),
            rest == texts_of_refs(others@),
            keep == |name: Seq<char>| rest.contains(name) == present,
            crate::text::texts_of(missing@) == all.take(i as int).filter(keep),
        decreases names.len() - i,
    {
        proof {
            reveal(Seq::filter);
            assert(all.take(i + 1).drop_last() =~= all.take(i as int));
            assert(all.take(i + 1).last() == names@[i as int]@);
        }
        if holds_name(others, names[i]) == present {
            let name = names[i].clone();
            proof {
                assert(crate::text::texts_of(missing@.push(name)) =~= crate::text::texts_of(
                    missing@,
                ).push(name@));
            }
            missing.push(name);
        }
        i += 1;
    }
    proof {
        assert(all.take(i as int) =~= all);
    }
    missing
}

impl<E> TypeScheme<E> {
    /// Checks that the declared type variables are those that occur in the
    /// type. Where they are not, the error lists what is declared and not
    /// used, and what is used and not declared.
    pub fn check_type_vars(&self) -> (checked: Result<(), TypeSchemeError>)
        ensures
            match checked {
                Ok(()) => declared_but_unused(self@).len() == 0 && used_but_undeclared(self@).len()
                    == 0,
                Err(TypeSchemeError::DeclaredButUnusedTypeVar(unused)) => {
                    &&& unused@.len() > 0
                    &&& crate::text::texts_of(unused@) == declared_but_unused(self@)
                    &&& used_but_undeclared(self@).len() == 0
                },
                Err(TypeSchemeError::UsedButUndeclaredTypeVar(undeclared)) => {
                    &&& undeclared@.len() > 0
                    &&& crate::text::texts_of(undeclared@) == used_but_undeclared(self@)
                    &&& declared_but_unused(self@).len() == 0
                },
                Err(
                    TypeSchemeError::DeclaredAndUsedDiffer {
                        declared_but_unused: unused,
                        used_but_undeclared: undeclared,
                    },
                ) => {
                    &&& unused@.len() > 0
                    &&& undeclared@.len() > 0
                    &&& crate::text::texts_of(unused@) == declared_but_unused(self@)
                    &&& crate::text::texts_of(undeclared@) == used_but_undeclared(self@)
                },
            },
    {
        let declared = self.vars.vars();
        let used = self.ty.contained_type_vars_with_repetitions();
        let used_once = self.ty.contained_type_vars();
        proof {
            assert(texts_of_refs(declared@) =~= declared_names(self@.vars));
        }
        let unused = selected_names(&declared, &used, false);
        let undeclared = selected_names(&used_once, &declared, false);
        proof {
            assert(crate::text::texts_of(unused@).len() == unused@.len());
            assert(crate::text::texts_of(undeclared@).len() == undeclared@.len());
        }
        if unused.len() == 0 && undeclared.len() == 0 {
            Ok(())
        } else if undeclared.len() == 0 {
            Err(TypeSchemeError::DeclaredButUnusedTypeVar(unused))
        } else if unused.len() == 0 {
            Err(TypeSchemeError::UsedButUndeclaredTypeVar(undeclared))
        } else {
            Err(
                TypeSchemeError::DeclaredAndUsedDiffer {
                    declared_but_unused: unused,
                    used_but_undeclared: undeclared,
                },
            )
        }
    }
}

/// Whether two types are the same but for the array lengths written in
/// them: where the one has a length, the other has one.
pub open spec fn same_but_lengths<E>(a: TypeView<E>, b: TypeView<E>) -> bool
    decreases a,
{
    match (a, b) {
        (TypeView::Array(base_a, length_a), TypeView::Array(base_b, length_b)) => {
            &&& same_but_lengths(*base_a, *base_b)
            &&& length_a is Some <==> length_b is Some
        },
        (TypeView::Tuple(items_a), TypeView::Tuple(items_b)) => same_but_lengths_each(
            items_a,
            items_b,
        ),
        (TypeView::Function(params_a, value_a), TypeView::Function(params_b, value_b)) => {
            &&& same_but_lengths_each(params_a, params_b)
            &&& same_but_lengths(*value_a, *value_b)
        },
        (TypeView::Array(_, _), _) | (TypeView::Tuple(_), _) | (TypeView::Function(_, _), _) => {
            false
        },
        _ => a == b,
    }
}

/// Whether the types of two lists are the same, each in its place, but for
/// the array lengths written in them.
pub open spec fn same_but_lengths_each<E>(a: Seq<TypeView<E>>, b: Seq<TypeView<E>>) -> bool
    decreases a,
{
    &&& a.len() == b.len()
    &&& forall|i: int| 0 <= i < a.len() ==> same_but_lengths(#[trigger] a[i], b[i])
}

/// The values of the types that a list of mutable references points to now.
pub open spec fn current_models<E>(refs: Seq<&mut Type<E>>) -> Seq<TypeView<E>> {
    Seq::new(refs.len(), |k: int| (*refs[k])@)
}

fn lengths_mut_of<'a, E>(refs: Vec<&'a mut Type<E>>, Ghost(items): Ghost<Vec<Type<E>>>) -> (found:
    Vec<&'a mut E>)
    requires
        refs@.len() <= items@.len(),
        forall|k: int| 0 <= k < refs@.len() ==> *#[trigger] refs@[k] == items@[k],
    ensures
        current_values(found@) == lengths_of_all(current_models(refs@)),
        ({
            let after = Seq::new(refs@.len(), |k: int| (*final(refs@[k]))@);
            &&& lengths_of_all(after).len() == found@.len()
            &&& forall|i: int|
                0 <= i < found@.len() ==> lengths_of_all(after)[i] == *final(#[trigger] found@[i])
            &&& same_but_lengths_each(current_models(refs@), after)
        }),
    decreases items, refs@.len(),
{
    let mut rest = refs;
    match rest.pop() {
        None => {
            let found: Vec<&mut E> = Vec::new();
            proof {
                assert(current_values(found@) =~= lengths_of_all(current_models(refs@)));
            }
            found
        },
        Some(last) => {
            proof {
                vstd::std_specs::vec::axiom_vec_index_decreases(items, refs@.len() - 1);
                assert(current_models(refs@).drop_last() =~= current_models(rest@));
            }
            let ghost last_ref = last;
            let mut found = lengths_mut_of(rest, Ghost(items));
            let mut more = last.expressions_mut();
            let ghost first = found@;
            let ghost second = more@;
            found.append(&mut more);
            proof {
                assert(found@ =~= first + second);
                assert(current_values(found@) =~= current_values(first) + current_values(second));
                let after = Seq::new(refs@.len(), |k: int| (*final(refs@[k]))@);
                let before = Seq::new(rest@.len(), |k: int| (*final(rest@[k]))@);
                assert(after.drop_last() =~= before);
                assert(after.last() == (*final(last_ref))@);
                assert(lengths_of_all(after) == lengths_of_all(before) + lengths(
                    (*final(last_ref))@,
                ));
                assert forall|i: int| 0 <= i < found@.len() implies lengths_of_all(after)[i]
                    == *final(#[trigger] found@[i]) by {
                    if i < first.len() {
                        assert(found@[i] == first[i]);
                    } else {
                        assert(found@[i] == second[i - first.len()]);
                    }
                }
                assert forall|k: int| 0 <= k < refs@.len() implies same_but_lengths(
                    #[trigger] current_models(refs@)[k],
                    after[k],
                ) by {
                    if k < rest@.len() {
                        assert(same_but_lengths(current_models(rest@)[k], before[k]));
                    }
                }
            }
            found
        },
    }
}

impl<E> Type<E> {
    /// Mutable references to the array lengths written in the type, in the
    /// order in which they are written. What is written through them is what
    /// the lengths are afterwards; nothing else of the type changes.
    pub fn expressions_mut(&mut self) -> (found: Vec<&mut E>)
        ensures
            current_values(found@) == lengths(old(self)@),
            lengths(final(self)@).len() == found@.len(),
            forall|i: int|
                0 <= i < found@.len() ==> lengths(final(self)@)[i] == *final(#[trigger] found@[i]),
            same_but_lengths(old(self)@, final(self)@),
        decreases *old(self),
    {
        match self {
            Type::Array(a) => {
                proof {
                    lemma_models(*old(self));
                }
                let mut found = (&mut *a.base).expressions_mut();
                match &mut a.length {
                    Some(length) => {
                        let ghost first = found@;
                        let ghost value = *length;
                        found.push(length);
                        proof {
                            assert(current_values(found@) =~= current_values(first).push(value));
                        }
                    },
                    None => {},
                }
                found
            },
            Type::Tuple(t) => {
                proof {
                    lemma_models(*old(self));
                }
                let ghost items = t.items;
                let refs = each_mut(&mut t.items);
                proof {
                    assert(current_models(refs@) =~= models_of(items@));
                    let after = Seq::new(refs@.len(), |k: int| (*final(refs@[k]))@);
                    assert(models_of(after_borrow(t.items)@) =~= after);
                    lemma_models(after_borrow(*self));
                }
                lengths_mut_of(refs, Ghost(items))
            },
            Type::Function(f) => {
                proof {
                    lemma_models(*old(self));
                }
                let ghost params = f.params;
                let refs = each_mut(&mut f.params);
                proof {
                    assert(current_models(refs@) =~= models_of(params@));
                    let after = Seq::new(refs@.len(), |k: int| (*final(refs@[k]))@);
                    assert(models_of(after_borrow(f.params)@) =~= after);
                    lemma_models(after_borrow(*self));
                }
                let mut found = lengths_mut_of(refs, Ghost(params));
                let mut more = (&mut *f.value).expressions_mut();
                let ghost first = found@;
                let ghost second = more@;
                found.append(&mut more);
                proof {
                    assert(found@ =~= first + second);
                    assert(current_values(found@) =~= current_values(first) + current_values(
                        second,
                    ));
                }
                found
            },
            _ => {
                let found: Vec<&mut E> = Vec::new();
                proof {
                    assert(current_values(found@) =~= lengths(old(self)@));
                }
                found
            },
        }
    }
}

impl<E> ArrayType<E> {
    /// Mutable references to the array lengths written in the type: those of
    /// the base, then its own.
    pub fn expressions_mut(&mut self) -> (found: Vec<&mut E>)
        ensures
            current_values(found@) == lengths(old(self)@),
            lengths(final(self)@).len() == found@.len(),
            forall|i: int|
                0 <= i < found@.len() ==> lengths(final(self)@)[i] == *final(#[trigger] found@[i]),
            same_but_lengths(old(self)@, final(self)@),
    {
        let mut found = (&mut *self.base).expressions_mut();
        match &mut self.length {
            Some(length) => {
                let ghost first = found@;
                let ghost value = *length;
                found.push(length);
                proof {
                    assert(current_values(found@) =~= current_values(first).push(value));
                }
            },
            None => {},
        }
        found
    }
}

impl<E> TupleType<E> {
    /// Mutable references to the array lengths written in the items, from
    /// left to right.
    pub fn expressions_mut(&mut self) -> (found: Vec<&mut E>)
        ensures
            current_values(found@) == lengths(old(self)@),
            lengths(final(self)@).len() == found@.len(),
            forall|i: int|
                0 <= i < found@.len() ==> lengths(final(self)@)[i] == *final(#[trigger] found@[i]),
            same_but_lengths(old(self)@, final(self)@),
    {
        let ghost items = self.items;
        let refs = each_mut(&mut self.items);
        proof {
            assert(current_models(refs@) =~= models_of(items@));
            let after = Seq::new(refs@.len(), |k: int| (*final(refs@[k]))@);
            assert(models_of(after_borrow(self.items)@) =~= after);
        }
        lengths_mut_of(refs, Ghost(items))
    }
}

impl<E> FunctionType<E> {
    /// Mutable references to the array lengths written in the parameters,
    /// from left to right, and then to those written in the result.
    pub fn expressions_mut(&mut self) -> (found: Vec<&mut E>)
        ensures
            current_values(found@) == lengths(old(self)@),
            lengths(final(self)@).len() == found@.len(),
            forall|i: int|
                0 <= i < found@.len() ==> lengths(final(self)@)[i] == *final(#[trigger] found@[i]),
            same_but_lengths(old(self)@, final(self)@),
    {
        let ghost params = self.params;
        let refs = each_mut(&mut self.params);
        proof {
            assert(current_models(refs@) =~= models_of(params@));
            let after = Seq::new(refs@.len(), |k: int| (*final(refs@[k]))@);
            assert(models_of(after_borrow(self.params)@) =~= after);
        }
        let mut found = lengths_mut_of(refs, Ghost(params));
        let mut more = (&mut *self.value).expressions_mut();
        let ghost first = found@;
        let ghost second = more@;
        found.append(&mut more);
        proof {
            assert(found@ =~= first + second);
            assert(current_values(found@) =~= current_values(first) + current_values(second));
        }
        found
    }
}

/// Whether the text `a` comes before the text `b`: at the first place where
/// they differ `a` has the smaller character, or `a` ends there and `b`
/// does not.
pub open spec fn text_before(a: Seq<char>, b: Seq<char>) -> bool
    decreases a.len(),
{
    if b.len() == 0 {
        false
    } else if a.len() == 0 {
        true
    } else if a[0] != b[0] {
        (a[0] as u32) < (b[0] as u32)
    } else {
        text_before(a.drop_first(), b.drop_first())
    }
}

/// Whether the set holds a string with the given text.
pub open spec fn holds_text(set: BTreeSet<std::string::String>, text: Seq<char>) -> bool {
    exists|s: std::string::String| #[trigger] set@.contains(s) && s@ == text
}

/// Whether `names` are the texts of the strings of the set, each once, in
/// ascending order.
pub open spec fn lists_in_order(names: Seq<Seq<char>>, set: BTreeSet<std::string::String>) -> bool {
    &&& forall|i: int, j: int|
        0 <= i < j < names.len() ==> text_before(#[trigger] names[i], #[trigger] names[j])
    &&& forall|i: int| 0 <= i < names.len() ==> holds_text(set, #[trigger] names[i])
    &&& forall|s: std::string::String| #[trigger] set@.contains(s) ==> names.contains(s@)
}

/// `BTreeSet::iter`, collected: the strings of the set, each once, in
/// ascending order. Strings are ordered by their characters, the shorter
/// of two first where it begins the longer.
#[verifier::external_body]
fn strings_in_order(set: &BTreeSet<std::string::String>) -> (items: Vec<&std::string::String>)
    ensures
        lists_in_order(texts_of_refs(items@), *set),
{
    set.iter().collect()
}

/// What stands between a variable and its traits.
pub open spec fn traits_mark() -> Seq<char> {
    seq![':', ' ']
}

/// What stands between two traits.
pub open spec fn traits_separator() -> Seq<char> {
    seq![' ', '+', ' ']
}

/// What stands between two declarations.
pub open spec fn declarations_separator() -> Seq<char> {
    seq![',', ' ']
}

/// How one declared variable is written: its name and, where it has
/// traits, `: ` and the traits with ` + ` between them.
pub open spec fn declaration_text(name: Seq<char>, traits: Seq<Seq<char>>) -> Seq<char> {
    if traits.len() == 0 {
        name
    } else {
        name + traits_mark() + crate::text::join_with(traits, traits_separator())
    }
}

/// Whether `text` is how the declared variables are written, one after the
/// other with `, ` between them, each with the traits of its set in
/// ascending order.
pub open spec fn is_declarations_text(
    vars: Seq<(Seq<char>, BTreeSet<std::string::String>)>,
    text: Seq<char>,
) -> bool {
    exists|traits: Seq<Seq<Seq<char>>>|
        {
            &&& traits.len() == vars.len()
            &&& forall|i: int|
                0 <= i < vars.len() ==> lists_in_order(#[trigger] traits[i], vars[i].1)
            &&& text == crate::text::join_with(
                Seq::new(vars.len(), |i: int| declaration_text(vars[i].0, traits[i])),
                declarations_separator(),
            )
        }
}

fn owned_names(names: &Vec<&std::string::String>) -> (owned: Vec<std::string::String>)
    ensures
        crate::text::texts_of(owned@) == texts_of_refs(names@),
{
    let mut owned: Vec<std::string::String> = Vec::new();
    let mut i: usize = 0;
    while i < names.len()
        invariant
            i <= names.len(),
            owned@.len() == i,
            forall|k: int| 0 <= k < i ==> owned@[k]@ == names@[k]@,
        decreases names.len() - i,
    {
        owned.push(names[i].clone());
        i += 1;
    }
    assert(crate::text::texts_of(owned@) =~= texts_of_refs(names@));
    owned
}

impl TypeBounds {
    /// Writes the declared variables, one after the other with `, ` between
    /// them: each by its name and, where it has traits, `: ` and the traits
    /// in ascending order with ` + ` between them.
    pub fn to_string(&self) -> (text: std::string::String)
        ensures
            is_declarations_text(self@, text@),
    {
        let mut entries: Vec<std::string::String> = Vec::new();
        let ghost mut traits: Seq<Seq<Seq<char>>> = Seq::empty();
        let mut i: usize = 0;
        proof {
            reveal_strlit(": ");
            reveal_strlit(" + ");
            reveal_strlit(", ");
            assert(": "@ =~= traits_mark());
            assert(" + "@ =~= traits_separator());
            assert(", "@ =~= declarations_separator());
        }
        while i < self.0.len()
            invariant
                i <= self.0.len(),
                entries@.len() == i,
                traits.len() == i,
                ": "@ == traits_mark(),
                " + "@ == traits_separator(),
                forall|k: int| 0 <= k < i ==> lists_in_order(#[trigger] traits[k], self.0@[k].1),
                forall|k: int|
                    0 <= k < i ==> (#[trigger] entries@[k])@ == declaration_text(
                        self.0@[k].0@,
                        traits[k],
                    ),
            decreases self.0.len() - i,
        {
            let names = strings_in_order(&self.0[i].1);
            let mut entry = self.0[i].0.clone();
            if names.len() > 0 {
                let joined = crate::text::format_joined(&owned_names(&names), " + ");
                entry.append(": ");
                entry.append(joined.as_str());
            }
            proof {
                assert(texts_of_refs(names@).len() == names@.len());
                traits = traits.push(texts_of_refs(names@));
            }
            entries.push(entry);
            i += 1;
        }
        let text = crate::text::format_joined(&entries, ", ");
        proof {
            let vars = self@;
            assert(crate::text::texts_of(entries@) =~= Seq::new(
                vars.len(),
                |k: int| declaration_text(vars[k].0, traits[k]),
            ));
            assert forall|k: int| 0 <= k < vars.len() implies lists_in_order(
                #[trigger] traits[k],
                vars[k].1,
            ) by {
                assert(vars[k].1 == self.0@[k].1);
            }
        }
        text
    }
}

impl<E> TypeScheme<E> {
    /// Writes the declared type variables between angle brackets, or
    /// nothing where none is declared.
    pub fn type_vars_to_string(&self) -> (text: std::string::String)
        ensures
            self@.vars.len() == 0 ==> text@ == Seq::<char>::empty(),
            self@.vars.len() > 0 ==> exists|declarations: Seq<char>|
                #[trigger] is_declarations_text(self@.vars, declarations) && text@ == seq!['<']
                    + declarations + seq!['>'],
    {
        if self.vars.is_empty() {
            std::string::String::new()
        } else {
            proof {
                reveal_strlit("<");
                reveal_strlit(">");
                assert("<"@ =~= seq!['<']);
                assert(">"@ =~= seq!['>']);
            }
            let declarations = self.vars.to_string();
            let mut text = "<".to_owned();
            text.append(declarations.as_str());
            text.append(">");
            assert(is_declarations_text(self@.vars, declarations@));
            text
        }
    }
}

} // verus!
