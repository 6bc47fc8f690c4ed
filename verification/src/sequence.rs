//! Helpers on sequences: collecting the results of fallible steps, all values
//! or the first failure, and borrowing each item of a list mutably.

use vstd::prelude::*;

verus! {

/// The values of all results where none is a failure, else the first failure.
pub open spec fn collected<A, E>(results: Seq<Result<A, E>>) -> Result<Seq<A>, E>
    decreases results.len(),
{
    if results.len() == 0 {
        Ok(Seq::empty())
    } else {
        match collected(results.drop_last()) {
            Ok(front) => match results.last() {
                Ok(a) => Ok(front.push(a)),
                Err(e) => Err(e),
            },
            Err(e) => Err(e),
        }
    }
}

/// Collecting one result more: on a failure before, that failure; else the
/// value is appended, or the new failure is the first.
pub proof fn lemma_collected_step<A, E>(results: Seq<Result<A, E>>, i: int)
    requires
        0 <= i < results.len(),
    ensures
        collected(results.take(i + 1)) == match collected(results.take(i)) {
            Ok(front) => match results[i] {
                Ok(a) => Ok(front.push(a)),
                Err(e) => Err(e),
            },
            Err(e) => Err(e),
        },
        collected(results.take(0)) == Ok::<Seq<A>, E>(Seq::empty()),
        collected(results.take(results.len() as int)) == collected(results),
{
    assert(results.take(i + 1).drop_last() =~= results.take(i));
    assert(results.take(results.len() as int) =~= results);
}

/// A failure among the first results is the failure of the whole.
pub proof fn lemma_collected_fails<A, E>(results: Seq<Result<A, E>>, i: int)
    requires
        0 <= i <= results.len(),
        collected(results.take(i)) is Err,
    ensures
        collected(results) == collected(results.take(i)),
    decreases results.len() - i,
{
    if i < results.len() {
        lemma_collected_step(results, i);
        lemma_collected_fails(results, i + 1);
    } else {
        assert(results.take(i) =~= results);
    }
}

/// What is collected holds the value of each result in its place.
pub proof fn lemma_collected_values<A, E>(results: Seq<Result<A, E>>)
    ensures
        collected(results) matches Ok(values) ==> {
            &&& values.len() == results.len()
            &&& forall|i: int|
                0 <= i < results.len() ==> #[trigger] results[i] == Ok::<A, E>(values[i])
        },
    decreases results.len(),
{
    if results.len() > 0 {
        lemma_collected_values(results.drop_last());
        if let Ok(front) = collected(results.drop_last()) {
            if let Ok(a) = results.last() {
                let values = front.push(a);
                assert forall|i: int| 0 <= i < results.len() implies #[trigger] results[i]
                    == Ok::<A, E>(values[i]) by {
                    if i < results.len() - 1 {
                        assert(results.drop_last()[i] == results[i]);
                    }
                }
            }
        }
    }
}

/// Results that are all values are collected to these values.
pub proof fn lemma_collected_all<A, E>(results: Seq<Result<A, E>>, values: Seq<A>)
    requires
        results.len() == values.len(),
        forall|i: int| 0 <= i < results.len() ==> #[trigger] results[i] == Ok::<A, E>(values[i]),
    ensures
        collected(results) == Ok::<Seq<A>, E>(values),
    decreases results.len(),
{
    if results.len() > 0 {
        let front = results.drop_last();
        assert forall|i: int| 0 <= i < front.len() implies #[trigger] front[i] == Ok::<A, E>(
            values.drop_last()[i],
        ) by {
            assert(front[i] == results[i]);
        }
        lemma_collected_all(front, values.drop_last());
        assert(results.last() == results[results.len() - 1]);
        assert(values.drop_last().push(values.last()) =~= values);
    } else {
        assert(values =~= Seq::empty());
    }
}

/// What a list of mutable references points to now.
pub open spec fn current_values<A>(found: Seq<&mut A>) -> Seq<A> {
    Seq::new(found.len(), |i: int| *found[i])
}

fn slice_each_mut<'a, A>(items: &'a mut [A]) -> (found: Vec<&'a mut A>)
    ensures
        current_values(found@) == old(items)@,
        final(items)@.len() == found@.len(),
        forall|i: int| 0 <= i < found@.len() ==> #[trigger] final(items)@[i] == *final(found@[i]),
    decreases old(items)@.len(),
{
    let n = items.len();
    let ghost all = items@;
    if n == 0 {
        let found: Vec<&mut A> = Vec::new();
        proof {
            assert(current_values(found@) =~= all);
        }
        found
    } else if n == 1 {
        let mut found: Vec<&mut A> = Vec::new();
        match items.last_mut() {
            Some(last) => {
                let ghost value = *last;
                found.push(last);
                proof {
                    assert(current_values(found@) =~= seq![value]);
                    assert(all =~= seq![value]);
                }
            },
            None => {},
        }
        found
    } else {
        let middle = n / 2;
        let (front, back) = items.split_at_mut(middle);
        let mut found = slice_each_mut(front);
        let mut more = slice_each_mut(back);
        let ghost first = found@;
        let ghost second = more@;
        found.append(&mut more);
        proof {
            assert(found@ =~= first + second);
            assert(current_values(found@) =~= current_values(first) + current_values(second));
            assert(all =~= all.subrange(0, middle as int) + all.subrange(middle as int, n as int));
        }
        found
    }
}

/// One mutable reference to each item, in order. Each points to the item in
/// its place, and what the list holds in the end is what the references
/// point to in the end.
pub fn each_mut<A>(items: &mut Vec<A>) -> (found: Vec<&mut A>)
    ensures
        current_values(found@) == old(items)@,
        final(items)@.len() == found@.len(),
        forall|i: int| 0 <= i < found@.len() ==> #[trigger] final(items)@[i] == *final(found@[i]),
{
    slice_each_mut(items.as_mut_slice())
}

} // verus!
