//! Lists of results: the values of all, or the first error.

use vstd::prelude::*;

verus! {

/// The results in order if all are `Ok`, else the first error.
pub open spec fn collect<T, E>(results: Seq<Result<T, E>>) -> Result<Seq<T>, E>
    decreases results.len(),
{
    if results.len() == 0 {
        Ok(Seq::empty())
    } else {
        match collect(results.drop_last()) {
            Err(e) => Err(e),
            Ok(values) => match results.last() {
                Ok(value) => Ok(values.push(value)),
                Err(e) => Err(e),
            },
        }
    }
}

/// A result with each side taken by its value.
pub open spec fn result_view<T: View, E: View>(r: Result<T, E>) -> Result<T::V, E::V> {
    match r {
        Ok(value) => Ok(value@),
        Err(e) => Err(e@),
    }
}

/// The first results with one more: what `collect` makes of them.
pub proof fn lemma_collect_step<T, E>(results: Seq<Result<T, E>>, n: int)
    requires
        0 <= n < results.len(),
    ensures
        collect(results.take(n + 1)) == match collect(results.take(n)) {
            Err(e) => Err(e),
            Ok(values) => match results[n] {
                Ok(value) => Ok(values.push(value)),
                Err(e) => Err(e),
            },
        },
{
    assert(results.take(n + 1).drop_last() =~= results.take(n));
}

/// An error among the first results is the error of the whole list.
pub proof fn lemma_collect_error<T, E>(results: Seq<Result<T, E>>, n: int)
    requires
        0 <= n <= results.len(),
        collect(results.take(n)) is Err,
    ensures
        collect(results) == collect(results.take(n)),
    decreases results.len(),
{
    if n == results.len() {
        assert(results.take(n) =~= results);
    } else {
        assert(results.drop_last().take(n) =~= results.take(n));
        lemma_collect_error(results.drop_last(), n);
    }
}

/// Results that are all `Ok` collect to their values, in order.
pub proof fn lemma_collect_all_ok<T, E>(results: Seq<Result<T, E>>)
    requires
        forall|i: int| 0 <= i < results.len() ==> (#[trigger] results[i]) is Ok,
    ensures
        collect(results) is Ok,
        collect(results)->Ok_0.len() == results.len(),
        forall|i: int|
            0 <= i < results.len() ==> collect(results)->Ok_0[i] == (#[trigger] results[i])->Ok_0,
    decreases results.len(),
{
    if results.len() > 0 {
        let init = results.drop_last();
        assert forall|i: int| 0 <= i < init.len() implies (#[trigger] init[i]) is Ok by {
            assert(init[i] == results[i]);
        }
        lemma_collect_all_ok(init);
        assert forall|i: int| 0 <= i < results.len() implies collect(results)->Ok_0[i] == (
        #[trigger] results[i])->Ok_0 by {
            if i < init.len() {
                assert(init[i] == results[i]);
            }
        }
    }
}

/// Where a list collects to `Ok`, every result in it is `Ok`, and the values
/// are those of the results, in order.
pub proof fn lemma_collect_ok<T, E>(results: Seq<Result<T, E>>)
    requires
        collect(results) is Ok,
    ensures
        collect(results)->Ok_0.len() == results.len(),
        forall|i: int|
            0 <= i < results.len() ==> (#[trigger] results[i]) == Ok::<T, E>(
                collect(results)->Ok_0[i],
            ),
    decreases results.len(),
{
    if results.len() > 0 {
        let init = results.drop_last();
        lemma_collect_ok(init);
        assert forall|i: int| 0 <= i < results.len() implies (#[trigger] results[i]) is Ok by {
            if i < init.len() {
                assert(init[i] == results[i]);
            }
        }
        lemma_collect_all_ok(results);
    }
}

/// The first error among the results is the error of the whole list.
pub proof fn lemma_collect_first_error<T, E>(results: Seq<Result<T, E>>, n: int)
    requires
        0 <= n < results.len(),
        results[n] is Err,
        forall|i: int| 0 <= i < n ==> (#[trigger] results[i]) is Ok,
    ensures
        collect(results) == Err::<Seq<T>, E>(results[n]->Err_0),
{
    lemma_collect_all_ok(results.take(n));
    lemma_collect_step(results, n);
    lemma_collect_error(results, n + 1);
}

/// Where a list collects to an error, that error is the first one in the
/// list; the index of it is handed back.
pub proof fn lemma_collect_err<T, E>(results: Seq<Result<T, E>>) -> (n: int)
    requires
        collect(results) is Err,
    ensures
        0 <= n < results.len(),
        results[n] == Err::<T, E>(collect(results)->Err_0),
        forall|i: int| 0 <= i < n ==> (#[trigger] results[i]) is Ok,
    decreases results.len(),
{
    let init = results.drop_last();
    if collect(init) is Err {
        let n = lemma_collect_err(init);
        assert(init[n] == results[n]);
        assert forall|i: int| 0 <= i < n implies (#[trigger] results[i]) is Ok by {
            assert(init[i] == results[i]);
        }
        n
    } else {
        lemma_collect_ok(init);
        assert forall|i: int| 0 <= i < init.len() implies (#[trigger] results[i]) is Ok by {
            assert(init[i] == results[i]);
        }
        results.len() - 1
    }
}

} // verus!
