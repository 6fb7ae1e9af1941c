use vstd::prelude::*;

verus! {

/// What one worker left behind: its position among the workers, its exit
/// code (none where the process ended without one) and its standard output.
pub struct WorkerResult {
    pub index: usize,
    pub code: Option<i32>,
    pub stdout: String,
}

/// `results` holds one result for each worker `0 .. results.len()`, in any order.
pub open spec fn one_per_worker(results: Seq<WorkerResult>) -> bool {
    &&& forall|p: int| 0 <= p < results.len() ==> (#[trigger] results[p]).index < results.len()
    &&& forall|p: int, q: int|
        0 <= p < results.len() && 0 <= q < results.len() && p != q ==> (#[trigger] results[p]).index
            != (#[trigger] results[q]).index
    &&& forall|i: int| 0 <= i < results.len() ==> #[trigger] has_result_of(results, i)
}

/// Some entry of `results` belongs to worker `i`.
pub open spec fn has_result_of(results: Seq<WorkerResult>, i: int) -> bool {
    exists|p: int| 0 <= p < results.len() && (#[trigger] results[p]).index == i
}

/// Whether entry `i` of `results` is the result of worker `i`, for every `i`;
/// results collected that way hold one result per worker.
pub fn in_worker_order(results: &Vec<WorkerResult>) -> (r: bool)
    ensures
        r == (forall|i: int| 0 <= i < results@.len() ==> (#[trigger] results@[i]).index == i),
        r ==> one_per_worker(results@),
{
    let mut i: usize = 0;
    while i < results.len()
        invariant
            i <= results@.len(),
            forall|s: int| 0 <= s < i ==> (#[trigger] results@[s]).index == s,
        decreases results.len() - i,
    {
        if results[i].index != i {
            return false;
        }
        i = i + 1;
    }
    assert forall|i: int| 0 <= i < results@.len() implies #[trigger] has_result_of(results@, i) by {
        assert(results@[i].index == i);
    }
    true
}

/// Puts results that came back in completion order into worker order:
/// entry `i` of the answer is the result of worker `i`.
pub fn order_results(completed: Vec<WorkerResult>) -> (ordered: Vec<WorkerResult>)
    requires
        one_per_worker(completed@),
    ensures
        ordered@.len() == completed@.len(),
        forall|i: int| 0 <= i < ordered@.len() ==> (#[trigger] ordered@[i]).index == i,
        forall|p: int|
            0 <= p < completed@.len() ==> ordered@[(#[trigger] completed@[p]).index as int]
                == completed@[p],
{
    let ghost orig = completed@;
    let n = completed.len();
    let mut completed = completed;
    let mut slots: Vec<Option<WorkerResult>> = Vec::new();
    let mut i: usize = 0;
    while i < n
        invariant
            i <= n,
            slots@.len() == i,
            forall|s: int| 0 <= s < i ==> (#[trigger] slots@[s]) is None,
        decreases n - i,
    {
        slots.push(None);
        i = i + 1;
    }
    while completed.len() > 0
        invariant
            n == orig.len(),
            one_per_worker(orig),
            completed@.len() <= n,
            completed@ == orig.take(completed@.len() as int),
            slots@.len() == n,
            forall|p: int|
                completed@.len() <= p < n ==> slots@[(#[trigger] orig[p]).index as int] == Some(
                    orig[p],
                ),
        decreases completed.len(),
    {
        let ghost m = completed@.len() as int;
        let ghost before = slots@;
        let item = completed.pop().unwrap();
        assert(item == orig[m - 1]);
        let idx = item.index;
        slots.set(idx, Some(item));
        assert forall|p: int| completed@.len() <= p < n implies slots@[(
        #[trigger] orig[p]).index as int] == Some(orig[p]) by {
            if p != m - 1 {
                assert(orig[p].index != orig[m - 1].index);
                assert(before[orig[p].index as int] == Some(orig[p]));
            }
        }
        assert(completed@ =~= orig.take(completed@.len() as int));
    }
    let mut ordered: Vec<WorkerResult> = Vec::new();
    let mut j: usize = 0;
    while j < n
        invariant
            n == orig.len(),
            one_per_worker(orig),
            j <= n,
            slots@.len() == n - j,
            ordered@.len() == j,
            forall|s: int| 0 <= s < j ==> (#[trigger] ordered@[s]).index == s,
            forall|p: int|
                0 <= p < n && (#[trigger] orig[p]).index < j ==> ordered@[orig[p].index as int]
                    == orig[p],
            forall|p: int|
                0 <= p < n && (#[trigger] orig[p]).index >= j ==> slots@[orig[p].index - j]
                    == Some(orig[p]),
        decreases n - j,
    {
        let ghost before = slots@;
        let ghost prev = ordered@;
        assert(has_result_of(orig, j as int));
        let ghost w = choose|p: int| 0 <= p < n && (#[trigger] orig[p]).index == j;
        assert(before[0] == Some(orig[w]));
        let slot = slots.remove(0);
        match slot {
            Some(item) => {
                ordered.push(item);
            },
            None => {
                assert(false);
            },
        }
        assert(ordered@[j as int] == orig[w]);
        assert forall|p: int| 0 <= p < n && (#[trigger] orig[p]).index < j + 1 implies ordered@[
            orig[p].index as int] == orig[p] by {
            if orig[p].index == j {
                if p != w {
                    assert(orig[p].index != orig[w].index);
                }
            } else {
                assert(prev[orig[p].index as int] == orig[p]);
            }
        }
        assert forall|p: int| 0 <= p < n && (#[trigger] orig[p]).index >= j + 1 implies slots@[
            orig[p].index - (j + 1)] == Some(orig[p]) by {
            assert(before[orig[p].index - j] == Some(orig[p]));
        }
        j = j + 1;
    }
    ordered
}

} // verus!
