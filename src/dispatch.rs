use crate::config::Mode;
use crate::arith::lemma_ceil_div_exact;
use crate::partition::{buckets_view, chunk, chunk_spec, chunk_size, stripe, stripe_spec};
use crate::template::{has_no_placeholder, replace_inputs, substituted};
use vstd::prelude::*;

verus! {

/// The buckets that `mode` makes of `lines` for `k` workers.
pub open spec fn partition_spec(mode: Mode, lines: Seq<String>, k: int) -> Seq<Seq<String>> {
    match mode {
        Mode::Stripe => stripe_spec(lines, k),
        Mode::Chunk => chunk_spec(lines, k),
    }
}

/// The argument vector of every worker of a run.
///
/// An empty template runs nothing. Without input, each of the `k` workers runs
/// the template as it is; with input, each bucket gives one worker, whose
/// template has its placeholder replaced by the bucket's lines.
pub open spec fn commands_spec(
    template: Seq<String>,
    mode: Mode,
    k: int,
    input: Option<Seq<String>>,
) -> Seq<Seq<String>> {
    if template.len() == 0 {
        Seq::empty()
    } else {
        match input {
            None => Seq::new(k as nat, |j: int| template),
            Some(lines) => partition_spec(mode, lines, k).map_values(
                |b: Seq<String>| substituted(template, b),
            ),
        }
    }
}

/// Splits `input` over `num` workers in the given mode.
pub fn partition(mode: Mode, num: usize, input: &Vec<String>) -> (buckets: Vec<Vec<String>>)
    requires
        num >= 1,
    ensures
        buckets_view(buckets@) == partition_spec(mode, input@, num as int),
{
    match mode {
        Mode::Stripe => stripe(num, input),
        Mode::Chunk => chunk(num, input),
    }
}

/// Splitting the same lines with the same mode and worker count gives the
/// same buckets each time: the result depends on nothing else.
pub proof fn lemma_partition_deterministic(
    mode: Mode,
    k: int,
    lines: Seq<String>,
    again: Seq<String>,
    first: Seq<Vec<String>>,
    second: Seq<Vec<String>>,
)
    requires
        k >= 1,
        lines == again,
        buckets_view(first) == partition_spec(mode, lines, k),
        buckets_view(second) == partition_spec(mode, again, k),
    ensures
        buckets_view(first) == buckets_view(second),
{
}

/// With no more lines than workers, either mode gives each line a bucket of its own.
pub proof fn lemma_short_input(mode: Mode, lines: Seq<String>, k: int)
    requires
        k >= 1,
        lines.len() <= k,
    ensures
        partition_spec(mode, lines, k).len() == lines.len(),
        forall|j: int|
            0 <= j < lines.len() ==> #[trigger] partition_spec(mode, lines, k)[j] == seq![
                lines[j],
            ],
{
    let n = lines.len() as int;
    let sp = partition_spec(mode, lines, k);
    match mode {
        Mode::Stripe => {
            assert forall|j: int| 0 <= j < n implies #[trigger] sp[j] == seq![lines[j]] by {
                lemma_ceil_div_exact(n - j, k, 1);
                assert(sp[j] =~= seq![lines[j]]);
            }
        },
        Mode::Chunk => {
            if n > 0 {
                lemma_ceil_div_exact(n, k, 1);
                assert(chunk_size(n, k) == 1);
                lemma_ceil_div_exact(n, 1, n);
            }
            assert forall|j: int| 0 <= j < n implies #[trigger] sp[j] == seq![lines[j]] by {
                assert(sp[j] =~= seq![lines[j]]);
            }
        },
    }
}

/// A template without a placeholder token is used as it stands, whatever the lines.
pub proof fn lemma_no_placeholder_unchanged(template: Seq<String>, lines: Seq<String>)
    requires
        has_no_placeholder(template),
    ensures
        substituted(template, lines) == template,
{
}

/// The argument vectors of a run's workers, one per bucket of `input`, or
/// `workers` copies of the template where there is no input.
pub fn worker_commands(
    template: &Vec<String>,
    mode: Mode,
    workers: usize,
    input: Option<&Vec<String>>,
) -> (cmds: Vec<Vec<String>>)
    requires
        workers >= 1,
    ensures
        buckets_view(cmds@) == commands_spec(
            template@,
            mode,
            workers as int,
            match input {
                Some(v) => Some(v@),
                None => None,
            },
        ),
{
    let mut cmds: Vec<Vec<String>> = Vec::new();
    if template.len() == 0 {
        assert(buckets_view(cmds@) =~= Seq::<Seq<String>>::empty());
        return cmds;
    }
    match input {
        None => {
            let mut j: usize = 0;
            while j < workers
                invariant
                    j <= workers,
                    cmds@.len() == j,
                    forall|b: int| 0 <= b < j ==> (#[trigger] cmds@[b])@ == template@,
                decreases workers - j,
            {
                cmds.push(template.clone());
                j = j + 1;
            }
            assert(buckets_view(cmds@) =~= Seq::new(workers as nat, |j: int| template@));
        },
        Some(lines) => {
            let buckets = partition(mode, workers, lines);
            let ghost spec_buckets = partition_spec(mode, lines@, workers as int);
            let mut j: usize = 0;
            while j < buckets.len()
                invariant
                    buckets_view(buckets@) == spec_buckets,
                    j <= buckets@.len(),
                    cmds@.len() == j,
                    forall|b: int|
                        0 <= b < j ==> (#[trigger] cmds@[b])@ == substituted(
                            template@,
                            spec_buckets[b],
                        ),
                decreases buckets.len() - j,
            {
                let mut cmd = template.clone();
                assert(buckets@[j as int]@ == spec_buckets[j as int]);
                replace_inputs(&mut cmd, buckets[j].as_slice());
                cmds.push(cmd);
                j = j + 1;
            }
            assert(buckets_view(cmds@) =~= spec_buckets.map_values(
                |b: Seq<String>| substituted(template@, b),
            ));
        },
    }
    cmds
}

} // verus!
