//! The decisions of Flux Balance and Flux Variability Analysis that do not
//! need a solver: how requested reactions are split among workers, and how a
//! failed solve is reported.
use vstd::prelude::*;

use crate::number::Real;

verus! {

/// Relies on `num_cpus::get`: the number of logical CPUs this process may
/// use, which its documentation says is always at least 1.
#[verifier::external_body]
fn available_workers() -> (r: usize)
    ensures
        r >= 1,
{
    num_cpus::get()
}

/// First position of the `i`-th of `w` jobs over `n` reactions: every job
/// but the last takes `n / w` reactions.
pub open spec fn job_start(n: int, w: int, i: int) -> int {
    i * (n / w)
}

/// One past the last position of the `i`-th of `w` jobs over `n` reactions;
/// the last job takes what the division leaves over.
pub open spec fn job_end(n: int, w: int, i: int) -> int {
    if i == w - 1 {
        n
    } else {
        (i + 1) * (n / w)
    }
}

/// Each job lies inside `0..n`, and a job ends where the next one starts.
pub proof fn lemma_job_bounds(n: int, w: int, i: int)
    requires
        0 <= n,
        1 <= w,
        0 <= i < w,
    ensures
        0 <= job_start(n, w, i) <= job_end(n, w, i) <= n,
        i + 1 < w ==> job_end(n, w, i) == job_start(n, w, i + 1),
        job_start(n, w, 0) == 0,
{
    let q = n / w;
    assert(0 <= q) by (nonlinear_arith)
        requires
            0 <= n,
            1 <= w,
            q == n / w,
    ;
    assert(w * q <= n) by (nonlinear_arith)
        requires
            0 <= n,
            1 <= w,
            q == n / w,
    ;
    assert(0 <= i * q) by (nonlinear_arith)
        requires
            0 <= i,
            0 <= q,
    ;
    assert(i * q <= (i + 1) * q) by (nonlinear_arith)
        requires
            0 <= q,
    ;
    assert((i + 1) * q <= w * q) by (nonlinear_arith)
        requires
            i + 1 <= w,
            0 <= q,
    ;
    assert(i * q <= w * q) by (nonlinear_arith)
        requires
            i <= w,
            0 <= q,
    ;
}

/// The jobs of `w` workers over `reactions`, as sequences.
pub open spec fn jobs_of(reactions: Seq<String>, w: int) -> Seq<Seq<String>> {
    Seq::new(
        w as nat,
        |i: int|
            reactions.subrange(
                job_start(reactions.len() as int, w, i),
                job_end(reactions.len() as int, w, i),
            ),
    )
}

/// The first `k` jobs, one after the other, are the reactions before the end
/// of job `k - 1`.
proof fn lemma_jobs_prefix(reactions: Seq<String>, w: int, k: int)
    requires
        1 <= w,
        0 <= k <= w,
    ensures
        jobs_of(reactions, w).take(k).flatten_alt() == reactions.subrange(
            0,
            if k == 0 {
                0
            } else {
                job_end(reactions.len() as int, w, k - 1)
            },
        ),
    decreases k,
{
    let n = reactions.len() as int;
    let jobs = jobs_of(reactions, w);
    if k == 0 {
        assert(jobs.take(0) =~= Seq::<Seq<String>>::empty());
        assert(reactions.subrange(0, 0) =~= Seq::<String>::empty());
    } else {
        lemma_jobs_prefix(reactions, w, k - 1);
        lemma_job_bounds(n, w, k - 1);
        assert(jobs.take(k).drop_last() =~= jobs.take(k - 1));
        let before = if k - 1 == 0 {
            0
        } else {
            job_end(n, w, k - 2)
        };
        if k - 1 > 0 {
            lemma_job_bounds(n, w, k - 2);
        }
        assert(before == job_start(n, w, k - 1));
        assert(reactions.subrange(0, before) + reactions.subrange(before, job_end(n, w, k - 1))
            =~= reactions.subrange(0, job_end(n, w, k - 1)));
    }
}

/// Split among any number of workers, the jobs hold every requested reaction
/// exactly once, in the order of the request.
pub proof fn lemma_jobs_cover(reactions: Seq<String>, workers: int)
    requires
        1 <= workers,
    ensures
        jobs_of(reactions, workers).flatten() == reactions,
{
    lemma_jobs_prefix(reactions, workers, workers);
    let jobs = jobs_of(reactions, workers);
    assert(jobs.take(workers) =~= jobs);
    jobs.lemma_flatten_and_flatten_alt_are_equivalent();
    assert(reactions.subrange(0, reactions.len() as int) =~= reactions);
}

/// The reactions of each job as a sequence.
pub open spec fn jobs_view(jobs: Seq<Vec<String>>) -> Seq<Seq<String>> {
    jobs.map_values(|j: Vec<String>| j@)
}

/// Splits `reactions` into `workers` contiguous jobs; every job but the last
/// takes `reactions.len() / workers` of them, the last takes the rest.
pub fn schedule(reactions: &Vec<String>, workers: usize) -> (jobs: Vec<Vec<String>>)
    requires
        1 <= workers,
    ensures
        jobs_view(jobs@) == jobs_of(reactions@, workers as int),
        jobs_view(jobs@).flatten() == reactions@,
{
    let n = reactions.len();
    let per_job = n / workers;
    let mut jobs: Vec<Vec<String>> = Vec::new();
    for i in 0..workers
        invariant
            n == reactions@.len(),
            per_job as int == n as int / workers as int,
            1 <= workers,
            jobs@.len() == i,
            forall|k: int| 0 <= k < i ==> (#[trigger] jobs@[k])@ == jobs_of(reactions@, workers as int)[k],
    {
        proof {
            lemma_job_bounds(n as int, workers as int, i as int);
        }
        let start = i * per_job;
        let end = if i == workers - 1 {
            n
        } else {
            (i + 1) * per_job
        };
        let mut job: Vec<String> = Vec::new();
        for p in start..end
            invariant
                n == reactions@.len(),
                start <= end <= n,
                job@ == reactions@.subrange(start as int, p as int),
        {
            job.push(reactions[p].clone());
            proof {
                assert(job@ =~= reactions@.subrange(start as int, p + 1));
            }
        }
        jobs.push(job);
    }
    proof {
        assert(jobs_view(jobs@) =~= jobs_of(reactions@, workers as int));
        lemma_jobs_cover(reactions@, workers as int);
    }
    jobs
}

/// Splits `reactions` into one job per available CPU.
pub fn fva_jobs(reactions: &Vec<String>) -> (jobs: Vec<Vec<String>>)
    ensures
        jobs@.len() >= 1,
        jobs_view(jobs@) == jobs_of(reactions@, jobs@.len() as int),
        jobs_view(jobs@).flatten() == reactions@,
{
    let workers = available_workers();
    schedule(reactions, workers)
}

/// The flux range reported for one reaction: each end is what its solve
/// found, or not-a-number where the solve failed.
pub fn fva_bounds(lower: Option<Real>, upper: Option<Real>) -> (r: (Real, Real))
    ensures
        r.0 == match lower {
            Some(v) => v,
            None => Real::spec_nan(),
        },
        r.1 == match upper {
            Some(v) => v,
            None => Real::spec_nan(),
        },
{
    let low = match lower {
        Some(v) => v,
        None => Real::nan(),
    };
    let high = match upper {
        Some(v) => v,
        None => Real::nan(),
    };
    (low, high)
}

} // verus!
