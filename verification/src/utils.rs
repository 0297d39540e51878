//! Flat buffer engines: elementwise binary and unary application, sequential
//! and fork-join parallel, and the eightfold-unrolled accumulation.
//!
//! The scalar work is a caller-supplied operator on 64-bit words.  The
//! operators are required to be pure: accepting every input and relating each
//! input to exactly one output.  `bin_val` and `un_val` name that unique
//! output, and every engine's contract is stated through them.

use crate::matrix::Matrix2d;
use vstd::prelude::*;

verus! {

/// The operator accepts every pair of words.
pub open spec fn bin_op_total<F: Fn(u64, u64) -> u64>(f: F) -> bool {
    forall|a: u64, b: u64| #[trigger] call_requires(f, (a, b))
}

/// The operator relates each input pair to at most one output word.
pub open spec fn bin_op_deterministic<F: Fn(u64, u64) -> u64>(f: F) -> bool {
    forall|a: u64, b: u64, r1: u64, r2: u64|
        #![trigger call_ensures(f, (a, b), r1), call_ensures(f, (a, b), r2)]
        call_ensures(f, (a, b), r1) && call_ensures(f, (a, b), r2) ==> r1 == r2
}

/// A pure binary operator: defined on every pair of words, with one output
/// for each pair.
pub open spec fn bin_op_pure<F: Fn(u64, u64) -> u64>(f: F) -> bool {
    bin_op_total(f) && bin_op_deterministic(f)
}

/// The word a pure binary operator yields on the given pair.
pub open spec fn bin_val<F: Fn(u64, u64) -> u64>(f: F, a: u64, b: u64) -> u64 {
    choose|r: u64| call_ensures(f, (a, b), r)
}

/// The operator accepts every word.
pub open spec fn un_op_total<F: Fn(u64) -> u64>(f: F) -> bool {
    forall|a: u64| #[trigger] call_requires(f, (a,))
}

/// The operator relates each input word to at most one output word.
pub open spec fn un_op_deterministic<F: Fn(u64) -> u64>(f: F) -> bool {
    forall|a: u64, r1: u64, r2: u64|
        #![trigger call_ensures(f, (a,), r1), call_ensures(f, (a,), r2)]
        call_ensures(f, (a,), r1) && call_ensures(f, (a,), r2) ==> r1 == r2
}

/// A pure unary operator.
pub open spec fn un_op_pure<F: Fn(u64) -> u64>(f: F) -> bool {
    un_op_total(f) && un_op_deterministic(f)
}

/// The word a pure unary operator yields on the given input.
pub open spec fn un_val<F: Fn(u64) -> u64>(f: F, a: u64) -> u64 {
    choose|r: u64| call_ensures(f, (a,), r)
}

/// What a call of a pure binary operator returned is `bin_val`.
pub proof fn lemma_bin_val<F: Fn(u64, u64) -> u64>(f: F, a: u64, b: u64, r: u64)
    requires
        bin_op_deterministic(f),
        call_ensures(f, (a, b), r),
    ensures
        bin_val(f, a, b) == r,
{
    let w = choose|x: u64| call_ensures(f, (a, b), x);
    assert(call_ensures(f, (a, b), w));
}

/// What a call of a pure unary operator returned is `un_val`.
pub proof fn lemma_un_val<F: Fn(u64) -> u64>(f: F, a: u64, r: u64)
    requires
        un_op_deterministic(f),
        call_ensures(f, (a,), r),
    ensures
        un_val(f, a) == r,
{
    let w = choose|x: u64| call_ensures(f, (a,), x);
    assert(call_ensures(f, (a,), w));
}

/// Sequential elementwise combination: `out[i]` is `f(u[i], v[i])`.
pub fn vec_bin_op<F: Fn(u64, u64) -> u64>(u: &Vec<u64>, v: &Vec<u64>, f: F) -> (out: Vec<u64>)
    requires
        u@.len() == v@.len(),
        bin_op_pure(f),
    ensures
        out@.len() == u@.len(),
        forall|i: int| 0 <= i < u@.len() ==> out@[i] == bin_val(f, u@[i], v@[i]),
{
    let len: usize = u.len();
    let mut out: Vec<u64> = Vec::new();
    let mut i: usize = 0;
    while i < len
        invariant
            len == u@.len(),
            u@.len() == v@.len(),
            bin_op_pure(f),
            i <= len,
            out@.len() == i,
            forall|j: int| 0 <= j < i ==> out@[j] == bin_val(f, u@[j], v@[j]),
        decreases len - i,
    {
        let x = f(u[i], v[i]);
        proof {
            lemma_bin_val(f, u@[i as int], v@[i as int], x);
        }
        out.push(x);
        i += 1;
    }
    out
}

/// In-place sequential elementwise combination: overwrites `dst[i]` with
/// `f(u[i], v[i])`.
pub fn vec_bin_op_mut<F: Fn(u64, u64) -> u64>(u: &Vec<u64>, v: &Vec<u64>, dst: &mut Vec<u64>, f: &F)
    requires
        u@.len() == v@.len(),
        old(dst)@.len() == u@.len(),
        bin_op_pure(*f),
    ensures
        final (dst)@.len() == u@.len(),
        forall|i: int| 0 <= i < u@.len() ==> final (dst)@[i] == bin_val(*f, u@[i], v@[i]),
{
    let len: usize = u.len();
    let mut i: usize = 0;
    while i < len
        invariant
            len == u@.len(),
            u@.len() == v@.len(),
            dst@.len() == u@.len(),
            bin_op_pure(*f),
            i <= len,
            forall|j: int| 0 <= j < i ==> dst@[j] == bin_val(*f, u@[j], v@[j]),
        decreases len - i,
    {
        let x = f(u[i], v[i]);
        proof {
            lemma_bin_val(*f, u@[i as int], v@[i as int], x);
        }
        dst.set(i, x);
        i += 1;
    }
}

/// Sequential elementwise combination of the index range `[lo, hi)`.
fn vec_bin_op_range<F: Fn(u64, u64) -> u64>(
    u: &Vec<u64>,
    v: &Vec<u64>,
    lo: usize,
    hi: usize,
    f: &F,
) -> (out: Vec<u64>)
    requires
        lo <= hi <= u@.len(),
        u@.len() == v@.len(),
        bin_op_pure(*f),
    ensures
        out@.len() == hi - lo,
        forall|i: int| 0 <= i < hi - lo ==> out@[i] == bin_val(*f, u@[lo + i], v@[lo + i]),
{
    let mut out: Vec<u64> = Vec::new();
    let mut i: usize = lo;
    while i < hi
        invariant
            lo <= i <= hi <= u@.len(),
            u@.len() == v@.len(),
            bin_op_pure(*f),
            out@.len() == i - lo,
            forall|j: int| 0 <= j < i - lo ==> out@[j] == bin_val(*f, u@[lo + j], v@[lo + j]),
        decreases hi - i,
    {
        let x = f(u[i], v[i]);
        proof {
            lemma_bin_val(*f, u@[i as int], v@[i as int], x);
        }
        out.push(x);
        i += 1;
    }
    out
}

/// Relies on num_cpus::get: the number of logical CPUs of the running
/// system, which is always at least one.
#[verifier::external_body]
fn cpu_count() -> (n: usize)
    ensures
        n >= 1,
{
    num_cpus::get()
}

/// The chunk a buffer of length `len` is cut into over `cpus` workers: the
/// length divided by the worker count, floored, or the whole buffer when it
/// is shorter than the worker count.
pub open spec fn chunk_of(len: int, cpus: int) -> int {
    if len < cpus {
        len
    } else {
        len / cpus
    }
}

/// The target leaf size for the fork-join engines, derived from the length
/// of the buffers and the available parallelism.  The parallelism itself is
/// read from the machine, so only its existence is promised.
pub fn get_chunk_size(u: &Vec<u64>, v: &Vec<u64>) -> (chunk: usize)
    requires
        u@.len() == v@.len(),
    ensures
        exists|cpus: int| cpus >= 1 && chunk == #[trigger] chunk_of(u@.len() as int, cpus),
        chunk <= u@.len(),
        u@.len() > 0 ==> chunk >= 1,
{
    let len: usize = u.len();
    let cpus = cpu_count();
    let chunk: usize = if len < cpus {
        len
    } else {
        len / cpus
    };
    proof {
        assert(len >= cpus ==> (len as int) / (cpus as int) >= 1 && (len as int) / (cpus as int)
            <= len) by (nonlinear_arith)
            requires
                cpus >= 1,
        ;
        assert(chunk == chunk_of(u@.len() as int, cpus as int));
    }
    chunk
}

/// Relies on rayon::join: it runs both closures, possibly concurrently, and
/// returns only after both have completed, handing back their two results.
/// Each closure is one call of the verified `vec_bin_op_split`, so each half
/// of the pair carries that function's contract for its range.
#[verifier::external_body]
fn join_bin_halves<F: Fn(u64, u64) -> u64 + Send + Sync>(
    u: &Vec<u64>,
    v: &Vec<u64>,
    lo: usize,
    mid: usize,
    hi: usize,
    chunk_size: usize,
    f: &F,
) -> (r: (Vec<u64>, Vec<u64>))
    requires
        lo <= mid <= hi <= u@.len(),
        u@.len() == v@.len(),
        bin_op_pure(*f),
    ensures
        bin_range_ok(*f, u@, v@, lo as int, mid as int, r.0@),
        bin_range_ok(*f, u@, v@, mid as int, hi as int, r.1@),
{
    rayon::join(
        || vec_bin_op_split(u, v, lo, mid, chunk_size, f),
        || vec_bin_op_split(u, v, mid, hi, chunk_size, f),
    )
}

/// The buffer `out` combines `u` and `v` over the index range `[lo, hi)`:
/// one word per index, each the operator's value on the pair there.
pub open spec fn bin_range_ok<F: Fn(u64, u64) -> u64>(
    f: F,
    u: Seq<u64>,
    v: Seq<u64>,
    lo: int,
    hi: int,
    out: Seq<u64>,
) -> bool {
    out.len() == hi - lo && forall|i: int| 0 <= i < hi - lo ==> out[i] == bin_val(
        f,
        u[lo + i],
        v[lo + i],
    )
}

/// Fork-join elementwise combination of the index range `[lo, hi)`: the
/// range is bisected at its midpoint, the two halves are handed to the
/// thread pool as a pair of joined tasks, and a range at most as long as the
/// chunk size is combined sequentially.  Both halves are complete before the
/// function returns, and the output agrees entry for entry with the
/// sequential engine.
pub fn vec_bin_op_split<F: Fn(u64, u64) -> u64 + Send + Sync>(
    u: &Vec<u64>,
    v: &Vec<u64>,
    lo: usize,
    hi: usize,
    chunk_size: usize,
    f: &F,
) -> (out: Vec<u64>)
    requires
        lo <= hi <= u@.len(),
        u@.len() == v@.len(),
        bin_op_pure(*f),
    ensures
        out@.len() == hi - lo,
        forall|i: int| 0 <= i < hi - lo ==> out@[i] == bin_val(*f, u@[lo + i], v@[lo + i]),
    decreases hi - lo,
{
    let len: usize = hi - lo;
    if len < chunk_size || len < 2 {
        return vec_bin_op_range(u, v, lo, hi, f);
    }
    let mid: usize = lo + len / 2;
    let pair = join_bin_halves(u, v, lo, mid, hi, chunk_size, f);
    let mut out = pair.0;
    let mut right = pair.1;
    out.append(&mut right);
    proof {
        assert forall|i: int| 0 <= i < hi - lo implies out@[i] == bin_val(
            *f,
            u@[lo + i],
            v@[lo + i],
        ) by {
            if i < mid - lo {
            } else {
                assert(out@[i] == pair.1@[i - (mid - lo)]);
            }
        }
    }
    out
}

/// Fork-join elementwise combination of two whole buffers.  The result is
/// identical, entry for entry, to the sequential `vec_bin_op`.
pub fn vec_bin_op_threaded<F: Fn(u64, u64) -> u64 + Send + Sync>(
    u: &Vec<u64>,
    v: &Vec<u64>,
    chunk_size: usize,
    f: &F,
) -> (out: Vec<u64>)
    requires
        u@.len() == v@.len(),
        bin_op_pure(*f),
    ensures
        out@.len() == u@.len(),
        forall|i: int| 0 <= i < u@.len() ==> out@[i] == bin_val(*f, u@[i], v@[i]),
{
    let len: usize = u.len();
    vec_bin_op_split(u, v, 0, len, chunk_size, f)
}

/// In-place sequential elementwise application: overwrites `dst[i]` with
/// `f(u[i])`.
pub fn vec_fn_op_mut<F: Fn(u64) -> u64>(u: &Vec<u64>, dst: &mut Vec<u64>, f: &F)
    requires
        old(dst)@.len() == u@.len(),
        un_op_pure(*f),
    ensures
        final (dst)@.len() == u@.len(),
        forall|i: int| 0 <= i < u@.len() ==> final (dst)@[i] == un_val(*f, u@[i]),
{
    let len: usize = u.len();
    let mut i: usize = 0;
    while i < len
        invariant
            len == u@.len(),
            dst@.len() == u@.len(),
            un_op_pure(*f),
            i <= len,
            forall|j: int| 0 <= j < i ==> dst@[j] == un_val(*f, u@[j]),
        decreases len - i,
    {
        let x = f(u[i]);
        proof {
            lemma_un_val(*f, u@[i as int], x);
        }
        dst.set(i, x);
        i += 1;
    }
}

/// The buffer `out` transforms `u` over the index range `[lo, hi)`: one word
/// per index, each the operator's value on the word there.
pub open spec fn un_range_ok<F: Fn(u64) -> u64>(
    f: F,
    u: Seq<u64>,
    lo: int,
    hi: int,
    out: Seq<u64>,
) -> bool {
    out.len() == hi - lo && forall|i: int| 0 <= i < hi - lo ==> out[i] == un_val(f, u[lo + i])
}

/// Sequential elementwise application over the index range `[lo, hi)`.
fn vec_fn_op_range<F: Fn(u64) -> u64>(u: &Vec<u64>, lo: usize, hi: usize, f: &F) -> (out: Vec<u64>)
    requires
        lo <= hi <= u@.len(),
        un_op_pure(*f),
    ensures
        un_range_ok(*f, u@, lo as int, hi as int, out@),
{
    let mut out: Vec<u64> = Vec::new();
    let mut i: usize = lo;
    while i < hi
        invariant
            lo <= i <= hi <= u@.len(),
            un_op_pure(*f),
            out@.len() == i - lo,
            forall|j: int| 0 <= j < i - lo ==> out@[j] == un_val(*f, u@[lo + j]),
        decreases hi - i,
    {
        let x = f(u[i]);
        proof {
            lemma_un_val(*f, u@[i as int], x);
        }
        out.push(x);
        i += 1;
    }
    out
}

/// Relies on rayon::join: it runs both closures, possibly concurrently, and
/// returns only after both have completed, handing back their two results.
/// Each closure is one call of the verified `vec_fn_op_split`, so each half
/// of the pair carries that function's contract for its range.
#[verifier::external_body]
fn join_fn_halves<F: Fn(u64) -> u64 + Send + Sync>(
    u: &Vec<u64>,
    lo: usize,
    mid: usize,
    hi: usize,
    chunk_size: usize,
    f: &F,
) -> (r: (Vec<u64>, Vec<u64>))
    requires
        lo <= mid <= hi <= u@.len(),
        un_op_pure(*f),
    ensures
        un_range_ok(*f, u@, lo as int, mid as int, r.0@),
        un_range_ok(*f, u@, mid as int, hi as int, r.1@),
{
    rayon::join(
        || vec_fn_op_split(u, lo, mid, chunk_size, f),
        || vec_fn_op_split(u, mid, hi, chunk_size, f),
    )
}

/// Fork-join elementwise application of the index range `[lo, hi)`, bisected
/// at the midpoint down to chunk-sized leaves, each half complete before the
/// function returns.  The output agrees entry for entry with the sequential
/// engine.
pub fn vec_fn_op_split<F: Fn(u64) -> u64 + Send + Sync>(
    u: &Vec<u64>,
    lo: usize,
    hi: usize,
    chunk_size: usize,
    f: &F,
) -> (out: Vec<u64>)
    requires
        lo <= hi <= u@.len(),
        un_op_pure(*f),
    ensures
        un_range_ok(*f, u@, lo as int, hi as int, out@),
    decreases hi - lo,
{
    let len: usize = hi - lo;
    if len < chunk_size || len < 2 {
        return vec_fn_op_range(u, lo, hi, f);
    }
    let mid: usize = lo + len / 2;
    let pair = join_fn_halves(u, lo, mid, hi, chunk_size, f);
    let mut out = pair.0;
    let mut right = pair.1;
    out.append(&mut right);
    proof {
        assert forall|i: int| 0 <= i < hi - lo implies out@[i] == un_val(*f, u@[lo + i]) by {
            if i < mid - lo {
            } else {
                assert(out@[i] == pair.1@[i - (mid - lo)]);
            }
        }
    }
    out
}

/// Fork-join elementwise application over a whole buffer.  The result is
/// identical, entry for entry, to applying the operator sequentially.
pub fn vec_fn_op_threaded<F: Fn(u64) -> u64 + Send + Sync>(
    u: &Vec<u64>,
    chunk_size: usize,
    f: &F,
) -> (out: Vec<u64>)
    requires
        un_op_pure(*f),
    ensures
        out@.len() == u@.len(),
        forall|i: int| 0 <= i < u@.len() ==> out@[i] == un_val(*f, u@[i]),
{
    let len: usize = u.len();
    vec_fn_op_split(u, 0, len, chunk_size, f)
}

/// Left fold of a buffer under a pure binary operator: the accumulator
/// starts at `init` and absorbs the words in order.
pub open spec fn fold_val<F: Fn(u64, u64) -> u64>(f: F, init: u64, s: Seq<u64>) -> u64
    decreases s.len(),
{
    if s.len() == 0 {
        init
    } else {
        bin_val(f, fold_val(f, init, s.drop_last()), s.last())
    }
}

/// Folding one more word absorbs it into the accumulator.
pub proof fn lemma_fold_push<F: Fn(u64, u64) -> u64>(f: F, init: u64, s: Seq<u64>, x: u64)
    ensures
        fold_val(f, init, s.push(x)) == bin_val(f, fold_val(f, init, s), x),
{
    assert(s.push(x).drop_last() =~= s);
    assert(s.push(x).last() == x);
}

/// Left fold of a buffer, computed with a pure operator.
pub fn fold_with<F: Fn(u64, u64) -> u64>(v: &Vec<u64>, init: u64, f: &F) -> (r: u64)
    requires
        bin_op_pure(*f),
    ensures
        r == fold_val(*f, init, v@),
{
    let len: usize = v.len();
    let mut acc: u64 = init;
    let mut i: usize = 0;
    while i < len
        invariant
            len == v@.len(),
            bin_op_pure(*f),
            i <= len,
            acc == fold_val(*f, init, v@.take(i as int)),
        decreases len - i,
    {
        let x = f(acc, v[i]);
        proof {
            lemma_bin_val(*f, acc, v@[i as int], x);
            lemma_fold_push(*f, init, v@.take(i as int), v@[i as int]);
            assert(v@.take(i + 1) =~= v@.take(i as int).push(v@[i as int]));
        }
        acc = x;
        i += 1;
    }
    proof {
        assert(v@.take(len as int) =~= v@);
    }
    acc
}

/// The words at positions congruent to `k` modulo eight, taken from the
/// leading full blocks of eight.
pub open spec fn lane(s: Seq<u64>, k: int) -> Seq<u64> {
    Seq::new((s.len() / 8) as nat, |t: int| s[8 * t + k])
}

/// The eightfold-unrolled pairwise accumulation: eight partial sums fold the
/// eight lanes of the full blocks, they are absorbed pairwise into the
/// accumulator, and the remainder is folded in order.
pub open spec fn unrolled_sum_val<F: Fn(u64, u64) -> u64>(f: F, zero: u64, s: Seq<u64>) -> u64 {
    let p0 = fold_val(f, zero, lane(s, 0));
    let p1 = fold_val(f, zero, lane(s, 1));
    let p2 = fold_val(f, zero, lane(s, 2));
    let p3 = fold_val(f, zero, lane(s, 3));
    let p4 = fold_val(f, zero, lane(s, 4));
    let p5 = fold_val(f, zero, lane(s, 5));
    let p6 = fold_val(f, zero, lane(s, 6));
    let p7 = fold_val(f, zero, lane(s, 7));
    let s0 = bin_val(f, zero, bin_val(f, p0, p4));
    let s1 = bin_val(f, s0, bin_val(f, p1, p5));
    let s2 = bin_val(f, s1, bin_val(f, p2, p6));
    let s3 = bin_val(f, s2, bin_val(f, p3, p7));
    fold_val(f, s3, s.skip(8 * (s.len() as int / 8)))
}

/// Accumulates a whole buffer with the operator, eightfold unrolled: the
/// exact association order is the one `unrolled_sum_val` spells out, which
/// is the point of the function — for rounding operators it differs from the
/// plain left fold.
pub fn unrolled_sum<F: Fn(u64, u64) -> u64>(xs: &Vec<u64>, zero: u64, f: &F) -> (r: u64)
    requires
        bin_op_pure(*f),
    ensures
        r == unrolled_sum_val(*f, zero, xs@),
{
    let len: usize = xs.len();
    let mut p0: u64 = zero;
    let mut p1: u64 = zero;
    let mut p2: u64 = zero;
    let mut p3: u64 = zero;
    let mut p4: u64 = zero;
    let mut p5: u64 = zero;
    let mut p6: u64 = zero;
    let mut p7: u64 = zero;
    let mut i: usize = 0;
    while len - i >= 8
        invariant
            len == xs@.len(),
            bin_op_pure(*f),
            i <= len,
            i as int % 8 == 0,
            p0 == fold_val(*f, zero, lane(xs@.take(i as int), 0)),
            p1 == fold_val(*f, zero, lane(xs@.take(i as int), 1)),
            p2 == fold_val(*f, zero, lane(xs@.take(i as int), 2)),
            p3 == fold_val(*f, zero, lane(xs@.take(i as int), 3)),
            p4 == fold_val(*f, zero, lane(xs@.take(i as int), 4)),
            p5 == fold_val(*f, zero, lane(xs@.take(i as int), 5)),
            p6 == fold_val(*f, zero, lane(xs@.take(i as int), 6)),
            p7 == fold_val(*f, zero, lane(xs@.take(i as int), 7)),
        decreases len - i,
    {
        let ghost pre: Seq<u64> = xs@.take(i as int);
        let ghost post: Seq<u64> = xs@.take(i + 8);
        proof {
            lemma_lane_grows(xs@, i as int);
        }
        let x0 = f(p0, xs[i]);
        proof {
            lemma_bin_val(*f, p0, xs@[i as int], x0);
            lemma_fold_push(*f, zero, lane(pre, 0), xs@[i as int]);
        }
        p0 = x0;
        let x1 = f(p1, xs[i + 1]);
        proof {
            lemma_bin_val(*f, p1, xs@[i + 1], x1);
            lemma_fold_push(*f, zero, lane(pre, 1), xs@[i + 1]);
        }
        p1 = x1;
        let x2 = f(p2, xs[i + 2]);
        proof {
            lemma_bin_val(*f, p2, xs@[i + 2], x2);
            lemma_fold_push(*f, zero, lane(pre, 2), xs@[i + 2]);
        }
        p2 = x2;
        let x3 = f(p3, xs[i + 3]);
        proof {
            lemma_bin_val(*f, p3, xs@[i + 3], x3);
            lemma_fold_push(*f, zero, lane(pre, 3), xs@[i + 3]);
        }
        p3 = x3;
        let x4 = f(p4, xs[i + 4]);
        proof {
            lemma_bin_val(*f, p4, xs@[i + 4], x4);
            lemma_fold_push(*f, zero, lane(pre, 4), xs@[i + 4]);
        }
        p4 = x4;
        let x5 = f(p5, xs[i + 5]);
        proof {
            lemma_bin_val(*f, p5, xs@[i + 5], x5);
            lemma_fold_push(*f, zero, lane(pre, 5), xs@[i + 5]);
        }
        p5 = x5;
        let x6 = f(p6, xs[i + 6]);
        proof {
            lemma_bin_val(*f, p6, xs@[i + 6], x6);
            lemma_fold_push(*f, zero, lane(pre, 6), xs@[i + 6]);
        }
        p6 = x6;
        let x7 = f(p7, xs[i + 7]);
        proof {
            lemma_bin_val(*f, p7, xs@[i + 7], x7);
            lemma_fold_push(*f, zero, lane(pre, 7), xs@[i + 7]);
        }
        p7 = x7;
        i += 8;
    }
    proof {
        assert(i as int / 8 == xs@.len() as int / 8 && i == 8 * (xs@.len() as int / 8))
            by (nonlinear_arith)
            requires
                i as int % 8 == 0,
                i <= xs@.len() < i + 8,
        ;
        lemma_lane_of_block_prefix(xs@, i as int);
    }
    let mut sum: u64 = zero;
    let t0 = f(p0, p4);
    let u0 = f(sum, t0);
    proof {
        lemma_bin_val(*f, p0, p4, t0);
        lemma_bin_val(*f, sum, t0, u0);
    }
    sum = u0;
    let t1 = f(p1, p5);
    let u1 = f(sum, t1);
    proof {
        lemma_bin_val(*f, p1, p5, t1);
        lemma_bin_val(*f, sum, t1, u1);
    }
    sum = u1;
    let t2 = f(p2, p6);
    let u2 = f(sum, t2);
    proof {
        lemma_bin_val(*f, p2, p6, t2);
        lemma_bin_val(*f, sum, t2, u2);
    }
    sum = u2;
    let t3 = f(p3, p7);
    let u3 = f(sum, t3);
    proof {
        lemma_bin_val(*f, p3, p7, t3);
        lemma_bin_val(*f, sum, t3, u3);
    }
    sum = u3;
    let ghost s3: u64 = sum;
    let mut j: usize = i;
    while j < len
        invariant
            len == xs@.len(),
            bin_op_pure(*f),
            i <= j <= len,
            sum == fold_val(*f, s3, xs@.subrange(i as int, j as int)),
        decreases len - j,
    {
        let x = f(sum, xs[j]);
        proof {
            lemma_bin_val(*f, sum, xs@[j as int], x);
            lemma_fold_push(*f, s3, xs@.subrange(i as int, j as int), xs@[j as int]);
            assert(xs@.subrange(i as int, j + 1) =~= xs@.subrange(i as int, j as int).push(
                xs@[j as int],
            ));
        }
        sum = x;
        j += 1;
    }
    proof {
        assert(xs@.subrange(i as int, len as int) =~= xs@.skip(8 * (xs@.len() as int / 8)));
    }
    sum
}

/// Extending the prefix by one full block of eight pushes one word onto each
/// lane.
proof fn lemma_lane_grows(s: Seq<u64>, i: int)
    requires
        i % 8 == 0,
        0 <= i,
        i + 8 <= s.len(),
    ensures
        forall|k: int|
            0 <= k < 8 ==> #[trigger] lane(s.take(i + 8), k) =~= lane(s.take(i), k).push(s[i + k]),
{
    assert forall|k: int| 0 <= k < 8 implies #[trigger] lane(s.take(i + 8), k) =~= lane(
        s.take(i),
        k,
    ).push(s[i + k]) by {
        assert((i + 8) / 8 == i / 8 + 1 && i == 8 * (i / 8)) by (nonlinear_arith)
            requires
                i % 8 == 0,
                0 <= i,
        ;
        let a = lane(s.take(i + 8), k);
        let b = lane(s.take(i), k).push(s[i + k]);
        assert(a.len() == b.len());
        assert forall|t: int| 0 <= t < a.len() implies a[t] == b[t] by {
            assert(t < i / 8 + 1);
            assert(8 * t + k < i + 8) by (nonlinear_arith)
                requires
                    t < i / 8 + 1,
                    i == 8 * (i / 8),
                    k < 8,
            ;
            if t < i / 8 {
                assert(8 * t + k < i) by (nonlinear_arith)
                    requires
                        t < i / 8,
                        i == 8 * (i / 8),
                        k < 8,
                ;
            } else {
                assert(t == i / 8);
                assert(8 * t + k == i + k) by (nonlinear_arith)
                    requires
                        t == i / 8,
                        i == 8 * (i / 8),
                ;
            }
        }
    }
}

/// Once the prefix covers every full block, its lanes are the lanes of the
/// whole buffer.
proof fn lemma_lane_of_block_prefix(s: Seq<u64>, i: int)
    requires
        0 <= i <= s.len(),
        i == 8 * (s.len() as int / 8),
    ensures
        forall|k: int| 0 <= k < 8 ==> #[trigger] lane(s.take(i), k) =~= lane(s, k),
{
    assert forall|k: int| 0 <= k < 8 implies #[trigger] lane(s.take(i), k) =~= lane(s, k) by {
        assert(i / 8 == s.len() as int / 8) by (nonlinear_arith)
            requires
                i == 8 * (s.len() as int / 8),
                0 <= s.len() as int,
        ;
        let a = lane(s.take(i), k);
        let b = lane(s, k);
        assert(a.len() == b.len());
        assert forall|t: int| 0 <= t < a.len() implies a[t] == b[t] by {
            assert(8 * t + k < i) by (nonlinear_arith)
                requires
                    0 <= t < i / 8,
                    i == 8 * (i / 8),
                    0 <= k < 8,
            ;
        }
    }
}

/// Accumulates a whole buffer with the eightfold-unrolled accumulation.
pub fn sum_vec<F: Fn(u64, u64) -> u64>(vec: &Vec<u64>, zero: u64, f: &F) -> (r: u64)
    requires
        bin_op_pure(*f),
    ensures
        r == unrolled_sum_val(*f, zero, vec@),
{
    unrolled_sum(vec, zero, f)
}

/// Each word of the buffer multiplied with itself under the operator.
pub open spec fn squares_of<F: Fn(u64, u64) -> u64>(f: F, d: Seq<u64>) -> Seq<u64> {
    Seq::new(d.len(), |i: int| bin_val(f, d[i], d[i]))
}

/// The Frobenius norm of a matrix under the supplied arithmetic: every
/// buffer word is multiplied with itself, the squares are summed with the
/// eightfold-unrolled accumulation, and the root operator is applied to the
/// total.
pub fn frobenius_norm<FM: Fn(u64, u64) -> u64, FA: Fn(u64, u64) -> u64, FS: Fn(u64) -> u64>(
    m: &Matrix2d,
    mul_f: FM,
    add_f: &FA,
    zero: u64,
    sqrt_f: FS,
) -> (r: u64)
    requires
        bin_op_pure(mul_f),
        bin_op_pure(*add_f),
        un_op_pure(sqrt_f),
    ensures
        r == un_val(sqrt_f, unrolled_sum_val(*add_f, zero, squares_of(mul_f, m.matrix@))),
{
    let data = m.get_matrix();
    let sq = vec_bin_op(data, data, mul_f);
    proof {
        assert(sq@ =~= squares_of(mul_f, m.matrix@));
    }
    let total = unrolled_sum(&sq, zero, add_f);
    let r = sqrt_f(total);
    proof {
        lemma_un_val(sqrt_f, total, r);
    }
    r
}

} // verus!
