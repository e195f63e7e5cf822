//! Reproducible shuffling: a seeded pseudo-random permutation, so a realized
//! order can be reconstructed from the recorded seed alone.
use vstd::prelude::*;

verus! {

/// Modulus of the pseudo-random stream.
pub open spec fn lehmer_m() -> int {
    0x7fffffff
}

/// One step of a Park-Miller pseudo-random stream.
pub open spec fn lehmer(s: u64) -> u64 {
    ((((s as int) % lehmer_m()) * 48271) % lehmer_m()) as u64
}

/// Executable form of `lehmer`.
pub fn lehmer_exec(s: u64) -> (r: u64)
    ensures
        r == lehmer(s),
{
    let m: u64 = 0x7fffffff;
    let a: u64 = s % m;
    assert(a * 48271 < 0x7fffffff * 48271) by (nonlinear_arith)
        requires
            a < 0x7fffffffu64,
    ;
    let p: u64 = a * 48271;
    p % m
}

/// The order a seed realizes: the stream picks one remaining element at a
/// time.  Equal sequences and equal seeds always realize equal orders.
pub open spec fn spec_shuffle<T>(s: Seq<T>, seed: u64) -> Seq<T>
    decreases s.len(),
{
    if s.len() == 0 {
        s
    } else {
        let st = lehmer(seed);
        let j = (st as int) % (s.len() as int);
        seq![s[j]] + spec_shuffle(s.remove(j), st)
    }
}

/// Shuffling permutes: the realized order holds exactly the elements of the
/// input, multiplicity included.
pub proof fn lemma_shuffle_multiset<T>(s: Seq<T>, seed: u64)
    ensures
        spec_shuffle(s, seed).to_multiset() == s.to_multiset(),
    decreases s.len(),
{
    broadcast use vstd::seq_lib::group_to_multiset_ensures;
    broadcast use vstd::multiset::group_multiset_axioms;

    if s.len() > 0 {
        let st = lehmer(seed);
        let j = (st as int) % (s.len() as int);
        let rest = s.remove(j);
        lemma_shuffle_multiset(rest, st);
        let out = seq![s[j]] + spec_shuffle(rest, st);
        assert(out.remove(0) =~= spec_shuffle(rest, st));
        assert(out.remove(0).to_multiset() =~= out.to_multiset().remove(out[0]));
        assert(rest.to_multiset() =~= s.to_multiset().remove(s[j]));
        assert(out.contains(s[j]));
        assert(s.contains(s[j]));
        assert(out.to_multiset() =~= s.to_multiset()) by {
            assert forall|x: T| out.to_multiset().count(x) == s.to_multiset().count(x) by {
                assert(out.to_multiset().remove(s[j]).count(x) == s.to_multiset().remove(
                    s[j],
                ).count(x));
                assert(out.to_multiset().count(s[j]) > 0);
                assert(s.to_multiset().count(s[j]) > 0);
            }
        }
    }
}

/// Shuffling keeps the length.
pub proof fn lemma_shuffle_len<T>(s: Seq<T>, seed: u64)
    ensures
        spec_shuffle(s, seed).len() == s.len(),
    decreases s.len(),
{
    if s.len() > 0 {
        let st = lehmer(seed);
        let j = (st as int) % (s.len() as int);
        lemma_shuffle_len(s.remove(j), st);
    }
}

/// Shuffling keeps the set of elements: whatever the realized order
/// contains, the input contained, and the other way round.
pub proof fn lemma_shuffle_elems<T>(s: Seq<T>, seed: u64)
    ensures
        forall|x: T| spec_shuffle(s, seed).contains(x) <==> s.contains(x),
{
    broadcast use vstd::seq_lib::group_to_multiset_ensures;

    lemma_shuffle_multiset(s, seed);
    assert forall|x: T| spec_shuffle(s, seed).contains(x) <==> s.contains(x) by {
        assert(spec_shuffle(s, seed).to_multiset().count(x) == s.to_multiset().count(x));
    }
}

/// A seed realizes the same order positions on any two element-wise
/// related sequences: shuffling only permutes, so a relation that holds
/// position by position before the shuffle holds position by position
/// after it.
pub proof fn lemma_shuffle_like<T>(a: Seq<T>, b: Seq<T>, like: spec_fn(T, T) -> bool, seed: u64)
    requires
        a.len() == b.len(),
        forall|k: int| 0 <= k < a.len() ==> like(a[k], #[trigger] b[k]),
    ensures
        forall|k: int|
            0 <= k < a.len() ==> like(
                spec_shuffle(a, seed)[k],
                #[trigger] spec_shuffle(b, seed)[k],
            ),
    decreases a.len(),
{
    lemma_shuffle_len(a, seed);
    lemma_shuffle_len(b, seed);
    if a.len() > 0 {
        let st = lehmer(seed);
        let j = (st as int) % (a.len() as int);
        assert forall|k: int| 0 <= k < a.remove(j).len() implies like(
            a.remove(j)[k],
            #[trigger] b.remove(j)[k],
        ) by {
            if k < j {
                assert(a.remove(j)[k] == a[k]);
                assert(b.remove(j)[k] == b[k]);
            } else {
                assert(a.remove(j)[k] == a[k + 1]);
                assert(b.remove(j)[k] == b[k + 1]);
            }
        }
        lemma_shuffle_like(a.remove(j), b.remove(j), like, st);
        lemma_shuffle_len(a.remove(j), st);
        assert forall|k: int| 0 <= k < a.len() implies like(
            spec_shuffle(a, seed)[k],
            #[trigger] spec_shuffle(b, seed)[k],
        ) by {
            if k == 0 {
                assert(spec_shuffle(a, seed)[0] == a[j]);
                assert(spec_shuffle(b, seed)[0] == b[j]);
            } else {
                assert(spec_shuffle(a, seed)[k] == spec_shuffle(a.remove(j), st)[k - 1]);
                assert(spec_shuffle(b, seed)[k] == spec_shuffle(b.remove(j), st)[k - 1]);
            }
        }
    }
}

/// Realize a seeded order.  The result is exactly the mathematical
/// `spec_shuffle` of the input, so recorded seeds replay orders.
pub fn shuffle<T>(input: Vec<T>, seed: u64) -> (out: Vec<T>)
    ensures
        out@ == spec_shuffle(input@, seed),
{
    let mut pool = input;
    let ghost orig = pool@;
    let mut out: Vec<T> = Vec::new();
    let mut st: u64 = seed;
    proof {
        assert(out@ + spec_shuffle(pool@, st) =~= spec_shuffle(orig, seed));
    }
    while pool.len() > 0
        invariant
            spec_shuffle(orig, seed) == out@ + spec_shuffle(pool@, st),
        decreases pool@.len(),
    {
        let ghost pool0 = pool@;
        let ghost out0 = out@;
        let ghost st0 = st;
        st = lehmer_exec(st);
        let j: usize = (st % (pool.len() as u64)) as usize;
        let x = pool.remove(j);
        out.push(x);
        proof {
            let jj = (lehmer(st0) as int) % (pool0.len() as int);
            assert(j as int == jj);
            assert(spec_shuffle(pool0, st0) == seq![pool0[jj]] + spec_shuffle(
                pool0.remove(jj),
                st,
            ));
            assert(out@ + spec_shuffle(pool@, st) =~= out0 + spec_shuffle(pool0, st0));
        }
    }
    proof {
        assert(spec_shuffle(orig, seed) =~= out@);
    }
    out
}

} // verus!
