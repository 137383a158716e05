use vstd::prelude::*;

verus! {

// The combinator layer lifts a scalar operator onto ordered sequences.  An
// operator is any pure `Fn` value; what each combinator returns is pinned
// down through `call_ensures`, so the guarantees below specialize to
// whatever contract the supplied operator carries.

/// The identity operator: hands its argument back unchanged.
pub fn id<T>(x: T) -> (r: T)
    ensures
        r == x,
{
    x
}

/// Applies `op` to every element in order.  The result has the same length as
/// the input, and each output element is an output of `op` on the input
/// element at the same position.
pub fn map<T: Copy, F: Fn(T) -> T>(op: F, v: Vec<T>) -> (r: Vec<T>)
    requires
        forall|i: int| 0 <= i < v.len() ==> call_requires(op, (#[trigger] v[i],)),
    ensures
        r.len() == v.len(),
        forall|i: int| 0 <= i < v.len() ==> call_ensures(op, (v[i],), #[trigger] r[i]),
{
    let mut r: Vec<T> = Vec::new();
    let mut j: usize = 0;
    while j < v.len()
        invariant
            forall|i: int| 0 <= i < v.len() ==> call_requires(op, (#[trigger] v[i],)),
            j <= v.len(),
            r.len() == j,
            forall|i: int| 0 <= i < j ==> call_ensures(op, (v[i],), #[trigger] r[i]),
        decreases v.len() - j,
    {
        r.push(op(v[j]));
        j += 1;
    }
    r
}

/// Law: mapping the identity operator leaves every sequence unchanged.
pub fn map_identity<T: Copy>(v: Vec<T>) -> (r: Vec<T>)
    ensures
        r@ == v@,
{
    let r = map(id, v);
    proof {
        assert(r@ =~= v@);
    }
    r
}

/// Applies the binary operator `op` pairwise by position.  The result length
/// is the minimum of the two input lengths: extra elements of the longer
/// sequence are silently dropped.
pub fn zip_with<T: Copy, F: Fn(T, T) -> T>(op: F, v1: Vec<T>, v2: Vec<T>) -> (r: Vec<T>)
    requires
        forall|i: int|
            0 <= i < v1.len() && i < v2.len() ==> call_requires(op, (#[trigger] v1[i], v2[i])),
    ensures
        r.len() == (if v1.len() <= v2.len() { v1.len() } else { v2.len() }),
        forall|i: int| 0 <= i < r.len() ==> call_ensures(op, (v1[i], v2[i]), #[trigger] r[i]),
{
    let n: usize = if v1.len() <= v2.len() { v1.len() } else { v2.len() };
    let mut r: Vec<T> = Vec::new();
    let mut j: usize = 0;
    while j < n
        invariant
            forall|i: int|
                0 <= i < v1.len() && i < v2.len() ==> call_requires(op, (#[trigger] v1[i], v2[i])),
            n == (if v1.len() <= v2.len() { v1.len() } else { v2.len() }),
            j <= n,
            r.len() == j,
            forall|i: int| 0 <= i < j ==> call_ensures(op, (v1[i], v2[i]), #[trigger] r[i]),
        decreases n - j,
    {
        r.push(op(v1[j], v2[j]));
        j += 1;
    }
    r
}

/// The input-output relation of a binary operator value: `step_of(op)` holds
/// of `(a, b, c)` exactly when `c` is a possible result of calling `op` on
/// `a` and `b`.
pub open spec fn step_of<T, F: Fn(T, T) -> T>(op: F) -> spec_fn(T, T, T) -> bool {
    |a: T, b: T, c: T| call_ensures(op, (a, b), c)
}

/// Holds when `r` can be reached by left-folding over `s` seeded with
/// `start`, taking one `step` per element: there is a chain of intermediate
/// accumulators that starts at `start`, steps through each element of `s` in
/// order, and ends at `r`.
pub open spec fn folds_to<T>(step: spec_fn(T, T, T) -> bool, start: T, s: Seq<T>, r: T) -> bool
    decreases s.len(),
{
    if s.len() == 0 {
        r == start
    } else {
        exists|mid: T| #[trigger] step(start, s[0], mid) && folds_to(step, mid, s.drop_first(), r)
    }
}

/// Law: extending a fold chain by one more element and one more step yields
/// a fold chain for the extended sequence.
pub proof fn lemma_folds_to_push<T>(
    step: spec_fn(T, T, T) -> bool,
    start: T,
    s: Seq<T>,
    acc: T,
    x: T,
    next: T,
)
    requires
        folds_to(step, start, s, acc),
        step(acc, x, next),
    ensures
        folds_to(step, start, s.push(x), next),
    decreases s.len(),
{
    let t = s.push(x);
    if s.len() == 0 {
        assert(t[0] == x);
        assert(t.drop_first() =~= Seq::<T>::empty());
        assert(step(start, t[0], next) && folds_to(step, next, t.drop_first(), next));
    } else {
        let mid = choose|mid: T|
            #[trigger] step(start, s[0], mid) && folds_to(step, mid, s.drop_first(), acc);
        lemma_folds_to_push(step, mid, s.drop_first(), acc, x, next);
        assert(t[0] == s[0]);
        assert(t.drop_first() =~= s.drop_first().push(x));
        assert(step(start, t[0], mid) && folds_to(step, mid, t.drop_first(), next));
    }
}

/// Left-folds the sequence into a single value, seeded with `start`:
/// the elements are consumed strictly left to right, and an empty sequence
/// returns `start` unchanged.  The operator must accept every pair, since
/// the intermediate accumulators it is applied to are not known up front.
pub fn reduce<T: Copy, F: Fn(T, T) -> T>(op: F, start: T, v: Vec<T>) -> (r: T)
    requires
        forall|x: T, y: T| #[trigger] call_requires(op, (x, y)),
    ensures
        folds_to(step_of(op), start, v@, r),
        v.len() == 0 ==> r == start,
{
    let mut acc: T = start;
    let mut j: usize = 0;
    proof {
        assert(v@.take(0) =~= Seq::<T>::empty());
    }
    while j < v.len()
        invariant
            forall|x: T, y: T| #[trigger] call_requires(op, (x, y)),
            j <= v.len(),
            folds_to(step_of(op), start, v@.take(j as int), acc),
        decreases v.len() - j,
    {
        let next = op(acc, v[j]);
        proof {
            assert(v@.take(j as int + 1) =~= v@.take(j as int).push(v@[j as int]));
            assert(step_of(op)(acc, v@[j as int], next));
            lemma_folds_to_push(step_of(op), start, v@.take(j as int), acc, v@[j as int], next);
        }
        acc = next;
        j += 1;
    }
    proof {
        assert(v@.take(v.len() as int) =~= v@);
    }
    acc
}

} // verus!
