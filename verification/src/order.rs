//! Stable ordering of rows by fractional keys.

use vstd::prelude::*;

use crate::decimal;

verus! {

/// A fraction with a positive denominator.
#[derive(Debug, Clone, Copy, PartialEq, Eq, Structural)]
pub struct Fraction {
    pub num: i128,
    pub den: i128,
}

/// The largest magnitude of a numerator and a denominator.
pub const FRACTION_MAX: i128 = 9_300_000_000_000_000_000;

impl Fraction {
    pub open spec fn ok(self) -> bool {
        &&& 0 < self.den <= FRACTION_MAX
        &&& -FRACTION_MAX <= self.num <= FRACTION_MAX
    }

    /// Whether this fraction is the smaller one.
    pub open spec fn below(self, other: Fraction) -> bool {
        self.num * other.den < other.num * self.den
    }

    /// An integer as a fraction.
    pub open spec fn whole(n: i128) -> Fraction {
        Fraction { num: n, den: 1 }
    }

    /// Whether this fraction is the smaller one.
    pub fn is_below(self, other: Fraction) -> (r: bool)
        requires
            self.ok(),
            other.ok(),
        ensures
            r == self.below(other),
    {
        proof {
            lemma_product_fits(self.num as int, other.den as int);
            lemma_product_fits(other.num as int, self.den as int);
        }
        self.num * other.den < other.num * self.den
    }
}

proof fn lemma_product_fits(a: int, b: int)
    requires
        -FRACTION_MAX <= a <= FRACTION_MAX,
        0 <= b <= FRACTION_MAX,
    ensures
        -FRACTION_MAX * FRACTION_MAX <= a * b <= FRACTION_MAX * FRACTION_MAX,
{
    assert(-FRACTION_MAX * FRACTION_MAX <= a * b <= FRACTION_MAX * FRACTION_MAX)
        by (nonlinear_arith)
        requires
            -FRACTION_MAX <= a <= FRACTION_MAX,
            0 <= b <= FRACTION_MAX,
    ;
}

/// `a <= b` and `b <= c` give `a <= c`.
pub proof fn lemma_fractions_transitive(a: Fraction, b: Fraction, c: Fraction)
    requires
        a.ok(),
        b.ok(),
        c.ok(),
        !b.below(a),
        !c.below(b),
    ensures
        !c.below(a),
{
    assert(a.num * b.den <= b.num * a.den);
    assert(b.num * c.den <= c.num * b.den);
    assert((a.num * b.den) * c.den <= (b.num * a.den) * c.den) by (nonlinear_arith)
        requires
            a.num * b.den <= b.num * a.den,
            c.den > 0,
    ;
    assert((b.num * c.den) * a.den <= (c.num * b.den) * a.den) by (nonlinear_arith)
        requires
            b.num * c.den <= c.num * b.den,
            a.den > 0,
    ;
    assert((b.num * a.den) * c.den == (b.num * c.den) * a.den) by (nonlinear_arith);
    assert(a.num * c.den <= c.num * a.den) by (nonlinear_arith)
        requires
            (a.num * b.den) * c.den <= (c.num * b.den) * a.den,
            b.den > 0,
    ;
}

/// The indices of the keys with `i` put behind the last one whose key is not above the key
/// of `i`.
pub open spec fn placed(keys: Seq<Fraction>, order: Seq<int>, i: int) -> Seq<int>
    decreases order.len(),
{
    if order.len() == 0 || !keys[i].below(keys[order.last()]) {
        order.push(i)
    } else {
        placed(keys, order.drop_last(), i).push(order.last())
    }
}

/// The indices of the first `n` keys from the smallest key to the largest, equal keys in
/// the order in which they come.
pub open spec fn arranged_first(keys: Seq<Fraction>, n: nat) -> Seq<int>
    decreases n,
{
    if n == 0 {
        Seq::empty()
    } else {
        placed(keys, arranged_first(keys, (n - 1) as nat), n - 1)
    }
}

/// The indices of the keys from the smallest to the largest, equal keys in the order in
/// which they come.
pub open spec fn arranged(keys: Seq<Fraction>) -> Seq<int> {
    arranged_first(keys, keys.len())
}

/// `order` holds each of the first `n` indices once, in the order of their keys, and indices
/// of equal keys in ascending order.
pub open spec fn is_stable_order(keys: Seq<Fraction>, order: Seq<int>, n: nat) -> bool {
    &&& order.len() == n
    &&& forall|a: int| 0 <= a < n ==> 0 <= #[trigger] order[a] < n
    &&& forall|a: int, b: int|
        0 <= a < b < n ==> {
            &&& #[trigger] order[a] != #[trigger] order[b]
            &&& !keys[order[b]].below(keys[order[a]])
            &&& !keys[order[a]].below(keys[order[b]]) ==> order[a] < order[b]
        }
}

proof fn lemma_placed(keys: Seq<Fraction>, order: Seq<int>, i: int)
    requires
        0 <= i < keys.len(),
        forall|j: int| 0 <= j < keys.len() ==> (#[trigger] keys[j]).ok(),
        forall|a: int| 0 <= a < order.len() ==> 0 <= #[trigger] order[a] < i,
        forall|a: int, b: int|
            0 <= a < b < order.len() ==> {
                &&& #[trigger] order[a] != #[trigger] order[b]
                &&& !keys[order[b]].below(keys[order[a]])
                &&& !keys[order[a]].below(keys[order[b]]) ==> order[a] < order[b]
            },
    ensures
        ({
            let r = placed(keys, order, i);
            &&& r.len() == order.len() + 1
            &&& forall|a: int| 0 <= a < r.len() ==> 0 <= #[trigger] r[a] <= i
            &&& forall|a: int|
                0 <= a < r.len() ==> #[trigger] r[a] == i || order.contains(r[a])
            &&& forall|a: int, b: int|
                0 <= a < b < r.len() ==> {
                    &&& #[trigger] r[a] != #[trigger] r[b]
                    &&& !keys[r[b]].below(keys[r[a]])
                    &&& !keys[r[a]].below(keys[r[b]]) ==> r[a] < r[b]
                }
        }),
    decreases order.len(),
{
    let r = placed(keys, order, i);
    if order.len() == 0 {
    } else if !keys[i].below(keys[order.last()]) {
        assert forall|a: int| 0 <= a < r.len() implies #[trigger] r[a] == i || order.contains(
            r[a],
        ) by {
            if a < order.len() {
                assert(order[a] == r[a]);
            }
        }
        assert forall|a: int, b: int| 0 <= a < b < r.len() implies {
            &&& #[trigger] r[a] != #[trigger] r[b]
            &&& !keys[r[b]].below(keys[r[a]])
            &&& !keys[r[a]].below(keys[r[b]]) ==> r[a] < r[b]
        } by {
            assert(r[a] == order[a]);
            if b == order.len() {
                if a < order.len() - 1 {
                    assert(!keys[order.last()].below(keys[order[a]]));
                    lemma_fractions_transitive(keys[order[a]], keys[order.last()], keys[i]);
                }
            } else {
                assert(r[b] == order[b]);
            }
        }
    } else {
        let short = order.drop_last();
        assert forall|a: int| 0 <= a < short.len() implies 0 <= #[trigger] short[a] < i by {
            assert(short[a] == order[a]);
        }
        lemma_placed(keys, short, i);
        let inner = placed(keys, short, i);
        assert(r == inner.push(order.last()));
        assert forall|a: int| 0 <= a < r.len() implies #[trigger] r[a] == i || order.contains(
            r[a],
        ) by {
            if a < inner.len() {
                assert(r[a] == inner[a]);
                if inner[a] != i {
                    let j = choose|j: int| 0 <= j < short.len() && short[j] == inner[a];
                    assert(order[j] == r[a]);
                }
            } else {
                assert(order[order.len() - 1] == r[a]);
            }
        }
        assert forall|a: int, b: int| 0 <= a < b < r.len() implies {
            &&& #[trigger] r[a] != #[trigger] r[b]
            &&& !keys[r[b]].below(keys[r[a]])
            &&& !keys[r[a]].below(keys[r[b]]) ==> r[a] < r[b]
        } by {
            assert(r[a] == inner[a]);
            if b == inner.len() {
                let last = order.len() - 1;
                if inner[a] == i {
                } else {
                    let j = choose|j: int| 0 <= j < short.len() && short[j] == inner[a];
                    assert(order[j] == inner[a]);
                    assert(order[last] == r[b]);
                }
            } else {
                assert(r[b] == inner[b]);
            }
        }
    }
}

/// The arrangement is a permutation of the indices, sorted by key, and stable.
pub proof fn arrangement_is_a_stable_sort(keys: Seq<Fraction>, n: nat)
    requires
        n <= keys.len(),
        forall|j: int| 0 <= j < keys.len() ==> (#[trigger] keys[j]).ok(),
    ensures
        is_stable_order(keys, arranged_first(keys, n), n),
        forall|j: int| 0 <= j < n ==> #[trigger] arranged_first(keys, n).contains(j),
    decreases n,
{
    if n > 0 {
        let before = arranged_first(keys, (n - 1) as nat);
        arrangement_is_a_stable_sort(keys, (n - 1) as nat);
        lemma_placed(keys, before, n - 1);
        lemma_placed_contains(keys, before, n - 1);
        assert forall|j: int| 0 <= j < n implies #[trigger] arranged_first(keys, n).contains(
            j,
        ) by {
            if j < n - 1 {
                assert(before.contains(j));
            }
        }
    }
}

proof fn lemma_placed_contains(keys: Seq<Fraction>, order: Seq<int>, i: int)
    ensures
        placed(keys, order, i).contains(i),
        forall|j: int| order.contains(j) ==> #[trigger] placed(keys, order, i).contains(j),
    decreases order.len(),
{
    let r = placed(keys, order, i);
    if order.len() == 0 || !keys[i].below(keys[order.last()]) {
        assert(r[order.len() as int] == i);
        assert forall|j: int| order.contains(j) implies #[trigger] r.contains(j) by {
            let a = choose|a: int| 0 <= a < order.len() && order[a] == j;
            assert(r[a] == j);
        }
    } else {
        let short = order.drop_last();
        lemma_placed_contains(keys, short, i);
        let inner = placed(keys, short, i);
        let a = choose|a: int| 0 <= a < inner.len() && inner[a] == i;
        assert(r[a] == i);
        assert forall|j: int| order.contains(j) implies #[trigger] r.contains(j) by {
            let b = choose|b: int| 0 <= b < order.len() && order[b] == j;
            if b < short.len() {
                assert(short[b] == j);
                assert(inner.contains(j));
                let c = choose|c: int| 0 <= c < inner.len() && inner[c] == j;
                assert(r[c] == j);
            } else {
                assert(r[inner.len() as int] == j);
            }
        }
    }
}

/// The arrangement of `n` keys holds `n` indices below `n`.
pub proof fn lemma_arranged_in_range(keys: Seq<Fraction>, n: nat)
    ensures
        arranged_first(keys, n).len() == n,
        forall|i: int|
            0 <= i < n ==> 0 <= #[trigger] arranged_first(keys, n)[i] < n,
    decreases n,
{
    if n > 0 {
        lemma_arranged_in_range(keys, (n - 1) as nat);
        lemma_placed_in_range(
            keys,
            arranged_first(keys, (n - 1) as nat),
            n - 1,
        );
    }
}

proof fn lemma_placed_in_range(keys: Seq<Fraction>, o: Seq<int>, i: int)
    requires
        i >= 0,
        forall|a: int| 0 <= a < o.len() ==> 0 <= #[trigger] o[a] < i,
    ensures
        placed(keys, o, i).len() == o.len() + 1,
        forall|a: int|
            0 <= a < o.len() + 1 ==> 0 <= #[trigger] placed(keys, o, i)[a] <= i,
    decreases o.len(),
{
    if o.len() > 0 && keys[i].below(keys[o.last()]) {
        assert forall|a: int| 0 <= a < o.drop_last().len() implies 0 <= #[trigger] o.drop_last()[a]
            < i by {
            assert(o.drop_last()[a] == o[a]);
        }
        lemma_placed_in_range(keys, o.drop_last(), i);
        assert(0 <= o[o.len() - 1] < i);
    }
}

/// The rows at the first `limit` of the indices `order`.
pub open spec fn picked<T>(rows: Seq<T>, order: Seq<int>, limit: int) -> Seq<T> {
    Seq::new(decimal::min(limit, order.len() as int) as nat, |i: int| rows[order[i]])
}

/// The integers of a list of indices.
pub open spec fn ints(list: Seq<usize>) -> Seq<int> {
    Seq::new(list.len(), |i: int| list[i] as int)
}

/// The indices of the keys from the smallest key to the largest, equal keys in the order in
/// which they come.
pub fn stable_order(keys: &Vec<Fraction>) -> (r: Vec<usize>)
    requires
        forall|j: int| 0 <= j < keys@.len() ==> (#[trigger] keys@[j]).ok(),
    ensures
        ints(r@) == arranged(keys@),
        is_stable_order(keys@, ints(r@), keys@.len()),
{
    let mut out: Vec<usize> = Vec::new();
    assert(ints(out@) =~= arranged_first(keys@, 0));
    for i in 0..keys.len()
        invariant
            forall|j: int| 0 <= j < keys@.len() ==> (#[trigger] keys@[j]).ok(),
            ints(out@) == arranged_first(keys@, i as nat),
    {
        proof {
            arrangement_is_a_stable_sort(keys@, i as nat);
        }
        let ghost before = ints(out@);
        let mut at: usize = out.len();
        assert(before.take(at as int) =~= before);
        assert(before.skip(at as int) =~= Seq::<int>::empty());
        assert(placed(keys@, before, i as int) =~= placed(keys@, before.take(at as int), i as int)
            + before.skip(at as int));
        loop
            invariant
                i < keys@.len(),
                forall|j: int| 0 <= j < keys@.len() ==> (#[trigger] keys@[j]).ok(),
                before == ints(out@),
                is_stable_order(keys@, before, i as nat),
                at <= out@.len(),
                placed(keys@, before, i as int) == placed(
                    keys@,
                    before.take(at as int),
                    i as int,
                ) + before.skip(at as int),
            ensures
                at <= out@.len(),
                placed(keys@, before, i as int) == before.take(at as int).push(i as int)
                    + before.skip(at as int),
            decreases at,
        {
            if at == 0 {
                break;
            }
            let prev: usize = out[at - 1];
            assert(before[at - 1] == prev);
            assert(before.take(at as int).last() == prev);
            if !keys[i].is_below(keys[prev]) {
                break;
            }
            proof {
                assert(before.take(at as int).drop_last() =~= before.take(at - 1));
                assert(placed(keys@, before.take(at - 1), i as int).push(prev as int)
                    + before.skip(at as int) =~= placed(keys@, before.take(at - 1), i as int)
                    + before.skip(at - 1));
            }
            at = at - 1;
        }
        out.insert(at, i);
        assert(ints(out@) =~= before.take(at as int).push(i as int) + before.skip(at as int));
    }
    proof {
        arrangement_is_a_stable_sort(keys@, keys@.len());
    }
    out
}

} // verus!
