//! Putting things in order: by numbers, highest first, then by name, with ties
//! left as they stood.

use vstd::prelude::*;

use crate::text::chars_of;

verus! {

/// What an item is ordered by.
#[derive(Debug)]
pub struct RankKey {
    pub first: u64,
    pub second: u64,
    pub name: String,
}

pub struct RankKeyV {
    pub first: u64,
    pub second: u64,
    pub name: Seq<char>,
}

impl DeepView for RankKey {
    type V = RankKeyV;

    open spec fn deep_view(&self) -> RankKeyV {
        RankKeyV { first: self.first, second: self.second, name: self.name@ }
    }
}

/// Dictionary order of texts, by the numbers of their characters.
pub open spec fn sorts_before(a: Seq<char>, b: Seq<char>) -> bool
    decreases a.len(),
{
    if b.len() == 0 {
        false
    } else if a.len() == 0 {
        true
    } else if a[0] == b[0] {
        sorts_before(a.drop_first(), b.drop_first())
    } else {
        a[0] < b[0]
    }
}

/// Whether `a` stands before `b` in dictionary order.
pub fn is_before(a: &str, b: &str) -> (r: bool)
    ensures
        r == sorts_before(a@, b@),
{
    let av: Vec<char> = chars_of(a);
    let bv: Vec<char> = chars_of(b);
    let mut i: usize = 0;
    proof {
        assert(a@.skip(0) =~= a@);
        assert(b@.skip(0) =~= b@);
    }
    while i < av.len() && i < bv.len() && av[i] == bv[i]
        invariant
            i <= av@.len(),
            i <= bv@.len(),
            sorts_before(a@, b@) == sorts_before(av@.skip(i as int), bv@.skip(i as int)),
        decreases av@.len() - i,
    {
        proof {
            assert(av@.skip(i as int).drop_first() =~= av@.skip(i + 1));
            assert(bv@.skip(i as int).drop_first() =~= bv@.skip(i + 1));
        }
        i = i + 1;
    }
    if i >= bv.len() {
        false
    } else if i >= av.len() {
        true
    } else {
        av[i] < bv[i]
    }
}

/// `a` comes before `b`.
pub open spec fn precedes(a: RankKeyV, b: RankKeyV, ascending: bool) -> bool {
    if a.first != b.first {
        a.first > b.first
    } else if a.second != b.second {
        a.second > b.second
    } else if ascending {
        sorts_before(a.name, b.name)
    } else {
        sorts_before(b.name, a.name)
    }
}

fn goes_before(a: &RankKey, b: &RankKey, ascending: bool) -> (r: bool)
    ensures
        r == precedes(a.deep_view(), b.deep_view(), ascending),
{
    if a.first != b.first {
        a.first > b.first
    } else if a.second != b.second {
        a.second > b.second
    } else if ascending {
        is_before(a.name.as_str(), b.name.as_str())
    } else {
        is_before(b.name.as_str(), a.name.as_str())
    }
}

/// Where item `x` goes among the items already in order: before the first that
/// it precedes.
pub open spec fn place(keys: Seq<RankKeyV>, ascending: bool, placed: Seq<int>, x: int, from: int) -> int
    decreases placed.len() - from,
{
    if from < 0 || from >= placed.len() {
        placed.len() as int
    } else if precedes(keys[x], keys[placed[from]], ascending) {
        from
    } else {
        place(keys, ascending, placed, x, from + 1)
    }
}

/// The first `n` items in order, as positions.
pub open spec fn order_upto(keys: Seq<RankKeyV>, ascending: bool, n: nat) -> Seq<int>
    decreases n,
{
    if n == 0 {
        seq![]
    } else {
        let placed = order_upto(keys, ascending, (n - 1) as nat);
        placed.insert(place(keys, ascending, placed, n - 1, 0), n - 1)
    }
}

/// The items in order, as positions.
pub open spec fn order(keys: Seq<RankKeyV>, ascending: bool) -> Seq<int> {
    order_upto(keys, ascending, keys.len())
}

proof fn lemma_place(keys: Seq<RankKeyV>, ascending: bool, placed: Seq<int>, x: int, from: int)
    requires
        0 <= from <= placed.len(),
    ensures
        from <= place(keys, ascending, placed, x, from) <= placed.len(),
        forall|i: int|
            from <= i < place(keys, ascending, placed, x, from) ==> !precedes(
                keys[x],
                keys[#[trigger] placed[i]],
                ascending,
            ),
        place(keys, ascending, placed, x, from) < placed.len() ==> precedes(
            keys[x],
            keys[placed[place(keys, ascending, placed, x, from)]],
            ascending,
        ),
    decreases placed.len() - from,
{
    if from < placed.len() && !precedes(keys[x], keys[placed[from]], ascending) {
        lemma_place(keys, ascending, placed, x, from + 1);
    }
}

proof fn lemma_order_positions(keys: Seq<RankKeyV>, ascending: bool, n: nat)
    ensures
        order_upto(keys, ascending, n).len() == n,
        forall|i: int| 0 <= i < n ==> 0 <= #[trigger] order_upto(keys, ascending, n)[i] < n,
    decreases n,
{
    if n > 0 {
        lemma_order_positions(keys, ascending, (n - 1) as nat);
        let placed = order_upto(keys, ascending, (n - 1) as nat);
        lemma_place(keys, ascending, placed, n - 1, 0);
    }
}

pub open spec fn positions(v: Seq<usize>) -> Seq<int> {
    Seq::new(v.len(), |i: int| v[i] as int)
}

/// The items in order, as positions in `keys`.
pub fn rank(keys: &Vec<RankKey>, ascending: bool) -> (r: Vec<usize>)
    ensures
        positions(r@) == order(keys.deep_view(), ascending),
        r@.len() == keys@.len(),
        forall|i: int| 0 <= i < r@.len() ==> #[trigger] r@[i] < keys@.len(),
{
    let ghost kv = keys.deep_view();
    let mut out: Vec<usize> = Vec::new();
    let mut n: usize = 0;
    proof {
        assert(positions(out@) =~= seq![]);
    }
    while n < keys.len()
        invariant
            n <= keys@.len(),
            kv == keys.deep_view(),
            out@.len() == n,
            positions(out@) == order_upto(kv, ascending, n as nat),
            forall|i: int| 0 <= i < n ==> #[trigger] out@[i] < n,
        decreases keys@.len() - n,
    {
        let ghost placed = positions(out@);
        let mut p: usize = 0;
        proof {
            assert(kv[n as int] == keys@[n as int].deep_view());
        }
        while p < out.len() && !goes_before(&keys[n], &keys[out[p]], ascending)
            invariant
                p <= out@.len(),
                n < keys@.len(),
                out@.len() == n,
                kv == keys.deep_view(),
                placed == positions(out@),
                forall|i: int| 0 <= i < n ==> #[trigger] out@[i] < n,
                place(kv, ascending, placed, n as int, 0) == place(kv, ascending, placed, n as int, p as int),
            decreases out@.len() - p,
        {
            proof {
                assert(placed[p as int] == out@[p as int]);
                assert(kv[n as int] == keys@[n as int].deep_view());
                assert(kv[placed[p as int]] == keys@[out@[p as int] as int].deep_view());
            }
            p = p + 1;
        }
        proof {
            if p < out@.len() {
                assert(placed[p as int] == out@[p as int]);
                assert(kv[placed[p as int]] == keys@[out@[p as int] as int].deep_view());
            }
        }
        out.insert(p, n);
        proof {
            assert(positions(out@) =~= placed.insert(p as int, n as int));
            assert forall|i: int| 0 <= i < n + 1 implies #[trigger] out@[i] < n + 1 by {
                if i < p {
                } else if i > p {
                }
            }
        }
        n = n + 1;
    }
    out
}

// ---------------------------------------------------------------------------
// Laws
// ---------------------------------------------------------------------------

proof fn lemma_before_asymmetric(a: Seq<char>, b: Seq<char>)
    ensures
        !(sorts_before(a, b) && sorts_before(b, a)),
    decreases a.len(),
{
    if a.len() > 0 && b.len() > 0 && a[0] == b[0] {
        lemma_before_asymmetric(a.drop_first(), b.drop_first());
    }
}

proof fn lemma_before_negatively_transitive(a: Seq<char>, b: Seq<char>, c: Seq<char>)
    requires
        !sorts_before(a, b),
        !sorts_before(b, c),
    ensures
        !sorts_before(a, c),
    decreases a.len(),
{
    if c.len() > 0 && b.len() > 0 && a.len() > 0 {
        if a[0] == b[0] && b[0] == c[0] {
            lemma_before_negatively_transitive(a.drop_first(), b.drop_first(), c.drop_first());
        }
    }
}

proof fn lemma_not_precedes_transitive(a: RankKeyV, b: RankKeyV, c: RankKeyV, ascending: bool)
    requires
        !precedes(a, b, ascending),
        !precedes(b, c, ascending),
    ensures
        !precedes(a, c, ascending),
{
    if a.first == c.first && a.second == c.second && a.first == b.first && a.second == b.second {
        if ascending {
            lemma_before_negatively_transitive(a.name, b.name, c.name);
        } else {
            lemma_before_negatively_transitive(c.name, b.name, a.name);
        }
    }
}

proof fn lemma_precedes_asymmetric(a: RankKeyV, b: RankKeyV, ascending: bool)
    requires
        precedes(a, b, ascending),
    ensures
        !precedes(b, a, ascending),
{
    lemma_before_asymmetric(a.name, b.name);
}

/// Positions in order are a rearrangement, none comes after one that it
/// precedes, and of two equals the earlier stays first.
pub open spec fn is_stable_order(keys: Seq<RankKeyV>, ascending: bool, ord: Seq<int>, n: nat) -> bool {
    &&& ord.len() == n
    &&& ord.no_duplicates()
    &&& forall|i: int| 0 <= i < n ==> 0 <= #[trigger] ord[i] < n
    &&& forall|i: int, j: int|
        0 <= i < j < n ==> !precedes(keys[#[trigger] ord[j]], keys[#[trigger] ord[i]], ascending)
    &&& forall|i: int, j: int|
        0 <= i < j < n && !precedes(keys[#[trigger] ord[i]], keys[#[trigger] ord[j]], ascending) ==> ord[i] < ord[j]
}

/// Ranking is a stable sort.
pub proof fn ranking_is_a_stable_order(keys: Seq<RankKeyV>, ascending: bool)
    ensures
        is_stable_order(keys, ascending, order(keys, ascending), keys.len()),
{
    lemma_stable_upto(keys, ascending, keys.len());
}

proof fn lemma_stable_upto(keys: Seq<RankKeyV>, ascending: bool, n: nat)
    ensures
        is_stable_order(keys, ascending, order_upto(keys, ascending, n), n),
    decreases n,
{
    if n > 0 {
        let m = (n - 1) as nat;
        lemma_stable_upto(keys, ascending, m);
        let placed = order_upto(keys, ascending, m);
        let x = n - 1;
        lemma_place(keys, ascending, placed, x, 0);
        let p = place(keys, ascending, placed, x, 0);
        let ord = placed.insert(p, x);
        assert(ord == order_upto(keys, ascending, n));
        assert forall|i: int, j: int| 0 <= i < j < n implies !precedes(
            keys[#[trigger] ord[j]],
            keys[#[trigger] ord[i]],
            ascending,
        ) && (!precedes(keys[ord[i]], keys[ord[j]], ascending) ==> ord[i] < ord[j]) && ord[i] != ord[j] by {
            if j < p {
                assert(ord[i] == placed[i] && ord[j] == placed[j]);
            } else if j == p {
                assert(ord[i] == placed[i]);
                assert(!precedes(keys[x], keys[placed[i]], ascending));
            } else if i == p {
                assert(ord[j] == placed[j - 1]);
                lemma_precedes_asymmetric(keys[x], keys[placed[p]], ascending);
                if j - 1 > p {
                    assert(!precedes(keys[placed[j - 1]], keys[placed[p]], ascending));
                    lemma_not_precedes_transitive(keys[placed[j - 1]], keys[placed[p]], keys[x], ascending);
                    if !precedes(keys[x], keys[placed[j - 1]], ascending) {
                        lemma_not_precedes_transitive(keys[x], keys[placed[j - 1]], keys[placed[p]], ascending);
                    }
                }
            } else if i < p {
                assert(ord[i] == placed[i] && ord[j] == placed[j - 1]);
            } else {
                assert(ord[i] == placed[i - 1] && ord[j] == placed[j - 1]);
            }
        }
        assert forall|i: int| 0 <= i < n implies 0 <= #[trigger] ord[i] < n by {
            if i < p {
                assert(ord[i] == placed[i]);
            } else if i > p {
                assert(ord[i] == placed[i - 1]);
            }
        }
        assert(ord.no_duplicates()) by {
            assert forall|i: int, j: int| 0 <= i < ord.len() && 0 <= j < ord.len() && i != j implies ord[i] != ord[j] by {
                if i < j {
                    assert(ord[i] != ord[j]);
                } else {
                    assert(ord[j] != ord[i]);
                }
            }
        }
    }
}

/// Ranking one item more puts it somewhere among the others and moves none of
/// them past another.
pub proof fn one_more_is_put_among_the_others(keys: Seq<RankKeyV>, k: RankKeyV, ascending: bool)
    ensures
        exists|p: int|
            0 <= p <= keys.len() && order(keys.push(k), ascending) == #[trigger] order(keys, ascending).insert(
                p,
                keys.len() as int,
            ),
{
    lemma_order_prefix(keys, k, ascending, keys.len());
    lemma_order_positions(keys, ascending, keys.len());
    let placed = order(keys, ascending);
    lemma_place(keys.push(k), ascending, placed, keys.len() as int, 0);
    let p = place(keys.push(k), ascending, placed, keys.len() as int, 0);
    assert(order(keys.push(k), ascending) == placed.insert(p, keys.len() as int));
}

proof fn lemma_order_prefix(keys: Seq<RankKeyV>, k: RankKeyV, ascending: bool, n: nat)
    requires
        n <= keys.len(),
    ensures
        order_upto(keys.push(k), ascending, n) == order_upto(keys, ascending, n),
    decreases n,
{
    if n > 0 {
        lemma_order_prefix(keys, k, ascending, (n - 1) as nat);
        let placed = order_upto(keys, ascending, (n - 1) as nat);
        lemma_order_positions(keys, ascending, (n - 1) as nat);
        lemma_place_prefix(keys, k, ascending, placed, n - 1, 0);
    }
}

proof fn lemma_place_prefix(keys: Seq<RankKeyV>, k: RankKeyV, ascending: bool, placed: Seq<int>, x: int, from: int)
    requires
        0 <= x < keys.len(),
        0 <= from,
        forall|i: int| 0 <= i < placed.len() ==> 0 <= #[trigger] placed[i] < keys.len(),
    ensures
        place(keys.push(k), ascending, placed, x, from) == place(keys, ascending, placed, x, from),
    decreases placed.len() - from,
{
    if from < placed.len() {
        lemma_place_prefix(keys, k, ascending, placed, x, from + 1);
        assert(keys.push(k)[placed[from]] == keys[placed[from]]);
        assert(keys.push(k)[x] == keys[x]);
    }
}

/// The texts agree up to `n` and differ there, or one of them ends there.
pub open spec fn parts_at(a: Seq<char>, b: Seq<char>, n: int) -> bool {
    &&& 0 <= n <= a.len() && n <= b.len()
    &&& forall|i: int| 0 <= i < n ==> #[trigger] a[i] == b[i]
    &&& n == a.len() || n == b.len() || a[n] != b[n]
}

/// A text stands before another where it ends first, or where its character is the smaller
/// one at the first place at which they differ.
pub proof fn the_first_difference_decides(a: Seq<char>, b: Seq<char>, n: int)
    requires
        parts_at(a, b, n),
    ensures
        sorts_before(a, b) <==> n < b.len() && (n == a.len() || a[n] < b[n]),
    decreases a.len(),
{
    if n > 0 {
        assert(a[0] == b[0]);
        let (c, d) = (a.drop_first(), b.drop_first());
        assert forall|i: int| 0 <= i < n - 1 implies #[trigger] c[i] == d[i] by {
            assert(a[i + 1] == b[i + 1]);
        }
        the_first_difference_decides(c, d, n - 1);
    }
}

/// What is ranked comes with the greatest first: by the first number, by the second where
/// those are the same, and where both are by name; and each comes once.
pub proof fn the_greatest_come_first(keys: Seq<RankKeyV>, ascending: bool, i: int, j: int)
    requires
        0 <= i < j < keys.len(),
    ensures
        order(keys, ascending).len() == keys.len(),
        order(keys, ascending).no_duplicates(),
        ({
            let (a, b) = (keys[order(keys, ascending)[i]], keys[order(keys, ascending)[j]]);
            &&& a.first >= b.first
            &&& a.first == b.first ==> a.second >= b.second
            &&& a.first == b.first && a.second == b.second && ascending ==> !sorts_before(b.name, a.name)
            &&& a.first == b.first && a.second == b.second && !ascending ==> !sorts_before(a.name, b.name)
            &&& a == b ==> order(keys, ascending)[i] < order(keys, ascending)[j]
        }),
{
    ranking_is_a_stable_order(keys, ascending);
    let ord = order(keys, ascending);
    assert(!precedes(keys[ord[j]], keys[ord[i]], ascending));
    let (a, b) = (keys[ord[i]], keys[ord[j]]);
    if a == b {
        lemma_not_before_itself(a.name);
        assert(!precedes(keys[ord[i]], keys[ord[j]], ascending));
    }
}

proof fn lemma_not_before_itself(a: Seq<char>)
    ensures
        !sorts_before(a, a),
    decreases a.len(),
{
    if a.len() > 0 {
        lemma_not_before_itself(a.drop_first());
    }
}

} // verus!
