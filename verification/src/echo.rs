//! How much of a reply is a verbatim stretch of its own prompt.

use vstd::prelude::*;

use crate::text;
use crate::text::{join, same, split_pieces, Sort};
use crate::unicode;

verus! {

/// Runs of fewer words are ordinary language, not copying.
pub const MIN_SPAN_WORDS: usize = 4;

/// The words of a text, case folded; punctuation separates.
pub open spec fn folded_words(s: Seq<char>) -> Seq<Seq<char>> {
    let ws = text::pieces(s, Sort::Alnum, true);
    Seq::new(ws.len(), |i: int| unicode::lowered(ws[i]))
}

pub fn words(s: &str) -> (r: Vec<String>)
    ensures
        r.deep_view() == folded_words(s@),
{
    let ws: Vec<String> = split_pieces(s, Sort::Alnum, true);
    let mut out: Vec<String> = Vec::new();
    let mut i: usize = 0;
    while i < ws.len()
        invariant
            i <= ws@.len(),
            out@.len() == i,
            forall|k: int| 0 <= k < i ==> (#[trigger] out@[k])@ == unicode::lowered(ws@[k]@),
        decreases ws@.len() - i,
    {
        out.push(ws[i].as_str().to_lowercase());
        i = i + 1;
    }
    proof {
        assert(ws.deep_view() == text::pieces(s@, Sort::Alnum, true));
        assert(out.deep_view() =~= folded_words(s@));
    }
    out
}

/// How many words before position `i` of `a` and position `j` of `b` agree.
pub open spec fn common_end(a: Seq<Seq<char>>, b: Seq<Seq<char>>, i: nat, j: nat) -> nat
    decreases i,
{
    if i == 0 || j == 0 || i > a.len() || j > b.len() || a[i - 1] != b[j - 1] {
        0
    } else {
        1 + common_end(a, b, (i - 1) as nat, (j - 1) as nat)
    }
}

/// The longest run that ends at position `i` of `a` and at or before `j` of `b`.
pub open spec fn best_in_row(a: Seq<Seq<char>>, b: Seq<Seq<char>>, i: nat, j: nat) -> nat
    decreases j,
{
    if j == 0 {
        0
    } else {
        let rest = best_in_row(a, b, i, (j - 1) as nat);
        if common_end(a, b, i, j) > rest {
            common_end(a, b, i, j)
        } else {
            rest
        }
    }
}

/// Length of the longest run of words that the two share, and where the first
/// such run ends in `a`, as far as position `i` of `a`.
pub open spec fn longest_run(a: Seq<Seq<char>>, b: Seq<Seq<char>>, i: nat) -> (nat, nat)
    decreases i,
{
    if i == 0 {
        (0, 0)
    } else {
        let rest = longest_run(a, b, (i - 1) as nat);
        let row = best_in_row(a, b, i, b.len());
        if row > rest.0 {
            (row, i)
        } else {
            rest
        }
    }
}

proof fn lemma_common_end_bound(a: Seq<Seq<char>>, b: Seq<Seq<char>>, i: nat, j: nat)
    ensures
        common_end(a, b, i, j) <= i,
        common_end(a, b, i, j) <= j,
    decreases i,
{
    if i > 0 && j > 0 && i <= a.len() && j <= b.len() && a[i - 1] == b[j - 1] {
        lemma_common_end_bound(a, b, (i - 1) as nat, (j - 1) as nat);
    }
}

proof fn lemma_best_in_row(a: Seq<Seq<char>>, b: Seq<Seq<char>>, i: nat, j: nat)
    ensures
        best_in_row(a, b, i, j) <= i,
        forall|k: nat| k <= j ==> common_end(a, b, i, k) <= best_in_row(a, b, i, j),
        best_in_row(a, b, i, j) > 0 ==> exists|k: nat| k <= j && common_end(a, b, i, k) == best_in_row(a, b, i, j),
    decreases j,
{
    lemma_common_end_bound(a, b, i, j);
    if j > 0 {
        lemma_best_in_row(a, b, i, (j - 1) as nat);
    }
}

proof fn lemma_longest_bound(a: Seq<Seq<char>>, b: Seq<Seq<char>>, i: nat)
    ensures
        longest_run(a, b, i).0 <= longest_run(a, b, i).1 <= i,
    decreases i,
{
    if i > 0 {
        lemma_longest_bound(a, b, (i - 1) as nat);
        lemma_best_in_row(a, b, i, b.len());
    }
}

pub fn longest_common_run(a: &Vec<String>, b: &Vec<String>) -> (r: (usize, usize))
    ensures
        (r.0 as nat, r.1 as nat) == longest_run(a.deep_view(), b.deep_view(), a@.len()),
        r.0 <= r.1 <= a@.len(),
{
    let ghost av = a.deep_view();
    let ghost bv = b.deep_view();
    let mut best: (usize, usize) = (0, 0);
    let mut prev: Vec<usize> = Vec::new();
    let mut z: usize = 0;
    prev.push(0);
    while z < b.len()
        invariant
            z <= b@.len(),
            prev@.len() == z + 1,
            forall|k: int| 0 <= k <= z ==> prev@[k] == 0,
        decreases b@.len() - z,
    {
        prev.push(0);
        z = z + 1;
    }
    let mut i: usize = 0;
    while i < a.len()
        invariant
            i <= a@.len(),
            av == a.deep_view(),
            bv == b.deep_view(),
            prev@.len() == b@.len() + 1,
            forall|k: int| 0 <= k <= b@.len() ==> prev@[k] == common_end(av, bv, i as nat, k as nat),
            (best.0 as nat, best.1 as nat) == longest_run(av, bv, i as nat),
        decreases a@.len() - i,
    {
        let mut cur: Vec<usize> = Vec::new();
        cur.push(0);
        let ghost before = best;
        let mut j: usize = 0;
        while j < b.len()
            invariant
                j <= b@.len(),
                i < a.len(),
                av == a.deep_view(),
                bv == b.deep_view(),
                prev@.len() == b@.len() + 1,
                forall|k: int| 0 <= k <= b@.len() ==> prev@[k] == common_end(av, bv, i as nat, k as nat),
                cur@.len() == j + 1,
                forall|k: int| 0 <= k <= j ==> cur@[k] == common_end(av, bv, (i + 1) as nat, k as nat),
                (best.0 as nat, best.1 as nat) == (if best_in_row(av, bv, (i + 1) as nat, j as nat) > before.0 {
                    (best_in_row(av, bv, (i + 1) as nat, j as nat), (i + 1) as nat)
                } else {
                    (before.0 as nat, before.1 as nat)
                }),
            decreases b@.len() - j,
        {
            proof {
                lemma_common_end_bound(av, bv, i as nat, j as nat);
                lemma_best_in_row(av, bv, (i + 1) as nat, j as nat);
                assert(av[i as int] == a@[i as int]@);
                assert(bv[j as int] == b@[j as int]@);
            }
            let n: usize = if same(a[i].as_str(), b[j].as_str()) { prev[j] + 1 } else { 0 };
            cur.push(n);
            if n > best.0 {
                best = (n, i + 1);
            }
            j = j + 1;
        }
        proof {
            lemma_best_in_row(av, bv, (i + 1) as nat, bv.len());
        }
        prev = cur;
        i = i + 1;
    }
    proof {
        lemma_longest_bound(av, bv, a@.len());
    }
    best
}

/// The longest stretch that a reply copies, by length and text, where it is
/// long enough to be a copy.
pub open spec fn copy_in(reply: Seq<char>, material: Seq<char>) -> Option<(nat, Seq<char>)> {
    let r = folded_words(reply);
    let m = folded_words(material);
    let run = longest_run(r, m, r.len());
    if run.0 < MIN_SPAN_WORDS {
        None
    } else {
        Some((run.0, text::joined(r.subrange(run.1 - run.0, run.1 as int), " "@)))
    }
}

/// `(length, text)` of the longest copied run of words, or `None` below the
/// floor.
pub fn copied_span(reply: &str, material: &str) -> (r: Option<(usize, String)>)
    ensures
        match r {
            Some(c) => copy_in(reply@, material@) == Some((c.0 as nat, c.1@)),
            None => copy_in(reply@, material@) is None,
        },
        r matches Some(c) ==> c.0 <= folded_words(reply@).len(),
{
    let rs: Vec<String> = words(reply);
    let ms: Vec<String> = words(material);
    let (len, end): (usize, usize) = longest_common_run(&rs, &ms);
    if len < MIN_SPAN_WORDS {
        return None;
    }
    let ghost all = rs.deep_view();
    let mut span: Vec<String> = Vec::new();
    let mut i: usize = end - len;
    while i < end
        invariant
            end - len <= i <= end <= rs@.len(),
            len <= end,
            all == rs.deep_view(),
            span.deep_view() == all.subrange(end - len, i as int),
        decreases end - i,
    {
        let ghost before = span.deep_view();
        span.push(rs[i].clone());
        proof {
            assert(span.deep_view() =~= before.push(all[i as int]));
            assert(all.subrange(end - len, i + 1) =~= all.subrange(end - len, i as int).push(all[i as int]));
        }
        i = i + 1;
    }
    Some((len, join(&span, " ")))
}

/// How many words a reply has.
pub fn word_count(reply: &str) -> (r: usize)
    ensures
        r == folded_words(reply@).len(),
{
    words(reply).len()
}

/// The run that is found is one that both texts share, and neither text shares a
/// longer one with the other.
pub proof fn the_longest_run_is_shared_and_longest(a: Seq<Seq<char>>, b: Seq<Seq<char>>)
    ensures
        ({
            let (len, end) = longest_run(a, b, a.len());
            &&& len <= end <= a.len()
            &&& len > 0 ==> exists|j: nat|
                len <= j <= b.len() && a.subrange(end - len, end as int) == #[trigger] b.subrange(j - len, j as int)
            &&& forall|i: nat, j: nat, n: nat|
                n <= i <= a.len() && n <= j <= b.len() && #[trigger] a.subrange(i - n, i as int)
                    == #[trigger] b.subrange(j - n, j as int) ==> n <= len
        }),
{
    lemma_longest_bound(a, b, a.len());
    lemma_longest_over(a, b, a.len());
    let (len, end) = longest_run(a, b, a.len());
    if len > 0 {
        let j = choose|j: nat| j <= b.len() && common_end(a, b, end, j) == len;
        lemma_common_end_bound(a, b, end, j);
        lemma_common_end_is_shared(a, b, end, j);
        assert(a.subrange(end - len, end as int) == b.subrange(j - len, j as int));
    }
    assert forall|i: nat, j: nat, n: nat|
        n <= i <= a.len() && n <= j <= b.len() && #[trigger] a.subrange(i - n, i as int) == #[trigger] b.subrange(
            j - n,
            j as int,
        ) implies n <= len by {
        lemma_shared_is_common_end(a, b, i, j, n);
    }
}

proof fn lemma_common_end_is_shared(a: Seq<Seq<char>>, b: Seq<Seq<char>>, i: nat, j: nat)
    requires
        i <= a.len(),
        j <= b.len(),
    ensures
        ({
            let n = common_end(a, b, i, j);
            n <= i && n <= j && a.subrange(i - n, i as int) == b.subrange(j - n, j as int)
        }),
    decreases i,
{
    lemma_common_end_bound(a, b, i, j);
    let n = common_end(a, b, i, j);
    if n > 0 {
        lemma_common_end_is_shared(a, b, (i - 1) as nat, (j - 1) as nat);
        assert(a.subrange(i - n, i as int) =~= a.subrange(i - n, i - 1).push(a[i - 1]));
        assert(b.subrange(j - n, j as int) =~= b.subrange(j - n, j - 1).push(b[j - 1]));
    } else {
        assert(a.subrange(i as int, i as int) =~= b.subrange(j as int, j as int));
    }
}

proof fn lemma_shared_is_common_end(a: Seq<Seq<char>>, b: Seq<Seq<char>>, i: nat, j: nat, n: nat)
    requires
        n <= i <= a.len(),
        n <= j <= b.len(),
        a.subrange(i - n, i as int) == b.subrange(j - n, j as int),
    ensures
        n <= common_end(a, b, i, j),
    decreases n,
{
    if n > 0 {
        assert(a.subrange(i - n, i as int)[n - 1] == a[i - 1]);
        assert(b.subrange(j - n, j as int)[n - 1] == b[j - 1]);
        assert(a.subrange(i - n, i - 1) =~= a.subrange(i - n, i as int).drop_last());
        assert(b.subrange(j - n, j - 1) =~= b.subrange(j - n, j as int).drop_last());
        lemma_shared_is_common_end(a, b, (i - 1) as nat, (j - 1) as nat, (n - 1) as nat);
    }
}

proof fn lemma_longest_over(a: Seq<Seq<char>>, b: Seq<Seq<char>>, n: nat)
    ensures
        forall|i: nat, j: nat| i <= n && j <= b.len() ==> common_end(a, b, i, j) <= longest_run(a, b, n).0,
        longest_run(a, b, n).0 > 0 ==> exists|j: nat|
            j <= b.len() && common_end(a, b, longest_run(a, b, n).1, j) == longest_run(a, b, n).0,
    decreases n,
{
    if n > 0 {
        lemma_longest_over(a, b, (n - 1) as nat);
        lemma_best_in_row(a, b, n, b.len());
        let rest = longest_run(a, b, (n - 1) as nat);
        let row = best_in_row(a, b, n, b.len());
        if row > rest.0 {
            let k = choose|k: nat| k <= b.len() && common_end(a, b, n, k) == row;
            assert(common_end(a, b, longest_run(a, b, n).1, k) == longest_run(a, b, n).0);
        } else if rest.0 > 0 {
            let k = choose|k: nat| k <= b.len() && common_end(a, b, rest.1, k) == rest.0;
            assert(common_end(a, b, longest_run(a, b, n).1, k) == longest_run(a, b, n).0);
        }
    }
}

/// The two have `n` words in a row in common, from `i` in the one and from `j` in the other.
pub open spec fn share(a: Seq<Seq<char>>, b: Seq<Seq<char>>, i: int, j: int, n: int) -> bool {
    &&& 0 <= i && 0 <= n && i + n <= a.len()
    &&& 0 <= j && j + n <= b.len()
    &&& a.subrange(i, i + n) == b.subrange(j, j + n)
}

/// A reply copies where it shares four words in a row with the material, case and
/// punctuation aside, and what is told is a longest such run, as long as told, by its words.
pub proof fn a_copy_is_four_words_or_more(reply: Seq<char>, material: Seq<char>)
    ensures
        ({
            let r = folded_words(reply);
            let m = folded_words(material);
            &&& copy_in(reply, material) is Some <==> exists|i: int, j: int| #[trigger] share(r, m, i, j, 4)
            &&& copy_in(reply, material) matches Some(c) ==> {
                &&& exists|i: int, j: int| #[trigger]
                    share(r, m, i, j, c.0 as int) && c.1 == text::joined(r.subrange(i, i + c.0), " "@)
                &&& forall|i: int, j: int, n: int| #[trigger] share(r, m, i, j, n) ==> n <= c.0
            }
        }),
{
    let r = folded_words(reply);
    let m = folded_words(material);
    the_longest_run_is_shared_and_longest(r, m);
    let (len, end) = longest_run(r, m, r.len());
    assert forall|i: int, j: int, n: int| #[trigger] share(r, m, i, j, n) implies n <= len by {
        let (x, y, k) = ((i + n) as nat, (j + n) as nat, n as nat);
        assert(r.subrange(x - k, x as int) == m.subrange(y - k, y as int));
    }
    if len >= 4 {
        let j = choose|j: nat|
            len <= j <= m.len() && r.subrange(end - len, end as int) == #[trigger] m.subrange(j - len, j as int);
        let (a, b) = (end - len, j - len);
        assert(share(r, m, a, b, len as int));
        assert(r.subrange(a, a + 4) =~= r.subrange(a, a + len).take(4));
        assert(m.subrange(b, b + 4) =~= m.subrange(b, b + len).take(4));
        assert(share(r, m, a, b, 4));
        let c = copy_in(reply, material)->0;
        assert(c.0 == len);
        assert(r.subrange(a, a + c.0) =~= r.subrange(end - len, end as int));
        assert(share(r, m, a, b, c.0 as int) && c.1 == text::joined(r.subrange(a, a + c.0), " "@));
    } else if exists|i: int, j: int| #[trigger] share(r, m, i, j, 4) {
        let (i, j) = choose|i: int, j: int| #[trigger] share(r, m, i, j, 4);
        assert(share(r, m, i, j, 4));
    }
}

/// Of several longest runs the first in the reply is told.
pub proof fn the_first_longest_run_is_told(a: Seq<Seq<char>>, b: Seq<Seq<char>>, i: nat, j: nat)
    requires
        ({
            let (len, end) = longest_run(a, b, a.len());
            len > 0 && len <= i <= a.len() && len <= j <= b.len() && a.subrange(i - len, i as int) == b.subrange(
                j - len,
                j as int,
            )
        }),
    ensures
        longest_run(a, b, a.len()).1 <= i,
{
    let (len, end) = longest_run(a, b, a.len());
    lemma_shared_is_common_end(a, b, i, j, len);
    lemma_first_run(a, b, a.len(), i, j);
}

proof fn lemma_first_run(a: Seq<Seq<char>>, b: Seq<Seq<char>>, n: nat, i: nat, j: nat)
    requires
        i <= n,
        j <= b.len(),
        longest_run(a, b, n).0 > 0,
        common_end(a, b, i, j) >= longest_run(a, b, n).0,
    ensures
        longest_run(a, b, n).1 <= i,
    decreases n,
{
    let rest = longest_run(a, b, (n - 1) as nat);
    let row = best_in_row(a, b, n, b.len());
    if row > rest.0 {
        lemma_longest_over(a, b, (n - 1) as nat);
        if i < n {
            assert(common_end(a, b, i, j) <= rest.0);
        }
    } else {
        if i < n {
            lemma_first_run(a, b, (n - 1) as nat, i, j);
        } else {
            lemma_longest_bound(a, b, (n - 1) as nat);
        }
    }
}

/// The words of a text are its stretches of letters and digits, in lower case.
pub proof fn words_are_folded_stretches(s: Seq<char>)
    ensures
        folded_words(s).len() == text::pieces(s, Sort::Alnum, true).len(),
        forall|i: int|
            0 <= i < folded_words(s).len() ==> #[trigger] folded_words(s)[i] == unicode::lowered(
                text::pieces(s, Sort::Alnum, true)[i],
            ),
{
}

} // verus!
