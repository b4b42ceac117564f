//! Texts as sequences of characters: searching, trimming, joining, replacing,
//! clipping and decimal numbers.

use vstd::prelude::*;

use crate::unicode;

verus! {

/// `String::push` appends the character to the end of the text.
pub assume_specification[ String::push ](s: &mut String, c: char)
    ensures
        final(s)@ == old(s)@.push(c),
;

// ---------------------------------------------------------------------------
// Characters and equality
// ---------------------------------------------------------------------------

/// The characters of a text.
pub fn chars_of(s: &str) -> (r: Vec<char>)
    ensures
        r@ == s@,
{
    let mut out: Vec<char> = Vec::new();
    for c in it: s.chars()
        invariant
            it.seq() == s@,
            out@ == s@.take(it.index() as int),
    {
        proof {
            assert(s@.take(it.index() as int + 1) =~= s@.take(it.index() as int).push(s@[it.index() as int]));
        }
        out.push(c);
    }
    proof {
        assert(s@.take(s@.len() as int) =~= s@);
    }
    out
}

/// The text made of characters `from` up to `to` of `cs`.
pub fn text_of(cs: &Vec<char>, from: usize, to: usize) -> (r: String)
    requires
        from <= to <= cs@.len(),
    ensures
        r@ == cs@.subrange(from as int, to as int),
{
    let mut out: String = String::new();
    let mut i: usize = from;
    while i < to
        invariant
            from <= i <= to <= cs@.len(),
            out@ == cs@.subrange(from as int, i as int),
        decreases to - i,
    {
        out.push(cs[i]);
        i = i + 1;
        proof {
            assert(cs@.subrange(from as int, i as int) =~= cs@.subrange(from as int, i - 1).push(cs@[i - 1]));
        }
    }
    out
}

/// Whether two texts are the same.
pub fn same(a: &str, b: &str) -> (r: bool)
    ensures
        r == (a@ == b@),
{
    a.to_owned() == b.to_owned()
}

/// Whether `s` is one of `list`.
pub fn listed(list: &Vec<String>, s: &str) -> (r: bool)
    ensures
        r == list.deep_view().contains(s@),
{
    let mut i: usize = 0;
    while i < list.len()
        invariant
            i <= list@.len(),
            forall|j: int| 0 <= j < i ==> #[trigger] list.deep_view()[j] != s@,
        decreases list@.len() - i,
    {
        if same(list[i].as_str(), s) {
            assert(list.deep_view()[i as int] == s@);
            return true;
        }
        i = i + 1;
    }
    false
}

// ---------------------------------------------------------------------------
// Concatenation
// ---------------------------------------------------------------------------

pub fn cat2(a: &str, b: &str) -> (r: String)
    ensures
        r@ == a@ + b@,
{
    let mut out: String = a.to_owned();
    out.append(b);
    out
}

pub fn cat3(a: &str, b: &str, c: &str) -> (r: String)
    ensures
        r@ == a@ + b@ + c@,
{
    let mut out: String = a.to_owned();
    out.append(b);
    out.append(c);
    out
}

pub fn cat4(a: &str, b: &str, c: &str, d: &str) -> (r: String)
    ensures
        r@ == a@ + b@ + c@ + d@,
{
    let mut out: String = a.to_owned();
    out.append(b);
    out.append(c);
    out.append(d);
    out
}

pub fn cat5(a: &str, b: &str, c: &str, d: &str, e: &str) -> (r: String)
    ensures
        r@ == a@ + b@ + c@ + d@ + e@,
{
    let mut out: String = a.to_owned();
    out.append(b);
    out.append(c);
    out.append(d);
    out.append(e);
    out
}

pub fn cat6(a: &str, b: &str, c: &str, d: &str, e: &str, f: &str) -> (r: String)
    ensures
        r@ == a@ + b@ + c@ + d@ + e@ + f@,
{
    let mut out: String = a.to_owned();
    out.append(b);
    out.append(c);
    out.append(d);
    out.append(e);
    out.append(f);
    out
}

pub fn cat7(a: &str, b: &str, c: &str, d: &str, e: &str, f: &str, g: &str) -> (r: String)
    ensures
        r@ == a@ + b@ + c@ + d@ + e@ + f@ + g@,
{
    let mut out: String = a.to_owned();
    out.append(b);
    out.append(c);
    out.append(d);
    out.append(e);
    out.append(f);
    out.append(g);
    out
}

// ---------------------------------------------------------------------------
// Searching
// ---------------------------------------------------------------------------

/// `needle` stands in `hay` at position `i`.
pub open spec fn occurs_at(hay: Seq<char>, needle: Seq<char>, i: int) -> bool {
    0 <= i && i + needle.len() <= hay.len() && hay.subrange(i, i + needle.len()) == needle
}

/// `needle` stands somewhere in `hay`.
pub open spec fn contains(hay: Seq<char>, needle: Seq<char>) -> bool {
    exists|i: int| occurs_at(hay, needle, i)
}

/// The first position of `needle` in `hay` at or after `from`.
pub open spec fn found_from(hay: Seq<char>, needle: Seq<char>, from: int) -> Option<int>
    decreases hay.len() + 1 - from,
{
    if from < 0 || from + needle.len() > hay.len() {
        None
    } else if occurs_at(hay, needle, from) {
        Some(from)
    } else {
        found_from(hay, needle, from + 1)
    }
}

/// The first position of `needle` in `hay`.
pub open spec fn found(hay: Seq<char>, needle: Seq<char>) -> Option<int> {
    found_from(hay, needle, 0)
}

/// A first position is one, no earlier one is, and there is none exactly when
/// the needle is absent.
pub proof fn lemma_found_from(hay: Seq<char>, needle: Seq<char>, from: int)
    requires
        0 <= from,
    ensures
        match found_from(hay, needle, from) {
            Some(i) => from <= i && occurs_at(hay, needle, i) && (forall|j: int|
                from <= j < i ==> !occurs_at(hay, needle, j)),
            None => forall|j: int| from <= j ==> !occurs_at(hay, needle, j),
        },
    decreases hay.len() + 1 - from,
{
    if from + needle.len() <= hay.len() && !occurs_at(hay, needle, from) {
        lemma_found_from(hay, needle, from + 1);
    }
}

pub proof fn lemma_found(hay: Seq<char>, needle: Seq<char>)
    ensures
        contains(hay, needle) == (found(hay, needle) is Some),
        found(hay, needle) matches Some(i) ==> occurs_at(hay, needle, i),
{
    lemma_found_from(hay, needle, 0);
    if contains(hay, needle) {
        let i = choose|i: int| occurs_at(hay, needle, i);
        assert(occurs_at(hay, needle, i));
    }
}

/// Whether `needle` stands in `hay` at `at`.
pub fn stands_at(hay: &Vec<char>, needle: &Vec<char>, at: usize) -> (r: bool)
    requires
        at + needle@.len() <= hay@.len(),
    ensures
        r == occurs_at(hay@, needle@, at as int),
{
    let mut k: usize = 0;
    while k < needle.len()
        invariant
            k <= needle@.len(),
            at + needle@.len() <= hay.len(),
            forall|j: int| 0 <= j < k ==> hay@[at + j] == needle@[j],
        decreases needle@.len() - k,
    {
        if hay[at + k] != needle[k] {
            proof {
                if occurs_at(hay@, needle@, at as int) {
                    assert(hay@.subrange(at as int, at + needle@.len())[k as int] == needle@[k as int]);
                }
            }
            return false;
        }
        k = k + 1;
    }
    proof {
        assert(hay@.subrange(at as int, at + needle@.len()) =~= needle@);
    }
    true
}

/// The first position of `needle` in `hay` at or after `from`.
pub fn find_from(hay: &Vec<char>, needle: &Vec<char>, from: usize) -> (r: Option<usize>)
    ensures
        match r {
            Some(i) => found_from(hay@, needle@, from as int) == Some(i as int),
            None => found_from(hay@, needle@, from as int) is None,
        },
{
    let mut i: usize = from;
    if needle.len() > hay.len() {
        return None;
    }
    let last: usize = hay.len() - needle.len();
    while i <= last
        invariant
            from <= i,
            last + needle@.len() == hay@.len(),
            found_from(hay@, needle@, from as int) == found_from(hay@, needle@, i as int),
        decreases last + 1 - i,
    {
        if stands_at(hay, needle, i) {
            return Some(i);
        }
        if i == last {
            assert(found_from(hay@, needle@, i + 1) is None);
            return None;
        }
        i = i + 1;
    }
    None
}

/// The position of the first `needle` in `hay`, counted in characters.
pub fn find(hay: &str, needle: &str) -> (r: Option<usize>)
    ensures
        match r {
            Some(i) => found(hay@, needle@) == Some(i as int),
            None => found(hay@, needle@) is None,
        },
{
    let h: Vec<char> = chars_of(hay);
    let n: Vec<char> = chars_of(needle);
    find_from(&h, &n, 0)
}

/// Whether `needle` stands somewhere in `hay`.
pub fn has(hay: &str, needle: &str) -> (r: bool)
    ensures
        r == contains(hay@, needle@),
{
    proof {
        lemma_found(hay@, needle@);
    }
    find(hay, needle).is_some()
}

/// `s` begins with `p`.
pub open spec fn starts(s: Seq<char>, p: Seq<char>) -> bool {
    p.len() <= s.len() && s.take(p.len() as int) == p
}

/// `s` ends with `p`.
pub open spec fn ends(s: Seq<char>, p: Seq<char>) -> bool {
    p.len() <= s.len() && s.skip(s.len() - p.len()) == p
}

pub fn starts_with(s: &str, p: &str) -> (r: bool)
    ensures
        r == starts(s@, p@),
{
    let h: Vec<char> = chars_of(s);
    let n: Vec<char> = chars_of(p);
    if n.len() > h.len() {
        return false;
    }
    proof {
        assert(h@.subrange(0, n@.len() as int) =~= h@.take(n@.len() as int));
    }
    stands_at(&h, &n, 0)
}

pub fn ends_with(s: &str, p: &str) -> (r: bool)
    ensures
        r == ends(s@, p@),
{
    let h: Vec<char> = chars_of(s);
    let n: Vec<char> = chars_of(p);
    if n.len() > h.len() {
        return false;
    }
    proof {
        assert(h@.subrange(h@.len() - n@.len(), h@.len() as int) =~= h@.skip(h@.len() - n@.len()));
    }
    stands_at(&h, &n, h.len() - n.len())
}

/// What follows the prefix `p`, where `s` begins with it.
pub open spec fn stripped(s: Seq<char>, p: Seq<char>) -> Option<Seq<char>> {
    if starts(s, p) {
        Some(s.skip(p.len() as int))
    } else {
        None
    }
}

pub fn strip_prefix(s: &str, p: &str) -> (r: Option<String>)
    ensures
        r.deep_view() == stripped(s@, p@),
{
    if starts_with(s, p) {
        let h: Vec<char> = chars_of(s);
        let n: Vec<char> = chars_of(p);
        let rest: String = text_of(&h, n.len(), h.len());
        proof {
            assert(h@.subrange(n@.len() as int, h@.len() as int) =~= s@.skip(p@.len() as int));
        }
        Some(rest)
    } else {
        None
    }
}

// ---------------------------------------------------------------------------
// Trimming and splitting
// ---------------------------------------------------------------------------

/// A sort of characters.
#[derive(Debug, Clone, Copy, PartialEq, Eq, Structural)]
pub enum Sort {
    /// White space.
    White,
    /// Letters and numbers of any script.
    Alnum,
    /// ASCII letters and digits, and the underscore.
    Ident,
}

pub open spec fn ascii_alnum(c: char) -> bool {
    ('a' <= c && c <= 'z') || ('A' <= c && c <= 'Z') || is_digit(c)
}

pub fn is_ascii_alnum(c: char) -> (r: bool)
    ensures
        r == ascii_alnum(c),
{
    ('a' <= c && c <= 'z') || ('A' <= c && c <= 'Z') || ('0' <= c && c <= '9')
}

/// The character is of the sort.
pub open spec fn of_sort(c: char, sort: Sort) -> bool {
    match sort {
        Sort::White => unicode::whitespace(c),
        Sort::Alnum => unicode::alphanumeric(c),
        Sort::Ident => ascii_alnum(c) || c == '_',
    }
}

pub fn is_of(c: char, sort: Sort) -> (r: bool)
    ensures
        r == of_sort(c, sort),
{
    match sort {
        Sort::White => c.is_whitespace(),
        Sort::Alnum => c.is_alphanumeric(),
        Sort::Ident => is_ascii_alnum(c) || c == '_',
    }
}

/// How many characters at the front of `s` are all of the sort, or all not.
pub open spec fn run(s: Seq<char>, sort: Sort, yes: bool) -> nat
    decreases s.len(),
{
    if s.len() > 0 && of_sort(s[0], sort) == yes {
        1 + run(s.drop_first(), sort, yes)
    } else {
        0
    }
}

/// `s` without the characters of (or not of) the sort in front.
pub open spec fn without_front(s: Seq<char>, sort: Sort, yes: bool) -> Seq<char> {
    s.skip(run(s, sort, yes) as int)
}

/// `s` without the characters of (or not of) the sort behind.
pub open spec fn without_back(s: Seq<char>, sort: Sort, yes: bool) -> Seq<char>
    decreases s.len(),
{
    if s.len() > 0 && of_sort(s.last(), sort) == yes {
        without_back(s.drop_last(), sort, yes)
    } else {
        s
    }
}

/// `s` without the characters of (or not of) the sort on either side.
pub open spec fn without_edges(s: Seq<char>, sort: Sort, yes: bool) -> Seq<char> {
    without_back(without_front(s, sort, yes), sort, yes)
}

/// `s` without the white space on either side.
pub open spec fn trimmed(s: Seq<char>) -> Seq<char> {
    without_edges(s, Sort::White, true)
}

/// The longest stretches of `s` whose characters are all of (or not of) the sort.
pub open spec fn pieces(s: Seq<char>, sort: Sort, yes: bool) -> Seq<Seq<char>>
    decreases s.len(),
{
    let t = without_front(s, sort, !yes);
    let n = run(t, sort, yes);
    if 0 < n <= t.len() && t.len() <= s.len() {
        seq![t.take(n as int)] + pieces(t.skip(n as int), sort, yes)
    } else {
        seq![]
    }
}

/// The words of `s`: its stretches without white space.
pub open spec fn words_of(s: Seq<char>) -> Seq<Seq<char>> {
    pieces(s, Sort::White, false)
}

pub proof fn lemma_run(s: Seq<char>, sort: Sort, yes: bool)
    ensures
        run(s, sort, yes) <= s.len(),
        forall|i: int| 0 <= i < run(s, sort, yes) ==> of_sort(#[trigger] s[i], sort) == yes,
        run(s, sort, yes) < s.len() ==> of_sort(s[run(s, sort, yes) as int], sort) != yes,
    decreases s.len(),
{
    if s.len() > 0 && of_sort(s[0], sort) == yes {
        lemma_run(s.drop_first(), sort, yes);
        assert forall|i: int| 0 <= i < run(s, sort, yes) implies of_sort(#[trigger] s[i], sort) == yes by {
            if i > 0 {
                assert(s.drop_first()[i - 1] == s[i]);
            }
        }
        if run(s, sort, yes) < s.len() {
            assert(s.drop_first()[run(s, sort, yes) - 1] == s[run(s, sort, yes) as int]);
        }
    }
}

/// The run ends where a character of the other kind, or nothing, follows `n` of this one.
pub proof fn lemma_run_is(s: Seq<char>, sort: Sort, yes: bool, n: int)
    requires
        0 <= n <= s.len(),
        forall|i: int| 0 <= i < n ==> of_sort(#[trigger] s[i], sort) == yes,
        n < s.len() ==> of_sort(s[n], sort) != yes,
    ensures
        run(s, sort, yes) == n,
{
    lemma_run(s, sort, yes);
    let r = run(s, sort, yes) as int;
    if r < n {
        assert(of_sort(s[r], sort) == yes);
    } else if n < r {
        assert(of_sort(s[n], sort) == yes);
    }
}

proof fn lemma_without_back_is(s: Seq<char>, sort: Sort, yes: bool, n: int)
    requires
        0 <= n <= s.len(),
        forall|i: int| n <= i < s.len() ==> of_sort(#[trigger] s[i], sort) == yes,
        n > 0 ==> of_sort(s[n - 1], sort) != yes,
    ensures
        without_back(s, sort, yes) == s.take(n),
    decreases s.len(),
{
    if n < s.len() {
        assert(of_sort(s[s.len() - 1], sort) == yes);
        lemma_without_back_is(s.drop_last(), sort, yes, n);
        assert(s.drop_last().take(n) =~= s.take(n));
    } else {
        assert(s.take(n) =~= s);
    }
}

/// What stays without the edges is one stretch of the text: everything in front of it
/// and behind it is of the kind that is taken off, and it begins and ends with
/// something that is not; where all of the text is of that kind, nothing stays.
pub proof fn edges_are_all_that_is_taken_off(s: Seq<char>, sort: Sort, yes: bool)
    ensures
        exists|from: int, to: int| #[trigger] stays(s, sort, yes, from, to) && without_edges(s, sort, yes) == s.subrange(from, to),
{
    lemma_run(s, sort, yes);
    let from = run(s, sort, yes) as int;
    let t = s.skip(from);
    lemma_without_back(t, sort, yes);
    let n = without_back(t, sort, yes).len() as int;
    if n == 0 && t.len() > 0 {
        assert(of_sort(t[0], sort) == yes);
        assert(of_sort(s[from], sort) == yes);
    }
    assert forall|i: int| from + n <= i < s.len() implies of_sort(#[trigger] s[i], sort) == yes by {
        assert(s[i] == t[i - from]);
    }
    if n > 0 {
        assert(t[0] == s[from]);
        assert(t[n - 1] == s[from + n - 1]);
    }
    assert(stays(s, sort, yes, from, from + n));
    assert(t.take(n) =~= s.subrange(from, from + n));
}

pub open spec fn stays(s: Seq<char>, sort: Sort, yes: bool, from: int, to: int) -> bool {
    &&& 0 <= from <= to <= s.len()
    &&& forall|i: int| 0 <= i < from ==> of_sort(#[trigger] s[i], sort) == yes
    &&& forall|i: int| to <= i < s.len() ==> of_sort(#[trigger] s[i], sort) == yes
    &&& from < to ==> of_sort(s[from], sort) != yes && of_sort(s[to - 1], sort) != yes
}

proof fn lemma_without_back(s: Seq<char>, sort: Sort, yes: bool)
    ensures
        without_back(s, sort, yes).len() <= s.len(),
        without_back(s, sort, yes) == s.take(without_back(s, sort, yes).len() as int),
        forall|i: int| without_back(s, sort, yes).len() <= i < s.len() ==> of_sort(#[trigger] s[i], sort) == yes,
        without_back(s, sort, yes).len() > 0 ==> of_sort(s[without_back(s, sort, yes).len() - 1], sort) != yes,
    decreases s.len(),
{
    if s.len() > 0 && of_sort(s.last(), sort) == yes {
        let r = s.drop_last();
        lemma_without_back(r, sort, yes);
        let n = without_back(r, sort, yes).len() as int;
        assert(r.take(n) =~= s.take(n));
        assert forall|i: int| n <= i < s.len() implies of_sort(#[trigger] s[i], sort) == yes by {
            if i < r.len() {
                assert(r[i] == s[i]);
            }
        }
        if n > 0 {
            assert(r[n - 1] == s[n - 1]);
        }
    } else {
        assert(s.take(s.len() as int) =~= s);
    }
}

/// Something stays exactly where some character is not of the kind.
pub proof fn lemma_without_edges_is_empty(s: Seq<char>, sort: Sort, yes: bool)
    ensures
        without_edges(s, sort, yes).len() > 0 <==> exists|k: int| 0 <= k < s.len() && of_sort(#[trigger] s[k], sort) != yes,
{
    edges_are_all_that_is_taken_off(s, sort, yes);
    let (from, to) = choose|from: int, to: int|
        #[trigger] stays(s, sort, yes, from, to) && without_edges(s, sort, yes) == s.subrange(from, to);
    if from < to {
        assert(of_sort(s[from], sort) != yes);
    }
}

/// The end of the run of characters of one kind that starts at `from`.
pub fn run_end(cs: &Vec<char>, from: usize, sort: Sort, yes: bool) -> (r: usize)
    requires
        from <= cs@.len(),
    ensures
        from <= r <= cs@.len(),
        r - from == run(cs@.skip(from as int), sort, yes),
{
    let mut i: usize = from;
    while i < cs.len() && is_of(cs[i], sort) == yes
        invariant
            from <= i <= cs@.len(),
            forall|k: int| from <= k < i ==> of_sort(#[trigger] cs@[k], sort) == yes,
        decreases cs@.len() - i,
    {
        i = i + 1;
    }
    proof {
        let t = cs@.skip(from as int);
        assert forall|k: int| 0 <= k < i - from implies of_sort(#[trigger] t[k], sort) == yes by {
            assert(t[k] == cs@[from + k]);
        }
        lemma_run_is(t, sort, yes, i - from);
    }
    i
}

pub fn strip_edges_of(s: &str, sort: Sort, yes: bool) -> (r: String)
    ensures
        r@ == without_edges(s@, sort, yes),
{
    let cs: Vec<char> = chars_of(s);
    let from: usize = run_end(&cs, 0, sort, yes);
    let mut to: usize = cs.len();
    while to > from && is_of(cs[to - 1], sort) == yes
        invariant
            from <= to <= cs@.len(),
            forall|k: int| to <= k < cs@.len() ==> of_sort(#[trigger] cs@[k], sort) == yes,
        decreases to,
    {
        to = to - 1;
    }
    proof {
        assert(cs@.skip(0) =~= cs@);
        let t = without_front(s@, sort, yes);
        assert(t == s@.skip(from as int));
        assert forall|i: int| to - from <= i < t.len() implies of_sort(#[trigger] t[i], sort) == yes by {
            assert(t[i] == cs@[from + i]);
        }
        lemma_without_back_is(t, sort, yes, to - from);
        assert(t.take(to - from) =~= cs@.subrange(from as int, to as int));
    }
    text_of(&cs, from, to)
}

pub fn trim(s: &str) -> (r: String)
    ensures
        r@ == trimmed(s@),
{
    strip_edges_of(s, Sort::White, true)
}

#[verifier::spinoff_prover]
pub fn split_pieces(s: &str, sort: Sort, yes: bool) -> (r: Vec<String>)
    ensures
        r.deep_view() == pieces(s@, sort, yes),
{
    let cs: Vec<char> = chars_of(s);
    let mut out: Vec<String> = Vec::new();
    let mut at: usize = 0;
    proof {
        assert(cs@.skip(0) =~= cs@);
        assert(out.deep_view() + pieces(s@, sort, yes) =~= pieces(s@, sort, yes));
    }
    while at < cs.len()
        invariant
            at <= cs@.len(),
            cs@ == s@,
            out.deep_view() + pieces(cs@.skip(at as int), sort, yes) == pieces(s@, sort, yes),
        decreases cs@.len() - at,
    {
        let from: usize = run_end(&cs, at, sort, !yes);
        let to: usize = run_end(&cs, from, sort, yes);
        let ghost rest = cs@.skip(at as int);
        let ghost t = without_front(rest, sort, !yes);
        proof {
            assert(t =~= cs@.skip(from as int));
            lemma_run(rest, sort, !yes);
            lemma_run(t, sort, yes);
        }
        if to == from {
            proof {
                assert(from == cs@.len());
                assert(pieces(rest, sort, yes) =~= seq![]);
                assert(pieces(cs@.skip(cs@.len() as int), sort, yes) =~= seq![]) by {
                    lemma_run(cs@.skip(cs@.len() as int), sort, !yes);
                    lemma_run(without_front(cs@.skip(cs@.len() as int), sort, !yes), sort, yes);
                }
            }
            at = cs.len();
        } else {
            let ghost before = out.deep_view();
            let word: String = text_of(&cs, from, to);
            out.push(word);
            proof {
                let n = run(t, sort, yes) as int;
                assert(t.take(n) =~= cs@.subrange(from as int, to as int));
                assert(t.skip(n) =~= cs@.skip(to as int));
                assert(out.deep_view() =~= before.push(word@));
                assert(before + (seq![word@] + pieces(cs@.skip(to as int), sort, yes)) =~= out.deep_view()
                    + pieces(cs@.skip(to as int), sort, yes));
            }
            at = to;
        }
    }
    proof {
        let e = cs@.skip(at as int);
        lemma_run(e, sort, !yes);
        lemma_run(without_front(e, sort, !yes), sort, yes);
        assert(pieces(e, sort, yes) =~= seq![]);
        assert(out.deep_view() + pieces(e, sort, yes) =~= out.deep_view());
    }
    out
}

pub fn split_words(s: &str) -> (r: Vec<String>)
    ensures
        r.deep_view() == words_of(s@),
{
    split_pieces(s, Sort::White, false)
}

// ---------------------------------------------------------------------------
// Joining, replacing, clipping
// ---------------------------------------------------------------------------

/// `parts` in order with `sep` between each two.
pub open spec fn joined(parts: Seq<Seq<char>>, sep: Seq<char>) -> Seq<char>
    decreases parts.len(),
{
    if parts.len() == 0 {
        seq![]
    } else if parts.len() == 1 {
        parts[0]
    } else {
        joined(parts.drop_last(), sep) + sep + parts.last()
    }
}

/// What stands in a part stands in the parts joined.
pub proof fn lemma_joined_contains(parts: Seq<Seq<char>>, sep: Seq<char>, i: int, needle: Seq<char>)
    requires
        0 <= i < parts.len(),
        contains(parts[i], needle),
    ensures
        contains(joined(parts, sep), needle),
    decreases parts.len(),
{
    let all = joined(parts, sep);
    if parts.len() > 1 {
        let front = joined(parts.drop_last(), sep);
        if i < parts.len() - 1 {
            lemma_joined_contains(parts.drop_last(), sep, i, needle);
            let k = choose|k: int| occurs_at(front, needle, k);
            assert(all.subrange(k, k + needle.len()) =~= front.subrange(k, k + needle.len()));
            assert(occurs_at(all, needle, k));
        } else {
            let k = choose|k: int| occurs_at(parts[i], needle, k);
            let at = front.len() + sep.len() + k;
            assert(all.subrange(at, at + needle.len()) =~= parts[i].subrange(k, k + needle.len()));
            assert(occurs_at(all, needle, at));
        }
    }
}

pub fn join(parts: &Vec<String>, sep: &str) -> (r: String)
    ensures
        r@ == joined(parts.deep_view(), sep@),
{
    let mut out: String = String::new();
    let mut i: usize = 0;
    let ghost all = parts.deep_view();
    while i < parts.len()
        invariant
            i <= parts@.len(),
            all == parts.deep_view(),
            out@ == joined(all.take(i as int), sep@),
        decreases parts@.len() - i,
    {
        if i > 0 {
            out.append(sep);
        }
        out.append(parts[i].as_str());
        proof {
            assert(all.take(i + 1).drop_last() =~= all.take(i as int));
            assert(all.take(i + 1).last() == parts@[i as int]@);
            if i == 0 {
                assert(joined(all.take(0), sep@) =~= seq![]);
                assert(out@ =~= parts@[0]@);
            }
        }
        i = i + 1;
    }
    proof {
        assert(all.take(all.len() as int) =~= all);
    }
    out
}

/// `s` with every occurrence of `from`, left to right and without overlap,
/// replaced by `to`.
pub open spec fn replaced(s: Seq<char>, from: Seq<char>, to: Seq<char>) -> Seq<char>
    decreases s.len(),
{
    match found(s, from) {
        Some(i) => if 0 <= i && 0 < from.len() && i + from.len() <= s.len() {
            s.take(i) + to + replaced(s.skip(i + from.len()), from, to)
        } else {
            s
        },
        None => s,
    }
}

proof fn lemma_found_shift(s: Seq<char>, needle: Seq<char>, at: int, from: int)
    requires
        0 <= at <= s.len(),
        0 <= from,
    ensures
        found_from(s.skip(at), needle, from) == (match found_from(s, needle, at + from) {
            Some(i) => Some(i - at),
            None => None::<int>,
        }),
    decreases s.len() + 1 - at - from,
{
    if at + from + needle.len() <= s.len() {
        assert(s.skip(at).subrange(from, from + needle.len()) =~= s.subrange(at + from, at + from
            + needle.len()));
        if !occurs_at(s, needle, at + from) {
            lemma_found_shift(s, needle, at, from + 1);
        }
    }
}

pub fn replace(s: &str, from: &str, to: &str) -> (r: String)
    requires
        from@.len() > 0,
    ensures
        r@ == replaced(s@, from@, to@),
{
    let cs: Vec<char> = chars_of(s);
    let fs: Vec<char> = chars_of(from);
    let mut out: String = String::new();
    let mut at: usize = 0;
    proof {
        assert(cs@.skip(0) =~= cs@);
        assert(out@ + replaced(s@, from@, to@) =~= replaced(s@, from@, to@));
    }
    loop
        invariant
            at <= cs@.len(),
            fs@ == from@,
            fs@.len() > 0,
            out@ + replaced(cs@.skip(at as int), from@, to@) == replaced(s@, from@, to@),
        decreases cs@.len() - at,
    {
        let ghost rest = cs@.skip(at as int);
        let hit: Option<usize> = find_from(&cs, &fs, at);
        proof {
            lemma_found_shift(cs@, fs@, at as int, 0);
            lemma_found_from(cs@, fs@, at as int);
        }
        match hit {
            Some(i) => {
                let ghost before = out@;
                let head: String = text_of(&cs, at, i);
                out.append(head.as_str());
                out.append(to);
                proof {
                    assert(i + fs@.len() <= cs.len());
                    assert(rest.take(i - at) =~= head@);
                    assert(rest.skip(i - at + from@.len()) =~= cs@.skip(i + from@.len()));
                    assert(before + (head@ + to@ + replaced(cs@.skip(i + from@.len()), from@, to@))
                        =~= out@ + replaced(cs@.skip(i + from@.len()), from@, to@));
                }
                at = i + fs.len();
            },
            None => {
                let tail: String = text_of(&cs, at, cs.len());
                out.append(tail.as_str());
                proof {
                    assert(tail@ =~= rest);
                }
                return out;
            },
        }
    }
}

/// The first `max` characters of `s`, with an ellipsis where something follows.
pub open spec fn clipped(s: Seq<char>, max: nat) -> Seq<char> {
    if s.len() <= max {
        s
    } else {
        s.take(max as int) + "…"@
    }
}

pub fn truncate_chars(s: &str, max: usize) -> (r: String)
    ensures
        r@ == clipped(s@, max as nat),
{
    let cs: Vec<char> = chars_of(s);
    if cs.len() <= max {
        return s.to_owned();
    }
    let mut head: String = text_of(&cs, 0, max);
    proof {
        assert(cs@.subrange(0, max as int) =~= s@.take(max as int));
    }
    head.append("…");
    head
}

// ---------------------------------------------------------------------------
// Decimal numbers
// ---------------------------------------------------------------------------

/// The decimal digit of a number below ten.
pub open spec fn digit(n: nat) -> char {
    (n + 48) as char
}

/// A number in decimal, without leading zeros.
pub open spec fn decimal(n: nat) -> Seq<char>
    decreases n,
{
    if n < 10 {
        seq![digit(n)]
    } else {
        decimal(n / 10).push(digit(n % 10))
    }
}

fn digit_char(n: u64) -> (r: char)
    requires
        n < 10,
    ensures
        r == digit(n as nat),
{
    (48 + n as u8) as char
}

/// The decimal text of a number.
pub fn number(n: u64) -> (r: String)
    ensures
        r@ == decimal(n as nat),
    decreases n,
{
    if n < 10 {
        let mut out: String = String::new();
        out.push(digit_char(n));
        proof {
            assert(out@ =~= decimal(n as nat));
        }
        out
    } else {
        let mut out: String = number(n / 10);
        out.push(digit_char(n % 10));
        out
    }
}

/// The number that a sequence of decimal digits stands for.
pub open spec fn value_of(s: Seq<char>) -> nat
    decreases s.len(),
{
    if s.len() == 0 {
        0
    } else {
        10 * value_of(s.drop_last()) + (s.last() as nat - 48) as nat
    }
}

pub open spec fn is_digit(c: char) -> bool {
    '0' <= c && c <= '9'
}

pub open spec fn all_digits(s: Seq<char>) -> bool {
    forall|i: int| 0 <= i < s.len() ==> is_digit(#[trigger] s[i])
}

/// What the text says as an unsigned 64-bit number: one or more digits, with a
/// plus sign in front where there is one, and no overflow.
pub open spec fn parsed(s: Seq<char>) -> Option<nat> {
    let d = if s.len() > 0 && s[0] == '+' { s.drop_first() } else { s };
    if d.len() > 0 && all_digits(d) && value_of(d) <= u64::MAX {
        Some(value_of(d))
    } else {
        None
    }
}

pub proof fn lemma_decimal(n: nat)
    ensures
        decimal(n).len() > 0,
        all_digits(decimal(n)),
        value_of(decimal(n)) == n,
    decreases n,
{
    if n < 10 {
        assert(decimal(n).drop_last() =~= seq![]);
        assert(value_of(seq![]) == 0);
    } else {
        lemma_decimal(n / 10);
        assert(decimal(n).drop_last() =~= decimal(n / 10));
    }
}

/// A number's decimal text reads back as the number.
pub proof fn lemma_number_round_trip(n: u64)
    ensures
        parsed(decimal(n as nat)) == Some(n as nat),
{
    lemma_decimal(n as nat);
    assert(is_digit(decimal(n as nat)[0]));
}

proof fn lemma_value_mono(s: Seq<char>, n: int)
    requires
        0 <= n <= s.len(),
    ensures
        value_of(s.take(n)) <= value_of(s),
    decreases s.len(),
{
    if n < s.len() {
        lemma_value_mono(s.drop_last(), n);
        assert(s.drop_last().take(n) =~= s.take(n));
    } else {
        assert(s.take(n) =~= s);
    }
}

pub fn parse_number(s: &str) -> (r: Option<u64>)
    ensures
        match r {
            Some(n) => parsed(s@) == Some(n as nat),
            None => parsed(s@) is None,
        },
{
    let cs: Vec<char> = chars_of(s);
    let start: usize = if cs.len() > 0 && cs[0] == '+' { 1 } else { 0 };
    let ghost d = cs@.skip(start as int);
    proof {
        assert(s@.skip(0) =~= s@);
        assert(d == (if s@.len() > 0 && s@[0] == '+' { s@.drop_first() } else { s@ })) by {
            if start == 1 {
                assert(s@.skip(1) =~= s@.drop_first());
            }
        }
    }
    if start == cs.len() {
        return None;
    }
    let mut n: u64 = 0;
    let mut i: usize = start;
    proof {
        assert(d.take(0) =~= seq![]);
    }
    while i < cs.len()
        invariant
            start <= i <= cs@.len(),
            d == cs@.skip(start as int),
            parsed(s@) == (if d.len() > 0 && all_digits(d) && value_of(d) <= u64::MAX {
                Some(value_of(d))
            } else {
                None
            }),
            n == value_of(d.take(i - start)),
            forall|k: int| 0 <= k < i - start ==> is_digit(#[trigger] d[k]),
        decreases cs@.len() - i,
    {
        let c: char = cs[i];
        assert(d[i - start] == c);
        if !('0' <= c && c <= '9') {
            return None;
        }
        let v: u64 = (c as u32 - 48) as u64;
        proof {
            assert(d.take(i - start + 1).drop_last() =~= d.take(i - start));
            assert(d.take(i - start + 1).last() == c);
            assert(value_of(d.take(i - start + 1)) == 10 * n + v);
            lemma_value_mono(d, i - start + 1);
        }
        match n.checked_mul(10) {
            None => return None,
            Some(m) => match m.checked_add(v) {
                None => return None,
                Some(k) => {
                    n = k;
                },
            },
        }
        i = i + 1;
    }
    proof {
        assert(d.take(d.len() as int) =~= d);
    }
    Some(n)
}

// ---------------------------------------------------------------------------
// Lines and counts
// ---------------------------------------------------------------------------

/// A line without the carriage return that ends it, where one does.
pub open spec fn without_return(line: Seq<char>) -> Seq<char> {
    if line.len() > 0 && line.last() == '\r' {
        line.drop_last()
    } else {
        line
    }
}

/// The lines of a text. Every line but the last ends in a line feed; what
/// follows the last line feed is a line where it is not empty.
pub open spec fn lines_of(s: Seq<char>) -> Seq<Seq<char>>
    decreases s.len(),
{
    match found(s, seq!['\n']) {
        Some(i) => if 0 <= i < s.len() {
            seq![without_return(s.take(i))] + lines_of(s.skip(i + 1))
        } else {
            seq![]
        },
        None => if s.len() == 0 {
            seq![]
        } else {
            seq![s]
        },
    }
}

/// The lines of a text, without the line feeds that end them.
pub fn split_lines(s: &str) -> (r: Vec<String>)
    ensures
        r.deep_view() == lines_of(s@),
{
    let cs: Vec<char> = chars_of(s);
    let mut feed: Vec<char> = Vec::new();
    feed.push('\n');
    let mut out: Vec<String> = Vec::new();
    let mut at: usize = 0;
    proof {
        assert(feed@ =~= seq!['\n']);
        assert(cs@.skip(0) =~= cs@);
        assert(out.deep_view() + lines_of(cs@) =~= lines_of(cs@));
    }
    loop
        invariant
            at <= cs@.len(),
            cs@ == s@,
            feed@ == seq!['\n'],
            out.deep_view() + lines_of(cs@.skip(at as int)) == lines_of(s@),
        decreases cs@.len() - at,
    {
        let ghost rest = cs@.skip(at as int);
        let ghost before = out.deep_view();
        let hit: Option<usize> = find_from(&cs, &feed, at);
        proof {
            lemma_found_shift(cs@, feed@, at as int, 0);
            lemma_found_from(cs@, feed@, at as int);
        }
        match hit {
            Some(i) => {
                let end: usize = if i > at && cs[i - 1] == '\r' { i - 1 } else { i };
                let line: String = text_of(&cs, at, end);
                proof {
                    assert(feed@.len() == 1);
                    assert(i + 1 <= cs.len());
                    assert(rest.take(i - at).len() == i - at);
                    if i > at {
                        assert(rest.take(i - at).last() == cs@[i - 1]);
                    }
                    assert(line@ =~= without_return(rest.take(i - at)));
                    assert(rest.skip(i - at + 1) =~= cs@.skip(i + 1));
                }
                out.push(line);
                proof {
                    assert(out.deep_view() =~= before + seq![without_return(rest.take(i - at))]);
                    assert(out.deep_view() + lines_of(cs@.skip(i + 1)) =~= before + (seq![
                        without_return(rest.take(i - at)),
                    ] + lines_of(cs@.skip(i + 1))));
                }
                at = i + 1;
            },
            None => {
                if at < cs.len() {
                    let line: String = text_of(&cs, at, cs.len());
                    proof {
                        assert(line@ =~= rest);
                    }
                    out.push(line);
                    proof {
                        assert(out.deep_view() =~= before + seq![rest]);
                    }
                } else {
                    proof {
                        assert(rest =~= seq![]);
                        assert(before + Seq::<Seq<char>>::empty() =~= before);
                    }
                }
                return out;
            },
        }
    }
}

/// How often `needle` stands in `s`, left to right and without overlap.
pub open spec fn times_in(s: Seq<char>, needle: Seq<char>) -> nat
    decreases s.len(),
{
    match found(s, needle) {
        Some(i) => if 0 <= i && 0 < needle.len() && i + needle.len() <= s.len() {
            1 + times_in(s.skip(i + needle.len()), needle)
        } else {
            0
        },
        None => 0,
    }
}

/// How often `needle` stands in `s`.
pub fn count_times(s: &str, needle: &str) -> (r: usize)
    requires
        needle@.len() > 0,
    ensures
        r == times_in(s@, needle@),
        r <= s@.len(),
{
    let cs: Vec<char> = chars_of(s);
    let ns: Vec<char> = chars_of(needle);
    let mut at: usize = 0;
    let mut n: usize = 0;
    proof {
        assert(cs@.skip(0) =~= cs@);
    }
    loop
        invariant
            at <= cs@.len(),
            n <= at,
            cs@ == s@,
            ns@ == needle@,
            ns@.len() > 0,
            n + times_in(cs@.skip(at as int), needle@) == times_in(s@, needle@),
        decreases cs@.len() - at,
    {
        let ghost rest = cs@.skip(at as int);
        let hit: Option<usize> = find_from(&cs, &ns, at);
        proof {
            lemma_found_shift(cs@, ns@, at as int, 0);
            lemma_found_from(cs@, ns@, at as int);
        }
        match hit {
            Some(i) => {
                proof {
                    assert(i + ns@.len() <= cs.len());
                    assert(rest.skip(i - at + ns@.len()) =~= cs@.skip(i + ns@.len()));
                }
                at = i + ns.len();
                n = n + 1;
            },
            None => {
                return n;
            },
        }
    }
}

// ---------------------------------------------------------------------------
// Signed numbers
// ---------------------------------------------------------------------------

/// A whole number in decimal, with a minus sign in front where it is negative.
pub open spec fn signed(n: int) -> Seq<char> {
    if n < 0 {
        seq!['-'] + decimal((-n) as nat)
    } else {
        decimal(n as nat)
    }
}

/// The decimal text of a number that may be negative.
pub fn signed_number(n: i64) -> (r: String)
    ensures
        r@ == signed(n as int),
{
    if n < 0 {
        let size: u64 = (-(n + 1)) as u64 + 1;
        let digits: String = number(size);
        let mut out: String = String::new();
        out.push('-');
        out.append(digits.as_str());
        proof {
            assert(out@ =~= signed(n as int));
        }
        out
    } else {
        number(n as u64)
    }
}

/// What the text says as a signed 64-bit number: digits, with one sign in front
/// where there is one, and no overflow.
pub open spec fn parsed_signed(s: Seq<char>) -> Option<int> {
    if s.len() > 0 && s[0] == '-' {
        let d = s.drop_first();
        if d.len() > 0 && all_digits(d) && value_of(d) <= 0x8000_0000_0000_0000 {
            Some(-(value_of(d) as int))
        } else {
            None
        }
    } else {
        match parsed(s) {
            Some(n) => if n <= i64::MAX {
                Some(n as int)
            } else {
                None
            },
            None => None,
        }
    }
}

pub fn parse_signed(s: &str) -> (r: Option<i64>)
    ensures
        match r {
            Some(n) => parsed_signed(s@) == Some(n as int),
            None => parsed_signed(s@) is None,
        },
{
    let cs: Vec<char> = chars_of(s);
    if cs.len() > 0 && cs[0] == '-' {
        let digits: String = text_of(&cs, 1, cs.len());
        let ghost d = s@.drop_first();
        proof {
            assert(digits@ =~= d);
        }
        if cs.len() == 1 {
            return None;
        }
        if !('0' <= cs[1] && cs[1] <= '9') {
            proof {
                assert(d[0] == cs@[1]);
            }
            return None;
        }
        proof {
            assert(d[0] == cs@[1]);
        }
        match parse_number(digits.as_str()) {
            None => None,
            Some(n) => if n == 0 {
                Some(0)
            } else if n <= 0x8000_0000_0000_0000 {
                Some(-((n - 1) as i64) - 1)
            } else {
                None
            },
        }
    } else {
        match parse_number(s) {
            None => None,
            Some(n) => if n <= 0x7fff_ffff_ffff_ffff {
                Some(n as i64)
            } else {
                None
            },
        }
    }
}

/// A signed number's decimal text reads back as the number.
pub proof fn lemma_signed_round_trip(n: i64)
    ensures
        parsed_signed(signed(n as int)) == Some(n as int),
{
    if n < 0 {
        lemma_decimal((-(n as int)) as nat);
        assert(signed(n as int).drop_first() =~= decimal((-(n as int)) as nat));
    } else {
        lemma_decimal(n as nat);
        lemma_number_round_trip(n as u64);
        assert(is_digit(decimal(n as nat)[0]));
    }
}

/// A longest stretch of characters of (or not of) the sort stands from `a` to `b`.
pub open spec fn stretch(s: Seq<char>, sort: Sort, yes: bool, a: int, b: int) -> bool {
    &&& 0 <= a < b <= s.len()
    &&& forall|i: int| a <= i < b ==> of_sort(#[trigger] s[i], sort) == yes
    &&& a > 0 ==> of_sort(s[a - 1], sort) != yes
    &&& b < s.len() ==> of_sort(s[b], sort) != yes
}

/// All longest stretches of the text, in order.
pub open spec fn all_stretches(s: Seq<char>, sort: Sort, yes: bool, at: Seq<(int, int)>) -> bool {
    &&& forall|i: int| 0 <= i < at.len() ==> stretch(s, sort, yes, (#[trigger] at[i]).0, at[i].1)
    &&& forall|i: int, j: int| 0 <= i < j < at.len() ==> (#[trigger] at[i]).1 < (#[trigger] at[j]).0
    &&& forall|a: int, b: int| #[trigger] stretch(s, sort, yes, a, b) ==> at.contains((a, b))
}

/// A text falls into its longest stretches, each as it stands there, all of them and in
/// order.
pub proof fn pieces_are_the_longest_stretches(s: Seq<char>, sort: Sort, yes: bool) -> (at: Seq<(int, int)>)
    ensures
        all_stretches(s, sort, yes, at),
        pieces(s, sort, yes).len() == at.len(),
        forall|i: int| 0 <= i < at.len() ==> #[trigger] pieces(s, sort, yes)[i] == s.subrange(at[i].0, at[i].1),
    decreases s.len(),
{
    lemma_run(s, sort, !yes);
    let r = run(s, sort, !yes) as int;
    let t = s.skip(r);
    lemma_run(t, sort, yes);
    let n = run(t, sort, yes) as int;
    if n == 0 {
        assert(r == s.len()) by {
            if r < s.len() {
                assert(t[0] == s[r]);
                assert(of_sort(s[r], sort) == yes);
                assert(of_sort(t[0], sort) != yes);
            }
        }
        assert forall|a: int, b: int| !(#[trigger] stretch(s, sort, yes, a, b)) by {
            if stretch(s, sort, yes, a, b) {
                assert(of_sort(s[a], sort) == yes);
                assert(of_sort(s[a], sort) == !yes);
            }
        }
        Seq::<(int, int)>::empty()
    } else {
        let k = r + n;
        let rest = t.skip(n);
        assert(rest =~= s.skip(k));
        let more = pieces_are_the_longest_stretches(rest, sort, yes);
        let moved = Seq::new(more.len(), |i: int| (more[i].0 + k, more[i].1 + k));
        let at = seq![(r, k)] + moved;
        assert(t.take(n) =~= s.subrange(r, k));
        assert(pieces(s, sort, yes) == seq![t.take(n)] + pieces(rest, sort, yes));
        assert forall|i: int| r <= i < k implies of_sort(#[trigger] s[i], sort) == yes by {
            assert(t[i - r] == s[i]);
        }
        assert(k < s.len() ==> of_sort(s[k], sort) != yes) by {
            if k < s.len() {
                assert(t[n] == s[k]);
            }
        }
        assert(stretch(s, sort, yes, r, k)) by {
            if r > 0 {
                assert(of_sort(s[r - 1], sort) == !yes);
            }
        }
        assert forall|i: int| 0 <= i < at.len() implies stretch(s, sort, yes, (#[trigger] at[i]).0, at[i].1) by {
            if i > 0 {
                let (a, b) = more[i - 1];
                assert(stretch(rest, sort, yes, a, b));
                assert(a > 0) by {
                    assert(of_sort(rest[a], sort) == yes);
                    if a == 0 {
                        assert(rest[0] == s[k]);
                    }
                }
                lemma_stretch_moves(s, sort, yes, k, a, b);
            }
        }
        assert forall|i: int, j: int| 0 <= i < j < at.len() implies (#[trigger] at[i]).1 < (#[trigger] at[j]).0 by {
            let (a, b) = more[j - 1];
            assert(stretch(rest, sort, yes, a, b));
            if i == 0 {
                assert(of_sort(rest[a], sort) == yes);
                if a == 0 {
                    assert(rest[0] == s[k]);
                }
            } else {
                assert(more[i - 1].1 < more[j - 1].0);
            }
        }
        assert forall|a: int, b: int| #[trigger] stretch(s, sort, yes, a, b) implies at.contains((a, b)) by {
            assert(of_sort(s[a], sort) == yes);
            if a < r {
                assert(of_sort(s[a], sort) == !yes);
            } else if a < k {
                if a > r {
                    assert(of_sort(s[a - 1], sort) == yes);
                }
                if b < k {
                    assert(of_sort(s[b], sort) == yes);
                } else if b > k {
                    assert(of_sort(s[k], sort) == yes);
                }
                assert(at[0] == (a, b));
            } else {
                assert(a > k);
                lemma_stretch_moves(s, sort, yes, k, a - k, b - k);
                let i = choose|i: int| 0 <= i < more.len() && more[i] == (a - k, b - k);
                assert(at[i + 1] == (a, b));
            }
        }
        assert forall|i: int| 0 <= i < at.len() implies #[trigger] pieces(s, sort, yes)[i] == s.subrange(at[i].0, at[i].1) by {
            if i > 0 {
                let (a, b) = more[i - 1];
                assert(stretch(rest, sort, yes, a, b));
                assert(pieces(rest, sort, yes)[i - 1] == rest.subrange(a, b));
                assert(rest.subrange(a, b) =~= s.subrange(a + k, b + k));
            }
        }
        at
    }
}

/// Behind its beginning a stretch of what follows is one of the text.
proof fn lemma_stretch_moves(s: Seq<char>, sort: Sort, yes: bool, k: int, a: int, b: int)
    requires
        0 <= k <= s.len(),
        0 < a,
    ensures
        stretch(s.skip(k), sort, yes, a, b) <==> stretch(s, sort, yes, a + k, b + k),
{
    let t = s.skip(k);
    if stretch(t, sort, yes, a, b) {
        assert forall|i: int| a + k <= i < b + k implies of_sort(#[trigger] s[i], sort) == yes by {
            assert(t[i - k] == s[i]);
        }
        assert(t[a - 1] == s[a + k - 1]);
        if b < t.len() {
            assert(t[b] == s[b + k]);
        }
    }
    if stretch(s, sort, yes, a + k, b + k) {
        assert forall|i: int| a <= i < b implies of_sort(#[trigger] t[i], sort) == yes by {
            assert(t[i] == s[i + k]);
        }
        assert(t[a - 1] == s[a + k - 1]);
        if b < t.len() {
            assert(t[b] == s[b + k]);
        }
    }
}

/// The sorts of characters: white space, letters and digits of any script, and what may stand
/// in an identifier.
pub proof fn what_the_sorts_hold(c: char)
    ensures
        of_sort(c, Sort::White) == unicode::whitespace(c),
        of_sort(c, Sort::Alnum) == unicode::alphanumeric(c),
        of_sort(c, Sort::Ident) <==> ('a' <= c && c <= 'z') || ('A' <= c && c <= 'Z') || ('0' <= c && c <= '9') || c == '_',
{
}

/// Words are separated by white space and by nothing else.
pub proof fn words_are_separated_by_space(s: Seq<char>)
    ensures
        words_of(s) == pieces(s, Sort::White, false),
        forall|i: int, j: int|
            0 <= i < words_of(s).len() && 0 <= j < words_of(s)[i].len() ==> !unicode::whitespace(
                #[trigger] words_of(s)[i][j],
            ),
        (exists|k: int| 0 <= k < s.len() && !unicode::whitespace(#[trigger] s[k])) <==> words_of(s).len() > 0,
{
    let at = pieces_are_the_longest_stretches(s, Sort::White, false);
    assert forall|i: int, j: int|
        0 <= i < words_of(s).len() && 0 <= j < words_of(s)[i].len() implies !unicode::whitespace(
        #[trigger] words_of(s)[i][j],
    ) by {
        let (a, b) = at[i];
        assert(stretch(s, Sort::White, false, a, b));
        assert(words_of(s)[i] == s.subrange(a, b));
        assert(of_sort(s[a + j], Sort::White) == false);
    }
    if words_of(s).len() > 0 {
        assert(stretch(s, Sort::White, false, at[0].0, at[0].1));
        assert(of_sort(s[at[0].0], Sort::White) == false);
    }
    if exists|k: int| 0 <= k < s.len() && !unicode::whitespace(#[trigger] s[k]) {
        let k = choose|k: int| 0 <= k < s.len() && !unicode::whitespace(#[trigger] s[k]);
        if words_of(s).len() == 0 {
            lemma_run(s, Sort::White, true);
            let r = run(s, Sort::White, true) as int;
            if k < r {
                assert(of_sort(s[k], Sort::White) == true);
            }
            let t = s.skip(r);
            assert(t[0] == s[r]);
            lemma_run(t, Sort::White, false);
            assert(run(t, Sort::White, false) > 0);
        }
    }
}

/// Parts joined begin with the first and go on, behind one separator, with the rest joined.
pub proof fn what_is_joined_keeps_its_order(parts: Seq<Seq<char>>, sep: Seq<char>)
    ensures
        parts.len() == 0 ==> joined(parts, sep).len() == 0,
        parts.len() == 1 ==> joined(parts, sep) == parts[0],
        parts.len() > 1 ==> joined(parts, sep) == parts[0] + sep + joined(parts.drop_first(), sep),
    decreases parts.len(),
{
    if parts.len() > 1 {
        let front = parts.drop_last();
        let rest = parts.drop_first();
        what_is_joined_keeps_its_order(front, sep);
        if parts.len() == 2 {
            reveal_with_fuel(joined, 3);
            assert(front[0] == parts[0]);
            assert(rest[0] == parts.last());
        } else {
            assert(front.drop_first() =~= rest.drop_last());
            assert(rest.last() == parts.last());
            assert(joined(parts, sep) == parts[0] + sep + joined(rest.drop_last(), sep) + sep + parts.last());
            assert(joined(rest, sep) == joined(rest.drop_last(), sep) + sep + rest.last());
            assert(parts[0] + sep + joined(rest.drop_last(), sep) + sep + parts.last() =~= parts[0] + sep + (joined(
                rest.drop_last(),
                sep,
            ) + sep + rest.last()));
        }
    }
}

/// Every occurrence is replaced: what stands before the first stays, the replacement follows,
/// and then what is behind it, with its own occurrences replaced; without one all stays.
pub proof fn every_occurrence_is_replaced(s: Seq<char>, from: Seq<char>, to: Seq<char>, i: int)
    requires
        from.len() > 0,
    ensures
        !contains(s, from) ==> replaced(s, from, to) == s,
        occurs_at(s, from, i) && (forall|j: int| 0 <= j < i ==> !(#[trigger] occurs_at(s, from, j))) ==> replaced(s, from, to)
            == s.take(i) + to + replaced(s.skip(i + from.len()), from, to),
{
    lemma_found(s, from);
    lemma_found_from(s, from, 0);
    if occurs_at(s, from, i) && (forall|j: int| 0 <= j < i ==> !(#[trigger] occurs_at(s, from, j))) {
        let f = found(s, from)->0;
        if f < i {
            assert(!occurs_at(s, from, f));
        } else if i < f {
            assert(!occurs_at(s, from, i));
        }
    }
}

/// A text is clipped to its first characters, with an ellipsis where it was longer.
pub proof fn a_clipped_text_keeps_its_beginning(s: Seq<char>, max: nat)
    ensures
        s.len() <= max ==> clipped(s, max) == s,
        s.len() > max ==> clipped(s, max).len() == max + 1 && clipped(s, max).take(max as int) == s.take(max as int)
            && clipped(s, max)[max as int] == '…',
{
    if s.len() > max {
        reveal_strlit("…");
        assert(clipped(s, max).take(max as int) =~= s.take(max as int));
    }
}

/// What a line break separates are the lines, without the carriage return before it.
pub proof fn lines_are_what_breaks_separate(line: Seq<char>, rest: Seq<char>)
    requires
        !contains(line, seq!['\n']),
    ensures
        lines_of(line + seq!['\n'] + rest) == seq![
            if line.len() > 0 && line[line.len() - 1] == '\r' {
                line.take(line.len() - 1)
            } else {
                line
            },
        ] + lines_of(rest),
        lines_of(line) == if line.len() == 0 {
            Seq::<Seq<char>>::empty()
        } else {
            seq![line]
        },
{
    let nl = seq!['\n'];
    let s = line + nl + rest;
    let n = line.len() as int;
    lemma_found_from(s, nl, 0);
    lemma_found(line, nl);
    assert(s.subrange(n, n + 1) =~= nl);
    assert(occurs_at(s, nl, n));
    assert(found(s, nl) == Some(n)) by {
        let i = found(s, nl)->0;
        if i < n {
            assert(s.subrange(i, i + 1) == nl);
            assert(line.subrange(i, i + 1) =~= s.subrange(i, i + 1));
            assert(occurs_at(line, nl, i));
        }
    }
    assert(s.take(n) =~= line);
    assert(s.skip(n + 1) =~= rest);
    if line.len() > 0 {
        assert(line.drop_last() =~= line.take(line.len() - 1));
    }
}

/// The digits of a number read from left to right, the last being what is left of tens.
pub proof fn a_number_is_written_in_tens(n: nat)
    ensures
        n < 10 ==> decimal(n) == seq![(n + 48) as char],
        n >= 10 ==> decimal(n).drop_last() == decimal(n / 10) && decimal(n).last() == (n % 10 + 48) as char,
{
    if n >= 10 {
        assert(decimal(n).drop_last() =~= decimal(n / 10));
    }
}

/// What reads as a number: digits, with a plus in front or not; with a minus in front it is
/// the negative of that number.
pub proof fn what_reads_as_a_number(d: Seq<char>)
    requires
        d.len() > 0,
        forall|i: int| 0 <= i < d.len() ==> '0' <= #[trigger] d[i] && d[i] <= '9',
    ensures
        parsed(d) == parsed(seq!['+'] + d),
        parsed(seq!['-'] + d) is None,
        parsed_signed(seq!['+'] + d) == parsed_signed(d),
        parsed_signed(d) is Some ==> parsed_signed(seq!['-'] + d) == Some(-parsed_signed(d)->0),
        parsed(d) matches Some(n) ==> n <= u64::MAX && (d.len() > 1 ==> parsed(d.drop_last()) == Some(n / 10)) && n % 10
            == d.last() as nat - 48,
{
    assert(all_digits(d)) by {
        assert forall|i: int| 0 <= i < d.len() implies is_digit(#[trigger] d[i]) by {
            assert('0' <= d[i]);
        }
    }
    assert((seq!['+'] + d).drop_first() =~= d);
    assert((seq!['-'] + d).drop_first() =~= d);
    assert(is_digit(d[0]) && is_digit(d.last()));
    assert((seq!['-'] + d)[0] == '-');
    assert(!is_digit('-'));
    if d.len() > 1 {
        let less = d.drop_last();
        assert(less[0] == d[0]);
        assert forall|i: int| 0 <= i < less.len() implies is_digit(#[trigger] less[i]) by {
            assert(less[i] == d[i]);
        }
    } else {
        assert(d.drop_last() =~= seq![]);
        assert(value_of(d.drop_last()) == 0);
    }
}

/// A text with anything else in it reads as no number.
pub proof fn what_reads_as_no_number(s: Seq<char>, i: int)
    requires
        0 <= i < s.len(),
        !('0' <= s[i] && s[i] <= '9'),
        i > 0 || s[i] != '+',
    ensures
        parsed(s) is None,
        i > 0 || s[i] != '-' ==> parsed_signed(s) is None,
        parsed(seq![]) is None && parsed(seq!['+']) is None && parsed_signed(seq!['-']) is None,
{
    assert(!is_digit(s[i]));
    if i > 0 {
        assert(s.drop_first()[i - 1] == s[i]);
    }
    assert(seq!['+'].drop_first() =~= seq![]);
    assert(seq!['-'].drop_first() =~= seq![]);
}

/// A text begins with what stands in front in it, ends with what stands last, and holds what
/// stands anywhere; and nothing else.
pub proof fn where_a_text_stands(before: Seq<char>, s: Seq<char>, after: Seq<char>, p: Seq<char>)
    ensures
        starts(s + after, s) && ends(before + s, s) && contains(before + s + after, s),
        starts(s, p) ==> p.len() <= s.len() && forall|i: int| 0 <= i < p.len() ==> #[trigger] s[i] == p[i],
        ends(s, p) ==> p.len() <= s.len() && forall|i: int| 0 <= i < p.len() ==> s[s.len() - p.len() + i] == #[trigger] p[i],
        contains(s, p) ==> p.len() <= s.len() && exists|k: int|
            0 <= k <= s.len() - p.len() && #[trigger] s.subrange(k, k + p.len()) == p,
{
    assert((s + after).take(s.len() as int) =~= s);
    assert((before + s).skip((before + s).len() - s.len()) =~= s);
    assert((before + s + after).subrange(before.len() as int, (before.len() + s.len()) as int) =~= s);
    assert(occurs_at(before + s + after, s, before.len() as int));
    if starts(s, p) {
        assert forall|i: int| 0 <= i < p.len() implies #[trigger] s[i] == p[i] by {
            assert(s.take(p.len() as int)[i] == s[i]);
        }
    }
    if ends(s, p) {
        assert forall|i: int| 0 <= i < p.len() implies s[s.len() - p.len() + i] == #[trigger] p[i] by {
            assert(s.skip(s.len() - p.len())[i] == p[i]);
        }
    }
    if contains(s, p) {
        let k = choose|k: int| occurs_at(s, p, k);
        assert(s.subrange(k, k + p.len()) == p);
    }
}

} // verus!
