//! Text primitives over sequences of characters: trimming, splitting on a
//! separator, splitting into words, joining, and substring search, each with an
//! executable counterpart on a vector of characters.

use vstd::prelude::*;

verus! {

/// Whether `c` is whitespace as Unicode defines it (White_Space).
pub open spec fn is_whitespace(c: char) -> bool {
    let n = c as u32;
    ||| 0x09 <= n <= 0x0D
    ||| n == 0x20
    ||| n == 0x85
    ||| n == 0xA0
    ||| n == 0x1680
    ||| 0x2000 <= n <= 0x200A
    ||| n == 0x2028
    ||| n == 0x2029
    ||| n == 0x202F
    ||| n == 0x205F
    ||| n == 0x3000
}

/// `s` without its leading whitespace.
pub open spec fn trim_start(s: Seq<char>) -> Seq<char>
    decreases s.len(),
{
    if s.len() > 0 && is_whitespace(s[0]) {
        trim_start(s.skip(1))
    } else {
        s
    }
}

/// `s` without its trailing whitespace.
pub open spec fn trim_end(s: Seq<char>) -> Seq<char>
    decreases s.len(),
{
    if s.len() > 0 && is_whitespace(s.last()) {
        trim_end(s.drop_last())
    } else {
        s
    }
}

/// `s` without its leading and trailing whitespace.
pub open spec fn trim(s: Seq<char>) -> Seq<char> {
    trim_end(trim_start(s))
}

/// The position of the first `c` in `s`, or `s.len()` where `s` holds none.
pub open spec fn first_index(s: Seq<char>, c: char) -> int
    decreases s.len(),
{
    if s.len() == 0 || s[0] == c {
        0
    } else {
        1 + first_index(s.skip(1), c)
    }
}

/// The pieces of `s` between occurrences of `sep`. There is always at least
/// one piece; `n` separators give `n + 1` pieces, empty ones included.
pub open spec fn split(s: Seq<char>, sep: char) -> Seq<Seq<char>>
    decreases s.len(),
    via split_decreases
{
    let i = first_index(s, sep);
    if i >= s.len() {
        seq![s]
    } else {
        seq![s.take(i)] + split(s.skip(i + 1), sep)
    }
}

#[via_fn]
proof fn split_decreases(s: Seq<char>, sep: char) {
    lemma_first_index_bounds(s, sep);
}

/// The position of the first whitespace character in `s`, or `s.len()`.
pub open spec fn word_end(s: Seq<char>) -> int
    decreases s.len(),
{
    if s.len() == 0 || is_whitespace(s[0]) {
        0
    } else {
        1 + word_end(s.skip(1))
    }
}

/// The maximal runs of non-whitespace characters in `s`, in order.
pub open spec fn words(s: Seq<char>) -> Seq<Seq<char>>
    decreases s.len(),
    via words_decreases
{
    if s.len() == 0 {
        Seq::empty()
    } else if is_whitespace(s[0]) {
        words(s.skip(1))
    } else {
        seq![s.take(word_end(s))] + words(s.skip(word_end(s)))
    }
}

#[via_fn]
proof fn words_decreases(s: Seq<char>) {
    lemma_word_end_bounds(s);
    if s.len() > 0 {
        lemma_word_end_bounds(s.skip(1));
    }
}

/// A non-empty run of characters none of which is whitespace.
pub open spec fn is_word(w: Seq<char>) -> bool {
    w.len() > 0 && forall|i: int| 0 <= i < w.len() ==> !is_whitespace(#[trigger] w[i])
}

/// The items of `parts` with `sep` between each two neighbours.
pub open spec fn join(parts: Seq<Seq<char>>, sep: Seq<char>) -> Seq<char>
    decreases parts.len(),
{
    if parts.len() == 0 {
        Seq::empty()
    } else if parts.len() == 1 {
        parts[0]
    } else {
        join(parts.drop_last(), sep) + sep + parts.last()
    }
}

/// Whether `pat` stands in `s` at position `i`.
pub open spec fn occurs_at(s: Seq<char>, pat: Seq<char>, i: int) -> bool {
    0 <= i && i + pat.len() <= s.len() && s.subrange(i, i + pat.len()) == pat
}

/// The first position at or after `from` where `pat` stands in `s`.
pub open spec fn find_from(s: Seq<char>, pat: Seq<char>, from: int) -> Option<int>
    decreases s.len() - from,
    via find_from_decreases
{
    if from < 0 || from + pat.len() > s.len() {
        None
    } else if occurs_at(s, pat, from) {
        Some(from)
    } else {
        find_from(s, pat, from + 1)
    }
}

#[via_fn]
proof fn find_from_decreases(s: Seq<char>, pat: Seq<char>, from: int) {
    if from == s.len() && pat.len() == 0 {
        assert(s.subrange(from, from + pat.len()) =~= pat);
    }
}

/// The first position where `pat` stands in `s`.
pub open spec fn find(s: Seq<char>, pat: Seq<char>) -> Option<int> {
    find_from(s, pat, 0)
}

/// Whether `s` begins with `prefix`.
pub open spec fn starts_with(s: Seq<char>, prefix: Seq<char>) -> bool {
    prefix.len() <= s.len() && s.take(prefix.len() as int) == prefix
}

/// Whether `ranges` cuts `parts` out of `s`, one range for each part.
pub open spec fn cuts(s: Seq<char>, ranges: Seq<(usize, usize)>, parts: Seq<Seq<char>>) -> bool {
    &&& ranges.len() == parts.len()
    &&& forall|k: int|
        0 <= k < ranges.len() ==> {
            &&& (#[trigger] ranges[k]).0 <= ranges[k].1 <= s.len()
            &&& s.subrange(ranges[k].0 as int, ranges[k].1 as int) == parts[k]
        }
}

/// The first index lies within the text or at its end; where it lies
/// within, `c` stands there, and it stands nowhere before.
pub proof fn lemma_first_index_bounds(s: Seq<char>, c: char)
    ensures
        0 <= first_index(s, c) <= s.len(),
        first_index(s, c) < s.len() ==> s[first_index(s, c)] == c,
        forall|j: int| 0 <= j < first_index(s, c) ==> s[j] != c,
    decreases s.len(),
{
    if s.len() == 0 || s[0] == c {
    } else {
        lemma_first_index_bounds(s.skip(1), c);
        assert forall|j: int| 0 <= j < first_index(s, c) implies s[j] != c by {
            if j > 0 {
                assert(s.skip(1)[j - 1] == s[j]);
            }
        }
    }
}

/// The first index is the one position that holds `c` after a run without it.
pub proof fn lemma_first_index_is(s: Seq<char>, c: char, k: int)
    requires
        0 <= k <= s.len(),
        forall|j: int| 0 <= j < k ==> s[j] != c,
        k < s.len() ==> s[k] == c,
    ensures
        first_index(s, c) == k,
    decreases s.len(),
{
    if s.len() == 0 || s[0] == c {
    } else {
        assert forall|j: int| 0 <= j < k - 1 implies s.skip(1)[j] != c by {
            assert(s.skip(1)[j] == s[j + 1]);
        }
        lemma_first_index_is(s.skip(1), c, k - 1);
    }
}

/// The end of the first word lies within the text or at its end; where it
/// lies within, whitespace stands there, and none stands before.
pub proof fn lemma_word_end_bounds(s: Seq<char>)
    ensures
        0 <= word_end(s) <= s.len(),
        word_end(s) < s.len() ==> is_whitespace(s[word_end(s)]),
        forall|j: int| 0 <= j < word_end(s) ==> !is_whitespace(s[j]),
    decreases s.len(),
{
    if s.len() == 0 || is_whitespace(s[0]) {
    } else {
        lemma_word_end_bounds(s.skip(1));
        assert forall|j: int| 0 <= j < word_end(s) implies !is_whitespace(s[j]) by {
            if j > 0 {
                assert(s.skip(1)[j - 1] == s[j]);
            }
        }
    }
}

/// The first word ends at the one place that holds whitespace after a run
/// without it.
pub proof fn lemma_word_end_is(s: Seq<char>, k: int)
    requires
        0 <= k <= s.len(),
        forall|j: int| 0 <= j < k ==> !is_whitespace(s[j]),
        k < s.len() ==> is_whitespace(s[k]),
    ensures
        word_end(s) == k,
    decreases s.len(),
{
    if s.len() == 0 || is_whitespace(s[0]) {
    } else {
        assert forall|j: int| 0 <= j < k - 1 implies !is_whitespace(s.skip(1)[j]) by {
            assert(s.skip(1)[j] == s[j + 1]);
        }
        lemma_word_end_is(s.skip(1), k - 1);
    }
}

/// A text without the separator is its own single piece.
pub proof fn lemma_split_whole(s: Seq<char>, sep: char)
    requires
        forall|i: int| 0 <= i < s.len() ==> s[i] != sep,
    ensures
        split(s, sep) == seq![s],
{
    lemma_first_index_is(s, sep, s.len() as int);
}

/// Splitting distributes over a separator: the pieces of `a`, then those of
/// `b`.
pub proof fn lemma_split_concat(a: Seq<char>, b: Seq<char>, sep: char)
    ensures
        split(a + seq![sep] + b, sep) == split(a, sep) + split(b, sep),
    decreases a.len(),
{
    let s = a + seq![sep] + b;
    let i = first_index(a, sep);
    lemma_first_index_bounds(a, sep);
    assert forall|j: int| 0 <= j < i implies s[j] != sep by {
        assert(s[j] == a[j]);
    }
    lemma_first_index_is(s, sep, i);
    assert(s.take(i) =~= a.take(i));
    if i >= a.len() {
        assert(s.skip(i + 1) =~= b);
        assert(a.take(i) =~= a);
    } else {
        let rest = a.skip(i + 1);
        assert(s.skip(i + 1) =~= rest + seq![sep] + b);
        lemma_split_concat(rest, b, sep);
        assert(seq![a.take(i)] + (split(rest, sep) + split(b, sep)) =~= (seq![a.take(i)] + split(
            rest,
            sep,
        )) + split(b, sep));
    }
}

/// Every word is a non-empty run without whitespace.
pub proof fn lemma_words_are_words(s: Seq<char>)
    ensures
        forall|i: int| 0 <= i < words(s).len() ==> is_word(#[trigger] words(s)[i]),
    decreases s.len(),
{
    if s.len() == 0 {
        assert(words(s).len() == 0);
    } else if is_whitespace(s[0]) {
        lemma_words_are_words(s.skip(1));
        assert(words(s) == words(s.skip(1)));
    } else {
        let n = word_end(s);
        lemma_word_end_bounds(s);
        lemma_word_end_bounds(s.skip(1));
        lemma_words_are_words(s.skip(n));
        assert(is_word(s.take(n)));
        assert(words(s) == seq![s.take(n)] + words(s.skip(n)));
        assert forall|i: int| 0 <= i < words(s).len() implies is_word(#[trigger] words(s)[i]) by {
            if i > 0 {
                assert(words(s)[i] == words(s.skip(n))[i - 1]);
            }
        }
    }
}

/// A run without whitespace is its own single word.
pub proof fn lemma_words_of_word(w: Seq<char>)
    requires
        is_word(w),
    ensures
        words(w) == seq![w],
{
    lemma_word_end_is(w, w.len() as int);
    assert(w.take(w.len() as int) =~= w);
    assert(words(w.skip(w.len() as int)) =~= Seq::empty());
}

/// The words of two texts with a space between them are the words of the
/// first, then those of the second.
pub proof fn lemma_words_concat(a: Seq<char>, b: Seq<char>)
    ensures
        words(a + seq![' '] + b) == words(a) + words(b),
    decreases a.len(),
{
    let s = a + seq![' '] + b;
    if a.len() == 0 {
        assert(s.skip(1) =~= b);
        assert(words(a) + words(b) =~= words(b));
    } else if is_whitespace(a[0]) {
        assert(s.skip(1) =~= a.skip(1) + seq![' '] + b);
        lemma_words_concat(a.skip(1), b);
    } else {
        let n = word_end(a);
        lemma_word_end_bounds(a);
        lemma_word_end_bounds(a.skip(1));
        assert forall|j: int| 0 <= j < n implies !is_whitespace(s[j]) by {
            assert(s[j] == a[j]);
        }
        lemma_word_end_is(s, n);
        assert(s.take(n) =~= a.take(n));
        assert(s.skip(n) =~= a.skip(n) + seq![' '] + b);
        lemma_words_concat(a.skip(n), b);
        assert(seq![a.take(n)] + (words(a.skip(n)) + words(b)) =~= (seq![a.take(n)] + words(
            a.skip(n),
        )) + words(b));
    }
}

/// Joining two lists that both hold something joins each and puts the
/// separator between.
pub proof fn lemma_join_concat(x: Seq<Seq<char>>, y: Seq<Seq<char>>, sep: Seq<char>)
    requires
        x.len() > 0,
        y.len() > 0,
    ensures
        join(x + y, sep) == join(x, sep) + sep + join(y, sep),
    decreases y.len(),
{
    assert((x + y).drop_last() =~= x + y.drop_last());
    if y.len() == 1 {
        assert(x + y.drop_last() =~= x);
    } else {
        lemma_join_concat(x, y.drop_last(), sep);
        assert(join(x, sep) + sep + join(y.drop_last(), sep) + sep + y.last() =~= join(x, sep) + sep
            + (join(y.drop_last(), sep) + sep + y.last()));
    }
}

/// Whether `c` is whitespace as Unicode defines it.
pub fn char_is_whitespace(c: char) -> (b: bool)
    ensures
        b == is_whitespace(c),
{
    let n: u32 = c as u32;
    (0x09 <= n && n <= 0x0D) || n == 0x20 || n == 0x85 || n == 0xA0 || n == 0x1680 || (0x2000 <= n
        && n <= 0x200A) || n == 0x2028 || n == 0x2029 || n == 0x202F || n == 0x205F || n == 0x3000
}

/// The characters of `s`, in order.
pub fn chars_of(s: &str) -> (v: Vec<char>)
    ensures
        v@ == s@,
{
    let mut v: Vec<char> = Vec::new();
    for c in it: s.chars()
        invariant
            v@ == it.seq().take(it.index() as int),
            it.seq() == s@,
    {
        v.push(c);
    }
    v
}

/// Whether `a` and `b` hold the same characters.
pub fn text_eq(a: &str, b: &str) -> (same: bool)
    ensures
        same == (a@ == b@),
{
    let v = chars_of(a);
    let w = chars_of(b);
    assert(v@.subrange(0, v.len() as int) =~= v@);
    range_eq(&v, 0, v.len(), &w)
}

/// Whether `s` begins with `prefix`.
pub fn has_prefix(s: &str, prefix: &str) -> (b: bool)
    ensures
        b == starts_with(s@, prefix@),
{
    let v = chars_of(s);
    let w = chars_of(prefix);
    if v.len() < w.len() {
        return false;
    }
    assert(v@.take(w@.len() as int) =~= v@.subrange(0, w@.len() as int));
    range_eq(&v, 0, w.len(), &w)
}

/// Whether the characters of `v` in `lo..hi` are those of `w`.
pub fn range_eq(v: &Vec<char>, lo: usize, hi: usize, w: &Vec<char>) -> (b: bool)
    requires
        lo <= hi <= v.len(),
    ensures
        b == (v@.subrange(lo as int, hi as int) == w@),
{
    if hi - lo != w.len() {
        return false;
    }
    let mut k: usize = 0;
    while k < w.len()
        invariant
            lo <= hi <= v.len(),
            hi - lo == w.len(),
            k <= w.len(),
            forall|j: int| 0 <= j < k ==> v@[lo + j] == w@[j],
        decreases w.len() - k,
    {
        if v[lo + k] != w[k] {
            assert(v@.subrange(lo as int, hi as int)[k as int] != w@[k as int]);
            return false;
        }
        k += 1;
    }
    assert(v@.subrange(lo as int, hi as int) =~= w@);
    true
}

/// The bounds of what is left of `v[lo..hi]` once the whitespace at both
/// ends is gone.
pub fn trim_range(v: &Vec<char>, lo: usize, hi: usize) -> (r: (usize, usize))
    requires
        lo <= hi <= v.len(),
    ensures
        lo <= r.0 <= r.1 <= hi,
        v@.subrange(r.0 as int, r.1 as int) == trim(v@.subrange(lo as int, hi as int)),
{
    let mut a: usize = lo;
    while a < hi && char_is_whitespace(v[a])
        invariant
            lo <= a <= hi <= v.len(),
            trim_start(v@.subrange(lo as int, hi as int)) == trim_start(
                v@.subrange(a as int, hi as int),
            ),
        decreases hi - a,
    {
        assert(v@.subrange(a as int, hi as int).skip(1) =~= v@.subrange(a + 1, hi as int));
        a += 1;
    }
    assert(trim_start(v@.subrange(a as int, hi as int)) == v@.subrange(a as int, hi as int));
    let mut b: usize = hi;
    while b > a && char_is_whitespace(v[b - 1])
        invariant
            a <= b <= hi <= v.len(),
            trim_end(v@.subrange(a as int, hi as int)) == trim_end(v@.subrange(a as int, b as int)),
        decreases b - a,
    {
        assert(v@.subrange(a as int, b as int).drop_last() =~= v@.subrange(a as int, b - 1));
        b -= 1;
    }
    assert(trim_end(v@.subrange(a as int, b as int)) == v@.subrange(a as int, b as int));
    (a, b)
}

/// The position of the first `c` in `v[lo..hi]`, or `hi`.
pub fn find_char(v: &Vec<char>, lo: usize, hi: usize, c: char) -> (i: usize)
    requires
        lo <= hi <= v.len(),
    ensures
        lo <= i <= hi,
        i - lo == first_index(v@.subrange(lo as int, hi as int), c),
{
    let mut i: usize = lo;
    while i < hi && v[i] != c
        invariant
            lo <= i <= hi <= v.len(),
            forall|j: int| lo <= j < i ==> v@[j] != c,
        decreases hi - i,
    {
        i += 1;
    }
    proof {
        lemma_first_index_is(v@.subrange(lo as int, hi as int), c, i - lo);
    }
    i
}

/// The bounds of the pieces of `v` between occurrences of `sep`.
pub fn split_ranges(v: &Vec<char>, sep: char) -> (ranges: Vec<(usize, usize)>)
    ensures
        cuts(v@, ranges@, split(v@, sep)),
{
    let mut ranges: Vec<(usize, usize)> = Vec::new();
    let mut start: usize = 0;
    let ghost mut done: Seq<Seq<char>> = Seq::empty();
    proof {
        assert(v@.skip(0) =~= v@);
        assert(done + split(v@, sep) =~= split(v@, sep));
    }
    loop
        invariant
            start <= v.len(),
            cuts(v@, ranges@, done),
            split(v@, sep) == done + split(v@.skip(start as int), sep),
        decreases v.len() - start,
    {
        let i = find_char(v, start, v.len(), sep);
        proof {
            assert(v@.subrange(start as int, v.len() as int) =~= v@.skip(start as int));
            assert(v@.skip(start as int).take(i - start) =~= v@.subrange(start as int, i as int));
        }
        ranges.push((start, i));
        if i >= v.len() {
            proof {
                done = done.push(v@.skip(start as int));
                assert(split(v@, sep) =~= done);
            }
            return ranges;
        }
        proof {
            assert(v@.skip(start as int).skip(i - start + 1) =~= v@.skip(i + 1));
            let piece = v@.subrange(start as int, i as int);
            assert(done + (seq![piece] + split(v@.skip(i + 1), sep)) =~= done.push(piece) + split(
                v@.skip(i + 1),
                sep,
            ));
            done = done.push(piece);
        }
        start = i + 1;
    }
}

/// The bounds of the words of `v`, in order.
pub fn word_ranges(v: &Vec<char>) -> (ranges: Vec<(usize, usize)>)
    ensures
        cuts(v@, ranges@, words(v@)),
{
    let mut ranges: Vec<(usize, usize)> = Vec::new();
    let mut i: usize = 0;
    let ghost mut done: Seq<Seq<char>> = Seq::empty();
    proof {
        assert(v@.skip(0) =~= v@);
        assert(done + words(v@) =~= words(v@));
    }
    while i < v.len()
        invariant
            i <= v.len(),
            cuts(v@, ranges@, done),
            words(v@) == done + words(v@.skip(i as int)),
        decreases v.len() - i,
    {
        if char_is_whitespace(v[i]) {
            assert(v@.skip(i as int).skip(1) =~= v@.skip(i + 1));
            i += 1;
        } else {
            let start = i;
            while i < v.len() && !char_is_whitespace(v[i])
                invariant
                    start <= i <= v.len(),
                    forall|j: int| start <= j < i ==> !is_whitespace(v@[j]),
                decreases v.len() - i,
            {
                i += 1;
            }
            proof {
                let rest = v@.skip(start as int);
                lemma_word_end_is(rest, i - start);
                let piece = v@.subrange(start as int, i as int);
                assert(rest.take(i - start) =~= piece);
                assert(rest.skip(i - start) =~= v@.skip(i as int));
                assert(done + (seq![piece] + words(v@.skip(i as int))) =~= done.push(piece)
                    + words(v@.skip(i as int)));
                done = done.push(piece);
            }
            ranges.push((start, i));
        }
    }
    proof {
        assert(done + words(v@.skip(i as int)) =~= done);
    }
    ranges
}

/// The first position in `v[lo..hi]` where `pat` stands.
pub fn find_sub(v: &Vec<char>, lo: usize, hi: usize, pat: &Vec<char>) -> (found: Option<usize>)
    requires
        lo <= hi <= v.len(),
    ensures
        match found {
            Some(i) => lo <= i && i + pat@.len() <= hi && find(
                v@.subrange(lo as int, hi as int),
                pat@,
            ) == Some(i - lo),
            None => find(v@.subrange(lo as int, hi as int), pat@) is None,
        },
{
    let ghost s = v@.subrange(lo as int, hi as int);
    let mut i: usize = lo;
    while hi - i >= pat.len()
        invariant
            lo <= i <= hi <= v.len(),
            s == v@.subrange(lo as int, hi as int),
            find(s, pat@) == find_from(s, pat@, i - lo),
        decreases hi - i,
    {
        assert(s.subrange(i - lo, i - lo + pat@.len()) =~= v@.subrange(
            i as int,
            i + pat@.len(),
        ));
        if range_eq(v, i, i + pat.len(), pat) {
            return Some(i);
        }
        if i == hi {
            assert(v@.subrange(i as int, i + pat@.len()) =~= pat@);
            return None;
        }
        i += 1;
    }
    None
}

} // verus!
