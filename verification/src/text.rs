//! Character-level text helpers shared by the parsers of this crate: the
//! pieces of `str::split` on one character, the words of
//! `str::split_whitespace`, the first occurrence of a pattern.

use vstd::prelude::*;

verus! {

/// The characters of `s`, in order.
pub fn chars_of(s: &str) -> (v: Vec<char>)
    ensures
        v@ == s@,
{
    let mut v: Vec<char> = Vec::new();
    for c in it: s.chars()
        invariant
            v@ == it.seq().take(it.index() as int),
            it.seq() == s@,
    {
        v.push(c);
    }
    v
}

/// A new `String` holding `s`.
pub fn owned(s: &str) -> (r: String)
    ensures
        r@ == s@,
{
    s.to_owned()
}

/// Whether two strings hold the same characters.
pub fn str_eq(a: &str, b: &str) -> (r: bool)
    ensures
        r == (a@ == b@),
{
    let x = a.to_owned();
    let y = b.to_owned();
    x == y
}

/// The characters `start..end` of `s` as a new `String`.
pub fn substring(s: &str, start: usize, end: usize) -> (r: String)
    requires
        start <= end <= s@.len(),
    ensures
        r@ == s@.subrange(start as int, end as int),
{
    s.substring_char(start, end).to_owned()
}

/// The pieces of `s` between occurrences of `sep`, as `str::split` with a
/// `char` pattern yields them: empty pieces included, always at least one.
pub open spec fn split_on(s: Seq<char>, sep: char) -> Seq<Seq<char>>
    decreases s.len(),
{
    if s.len() == 0 {
        seq![Seq::<char>::empty()]
    } else {
        let p = split_on(s.drop_last(), sep);
        if s.last() == sep {
            p.push(Seq::<char>::empty())
        } else {
            p.update(p.len() - 1, p.last().push(s.last()))
        }
    }
}

/// `split_on` always yields at least one piece.
pub proof fn lemma_split_on_nonempty(s: Seq<char>, sep: char)
    ensures
        split_on(s, sep).len() >= 1,
    decreases s.len(),
{
    if s.len() > 0 {
        lemma_split_on_nonempty(s.drop_last(), sep);
    }
}

/// The pieces that `ranges` cut out of `s`, each range `(a, b)` standing for
/// the characters `a..b`.
pub open spec fn pieces_of(s: Seq<char>, ranges: Seq<(usize, usize)>) -> Seq<Seq<char>> {
    ranges.map_values(|r: (usize, usize)| s.subrange(r.0 as int, r.1 as int))
}

/// Every range lies within a text of length `n`.
pub open spec fn ranges_within(ranges: Seq<(usize, usize)>, n: nat) -> bool {
    forall|i: int| 0 <= i < ranges.len() ==> ranges[i].0 <= #[trigger] ranges[i].1 <= n
}

/// The ranges of the pieces of `s` between occurrences of `sep`.
pub fn split_ranges(s: &Vec<char>, sep: char) -> (r: Vec<(usize, usize)>)
    ensures
        ranges_within(r@, s@.len()),
        pieces_of(s@, r@) == split_on(s@, sep),
{
    let mut r: Vec<(usize, usize)> = Vec::new();
    let mut start: usize = 0;
    let mut i: usize = 0;
    assert(s@.take(0) == Seq::<char>::empty());
    assert(pieces_of(s@, r@).push(s@.subrange(0, 0)) == seq![Seq::<char>::empty()]);
    while i < s.len()
        invariant
            start <= i <= s@.len(),
            ranges_within(r@, i as nat),
            pieces_of(s@, r@).push(s@.subrange(start as int, i as int)) == split_on(
                s@.take(i as int),
                sep,
            ),
        decreases s.len() - i,
    {
        let ghost prev = s@.take(i as int);
        let c = s[i];
        assert(s@.take(i + 1).drop_last() == prev);
        proof {
            lemma_split_on_nonempty(prev, sep);
        }
        if c == sep {
            r.push((start, i));
            assert(pieces_of(s@, r@) == pieces_of(s@, r@.drop_last()).push(
                s@.subrange(start as int, i as int),
            ));
            i = i + 1;
            start = i;
            assert(s@.subrange(start as int, i as int) == Seq::<char>::empty());
        } else {
            i = i + 1;
            assert(s@.subrange(start as int, i as int) == s@.subrange(
                start as int,
                i - 1,
            ).push(c));
        }
    }
    r.push((start, i));
    assert(s@.take(s@.len() as int) == s@);
    assert(pieces_of(s@, r@) == pieces_of(s@, r@.drop_last()).push(
        s@.subrange(start as int, i as int),
    ));
    r
}


/// Whether `c` is white space in Unicode's sense (the `White_Space`
/// property), as `char::is_whitespace` tests.
pub open spec fn is_whitespace(c: char) -> bool {
    ('\u{9}' <= c && c <= '\u{d}') || c == ' ' || c == '\u{85}' || c == '\u{a0}' || c
        == '\u{1680}' || ('\u{2000}' <= c && c <= '\u{200a}') || c == '\u{2028}' || c
        == '\u{2029}' || c == '\u{202f}' || c == '\u{205f}' || c == '\u{3000}'
}

/// Tests `is_whitespace`.
pub fn char_is_whitespace(c: char) -> (r: bool)
    ensures
        r == is_whitespace(c),
{
    ('\u{9}' <= c && c <= '\u{d}') || c == ' ' || c == '\u{85}' || c == '\u{a0}' || c
        == '\u{1680}' || ('\u{2000}' <= c && c <= '\u{200a}') || c == '\u{2028}' || c
        == '\u{2029}' || c == '\u{202f}' || c == '\u{205f}' || c == '\u{3000}'
}

/// The words of `s`, as `str::split_whitespace` yields them: the maximal
/// runs of characters that are not white space.
pub open spec fn words(s: Seq<char>) -> Seq<Seq<char>>
    decreases s.len(),
{
    if s.len() == 0 {
        Seq::empty()
    } else {
        let p = words(s.drop_last());
        let c = s.last();
        if is_whitespace(c) {
            p
        } else if s.len() >= 2 && !is_whitespace(s[s.len() - 2]) {
            p.update(p.len() - 1, p.last().push(c))
        } else {
            p.push(seq![c])
        }
    }
}

/// A text that ends in a character other than white space has a word.
pub proof fn lemma_words_nonempty(s: Seq<char>)
    requires
        s.len() > 0,
        !is_whitespace(s.last()),
    ensures
        words(s).len() >= 1,
    decreases s.len(),
{
    if s.len() >= 2 && !is_whitespace(s[s.len() - 2]) {
        assert(s.drop_last().last() == s[s.len() - 2]);
        lemma_words_nonempty(s.drop_last());
    }
}

/// The ranges of the words of `v[start..end]`, as positions in `v`.
pub fn word_ranges(v: &Vec<char>, start: usize, end: usize) -> (r: Vec<(usize, usize)>)
    requires
        start <= end <= v@.len(),
    ensures
        ranges_within(r@, v@.len()),
        pieces_of(v@, r@) == words(v@.subrange(start as int, end as int)),
{
    let mut r: Vec<(usize, usize)> = Vec::new();
    let mut word_start: usize = start;
    let mut i: usize = start;
    let mut in_word = false;
    assert(v@.subrange(start as int, start as int) == Seq::<char>::empty());
    assert(pieces_of(v@, r@) == Seq::<Seq<char>>::empty());
    while i < end
        invariant
            start <= word_start <= i <= end <= v@.len(),
            ranges_within(r@, v@.len()),
            in_word == (i > start && !is_whitespace(v@[i - 1])),
            in_word ==> word_start < i,
            in_word ==> pieces_of(v@, r@).push(v@.subrange(word_start as int, i as int)) == words(
                v@.subrange(start as int, i as int),
            ),
            !in_word ==> pieces_of(v@, r@) == words(v@.subrange(start as int, i as int)),
        decreases end - i,
    {
        let c = v[i];
        let ghost prev = v@.subrange(start as int, i as int);
        let ghost next = v@.subrange(start as int, i + 1);
        assert(next.drop_last() == prev);
        assert(next.last() == c);
        if char_is_whitespace(c) {
            if in_word {
                r.push((word_start, i));
                assert(pieces_of(v@, r@) == pieces_of(v@, r@.drop_last()).push(
                    v@.subrange(word_start as int, i as int),
                ));
            }
            in_word = false;
        } else {
            if in_word {
                assert(next[next.len() - 2] == v@[i - 1]);
                assert(v@.subrange(word_start as int, i + 1) == v@.subrange(
                    word_start as int,
                    i as int,
                ).push(c));
            } else {
                assert(i > start ==> next[next.len() - 2] == v@[i - 1]);
                word_start = i;
                assert(v@.subrange(word_start as int, i + 1) == seq![c]);
            }
            in_word = true;
        }
        i = i + 1;
    }
    if in_word {
        r.push((word_start, i));
        assert(pieces_of(v@, r@) == pieces_of(v@, r@.drop_last()).push(
            v@.subrange(word_start as int, i as int),
        ));
    }
    r
}

/// Whether `pat` occurs in `s` at position `i`.
pub open spec fn occurs_at(s: Seq<char>, pat: Seq<char>, i: int) -> bool {
    0 <= i && i + pat.len() <= s.len() && s.subrange(i, i + pat.len()) == pat
}

/// The first position at or after `i` where `pat` occurs in `s`.
pub open spec fn find_from(s: Seq<char>, pat: Seq<char>, i: nat) -> Option<nat>
    decreases s.len() + 1 - i,
{
    if i + pat.len() > s.len() {
        None
    } else if occurs_at(s, pat, i as int) {
        Some(i)
    } else {
        find_from(s, pat, i + 1)
    }
}

/// Whether `pat` occurs in `v` at position `i`.
fn occurs_at_exec(v: &Vec<char>, pat: &Vec<char>, i: usize) -> (r: bool)
    requires
        i + pat@.len() <= v@.len(),
    ensures
        r == occurs_at(v@, pat@, i as int),
{
    let mut j: usize = 0;
    while j < pat.len()
        invariant
            i + pat@.len() <= v@.len(),
            v@.len() == v.len(),
            j <= pat@.len(),
            forall|k: int| 0 <= k < j ==> v@[i + k] == pat@[k],
        decreases pat.len() - j,
    {
        if v[i + j] != pat[j] {
            assert(v@.subrange(i as int, i + pat@.len())[j as int] != pat@[j as int]);
            return false;
        }
        j = j + 1;
    }
    assert(v@.subrange(i as int, i + pat@.len()) == pat@);
    true
}

/// The first position in `v[from..end]`, counted from `start`, where `pat`
/// occurs in `v[start..end]`.
pub fn find_in_range(v: &Vec<char>, start: usize, end: usize, pat: &Vec<char>, from: usize) -> (r:
    Option<usize>)
    requires
        start <= from <= end <= v@.len(),
    ensures
        r matches Some(k) ==> find_from(v@.subrange(start as int, end as int), pat@, (from - start) as nat) == Some((k - start) as nat) && start <= k <= end,
        r is None ==> find_from(v@.subrange(start as int, end as int), pat@, (from - start) as nat) is None,
{
    let ghost s = v@.subrange(start as int, end as int);
    let mut i: usize = from;
    while i <= end && pat.len() <= end - i
        invariant
            start <= from <= i,
            end <= v@.len(),
            s == v@.subrange(start as int, end as int),
            find_from(s, pat@, (from - start) as nat) == find_from(s, pat@, (i - start) as nat),
        decreases end + 1 - i,
    {
        assert(occurs_at(s, pat@, i - start) == occurs_at(v@, pat@, i as int)) by {
            if i + pat@.len() <= end {
                assert(s.subrange(i - start, i - start + pat@.len()) == v@.subrange(
                    i as int,
                    i + pat@.len(),
                ));
            }
        }
        if occurs_at_exec(v, pat, i) {
            return Some(i);
        }
        if i == end {
            assert(find_from(s, pat@, (i - start + 1) as nat) is None);
            return None;
        }
        i = i + 1;
    }
    None
}

/// Whether `v[start..end]` holds the same characters as `w`.
pub fn range_eq(v: &Vec<char>, start: usize, end: usize, w: &Vec<char>) -> (r: bool)
    requires
        start <= end <= v@.len(),
    ensures
        r == (v@.subrange(start as int, end as int) == w@),
{
    if end - start != w.len() {
        return false;
    }
    let r = occurs_at_exec(v, w, start);
    assert(r == (v@.subrange(start as int, end as int) == w@));
    r
}

/// White space after a text adds no word.
pub proof fn lemma_words_push_whitespace(s: Seq<char>, c: char)
    requires
        is_whitespace(c),
    ensures
        words(s.push(c)) == words(s),
{
    assert(s.push(c).drop_last() == s);
}

/// A run of non-white-space characters after white space (or at the start)
/// is one more word.
pub proof fn lemma_words_push_word(s: Seq<char>, w: Seq<char>)
    requires
        w.len() > 0,
        forall|i: int| 0 <= i < w.len() ==> !is_whitespace(#[trigger] w[i]),
        s.len() == 0 || is_whitespace(s.last()),
    ensures
        words(s + w) == words(s).push(w),
    decreases w.len(),
{
    let c = w.last();
    assert(!is_whitespace(w[w.len() - 1]));
    if w.len() == 1 {
        assert((s + w).drop_last() == s);
        assert(w == seq![c]);
        if s.len() > 0 {
            assert((s + w)[(s + w).len() - 2] == s.last());
        }
    } else {
        let w2 = w.drop_last();
        assert forall|i: int| 0 <= i < w2.len() implies !is_whitespace(#[trigger] w2[i]) by {
            assert(w2[i] == w[i]);
        }
        lemma_words_push_word(s, w2);
        assert((s + w).drop_last() == s + w2);
        assert((s + w)[(s + w).len() - 2] == w[w.len() - 2]);
        assert(!is_whitespace(w[w.len() - 2]));
        assert(w2.push(c) == w);
    }
}

/// Where `pat` occurs nowhere from `i` on, `find_from` finds nothing.
pub proof fn lemma_find_from_none(s: Seq<char>, pat: Seq<char>, i: nat)
    requires
        forall|j: int| i <= j ==> !#[trigger] occurs_at(s, pat, j),
    ensures
        find_from(s, pat, i) is None,
    decreases s.len() + 1 - i,
{
    if i + pat.len() <= s.len() {
        assert(!occurs_at(s, pat, i as int));
        lemma_find_from_none(s, pat, i + 1);
    }
}

/// A separator adds an empty piece.
pub proof fn lemma_split_on_push_sep(s: Seq<char>, sep: char)
    ensures
        split_on(s.push(sep), sep) == split_on(s, sep).push(Seq::<char>::empty()),
{
    assert(s.push(sep).drop_last() == s);
}

/// Text without the separator extends the last piece.
pub proof fn lemma_split_on_append(s: Seq<char>, w: Seq<char>, sep: char)
    requires
        forall|i: int| 0 <= i < w.len() ==> #[trigger] w[i] != sep,
    ensures
        split_on(s + w, sep) == split_on(s, sep).update(
            split_on(s, sep).len() - 1,
            split_on(s, sep).last() + w,
        ),
    decreases w.len(),
{
    lemma_split_on_nonempty(s, sep);
    if w.len() == 0 {
        assert(s + w == s);
        assert(split_on(s, sep).last() + w == split_on(s, sep).last());
        assert(split_on(s, sep).update(split_on(s, sep).len() - 1, split_on(s, sep).last())
            == split_on(s, sep));
    } else {
        let w2 = w.drop_last();
        assert forall|i: int| 0 <= i < w2.len() implies #[trigger] w2[i] != sep by {
            assert(w2[i] == w[i]);
        }
        lemma_split_on_append(s, w2, sep);
        assert((s + w).drop_last() == s + w2);
        assert((s + w).last() == w.last());
        assert(w[w.len() - 1] != sep);
        lemma_split_on_nonempty(s + w2, sep);
        assert((split_on(s, sep).last() + w2).push(w.last()) == split_on(s, sep).last() + w);
    }
}

/// A first piece followed by the separator splits off in front.
pub proof fn lemma_split_on_prefix(first: Seq<char>, t: Seq<char>, sep: char)
    requires
        forall|i: int| 0 <= i < first.len() ==> #[trigger] first[i] != sep,
    ensures
        split_on(first.push(sep) + t, sep) == seq![first] + split_on(t, sep),
    decreases t.len(),
{
    let e = Seq::<char>::empty();
    if t.len() == 0 {
        assert(first.push(sep) + t == first.push(sep));
        lemma_split_on_push_sep(first, sep);
        lemma_split_on_append(e, first, sep);
        assert(e + first == first);
        assert(split_on(e, sep) == seq![e]);
    } else {
        let t2 = t.drop_last();
        lemma_split_on_prefix(first, t2, sep);
        lemma_split_on_nonempty(t2, sep);
        assert((first.push(sep) + t).drop_last() == first.push(sep) + t2);
        assert((first.push(sep) + t).last() == t.last());
        if t.last() == sep {
            assert(split_on(t, sep) == split_on(t2, sep).push(e));
        } else {
            assert(split_on(t, sep) == split_on(t2, sep).update(
                split_on(t2, sep).len() - 1,
                split_on(t2, sep).last().push(t.last()),
            ));
        }
        assert(split_on(first.push(sep) + t, sep) =~= seq![first] + split_on(t, sep));
    }
}

/// The character of a decimal digit.
pub open spec fn digit_char(d: nat) -> char {
    ('0' as int + d) as char
}

/// The decimal digits of `n`, without leading zeros.
pub open spec fn decimal(n: nat) -> Seq<char>
    decreases n,
{
    if n < 10 {
        seq![digit_char(n)]
    } else {
        decimal(n / 10) + seq![digit_char(n % 10)]
    }
}

/// The decimal form of an integer, with `-` before a negative one.
pub open spec fn signed_decimal(n: int) -> Seq<char> {
    if n < 0 {
        seq!['-'] + decimal((-n) as nat)
    } else {
        decimal(n as nat)
    }
}

/// The text of one decimal digit.
fn digit_str(d: u64) -> (r: &'static str)
    requires
        d < 10,
    ensures
        r@ == seq![digit_char(d as nat)],
{
    match d {
        0 => {
            proof {
                reveal_strlit("0");
            }
            "0"
        },
        1 => {
            proof {
                reveal_strlit("1");
            }
            "1"
        },
        2 => {
            proof {
                reveal_strlit("2");
            }
            "2"
        },
        3 => {
            proof {
                reveal_strlit("3");
            }
            "3"
        },
        4 => {
            proof {
                reveal_strlit("4");
            }
            "4"
        },
        5 => {
            proof {
                reveal_strlit("5");
            }
            "5"
        },
        6 => {
            proof {
                reveal_strlit("6");
            }
            "6"
        },
        7 => {
            proof {
                reveal_strlit("7");
            }
            "7"
        },
        8 => {
            proof {
                reveal_strlit("8");
            }
            "8"
        },
        _ => {
            proof {
                reveal_strlit("9");
            }
            "9"
        },
    }
}

/// Writes `n` in decimal.
pub fn decimal_u64(n: u64) -> (r: String)
    ensures
        r@ == decimal(n as nat),
    decreases n,
{
    let mut s = if n >= 10 {
        decimal_u64(n / 10)
    } else {
        String::new()
    };
    s.append(digit_str(n % 10));
    s
}

/// Writes `n` in decimal, with `-` before a negative value.
pub fn decimal_i64(n: i64) -> (r: String)
    ensures
        r@ == signed_decimal(n as int),
{
    if n < 0 {
        let magnitude: u64 = (0 - (n as i128)) as u64;
        let mut s = "-".to_owned();
        proof {
            reveal_strlit("-");
        }
        let digits = decimal_u64(magnitude);
        s.append(digits.as_str());
        s
    } else {
        decimal_u64(n as u64)
    }
}

/// Where `find_from` finds `pat`, it occurs.
pub proof fn lemma_find_from_occurs(s: Seq<char>, pat: Seq<char>, i: nat)
    ensures
        find_from(s, pat, i) matches Some(k) ==> i <= k && occurs_at(s, pat, k as int),
    decreases s.len() + 1 - i,
{
    if i + pat.len() <= s.len() && !occurs_at(s, pat, i as int) {
        lemma_find_from_occurs(s, pat, i + 1);
    }
}

/// `find_from` finds the first occurrence at or after `i`.
pub proof fn lemma_find_from_first(s: Seq<char>, pat: Seq<char>, i: nat, k: nat)
    requires
        i <= k,
        occurs_at(s, pat, k as int),
        forall|j: int| i <= j < k ==> !#[trigger] occurs_at(s, pat, j),
    ensures
        find_from(s, pat, i) == Some(k),
    decreases k - i,
{
    if i < k {
        assert(!occurs_at(s, pat, i as int));
        lemma_find_from_first(s, pat, i + 1, k);
    }
}

/// The decimal form of a number is a non-empty run of digits.
pub proof fn lemma_decimal_shape(n: nat)
    ensures
        decimal(n).len() > 0,
        forall|i: int| 0 <= i < decimal(n).len() ==> '0' <= #[trigger] decimal(n)[i] && decimal(n)[i] <= '9',
    decreases n,
{
    assert(('0' as int) == 48 && ('9' as int) == 57);
    if n >= 10 {
        lemma_decimal_shape(n / 10);
        let p = decimal(n / 10);
        assert forall|i: int| 0 <= i < decimal(n).len() implies '0' <= #[trigger] decimal(n)[i] && decimal(n)[i] <= '9' by {
            if i < p.len() {
                assert(decimal(n)[i] == p[i]);
            } else {
                assert((digit_char(n % 10) as int) == 48 + n % 10);
            }
        }
    } else {
        assert((digit_char(n) as int) == 48 + n);
    }
}

} // verus!
