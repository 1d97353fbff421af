//! Character-sequence helpers: conversion between `String` and `Vec<char>`,
//! splitting, joining, searching, replacing and trimming, each stated over
//! `Seq<char>`.
use vstd::prelude::*;

verus! {

/// The views of a sequence of strings.
pub open spec fn views(v: Seq<String>) -> Seq<Seq<char>> {
    v.map_values(|s: String| s@)
}

/// The pieces of `s` between occurrences of `sep`, in order; the empty
/// sequence has one empty piece.
pub open spec fn split(s: Seq<char>, sep: char) -> Seq<Seq<char>>
    decreases s.len(),
{
    if s.len() == 0 {
        seq![Seq::empty()]
    } else {
        let prev = split(s.drop_last(), sep);
        if s.last() == sep {
            prev.push(Seq::empty())
        } else {
            prev.update(prev.len() - 1, prev.last().push(s.last()))
        }
    }
}

/// `words` with one `sep` between neighbours.
pub open spec fn join(words: Seq<Seq<char>>, sep: char) -> Seq<char>
    decreases words.len(),
{
    if words.len() == 0 {
        Seq::empty()
    } else if words.len() == 1 {
        words[0]
    } else {
        join(words.drop_last(), sep) + seq![sep] + words.last()
    }
}

/// `p` occurs in `s` at index `i`.
pub open spec fn occurs_at(s: Seq<char>, p: Seq<char>, i: int) -> bool {
    0 <= i && i + p.len() <= s.len() && s.subrange(i, i + p.len()) == p
}

/// `p` occurs somewhere in `s`.
pub open spec fn occurs(s: Seq<char>, p: Seq<char>) -> bool {
    exists|i: int| #[trigger] occurs_at(s, p, i)
}

/// `i` is the first index where `p` occurs in `s`.
pub open spec fn first_at(s: Seq<char>, p: Seq<char>, i: int) -> bool {
    occurs_at(s, p, i) && forall|j: int| 0 <= j < i ==> !#[trigger] occurs_at(s, p, j)
}

/// Every occurrence of `p` in `s` replaced by `r`, scanning from the left
/// and never overlapping; an empty `p` leaves `s` as it is.
pub open spec fn replace_all(s: Seq<char>, p: Seq<char>, r: Seq<char>) -> Seq<char>
    decreases s.len(),
{
    if s.len() == 0 || p.len() == 0 {
        s
    } else if occurs_at(s, p, 0) {
        r + replace_all(s.subrange(p.len() as int, s.len() as int), p, r)
    } else {
        seq![s[0]] + replace_all(s.drop_first(), p, r)
    }
}

/// The characters with the Unicode `White_Space` property.
pub open spec fn is_space(c: char) -> bool {
    let u = c as u32;
    ||| 0x09 <= u <= 0x0d
    ||| u == 0x20
    ||| u == 0x85
    ||| u == 0xa0
    ||| u == 0x1680
    ||| 0x2000 <= u <= 0x200a
    ||| u == 0x2028
    ||| u == 0x2029
    ||| u == 0x202f
    ||| u == 0x205f
    ||| u == 0x3000
}

pub open spec fn trim_start(s: Seq<char>) -> Seq<char>
    decreases s.len(),
{
    if s.len() > 0 && is_space(s[0]) {
        trim_start(s.drop_first())
    } else {
        s
    }
}

pub open spec fn trim_end(s: Seq<char>) -> Seq<char>
    decreases s.len(),
{
    if s.len() > 0 && is_space(s.last()) {
        trim_end(s.drop_last())
    } else {
        s
    }
}

/// `s` without leading and trailing white space.
pub open spec fn trim(s: Seq<char>) -> Seq<char> {
    trim_end(trim_start(s))
}

pub proof fn lemma_split_len(s: Seq<char>, sep: char)
    ensures
        split(s, sep).len() >= 1,
    decreases s.len(),
{
    if s.len() > 0 {
        lemma_split_len(s.drop_last(), sep);
    }
}

/// A sequence without `sep` is one piece.
pub proof fn lemma_split_plain(w: Seq<char>, sep: char)
    requires
        !w.contains(sep),
    ensures
        split(w, sep) == seq![w],
    decreases w.len(),
{
    if w.len() == 0 {
        assert(w =~= Seq::<char>::empty());
        assert(seq![w] =~= seq![Seq::<char>::empty()]);
    } else {
        let v = w.drop_last();
        assert(!v.contains(sep)) by {
            if v.contains(sep) {
                let k = choose|k: int| 0 <= k < v.len() && v[k] == sep;
                assert(w[k] == sep);
            }
        }
        lemma_split_plain(v, sep);
        assert(w.last() != sep) by {
            assert(w[w.len() - 1] == w.last());
        }
        assert(v.push(w.last()) =~= w);
        assert(seq![v].update(0, v.push(w.last())) =~= seq![w]);
    }
}

/// Splitting at one separator splits each side apart.
pub proof fn lemma_split_concat(a: Seq<char>, b: Seq<char>, sep: char)
    ensures
        split(a + seq![sep] + b, sep) == split(a, sep) + split(b, sep),
    decreases b.len(),
{
    let s = a + seq![sep] + b;
    if b.len() == 0 {
        assert(s.drop_last() =~= a);
        assert(split(a, sep).push(Seq::empty()) =~= split(a, sep) + split(b, sep));
    } else {
        let b1 = b.drop_last();
        assert(s.drop_last() =~= a + seq![sep] + b1);
        lemma_split_concat(a, b1, sep);
        lemma_split_len(b1, sep);
        lemma_split_len(a, sep);
        if b.last() == sep {
            assert((split(a, sep) + split(b1, sep)).push(Seq::empty()) =~= split(a, sep) + split(
                b,
                sep,
            ));
        } else {
            let prev = split(a, sep) + split(b1, sep);
            assert(prev.update(prev.len() - 1, prev.last().push(s.last())) =~= split(a, sep)
                + split(b, sep));
        }
    }
}

/// Joining words that hold no separator and splitting again gives the words back.
pub proof fn lemma_split_join(words: Seq<Seq<char>>, sep: char)
    requires
        words.len() >= 1,
        forall|i: int| 0 <= i < words.len() ==> !(#[trigger] words[i]).contains(sep),
    ensures
        split(join(words, sep), sep) == words,
    decreases words.len(),
{
    if words.len() == 1 {
        lemma_split_plain(words[0], sep);
        assert(seq![words[0]] =~= words);
    } else {
        let init = words.drop_last();
        assert forall|i: int| 0 <= i < init.len() implies !(#[trigger] init[i]).contains(sep) by {
            assert(init[i] == words[i]);
        }
        lemma_split_join(init, sep);
        lemma_split_concat(join(init, sep), words.last(), sep);
        lemma_split_plain(words.last(), sep);
        assert(init + seq![words.last()] =~= words);
    }
}

/// Where nothing matches, nothing is replaced.
pub proof fn lemma_replace_absent(s: Seq<char>, p: Seq<char>, r: Seq<char>)
    requires
        !occurs(s, p),
    ensures
        replace_all(s, p, r) == s,
    decreases s.len(),
{
    if s.len() > 0 && p.len() > 0 {
        assert(!occurs_at(s, p, 0));
        let t = s.drop_first();
        assert(!occurs(t, p)) by {
            if occurs(t, p) {
                let i = choose|i: int| #[trigger] occurs_at(t, p, i);
                assert(s.subrange(i + 1, i + 1 + p.len()) =~= t.subrange(i, i + p.len()));
                assert(occurs_at(s, p, i + 1));
            }
        }
        lemma_replace_absent(t, p, r);
        assert(seq![s[0]] + t =~= s);
    }
}

/// A pattern whose first character does not recur in it, occurring once,
/// is replaced there and nowhere else.
pub proof fn lemma_replace_once(pre: Seq<char>, p: Seq<char>, post: Seq<char>, r: Seq<char>)
    requires
        p.len() > 0,
        forall|k: int| 1 <= k < p.len() ==> #[trigger] p[k] != p[0],
        !occurs(pre, p),
        !occurs(post, p),
    ensures
        replace_all(pre + p + post, p, r) == pre + r + post,
    decreases pre.len(),
{
    let s = pre + p + post;
    if pre.len() == 0 {
        assert(s =~= p + post);
        assert(s.subrange(0, p.len() as int) =~= p);
        assert(occurs_at(s, p, 0));
        assert(s.subrange(p.len() as int, s.len() as int) =~= post);
        lemma_replace_absent(post, p, r);
        assert(pre + r + post =~= r + post);
    } else {
        assert(!occurs_at(s, p, 0)) by {
            if occurs_at(s, p, 0) {
                if p.len() <= pre.len() {
                    assert(pre.subrange(0, p.len() as int) =~= s.subrange(0, p.len() as int));
                    assert(occurs_at(pre, p, 0));
                } else {
                    let k = pre.len() as int;
                    assert(s[k] == p[0]);
                    assert(s.subrange(0, p.len() as int)[k] == p[k]);
                }
            }
        }
        let t = pre.drop_first();
        assert(!occurs(t, p)) by {
            if occurs(t, p) {
                let i = choose|i: int| #[trigger] occurs_at(t, p, i);
                assert(pre.subrange(i + 1, i + 1 + p.len()) =~= t.subrange(i, i + p.len()));
                assert(occurs_at(pre, p, i + 1));
            }
        }
        lemma_replace_once(t, p, post, r);
        assert(s.drop_first() =~= t + p + post);
        assert(seq![s[0]] + (t + r + post) =~= pre + r + post);
    }
}

/// The characters of `s`, in order.
pub fn chars_of(s: &str) -> (v: Vec<char>)
    ensures
        v@ == s@,
{
    let mut v: Vec<char> = Vec::new();
    for c in it: s.chars()
        invariant
            v@ == it.seq().take(it.index() as int),
    {
        v.push(c);
    }
    v
}

/// Relies on `String`'s `FromIterator<&char>`: the string holds the chars in order.
#[verifier::external_body]
pub(crate) fn string_of(chars: &[char]) -> (r: String)
    ensures
        r@ == chars@,
{
    chars.iter().collect()
}

/// Appends `r` to `out`.
pub fn push_all(out: &mut Vec<char>, r: &[char])
    ensures
        final(out)@ == old(out)@ + r@,
{
    let mut i: usize = 0;
    while i < r.len()
        invariant
            i <= r@.len(),
            out@ == old(out)@ + r@.take(i as int),
        decreases r@.len() - i,
    {
        out.push(r[i]);
        i = i + 1;
        assert(r@.take(i as int) =~= r@.take(i - 1) + seq![r@[i - 1]]);
    }
    assert(r@.take(i as int) =~= r@);
}

/// The characters of `s` from `from` up to `to`.
pub fn copy_range(s: &[char], from: usize, to: usize) -> (v: Vec<char>)
    requires
        from <= to <= s@.len(),
    ensures
        v@ == s@.subrange(from as int, to as int),
{
    let mut v: Vec<char> = Vec::new();
    let mut i: usize = from;
    while i < to
        invariant
            from <= i <= to <= s@.len(),
            v@ == s@.subrange(from as int, i as int),
        decreases to - i,
    {
        v.push(s[i]);
        i = i + 1;
        assert(v@ =~= s@.subrange(from as int, i as int));
    }
    v
}

/// Whether `p` occurs in `s` at index `i`.
pub fn matches_at(s: &[char], i: usize, p: &[char]) -> (b: bool)
    ensures
        b == occurs_at(s@, p@, i as int),
{
    if i > s.len() || p.len() > s.len() - i {
        return false;
    }
    let n = s.len();
    let mut j: usize = 0;
    while j < p.len()
        invariant
            j <= p@.len(),
            n == s@.len(),
            i + p@.len() <= n,
            forall|k: int| 0 <= k < j ==> s@[i + k] == p@[k],
        decreases p@.len() - j,
    {
        if s[i + j] != p[j] {
            assert(s@.subrange(i as int, i + p@.len())[j as int] != p@[j as int]);
            return false;
        }
        j = j + 1;
    }
    assert(s@.subrange(i as int, i + p@.len()) =~= p@);
    true
}

/// Whether `p` occurs anywhere in `s`.
pub fn contains(s: &[char], p: &[char]) -> (b: bool)
    ensures
        b == occurs(s@, p@),
{
    if p.len() > s.len() {
        assert(!occurs(s@, p@)) by {
            if occurs(s@, p@) {
                let k = choose|k: int| #[trigger] occurs_at(s@, p@, k);
            }
        }
        return false;
    }
    if p.len() == 0 {
        assert(s@.subrange(0, 0) =~= p@);
        assert(occurs_at(s@, p@, 0));
        return true;
    }
    let last: usize = s.len() - p.len();
    let mut i: usize = 0;
    while i <= last
        invariant
            last == s@.len() - p@.len(),
            p@.len() >= 1,
            s@.len() <= usize::MAX,
            i <= last + 1,
            forall|k: int| 0 <= k < i ==> !#[trigger] occurs_at(s@, p@, k),
        decreases last + 1 - i,
    {
        if matches_at(s, i, p) {
            return true;
        }
        i = i + 1;
    }
    assert(!occurs(s@, p@)) by {
        if occurs(s@, p@) {
            let k = choose|k: int| #[trigger] occurs_at(s@, p@, k);
            assert(k <= last);
        }
    }
    false
}

/// The first index where `p` occurs in `s`, if any.
pub fn find(s: &[char], p: &[char]) -> (r: Option<usize>)
    ensures
        match r {
            Some(i) => first_at(s@, p@, i as int),
            None => !occurs(s@, p@),
        },
{
    if p.len() == 0 {
        assert(s@.subrange(0, 0) =~= p@);
        assert(occurs_at(s@, p@, 0));
        return Some(0);
    }
    if p.len() > s.len() {
        assert(!occurs(s@, p@)) by {
            if occurs(s@, p@) {
                let k = choose|k: int| #[trigger] occurs_at(s@, p@, k);
            }
        }
        return None;
    }
    let last: usize = s.len() - p.len();
    let mut i: usize = 0;
    while i <= last
        invariant
            last == s@.len() - p@.len(),
            p@.len() >= 1,
            s@.len() <= usize::MAX,
            i <= last + 1,
            forall|k: int| 0 <= k < i ==> !#[trigger] occurs_at(s@, p@, k),
        decreases last + 1 - i,
    {
        if matches_at(s, i, p) {
            return Some(i);
        }
        i = i + 1;
    }
    assert(!occurs(s@, p@)) by {
        if occurs(s@, p@) {
            let k = choose|k: int| #[trigger] occurs_at(s@, p@, k);
            assert(k <= last);
        }
    }
    None
}

/// `s` with every occurrence of `p` replaced by `r`, as `str::replace` does.
pub fn replace_all_chars(s: &[char], p: &[char], r: &[char]) -> (out: Vec<char>)
    requires
        p@.len() > 0,
    ensures
        out@ == replace_all(s@, p@, r@),
{
    let mut out: Vec<char> = Vec::new();
    let mut i: usize = 0;
    assert(s@.subrange(0, s@.len() as int) =~= s@);
    while i < s.len()
        invariant
            i <= s@.len(),
            p@.len() > 0,
            replace_all(s@, p@, r@) == out@ + replace_all(
                s@.subrange(i as int, s@.len() as int),
                p@,
                r@,
            ),
        decreases s@.len() - i,
    {
        let ghost t = s@.subrange(i as int, s@.len() as int);
        if matches_at(s, i, p) {
            assert(t.subrange(0, p@.len() as int) =~= s@.subrange(i as int, i + p@.len()));
            assert(occurs_at(t, p@, 0));
            push_all(&mut out, r);
            i = i + p.len();
            assert(t.subrange(p@.len() as int, t.len() as int) =~= s@.subrange(
                i as int,
                s@.len() as int,
            ));
        } else {
            assert(!occurs_at(t, p@, 0)) by {
                if occurs_at(t, p@, 0) {
                    assert(t.subrange(0, p@.len() as int) =~= s@.subrange(i as int, i + p@.len()));
                }
            }
            out.push(s[i]);
            i = i + 1;
            assert(t.drop_first() =~= s@.subrange(i as int, s@.len() as int));
        }
    }
    assert(s@.subrange(i as int, s@.len() as int) =~= Seq::<char>::empty());
    assert(out@ + Seq::<char>::empty() =~= out@);
    out
}

/// Whether `c` is white space, as `char::is_whitespace` says.
pub fn is_space_char(c: char) -> (b: bool)
    ensures
        b == is_space(c),
{
    let u = c as u32;
    (0x09 <= u && u <= 0x0d) || u == 0x20 || u == 0x85 || u == 0xa0 || u == 0x1680 || (0x2000
        <= u && u <= 0x200a) || u == 0x2028 || u == 0x2029 || u == 0x202f || u == 0x205f || u
        == 0x3000
}

/// `s` without leading and trailing white space.
pub fn trim_chars(s: &[char]) -> (v: Vec<char>)
    ensures
        v@ == trim(s@),
{
    let n = s.len();
    let mut i: usize = 0;
    assert(s@.subrange(0, n as int) =~= s@);
    while i < n && is_space_char(s[i])
        invariant
            i <= n == s@.len(),
            trim_start(s@) == trim_start(s@.subrange(i as int, n as int)),
        decreases n - i,
    {
        assert(s@.subrange(i as int, n as int).drop_first() =~= s@.subrange(i + 1, n as int));
        i = i + 1;
    }
    let mut j: usize = n;
    while j > i && is_space_char(s[j - 1])
        invariant
            i <= j <= n == s@.len(),
            trim_start(s@) == s@.subrange(i as int, n as int),
            trim(s@) == trim_end(s@.subrange(i as int, j as int)),
        decreases j,
    {
        assert(s@.subrange(i as int, j as int).drop_last() =~= s@.subrange(i as int, j - 1));
        j = j - 1;
    }
    copy_range(s, i, j)
}

/// The words of `words` with one `sep` between neighbours.
pub fn join_chars(words: &[String], sep: char) -> (v: Vec<char>)
    ensures
        v@ == join(views(words@), sep),
{
    let mut v: Vec<char> = Vec::new();
    let mut i: usize = 0;
    while i < words.len()
        invariant
            i <= words@.len(),
            v@ == join(views(words@).take(i as int), sep),
        decreases words@.len() - i,
    {
        let ghost before = views(words@).take(i as int);
        let w = chars_of(words[i].as_str());
        if i > 0 {
            v.push(sep);
        }
        push_all(&mut v, &w);
        i = i + 1;
        let ghost after = views(words@).take(i as int);
        assert(after.drop_last() =~= before);
        assert(after.last() == words@[i - 1]@);
        if i == 1 {
            assert(v@ =~= after[0]);
        }
    }
    assert(views(words@).take(i as int) =~= views(words@));
    v
}

/// The pieces of `s` between occurrences of `sep`.
pub fn split_chars(s: &[char], sep: char) -> (v: Vec<String>)
    ensures
        views(v@) == split(s@, sep),
{
    let mut v: Vec<String> = Vec::new();
    let mut cur: Vec<char> = Vec::new();
    let mut i: usize = 0;
    while i < s.len()
        invariant
            i <= s@.len(),
            split(s@.take(i as int), sep) == views(v@).push(cur@),
        decreases s@.len() - i,
    {
        let ghost prev = s@.take(i as int);
        let ghost vs = views(v@);
        let ghost old_cur = cur@;
        assert(s@.take(i + 1).drop_last() =~= prev);
        assert(s@.take(i + 1).last() == s@[i as int]);
        if s[i] == sep {
            let piece = string_of(&cur);
            v.push(piece);
            cur = Vec::new();
            assert(views(v@) =~= vs.push(piece@));
            assert(vs.push(old_cur).push(Seq::empty()) =~= views(v@).push(cur@));
        } else {
            cur.push(s[i]);
            assert(vs.push(old_cur).update(vs.len() as int, old_cur.push(s@[i as int])) =~= vs.push(
                cur@,
            ));
        }
        i = i + 1;
    }
    let ghost vs = views(v@);
    let last = string_of(&cur);
    v.push(last);
    assert(views(v@) =~= vs.push(last@));
    assert(s@.take(i as int) =~= s@);
    v
}

} // verus!
