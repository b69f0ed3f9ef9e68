//! Character-level text: the operations on which the protocol parser and the
//! frame splitter are built, each with its meaning as a function on
//! sequences of characters.
//!
//! Executable code works on a `Vec<char>` and on ranges `(from, to)` into it,
//! so that cutting a line into pieces copies nothing until a piece is kept.

use vstd::prelude::*;
use vstd::string::*;
use vstd::utf8::{char_is_scalar, encode_scalar, encode_utf8};

verus! {

/// `String::push` appends one character to the end of the string.
pub assume_specification[ String::push ](s: &mut String, c: char)
    ensures
        final(s)@ == old(s)@.push(c),
;

/// Whether `c` is white space: a character with the Unicode property
/// `White_Space`.
pub open spec fn is_space(c: char) -> bool {
    let n = c as u32;
    ||| 0x09 <= n <= 0x0D
    ||| n == 0x20
    ||| n == 0x85
    ||| n == 0xA0
    ||| n == 0x1680
    ||| 0x2000 <= n <= 0x200A
    ||| n == 0x2028
    ||| n == 0x2029
    ||| n == 0x202F
    ||| n == 0x205F
    ||| n == 0x3000
}

/// `s` without its leading white space.
pub open spec fn trim_start(s: Seq<char>) -> Seq<char>
    decreases s.len(),
{
    if s.len() > 0 && is_space(s[0]) {
        trim_start(s.drop_first())
    } else {
        s
    }
}

/// `s` without its trailing white space.
pub open spec fn trim_end(s: Seq<char>) -> Seq<char>
    decreases s.len(),
{
    if s.len() > 0 && is_space(s.last()) {
        trim_end(s.drop_last())
    } else {
        s
    }
}

/// `s` without its leading and trailing white space.
pub open spec fn trim(s: Seq<char>) -> Seq<char> {
    trim_end(trim_start(s))
}

/// `s` without the leading run of the character `c`.
pub open spec fn strip_leading(s: Seq<char>, c: char) -> Seq<char>
    decreases s.len(),
{
    if s.len() > 0 && s[0] == c {
        strip_leading(s.drop_first(), c)
    } else {
        s
    }
}

/// `s` without the trailing repetitions of the non-empty text `pat`.
pub open spec fn strip_trailing(s: Seq<char>, pat: Seq<char>) -> Seq<char>
    decreases s.len(),
{
    if pat.len() > 0 && pat.is_suffix_of(s) {
        strip_trailing(s.take(s.len() - pat.len()), pat)
    } else {
        s
    }
}

/// Whether `pat` stands in `s` at index `i`.
pub open spec fn occurs_at(s: Seq<char>, pat: Seq<char>, i: int) -> bool {
    0 <= i && i + pat.len() <= s.len() && s.subrange(i, i + pat.len()) == pat
}

/// The first index at or after `from` at which `pat` stands in `s`.
pub open spec fn find_from(s: Seq<char>, pat: Seq<char>, from: int) -> Option<int>
    decreases s.len() + 1 - from,
{
    if from < 0 || from + pat.len() > s.len() {
        None
    } else if occurs_at(s, pat, from) {
        Some(from)
    } else {
        find_from(s, pat, from + 1)
    }
}

/// The first index at which `pat` stands in `s`.
pub open spec fn find(s: Seq<char>, pat: Seq<char>) -> Option<int> {
    find_from(s, pat, 0)
}

/// One less, where there is a limit.
pub open spec fn one_less(limit: Option<nat>) -> Option<nat> {
    match limit {
        Some(n) => Some((n - 1) as nat),
        None => None,
    }
}

/// The pieces into which the separator `pat` cuts `s`, from the left. With a
/// limit of `n` there are at most `n` pieces, the last one being all that is
/// left of `s`. A text without the separator is one piece.
pub open spec fn pieces(s: Seq<char>, pat: Seq<char>, limit: Option<nat>) -> Seq<Seq<char>>
    decreases s.len(),
    via pieces_decreases
{
    if limit == Some(0nat) {
        seq![]
    } else if limit == Some(1nat) || pat.len() == 0 {
        seq![s]
    } else {
        match find(s, pat) {
            None => seq![s],
            Some(i) => seq![s.take(i)] + pieces(s.skip(i + pat.len()), pat, one_less(limit)),
        }
    }
}

#[via_fn]
proof fn pieces_decreases(s: Seq<char>, pat: Seq<char>, limit: Option<nat>) {
    lemma_find_from(s, pat, 0);
}

/// What `find_from` finds is the first place at or after `from` where `pat`
/// stands in `s`; it finds nothing only where `pat` stands nowhere from there
/// on.
pub proof fn lemma_find_from(s: Seq<char>, pat: Seq<char>, from: int)
    requires
        0 <= from,
    ensures
        match find_from(s, pat, from) {
            Some(i) => from <= i && occurs_at(s, pat, i) && forall|j: int|
                from <= j < i ==> !occurs_at(s, pat, j),
            None => forall|j: int| from <= j ==> !occurs_at(s, pat, j),
        },
    decreases s.len() + 1 - from,
{
    if from + pat.len() <= s.len() && !occurs_at(s, pat, from) {
        lemma_find_from(s, pat, from + 1);
    }
}

/// The pieces into which the separator `pat` cuts `s`.
pub open spec fn split(s: Seq<char>, pat: Seq<char>) -> Seq<Seq<char>> {
    pieces(s, pat, None)
}

/// The first `n` pieces into which `pat` cuts `s`, the last of them being
/// all that is left.
pub open spec fn splitn(s: Seq<char>, n: nat, pat: Seq<char>) -> Seq<Seq<char>> {
    pieces(s, pat, Some(n))
}

/// The length of the longest prefix of `s` that holds no white space.
pub open spec fn word_len(s: Seq<char>) -> nat
    decreases s.len(),
{
    if s.len() == 0 || is_space(s[0]) {
        0
    } else {
        1 + word_len(s.drop_first())
    }
}

/// The words of `s`: its maximal runs of characters that are not white space.
pub open spec fn words(s: Seq<char>) -> Seq<Seq<char>>
    decreases s.len(),
    via words_decreases
{
    if s.len() == 0 {
        seq![]
    } else if is_space(s[0]) {
        words(s.drop_first())
    } else {
        seq![s.take(word_len(s) as int)] + words(s.skip(word_len(s) as int))
    }
}

#[via_fn]
proof fn words_decreases(s: Seq<char>) {
    lemma_word_len(s);
}

/// The first word of `s` lies within `s`, holds no white space, and ends
/// where `s` ends or white space begins.
pub proof fn lemma_word_len(s: Seq<char>)
    ensures
        word_len(s) <= s.len(),
        forall|i: int| 0 <= i < word_len(s) ==> !is_space(s[i]),
        word_len(s) < s.len() ==> is_space(s[word_len(s) as int]),
        s.len() > 0 && !is_space(s[0]) ==> word_len(s) >= 1,
    decreases s.len(),
{
    if s.len() > 0 && !is_space(s[0]) {
        lemma_word_len(s.drop_first());
        assert forall|i: int| 0 <= i < word_len(s) implies !is_space(s[i]) by {
            if i > 0 {
                assert(s[i] == s.drop_first()[i - 1]);
            }
        }
    }
}

/// The parts, with `sep` between each two neighbours.
pub open spec fn join(parts: Seq<Seq<char>>, sep: Seq<char>) -> Seq<char>
    decreases parts.len(),
{
    if parts.len() == 0 {
        seq![]
    } else if parts.len() == 1 {
        parts[0]
    } else {
        join(parts.drop_last(), sep) + sep + parts.last()
    }
}

/// The texts that the ranges `rs` cut out of `v`.
pub open spec fn slices(v: Seq<char>, rs: Seq<(usize, usize)>) -> Seq<Seq<char>> {
    Seq::new(rs.len(), |i: int| v.subrange(rs[i].0 as int, rs[i].1 as int))
}

/// Whether each range of `rs` lies in `from..to`.
pub open spec fn ranges_within(rs: Seq<(usize, usize)>, from: int, to: int) -> bool {
    forall|i: int| 0 <= i < rs.len() ==> from <= (#[trigger] rs[i]).0 <= rs[i].1 <= to
}

/// The views of the strings.
pub open spec fn views(v: Seq<String>) -> Seq<Seq<char>> {
    Seq::new(v.len(), |i: int| v[i]@)
}

/// The characters of `s`, in order.
pub fn chars_of(s: &str) -> (v: Vec<char>)
    ensures
        v@ == s@,
{
    let mut v: Vec<char> = Vec::new();
    for c in it: s.chars()
        invariant
            v@ == it.seq().take(it.index() as int),
    {
        v.push(c);
    }
    v
}

/// The string made of the characters `v[from..to]`.
pub fn string_of(v: &Vec<char>, from: usize, to: usize) -> (s: String)
    requires
        from <= to <= v.len(),
    ensures
        s@ == v@.subrange(from as int, to as int),
{
    let mut s = String::new();
    let mut i: usize = from;
    while i < to
        invariant
            from <= i <= to <= v.len(),
            s@ == v@.subrange(from as int, i as int),
        decreases to - i,
    {
        s.push(v[i]);
        i += 1;
    }
    s
}

/// Appends the characters `v[from..to]` to `s`.
pub fn push_range(s: &mut String, v: &Vec<char>, from: usize, to: usize)
    requires
        from <= to <= v.len(),
    ensures
        final(s)@ == old(s)@ + v@.subrange(from as int, to as int),
{
    let mut i: usize = from;
    while i < to
        invariant
            from <= i <= to <= v.len(),
            s@ == old(s)@ + v@.subrange(from as int, i as int),
        decreases to - i,
    {
        s.push(v[i]);
        i += 1;
    }
}

/// Whether `c` is white space.
pub fn is_whitespace(c: char) -> (b: bool)
    ensures
        b == is_space(c),
{
    let n: u32 = c as u32;
    (0x09 <= n && n <= 0x0D) || n == 0x20 || n == 0x85 || n == 0xA0 || n == 0x1680 || (0x2000 <= n
        && n <= 0x200A) || n == 0x2028 || n == 0x2029 || n == 0x202F || n == 0x205F || n == 0x3000
}

/// The range of `v[from..to]` that is left when the white space at both
/// ends is cut off.
pub fn trim_range(v: &Vec<char>, from: usize, to: usize) -> (r: (usize, usize))
    requires
        from <= to <= v.len(),
    ensures
        from <= r.0 <= r.1 <= to,
        v@.subrange(r.0 as int, r.1 as int) == trim(v@.subrange(from as int, to as int)),
{
    let mut a: usize = from;
    while a < to && is_whitespace(v[a])
        invariant
            from <= a <= to <= v.len(),
            trim_start(v@.subrange(from as int, to as int)) == trim_start(
                v@.subrange(a as int, to as int),
            ),
        decreases to - a,
    {
        assert(v@.subrange(a as int, to as int).drop_first() =~= v@.subrange(a + 1, to as int));
        a += 1;
    }
    let mut b: usize = to;
    while b > a && is_whitespace(v[b - 1])
        invariant
            a <= b <= to <= v.len(),
            trim_end(v@.subrange(a as int, to as int)) == trim_end(
                v@.subrange(a as int, b as int),
            ),
        decreases b - a,
    {
        assert(v@.subrange(a as int, b as int).drop_last() =~= v@.subrange(a as int, b - 1));
        b -= 1;
    }
    (a, b)
}

/// The start of what is left of `v[from..to]` when the leading run of `c` is
/// cut off.
pub fn strip_leading_from(v: &Vec<char>, from: usize, to: usize, c: char) -> (a: usize)
    requires
        from <= to <= v.len(),
    ensures
        from <= a <= to,
        v@.subrange(a as int, to as int) == strip_leading(v@.subrange(from as int, to as int), c),
{
    let mut a: usize = from;
    while a < to && v[a] == c
        invariant
            from <= a <= to <= v.len(),
            strip_leading(v@.subrange(from as int, to as int), c) == strip_leading(
                v@.subrange(a as int, to as int),
                c,
            ),
        decreases to - a,
    {
        assert(v@.subrange(a as int, to as int).drop_first() =~= v@.subrange(a + 1, to as int));
        a += 1;
    }
    a
}

/// Whether `pat` stands in `v` at index `i`.
pub fn occurs_in(v: &Vec<char>, i: usize, pat: &Vec<char>) -> (b: bool)
    requires
        i + pat.len() <= v.len(),
    ensures
        b == (v@.subrange(i as int, i + pat.len()) == pat@),
{
    let mut k: usize = 0;
    while k < pat.len()
        invariant
            k <= pat.len(),
            i + pat.len() <= v.len(),
            v@.subrange(i as int, i + k) == pat@.take(k as int),
        decreases pat.len() - k,
    {
        if v[i + k] != pat[k] {
            assert(v@.subrange(i as int, i + pat.len())[k as int] != pat@[k as int]);
            return false;
        }
        assert(v@.subrange(i as int, i + k + 1) =~= v@.subrange(i as int, i + k).push(
            v@[i + k],
        ));
        assert(pat@.take(k + 1) =~= pat@.take(k as int).push(pat@[k as int]));
        k += 1;
    }
    assert(pat@.take(pat.len() as int) =~= pat@);
    true
}

/// Whether `v[from..to]` begins with `pat`.
pub fn starts_with(v: &Vec<char>, from: usize, to: usize, pat: &Vec<char>) -> (b: bool)
    requires
        from <= to <= v.len(),
    ensures
        b == pat@.is_prefix_of(v@.subrange(from as int, to as int)),
{
    if pat.len() > to - from {
        false
    } else {
        let b = occurs_in(v, from, pat);
        assert(v@.subrange(from as int, to as int).subrange(0, pat.len() as int) =~= v@.subrange(
            from as int,
            from + pat.len(),
        ));
        b
    }
}

/// The first index in `from..to` at which `pat` stands in `v[from..to]`.
pub fn find_in(v: &Vec<char>, from: usize, to: usize, pat: &Vec<char>) -> (r: Option<usize>)
    requires
        from <= to <= v.len(),
    ensures
        match r {
            Some(i) => from <= i && i + pat.len() <= to && find(
                v@.subrange(from as int, to as int),
                pat@,
            ) == Some(i - from),
            None => find(v@.subrange(from as int, to as int), pat@) is None,
        },
{
    let ghost s = v@.subrange(from as int, to as int);
    if pat.len() > to - from {
        return None;
    }
    if pat.len() == 0 {
        assert(s.subrange(0, 0) =~= pat@);
        return Some(from);
    }
    let last: usize = to - pat.len();
    let mut i: usize = from;
    while i <= last
        invariant
            from <= i <= last + 1,
            last + pat.len() == to,
            to <= v.len(),
            pat.len() > 0,
            s == v@.subrange(from as int, to as int),
            find(s, pat@) == find_from(s, pat@, i - from),
        decreases last + 1 - i,
    {
        let here = occurs_in(v, i, pat);
        assert(s.subrange(i - from, i - from + pat.len()) =~= v@.subrange(
            i as int,
            i + pat.len(),
        ));
        if here {
            return Some(i);
        }
        i += 1;
    }
    None
}

/// The limit as a number of the specification.
pub open spec fn limit_of(limit: Option<usize>) -> Option<nat> {
    match limit {
        Some(n) => Some(n as nat),
        None => None,
    }
}

/// The end of what is left of `v[from..to]` when the trailing repetitions of
/// `pat` are cut off.
pub fn strip_trailing_to(v: &Vec<char>, from: usize, to: usize, pat: &Vec<char>) -> (b: usize)
    requires
        from <= to <= v.len(),
        pat.len() > 0,
    ensures
        from <= b <= to,
        v@.subrange(from as int, b as int) == strip_trailing(
            v@.subrange(from as int, to as int),
            pat@,
        ),
{
    let mut b: usize = to;
    while b - from >= pat.len() && occurs_in(v, b - pat.len(), pat)
        invariant
            from <= b <= to <= v.len(),
            pat.len() > 0,
            strip_trailing(v@.subrange(from as int, to as int), pat@) == strip_trailing(
                v@.subrange(from as int, b as int),
                pat@,
            ),
        decreases b - from,
    {
        proof {
            let t = v@.subrange(from as int, b as int);
            assert(t.subrange(t.len() - pat.len(), t.len() as int) =~= v@.subrange(
                b - pat.len(),
                b as int,
            ));
            assert(t.take(t.len() - pat.len()) =~= v@.subrange(from as int, b - pat.len()));
        }
        b -= pat.len();
    }
    proof {
        let t = v@.subrange(from as int, b as int);
        if pat.len() <= b - from {
            assert(t.subrange(t.len() - pat.len(), t.len() as int) =~= v@.subrange(
                b - pat.len(),
                b as int,
            ));
        }
    }
    b
}

/// The ranges of the pieces into which the separator `pat` cuts
/// `v[from..to]`: at most `limit` of them where there is a limit.
pub fn split_ranges(
    v: &Vec<char>,
    from: usize,
    to: usize,
    pat: &Vec<char>,
    limit: Option<usize>,
) -> (parts: Vec<(usize, usize)>)
    requires
        from <= to <= v.len(),
        pat.len() > 0,
    ensures
        ranges_within(parts@, from as int, to as int),
        slices(v@, parts@) == pieces(v@.subrange(from as int, to as int), pat@, limit_of(limit)),
{
    let ghost whole = pieces(v@.subrange(from as int, to as int), pat@, limit_of(limit));
    let mut parts: Vec<(usize, usize)> = Vec::new();
    let mut cur: usize = from;
    let mut left: Option<usize> = limit;
    let mut done: bool = false;
    assert(slices(v@, parts@) =~= Seq::<Seq<char>>::empty());
    assert(whole =~= slices(v@, parts@) + whole);
    while !done
        invariant
            from <= cur <= to <= v.len(),
            pat.len() > 0,
            ranges_within(parts@, from as int, to as int),
            done ==> whole == slices(v@, parts@),
            !done ==> whole == slices(v@, parts@) + pieces(
                v@.subrange(cur as int, to as int),
                pat@,
                limit_of(left),
            ),
        decreases to - cur + (if done { 0int } else { 1int }),
    {
        let ghost rest = v@.subrange(cur as int, to as int);
        let ghost before = slices(v@, parts@);
        let none_left = match left {
            Some(n) => n == 0,
            None => false,
        };
        let one_left = match left {
            Some(n) => n == 1,
            None => false,
        };
        if none_left {
            assert(whole =~= before);
            done = true;
        } else if one_left {
            parts.push((cur, to));
            assert(slices(v@, parts@) =~= before + seq![rest]);
            done = true;
        } else {
            match find_in(v, cur, to, pat) {
                None => {
                    parts.push((cur, to));
                    assert(slices(v@, parts@) =~= before + seq![rest]);
                    done = true;
                },
                Some(i) => {
                    parts.push((cur, i));
                    proof {
                        let next = v@.subrange(i + pat.len(), to as int);
                        assert(rest.take(i - cur) =~= v@.subrange(cur as int, i as int));
                        assert(rest.skip(i - cur + pat.len()) =~= next);
                        assert(slices(v@, parts@) =~= before + seq![rest.take(i - cur)]);
                        assert(whole =~= slices(v@, parts@) + pieces(
                            next,
                            pat@,
                            one_less(limit_of(left)),
                        ));
                    }
                    cur = i + pat.len();
                    left =
                    match left {
                        Some(n) => Some(n - 1),
                        None => None,
                    };
                },
            }
        }
    }
    parts
}

/// The ranges of the words of `v[from..to]`.
pub fn word_ranges(v: &Vec<char>, from: usize, to: usize) -> (parts: Vec<(usize, usize)>)
    requires
        from <= to <= v.len(),
    ensures
        ranges_within(parts@, from as int, to as int),
        slices(v@, parts@) == words(v@.subrange(from as int, to as int)),
{
    let ghost whole = words(v@.subrange(from as int, to as int));
    let mut parts: Vec<(usize, usize)> = Vec::new();
    let mut cur: usize = from;
    assert(slices(v@, parts@) =~= Seq::<Seq<char>>::empty());
    assert(whole =~= slices(v@, parts@) + whole);
    while cur < to
        invariant
            from <= cur <= to <= v.len(),
            ranges_within(parts@, from as int, to as int),
            whole == slices(v@, parts@) + words(v@.subrange(cur as int, to as int)),
        decreases to - cur,
    {
        let ghost rest = v@.subrange(cur as int, to as int);
        let ghost before = slices(v@, parts@);
        if is_whitespace(v[cur]) {
            assert(rest.drop_first() =~= v@.subrange(cur + 1, to as int));
            cur += 1;
        } else {
            let mut end: usize = cur + 1;
            assert(rest.drop_first() =~= v@.subrange(cur + 1, to as int));
            while end < to && !is_whitespace(v[end])
                invariant
                    cur < end <= to <= v.len(),
                    word_len(v@.subrange(cur as int, to as int)) == (end - cur) + word_len(
                        v@.subrange(end as int, to as int),
                    ),
                decreases to - end,
            {
                assert(v@.subrange(end as int, to as int).drop_first() =~= v@.subrange(
                    end + 1,
                    to as int,
                ));
                end += 1;
            }
            proof {
                assert(word_len(rest) == end - cur);
                assert(rest.take(end - cur) =~= v@.subrange(cur as int, end as int));
                assert(rest.skip(end - cur) =~= v@.subrange(end as int, to as int));
            }
            parts.push((cur, end));
            assert(slices(v@, parts@) =~= before + seq![rest.take(end - cur)]);
            assert(whole =~= slices(v@, parts@) + words(v@.subrange(end as int, to as int)));
            cur = end;
        }
    }
    assert(whole =~= slices(v@, parts@));
    parts
}

/// The texts of the ranges `parts[first..last]` of `v`, with `sep` between
/// each two neighbours.
pub fn join_ranges(
    v: &Vec<char>,
    parts: &Vec<(usize, usize)>,
    first: usize,
    last: usize,
    sep: &Vec<char>,
) -> (s: String)
    requires
        first <= last <= parts.len(),
        ranges_within(parts@, 0, v.len() as int),
    ensures
        s@ == join(slices(v@, parts@).subrange(first as int, last as int), sep@),
{
    let ghost all = slices(v@, parts@);
    let mut s = String::new();
    let mut k: usize = first;
    assert(all.subrange(first as int, first as int) =~= Seq::<Seq<char>>::empty());
    while k < last
        invariant
            first <= k <= last <= parts.len(),
            all == slices(v@, parts@),
            ranges_within(parts@, 0, v.len() as int),
            s@ == join(all.subrange(first as int, k as int), sep@),
        decreases last - k,
    {
        let ghost so_far = all.subrange(first as int, k as int);
        let ghost more = all.subrange(first as int, k + 1);
        assert(more.drop_last() =~= so_far);
        assert(more.last() == all[k as int]);
        if k > first {
            push_range(&mut s, sep, 0, sep.len());
            assert(sep@.subrange(0, sep.len() as int) =~= sep@);
        }
        let r = parts[k];
        push_range(&mut s, v, r.0, r.1);
        assert(s@ =~= join(more, sep@));
        k += 1;
    }
    s
}

/// The texts of the ranges `parts` of `v`, as strings.
pub fn strings_of(v: &Vec<char>, parts: &Vec<(usize, usize)>) -> (out: Vec<String>)
    requires
        ranges_within(parts@, 0, v.len() as int),
    ensures
        views(out@) == slices(v@, parts@),
{
    let mut out: Vec<String> = Vec::new();
    let mut k: usize = 0;
    while k < parts.len()
        invariant
            k <= parts.len(),
            ranges_within(parts@, 0, v.len() as int),
            out@.len() == k,
            forall|i: int| 0 <= i < k ==> (#[trigger] out@[i])@ == slices(v@, parts@)[i],
        decreases parts.len() - k,
    {
        let r = parts[k];
        let piece = string_of(v, r.0, r.1);
        out.push(piece);
        k += 1;
    }
    assert(views(out@) =~= slices(v@, parts@));
    out
}

/// The words of `s`.
pub fn split_whitespace(s: &str) -> (out: Vec<String>)
    ensures
        views(out@) == words(s@),
{
    let v = chars_of(s);
    let parts = word_ranges(&v, 0, v.len());
    assert(v@.subrange(0, v.len() as int) =~= v@);
    strings_of(&v, &parts)
}

/// `s` without its leading and trailing white space.
pub fn trimmed(s: &str) -> (out: String)
    ensures
        out@ == trim(s@),
{
    let v = chars_of(s);
    let r = trim_range(&v, 0, v.len());
    assert(v@.subrange(0, v.len() as int) =~= v@);
    string_of(&v, r.0, r.1)
}

/// The number of bytes that `c` takes in UTF-8.
pub open spec fn char_width(c: char) -> nat {
    encode_scalar(c as u32).len()
}

/// The number of bytes that `s` takes in UTF-8: the length of a `str`.
pub open spec fn byte_len(s: Seq<char>) -> nat {
    encode_utf8(s).len()
}

/// A character takes one to four bytes, by the size of its code point.
pub proof fn lemma_char_width(c: char)
    ensures
        char_width(c) == if (c as u32) < 0x80 {
            1nat
        } else if (c as u32) < 0x800 {
            2nat
        } else if (c as u32) < 0x10000 {
            3nat
        } else {
            4nat
        },
{
    char_is_scalar(c);
}

/// The bytes of a text are those of its parts.
pub proof fn lemma_byte_len_concat(a: Seq<char>, b: Seq<char>)
    ensures
        byte_len(a + b) == byte_len(a) + byte_len(b),
    decreases a.len(),
{
    if a.len() == 0 {
        assert(a + b =~= b);
    } else {
        assert((a + b).drop_first() =~= a.drop_first() + b);
        lemma_byte_len_concat(a.drop_first(), b);
    }
}

/// The bytes of a text of one character are those of the character.
pub proof fn lemma_byte_len_one(c: char)
    ensures
        byte_len(seq![c]) == char_width(c),
{
    assert(seq![c].drop_first() =~= Seq::<char>::empty());
    assert(encode_utf8(seq![c]) =~= encode_scalar(c as u32) + encode_utf8(
        Seq::<char>::empty(),
    ));
}

/// A part of a text takes no more bytes than the text.
pub proof fn lemma_byte_len_subrange(s: Seq<char>, from: int, to: int)
    requires
        0 <= from <= to <= s.len(),
    ensures
        byte_len(s.subrange(from, to)) <= byte_len(s),
{
    assert(s =~= s.take(from) + s.subrange(from, to) + s.skip(to));
    lemma_byte_len_concat(s.take(from) + s.subrange(from, to), s.skip(to));
    lemma_byte_len_concat(s.take(from), s.subrange(from, to));
}

/// The number of bytes that `c` takes in UTF-8.
pub fn char_bytes(c: char) -> (n: usize)
    ensures
        n == char_width(c),
{
    proof {
        lemma_char_width(c);
    }
    let code: u32 = c as u32;
    if code < 0x80 {
        1
    } else if code < 0x800 {
        2
    } else if code < 0x10000 {
        3
    } else {
        4
    }
}

/// The number of bytes that `v[from..to]` takes in UTF-8.
pub fn range_bytes(v: &Vec<char>, from: usize, to: usize) -> (n: usize)
    requires
        from <= to <= v.len(),
        byte_len(v@) <= usize::MAX,
    ensures
        n == byte_len(v@.subrange(from as int, to as int)),
{
    let mut n: usize = 0;
    let mut i: usize = from;
    assert(v@.subrange(from as int, from as int) =~= Seq::<char>::empty());
    while i < to
        invariant
            from <= i <= to <= v.len(),
            byte_len(v@) <= usize::MAX,
            n == byte_len(v@.subrange(from as int, i as int)),
        decreases to - i,
    {
        proof {
            assert(v@.subrange(from as int, i + 1) =~= v@.subrange(from as int, i as int)
                + seq![v@[i as int]]);
            lemma_byte_len_concat(v@.subrange(from as int, i as int), seq![v@[i as int]]);
            lemma_byte_len_one(v@[i as int]);
            lemma_byte_len_subrange(v@, from as int, i + 1);
        }
        n = n + char_bytes(v[i]);
        i += 1;
    }
    n
}

/// The character of the decimal digit `d`.
pub open spec fn digit(d: nat) -> char {
    (0x30 + d) as char
}

/// The decimal numeral of `n`.
pub open spec fn decimal(n: nat) -> Seq<char>
    decreases n,
{
    if n < 10 {
        seq![digit(n)]
    } else {
        decimal(n / 10).push(digit(n % 10))
    }
}

/// Appends the decimal numeral of `n` to `s`.
pub fn push_decimal(s: &mut String, n: u64)
    ensures
        final(s)@ == old(s)@ + decimal(n as nat),
    decreases n,
{
    if n >= 10 {
        push_decimal(s, n / 10);
    }
    let d: u8 = (n % 10) as u8;
    let c: char = (0x30u8 + d) as char;
    s.push(c);
    proof {
        if n < 10 {
            assert(old(s)@.push(c) =~= old(s)@ + decimal(n as nat));
        } else {
            assert((old(s)@ + decimal((n / 10) as nat)).push(c) =~= old(s)@ + decimal(n as nat));
        }
    }
}

/// Whether the two texts are the same.
pub fn same_text(a: &str, b: &str) -> (same: bool)
    ensures
        same == (a@ == b@),
{
    let left = a.to_owned();
    let right = b.to_owned();
    left == right
}

/// The last index at or before `from` at which `pat` stands in `s`.
pub open spec fn rfind_from(s: Seq<char>, pat: Seq<char>, from: int) -> Option<int>
    decreases from + 1,
{
    if from < 0 {
        None
    } else if occurs_at(s, pat, from) {
        Some(from)
    } else {
        rfind_from(s, pat, from - 1)
    }
}

/// The last index at which `pat` stands in `s`.
pub open spec fn rfind(s: Seq<char>, pat: Seq<char>) -> Option<int> {
    rfind_from(s, pat, s.len() - pat.len())
}

/// What follows the last `pat` in `s`; all of `s` where `pat` does not
/// stand in it.
pub open spec fn after_last(s: Seq<char>, pat: Seq<char>) -> Seq<char> {
    match rfind(s, pat) {
        Some(i) => s.skip(i + pat.len()),
        None => s,
    }
}

/// The start of what follows the last `pat` in `v`.
pub fn after_last_in(v: &Vec<char>, pat: &Vec<char>) -> (start: usize)
    requires
        pat.len() > 0,
    ensures
        start <= v.len(),
        v@.skip(start as int) == after_last(v@, pat@),
{
    if pat.len() > v.len() {
        assert(v@.skip(0) =~= v@);
        return 0;
    }
    let mut i: usize = v.len() - pat.len();
    loop
        invariant
            i + pat.len() <= v.len(),
            pat.len() > 0,
            rfind(v@, pat@) == rfind_from(v@, pat@, i as int),
        decreases i,
    {
        if occurs_in(v, i, pat) {
            return i + pat.len();
        }
        if i == 0 {
            assert(rfind_from(v@, pat@, -1) is None);
            assert(v@.skip(0) =~= v@);
            return 0;
        }
        i -= 1;
    }
}

/// Joining two non-empty runs of parts joins what each of them joins.
pub proof fn lemma_join_concat(a: Seq<Seq<char>>, b: Seq<Seq<char>>, sep: Seq<char>)
    requires
        a.len() > 0,
        b.len() > 0,
    ensures
        join(a + b, sep) == join(a, sep) + sep + join(b, sep),
    decreases b.len(),
{
    assert((a + b).last() == b.last());
    if b.len() == 1 {
        assert((a + b).drop_last() =~= a);
    } else {
        assert((a + b).drop_last() =~= a + b.drop_last());
        lemma_join_concat(a, b.drop_last(), sep);
        assert(join(a + b, sep) =~= join(a, sep) + sep + join(b, sep));
    }
}

/// Whether `w` is a word: not empty, and without white space.
pub open spec fn is_word(w: Seq<char>) -> bool {
    w.len() > 0 && forall|i: int| 0 <= i < w.len() ==> !is_space(#[trigger] w[i])
}

/// A word in front of a text is the beginning of the text's first word.
pub proof fn lemma_word_len_prefix(w: Seq<char>, rest: Seq<char>)
    requires
        forall|i: int| 0 <= i < w.len() ==> !is_space(#[trigger] w[i]),
    ensures
        word_len(w + rest) == w.len() + word_len(rest),
    decreases w.len(),
{
    if w.len() == 0 {
        assert(w + rest =~= rest);
    } else {
        assert((w + rest)[0] == w[0]);
        assert((w + rest).drop_first() =~= w.drop_first() + rest);
        assert forall|i: int| 0 <= i < w.drop_first().len() implies !is_space(
            #[trigger] w.drop_first()[i],
        ) by {
            assert(w.drop_first()[i] == w[i + 1]);
        }
        lemma_word_len_prefix(w.drop_first(), rest);
    }
}

/// The words of a text are words.
pub proof fn lemma_words_are_words(s: Seq<char>)
    ensures
        forall|i: int| 0 <= i < words(s).len() ==> is_word(#[trigger] words(s)[i]),
    decreases s.len(),
{
    if s.len() == 0 {
        assert(words(s) =~= Seq::<Seq<char>>::empty());
    } else if is_space(s[0]) {
        lemma_words_are_words(s.drop_first());
        assert(words(s) == words(s.drop_first()));
    } else {
        let n = word_len(s) as int;
        lemma_word_len(s);
        lemma_words_are_words(s.skip(n));
        let first = s.take(n);
        assert(words(s) == seq![first] + words(s.skip(n)));
        assert(is_word(first)) by {
            assert forall|k: int| 0 <= k < first.len() implies !is_space(#[trigger] first[k]) by {
                assert(first[k] == s[k]);
            }
        }
        assert forall|i: int| 0 <= i < words(s).len() implies is_word(#[trigger] words(s)[i]) by {
            if i > 0 {
                assert(words(s)[i] == words(s.skip(n))[i - 1]);
            }
        }
    }
}

/// Where `pat` stands in `s` at `i` and nowhere before, `i` is what `find`
/// finds.
pub proof fn lemma_find_first(s: Seq<char>, pat: Seq<char>, i: int)
    requires
        occurs_at(s, pat, i),
        forall|j: int| 0 <= j < i ==> !occurs_at(s, pat, j),
    ensures
        find(s, pat) == Some(i),
{
    lemma_find_from(s, pat, 0);
}

/// Words that are joined by single spaces are found again: the words of
/// the joined text are the words that were joined.
pub proof fn lemma_words_of_join(ws: Seq<Seq<char>>)
    requires
        forall|i: int| 0 <= i < ws.len() ==> is_word(#[trigger] ws[i]),
    ensures
        words(join(ws, seq![' '])) == ws,
    decreases ws.len(),
{
    let sep = seq![' '];
    let text = join(ws, sep);
    if ws.len() == 0 {
        assert(words(text) =~= ws);
    } else {
        let first = ws[0];
        let rest = ws.drop_first();
        assert(is_word(first));
        assert forall|i: int| 0 <= i < rest.len() implies is_word(#[trigger] rest[i]) by {
            assert(rest[i] == ws[i + 1]);
        }
        lemma_words_of_join(rest);
        let tail = if rest.len() == 0 {
            Seq::<char>::empty()
        } else {
            sep + join(rest, sep)
        };
        assert(text =~= first + tail) by {
            if rest.len() > 0 {
                assert(ws =~= seq![first] + rest);
                lemma_join_concat(seq![first], rest, sep);
            }
        }
        lemma_word_len_prefix(first, tail);
        assert(word_len(tail) == 0);
        assert(text[0] == first[0]);
        assert(text.take(first.len() as int) =~= first);
        assert(text.skip(first.len() as int) =~= tail);
        if rest.len() == 0 {
            assert(words(tail) =~= Seq::<Seq<char>>::empty());
        } else {
            assert(tail.drop_first() =~= join(rest, sep));
        }
        assert(words(text) =~= seq![first] + words(tail));
        assert(seq![first] + rest =~= ws);
    }
}

/// Something is cut off wherever the number of pieces is not limited to
/// zero.
pub proof fn lemma_pieces_nonempty(s: Seq<char>, pat: Seq<char>, limit: Option<nat>)
    requires
        limit != Some(0nat),
    ensures
        pieces(s, pat, limit).len() > 0,
{
}

/// The pieces are what the separator cuts: joined by the separator again,
/// they are the text that was cut.
pub proof fn lemma_pieces_join(s: Seq<char>, pat: Seq<char>, limit: Option<nat>)
    requires
        limit != Some(0nat),
    ensures
        join(pieces(s, pat, limit), pat) == s,
    decreases s.len(),
{
    if limit == Some(1nat) || pat.len() == 0 {
    } else {
        lemma_find_from(s, pat, 0);
        match find(s, pat) {
            None => {},
            Some(i) => {
                let rest = s.skip(i + pat.len());
                let behind = pieces(rest, pat, one_less(limit));
                lemma_pieces_join(rest, pat, one_less(limit));
                lemma_pieces_nonempty(rest, pat, one_less(limit));
                lemma_join_concat(seq![s.take(i)], behind, pat);
                assert(s.subrange(i, i + pat.len()) == pat);
                assert(s.take(i) + pat + rest =~= s);
            },
        }
    }
}

/// The separator does not stand in the first piece, unless the first piece
/// is also the last.
proof fn lemma_first_piece(s: Seq<char>, pat: Seq<char>, limit: Option<nat>)
    requires
        pat.len() > 0,
        pieces(s, pat, limit).len() > 1,
    ensures
        find(pieces(s, pat, limit)[0], pat) is None,
{
    lemma_find_from(s, pat, 0);
    let i = find(s, pat).unwrap();
    let first = s.take(i);
    assert(pieces(s, pat, limit)[0] == first);
    lemma_find_from(first, pat, 0);
    if find(first, pat) is Some {
        let j = find(first, pat).unwrap();
        assert(s.subrange(j, j + pat.len()) =~= first.subrange(j, j + pat.len()));
        assert(occurs_at(s, pat, j));
    }
}

/// The separator stands in no piece but, where the number of pieces is
/// limited, the last.
pub proof fn lemma_pieces_clean(s: Seq<char>, pat: Seq<char>, limit: Option<nat>, k: int)
    requires
        pat.len() > 0,
        0 <= k < pieces(s, pat, limit).len(),
        limit is None || k < pieces(s, pat, limit).len() - 1,
    ensures
        find(pieces(s, pat, limit)[k], pat) is None,
    decreases s.len(),
{
    let all = pieces(s, pat, limit);
    lemma_find_from(s, pat, 0);
    if all.len() > 1 {
        if k == 0 {
            lemma_first_piece(s, pat, limit);
        } else {
            let i = find(s, pat).unwrap();
            let rest = s.skip(i + pat.len());
            assert(all[k] == pieces(rest, pat, one_less(limit))[k - 1]);
            lemma_pieces_clean(rest, pat, one_less(limit), k - 1);
        }
    } else if find(s, pat) is Some {
        let i = find(s, pat).unwrap();
        lemma_pieces_nonempty(s.skip(i + pat.len()), pat, one_less(limit));
    }
}

/// The pieces into which the separator `pat` cuts `s`: at most `limit` of
/// them where there is a limit. A text is not cut by the empty separator.
pub fn split_on(s: &str, pat: &str, limit: Option<usize>) -> (out: Vec<String>)
    ensures
        views(out@) == pieces(s@, pat@, limit_of(limit)),
{
    let v = chars_of(s);
    let p = chars_of(pat);
    assert(v@.subrange(0, v.len() as int) =~= v@);
    let none = match limit {
        Some(n) => n == 0,
        None => false,
    };
    if none {
        let out: Vec<String> = Vec::new();
        assert(views(out@) =~= pieces(s@, pat@, limit_of(limit)));
        out
    } else if p.len() == 0 {
        let mut out: Vec<String> = Vec::new();
        out.push(string_of(&v, 0, v.len()));
        assert(views(out@) =~= pieces(s@, pat@, limit_of(limit)));
        out
    } else {
        let parts = split_ranges(&v, 0, v.len(), &p, limit);
        strings_of(&v, &parts)
    }
}

} // verus!
