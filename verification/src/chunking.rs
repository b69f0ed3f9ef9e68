//! Cutting a text into chunks of bounded size, at white space only.
//!
//! The rule is greedy: a chunk takes the next word as long as it still fits
//! behind one separating space, and a new chunk begins where it does not. A
//! word longer than the limit gets a chunk to itself. The laws at the end of
//! this file state that the result is a partition of the words, that every
//! chunk fits where every word does, and that no partition into chunks that
//! fit has fewer chunks.

use crate::text::{
    byte_len, chars_of, is_word, join, lemma_byte_len_concat, lemma_byte_len_one,
    lemma_char_width, lemma_join_concat, lemma_words_are_words, lemma_words_of_join, push_range,
    range_bytes, ranges_within, slices, string_of, views, word_ranges, words,
};
use vstd::prelude::*;
use vstd::string::*;

verus! {

/// The separator between the words of a chunk.
pub open spec fn space() -> Seq<char> {
    seq![' ']
}

/// The size in bytes of the chunk made of the words `g`.
pub open spec fn chunk_len(g: Seq<Seq<char>>) -> nat {
    byte_len(join(g, space()))
}

/// How many of the leading words of `ws` the first chunk takes, given that it
/// has taken `n` of them: it takes one more as long as the chunk then still
/// fits in `limit` bytes.
pub open spec fn first_chunk_from(ws: Seq<Seq<char>>, limit: nat, n: nat) -> nat
    decreases ws.len() - n,
{
    if n < ws.len() && chunk_len(ws.take(n as int + 1)) <= limit {
        first_chunk_from(ws, limit, n + 1)
    } else {
        n
    }
}

/// How many of the leading words of `ws` the first chunk takes: the first
/// word in any case, then as many as fit.
pub open spec fn first_chunk(ws: Seq<Seq<char>>, limit: nat) -> nat {
    first_chunk_from(ws, limit, 1)
}

/// The chunks of the words `ws`, each as the words it holds.
pub open spec fn chunk_groups(ws: Seq<Seq<char>>, limit: nat) -> Seq<Seq<Seq<char>>>
    decreases ws.len(),
    via chunk_groups_decreases
{
    if ws.len() == 0 {
        seq![]
    } else {
        seq![ws.take(first_chunk(ws, limit) as int)] + chunk_groups(
            ws.skip(first_chunk(ws, limit) as int),
            limit,
        )
    }
}

#[via_fn]
proof fn chunk_groups_decreases(ws: Seq<Seq<char>>, limit: nat) {
    if ws.len() > 0 {
        lemma_first_chunk_from(ws, limit, 1);
    }
}

/// The texts of the chunks: the words of each, joined by single spaces.
pub open spec fn chunk_texts(groups: Seq<Seq<Seq<char>>>) -> Seq<Seq<char>> {
    Seq::new(groups.len(), |i: int| join(groups[i], space()))
}

/// The chunks into which `text` is cut for a limit of `limit` bytes.
pub open spec fn split_spec(text: Seq<char>, limit: nat) -> Seq<Seq<char>> {
    chunk_texts(chunk_groups(words(text), limit))
}

/// Whether `groups` cuts the words `ws` into chunks that fit in `limit`
/// bytes: the groups hold the words of `ws` in order, none is empty, and none
/// is longer than `limit`.
pub open spec fn is_chunking(groups: Seq<Seq<Seq<char>>>, ws: Seq<Seq<char>>, limit: nat) -> bool {
    &&& groups.flatten() == ws
    &&& forall|i: int| 0 <= i < groups.len() ==> (#[trigger] groups[i]).len() > 0
    &&& forall|i: int| 0 <= i < groups.len() ==> chunk_len(#[trigger] groups[i]) <= limit
}

/// The first chunk ends within the words; it stops only where the words end
/// or the next one does not fit; and whatever it took beyond `n` words fits.
pub proof fn lemma_first_chunk_from(ws: Seq<Seq<char>>, limit: nat, n: nat)
    requires
        n <= ws.len(),
    ensures
        n <= first_chunk_from(ws, limit, n) <= ws.len(),
        first_chunk_from(ws, limit, n) == ws.len() || chunk_len(
            ws.take(first_chunk_from(ws, limit, n) as int + 1),
        ) > limit,
        forall|k: int| n < k <= first_chunk_from(ws, limit, n) ==> chunk_len(ws.take(k)) <= limit,
    decreases ws.len() - n,
{
    if n < ws.len() && chunk_len(ws.take(n as int + 1)) <= limit {
        lemma_first_chunk_from(ws, limit, n + 1);
    }
}

/// A chunk of two or more words is the chunk of all but the last, a space,
/// and the last word.
pub proof fn lemma_chunk_len_step(g: Seq<Seq<char>>)
    requires
        g.len() >= 2,
    ensures
        chunk_len(g) == chunk_len(g.drop_last()) + 1 + byte_len(g.last()),
{
    lemma_byte_len_concat(join(g.drop_last(), space()) + space(), g.last());
    lemma_byte_len_concat(join(g.drop_last(), space()), space());
    lemma_byte_len_one(' ');
    lemma_char_width(' ');
}

/// A chunk of one word is as long as the word.
pub proof fn lemma_chunk_len_one(g: Seq<Seq<char>>)
    requires
        g.len() == 1,
    ensures
        chunk_len(g) == byte_len(g[0]),
{
}

/// A chunk without its first word is no longer than the chunk.
proof fn lemma_chunk_len_drop_first(g: Seq<Seq<char>>)
    requires
        g.len() >= 1,
    ensures
        chunk_len(g.drop_first()) <= chunk_len(g),
    decreases g.len(),
{
    let rest = g.drop_first();
    if g.len() == 1 {
        assert(join(rest, space()) =~= Seq::<char>::empty());
        assert(byte_len(Seq::<char>::empty()) == 0);
    } else if g.len() == 2 {
        lemma_chunk_len_step(g);
        assert(rest[0] == g.last());
    } else {
        lemma_chunk_len_step(g);
        lemma_chunk_len_step(rest);
        assert(rest.drop_last() =~= g.drop_last().drop_first());
        assert(rest.last() == g.last());
        lemma_chunk_len_drop_first(g.drop_last());
    }
}

/// A chunk without some of its leading words is no longer than the chunk.
proof fn lemma_chunk_len_skip(g: Seq<Seq<char>>, d: int)
    requires
        0 <= d <= g.len(),
    ensures
        chunk_len(g.skip(d)) <= chunk_len(g),
    decreases d,
{
    if d == 0 {
        assert(g.skip(0) =~= g);
    } else {
        lemma_chunk_len_skip(g, d - 1);
        lemma_chunk_len_drop_first(g.skip(d - 1));
        assert(g.skip(d - 1).drop_first() =~= g.skip(d));
    }
}

/// A chunk without some of its trailing words is no longer than the chunk.
proof fn lemma_chunk_len_take(g: Seq<Seq<char>>, k: int, m: int)
    requires
        0 <= k <= m <= g.len(),
    ensures
        chunk_len(g.take(k)) <= chunk_len(g.take(m)),
    decreases m - k,
{
    if k < m {
        lemma_chunk_len_take(g, k, m - 1);
        assert(g.take(m).drop_last() =~= g.take(m - 1));
        if m >= 2 {
            lemma_chunk_len_step(g.take(m));
        } else {
            assert(join(g.take(0), space()) =~= Seq::<char>::empty());
            assert(byte_len(Seq::<char>::empty()) == 0);
        }
    }
}

/// Where the first `k` words fit in one chunk, the first chunk takes at least
/// `k` words.
proof fn lemma_first_chunk_reaches(ws: Seq<Seq<char>>, limit: nat, n: nat, k: nat)
    requires
        n <= k <= ws.len(),
        chunk_len(ws.take(k as int)) <= limit,
    ensures
        first_chunk_from(ws, limit, n) >= k,
    decreases k - n,
{
    if n < k {
        lemma_chunk_len_take(ws, n as int + 1, k as int);
        lemma_first_chunk_reaches(ws, limit, n + 1, k);
    } else {
        lemma_first_chunk_from(ws, limit, n);
    }
}

/// The words of the first group and of the groups behind it.
proof fn lemma_flatten_first<A>(groups: Seq<Seq<A>>)
    requires
        groups.len() > 0,
    ensures
        groups.flatten() == groups[0] + groups.drop_first().flatten(),
        groups.flatten().take(groups[0].len() as int) == groups[0],
        groups.flatten().skip(groups[0].len() as int) == groups.drop_first().flatten(),
{
    let all = groups[0] + groups.drop_first().flatten();
    assert(all.take(groups[0].len() as int) =~= groups[0]);
    assert(all.skip(groups[0].len() as int) =~= groups.drop_first().flatten());
}

/// The greedy rule needs no more chunks for the words from index `d` on than
/// any chunking of all the words has.
proof fn lemma_minimal_from(
    ws: Seq<Seq<char>>,
    limit: nat,
    other: Seq<Seq<Seq<char>>>,
    d: int,
)
    requires
        is_chunking(other, ws, limit),
        0 <= d <= ws.len(),
    ensures
        chunk_groups(ws.skip(d), limit).len() <= other.len(),
    decreases other.len(),
{
    let tail = ws.skip(d);
    if tail.len() > 0 {
        assert(other.len() > 0);
        let head = other[0];
        let rest = other.drop_first();
        let m = head.len() as int;
        lemma_flatten_first(other);
        let behind = ws.skip(m);
        assert(is_chunking(rest, behind, limit)) by {
            assert forall|i: int| 0 <= i < rest.len() implies (#[trigger] rest[i]).len() > 0
                && chunk_len(rest[i]) <= limit by {
                assert(rest[i] == other[i + 1]);
            }
        }
        if m <= d {
            assert(behind.skip(d - m) =~= tail);
            lemma_minimal_from(behind, limit, rest, d - m);
        } else {
            let b = first_chunk(tail, limit) as int;
            lemma_first_chunk_from(tail, limit, 1);
            assert(tail.take(m - d) =~= head.skip(d)) by {
                assert(ws.take(m) == head);
                assert(tail.take(m - d) =~= ws.take(m).skip(d));
            }
            lemma_chunk_len_skip(head, d);
            lemma_first_chunk_reaches(tail, limit, 1, (m - d) as nat);
            assert(behind.skip(d + b - m) =~= tail.skip(b));
            lemma_minimal_from(behind, limit, rest, d + b - m);
        }
    }
}

/// No chunking has fewer chunks: whatever cuts the words `ws` into chunks
/// that fit in `limit` bytes has at least as many chunks as the greedy rule
/// makes.
pub proof fn lemma_split_is_minimal(ws: Seq<Seq<char>>, limit: nat, other: Seq<Seq<Seq<char>>>)
    requires
        is_chunking(other, ws, limit),
    ensures
        chunk_groups(ws, limit).len() <= other.len(),
{
    lemma_minimal_from(ws, limit, other, 0);
    assert(ws.skip(0) =~= ws);
}

/// The chunks hold the words in order, each word whole and once, and no
/// chunk is empty.
pub proof fn lemma_split_keeps_words(ws: Seq<Seq<char>>, limit: nat)
    ensures
        chunk_groups(ws, limit).flatten() == ws,
        forall|i: int|
            0 <= i < chunk_groups(ws, limit).len() ==> (#[trigger] chunk_groups(
                ws,
                limit,
            )[i]).len() > 0,
    decreases ws.len(),
{
    let groups = chunk_groups(ws, limit);
    if ws.len() == 0 {
        assert(groups.flatten() =~= ws);
    } else {
        let n = first_chunk(ws, limit) as int;
        lemma_first_chunk_from(ws, limit, 1);
        lemma_split_keeps_words(ws.skip(n), limit);
        assert(groups.drop_first() =~= chunk_groups(ws.skip(n), limit));
        assert(groups[0] == ws.take(n));
        assert(groups.flatten() =~= ws.take(n) + ws.skip(n));
        assert(ws.take(n) + ws.skip(n) =~= ws);
        assert forall|i: int| 0 <= i < groups.len() implies (#[trigger] groups[i]).len() > 0 by {
            if i > 0 {
                assert(groups[i] == groups.drop_first()[i - 1]);
            }
        }
    }
}

/// Where every word fits in `limit` bytes, every chunk does.
pub proof fn lemma_split_fits(ws: Seq<Seq<char>>, limit: nat)
    requires
        forall|i: int| 0 <= i < ws.len() ==> byte_len(#[trigger] ws[i]) <= limit,
    ensures
        forall|i: int|
            0 <= i < chunk_groups(ws, limit).len() ==> chunk_len(
                #[trigger] chunk_groups(ws, limit)[i],
            ) <= limit,
    decreases ws.len(),
{
    let groups = chunk_groups(ws, limit);
    if ws.len() > 0 {
        let n = first_chunk(ws, limit) as int;
        lemma_first_chunk_from(ws, limit, 1);
        assert forall|i: int| 0 <= i < ws.skip(n).len() implies byte_len(
            #[trigger] ws.skip(n)[i],
        ) <= limit by {
            assert(ws.skip(n)[i] == ws[i + n]);
        }
        lemma_split_fits(ws.skip(n), limit);
        assert(groups.drop_first() =~= chunk_groups(ws.skip(n), limit));
        assert forall|i: int| 0 <= i < groups.len() implies chunk_len(#[trigger] groups[i])
            <= limit by {
            if i > 0 {
                assert(groups[i] == groups.drop_first()[i - 1]);
            } else if n == 1 {
                lemma_chunk_len_one(ws.take(1));
            }
        }
    }
}

/// The greedy rule makes a chunking wherever there is one: where every word
/// fits in `limit` bytes, its chunks hold the words in order, none is empty,
/// and each fits.
pub proof fn lemma_split_is_chunking(ws: Seq<Seq<char>>, limit: nat)
    requires
        forall|i: int| 0 <= i < ws.len() ==> byte_len(#[trigger] ws[i]) <= limit,
    ensures
        is_chunking(chunk_groups(ws, limit), ws, limit),
{
    lemma_split_keeps_words(ws, limit);
    lemma_split_fits(ws, limit);
}

/// Joining the texts of groups of parts joins all the parts.
proof fn lemma_join_groups(groups: Seq<Seq<Seq<char>>>, sep: Seq<char>)
    requires
        forall|i: int| 0 <= i < groups.len() ==> (#[trigger] groups[i]).len() > 0,
    ensures
        join(Seq::new(groups.len(), |i: int| join(groups[i], sep)), sep) == join(
            groups.flatten(),
            sep,
        ),
        groups.len() > 0 ==> groups.flatten().len() > 0,
    decreases groups.len(),
{
    let texts = Seq::new(groups.len(), |i: int| join(groups[i], sep));
    if groups.len() == 0 {
        assert(groups.flatten() =~= Seq::<Seq<char>>::empty());
    } else {
        let front = groups.drop_last();
        let front_texts = Seq::new(front.len(), |i: int| join(front[i], sep));
        assert(groups =~= front.push(groups.last()));
        front.lemma_flatten_push(groups.last());
        assert(groups.flatten() =~= front.flatten() + groups.last());
        assert(texts.drop_last() =~= front_texts);
        assert(texts.last() == join(groups.last(), sep));
        assert forall|i: int| 0 <= i < front.len() implies (#[trigger] front[i]).len() > 0 by {
            assert(front[i] == groups[i]);
        }
        lemma_join_groups(front, sep);
        if groups.len() == 1 {
            assert(front.flatten() =~= Seq::<Seq<char>>::empty());
            assert(groups.flatten() =~= groups.last());
        } else {
            lemma_join_concat(front.flatten(), groups.last(), sep);
        }
    }
}

/// Nothing is lost but white space: the chunks, joined by single spaces, are
/// the words of the text joined by single spaces.
pub proof fn lemma_split_rejoins(text: Seq<char>, limit: nat)
    ensures
        join(split_spec(text, limit), space()) == join(words(text), space()),
{
    lemma_split_keeps_words(words(text), limit);
    lemma_join_groups(chunk_groups(words(text), limit), space());
}

/// No word is split: the words of each chunk are words of the text, whole;
/// chunk after chunk they are the words of the text, each once and in order.
pub proof fn lemma_split_keeps_words_whole(text: Seq<char>, limit: nat)
    ensures
        split_spec(text, limit).len() == chunk_groups(words(text), limit).len(),
        forall|i: int|
            0 <= i < split_spec(text, limit).len() ==> words(#[trigger] split_spec(text, limit)[i])
                == chunk_groups(words(text), limit)[i],
        chunk_groups(words(text), limit).flatten() == words(text),
{
    let ws = words(text);
    let groups = chunk_groups(ws, limit);
    lemma_split_keeps_words(ws, limit);
    lemma_words_are_words(text);
    lemma_groups_hold_words(ws, limit);
    assert forall|i: int| 0 <= i < split_spec(text, limit).len() implies words(
        #[trigger] split_spec(text, limit)[i],
    ) == groups[i] by {
        lemma_words_of_join(groups[i]);
    }
}

/// Every word of every chunk is one of the words that were cut.
proof fn lemma_groups_hold_words(ws: Seq<Seq<char>>, limit: nat)
    requires
        forall|i: int| 0 <= i < ws.len() ==> is_word(#[trigger] ws[i]),
    ensures
        forall|i: int, j: int|
            0 <= i < chunk_groups(ws, limit).len() && 0 <= j < chunk_groups(ws, limit)[i].len()
                ==> is_word(#[trigger] chunk_groups(ws, limit)[i][j]),
    decreases ws.len(),
{
    let groups = chunk_groups(ws, limit);
    if ws.len() > 0 {
        let n = first_chunk(ws, limit) as int;
        lemma_first_chunk_from(ws, limit, 1);
        assert forall|i: int| 0 <= i < ws.skip(n).len() implies is_word(
            #[trigger] ws.skip(n)[i],
        ) by {
            assert(ws.skip(n)[i] == ws[i + n]);
        }
        lemma_groups_hold_words(ws.skip(n), limit);
        assert(groups.drop_first() =~= chunk_groups(ws.skip(n), limit));
        assert forall|i: int, j: int|
            0 <= i < groups.len() && 0 <= j < groups[i].len() implies is_word(
            #[trigger] groups[i][j],
        ) by {
            if i > 0 {
                assert(groups[i] == groups.drop_first()[i - 1]);
            } else {
                assert(groups[0][j] == ws[j]);
            }
        }
    }
}

/// The chunks into which `message` is cut for a limit of `limit` bytes.
pub fn split_text(message: &str, limit: usize) -> (chunks: Vec<String>)
    ensures
        views(chunks@) == split_spec(message@, limit as nat),
{
    let v = chars_of(message);
    let total = message.as_bytes().len();
    assert(byte_len(v@) == total);
    let w = word_ranges(&v, 0, v.len());
    assert(v@.subrange(0, v.len() as int) =~= v@);
    let ghost ws = slices(v@, w@);
    let ghost all = chunk_groups(ws, limit as nat);
    let ghost done: Seq<Seq<Seq<char>>> = seq![];
    let n = w.len();
    let mut chunks: Vec<String> = Vec::new();
    let mut i: usize = 0;
    assert(ws.skip(0) =~= ws);
    assert(all =~= done + chunk_groups(ws.skip(0), limit as nat));
    while i < n
        invariant
            i <= n == w.len(),
            byte_len(v@) <= usize::MAX,
            ranges_within(w@, 0, v.len() as int),
            ws == slices(v@, w@),
            all == done + chunk_groups(ws.skip(i as int), limit as nat),
            chunks@.len() == done.len(),
            forall|k: int| 0 <= k < done.len() ==> (#[trigger] chunks@[k])@ == join(done[k], space()),
        decreases n - i,
    {
        let ghost tail = ws.skip(i as int);
        let first = w[i];
        let mut chunk = string_of(&v, first.0, first.1);
        let mut len: usize = range_bytes(&v, first.0, first.1);
        let mut j: usize = i + 1;
        let mut full: bool = false;
        proof {
            assert(tail.take(1) =~= seq![ws[i as int]]);
            lemma_chunk_len_one(tail.take(1));
        }
        while j < n && !full
            invariant
                i < j <= n == w.len(),
                tail == ws.skip(i as int),
                byte_len(v@) <= usize::MAX,
                ranges_within(w@, 0, v.len() as int),
                ws == slices(v@, w@),
                chunk@ == join(tail.take(j - i), space()),
                len == chunk_len(tail.take(j - i)),
                first_chunk(tail, limit as nat) == first_chunk_from(
                    tail,
                    limit as nat,
                    (j - i) as nat,
                ),
                full ==> first_chunk(tail, limit as nat) == j - i,
            decreases n - j + (if full { 0int } else { 1int }),
        {
            let next = w[j];
            let word_bytes = range_bytes(&v, next.0, next.1);
            proof {
                let more = tail.take(j - i + 1);
                assert(more.drop_last() =~= tail.take(j - i));
                assert(more.last() == ws[j as int]);
                lemma_chunk_len_step(more);
            }
            if len < limit && word_bytes <= limit - len - 1 {
                chunk.push(' ');
                push_range(&mut chunk, &v, next.0, next.1);
                len = len + 1 + word_bytes;
                assert(chunk@ =~= join(tail.take(j - i + 1), space()));
                j += 1;
            } else {
                full = true;
            }
        }
        proof {
            let group = tail.take(j - i);
            assert(first_chunk(tail, limit as nat) == j - i);
            assert(tail.skip(j - i) =~= ws.skip(j as int));
            assert(all =~= done.push(group) + chunk_groups(ws.skip(j as int), limit as nat));
            done = done.push(group);
        }
        chunks.push(chunk);
        i = j;
    }
    proof {
        assert(all =~= done);
        assert(views(chunks@) =~= chunk_texts(done));
    }
    chunks
}

} // verus!
