//! Matching a text against a pattern in which `%` stands for any run of
//! characters and `_` for any one character, ASCII letters compared without
//! regard to case.

use crate::strings::{ascii_lower_char, contains_fold, lower_char, occurs_at};
use vstd::prelude::*;

verus! {

/// The text matches the pattern: `%` matches any run of characters, also
/// the empty one, `_` matches any one character, and every other character
/// of the pattern matches itself, an ASCII letter in either case.
pub open spec fn like_match(pattern: Seq<char>, text: Seq<char>) -> bool
    decreases pattern.len() + text.len(),
{
    if pattern.len() == 0 {
        text.len() == 0
    } else if pattern[0] == '%' {
        like_match(pattern.skip(1), text) || (text.len() > 0 && like_match(pattern, text.skip(1)))
    } else if text.len() == 0 {
        false
    } else if pattern[0] == '_' {
        like_match(pattern.skip(1), text.skip(1))
    } else {
        ascii_lower_char(pattern[0]) == ascii_lower_char(text[0]) && like_match(
            pattern.skip(1),
            text.skip(1),
        )
    }
}

/// The pattern that looks for `query` anywhere in a text.
pub open spec fn like_pattern(query: Seq<char>) -> Seq<char> {
    seq!['%'] + query + seq!['%']
}

/// The text holds the query somewhere, `%` and `_` in the query standing
/// for a run of characters and for one character.
pub open spec fn holds_query(text: Seq<char>, query: Seq<char>) -> bool {
    like_match(like_pattern(query), text)
}

/// The pattern that looks for `query` anywhere in a text.
pub fn pattern_for(query: &Vec<char>) -> (r: Vec<char>)
    ensures
        r@ == like_pattern(query@),
{
    let mut out: Vec<char> = Vec::new();
    out.push('%');
    let mut i: usize = 0;
    while i < query.len()
        invariant
            i <= query.len(),
            out@ == seq!['%'] + query@.take(i as int),
        decreases query.len() - i,
    {
        out.push(query[i]);
        assert(query@.take(i + 1) =~= query@.take(i as int).push(query[i as int]));
        i += 1;
    }
    assert(query@.take(query.len() as int) =~= query@);
    out.push('%');
    out
}

/// What the tail of the pattern from `i` says of the tail of the text from
/// `j`.
spec fn tail_match(pattern: Seq<char>, text: Seq<char>, i: int, j: int) -> bool {
    like_match(pattern.skip(i), text.skip(j))
}

/// How a tail match follows from the matches of shorter tails.
proof fn lemma_tail_match(pattern: Seq<char>, text: Seq<char>, i: int, j: int)
    requires
        0 <= i <= pattern.len(),
        0 <= j <= text.len(),
    ensures
        tail_match(pattern, text, i, j) == if i == pattern.len() {
            j == text.len()
        } else if pattern[i] == '%' {
            tail_match(pattern, text, i + 1, j) || (j < text.len() && tail_match(
                pattern,
                text,
                i,
                j + 1,
            ))
        } else if j == text.len() {
            false
        } else if pattern[i] == '_' {
            tail_match(pattern, text, i + 1, j + 1)
        } else {
            ascii_lower_char(pattern[i]) == ascii_lower_char(text[j]) && tail_match(
                pattern,
                text,
                i + 1,
                j + 1,
            )
        },
{
    let p = pattern.skip(i);
    let t = text.skip(j);
    if i < pattern.len() {
        assert(p[0] == pattern[i]);
        assert(p.skip(1) =~= pattern.skip(i + 1));
    }
    if j < text.len() {
        assert(t[0] == text[j]);
        assert(t.skip(1) =~= text.skip(j + 1));
    }
}

/// Tells whether the text matches the pattern.
pub fn like(pattern: &Vec<char>, text: &Vec<char>) -> (r: bool)
    ensures
        r == like_match(pattern@, text@),
{
    let m = pattern.len();
    let n = text.len();
    // `row[j]` and `at_end` say whether the tail of the pattern from `i`
    // matches the tail of the text from `j`, and from its end.
    let mut row: Vec<bool> = Vec::new();
    let mut j: usize = 0;
    while j < n
        invariant
            j <= n,
            row.len() == j,
            n == text.len(),
            m == pattern.len(),
            forall|k: int| 0 <= k < j ==> row[k] == tail_match(pattern@, text@, m as int, k),
        decreases n - j,
    {
        proof {
            lemma_tail_match(pattern@, text@, m as int, j as int);
        }
        row.push(false);
        j += 1;
    }
    let mut at_end = true;
    proof {
        lemma_tail_match(pattern@, text@, m as int, n as int);
    }
    let mut i: usize = m;
    while i > 0
        invariant
            i <= m,
            n == text.len(),
            m == pattern.len(),
            row.len() == n,
            forall|k: int| 0 <= k < n ==> row[k] == tail_match(pattern@, text@, i as int, k),
            at_end == tail_match(pattern@, text@, i as int, n as int),
        decreases i,
    {
        i -= 1;
        let c = pattern[i];
        let ghost above = row@;
        let ghost above_end = at_end;
        let mut next = if c == '%' {
            at_end
        } else {
            false
        };
        proof {
            lemma_tail_match(pattern@, text@, i as int, n as int);
        }
        let below_end = next;
        let mut diagonal = at_end;
        let mut j: usize = n;
        while j > 0
            invariant
                j <= n,
                i < m,
                n == text.len(),
                m == pattern.len(),
                c == pattern[i as int],
                row.len() == n,
                forall|k: int| 0 <= k < j ==> row[k] == tail_match(pattern@, text@, i + 1, k),
                forall|k: int| j <= k < n ==> row[k] == tail_match(pattern@, text@, i as int, k),
                next == tail_match(pattern@, text@, i as int, j as int),
                diagonal == tail_match(pattern@, text@, i + 1, j as int),
                below_end == tail_match(pattern@, text@, i as int, n as int),
            decreases j,
        {
            j -= 1;
            proof {
                lemma_tail_match(pattern@, text@, i as int, j as int);
            }
            let over = row[j];
            let here = if c == '%' {
                over || next
            } else if c == '_' {
                diagonal
            } else {
                lower_char(c) == lower_char(text[j]) && diagonal
            };
            row.set(j, here);
            next = here;
            diagonal = over;
        }
        at_end = below_end;
    }
    proof {
        assert(pattern@.skip(0) =~= pattern@);
        assert(text@.skip(0) =~= text@);
    }
    if n == 0 {
        at_end
    } else {
        row[0]
    }
}

/// Any text matches a lone `%`.
proof fn lemma_any_run(text: Seq<char>)
    ensures
        like_match(seq!['%'], text),
    decreases text.len(),
{
    let p = seq!['%'];
    assert(p[0] == '%');
    assert(p.skip(1) =~= Seq::<char>::empty());
    if text.len() > 0 {
        lemma_any_run(text.skip(1));
    } else {
        assert(like_match(Seq::<char>::empty(), text));
    }
}

/// A query without `%` and `_`, followed by `%`, matches the texts that
/// begin with the query.
proof fn lemma_like_prefix(query: Seq<char>, text: Seq<char>)
    requires
        forall|k: int| 0 <= k < query.len() ==> query[k] != '%' && query[k] != '_',
    ensures
        like_match(query + seq!['%'], text) == occurs_at(text, query, 0),
    decreases query.len(),
{
    let p = query + seq!['%'];
    if query.len() == 0 {
        assert(p =~= seq!['%']);
        lemma_any_run(text);
    } else {
        assert(p[0] == query[0]);
        assert(p.skip(1) =~= query.skip(1) + seq!['%']);
        if text.len() > 0 {
            lemma_like_prefix(query.skip(1), text.skip(1));
            if occurs_at(text.skip(1), query.skip(1), 0) && ascii_lower_char(query[0])
                == ascii_lower_char(text[0]) {
                assert forall|k: int| 0 <= k < query.len() implies ascii_lower_char(
                    #[trigger] text[0 + k],
                ) == ascii_lower_char(query[k]) by {
                    if k > 0 {
                        assert(text.skip(1)[0 + (k - 1)] == text[k]);
                        assert(query.skip(1)[k - 1] == query[k]);
                    }
                }
            }
            if occurs_at(text, query, 0) {
                assert(ascii_lower_char(text[0int + 0int]) == ascii_lower_char(query[0]));
                assert forall|k: int| 0 <= k < query.skip(1).len() implies ascii_lower_char(
                    #[trigger] text.skip(1)[0 + k],
                ) == ascii_lower_char(query.skip(1)[k]) by {
                    assert(text[0 + (k + 1)] == text.skip(1)[k]);
                }
            }
        }
    }
}

/// The rest of a pattern matches the text from some place on.
spec fn matches_from_somewhere(rest: Seq<char>, text: Seq<char>) -> bool {
    exists|at: int| 0 <= at <= text.len() && #[trigger] like_match(rest, text.skip(at))
}

/// A pattern that begins with `%` matches a text exactly when the rest of
/// the pattern matches the text from some place on.
proof fn lemma_like_anywhere(rest: Seq<char>, text: Seq<char>)
    ensures
        like_match(seq!['%'] + rest, text) == matches_from_somewhere(rest, text),
    decreases text.len(),
{
    let p = seq!['%'] + rest;
    assert(p[0] == '%');
    assert(p.skip(1) =~= rest);
    assert(text.skip(0) =~= text);
    assert(like_match(p, text) == (like_match(rest, text) || (text.len() > 0 && like_match(
        p,
        text.skip(1),
    ))));
    if like_match(rest, text) {
        assert(like_match(rest, text.skip(0)));
        assert(matches_from_somewhere(rest, text));
    }
    if text.len() > 0 {
        let tail = text.skip(1);
        lemma_like_anywhere(rest, tail);
        if matches_from_somewhere(rest, tail) {
            let at = choose|at: int| 0 <= at <= tail.len() && #[trigger] like_match(rest, tail.skip(at));
            assert(tail.skip(at) =~= text.skip(at + 1));
            assert(like_match(rest, text.skip(at + 1)));
            assert(matches_from_somewhere(rest, text));
        }
        if matches_from_somewhere(rest, text) && !like_match(rest, text) {
            let at = choose|at: int| 0 <= at <= text.len() && #[trigger] like_match(rest, text.skip(at));
            assert(at > 0);
            assert(tail.skip(at - 1) =~= text.skip(at));
            assert(like_match(rest, tail.skip(at - 1)));
            assert(matches_from_somewhere(rest, tail));
        }
    } else {
        if matches_from_somewhere(rest, text) {
            let at = choose|at: int| 0 <= at <= text.len() && #[trigger] like_match(rest, text.skip(at));
            assert(at == 0);
        }
    }
}

/// For a query without `%` and `_` the search is a plain substring search
/// that disregards the case of ASCII letters.
pub proof fn lemma_plain_query(text: Seq<char>, query: Seq<char>)
    requires
        forall|k: int| 0 <= k < query.len() ==> query[k] != '%' && query[k] != '_',
    ensures
        holds_query(text, query) == contains_fold(text, query),
{
    let rest = query + seq!['%'];
    assert(like_pattern(query) =~= seq!['%'] + rest);
    lemma_like_anywhere(rest, text);
    assert(holds_query(text, query) == matches_from_somewhere(rest, text));
    if holds_query(text, query) {
        let at = choose|at: int|
            0 <= at <= text.len() && #[trigger] like_match(rest, text.skip(at));
        lemma_like_prefix(query, text.skip(at));
        assert forall|k: int| 0 <= k < query.len() implies ascii_lower_char(
            #[trigger] text[at + k],
        ) == ascii_lower_char(query[k]) by {
            assert(text.skip(at)[0 + k] == text[at + k]);
        }
        assert(occurs_at(text, query, at));
    }
    if contains_fold(text, query) {
        let at = choose|at: int| #[trigger] occurs_at(text, query, at);
        assert forall|k: int| 0 <= k < query.len() implies ascii_lower_char(
            #[trigger] text.skip(at)[0 + k],
        ) == ascii_lower_char(query[k]) by {
            assert(text.skip(at)[0 + k] == text[at + k]);
        }
        assert(occurs_at(text.skip(at), query, 0));
        lemma_like_prefix(query, text.skip(at));
        assert(like_match(rest, text.skip(at)));
        assert(matches_from_somewhere(rest, text));
    }
}

} // verus!
