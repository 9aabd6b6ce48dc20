//! Alphabetical order of texts, and sorting by it.

use crate::food::texts;
use crate::strings::chars_of;
use vstd::prelude::*;
use vstd::seq_lib::to_multiset_insert;

verus! {

/// `a` comes before `b` in the dictionary, or is the same text: at the
/// first place where they differ `a` has the smaller code point, or `a`
/// ends there.
pub open spec fn text_le(a: Seq<char>, b: Seq<char>) -> bool
    decreases a.len(),
{
    if a.len() == 0 {
        true
    } else if b.len() == 0 {
        false
    } else if a[0] != b[0] {
        (a[0] as u32) < (b[0] as u32)
    } else {
        text_le(a.skip(1), b.skip(1))
    }
}

/// Each text comes before the texts after it, or equals them.
pub open spec fn sorted(xs: Seq<Seq<char>>) -> bool {
    forall|i: int, j: int| 0 <= i < j < xs.len() ==> text_le(#[trigger] xs[i], #[trigger] xs[j])
}

/// Of two texts one comes before the other, or they are the same.
pub proof fn lemma_text_le_total(a: Seq<char>, b: Seq<char>)
    ensures
        text_le(a, b) || text_le(b, a),
        text_le(a, b) && text_le(b, a) ==> a == b,
    decreases a.len(),
{
    if a.len() > 0 && b.len() > 0 && a[0] != b[0] {
        assert((a[0] as u32) != (b[0] as u32)) by {
            vstd::utf8::char_u32_cast(a[0], a[0] as u32);
            vstd::utf8::char_u32_cast(b[0], b[0] as u32);
        }
    }
    if a.len() > 0 && b.len() > 0 && a[0] == b[0] {
        lemma_text_le_total(a.skip(1), b.skip(1));
        if text_le(a, b) && text_le(b, a) {
            assert(a =~= seq![a[0]] + a.skip(1));
            assert(b =~= seq![b[0]] + b.skip(1));
        }
    } else if a.len() == 0 && b.len() == 0 {
        assert(a =~= b);
    }
}

/// The order is transitive.
pub proof fn lemma_text_le_transitive(a: Seq<char>, b: Seq<char>, c: Seq<char>)
    requires
        text_le(a, b),
        text_le(b, c),
    ensures
        text_le(a, c),
    decreases a.len(),
{
    if a.len() > 0 && b.len() > 0 && c.len() > 0 && a[0] == b[0] && b[0] == c[0] {
        lemma_text_le_transitive(a.skip(1), b.skip(1), c.skip(1));
    }
}

/// Tells whether `a` comes before `b` or equals it.
pub fn chars_le(a: &Vec<char>, b: &Vec<char>) -> (r: bool)
    ensures
        r == text_le(a@, b@),
{
    let mut i: usize = 0;
    assert(a@.skip(0) =~= a@ && b@.skip(0) =~= b@);
    while i < a.len() && i < b.len()
        invariant
            i <= a.len(),
            i <= b.len(),
            text_le(a@, b@) == text_le(a@.skip(i as int), b@.skip(i as int)),
        decreases a.len() - i,
    {
        proof {
            assert(a@.skip(i as int)[0] == a[i as int]);
            assert(b@.skip(i as int)[0] == b[i as int]);
            assert(a@.skip(i as int).skip(1) =~= a@.skip(i + 1));
            assert(b@.skip(i as int).skip(1) =~= b@.skip(i + 1));
        }
        if a[i] != b[i] {
            return (a[i] as u32) < (b[i] as u32);
        }
        i += 1;
    }
    i >= a.len()
}

/// Sorts texts alphabetically: the result holds the same texts, each as
/// often as before, in order.
pub fn sort_texts(v: &Vec<String>) -> (r: Vec<String>)
    ensures
        sorted(texts(r@)),
        texts(r@).to_multiset() == texts(v@).to_multiset(),
{
    let mut out: Vec<String> = Vec::new();
    let mut n: usize = 0;
    assert(texts(v@).take(0) =~= texts(out@));
    while n < v.len()
        invariant
            n <= v.len(),
            sorted(texts(out@)),
            texts(out@).to_multiset() == texts(v@).take(n as int).to_multiset(),
        decreases v.len() - n,
    {
        let x = chars_of(v[n].as_str());
        let mut k: usize = 0;
        let mut placed = false;
        while k < out.len() && !placed
            invariant
                k <= out.len(),
                forall|i: int| 0 <= i < k ==> text_le(#[trigger] texts(out@)[i], x@),
                placed ==> k < out.len() && !text_le(texts(out@)[k as int], x@),
            decreases out.len() - k + (if placed { 0int } else { 1int }),
        {
            let y = chars_of(out[k].as_str());
            if chars_le(&y, &x) {
                k += 1;
            } else {
                placed = true;
            }
        }
        let ghost before = texts(out@);
        out.insert(k, v[n].clone());
        proof {
            let after = texts(out@);
            assert(after =~= before.insert(k as int, x@));
            to_multiset_insert(before, k as int, x@);
            assert(texts(v@).take(n + 1) =~= texts(v@).take(n as int).push(x@));
            vstd::seq_lib::to_multiset_build(texts(v@).take(n as int), x@);
            assert forall|i: int, j: int| 0 <= i < j < after.len() implies text_le(
                #[trigger] after[i],
                #[trigger] after[j],
            ) by {
                if j < k {
                    assert(after[i] == before[i] && after[j] == before[j]);
                } else if j == k {
                    assert(after[i] == before[i]);
                } else if i == k {
                    lemma_text_le_total(before[k as int], x@);
                    assert(after[j] == before[j - 1]);
                    if j - 1 > k {
                        assert(text_le(before[k as int], before[j - 1]));
                        lemma_text_le_transitive(x@, before[k as int], before[j - 1]);
                    }
                } else if i < k {
                    assert(after[i] == before[i] && after[j] == before[j - 1]);
                    if j - 1 == i {
                    } else {
                        assert(text_le(before[i], before[j - 1]));
                    }
                } else {
                    assert(after[i] == before[i - 1] && after[j] == before[j - 1]);
                }
            }
        }
        n += 1;
    }
    assert(texts(v@).take(v.len() as int) =~= texts(v@));
    out
}

} // verus!
