//! Lists of distinct texts, the building block of the store's lookup
//! tables, and ASCII case folding.

use crate::food::texts;
use crate::strings::{ascii_lower, ascii_lower_all, to_ascii_lower};
use vstd::prelude::*;

verus! {

/// No text occurs twice.
pub open spec fn distinct(t: Seq<Seq<char>>) -> bool {
    forall|i: int, j: int| 0 <= i < j < t.len() ==> t[i] != t[j]
}

/// The table with `x` added at the end unless it is already there.
pub open spec fn with_text(t: Seq<Seq<char>>, x: Seq<char>) -> Seq<Seq<char>> {
    if t.contains(x) {
        t
    } else {
        t.push(x)
    }
}

/// The table after each of `xs`, in turn, has been added unless it was
/// already there.
pub open spec fn with_texts(t: Seq<Seq<char>>, xs: Seq<Seq<char>>) -> Seq<Seq<char>>
    decreases xs.len(),
{
    if xs.len() == 0 {
        t
    } else {
        with_text(with_texts(t, xs.drop_last()), xs.last())
    }
}

/// The positions at which a text occurs for the first time, ascending.
pub open spec fn first_positions(xs: Seq<Seq<char>>) -> Seq<int>
    decreases xs.len(),
{
    if xs.len() == 0 {
        Seq::empty()
    } else if xs.drop_last().contains(xs.last()) {
        first_positions(xs.drop_last())
    } else {
        first_positions(xs.drop_last()).push(xs.len() - 1)
    }
}

/// The texts of `xs` without repetitions, each where it first occurs.
pub open spec fn first_seen(xs: Seq<Seq<char>>) -> Seq<Seq<char>> {
    Seq::new(first_positions(xs).len(), |k: int| xs[first_positions(xs)[k]])
}

/// First positions are positions, and every text of the list is found at
/// exactly one of them.
pub proof fn lemma_first_positions(xs: Seq<Seq<char>>)
    ensures
        first_positions(xs).len() <= xs.len(),
        forall|k: int|
            0 <= k < first_positions(xs).len() ==> 0 <= #[trigger] first_positions(xs)[k]
                < xs.len(),
        forall|k: int, l: int|
            0 <= k < l < first_positions(xs).len() ==> first_positions(xs)[k] < first_positions(
                xs,
            )[l],
        distinct(first_seen(xs)),
        forall|x: Seq<char>| xs.contains(x) <==> first_seen(xs).contains(x),
    decreases xs.len(),
{
    if xs.len() > 0 {
        let init = xs.drop_last();
        let last = xs.last();
        lemma_first_positions(init);
        let p = first_positions(init);
        let q = first_positions(xs);
        assert forall|k: int| 0 <= k < p.len() implies first_seen(init)[k] == #[trigger] xs[p[k]] by {
            assert(init[p[k]] == xs[p[k]]);
        }
        assert forall|x: Seq<char>| xs.contains(x) <==> first_seen(xs).contains(x) by {
            if xs.contains(x) {
                let i = choose|i: int| 0 <= i < xs.len() && xs[i] == x;
                if i < init.len() {
                    assert(init[i] == x);
                    assert(init.contains(x));
                    let k = choose|k: int|
                        0 <= k < first_seen(init).len() && first_seen(init)[k] == x;
                    assert(first_seen(xs)[k] == x);
                } else {
                    if init.contains(last) {
                        let k = choose|k: int|
                            0 <= k < first_seen(init).len() && first_seen(init)[k] == last;
                        assert(first_seen(xs)[k] == x);
                    } else {
                        assert(first_seen(xs)[q.len() - 1] == x);
                    }
                }
            }
            if first_seen(xs).contains(x) {
                let k = choose|k: int| 0 <= k < first_seen(xs).len() && first_seen(xs)[k] == x;
                assert(xs[q[k]] == x);
            }
        }
        assert forall|i: int, j: int| 0 <= i < j < first_seen(xs).len() implies first_seen(xs)[i]
            != first_seen(xs)[j] by {
            if j < p.len() {
                assert(first_seen(init)[i] != first_seen(init)[j]);
            } else {
                assert(first_seen(init)[i] == init[p[i]]);
                assert(init.contains(init[p[i]]));
            }
        }
    }
}

/// A list without repetitions is its own list of first occurrences.
pub proof fn lemma_first_seen_of_distinct(xs: Seq<Seq<char>>)
    requires
        distinct(xs),
    ensures
        first_seen(xs) == xs,
        first_positions(xs) == Seq::new(xs.len(), |i: int| i),
    decreases xs.len(),
{
    if xs.len() > 0 {
        let init = xs.drop_last();
        lemma_first_seen_of_distinct(init);
        if init.contains(xs.last()) {
            let i = choose|i: int| 0 <= i < init.len() && init[i] == xs.last();
            assert(xs[i] == xs[xs.len() - 1]);
        }
        assert(first_positions(xs) =~= Seq::new(xs.len(), |i: int| i));
    }
    assert(first_seen(xs) =~= xs);
}

/// Adding texts keeps what the table held, in place, and keeps it free of
/// repetitions; afterwards it holds each added text.
pub proof fn lemma_with_texts(t: Seq<Seq<char>>, xs: Seq<Seq<char>>)
    requires
        distinct(t),
    ensures
        distinct(with_texts(t, xs)),
        t.len() <= with_texts(t, xs).len(),
        forall|i: int| 0 <= i < t.len() ==> #[trigger] with_texts(t, xs)[i] == t[i],
        forall|x: Seq<char>| with_texts(t, xs).contains(x) <==> t.contains(x) || xs.contains(x),
    decreases xs.len(),
{
    lemma_with_texts_holds(t, xs);
    if xs.len() > 0 {
        let init = xs.drop_last();
        lemma_with_texts(t, init);
        let u = with_texts(t, init);
        let v = with_texts(t, xs);
        assert forall|i: int, j: int| 0 <= i < j < v.len() implies v[i] != v[j] by {
            if j >= u.len() {
                assert(u[i] == v[i]);
                assert(u.contains(u[i]));
            }
        }
    }
}

/// Adding a list of texts gives the same table as adding its first
/// occurrences only.
pub proof fn lemma_with_texts_first_seen(t: Seq<Seq<char>>, xs: Seq<Seq<char>>)
    ensures
        with_texts(t, first_seen(xs)) == with_texts(t, xs),
    decreases xs.len(),
{
    if xs.len() == 0 {
        assert(first_seen(xs) =~= xs);
    } else {
        let init = xs.drop_last();
        let last = xs.last();
        lemma_with_texts_first_seen(t, init);
        lemma_first_positions(init);
        lemma_first_positions(xs);
        assert forall|k: int| 0 <= k < first_positions(init).len() implies xs[first_positions(
            init,
        )[k]] == #[trigger] first_seen(init)[k] by {
            assert(init[first_positions(init)[k]] == xs[first_positions(init)[k]]);
        }
        if init.contains(last) {
            assert(first_seen(xs) =~= first_seen(init));
            lemma_with_texts_holds(t, init);
        } else {
            assert(first_seen(xs) =~= first_seen(init).push(last));
            assert(first_seen(xs).drop_last() =~= first_seen(init));
        }
    }
}

/// After texts were added, the table holds what it held before and what
/// was added, and nothing else.
pub proof fn lemma_with_texts_holds(t: Seq<Seq<char>>, xs: Seq<Seq<char>>)
    ensures
        t.len() <= with_texts(t, xs).len(),
        forall|i: int| 0 <= i < t.len() ==> #[trigger] with_texts(t, xs)[i] == t[i],
        forall|x: Seq<char>| with_texts(t, xs).contains(x) <==> t.contains(x) || xs.contains(x),
    decreases xs.len(),
{
    if xs.len() > 0 {
        let init = xs.drop_last();
        lemma_with_texts_holds(t, init);
        let u = with_texts(t, init);
        let v = with_texts(t, xs);
        assert forall|x: Seq<char>| v.contains(x) <==> t.contains(x) || xs.contains(x) by {
            if v.contains(x) {
                let i = choose|i: int| 0 <= i < v.len() && v[i] == x;
                if i < u.len() {
                    assert(u[i] == x);
                    assert(u.contains(x));
                    if init.contains(x) {
                        let j = choose|j: int| 0 <= j < init.len() && init[j] == x;
                        assert(xs[j] == x);
                    }
                } else {
                    assert(xs[xs.len() - 1] == x);
                }
            }
            if t.contains(x) {
                assert(u.contains(x));
                let i = choose|i: int| 0 <= i < u.len() && u[i] == x;
                assert(v[i] == x);
            }
            if xs.contains(x) {
                let j = choose|j: int| 0 <= j < xs.len() && xs[j] == x;
                if j < init.len() {
                    assert(init[j] == x);
                    assert(init.contains(x));
                    let i = choose|i: int| 0 <= i < u.len() && u[i] == x;
                    assert(v[i] == x);
                } else if u.contains(x) {
                } else {
                    assert(v[v.len() - 1] == x);
                }
            }
        }
    }
}

/// Looks `x` up in a table.
pub fn find_text(table: &Vec<String>, x: &String) -> (r: Option<usize>)
    ensures
        match r {
            Some(i) => i < table.len() && table[i as int]@ == x@,
            None => !texts(table@).contains(x@),
        },
{
    let mut i: usize = 0;
    while i < table.len()
        invariant
            i <= table.len(),
            forall|k: int| 0 <= k < i ==> table[k]@ != x@,
        decreases table.len() - i,
    {
        if table[i] == *x {
            return Some(i);
        }
        i += 1;
    }
    assert(!texts(table@).contains(x@)) by {
        if texts(table@).contains(x@) {
            let k = choose|k: int| 0 <= k < texts(table@).len() && texts(table@)[k] == x@;
            assert(table[k]@ != x@);
        }
    }
    None
}

/// Adds `x` to a table unless it is there, and says where it stands.
pub fn ensure_text(table: &mut Vec<String>, x: String) -> (i: usize)
    ensures
        texts(final(table)@) == with_text(texts(old(table)@), x@),
        i < final(table).len(),
        final(table)[i as int]@ == x@,
{
    match find_text(table, &x) {
        Some(i) => {
            assert(texts(table@)[i as int] == x@);
            i
        },
        None => {
            let i = table.len();
            let ghost before = table@;
            table.push(x);
            assert(texts(table@) =~= texts(before).push(x@));
            i
        },
    }
}

/// Tells whether `i` is among `items`.
pub fn holds_index(items: &Vec<usize>, i: usize) -> (b: bool)
    ensures
        b <==> items@.contains(i),
{
    let mut k: usize = 0;
    while k < items.len()
        invariant
            k <= items.len(),
            forall|m: int| 0 <= m < k ==> items[m] != i,
        decreases items.len() - k,
    {
        if items[k] == i {
            return true;
        }
        k += 1;
    }
    false
}

/// What `resolve` found: for each distinct name, in the order of first
/// occurrence, where it stands in the table and where it first occurred
/// among the names.
pub struct Resolved {
    pub items: Vec<usize>,
    pub positions: Vec<usize>,
}

/// `r` resolves `names` in `table`: it lists the first occurrence of each
/// distinct lowercase name, and for each the table row that holds it.
pub open spec fn resolves(r: Resolved, table: Seq<String>, names: Seq<String>) -> bool {
    let lx = ascii_lower_all(texts(names));
    &&& r.items.len() == r.positions.len()
    &&& r.positions.len() == first_positions(lx).len()
    &&& forall|k: int|
        0 <= k < r.positions.len() ==> {
            &&& (#[trigger] r.positions[k]) as int == first_positions(lx)[k]
            &&& r.positions[k] < names.len()
        }
    &&& forall|k: int|
        0 <= k < r.items.len() ==> {
            &&& (#[trigger] r.items[k]) < table.len()
            &&& table[r.items[k] as int]@ == ascii_lower(names[r.positions[k] as int]@)
        }
}

/// Makes sure that the table holds the lowercase form of each name, and
/// resolves the names to table rows, each distinct name once.
pub fn resolve(table: &mut Vec<String>, names: &Vec<String>) -> (r: Resolved)
    requires
        distinct(texts(old(table)@)),
    ensures
        texts(final(table)@) == with_texts(texts(old(table)@), ascii_lower_all(texts(names@))),
        distinct(texts(final(table)@)),
        resolves(r, final(table)@, names@),
{
    let ghost before = texts(table@);
    let ghost lx = ascii_lower_all(texts(names@));
    let mut items: Vec<usize> = Vec::new();
    let mut positions: Vec<usize> = Vec::new();
    let mut j: usize = 0;
    proof {
        assert(lx.take(0) =~= Seq::<Seq<char>>::empty());
    }
    while j < names.len()
        invariant
            j <= names.len(),
            lx == ascii_lower_all(texts(names@)),
            lx.len() == names.len(),
            distinct(before),
            texts(table@) == with_texts(before, lx.take(j as int)),
            distinct(texts(table@)),
            items.len() == positions.len(),
            positions.len() == first_positions(lx.take(j as int)).len(),
            forall|k: int|
                0 <= k < positions.len() ==> (#[trigger] positions[k]) as int == first_positions(
                    lx.take(j as int),
                )[k] && positions[k] < j,
            forall|k: int|
                0 <= k < items.len() ==> (#[trigger] items[k]) < table.len() && table[items[k] as int]@
                    == lx[positions[k] as int],
        decreases names.len() - j,
    {
        let ghost seen = lx.take(j as int);
        let ghost old_table = texts(table@);
        proof {
            assert forall|k: int| 0 <= k < items.len() implies (#[trigger] items[k])
                < old_table.len() && old_table[items[k] as int] == lx[positions[k] as int] by {
                assert(table[items[k] as int]@ == lx[positions[k] as int]);
            }
        }
        let t = to_ascii_lower(names[j].as_str());
        let idx = ensure_text(table, t);
        proof {
            assert(texts(table@) == with_text(old_table, lx[j as int]));
            assert(lx[j as int] == ascii_lower(names[j as int]@));
            assert(lx.take(j + 1) =~= seen.push(lx[j as int]));
            assert(lx.take(j + 1).drop_last() =~= seen);
            lemma_first_positions(seen);
            assert forall|k: int| 0 <= k < items.len() implies (#[trigger] items[k]) < table.len()
                && table[items[k] as int]@ == lx[positions[k] as int] by {
                assert(texts(table@)[items[k] as int] == old_table[items[k] as int]);
            }
            assert(texts(table@)[idx as int] == lx[j as int]);
        }
        let known = holds_index(&items, idx);
        proof {
            if known {
                let k = choose|k: int| 0 <= k < items.len() && items[k] == idx;
                assert(table[items[k] as int]@ == lx[positions[k] as int]);
                assert(seen[positions[k] as int] == lx[j as int]);
                assert(seen.contains(lx[j as int]));
            }
            if seen.contains(lx[j as int]) {
                assert(first_seen(seen).contains(lx[j as int]));
                let k = choose|k: int|
                    0 <= k < first_seen(seen).len() && first_seen(seen)[k] == lx[j as int];
                assert(seen[first_positions(seen)[k]] == lx[positions[k] as int]);
                assert(texts(table@)[items[k] as int] == texts(table@)[idx as int]);
                assert(items[k] == idx);
                assert(items@.contains(idx));
            }
        }
        if !known {
            items.push(idx);
            positions.push(j);
        }
        j += 1;
    }
    proof {
        assert(lx.take(names.len() as int) =~= lx);
        assert forall|k: int| 0 <= k < items.len() implies table[(#[trigger] items[k]) as int]@
            == ascii_lower(names[positions[k] as int]@) by {
            assert(table[items[k] as int]@ == lx[positions[k] as int]);
        }
    }
    Resolved { items, positions }
}

} // verus!
