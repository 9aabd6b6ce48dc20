//! The normalized food store: lookup tables for sources, images, tags,
//! allergens and serving names, one row per food, and join rows that link a
//! food to its tags, allergens and servings.

use crate::food::{
    copy_texts, portions, texts, views, Amount, Food, FoodView, Nutrients, Serving,
};
use crate::model::{
    after_ingest, after_insert, all_allergens, all_images, all_serving_names, all_sources,
    all_tags, consistent, first_portions, found_by_slug, has_description, has_slug, ingest_tally,
    insert_outcome, lemma_insert_keeps_consistent, lemma_stored_form, lemma_tables_grow,
    listed_slugs, matching, names_of, search_result, slug_for, stored_form, verified_or_default,
    weights_positive, StoreError, MAX_FOODS,
};
use crate::like::{like, pattern_for};
use crate::strings::{ascii_lower, ascii_lower_all, chars_of};
use crate::table::{
    distinct, ensure_text, first_positions, first_seen, lemma_first_positions, lemma_with_texts,
    lemma_with_texts_first_seen, lemma_with_texts_holds, resolve, resolves, with_text, with_texts,
    Resolved,
};
use crate::text::to_lower_en_kebab_case;
use vstd::prelude::*;

verus! {

/// A join row: `food` is linked to row `item` of a lookup table.
struct Link<P> {
    food: usize,
    item: usize,
    payload: P,
}

/// The row of a food: what is stored of it apart from its links.
struct FoodRow {
    slug: String,
    description: String,
    verified: bool,
    image: usize,
    source: usize,
    nutrients: Nutrients,
}

/// The rows and payloads that the join rows give to `food`, in the order
/// in which they were linked.
spec fn linked<P>(links: Seq<Link<P>>, food: int) -> Seq<(int, P)>
    decreases links.len(),
{
    if links.len() == 0 {
        Seq::empty()
    } else if links.last().food == food {
        linked(links.drop_last(), food).push((links.last().item as int, links.last().payload))
    } else {
        linked(links.drop_last(), food)
    }
}

/// Every join row points at a food below `foods` and a table row below
/// `items`.
spec fn links_in_range<P>(links: Seq<Link<P>>, foods: int, items: int) -> bool {
    forall|k: int|
        0 <= k < links.len() ==> (#[trigger] links[k]).food < foods && links[k].item < items
}

/// What the join rows give to a food points at rows of the table, and
/// they give nothing to a food that is not stored.
proof fn lemma_linked_in_range<P>(links: Seq<Link<P>>, food: int, foods: int, items: int)
    requires
        links_in_range(links, foods, items),
    ensures
        forall|k: int|
            0 <= k < linked(links, food).len() ==> 0 <= (#[trigger] linked(links, food)[k]).0
                < items,
        food >= foods ==> linked(links, food).len() == 0,
    decreases links.len(),
{
    if links.len() > 0 {
        assert(links_in_range(links.drop_last(), foods, items)) by {
            assert forall|k: int| 0 <= k < links.drop_last().len() implies (
            #[trigger] links.drop_last()[k]).food < foods && links.drop_last()[k].item < items by {
                assert(links.drop_last()[k] == links[k]);
            }
        }
        lemma_linked_in_range(links.drop_last(), food, foods, items);
        assert(links[links.len() - 1].item < items);
        assert(links[links.len() - 1].food < foods);
        assert forall|k: int| 0 <= k < linked(links, food).len() implies 0 <= (#[trigger] linked(
            links,
            food,
        )[k]).0 < items by {
            if k < linked(links.drop_last(), food).len() {
                assert(linked(links, food)[k] == linked(links.drop_last(), food)[k]);
            }
        }
    }
}

/// Join rows that are added at the end add to what each food is given,
/// at the end.
proof fn lemma_linked_append<P>(links: Seq<Link<P>>, extra: Seq<Link<P>>, food: int)
    ensures
        linked(links + extra, food) == linked(links, food) + linked(extra, food),
    decreases extra.len(),
{
    if extra.len() == 0 {
        assert(links + extra == links);
    } else {
        lemma_linked_append(links, extra.drop_last(), food);
        assert((links + extra).drop_last() == links + extra.drop_last());
        assert((links + extra).last() == extra.last());
    }
}

/// Join rows that all belong to one food give each of their rows to that
/// food and nothing to any other.
proof fn lemma_linked_of_one_food<P>(extra: Seq<Link<P>>, owner: int, food: int)
    requires
        forall|k: int| 0 <= k < extra.len() ==> (#[trigger] extra[k]).food == owner,
    ensures
        food != owner ==> linked(extra, food).len() == 0,
        food == owner ==> linked(extra, food) == Seq::new(
            extra.len(),
            |k: int| (extra[k].item as int, extra[k].payload),
        ),
    decreases extra.len(),
{
    if extra.len() > 0 {
        let init = extra.drop_last();
        assert forall|k: int| 0 <= k < init.len() implies (#[trigger] init[k]).food == owner by {
            assert(init[k] == extra[k]);
        }
        lemma_linked_of_one_food(init, owner, food);
        assert(extra[extra.len() - 1].food == owner);
        if food == owner {
            assert(linked(extra, food) =~= Seq::new(
                extra.len(),
                |k: int| (extra[k].item as int, extra[k].payload),
            ));
        }
    } else {
        assert(linked(extra, food) =~= Seq::new(
            extra.len(),
            |k: int| (extra[k].item as int, extra[k].payload),
        ));
    }
}

/// The join rows that link `food` to each of `items`.
spec fn plain_links(food: usize, items: Seq<usize>) -> Seq<Link<()>> {
    Seq::new(items.len(), |k: int| Link { food, item: items[k], payload: () })
}

/// The join rows that link `food` to each of `items`, with the weight of
/// the serving at the matching position.
spec fn weighted_links(
    food: usize,
    items: Seq<usize>,
    positions: Seq<usize>,
    servings: Seq<Serving>,
) -> Seq<Link<Amount>> {
    Seq::new(
        items.len(),
        |k: int| Link { food, item: items[k], payload: servings[positions[k] as int].weight },
    )
}

/// Links `food` to each of `items`.
fn link_items(links: &mut Vec<Link<()>>, food: usize, items: &Vec<usize>)
    ensures
        final(links)@ == old(links)@ + plain_links(food, items@),
{
    let ghost before = links@;
    let mut k: usize = 0;
    assert(links@ =~= before + plain_links(food, items@.take(0)));
    while k < items.len()
        invariant
            k <= items.len(),
            links@ == before + plain_links(food, items@.take(k as int)),
        decreases items.len() - k,
    {
        links.push(Link { food, item: items[k], payload: () });
        assert(links@ =~= before + plain_links(food, items@.take(k + 1)));
        k += 1;
    }
    assert(items@.take(items.len() as int) =~= items@);
}

/// Links `food` to each of `items` with the weight of the serving that
/// `positions` names.
fn link_servings(
    links: &mut Vec<Link<Amount>>,
    food: usize,
    items: &Vec<usize>,
    positions: &Vec<usize>,
    servings: &Vec<Serving>,
)
    requires
        items.len() == positions.len(),
        forall|k: int| 0 <= k < positions.len() ==> (#[trigger] positions[k]) < servings.len(),
    ensures
        final(links)@ == old(links)@ + weighted_links(food, items@, positions@, servings@),
{
    let ghost before = links@;
    let mut k: usize = 0;
    assert(links@ =~= before + weighted_links(food, items@.take(0), positions@, servings@));
    while k < items.len()
        invariant
            k <= items.len(),
            items.len() == positions.len(),
            forall|k: int| 0 <= k < positions.len() ==> (#[trigger] positions[k]) < servings.len(),
            links@ == before + weighted_links(food, items@.take(k as int), positions@, servings@),
        decreases items.len() - k,
    {
        links.push(Link { food, item: items[k], payload: servings[positions[k]].weight });
        assert(links@ =~= before + weighted_links(
            food,
            items@.take(k + 1),
            positions@,
            servings@,
        ));
        k += 1;
    }
    assert(items@.take(items.len() as int) =~= items@);
}

/// The names of the servings.
fn serving_names(servings: &Vec<Serving>) -> (r: Vec<String>)
    ensures
        texts(r@) == names_of(portions(servings@)),
{
    let mut out: Vec<String> = Vec::new();
    let mut i: usize = 0;
    while i < servings.len()
        invariant
            i <= servings.len(),
            out.len() == i,
            forall|k: int| 0 <= k < i ==> out[k]@ == servings[k].name@,
        decreases servings.len() - i,
    {
        out.push(servings[i].name.clone());
        i += 1;
    }
    assert(texts(out@) =~= names_of(portions(servings@)));
    out
}

/// Tells whether every serving has a positive weight.
fn all_positive(servings: &Vec<Serving>) -> (b: bool)
    ensures
        b == weights_positive(portions(servings@)),
{
    let mut i: usize = 0;
    while i < servings.len()
        invariant
            i <= servings.len(),
            forall|k: int| 0 <= k < i ==> servings[k].weight.positive(),
        decreases servings.len() - i,
    {
        if !servings[i].weight.is_positive() {
            assert(!portions(servings@)[i as int].1.positive());
            return false;
        }
        i += 1;
    }
    assert forall|k: int| 0 <= k < portions(servings@).len() implies (#[trigger] portions(
        servings@,
    )[k]).1.positive() by {
        assert(servings[k].weight.positive());
    }
    true
}

/// What the join rows give to a food below `owner` is the same before and
/// after `owner` was linked, also when the lookup table grew meanwhile.
proof fn lemma_links_frame<P>(
    links: Seq<Link<P>>,
    extra: Seq<Link<P>>,
    owner: int,
    before: Seq<String>,
    after: Seq<String>,
    i: int,
)
    requires
        links_in_range(links, owner, before.len() as int),
        forall|k: int| 0 <= k < extra.len() ==> (#[trigger] extra[k]).food == owner,
        before.len() <= after.len(),
        forall|k: int| 0 <= k < before.len() ==> (#[trigger] after[k])@ == before[k]@,
        0 <= i < owner,
    ensures
        linked(links + extra, i) == linked(links, i),
        named(after, linked(links + extra, i)) == named(before, linked(links, i)),
{
    lemma_linked_append(links, extra, i);
    lemma_linked_of_one_food(extra, owner, i);
    assert(linked(links + extra, i) =~= linked(links, i));
    lemma_linked_in_range(links, i, owner, before.len() as int);
    assert(named(after, linked(links, i)) =~= named(before, linked(links, i)));
}

/// What the join rows give to the food that was just linked.
proof fn lemma_links_own<P>(links: Seq<Link<P>>, extra: Seq<Link<P>>, owner: int, items: int)
    requires
        links_in_range(links, owner, items),
        forall|k: int| 0 <= k < extra.len() ==> (#[trigger] extra[k]).food == owner,
    ensures
        linked(links + extra, owner) == Seq::new(
            extra.len(),
            |k: int| (extra[k].item as int, extra[k].payload),
        ),
{
    lemma_linked_append(links, extra, owner);
    lemma_linked_of_one_food(extra, owner, owner);
    lemma_linked_in_range(links, owner, owner, items);
    assert(linked(links + extra, owner) =~= linked(extra, owner));
}

/// The rows and payloads that the join rows give to `food`.
fn collect<P: Copy>(links: &Vec<Link<P>>, food: usize) -> (r: Vec<(usize, P)>)
    ensures
        r.len() == linked(links@, food as int).len(),
        forall|k: int|
            0 <= k < r.len() ==> ((#[trigger] r[k]).0 as int, r[k].1) == linked(
                links@,
                food as int,
            )[k],
{
    let mut out: Vec<(usize, P)> = Vec::new();
    let mut m: usize = 0;
    assert(links@.take(0) =~= Seq::<Link<P>>::empty());
    while m < links.len()
        invariant
            m <= links.len(),
            out.len() == linked(links@.take(m as int), food as int).len(),
            forall|k: int|
                0 <= k < out.len() ==> ((#[trigger] out[k]).0 as int, out[k].1) == linked(
                    links@.take(m as int),
                    food as int,
                )[k],
        decreases links.len() - m,
    {
        proof {
            assert(links@.take(m + 1).drop_last() =~= links@.take(m as int));
            assert(links@.take(m + 1).last() == links[m as int]);
        }
        if links[m].food == food {
            out.push((links[m].item, links[m].payload));
        }
        m += 1;
    }
    assert(links@.take(links.len() as int) =~= links@);
    out
}

/// The texts of the table rows that `items` names.
fn pick_names<P>(table: &Vec<String>, items: &Vec<(usize, P)>) -> (r: Vec<String>)
    requires
        forall|k: int| 0 <= k < items.len() ==> (#[trigger] items[k]).0 < table.len(),
    ensures
        r.len() == items.len(),
        forall|k: int| 0 <= k < r.len() ==> (#[trigger] r[k])@ == table[items[k].0 as int]@,
{
    let mut out: Vec<String> = Vec::new();
    let mut k: usize = 0;
    while k < items.len()
        invariant
            k <= items.len(),
            out.len() == k,
            forall|m: int| 0 <= m < items.len() ==> (#[trigger] items[m]).0 < table.len(),
            forall|m: int| 0 <= m < k ==> (#[trigger] out[m])@ == table[items[m].0 as int]@,
        decreases items.len() - k,
    {
        out.push(table[items[k].0].clone());
        k += 1;
    }
    out
}

/// The servings that `items` names: the name from the table, the weight
/// from the join row.
fn pick_servings(table: &Vec<String>, items: &Vec<(usize, Amount)>) -> (r: Vec<Serving>)
    requires
        forall|k: int| 0 <= k < items.len() ==> (#[trigger] items[k]).0 < table.len(),
    ensures
        r.len() == items.len(),
        forall|k: int|
            0 <= k < r.len() ==> (#[trigger] r[k]).name@ == table[items[k].0 as int]@ && r[k].weight
                == items[k].1,
{
    let mut out: Vec<Serving> = Vec::new();
    let mut k: usize = 0;
    while k < items.len()
        invariant
            k <= items.len(),
            out.len() == k,
            forall|m: int| 0 <= m < items.len() ==> (#[trigger] items[m]).0 < table.len(),
            forall|m: int|
                0 <= m < k ==> (#[trigger] out[m]).name@ == table[items[m].0 as int]@
                    && out[m].weight == items[m].1,
        decreases items.len() - k,
    {
        out.push(Serving { name: table[items[k].0].clone(), weight: items[k].1 });
        k += 1;
    }
    out
}

/// The tables after a food was written: the lookup tables grew by what the
/// food names, one row was added for the food, and join rows link it to the
/// rows that its tags, allergens and servings resolve to.
spec fn rows_written(
    pre: Store,
    post: Store,
    f: Food,
    tags: Resolved,
    allergens: Resolved,
    servings: Resolved,
    names: Seq<String>,
) -> bool {
    let n = pre.foods.len();
    let row = post.foods[n as int];
    &&& texts(post.sources@) == with_text(texts(pre.sources@), f.source@)
    &&& texts(post.images@) == with_text(texts(pre.images@), f.image_url@)
    &&& texts(post.tags@) == with_texts(texts(pre.tags@), ascii_lower_all(texts(f.tags@)))
    &&& texts(post.allergens@) == with_texts(
        texts(pre.allergens@),
        ascii_lower_all(texts(f.allergens@)),
    )
    &&& texts(post.serving_names@) == with_texts(
        texts(pre.serving_names@),
        ascii_lower_all(texts(names)),
    )
    &&& texts(names) == names_of(portions(f.servings@))
    &&& resolves(tags, post.tags@, f.tags@)
    &&& resolves(allergens, post.allergens@, f.allergens@)
    &&& resolves(servings, post.serving_names@, names)
    &&& post.foods@.len() == n + 1
    &&& post.foods@.drop_last() == pre.foods@
    &&& row.slug@ == slug_for(f.description@)
    &&& row.description@ == f.description@
    &&& row.verified == verified_or_default(f.verified)
    &&& row.nutrients == f.nutrients
    &&& row.image < post.images.len()
    &&& post.images[row.image as int]@ == f.image_url@
    &&& row.source < post.sources.len()
    &&& post.sources[row.source as int]@ == f.source@
    &&& post.food_tags@ == pre.food_tags@ + plain_links(n, tags.items@)
    &&& post.food_allergens@ == pre.food_allergens@ + plain_links(n, allergens.items@)
    &&& post.food_servings@ == pre.food_servings@ + weighted_links(
        n,
        servings.items@,
        servings.positions@,
        f.servings@,
    )
}

/// A table that grew by `with_texts` or `with_text` still holds its old
/// rows in place.
spec fn extends(before: Seq<String>, after: Seq<String>) -> bool {
    &&& before.len() <= after.len()
    &&& forall|k: int| 0 <= k < before.len() ==> (#[trigger] after[k])@ == before[k]@
}

/// A table to which texts were added extends the table it was.
proof fn lemma_extends(before: Seq<String>, after: Seq<String>, xs: Seq<Seq<char>>)
    requires
        texts(after) == with_texts(texts(before), xs),
    ensures
        extends(before, after),
{
    lemma_with_texts_holds(texts(before), xs);
    assert forall|k: int| 0 <= k < before.len() implies (#[trigger] after[k])@ == before[k]@ by {
        assert(texts(after)[k] == texts(before)[k]);
    }
}

/// A table to which one text was added extends the table it was, and is
/// free of repetitions if it was.
proof fn lemma_extends_one(before: Seq<String>, after: Seq<String>, x: Seq<char>)
    requires
        texts(after) == with_text(texts(before), x),
    ensures
        extends(before, after),
        distinct(texts(before)) ==> distinct(texts(after)),
{
    assert(texts(after).len() == after.len());
    assert(texts(before).len() == before.len());
    assert forall|k: int| 0 <= k < before.len() implies (#[trigger] after[k])@ == before[k]@ by {
        assert(texts(after)[k] == texts(before)[k]);
    }
    if distinct(texts(before)) {
        let t = texts(before);
        let u = texts(after);
        assert forall|i: int, j: int| 0 <= i < j < u.len() implies u[i] != u[j] by {
            if j >= t.len() {
                assert(t[i] == u[i]);
                assert(t.contains(t[i]));
            }
        }
    }
}

/// Join rows stay in range when a food is added and linked to rows of the
/// grown table.
proof fn lemma_links_grow<P>(
    links: Seq<Link<P>>,
    extra: Seq<Link<P>>,
    foods: int,
    items: int,
    more_items: int,
)
    requires
        links_in_range(links, foods, items),
        items <= more_items,
        forall|k: int|
            0 <= k < extra.len() ==> (#[trigger] extra[k]).food == foods && extra[k].item
                < more_items,
    ensures
        links_in_range(links + extra, foods + 1, more_items),
{
    assert forall|k: int| 0 <= k < (links + extra).len() implies (#[trigger] (links + extra)[k]).food
        < foods + 1 && (links + extra)[k].item < more_items by {
        if k < links.len() {
            assert((links + extra)[k] == links[k]);
        } else {
            assert((links + extra)[k] == extra[k - links.len()]);
        }
    }
}

/// After a food was written, the store is well formed and its records are
/// the old ones followed by the stored form of the food.
proof fn lemma_inserted(
    pre: Store,
    post: Store,
    f: Food,
    tags: Resolved,
    allergens: Resolved,
    servings: Resolved,
    names: Seq<String>,
)
    requires
        pre.wf(),
        insert_outcome(pre.records(), f@) is Ok,
        rows_written(pre, post, f, tags, allergens, servings, names),
    ensures
        post.wf(),
        post.records() == pre.records().push(stored_form(f@, pre.foods.len() as int + 1)),
{
    let n = pre.foods.len();
    let rec = stored_form(f@, n as int + 1);
    let lt = ascii_lower_all(texts(f.tags@));
    let la = ascii_lower_all(texts(f.allergens@));
    let ln = ascii_lower_all(texts(names));
    lemma_extends_one(pre.sources@, post.sources@, f.source@);
    lemma_extends_one(pre.images@, post.images@, f.image_url@);
    lemma_extends(pre.tags@, post.tags@, lt);
    lemma_extends(pre.allergens@, post.allergens@, la);
    lemma_extends(pre.serving_names@, post.serving_names@, ln);
    lemma_with_texts(texts(pre.tags@), lt);
    lemma_with_texts(texts(pre.allergens@), la);
    lemma_with_texts(texts(pre.serving_names@), ln);
    let xt = plain_links(n, tags.items@);
    let xa = plain_links(n, allergens.items@);
    let xs = weighted_links(n, servings.items@, servings.positions@, f.servings@);

    assert forall|i: int| 0 <= i < n implies post.record(i) == pre.record(i) by {
        assert(post.foods[i] == pre.foods@[i]) by {
            assert(post.foods@.drop_last()[i] == post.foods@[i]);
        }
        lemma_links_frame(pre.food_tags@, xt, n as int, pre.tags@, post.tags@, i);
        lemma_links_frame(pre.food_allergens@, xa, n as int, pre.allergens@, post.allergens@, i);
        lemma_links_frame(
            pre.food_servings@,
            xs,
            n as int,
            pre.serving_names@,
            post.serving_names@,
            i,
        );
        lemma_linked_in_range(pre.food_servings@, i, n as int, pre.serving_names.len() as int);
        assert(served(post.serving_names@, linked(pre.food_servings@, i)) =~= served(
            pre.serving_names@,
            linked(pre.food_servings@, i),
        ));
    }
    assert(post.record(n as int) == rec) by {
        lemma_links_own(pre.food_tags@, xt, n as int, pre.tags.len() as int);
        lemma_links_own(pre.food_allergens@, xa, n as int, pre.allergens.len() as int);
        lemma_links_own(pre.food_servings@, xs, n as int, pre.serving_names.len() as int);
        lemma_first_positions(lt);
        lemma_first_positions(la);
        lemma_first_positions(ln);
        assert(named(post.tags@, linked(post.food_tags@, n as int)) =~= first_seen(lt));
        assert(named(post.allergens@, linked(post.food_allergens@, n as int)) =~= first_seen(la));
        assert(ln == ascii_lower_all(names_of(f@.servings)));
        assert(served(post.serving_names@, linked(post.food_servings@, n as int))
            =~= first_portions(f@.servings)) by {
            let l = linked(post.food_servings@, n as int);
            assert(l.len() == first_positions(ln).len());
            assert forall|k: int| 0 <= k < l.len() implies served(post.serving_names@, l)[k]
                == first_portions(f@.servings)[k] by {
                let p = servings.positions[k];
                assert(p as int == first_positions(ln)[k]);
                assert(post.serving_names[servings.items[k] as int]@ == ascii_lower(names[p as int]@));
                assert(ln[p as int] == ascii_lower(texts(names)[p as int]));
                assert(f@.servings[p as int].1 == f.servings[p as int].weight);
            }
        }
    }
    assert(post.records() =~= pre.records().push(rec));
    assert(after_insert(pre.records(), f@) == pre.records().push(rec));
    lemma_insert_keeps_consistent(pre.records(), f@);

    assert(post.tables_follow_records()) by {
        lemma_tables_grow(pre.records(), rec);
        lemma_stored_form(f@, n as int + 1);
        lemma_with_texts_first_seen(texts(pre.tags@), lt);
        lemma_with_texts_first_seen(texts(pre.allergens@), la);
        lemma_with_texts_first_seen(texts(pre.serving_names@), ln);
        assert(rec.tags == first_seen(lt));
        assert(rec.allergens == first_seen(la));
        assert(names_of(rec.servings) == first_seen(ln));
    }
    assert forall|i: int| 0 <= i < post.foods.len() implies (#[trigger] post.foods[i]).image
        < post.images.len() && post.foods[i].source < post.sources.len() by {
        if i < n {
            assert(post.foods@.drop_last()[i] == post.foods@[i]);
            assert(pre.foods[i].image < pre.images.len());
        }
    }
    lemma_links_grow(pre.food_tags@, xt, n as int, pre.tags.len() as int, post.tags.len() as int);
    lemma_links_grow(
        pre.food_allergens@,
        xa,
        n as int,
        pre.allergens.len() as int,
        post.allergens.len() as int,
    );
    lemma_links_grow(
        pre.food_servings@,
        xs,
        n as int,
        pre.serving_names.len() as int,
        post.serving_names.len() as int,
    );
}

/// How an ingestion went: how many records were added, how many were
/// skipped because their description was stored already, and how many the
/// store could not take.
#[derive(Clone, Copy, Debug, PartialEq, Eq)]
pub struct IngestSummary {
    pub added: usize,
    pub existing: usize,
    pub failed: usize,
}

/// The foods of a nutrition database, held in normalized tables.
pub struct Store {
    sources: Vec<String>,
    images: Vec<String>,
    tags: Vec<String>,
    allergens: Vec<String>,
    serving_names: Vec<String>,
    foods: Vec<FoodRow>,
    food_tags: Vec<Link<()>>,
    food_allergens: Vec<Link<()>>,
    food_servings: Vec<Link<Amount>>,
}

/// The texts that a list of linked rows names in a table.
spec fn named<P>(table: Seq<String>, items: Seq<(int, P)>) -> Seq<Seq<char>> {
    Seq::new(items.len(), |k: int| table[items[k].0]@)
}

/// The servings that a list of linked rows names.
spec fn served(table: Seq<String>, items: Seq<(int, Amount)>) -> Seq<(Seq<char>, Amount)> {
    Seq::new(items.len(), |k: int| (table[items[k].0]@, items[k].1))
}

impl Store {
    /// The record of the food in row `i`, put together from the tables.
    pub closed spec fn record(&self, i: int) -> FoodView {
        let row = self.foods[i];
        FoodView {
            id: Some((i + 1) as i64),
            slug: Some(row.slug@),
            description: row.description@,
            verified: Some(row.verified),
            image_url: self.images[row.image as int]@,
            source: self.sources[row.source as int]@,
            tags: named(self.tags@, linked(self.food_tags@, i)),
            allergens: named(self.allergens@, linked(self.food_allergens@, i)),
            servings: served(self.serving_names@, linked(self.food_servings@, i)),
            nutrients: row.nutrients,
        }
    }

    /// The records of the store in the order of their ids.
    pub closed spec fn records(&self) -> Seq<FoodView> {
        Seq::new(self.foods.len() as nat, |i: int| self.record(i))
    }

    /// The rows of the table of sources, in the order of their ids.
    pub closed spec fn sources(&self) -> Seq<Seq<char>> {
        texts(self.sources@)
    }

    /// The rows of the table of images, in the order of their ids.
    pub closed spec fn images(&self) -> Seq<Seq<char>> {
        texts(self.images@)
    }

    /// The rows of the table of tags, in the order of their ids.
    pub closed spec fn tags(&self) -> Seq<Seq<char>> {
        texts(self.tags@)
    }

    /// The rows of the table of allergens, in the order of their ids.
    pub closed spec fn allergens(&self) -> Seq<Seq<char>> {
        texts(self.allergens@)
    }

    /// The rows of the table of serving names, in the order of their ids.
    pub closed spec fn serving_names(&self) -> Seq<Seq<char>> {
        texts(self.serving_names@)
    }

    /// Each lookup table holds what the records refer to, each text once,
    /// in the order in which the store first met it, and nothing else.
    pub closed spec fn tables_follow_records(&self) -> bool {
        &&& self.sources() == all_sources(self.records())
        &&& self.images() == all_images(self.records())
        &&& self.tags() == all_tags(self.records())
        &&& self.allergens() == all_allergens(self.records())
        &&& self.serving_names() == all_serving_names(self.records())
    }

    /// The tables fit together: no lookup table holds a text twice, every
    /// reference points at a row that exists, each lookup table holds what
    /// the records refer to and nothing else, and the records are
    /// consistent.
    pub closed spec fn wf(&self) -> bool {
        &&& distinct(texts(self.sources@))
        &&& distinct(texts(self.images@))
        &&& distinct(texts(self.tags@))
        &&& distinct(texts(self.allergens@))
        &&& distinct(texts(self.serving_names@))
        &&& forall|i: int|
            0 <= i < self.foods.len() ==> (#[trigger] self.foods[i]).image < self.images.len()
                && self.foods[i].source < self.sources.len()
        &&& links_in_range(self.food_tags@, self.foods.len() as int, self.tags.len() as int)
        &&& links_in_range(
            self.food_allergens@,
            self.foods.len() as int,
            self.allergens.len() as int,
        )
        &&& links_in_range(
            self.food_servings@,
            self.foods.len() as int,
            self.serving_names.len() as int,
        )
        &&& self.tables_follow_records()
        &&& consistent(self.records())
    }

    /// The records of a store are consistent.
    pub proof fn lemma_consistent(&self)
        requires
            self.wf(),
        ensures
            consistent(self.records()),
    {
    }

    /// The lookup tables of a store are what its records make them: each
    /// holds the texts that the records refer to, each once, in the order
    /// in which the store first met them, and no row that no food refers
    /// to. So two stores with the same records have the same tables.
    pub proof fn lemma_tables(&self)
        requires
            self.wf(),
        ensures
            self.sources() == all_sources(self.records()),
            self.images() == all_images(self.records()),
            self.tags() == all_tags(self.records()),
            self.allergens() == all_allergens(self.records()),
            self.serving_names() == all_serving_names(self.records()),
            distinct(self.sources()),
            distinct(self.images()),
            distinct(self.tags()),
            distinct(self.allergens()),
            distinct(self.serving_names()),
    {
    }

    /// A store without foods.
    pub fn new() -> (s: Store)
        ensures
            s.wf(),
            s.records() == Seq::<FoodView>::empty(),
    {
        let s = Store {
            sources: Vec::new(),
            images: Vec::new(),
            tags: Vec::new(),
            allergens: Vec::new(),
            serving_names: Vec::new(),
            foods: Vec::new(),
            food_tags: Vec::new(),
            food_allergens: Vec::new(),
            food_servings: Vec::new(),
        };
        assert(s.records() =~= Seq::<FoodView>::empty());
        assert(s.sources() =~= all_sources(s.records()));
        assert(s.images() =~= all_images(s.records()));
        assert(s.tags() =~= all_tags(s.records()));
        assert(s.allergens() =~= all_allergens(s.records()));
        assert(s.serving_names() =~= all_serving_names(s.records()));
        s
    }

    /// The number of foods.
    pub fn len(&self) -> (n: usize)
        ensures
            n == self.records().len(),
    {
        self.foods.len()
    }

    /// Tells whether a food with this description is stored.
    pub fn food_exists_by_description(&self, description: &str) -> (b: bool)
        ensures
            b == has_description(self.records(), description@),
    {
        let wanted = description.to_owned();
        let mut i: usize = 0;
        while i < self.foods.len()
            invariant
                i <= self.foods.len(),
                wanted@ == description@,
                forall|k: int| 0 <= k < i ==> self.foods[k].description@ != description@,
            decreases self.foods.len() - i,
        {
            if self.foods[i].description == wanted {
                assert(self.records()[i as int].description == description@);
                return true;
            }
            i += 1;
        }
        assert(!has_description(self.records(), description@)) by {
            if has_description(self.records(), description@) {
                let k = choose|k: int|
                    0 <= k < self.records().len() && (#[trigger] self.records()[k]).description
                        == description@;
                assert(self.foods[k].description@ != description@);
            }
        }
        false
    }

    /// Stores `food` unless a food with its description is there already.
    ///
    /// A new food gets the next id and the slug of its description. A food
    /// that does not say whether it is verified is stored as verified. Its
    /// source, image, tags, allergens and serving names are looked up in the
    /// tables and added where they are missing; tags, allergens and serving
    /// names are stored in ASCII lowercase, and each is linked to the food
    /// once. Nothing is written unless the whole food can be stored.
    ///
    /// The food that comes back is `food` with its id filled in.
    pub fn insert_food(&mut self, food: Food) -> (r: Result<Food, StoreError>)
        requires
            old(self).wf(),
        ensures
            final(self).wf(),
            final(self).records() == after_insert(old(self).records(), food@),
            match insert_outcome(old(self).records(), food@) {
                Ok(rec) => r matches Ok(g) && g@ == (FoodView { id: rec.id, ..food@ }),
                Err(e) => r == Err::<Food, StoreError>(e) && *final(self) == *old(self),
            },
    {
        if self.food_exists_by_description(food.description.as_str()) {
            return Err(StoreError::AlreadyExists);
        }
        let slug = to_lower_en_kebab_case(food.description.as_str());
        let taken = self.row_of_slug(&slug);
        proof {
            if has_slug(self.records(), slug@) {
                let k = choose|k: int|
                    0 <= k < self.records().len() && (#[trigger] self.records()[k]).slug == Some(
                        slug@,
                    );
                assert(self.foods[k].slug@ == slug@);
            }
            if let Some(i) = taken {
                assert(self.records()[i as int].slug == Some(slug@));
            }
        }
        if taken.is_some() {
            return Err(StoreError::Failure);
        }
        if !all_positive(&food.servings) {
            return Err(StoreError::Failure);
        }
        if self.foods.len() as u64 >= MAX_FOODS {
            return Err(StoreError::Failure);
        }
        let ghost pre = *self;
        let n = self.foods.len();
        let source = ensure_text(&mut self.sources, food.source.clone());
        let image = ensure_text(&mut self.images, food.image_url.clone());
        let tags = resolve(&mut self.tags, &food.tags);
        let allergens = resolve(&mut self.allergens, &food.allergens);
        let names = serving_names(&food.servings);
        let servings = resolve(&mut self.serving_names, &names);
        let verified = match food.verified {
            Some(v) => v,
            None => true,
        };
        self.foods.push(
            FoodRow {
                slug,
                description: food.description.clone(),
                verified,
                image,
                source,
                nutrients: food.nutrients,
            },
        );
        link_items(&mut self.food_tags, n, &tags.items);
        link_items(&mut self.food_allergens, n, &allergens.items);
        link_servings(&mut self.food_servings, n, &servings.items, &servings.positions, &food.servings);
        proof {
            assert(self.foods@.drop_last() =~= pre.foods@);
            lemma_inserted(pre, *self, food, tags, allergens, servings, names@);
        }
        let id = (n + 1) as i64;
        Ok(
            Food {
                id: Some(id),
                slug: food.slug,
                description: food.description,
                verified: food.verified,
                image_url: food.image_url,
                source: food.source,
                tags: food.tags,
                allergens: food.allergens,
                servings: food.servings,
                nutrients: food.nutrients,
            },
        )
    }

    /// The food in row `i`, with its tags, allergens and servings gathered
    /// from the join rows.
    fn assemble(&self, i: usize) -> (r: Food)
        requires
            self.wf(),
            i < self.foods.len(),
        ensures
            r@ == self.record(i as int),
    {
        let row = &self.foods[i];
        let t = collect(&self.food_tags, i);
        let a = collect(&self.food_allergens, i);
        let s = collect(&self.food_servings, i);
        proof {
            let n = self.foods.len() as int;
            lemma_linked_in_range(self.food_tags@, i as int, n, self.tags.len() as int);
            lemma_linked_in_range(self.food_allergens@, i as int, n, self.allergens.len() as int);
            lemma_linked_in_range(
                self.food_servings@,
                i as int,
                n,
                self.serving_names.len() as int,
            );
            assert forall|k: int| 0 <= k < t.len() implies (#[trigger] t[k]).0 < self.tags.len() by {
                assert((t[k].0 as int, t[k].1) == linked(self.food_tags@, i as int)[k]);
            }
            assert forall|k: int| 0 <= k < a.len() implies (#[trigger] a[k]).0
                < self.allergens.len() by {
                assert((a[k].0 as int, a[k].1) == linked(self.food_allergens@, i as int)[k]);
            }
            assert forall|k: int| 0 <= k < s.len() implies (#[trigger] s[k]).0
                < self.serving_names.len() by {
                assert((s[k].0 as int, s[k].1) == linked(self.food_servings@, i as int)[k]);
            }
        }
        let tags = pick_names(&self.tags, &t);
        let allergens = pick_names(&self.allergens, &a);
        let servings = pick_servings(&self.serving_names, &s);
        proof {
            assert(texts(tags@) =~= named(self.tags@, linked(self.food_tags@, i as int))) by {
                assert forall|k: int| 0 <= k < tags.len() implies texts(tags@)[k] == named(
                    self.tags@,
                    linked(self.food_tags@, i as int),
                )[k] by {
                    assert((t[k].0 as int, t[k].1) == linked(self.food_tags@, i as int)[k]);
                }
            }
            assert(texts(allergens@) =~= named(
                self.allergens@,
                linked(self.food_allergens@, i as int),
            )) by {
                assert forall|k: int| 0 <= k < allergens.len() implies texts(allergens@)[k]
                    == named(self.allergens@, linked(self.food_allergens@, i as int))[k] by {
                    assert((a[k].0 as int, a[k].1) == linked(self.food_allergens@, i as int)[k]);
                }
            }
            assert(portions(servings@) =~= served(
                self.serving_names@,
                linked(self.food_servings@, i as int),
            )) by {
                assert forall|k: int| 0 <= k < servings.len() implies portions(servings@)[k]
                    == served(self.serving_names@, linked(self.food_servings@, i as int))[k] by {
                    assert((s[k].0 as int, s[k].1) == linked(self.food_servings@, i as int)[k]);
                }
            }
            assert(consistent(self.records()));
            assert(self.records().len() <= MAX_FOODS);
        }
        Food {
            id: Some((i + 1) as i64),
            slug: Some(row.slug.clone()),
            description: row.description.clone(),
            verified: Some(row.verified),
            image_url: self.images[row.image].clone(),
            source: self.sources[row.source].clone(),
            tags,
            allergens,
            servings,
            nutrients: row.nutrients,
        }
    }

    /// The food with this slug, put together in one pass over the tables.
    pub fn select_food_by_slug(&self, slug: &str) -> (r: Result<Food, StoreError>)
        requires
            self.wf(),
        ensures
            match found_by_slug(self.records(), slug@) {
                Some(rec) => r matches Ok(f) && f@ == rec,
                None => r == Err::<Food, StoreError>(StoreError::NotFound),
            },
    {
        let wanted = slug.to_owned();
        match self.row_of_slug(&wanted) {
            Some(i) => {
                proof {
                    self.lemma_found(slug@, self.foods.len() as int);
                    assert(self.records().take(self.foods.len() as int) =~= self.records());
                }
                Ok(self.assemble(i))
            },
            None => {
                proof {
                    self.lemma_found(slug@, self.foods.len() as int);
                    assert(self.records().take(self.foods.len() as int) =~= self.records());
                }
                Err(StoreError::NotFound)
            },
        }
    }

    /// Among the first `n` records, the one found by slug is the first
    /// whose row has the slug.
    proof fn lemma_found(&self, slug: Seq<char>, n: int)
        requires
            0 <= n <= self.foods.len(),
        ensures
            match found_by_slug(self.records().take(n), slug) {
                Some(rec) => exists|i: int|
                    0 <= i < n && rec == self.record(i) && (#[trigger] self.foods[i]).slug@ == slug
                        && forall|k: int| 0 <= k < i ==> (#[trigger] self.foods[k]).slug@ != slug,
                None => forall|k: int| 0 <= k < n ==> (#[trigger] self.foods[k]).slug@ != slug,
            },
        decreases n,
    {
        if n > 0 {
            self.lemma_found(slug, n - 1);
            let rs = self.records().take(n);
            assert(rs.drop_last() =~= self.records().take(n - 1));
            assert(rs.last() == self.record(n - 1));
            match found_by_slug(self.records().take(n - 1), slug) {
                Some(rec) => {},
                None => {
                    if rs.last().slug == Some(slug) {
                        assert(self.foods[n - 1].slug@ == slug);
                    }
                },
            }
        }
    }

    /// The slugs of the verified foods, in id order. A food that is not
    /// verified is left out here, though it can still be fetched by slug.
    pub fn select_all_foods_slugs(&self) -> (r: Vec<String>)
        ensures
            texts(r@) == listed_slugs(self.records()),
    {
        let mut out: Vec<String> = Vec::new();
        let mut i: usize = 0;
        assert(self.records().take(0) =~= Seq::<FoodView>::empty());
        assert(texts(out@) =~= listed_slugs(self.records().take(0)));
        while i < self.foods.len()
            invariant
                i <= self.foods.len(),
                texts(out@) == listed_slugs(self.records().take(i as int)),
            decreases self.foods.len() - i,
        {
            proof {
                let rs = self.records().take(i + 1);
                assert(rs.drop_last() =~= self.records().take(i as int));
                assert(rs.last() == self.record(i as int));
            }
            if self.foods[i].verified {
                let ghost before = out@;
                out.push(self.foods[i].slug.clone());
                assert(texts(out@) =~= texts(before).push(self.foods[i as int].slug@));
            }
            i += 1;
        }
        assert(self.records().take(self.foods.len() as int) =~= self.records());
        out
    }

    /// Every tag that some food has, in the order in which the store first
    /// met it.
    pub fn select_all_tags(&self) -> (r: Vec<String>)
        requires
            self.wf(),
        ensures
            texts(r@) == all_tags(self.records()),
            texts(r@) == self.tags(),
    {
        copy_texts(&self.tags)
    }

    /// The foods whose description holds `substring`, ASCII letters
    /// compared without regard to case, and `%` and `_` in the substring
    /// standing for any run of characters and for any one character: the
    /// first `limit` of them in id order, each put together as
    /// `select_food_by_slug` does.
    pub fn search_food_by_description_wild(&self, substring: &str, limit: u64) -> (r: Vec<Food>)
        requires
            self.wf(),
        ensures
            views(r@) == search_result(self.records(), substring@, limit as int),
    {
        let query = chars_of(substring);
        let pattern = pattern_for(&query);
        let mut out: Vec<Food> = Vec::new();
        let mut i: usize = 0;
        assert(self.records().take(0) =~= Seq::<FoodView>::empty());
        assert(views(out@) =~= search_result(self.records().take(0), substring@, limit as int));
        while i < self.foods.len()
            invariant
                i <= self.foods.len(),
                self.wf(),
                pattern@ == crate::like::like_pattern(substring@),
                out.len() <= limit,
                views(out@) == search_result(self.records().take(i as int), substring@, limit as int),
            decreases self.foods.len() - i,
        {
            proof {
                let rs = self.records().take(i + 1);
                assert(rs.drop_last() =~= self.records().take(i as int));
                assert(rs.last() == self.record(i as int));
            }
            let hay = chars_of(self.foods[i].description.as_str());
            if like(&pattern, &hay) {
                let ghost m = matching(self.records().take(i as int), substring@);
                let ghost rec = self.record(i as int);
                if (out.len() as u64) < limit {
                    let ghost before = out@;
                    let food = self.assemble(i);
                    out.push(food);
                    assert(views(out@) =~= views(before).push(rec));
                    assert(views(before) == m);
                } else {
                    assert(m.push(rec).take(limit as int) =~= m.take(limit as int));
                }
            }
            i += 1;
        }
        assert(self.records().take(self.foods.len() as int) =~= self.records());
        out
    }

    /// Inserts each of `foods` in turn. A record that cannot be stored,
    /// because its description is there already or for another reason, is
    /// skipped, and the next one is tried.
    pub fn ingest(&mut self, foods: &Vec<Food>) -> (r: IngestSummary)
        requires
            old(self).wf(),
        ensures
            final(self).wf(),
            final(self).records() == after_ingest(old(self).records(), views(foods@)),
            (r.added as nat, r.existing as nat, r.failed as nat) == ingest_tally(
                old(self).records(),
                views(foods@),
            ),
            r.added + r.existing + r.failed == foods.len(),
            r.added == final(self).records().len() - old(self).records().len(),
            r.added == 0 ==> *final(self) == *old(self),
    {
        let mut added: usize = 0;
        let mut existing: usize = 0;
        let mut failed: usize = 0;
        let mut i: usize = 0;
        let ghost start = self.records();
        let ghost before = *self;
        assert(views(foods@).take(0) =~= Seq::<FoodView>::empty());
        while i < foods.len()
            invariant
                i <= foods.len(),
                self.wf(),
                self.records() == after_ingest(start, views(foods@).take(i as int)),
                (added as nat, existing as nat, failed as nat) == ingest_tally(
                    start,
                    views(foods@).take(i as int),
                ),
                added + existing + failed == i,
                added == self.records().len() - start.len(),
                added == 0 ==> *self == before,
            decreases foods.len() - i,
        {
            proof {
                let fs = views(foods@).take(i + 1);
                assert(fs.drop_last() =~= views(foods@).take(i as int));
                assert(fs.last() == foods[i as int]@);
            }
            match self.insert_food(foods[i].duplicate()) {
                Ok(_) => {
                    added += 1;
                },
                Err(StoreError::AlreadyExists) => {
                    existing += 1;
                },
                Err(_) => {
                    failed += 1;
                },
            }
            i += 1;
        }
        assert(views(foods@).take(foods.len() as int) =~= views(foods@));
        IngestSummary { added, existing, failed }
    }

    /// The row whose food has this slug, if there is one: the first.
    fn row_of_slug(&self, slug: &String) -> (r: Option<usize>)
        ensures
            match r {
                Some(i) => i < self.foods.len() && self.foods[i as int].slug@ == slug@ && forall|
                    k: int,
                | 0 <= k < i ==> self.foods[k].slug@ != slug@,
                None => forall|k: int| 0 <= k < self.foods.len() ==> self.foods[k].slug@ != slug@,
            },
    {
        let mut i: usize = 0;
        while i < self.foods.len()
            invariant
                i <= self.foods.len(),
                forall|k: int| 0 <= k < i ==> self.foods[k].slug@ != slug@,
            decreases self.foods.len() - i,
        {
            if self.foods[i].slug == *slug {
                return Some(i);
            }
            i += 1;
        }
        None
    }
}

} // verus!
