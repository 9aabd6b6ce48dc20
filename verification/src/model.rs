//! The store as a mathematical object: the sequence of its food records in
//! the order of their ids, and what each operation does to it.

use crate::food::{Amount, FoodView};
use crate::like::holds_query;
use crate::strings::{ascii_lower, ascii_lower_all, lemma_ascii_lower_twice};
use crate::table::{
    distinct, first_positions, first_seen, lemma_first_positions, lemma_first_seen_of_distinct,
    lemma_with_texts, with_text, with_texts,
};
use crate::text::slug_of;
use vstd::prelude::*;

verus! {

/// Why a store operation did not give a result.
#[derive(Clone, Copy, Debug, PartialEq, Eq, Structural)]
pub enum StoreError {
    /// No food answers to the slug.
    NotFound,
    /// A food with the same description is already stored.
    AlreadyExists,
    /// The store could not take the record: its slug belongs to another
    /// food, one of its servings has a weight that is not positive, or no
    /// id is left.
    Failure,
}

/// The greatest number of foods a store holds; every id fits a signed
/// 64-bit integer.
pub const MAX_FOODS: u64 = 0x7FFF_FFFF_FFFF_FFFE;

/// The slug under which a food with this description is stored.
pub open spec fn slug_for(description: Seq<char>) -> Seq<char> {
    slug_of(description)
}

/// Some record has this description.
pub open spec fn has_description(rs: Seq<FoodView>, d: Seq<char>) -> bool {
    exists|i: int| 0 <= i < rs.len() && (#[trigger] rs[i]).description == d
}

/// Some record has this slug.
pub open spec fn has_slug(rs: Seq<FoodView>, s: Seq<char>) -> bool {
    exists|i: int| 0 <= i < rs.len() && (#[trigger] rs[i]).slug == Some(s)
}

/// The names of a list of servings.
pub open spec fn names_of(ps: Seq<(Seq<char>, Amount)>) -> Seq<Seq<char>> {
    Seq::new(ps.len(), |k: int| ps[k].0)
}

/// Every weight is positive.
pub open spec fn weights_positive(ps: Seq<(Seq<char>, Amount)>) -> bool {
    forall|k: int| 0 <= k < ps.len() ==> (#[trigger] ps[k]).1.positive()
}

/// The servings as they are stored: names in lowercase, and of servings
/// with the same name the first.
pub open spec fn first_portions(ps: Seq<(Seq<char>, Amount)>) -> Seq<(Seq<char>, Amount)> {
    let names = ascii_lower_all(names_of(ps));
    let p = first_positions(names);
    Seq::new(p.len(), |k: int| (names[p[k]], ps[p[k]].1))
}

/// Whether a record counts as verified when it does not say: it does.
pub open spec fn verified_or_default(v: Option<bool>) -> bool {
    match v {
        Some(b) => b,
        None => true,
    }
}

/// The record as the store keeps it under `id`: slug derived from the
/// description, `verified` made explicit, tags and allergens in lowercase
/// and each once, servings by lowercase name and each once.
pub open spec fn stored_form(f: FoodView, id: int) -> FoodView {
    FoodView {
        id: Some(id as i64),
        slug: Some(slug_for(f.description)),
        description: f.description,
        verified: Some(verified_or_default(f.verified)),
        image_url: f.image_url,
        source: f.source,
        tags: first_seen(ascii_lower_all(f.tags)),
        allergens: first_seen(ascii_lower_all(f.allergens)),
        servings: first_portions(f.servings),
        nutrients: f.nutrients,
    }
}

/// What inserting `f` into a store with the records `rs` gives: the new
/// record, or the reason why nothing is stored.
pub open spec fn insert_outcome(rs: Seq<FoodView>, f: FoodView) -> Result<FoodView, StoreError> {
    if has_description(rs, f.description) {
        Err(StoreError::AlreadyExists)
    } else if has_slug(rs, slug_for(f.description)) || !weights_positive(f.servings) || rs.len()
        >= MAX_FOODS {
        Err(StoreError::Failure)
    } else {
        Ok(stored_form(f, rs.len() as int + 1))
    }
}

/// The records after inserting `f`.
pub open spec fn after_insert(rs: Seq<FoodView>, f: FoodView) -> Seq<FoodView> {
    match insert_outcome(rs, f) {
        Ok(rec) => rs.push(rec),
        Err(_) => rs,
    }
}

/// The records after inserting each of `fs` in turn, a failed insert
/// leaving the records as they were.
pub open spec fn after_ingest(rs: Seq<FoodView>, fs: Seq<FoodView>) -> Seq<FoodView>
    decreases fs.len(),
{
    if fs.len() == 0 {
        rs
    } else {
        after_insert(after_ingest(rs, fs.drop_last()), fs.last())
    }
}

/// How many of `fs`, inserted in turn, are added, how many are refused
/// because their description is stored already, and how many fail for
/// another reason.
pub open spec fn ingest_tally(rs: Seq<FoodView>, fs: Seq<FoodView>) -> (nat, nat, nat)
    decreases fs.len(),
{
    if fs.len() == 0 {
        (0, 0, 0)
    } else {
        let t = ingest_tally(rs, fs.drop_last());
        match insert_outcome(after_ingest(rs, fs.drop_last()), fs.last()) {
            Ok(_) => (t.0 + 1, t.1, t.2),
            Err(StoreError::AlreadyExists) => (t.0, t.1 + 1, t.2),
            Err(_) => (t.0, t.1, t.2 + 1),
        }
    }
}

/// The record with this slug, if there is one: the first, should there be
/// several.
pub open spec fn found_by_slug(rs: Seq<FoodView>, slug: Seq<char>) -> Option<FoodView>
    decreases rs.len(),
{
    if rs.len() == 0 {
        None
    } else {
        match found_by_slug(rs.drop_last(), slug) {
            Some(r) => Some(r),
            None => if rs.last().slug == Some(slug) {
                Some(rs.last())
            } else {
                None
            },
        }
    }
}

/// The slugs of the verified records, in id order.
pub open spec fn listed_slugs(rs: Seq<FoodView>) -> Seq<Seq<char>>
    decreases rs.len(),
{
    if rs.len() == 0 {
        Seq::empty()
    } else if rs.last().verified == Some(true) && rs.last().slug is Some {
        listed_slugs(rs.drop_last()).push(rs.last().slug->0)
    } else {
        listed_slugs(rs.drop_last())
    }
}

/// A lookup table after the texts of each list, list by list, were added
/// unless they were there already: every text of the lists once, in the
/// order in which it was first met.
pub open spec fn gathered(lists: Seq<Seq<Seq<char>>>) -> Seq<Seq<char>>
    decreases lists.len(),
{
    if lists.len() == 0 {
        Seq::empty()
    } else {
        with_texts(gathered(lists.drop_last()), lists.last())
    }
}

/// The source of each record, as a list of one.
pub open spec fn source_lists(rs: Seq<FoodView>) -> Seq<Seq<Seq<char>>> {
    Seq::new(rs.len(), |i: int| seq![rs[i].source])
}

/// The image of each record, as a list of one.
pub open spec fn image_lists(rs: Seq<FoodView>) -> Seq<Seq<Seq<char>>> {
    Seq::new(rs.len(), |i: int| seq![rs[i].image_url])
}

/// The tags of each record.
pub open spec fn tag_lists(rs: Seq<FoodView>) -> Seq<Seq<Seq<char>>> {
    Seq::new(rs.len(), |i: int| rs[i].tags)
}

/// The allergens of each record.
pub open spec fn allergen_lists(rs: Seq<FoodView>) -> Seq<Seq<Seq<char>>> {
    Seq::new(rs.len(), |i: int| rs[i].allergens)
}

/// The serving names of each record.
pub open spec fn serving_name_lists(rs: Seq<FoodView>) -> Seq<Seq<Seq<char>>> {
    Seq::new(rs.len(), |i: int| names_of(rs[i].servings))
}

/// The table of sources: the source of every record, each once, in the
/// order in which the store first met it.
pub open spec fn all_sources(rs: Seq<FoodView>) -> Seq<Seq<char>> {
    gathered(source_lists(rs))
}

/// The table of images: the image of every record, each once, in the order
/// in which the store first met it.
pub open spec fn all_images(rs: Seq<FoodView>) -> Seq<Seq<char>> {
    gathered(image_lists(rs))
}

/// The table of tags: every tag of every record, each once, in the order in
/// which the store first met it.
pub open spec fn all_tags(rs: Seq<FoodView>) -> Seq<Seq<char>> {
    gathered(tag_lists(rs))
}

/// The table of allergens: every allergen of every record, each once, in
/// the order in which the store first met it.
pub open spec fn all_allergens(rs: Seq<FoodView>) -> Seq<Seq<char>> {
    gathered(allergen_lists(rs))
}

/// The table of serving names: every serving name of every record, each
/// once, in the order in which the store first met it.
pub open spec fn all_serving_names(rs: Seq<FoodView>) -> Seq<Seq<char>> {
    gathered(serving_name_lists(rs))
}

/// The records whose description holds the query, in id order.
pub open spec fn matching(rs: Seq<FoodView>, query: Seq<char>) -> Seq<FoodView>
    decreases rs.len(),
{
    if rs.len() == 0 {
        Seq::empty()
    } else if holds_query(rs.last().description, query) {
        matching(rs.drop_last(), query).push(rs.last())
    } else {
        matching(rs.drop_last(), query)
    }
}

/// The first `limit` of the matching records.
pub open spec fn search_result(rs: Seq<FoodView>, query: Seq<char>, limit: int) -> Seq<FoodView> {
    let m = matching(rs, query);
    if limit < m.len() {
        m.take(limit)
    } else {
        m
    }
}

/// Every text is its own ASCII lowercase form.
pub open spec fn all_lower(xs: Seq<Seq<char>>) -> bool {
    forall|k: int| 0 <= k < xs.len() ==> ascii_lower(#[trigger] xs[k]) == xs[k]
}

/// What holds of the records of every store: ids count up from 1; each
/// record has the slug of its description, and no two share one; each says
/// whether it is verified; tags, allergens and serving names are in
/// lowercase and occur once per record; serving weights are positive.
pub open spec fn consistent(rs: Seq<FoodView>) -> bool {
    &&& rs.len() <= MAX_FOODS
    &&& forall|i: int|
        0 <= i < rs.len() ==> {
            let r = #[trigger] rs[i];
            &&& r.id == Some((i + 1) as i64)
            &&& r.slug == Some(slug_for(r.description))
            &&& r.verified is Some
            &&& distinct(r.tags)
            &&& all_lower(r.tags)
            &&& distinct(r.allergens)
            &&& all_lower(r.allergens)
            &&& distinct(names_of(r.servings))
            &&& all_lower(names_of(r.servings))
            &&& weights_positive(r.servings)
        }
    &&& forall|i: int, j: int|
        0 <= i < j < rs.len() ==> (#[trigger] rs[i]).slug != (#[trigger] rs[j]).slug
}

/// The stored form of a record keeps each tag, allergen and serving name
/// once and in lowercase, and the weights that came with the servings it
/// keeps.
pub proof fn lemma_stored_form(f: FoodView, id: int)
    ensures
        distinct(stored_form(f, id).tags),
        all_lower(stored_form(f, id).tags),
        distinct(stored_form(f, id).allergens),
        all_lower(stored_form(f, id).allergens),
        names_of(stored_form(f, id).servings) == first_seen(ascii_lower_all(names_of(f.servings))),
        distinct(names_of(stored_form(f, id).servings)),
        all_lower(names_of(stored_form(f, id).servings)),
        weights_positive(f.servings) ==> weights_positive(stored_form(f, id).servings),
{
    let r = stored_form(f, id);
    let lt = ascii_lower_all(f.tags);
    let la = ascii_lower_all(f.allergens);
    let ln = ascii_lower_all(names_of(f.servings));
    lemma_first_positions(lt);
    lemma_first_positions(la);
    lemma_first_positions(ln);
    assert forall|k: int| 0 <= k < r.tags.len() implies ascii_lower(#[trigger] r.tags[k])
        == r.tags[k] by {
        lemma_ascii_lower_twice(f.tags[first_positions(lt)[k]]);
    }
    assert forall|k: int| 0 <= k < r.allergens.len() implies ascii_lower(#[trigger] r.allergens[k])
        == r.allergens[k] by {
        lemma_ascii_lower_twice(f.allergens[first_positions(la)[k]]);
    }
    assert(names_of(r.servings) =~= first_seen(ln));
    assert forall|k: int| 0 <= k < names_of(r.servings).len() implies ascii_lower(
        #[trigger] names_of(r.servings)[k],
    ) == names_of(r.servings)[k] by {
        lemma_ascii_lower_twice(names_of(f.servings)[first_positions(ln)[k]]);
    }
    if weights_positive(f.servings) {
        assert forall|k: int| 0 <= k < r.servings.len() implies (#[trigger] r.servings[k]).1.positive() by {
            assert(f.servings[first_positions(ln)[k]].1.positive());
        }
    }
}

/// Inserting keeps the records consistent.
pub proof fn lemma_insert_keeps_consistent(rs: Seq<FoodView>, f: FoodView)
    requires
        consistent(rs),
    ensures
        consistent(after_insert(rs, f)),
{
    match insert_outcome(rs, f) {
        Ok(rec) => {
            let after = rs.push(rec);
            lemma_stored_form(f, rs.len() as int + 1);
            assert forall|i: int, j: int| 0 <= i < j < after.len() implies (#[trigger] after[i]).slug
                != (#[trigger] after[j]).slug by {
                if j == rs.len() {
                    assert(after[i] == rs[i]);
                    assert(!has_slug(rs, slug_for(f.description)));
                } else {
                    assert(after[i] == rs[i]);
                    assert(after[j] == rs[j]);
                }
            }
            assert forall|i: int| 0 <= i < after.len() implies {
                let r = #[trigger] after[i];
                &&& r.id == Some((i + 1) as i64)
                &&& r.slug == Some(slug_for(r.description))
                &&& r.verified is Some
                &&& distinct(r.tags)
                &&& all_lower(r.tags)
                &&& distinct(r.allergens)
                &&& all_lower(r.allergens)
                &&& distinct(names_of(r.servings))
                &&& all_lower(names_of(r.servings))
                &&& weights_positive(r.servings)
            } by {
                if i < rs.len() {
                    assert(after[i] == rs[i]);
                }
            }
        },
        Err(_) => {},
    }
}

/// A gathered table holds no text twice; it holds exactly the texts of the
/// lists; and it is in lowercase if the lists are.
pub proof fn lemma_gathered(lists: Seq<Seq<Seq<char>>>)
    ensures
        distinct(gathered(lists)),
        forall|x: Seq<char>|
            gathered(lists).contains(x) <==> exists|i: int|
                0 <= i < lists.len() && (#[trigger] lists[i]).contains(x),
        (forall|i: int| 0 <= i < lists.len() ==> all_lower(#[trigger] lists[i])) ==> all_lower(
            gathered(lists),
        ),
    decreases lists.len(),
{
    if lists.len() > 0 {
        let init = lists.drop_last();
        let xs = lists.last();
        lemma_gathered(init);
        let t = gathered(init);
        let v = gathered(lists);
        lemma_with_texts(t, xs);
        assert forall|x: Seq<char>|
            v.contains(x) <==> exists|i: int|
                0 <= i < lists.len() && (#[trigger] lists[i]).contains(x) by {
            if v.contains(x) {
                if t.contains(x) {
                    let i = choose|i: int| 0 <= i < init.len() && (#[trigger] init[i]).contains(x);
                    assert(init[i] == lists[i]);
                    assert(lists[i].contains(x));
                } else {
                    assert(xs.contains(x));
                    assert(lists[lists.len() - 1] == xs);
                    assert(lists[lists.len() - 1].contains(x));
                }
            }
            if exists|i: int| 0 <= i < lists.len() && (#[trigger] lists[i]).contains(x) {
                let i = choose|i: int| 0 <= i < lists.len() && (#[trigger] lists[i]).contains(x);
                if i < init.len() {
                    assert(init[i] == lists[i]);
                    assert(init[i].contains(x));
                    assert(t.contains(x));
                } else {
                    assert(lists[i] == xs);
                    assert(xs.contains(x));
                }
                assert(v.contains(x));
            }
        }
        if forall|i: int| 0 <= i < lists.len() ==> all_lower(#[trigger] lists[i]) {
            assert forall|i: int| 0 <= i < init.len() implies all_lower(#[trigger] init[i]) by {
                assert(init[i] == lists[i]);
            }
            assert(all_lower(lists[lists.len() - 1]));
            assert forall|k: int| 0 <= k < v.len() implies ascii_lower(#[trigger] v[k]) == v[k] by {
                assert(v.contains(v[k]));
                if t.contains(v[k]) {
                    let i = choose|i: int| 0 <= i < t.len() && t[i] == v[k];
                    assert(ascii_lower(t[i]) == t[i]);
                } else {
                    let i = choose|i: int| 0 <= i < xs.len() && xs[i] == v[k];
                    assert(ascii_lower(xs[i]) == xs[i]);
                }
            }
        }
    }
}

/// One row per value: the lookup tables of consistent records hold no text
/// twice; the tables of tags, allergens and serving names are in lowercase,
/// however the texts were written when they came in; and each table holds
/// exactly what some record refers to, no row more and none less.
pub proof fn lemma_lookup_tables(rs: Seq<FoodView>)
    requires
        consistent(rs),
    ensures
        distinct(all_sources(rs)),
        distinct(all_images(rs)),
        distinct(all_tags(rs)),
        distinct(all_allergens(rs)),
        distinct(all_serving_names(rs)),
        all_lower(all_tags(rs)),
        all_lower(all_allergens(rs)),
        all_lower(all_serving_names(rs)),
        forall|x: Seq<char>|
            all_sources(rs).contains(x) <==> exists|i: int|
                0 <= i < rs.len() && (#[trigger] rs[i]).source == x,
        forall|x: Seq<char>|
            all_images(rs).contains(x) <==> exists|i: int|
                0 <= i < rs.len() && (#[trigger] rs[i]).image_url == x,
        forall|x: Seq<char>|
            all_tags(rs).contains(x) <==> exists|i: int|
                0 <= i < rs.len() && (#[trigger] rs[i]).tags.contains(x),
        forall|x: Seq<char>|
            all_allergens(rs).contains(x) <==> exists|i: int|
                0 <= i < rs.len() && (#[trigger] rs[i]).allergens.contains(x),
        forall|x: Seq<char>|
            all_serving_names(rs).contains(x) <==> exists|i: int|
                0 <= i < rs.len() && names_of((#[trigger] rs[i]).servings).contains(x),
{
    lemma_gathered(source_lists(rs));
    lemma_gathered(image_lists(rs));
    lemma_gathered(tag_lists(rs));
    lemma_gathered(allergen_lists(rs));
    lemma_gathered(serving_name_lists(rs));
    assert forall|x: Seq<char>|
        all_sources(rs).contains(x) <==> exists|i: int|
            0 <= i < rs.len() && (#[trigger] rs[i]).source == x by {
        let l = source_lists(rs);
        if all_sources(rs).contains(x) {
            let i = choose|i: int| 0 <= i < l.len() && (#[trigger] l[i]).contains(x);
            let k = choose|k: int| 0 <= k < l[i].len() && l[i][k] == x;
            assert(rs[i].source == x);
        }
        if exists|i: int| 0 <= i < rs.len() && (#[trigger] rs[i]).source == x {
            let i = choose|i: int| 0 <= i < rs.len() && (#[trigger] rs[i]).source == x;
            assert(l[i][0] == x);
            assert(l[i].contains(x));
        }
    }
    assert forall|x: Seq<char>|
        all_images(rs).contains(x) <==> exists|i: int|
            0 <= i < rs.len() && (#[trigger] rs[i]).image_url == x by {
        let l = image_lists(rs);
        if all_images(rs).contains(x) {
            let i = choose|i: int| 0 <= i < l.len() && (#[trigger] l[i]).contains(x);
            let k = choose|k: int| 0 <= k < l[i].len() && l[i][k] == x;
            assert(rs[i].image_url == x);
        }
        if exists|i: int| 0 <= i < rs.len() && (#[trigger] rs[i]).image_url == x {
            let i = choose|i: int| 0 <= i < rs.len() && (#[trigger] rs[i]).image_url == x;
            assert(l[i][0] == x);
            assert(l[i].contains(x));
        }
    }
    assert forall|x: Seq<char>|
        all_tags(rs).contains(x) <==> exists|i: int|
            0 <= i < rs.len() && (#[trigger] rs[i]).tags.contains(x) by {
        let l = tag_lists(rs);
        if all_tags(rs).contains(x) {
            let i = choose|i: int| 0 <= i < l.len() && (#[trigger] l[i]).contains(x);
            assert(rs[i].tags.contains(x));
        }
        if exists|i: int| 0 <= i < rs.len() && (#[trigger] rs[i]).tags.contains(x) {
            let i = choose|i: int| 0 <= i < rs.len() && (#[trigger] rs[i]).tags.contains(x);
            assert(l[i].contains(x));
        }
    }
    assert forall|x: Seq<char>|
        all_allergens(rs).contains(x) <==> exists|i: int|
            0 <= i < rs.len() && (#[trigger] rs[i]).allergens.contains(x) by {
        let l = allergen_lists(rs);
        if all_allergens(rs).contains(x) {
            let i = choose|i: int| 0 <= i < l.len() && (#[trigger] l[i]).contains(x);
            assert(rs[i].allergens.contains(x));
        }
        if exists|i: int| 0 <= i < rs.len() && (#[trigger] rs[i]).allergens.contains(x) {
            let i = choose|i: int| 0 <= i < rs.len() && (#[trigger] rs[i]).allergens.contains(x);
            assert(l[i].contains(x));
        }
    }
    assert forall|x: Seq<char>|
        all_serving_names(rs).contains(x) <==> exists|i: int|
            0 <= i < rs.len() && names_of((#[trigger] rs[i]).servings).contains(x) by {
        let l = serving_name_lists(rs);
        if all_serving_names(rs).contains(x) {
            let i = choose|i: int| 0 <= i < l.len() && (#[trigger] l[i]).contains(x);
            assert(names_of(rs[i].servings).contains(x));
        }
        if exists|i: int| 0 <= i < rs.len() && names_of((#[trigger] rs[i]).servings).contains(x) {
            let i = choose|i: int|
                0 <= i < rs.len() && names_of((#[trigger] rs[i]).servings).contains(x);
            assert(l[i].contains(x));
        }
    }
    assert forall|i: int| 0 <= i < tag_lists(rs).len() implies all_lower(
        #[trigger] tag_lists(rs)[i],
    ) by {
        assert(all_lower(rs[i].tags));
    }
    assert forall|i: int| 0 <= i < allergen_lists(rs).len() implies all_lower(
        #[trigger] allergen_lists(rs)[i],
    ) by {
        assert(all_lower(rs[i].allergens));
    }
    assert forall|i: int| 0 <= i < serving_name_lists(rs).len() implies all_lower(
        #[trigger] serving_name_lists(rs)[i],
    ) by {
        assert(all_lower(names_of(rs[i].servings)));
    }
}

/// Adding a record adds what it names to each lookup table.
pub proof fn lemma_tables_grow(rs: Seq<FoodView>, rec: FoodView)
    ensures
        all_sources(rs.push(rec)) == with_text(all_sources(rs), rec.source),
        all_images(rs.push(rec)) == with_text(all_images(rs), rec.image_url),
        all_tags(rs.push(rec)) == with_texts(all_tags(rs), rec.tags),
        all_allergens(rs.push(rec)) == with_texts(all_allergens(rs), rec.allergens),
        all_serving_names(rs.push(rec)) == with_texts(
            all_serving_names(rs),
            names_of(rec.servings),
        ),
{
    let after = rs.push(rec);
    assert(source_lists(after).drop_last() =~= source_lists(rs));
    assert(image_lists(after).drop_last() =~= image_lists(rs));
    assert(tag_lists(after).drop_last() =~= tag_lists(rs));
    assert(allergen_lists(after).drop_last() =~= allergen_lists(rs));
    assert(serving_name_lists(after).drop_last() =~= serving_name_lists(rs));
    assert(source_lists(after).last() == seq![rec.source]);
    assert(image_lists(after).last() == seq![rec.image_url]);
    lemma_with_one(all_sources(rs), rec.source);
    lemma_with_one(all_images(rs), rec.image_url);
}

/// Adding a list of one text is adding the text.
proof fn lemma_with_one(t: Seq<Seq<char>>, x: Seq<char>)
    ensures
        with_texts(t, seq![x]) == with_text(t, x),
{
    let xs = seq![x];
    assert(xs.drop_last() =~= Seq::<Seq<char>>::empty());
    assert(with_texts(t, xs.drop_last()) == t);
}

/// `b` starts with the records of `a`, unchanged.
pub open spec fn starts_with(b: Seq<FoodView>, a: Seq<FoodView>) -> bool {
    &&& a.len() <= b.len()
    &&& forall|i: int| 0 <= i < a.len() ==> #[trigger] b[i] == a[i]
}

/// A stored record is never changed or removed by an insert.
pub proof fn lemma_insert_keeps_records(rs: Seq<FoodView>, f: FoodView)
    ensures
        starts_with(after_insert(rs, f), rs),
{
}

/// A stored record is never changed or removed by an ingestion.
pub proof fn lemma_ingest_keeps_records(rs: Seq<FoodView>, fs: Seq<FoodView>)
    ensures
        starts_with(after_ingest(rs, fs), rs),
    decreases fs.len(),
{
    if fs.len() > 0 {
        lemma_ingest_keeps_records(rs, fs.drop_last());
        lemma_insert_keeps_records(after_ingest(rs, fs.drop_last()), fs.last());
    }
}

/// Ingestion keeps the records consistent.
pub proof fn lemma_ingest_keeps_consistent(rs: Seq<FoodView>, fs: Seq<FoodView>)
    requires
        consistent(rs),
    ensures
        consistent(after_ingest(rs, fs)),
    decreases fs.len(),
{
    if fs.len() > 0 {
        lemma_ingest_keeps_consistent(rs, fs.drop_last());
        lemma_insert_keeps_consistent(after_ingest(rs, fs.drop_last()), fs.last());
    }
}

/// Once an insert of `f` has been tried, every later insert of a record
/// with the same description is refused, whatever else was stored since.
pub proof fn lemma_insert_settles(rs: Seq<FoodView>, f: FoodView, later: Seq<FoodView>)
    requires
        starts_with(later, after_insert(rs, f)),
    ensures
        insert_outcome(later, f) is Err,
        after_insert(later, f) == later,
{
    let after = after_insert(rs, f);
    match insert_outcome(rs, f) {
        Ok(rec) => {
            assert(after[rs.len() as int] == rec);
            assert(later[rs.len() as int].description == f.description);
        },
        Err(_) => {
            if has_description(rs, f.description) {
                let i = choose|i: int| 0 <= i < rs.len() && (#[trigger] rs[i]).description == f.description;
                assert(later[i].description == f.description);
            } else if has_slug(rs, slug_for(f.description)) {
                let i = choose|i: int|
                    0 <= i < rs.len() && (#[trigger] rs[i]).slug == Some(slug_for(f.description));
                assert(later[i].slug == Some(slug_for(f.description)));
            }
        },
    }
}

/// Idempotent ingestion: after a list of records has been ingested,
/// ingesting the same list again changes nothing, so the number of rows is
/// the same as after one run. The same holds when other records were
/// stored in between.
pub proof fn lemma_ingest_again(rs: Seq<FoodView>, fs: Seq<FoodView>, later: Seq<FoodView>)
    requires
        starts_with(later, after_ingest(rs, fs)),
    ensures
        after_ingest(later, fs) == later,
    decreases fs.len(),
{
    if fs.len() > 0 {
        let init = fs.drop_last();
        let t = after_ingest(rs, init);
        lemma_insert_keeps_records(t, fs.last());
        assert(starts_with(later, t));
        lemma_ingest_again(rs, init, later);
        lemma_insert_settles(t, fs.last(), later);
    }
}

/// A second run over the same records adds none of them.
pub proof fn lemma_ingest_again_adds_nothing(
    rs: Seq<FoodView>,
    fs: Seq<FoodView>,
    later: Seq<FoodView>,
)
    requires
        starts_with(later, after_ingest(rs, fs)),
    ensures
        ingest_tally(later, fs).0 == 0,
    decreases fs.len(),
{
    if fs.len() > 0 {
        let init = fs.drop_last();
        let t = after_ingest(rs, init);
        lemma_insert_keeps_records(t, fs.last());
        assert(starts_with(later, t));
        lemma_ingest_again_adds_nothing(rs, init, later);
        lemma_ingest_again(rs, init, later);
        lemma_insert_settles(t, fs.last(), later);
    }
}

/// Idempotent ingestion, in its plain form: a second run over the same
/// records leaves the store as the first run left it.
pub proof fn lemma_ingest_twice(rs: Seq<FoodView>, fs: Seq<FoodView>)
    ensures
        after_ingest(after_ingest(rs, fs), fs) == after_ingest(rs, fs),
        after_ingest(after_ingest(rs, fs), fs).len() == after_ingest(rs, fs).len(),
        ingest_tally(after_ingest(rs, fs), fs).0 == 0,
{
    lemma_ingest_again(rs, fs, after_ingest(rs, fs));
    lemma_ingest_again_adds_nothing(rs, fs, after_ingest(rs, fs));
}

/// No duplicates: of two records with the same description the first is
/// stored and the second is refused as already existing, so the number of
/// foods grows by one, not by two.
pub proof fn lemma_same_description_once(rs: Seq<FoodView>, first: FoodView, second: FoodView)
    requires
        insert_outcome(rs, first) is Ok,
        second.description == first.description,
    ensures
        after_insert(rs, first).len() == rs.len() + 1,
        insert_outcome(after_insert(rs, first), second) == Err::<FoodView, StoreError>(
            StoreError::AlreadyExists,
        ),
        after_insert(after_insert(rs, first), second).len() == rs.len() + 1,
{
    let after = after_insert(rs, first);
    assert(after[rs.len() as int].description == second.description);
}

/// A record is found under a slug exactly when some record has that slug.
pub proof fn lemma_found_by_slug(rs: Seq<FoodView>, slug: Seq<char>)
    ensures
        found_by_slug(rs, slug) is Some <==> has_slug(rs, slug),
        found_by_slug(rs, slug) matches Some(r) ==> r.slug == Some(slug) && rs.contains(r),
    decreases rs.len(),
{
    if rs.len() > 0 {
        let init = rs.drop_last();
        lemma_found_by_slug(init, slug);
        if has_slug(init, slug) {
            let i = choose|i: int| 0 <= i < init.len() && (#[trigger] init[i]).slug == Some(slug);
            assert(rs[i].slug == Some(slug));
        }
        if has_slug(rs, slug) && !has_slug(init, slug) {
            let i = choose|i: int| 0 <= i < rs.len() && (#[trigger] rs[i]).slug == Some(slug);
            if i < init.len() {
                assert(init[i].slug == Some(slug));
            }
        }
        match found_by_slug(init, slug) {
            Some(r) => {
                let i = choose|i: int| 0 <= i < init.len() && init[i] == r;
                assert(rs[i] == r);
            },
            None => {
                if rs.last().slug == Some(slug) {
                    assert(rs[rs.len() - 1] == rs.last());
                }
            },
        }
    }
}

/// Round trip: a food that was stored is found under the slug of its
/// description, in its stored form. The stored tags and allergens are the
/// given ones in lowercase, as sets; tags, allergens and servings that were
/// given in lowercase and without repetition come back exactly as given.
pub proof fn lemma_round_trip(rs: Seq<FoodView>, f: FoodView)
    requires
        insert_outcome(rs, f) is Ok,
    ensures
        found_by_slug(after_insert(rs, f), slug_for(f.description)) == Some(
            stored_form(f, rs.len() as int + 1),
        ),
        forall|x: Seq<char>|
            stored_form(f, rs.len() as int + 1).tags.contains(x) <==> ascii_lower_all(
                f.tags,
            ).contains(x),
        forall|x: Seq<char>|
            stored_form(f, rs.len() as int + 1).allergens.contains(x) <==> ascii_lower_all(
                f.allergens,
            ).contains(x),
        all_lower(f.tags) && distinct(f.tags) ==> stored_form(f, rs.len() as int + 1).tags
            == f.tags,
        all_lower(f.allergens) && distinct(f.allergens) ==> stored_form(
            f,
            rs.len() as int + 1,
        ).allergens == f.allergens,
        all_lower(names_of(f.servings)) && distinct(names_of(f.servings)) ==> stored_form(
            f,
            rs.len() as int + 1,
        ).servings == f.servings,
{
    let rec = stored_form(f, rs.len() as int + 1);
    let after = rs.push(rec);
    let slug = slug_for(f.description);
    assert(after.drop_last() == rs);
    lemma_found_by_slug(rs, slug);
    assert(found_by_slug(rs, slug) is None);
    lemma_first_positions(ascii_lower_all(f.tags));
    lemma_first_positions(ascii_lower_all(f.allergens));
    if all_lower(f.tags) && distinct(f.tags) {
        assert(ascii_lower_all(f.tags) =~= f.tags);
        lemma_first_seen_of_distinct(f.tags);
    }
    if all_lower(f.allergens) && distinct(f.allergens) {
        assert(ascii_lower_all(f.allergens) =~= f.allergens);
        lemma_first_seen_of_distinct(f.allergens);
    }
    let names = names_of(f.servings);
    if all_lower(names) && distinct(names) {
        assert(ascii_lower_all(names) =~= names);
        lemma_first_seen_of_distinct(names);
        assert(rec.servings =~= f.servings);
    }
}

/// The listing holds the slugs of verified records only.
pub proof fn lemma_listed(rs: Seq<FoodView>, slug: Seq<char>)
    ensures
        listed_slugs(rs).contains(slug) <==> exists|i: int|
            0 <= i < rs.len() && (#[trigger] rs[i]).slug == Some(slug) && rs[i].verified == Some(
                true,
            ),
    decreases rs.len(),
{
    if rs.len() > 0 {
        let init = rs.drop_last();
        lemma_listed(init, slug);
        let l = listed_slugs(rs);
        if l.contains(slug) {
            let k = choose|k: int| 0 <= k < l.len() && l[k] == slug;
            if k < listed_slugs(init).len() {
                assert(listed_slugs(init)[k] == slug);
                assert(listed_slugs(init).contains(slug));
                let i = choose|i: int|
                    0 <= i < init.len() && (#[trigger] init[i]).slug == Some(slug)
                        && init[i].verified == Some(true);
                assert(rs[i].slug == Some(slug) && rs[i].verified == Some(true));
            } else {
                assert(rs[rs.len() - 1].slug == Some(slug));
            }
        }
        if exists|i: int|
            0 <= i < rs.len() && (#[trigger] rs[i]).slug == Some(slug) && rs[i].verified == Some(
                true,
            ) {
            let i = choose|i: int|
                0 <= i < rs.len() && (#[trigger] rs[i]).slug == Some(slug) && rs[i].verified
                    == Some(true);
            if i < init.len() {
                assert(init[i].slug == Some(slug) && init[i].verified == Some(true));
                assert(listed_slugs(init).contains(slug));
                let k = choose|k: int|
                    0 <= k < listed_slugs(init).len() && listed_slugs(init)[k] == slug;
                assert(l[k] == slug);
            } else {
                assert(l[l.len() - 1] == slug);
            }
        }
    }
}

/// A food stored as not verified is kept out of the listing and can still
/// be fetched by its slug.
pub proof fn lemma_unverified_is_unlisted(rs: Seq<FoodView>, f: FoodView)
    requires
        insert_outcome(rs, f) is Ok,
        f.verified == Some(false),
    ensures
        listed_slugs(after_insert(rs, f)) == listed_slugs(rs),
        !listed_slugs(after_insert(rs, f)).contains(slug_for(f.description)),
        found_by_slug(after_insert(rs, f), slug_for(f.description)) == Some(
            stored_form(f, rs.len() as int + 1),
        ),
{
    let rec = stored_form(f, rs.len() as int + 1);
    let after = rs.push(rec);
    assert(after.drop_last() == rs);
    lemma_round_trip(rs, f);
    lemma_listed(rs, slug_for(f.description));
}

} // verus!
