//! The food record and the plain values it is made of.

use vstd::prelude::*;

verus! {

/// A measured quantity, held as the bit pattern of a 64-bit binary floating
/// point number. The store only carries quantities around; the one thing it
/// ever asks of one is whether it is positive.
#[derive(Clone, Copy, Debug, PartialEq, Eq)]
pub struct Amount {
    pub bits: u64,
}

impl Amount {
    /// A pattern stands for a positive quantity when its sign bit is clear
    /// and it is neither zero nor a not-a-number pattern.
    pub open spec fn positive(self) -> bool {
        0 < self.bits <= 0x7FF0_0000_0000_0000
    }

    /// Tells whether the quantity is greater than zero.
    pub fn is_positive(&self) -> (b: bool)
        ensures
            b == self.positive(),
    {
        0 < self.bits && self.bits <= 0x7FF0_0000_0000_0000
    }
}

/// The nutrient content of a food, each quantity in the unit that the
/// field's name implies.
#[derive(Clone, Copy, Debug, PartialEq, Eq)]
pub struct Nutrients {
    pub glycemic_index: Amount,
    pub energy: Amount,
    pub carbohydrate: Amount,
    pub protein: Amount,
    pub fat: Amount,
    pub saturated_fat: Amount,
    pub trans_fat: Amount,
    pub sugar: Amount,
    pub fiber: Amount,
    pub cholesterol: Amount,
    pub sodium: Amount,
    pub potassium: Amount,
    pub water: Amount,
    pub iron: Amount,
    pub magnesium: Amount,
    pub calcium: Amount,
    pub zinc: Amount,
    pub vitamin_a: Amount,
    pub vitamin_b6: Amount,
    pub vitamin_b12: Amount,
    pub vitamin_c: Amount,
    pub vitamin_d: Amount,
    pub vitamin_e: Amount,
    pub vitamin_k: Amount,
}

/// A named portion and its weight in grams.
#[derive(Clone, Debug, PartialEq, Eq)]
pub struct Serving {
    pub name: String,
    pub weight: Amount,
}

/// One nutrition record. `id`, `slug` and `verified` may be absent in a
/// record that has not been stored yet.
#[derive(Clone, Debug, PartialEq, Eq)]
pub struct Food {
    pub id: Option<i64>,
    pub slug: Option<String>,
    pub description: String,
    pub verified: Option<bool>,
    pub image_url: String,
    pub source: String,
    pub tags: Vec<String>,
    pub allergens: Vec<String>,
    pub servings: Vec<Serving>,
    pub nutrients: Nutrients,
}

/// What a food record says, as mathematical values.
pub struct FoodView {
    pub id: Option<i64>,
    pub slug: Option<Seq<char>>,
    pub description: Seq<char>,
    pub verified: Option<bool>,
    pub image_url: Seq<char>,
    pub source: Seq<char>,
    pub tags: Seq<Seq<char>>,
    pub allergens: Seq<Seq<char>>,
    pub servings: Seq<(Seq<char>, Amount)>,
    pub nutrients: Nutrients,
}

/// The texts of a sequence of strings.
pub open spec fn texts(v: Seq<String>) -> Seq<Seq<char>> {
    Seq::new(v.len(), |i: int| v[i]@)
}

/// The names and weights of a sequence of servings.
pub open spec fn portions(v: Seq<Serving>) -> Seq<(Seq<char>, Amount)> {
    Seq::new(v.len(), |i: int| (v[i].name@, v[i].weight))
}

/// What each of a sequence of food records says.
pub open spec fn views(v: Seq<Food>) -> Seq<FoodView> {
    Seq::new(v.len(), |i: int| v[i]@)
}

/// The text of an optional string.
pub open spec fn text_of(s: Option<String>) -> Option<Seq<char>> {
    match s {
        Some(t) => Some(t@),
        None => None,
    }
}

impl View for Food {
    type V = FoodView;

    open spec fn view(&self) -> FoodView {
        FoodView {
            id: self.id,
            slug: text_of(self.slug),
            description: self.description@,
            verified: self.verified,
            image_url: self.image_url@,
            source: self.source@,
            tags: texts(self.tags@),
            allergens: texts(self.allergens@),
            servings: portions(self.servings@),
            nutrients: self.nutrients,
        }
    }
}

/// A copy of a list of strings.
pub fn copy_texts(v: &Vec<String>) -> (r: Vec<String>)
    ensures
        texts(r@) == texts(v@),
{
    let mut out: Vec<String> = Vec::new();
    let mut i: usize = 0;
    while i < v.len()
        invariant
            i <= v.len(),
            out.len() == i,
            forall|k: int| 0 <= k < i ==> out[k]@ == v[k]@,
        decreases v.len() - i,
    {
        out.push(v[i].clone());
        i += 1;
    }
    assert(texts(out@) =~= texts(v@));
    out
}

/// A copy of a list of servings.
pub fn copy_servings(v: &Vec<Serving>) -> (r: Vec<Serving>)
    ensures
        portions(r@) == portions(v@),
{
    let mut out: Vec<Serving> = Vec::new();
    let mut i: usize = 0;
    while i < v.len()
        invariant
            i <= v.len(),
            out.len() == i,
            forall|k: int| 0 <= k < i ==> out[k].name@ == v[k].name@ && out[k].weight == v[k].weight,
        decreases v.len() - i,
    {
        out.push(Serving { name: v[i].name.clone(), weight: v[i].weight });
        i += 1;
    }
    assert(portions(out@) =~= portions(v@));
    out
}

impl Food {
    /// A copy of the record that says the same.
    pub fn duplicate(&self) -> (r: Food)
        ensures
            r@ == self@,
    {
        let slug = match &self.slug {
            Some(s) => Some(s.clone()),
            None => None,
        };
        Food {
            id: self.id,
            slug,
            description: self.description.clone(),
            verified: self.verified,
            image_url: self.image_url.clone(),
            source: self.source.clone(),
            tags: copy_texts(&self.tags),
            allergens: copy_texts(&self.allergens),
            servings: copy_servings(&self.servings),
            nutrients: self.nutrients,
        }
    }
}

} // verus!
