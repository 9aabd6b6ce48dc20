//! Reading a food from one row of the joined query, in which the tags and
//! the allergens of the food arrive as JSON arrays.

use crate::food::{portions, text_of, texts, Food, FoodView, Nutrients, Serving};
use vstd::prelude::*;

verus! {

/// The list of strings that `serde_json::from_str` reads from a text, if
/// the text is a JSON array of strings.
pub uninterp spec fn string_array_of(text: Seq<char>) -> Option<Seq<Seq<char>>>;

/// The texts of an optional list of strings.
pub open spec fn texts_of(list: Option<Vec<String>>) -> Option<Seq<Seq<char>>> {
    match list {
        Some(v) => Some(texts(v@)),
        None => None,
    }
}

/// Calls `serde_json::from_str` for a list of strings. What is read
/// depends on the text alone; a text that is no JSON array of strings
/// gives nothing.
#[verifier::external_body]
fn parse_string_array(text: &str) -> (r: Option<Vec<String>>)
    ensures
        texts_of(r) == string_array_of(text@),
{
    serde_json::from_str::<Vec<String>>(text).ok()
}

/// A food as one row of the joined query holds it: `verified` is a number,
/// the tags and the allergens are JSON arrays.
#[derive(Clone, Debug, PartialEq, Eq)]
pub struct JoinedRow {
    pub id: i64,
    pub slug: Option<String>,
    pub description: String,
    pub verified: i64,
    pub image_url: String,
    pub source_description: String,
    pub tags: String,
    pub allergens: String,
    pub servings: Vec<Serving>,
    pub nutrients: Nutrients,
}

/// The column of a row that could not be read.
#[derive(Clone, Copy, Debug, PartialEq, Eq, Structural)]
pub enum DecodeError {
    /// The tags are no JSON array of strings.
    Tags,
    /// The allergens are no JSON array of strings.
    Allergens,
}

/// The food of a row whose tags and allergens have been read: a food is
/// verified unless the row says 0.
pub open spec fn food_of_row(
    row: JoinedRow,
    tags: Seq<Seq<char>>,
    allergens: Seq<Seq<char>>,
) -> FoodView {
    FoodView {
        id: Some(row.id),
        slug: text_of(row.slug),
        description: row.description@,
        verified: Some(row.verified != 0),
        image_url: row.image_url@,
        source: row.source_description@,
        tags,
        allergens,
        servings: portions(row.servings@),
        nutrients: row.nutrients,
    }
}

/// The food of a row, given its tags and allergens as lists.
pub fn food_with_lists(row: JoinedRow, tags: Vec<String>, allergens: Vec<String>) -> (r: Food)
    ensures
        r@ == food_of_row(row, texts(tags@), texts(allergens@)),
{
    Food {
        id: Some(row.id),
        slug: row.slug,
        description: row.description,
        verified: Some(row.verified != 0),
        image_url: row.image_url,
        source: row.source_description,
        tags,
        allergens,
        servings: row.servings,
        nutrients: row.nutrients,
    }
}

impl Food {
    /// Reads the food of a row: the tags first, then the allergens; the
    /// first of them that is no JSON array of strings is the error.
    pub fn from_row(row: JoinedRow) -> (r: Result<Food, DecodeError>)
        ensures
            match (string_array_of(row.tags@), string_array_of(row.allergens@)) {
                (Some(tags), Some(allergens)) => r matches Ok(f) && f@ == food_of_row(
                    row,
                    tags,
                    allergens,
                ),
                (None, _) => r == Err::<Food, DecodeError>(DecodeError::Tags),
                (Some(_), None) => r == Err::<Food, DecodeError>(DecodeError::Allergens),
            },
    {
        let tags = match parse_string_array(row.tags.as_str()) {
            Some(tags) => tags,
            None => {
                return Err(DecodeError::Tags);
            },
        };
        let allergens = match parse_string_array(row.allergens.as_str()) {
            Some(allergens) => allergens,
            None => {
                return Err(DecodeError::Allergens);
            },
        };
        Ok(food_with_lists(row, tags, allergens))
    }
}

} // verus!
