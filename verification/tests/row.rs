use besinveri::food::{Amount, Food, Nutrients, Serving};
use besinveri::row::{food_with_lists, DecodeError, JoinedRow};

fn row(verified: i64, tags: &str, allergens: &str) -> JoinedRow {
    let zero = Amount { bits: 0 };
    JoinedRow {
        id: 7,
        slug: Some("fuji-elma".to_owned()),
        description: "Fuji Elma".to_owned(),
        verified,
        image_url: "https://besinveri.com/static/elma.png".to_owned(),
        source_description: "TürKomp".to_owned(),
        tags: tags.to_owned(),
        allergens: allergens.to_owned(),
        servings: vec![Serving { name: "adet".to_owned(), weight: Amount { bits: 150f64.to_bits() } }],
        nutrients: Nutrients {
            glycemic_index: zero,
            energy: Amount { bits: 52f64.to_bits() },
            carbohydrate: zero,
            protein: zero,
            fat: zero,
            saturated_fat: zero,
            trans_fat: zero,
            sugar: zero,
            fiber: zero,
            cholesterol: zero,
            sodium: zero,
            potassium: zero,
            water: zero,
            iron: zero,
            magnesium: zero,
            calcium: zero,
            zinc: zero,
            vitamin_a: zero,
            vitamin_b6: zero,
            vitamin_b12: zero,
            vitamin_c: zero,
            vitamin_d: zero,
            vitamin_e: zero,
            vitamin_k: zero,
        },
    }
}

#[test]
fn a_row_gives_its_food() {
    let given = row(1, "[\"meyve\",\"k\\u0131rm\\u0131z\\u0131\"]", "[]");
    let food = Food::from_row(given.clone()).unwrap();
    assert_eq!(
        food,
        Food {
            id: Some(7),
            slug: Some("fuji-elma".to_owned()),
            description: "Fuji Elma".to_owned(),
            verified: Some(true),
            image_url: given.image_url.clone(),
            source: "TürKomp".to_owned(),
            tags: vec!["meyve".to_owned(), "kırmızı".to_owned()],
            allergens: vec![],
            servings: given.servings.clone(),
            nutrients: given.nutrients,
        }
    );
}

#[test]
fn verified_is_anything_but_zero() {
    assert_eq!(Food::from_row(row(0, "[]", "[]")).unwrap().verified, Some(false));
    assert_eq!(Food::from_row(row(1, "[]", "[]")).unwrap().verified, Some(true));
    assert_eq!(Food::from_row(row(-1, "[]", "[]")).unwrap().verified, Some(true));
    assert_eq!(Food::from_row(row(2, "[]", "[]")).unwrap().verified, Some(true));
}

#[test]
fn a_row_with_a_broken_list_is_refused() {
    assert_eq!(Food::from_row(row(1, "meyve", "[]")), Err(DecodeError::Tags));
    assert_eq!(Food::from_row(row(1, "[1, 2]", "[]")), Err(DecodeError::Tags));
    assert_eq!(Food::from_row(row(1, "", "[]")), Err(DecodeError::Tags));
    assert_eq!(Food::from_row(row(1, "[\"a\"]", "{\"a\": 1}")), Err(DecodeError::Allergens));
    assert_eq!(Food::from_row(row(1, "null", "null")), Err(DecodeError::Tags));
    assert_eq!(Food::from_row(row(1, "[\"a\"]", "[null]")), Err(DecodeError::Allergens));
}

#[test]
fn a_row_with_given_lists() {
    let food = food_with_lists(row(0, "ignored", "ignored"), vec!["a".to_owned()], vec!["b".to_owned()]);
    assert_eq!(food.tags, vec!["a".to_owned()]);
    assert_eq!(food.allergens, vec!["b".to_owned()]);
    assert_eq!(food.verified, Some(false));
    assert_eq!(food.source, "TürKomp");
}
