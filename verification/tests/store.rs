use besinveri::food::{Amount, Food, Nutrients, Serving};
use besinveri::model::StoreError;
use besinveri::store::{IngestSummary, Store};

fn amount(value: f64) -> Amount {
    Amount { bits: value.to_bits() }
}

fn nutrients(energy: f64) -> Nutrients {
    let zero = amount(0.0);
    Nutrients {
        glycemic_index: zero,
        energy: amount(energy),
        carbohydrate: zero,
        protein: zero,
        fat: zero,
        saturated_fat: zero,
        trans_fat: zero,
        sugar: zero,
        fiber: zero,
        cholesterol: zero,
        sodium: zero,
        potassium: zero,
        water: zero,
        iron: zero,
        magnesium: zero,
        calcium: zero,
        zinc: zero,
        vitamin_a: zero,
        vitamin_b6: zero,
        vitamin_b12: zero,
        vitamin_c: zero,
        vitamin_d: zero,
        vitamin_e: zero,
        vitamin_k: zero,
    }
}

fn food(description: &str) -> Food {
    Food {
        id: None,
        slug: None,
        description: description.to_owned(),
        verified: None,
        image_url: "https://besinveri.com/static/elma.png".to_owned(),
        source: "TürKomp".to_owned(),
        tags: vec![],
        allergens: vec![],
        servings: vec![],
        nutrients: nutrients(52.0),
    }
}

fn strings(items: &[&str]) -> Vec<String> {
    items.iter().map(|s| s.to_string()).collect()
}

#[test]
fn a_new_store_is_empty() {
    let store = Store::new();
    assert_eq!(store.len(), 0);
    assert!(store.select_all_foods_slugs().is_empty());
    assert!(store.select_all_tags().is_empty());
    assert!(!store.food_exists_by_description("Elma"));
}

#[test]
fn insert_returns_the_food_with_its_id() {
    let mut store = Store::new();
    let given = food("Fuji Elma");
    let stored = store.insert_food(given.clone()).unwrap();
    assert_eq!(stored.id, Some(1));
    assert_eq!(stored, Food { id: Some(1), ..given });
    let second = store.insert_food(food("Armut")).unwrap();
    assert_eq!(second.id, Some(2));
    assert_eq!(store.len(), 2);
}

#[test]
fn second_insert_of_a_description_already_exists() {
    let mut store = Store::new();
    let before = store.len();
    assert!(store.insert_food(food("Elma")).is_ok());
    let mut again = food("Elma");
    again.source = "another source".to_owned();
    assert_eq!(store.insert_food(again), Err(StoreError::AlreadyExists));
    assert_eq!(store.len(), before + 1);
    assert!(store.food_exists_by_description("Elma"));
    assert!(!store.food_exists_by_description("elma"));
}

#[test]
fn round_trip_by_slug() {
    let mut store = Store::new();
    let mut given = food("Fındıklı Çikolata");
    given.tags = strings(&["a", "b"]);
    given.allergens = strings(&["nuts"]);
    given.servings = vec![Serving { name: "100g".to_owned(), weight: amount(100.0) }];
    store.insert_food(given.clone()).unwrap();

    let found = store.select_food_by_slug("findikli-cikolata").unwrap();
    assert_eq!(found.id, Some(1));
    assert_eq!(found.slug.as_deref(), Some("findikli-cikolata"));
    assert_eq!(found.description, "Fındıklı Çikolata");
    assert_eq!(found.verified, Some(true));
    assert_eq!(found.image_url, given.image_url);
    assert_eq!(found.source, given.source);
    let mut tags = found.tags.clone();
    tags.sort();
    assert_eq!(tags, strings(&["a", "b"]));
    assert_eq!(found.allergens, strings(&["nuts"]));
    assert_eq!(found.servings, given.servings);
    assert_eq!(f64::from_bits(found.servings[0].weight.bits), 100.0);
    assert_eq!(found.nutrients, given.nutrients);
    assert_eq!(f64::from_bits(found.nutrients.energy.bits), 52.0);
}

#[test]
fn unknown_slug_is_not_found() {
    let mut store = Store::new();
    store.insert_food(food("Elma")).unwrap();
    assert_eq!(store.select_food_by_slug("armut"), Err(StoreError::NotFound));
    assert_eq!(store.select_food_by_slug("Elma"), Err(StoreError::NotFound));
    assert!(store.select_food_by_slug("elma").is_ok());
}

#[test]
fn tags_allergens_and_serving_names_are_stored_in_lowercase_once() {
    let mut store = Store::new();
    let mut given = food("Süt");
    given.tags = strings(&["Dairy", "dairy", "DRINK", "İçecek"]);
    given.allergens = strings(&["Milk", "MILK"]);
    given.servings = vec![
        Serving { name: "Bardak".to_owned(), weight: amount(200.0) },
        Serving { name: "bardak".to_owned(), weight: amount(250.0) },
        Serving { name: "Litre".to_owned(), weight: amount(1030.0) },
    ];
    store.insert_food(given).unwrap();
    let found = store.select_food_by_slug("sut").unwrap();
    assert_eq!(found.tags, strings(&["dairy", "drink", "İçecek"]));
    assert_eq!(found.allergens, strings(&["milk"]));
    assert_eq!(
        found.servings,
        vec![
            Serving { name: "bardak".to_owned(), weight: amount(200.0) },
            Serving { name: "litre".to_owned(), weight: amount(1030.0) },
        ]
    );
    assert_eq!(store.select_all_tags(), strings(&["dairy", "drink", "İçecek"]));
}

#[test]
fn tags_are_shared_between_foods() {
    let mut store = Store::new();
    let mut first = food("Elma");
    first.tags = strings(&["meyve", "kırmızı"]);
    let mut second = food("Armut");
    second.tags = strings(&["Meyve", "yeşil"]);
    store.insert_food(first).unwrap();
    store.insert_food(second).unwrap();
    assert_eq!(store.select_all_tags(), strings(&["meyve", "kırmızı", "yeşil"]));
    assert_eq!(store.select_food_by_slug("elma").unwrap().tags, strings(&["meyve", "kırmızı"]));
    assert_eq!(store.select_food_by_slug("armut").unwrap().tags, strings(&["meyve", "yeşil"]));
}

#[test]
fn unverified_food_is_unlisted_but_reachable() {
    let mut store = Store::new();
    let mut hidden = food("Gizli Tarif");
    hidden.verified = Some(false);
    store.insert_food(food("Elma")).unwrap();
    store.insert_food(hidden).unwrap();
    let mut shown = food("Armut");
    shown.verified = Some(true);
    store.insert_food(shown).unwrap();

    assert_eq!(store.select_all_foods_slugs(), strings(&["elma", "armut"]));
    let found = store.select_food_by_slug("gizli-tarif").unwrap();
    assert_eq!(found.verified, Some(false));
    assert_eq!(store.select_food_by_slug("elma").unwrap().verified, Some(true));
}

#[test]
fn a_taken_slug_fails_and_writes_nothing() {
    let mut store = Store::new();
    store.insert_food(food("Çay")).unwrap();
    let mut clash = food("cay");
    clash.tags = strings(&["yeni"]);
    assert_eq!(store.insert_food(clash), Err(StoreError::Failure));
    assert_eq!(store.len(), 1);
    assert!(store.select_all_tags().is_empty());
    assert_eq!(store.select_food_by_slug("cay").unwrap().description, "Çay");
}

#[test]
fn a_weight_that_is_not_positive_fails_and_writes_nothing() {
    for bad in [0.0, -0.0, -1.0, f64::NAN, f64::NEG_INFINITY] {
        let mut store = Store::new();
        let mut given = food("Elma");
        given.tags = strings(&["meyve"]);
        given.servings = vec![
            Serving { name: "adet".to_owned(), weight: amount(150.0) },
            Serving { name: "dilim".to_owned(), weight: amount(bad) },
        ];
        assert_eq!(store.insert_food(given), Err(StoreError::Failure));
        assert_eq!(store.len(), 0);
        assert!(store.select_all_tags().is_empty());
    }
    assert!(amount(f64::MIN_POSITIVE).is_positive());
    assert!(amount(f64::INFINITY).is_positive());
    assert!(amount(150.0).is_positive());
    assert!(!amount(0.0).is_positive());
}

#[test]
fn search_by_description_ignores_ascii_case_and_honours_the_limit() {
    let mut store = Store::new();
    for name in ["Karpuz", "Portakal", "Makarna", "Elma", "KAYISI"] {
        store.insert_food(food(name)).unwrap();
    }
    let names = |foods: Vec<Food>| foods.into_iter().map(|f| f.description).collect::<Vec<_>>();
    assert_eq!(
        names(store.search_food_by_description_wild("ka", 10)),
        strings(&["Karpuz", "Portakal", "Makarna", "KAYISI"])
    );
    assert_eq!(
        names(store.search_food_by_description_wild("KA", 2)),
        strings(&["Karpuz", "Portakal"])
    );
    assert_eq!(names(store.search_food_by_description_wild("ka", 0)), strings(&[]));
    assert_eq!(names(store.search_food_by_description_wild("", 10)).len(), 5);
    assert_eq!(names(store.search_food_by_description_wild("xyz", 10)), strings(&[]));
    assert_eq!(names(store.search_food_by_description_wild("elmas", 10)), strings(&[]));
    let found = store.search_food_by_description_wild("lma", 10);
    assert_eq!(found.len(), 1);
    assert_eq!(found[0], store.select_food_by_slug("elma").unwrap());
}

#[test]
fn search_knows_the_wildcards() {
    let mut store = Store::new();
    for name in ["Karpuz", "Portakal", "Makarna", "Elma"] {
        store.insert_food(food(name)).unwrap();
    }
    let names = |foods: Vec<Food>| foods.into_iter().map(|f| f.description).collect::<Vec<_>>();
    assert_eq!(
        names(store.search_food_by_description_wild("k%a", 10)),
        strings(&["Karpuz", "Portakal", "Makarna"])
    );
    assert_eq!(names(store.search_food_by_description_wild("k%n", 10)), strings(&["Makarna"]));
    assert_eq!(names(store.search_food_by_description_wild("_lm_", 10)), strings(&["Elma"]));
    assert_eq!(names(store.search_food_by_description_wild("%", 10)).len(), 4);
    assert_eq!(names(store.search_food_by_description_wild("_______", 10)), strings(&["Portakal", "Makarna"]));
}

#[test]
fn search_folds_ascii_letters_only() {
    let mut store = Store::new();
    store.insert_food(food("Çilek")).unwrap();
    assert_eq!(store.search_food_by_description_wild("çilek", 10).len(), 0);
    assert_eq!(store.search_food_by_description_wild("ÇILEK", 10).len(), 1);
}

#[test]
fn ingestion_skips_what_it_cannot_store() {
    let mut store = Store::new();
    let mut bad = food("Bozuk");
    bad.servings = vec![Serving { name: "adet".to_owned(), weight: amount(-5.0) }];
    let batch = vec![food("Elma"), food("Armut"), food("Elma"), bad, food("Kiraz")];
    let summary = store.ingest(&batch);
    assert_eq!(summary, IngestSummary { added: 3, existing: 1, failed: 1 });
    assert_eq!(store.select_all_foods_slugs(), strings(&["elma", "armut", "kiraz"]));
}

#[test]
fn ingestion_is_idempotent() {
    let mut store = Store::new();
    let mut tagged = food("Elma");
    tagged.tags = strings(&["meyve"]);
    let batch = vec![tagged, food("Armut"), food("armut"), food("Kiraz")];
    let first = store.ingest(&batch);
    assert_eq!(first, IngestSummary { added: 3, existing: 0, failed: 1 });
    let rows = store.len();
    let slugs = store.select_all_foods_slugs();
    let tags = store.select_all_tags();
    let elma = store.select_food_by_slug("elma").unwrap();

    let second = store.ingest(&batch);
    assert_eq!(second.added, 0);
    assert_eq!(second.existing + second.failed, batch.len());
    assert_eq!(store.len(), rows);
    assert_eq!(store.select_all_foods_slugs(), slugs);
    assert_eq!(store.select_all_tags(), tags);
    assert_eq!(store.select_food_by_slug("elma").unwrap(), elma);
}

#[test]
fn ingestion_never_overwrites_a_stored_food() {
    let mut store = Store::new();
    let mut edited = food("Elma");
    edited.source = "elle düzeltildi".to_owned();
    store.insert_food(edited).unwrap();
    let summary = store.ingest(&vec![food("Elma")]);
    assert_eq!(summary, IngestSummary { added: 0, existing: 1, failed: 0 });
    assert_eq!(store.select_food_by_slug("elma").unwrap().source, "elle düzeltildi");
}

#[test]
fn a_duplicate_says_the_same() {
    let mut given = food("Elma");
    given.tags = strings(&["meyve"]);
    given.servings = vec![Serving { name: "adet".to_owned(), weight: amount(150.0) }];
    assert_eq!(given.duplicate(), given);
}

#[test]
fn a_run_that_adds_nothing_leaves_the_tables_alone() {
    let mut store = Store::new();
    let mut first = food("Elma");
    first.tags = strings(&["meyve"]);
    store.insert_food(first).unwrap();
    let mut again = food("Elma");
    again.tags = strings(&["başka", "etiket"]);
    again.source = "başka kaynak".to_owned();
    let mut clash = food("elma");
    clash.tags = strings(&["üçüncü"]);
    let summary = store.ingest(&vec![again, clash]);
    assert_eq!(summary, IngestSummary { added: 0, existing: 1, failed: 1 });
    assert_eq!(store.select_all_tags(), strings(&["meyve"]));
    assert_eq!(store.len(), 1);
    assert_eq!(store.select_food_by_slug("elma").unwrap().source, "TürKomp");
}
