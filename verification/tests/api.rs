use besinveri::api::{
    description_mode, endpoints, get_food_handler, get_foods_handler, get_foods_search_handler,
    HandlerError,
};
use besinveri::food::{Amount, Food, Nutrients};
use besinveri::order::{chars_le, sort_texts};
use besinveri::store::Store;

fn food(description: &str, verified: Option<bool>, tags: &[&str]) -> Food {
    let zero = Amount { bits: 0 };
    Food {
        id: None,
        slug: None,
        description: description.to_owned(),
        verified,
        image_url: String::new(),
        source: String::new(),
        tags: tags.iter().map(|t| t.to_string()).collect(),
        allergens: vec![],
        servings: vec![],
        nutrients: Nutrients {
            glycemic_index: zero,
            energy: zero,
            carbohydrate: zero,
            protein: zero,
            fat: zero,
            saturated_fat: zero,
            trans_fat: zero,
            sugar: zero,
            fiber: zero,
            cholesterol: zero,
            sodium: zero,
            potassium: zero,
            water: zero,
            iron: zero,
            magnesium: zero,
            calcium: zero,
            zinc: zero,
            vitamin_a: zero,
            vitamin_b6: zero,
            vitamin_b12: zero,
            vitamin_c: zero,
            vitamin_d: zero,
            vitamin_e: zero,
            vitamin_k: zero,
        },
    }
}

fn sample_store() -> Store {
    let mut store = Store::new();
    for (name, verified) in [
        ("Portakal", None),
        ("Karpuz", Some(true)),
        ("Gizli", Some(false)),
        ("Makarna", None),
        ("Elma", None),
    ] {
        store.insert_food(food(name, verified, &["gıda"])).unwrap();
    }
    store
}

#[test]
fn food_by_slug() {
    let store = sample_store();
    let found = get_food_handler(&store, "karpuz").unwrap();
    assert_eq!(found.description, "Karpuz");
    assert_eq!(found.id, Some(2));
    assert!(get_food_handler(&store, "gizli").is_ok());
    assert_eq!(
        get_food_handler(&store, "yok"),
        Err(HandlerError { status: 404, message: "Bu yemekle ilgili veriye ulaşılamadı".to_owned() })
    );
}

#[test]
fn listing_is_alphabetical_and_verified_only() {
    let store = sample_store();
    let listing = get_foods_handler(&store, "https://api.besinveri.com");
    let expected: Vec<(String, String)> = ["elma", "karpuz", "makarna", "portakal"]
        .iter()
        .map(|s| (s.to_string(), format!("https://api.besinveri.com/foods/{}", s)))
        .collect();
    assert_eq!(listing, expected);
    assert!(get_foods_handler(&Store::new(), "x").is_empty());
}

#[test]
fn texts_sort_like_strings() {
    let samples = ["b", "a", "", "ab", "a", "B", "çay", "z", "aa", "ç", "\u{10000}", "\u{ffff}", "ab"];
    let input: Vec<String> = samples.iter().map(|s| s.to_string()).collect();
    let mut expected = input.clone();
    expected.sort();
    assert_eq!(sort_texts(&input), expected);
    for a in samples {
        for b in samples {
            let x: Vec<char> = a.chars().collect();
            let y: Vec<char> = b.chars().collect();
            assert_eq!(chars_le(&x, &y), a <= b, "{:?} {:?}", a, b);
        }
    }
}

#[test]
fn search_serves_description_and_name_only() {
    let store = sample_store();
    let names = |r: Result<Vec<Food>, HandlerError>| {
        r.unwrap().into_iter().map(|f| f.description).collect::<Vec<_>>()
    };
    assert_eq!(
        names(get_foods_search_handler(&store, "ka", "description", 10)),
        vec!["Karpuz", "Makarna", "Portakal"]
    );
    assert_eq!(
        names(get_foods_search_handler(&store, "ka", "NAME", 10)),
        vec!["Karpuz", "Makarna", "Portakal"]
    );
    assert_eq!(names(get_foods_search_handler(&store, "ka", "Name", 2)), vec!["Karpuz", "Portakal"]);
    let invalid = Err(HandlerError { status: 400, message: "Geçersiz sorgu!".to_owned() });
    assert_eq!(get_foods_search_handler(&store, "ka", "tag", 10), invalid);
    assert_eq!(get_foods_search_handler(&store, "ka", "", 10), invalid);
    assert_eq!(get_foods_search_handler(&store, "ka", "names", 10), invalid);
    assert!(description_mode("description"));
    assert!(description_mode("name"));
    assert!(!description_mode("Name"));
    assert!(!description_mode("tag"));
}

#[test]
fn discovery_document() {
    let listed = endpoints("https://api.besinveri.com");
    let expected = [
        ("api_health_url", "https://api.besinveri.com/health"),
        ("get_food_url", "https://api.besinveri.com/food/{slug}"),
        ("list_all_foods_url", "https://api.besinveri.com/foods/list"),
        (
            "search_food_url",
            "https://api.besinveri.com/foods/search?q={query}&mode={description, tag}&limit={limit}",
        ),
        ("show_all_tags", "https://api.besinveri.com/tags"),
    ];
    assert_eq!(listed.len(), expected.len());
    for (got, want) in listed.iter().zip(expected.iter()) {
        assert_eq!(got.0, want.0);
        assert_eq!(got.1, want.1);
    }
    let mut names: Vec<&String> = listed.iter().map(|p| &p.0).collect();
    names.sort();
    assert_eq!(names, listed.iter().map(|p| &p.0).collect::<Vec<_>>());
}
