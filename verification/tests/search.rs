use besinveri::food::{Amount, Food, Nutrients};
use besinveri::search::{find_first, rank_by_scores, relevance_score, sort_foods_by_relevance, stands_at};

fn food(description: &str) -> Food {
    let zero = Amount { bits: 0 };
    Food {
        id: None,
        slug: None,
        description: description.to_owned(),
        verified: None,
        image_url: String::new(),
        source: String::new(),
        tags: vec![],
        allergens: vec![],
        servings: vec![],
        nutrients: Nutrients {
            glycemic_index: zero,
            energy: zero,
            carbohydrate: zero,
            protein: zero,
            fat: zero,
            saturated_fat: zero,
            trans_fat: zero,
            sugar: zero,
            fiber: zero,
            cholesterol: zero,
            sodium: zero,
            potassium: zero,
            water: zero,
            iron: zero,
            magnesium: zero,
            calcium: zero,
            zinc: zero,
            vitamin_a: zero,
            vitamin_b6: zero,
            vitamin_b12: zero,
            vitamin_c: zero,
            vitamin_d: zero,
            vitamin_e: zero,
            vitamin_k: zero,
        },
    }
}

fn names(foods: &[Food]) -> Vec<&str> {
    foods.iter().map(|f| f.description.as_str()).collect()
}

#[test]
fn scores_follow_the_formula() {
    assert_eq!(relevance_score("karpuz", "ka"), Some(20));
    assert_eq!(relevance_score("portakal", "ka"), Some(3));
    assert_eq!(relevance_score("makarna", "ka"), Some(7));
    assert_eq!(relevance_score("elma", "ka"), None);
    assert_eq!(relevance_score("ka", "ka"), Some(20));
    assert_eq!(relevance_score("k", "ka"), None);
    assert_eq!(relevance_score("", "ka"), None);
    assert_eq!(relevance_score("", ""), Some(20));
    assert_eq!(relevance_score("elma", ""), Some(20));
    assert_eq!(relevance_score("xa", "a"), Some(5));
    assert_eq!(relevance_score("0123456789a", "a"), Some(0));
    assert_eq!(relevance_score("xkaka", "ka"), Some(8));
}

#[test]
fn scores_count_bytes() {
    assert_eq!("çay".len(), 4);
    assert_eq!(relevance_score("çay", "ay"), Some(5));
    assert_eq!(relevance_score("şiş köfte", "köfte"), Some(5));
}

#[test]
fn first_occurrence_on_bytes() {
    assert_eq!(find_first(b"makarna", b"ka"), Some(2));
    assert_eq!(find_first(b"kaka", b"ka"), Some(0));
    assert_eq!(find_first(b"makarna", b""), Some(0));
    assert_eq!(find_first(b"", b""), Some(0));
    assert_eq!(find_first(b"abc", b"abcd"), None);
    assert_eq!(find_first(b"abc", b"c"), Some(2));
    assert!(stands_at(b"abc", b"bc", 1));
    assert!(!stands_at(b"abc", b"bc", 2));
    assert!(stands_at(b"abc", b"", 3));
    assert!(!stands_at(b"abc", b"", 4));
}

#[test]
fn search_ranking() {
    let foods = vec![food("Karpuz"), food("Portakal"), food("Makarna")];
    let ranked = sort_foods_by_relevance(&foods, "ka");
    assert_eq!(names(&ranked), vec!["Karpuz", "Makarna", "Portakal"]);
}

#[test]
fn ranking_ignores_case_of_query_and_description() {
    let foods = vec![food("PORTAKAL"), food("makarna"), food("Karpuz")];
    let ranked = sort_foods_by_relevance(&foods, "KA");
    assert_eq!(names(&ranked), vec!["Karpuz", "makarna", "PORTAKAL"]);
    let turkish = vec![food("Şeker Pancarı"), food("ŞEKER")];
    assert_eq!(names(&sort_foods_by_relevance(&turkish, "şeker")), vec!["Şeker Pancarı", "ŞEKER"]);
}

#[test]
fn ranking_leaves_out_what_does_not_match() {
    let foods = vec![food("Elma"), food("Karpuz"), food("Armut")];
    assert_eq!(names(&sort_foods_by_relevance(&foods, "ka")), vec!["Karpuz"]);
    assert!(sort_foods_by_relevance(&foods, "xyz").is_empty());
    assert!(sort_foods_by_relevance(&vec![], "ka").is_empty());
}

#[test]
fn equal_scores_keep_their_order() {
    let foods = vec![
        food("Kaymak"),
        food("bakan"),
        food("Kabak"),
        food("takas"),
        food("Kavun"),
        food("makas"),
    ];
    let ranked = sort_foods_by_relevance(&foods, "ka");
    assert_eq!(names(&ranked), vec!["Kaymak", "Kabak", "Kavun", "bakan", "takas", "makas"]);
}

#[test]
fn rank_by_given_scores() {
    let foods = vec![food("a"), food("b"), food("c"), food("d"), food("e")];
    let scores = vec![Some(3), None, Some(20), Some(3), Some(0)];
    assert_eq!(names(&rank_by_scores(&foods, &scores)), vec!["c", "a", "d", "e"]);
    let out_of_range = vec![Some(21), Some(5), None, None, None];
    assert_eq!(names(&rank_by_scores(&foods, &out_of_range)), vec!["b"]);
}
