use besinveri::text::{convert_tr_chars_to_en, is_space, join_words, to_kebab_case, to_lower_en_kebab_case};

#[test]
fn test_to_lower_en_kebab_case() {
    assert_eq!(to_lower_en_kebab_case("Çay Kahve"), "cay-kahve");
    assert_eq!(to_lower_en_kebab_case("Şeker Çiğdem"), "seker-cigdem");

    assert_eq!(to_lower_en_kebab_case("BÜYÜK HARF"), "buyuk-harf");

    assert_eq!(to_lower_en_kebab_case("Test @ Çözüm!"), "test-@-cozum!");

    assert_eq!(to_lower_en_kebab_case(""), "");

    assert_eq!(to_lower_en_kebab_case("Gökyüzü"), "gokyuzu");

    assert_eq!(to_lower_en_kebab_case("Çay   Kahve"), "cay-kahve");
}

#[test]
fn test_to_kebab_case() {
    assert_eq!(to_kebab_case("Çay Kahve"), "çay-kahve");

    assert_eq!(to_kebab_case("BÜYÜK HARF"), "büyük-harf");

    assert_eq!(to_kebab_case("Test @ Çözüm!"), "test-@-çözüm!");

    assert_eq!(to_kebab_case(""), "");

    assert_eq!(to_kebab_case("Gökyüzü"), "gökyüzü");

    assert_eq!(to_kebab_case("Çay   Kahve"), "çay-kahve");
}

#[test]
fn test_convert_tr_chars_to_en() {
    assert_eq!(convert_tr_chars_to_en("ÇŞÜĞÖİ"), "CSUGOI");
    assert_eq!(convert_tr_chars_to_en("çşüğöı"), "csugoi");
    assert_eq!(convert_tr_chars_to_en("ÇçŞşÜüĞğÖöİı"), "CcSsUuGgOoIi");

    assert_eq!(convert_tr_chars_to_en("Merhaba Çay"), "Merhaba Cay");

    assert_eq!(convert_tr_chars_to_en(""), "");

    assert_eq!(convert_tr_chars_to_en("Hello World"), "Hello World");

    assert_eq!(convert_tr_chars_to_en("Test@Çözüm!"), "Test@Cozum!");
}

#[test]
fn white_space_is_what_the_standard_library_calls_white_space() {
    let mut code: u32 = 0;
    while code <= 0x10FFFF {
        if let Some(c) = char::from_u32(code) {
            assert_eq!(is_space(c), c.is_whitespace(), "U+{:04X}", code);
        }
        code += 1;
    }
}

#[test]
fn join_words_matches_split_whitespace() {
    let samples = [
        "",
        " ",
        "a",
        " a",
        "a ",
        "  a  b  ",
        "a\tb\nc",
        "a\u{00A0}b",
        "a\u{3000}\u{2003}b",
        "a - b",
        "-",
        "çay   kahve",
    ];
    for s in samples {
        let expected = s.split_whitespace().collect::<Vec<&str>>().join("-");
        assert_eq!(join_words(s), expected, "{:?}", s);
    }
}

#[test]
fn kebab_case_lowers_before_joining() {
    assert_eq!(to_kebab_case("  İYİ  Akşamlar "), "i\u{307}yi\u{307}-akşamlar");
    assert_eq!(to_kebab_case("ΑΣ ΣΑ"), "ας-σα");
}

#[test]
fn slug_collapses_runs_of_white_space() {
    assert_eq!(to_lower_en_kebab_case("a b"), "a-b");
    assert_eq!(to_lower_en_kebab_case("a  b"), "a-b");
    assert_eq!(to_lower_en_kebab_case("a \t\n b"), "a-b");
    assert_eq!(to_lower_en_kebab_case("   "), "");
}

#[test]
fn the_capital_dotted_i_folds_to_a_plain_i() {
    assert_eq!(to_lower_en_kebab_case("İzmir"), "izmir");
    assert_eq!(to_lower_en_kebab_case("IŞIK İLE ILIK"), "isik-ile-ilik");
    assert_eq!(to_lower_en_kebab_case("ıhlamur ÇAYI"), "ihlamur-cayi");
    assert_eq!(to_lower_en_kebab_case("Şiş Köfte ĞÜ"), "sis-kofte-gu");
    assert!(to_lower_en_kebab_case("İİİ ÇÖĞÜŞ ıçöğüş").is_ascii());
}
