use besinveri::api::{get_food_handler, HandlerError};
use besinveri::error::{
    boundary_error_with, envelope, escape_quotes, fallback_envelope, handle_axum_rejections,
    handle_rejections, APIError, ErrorReply, Rejection,
};
use besinveri::store::Store;

#[test]
fn an_error_answers_with_its_envelope() {
    let reply = APIError::new(404, "Bulunamadı").into_response();
    assert_eq!(
        reply,
        ErrorReply {
            status: 404,
            content_type: "application/json".to_owned(),
            body: "{\"code\":404,\"message\":\"Bulunamadı\"}".to_owned(),
        }
    );
}

#[test]
fn the_message_is_written_as_a_json_string() {
    let error = APIError::new(400, "say \"hi\"\n\\ (tab\t)");
    assert_eq!(error.body(), "{\"code\":400,\"message\":\"say \\\"hi\\\"\\n\\\\ (tab\\t)\"}");
    let parsed: serde_json::Value = serde_json::from_str(&error.body()).unwrap();
    assert_eq!(parsed["code"].as_u64(), Some(400));
    assert_eq!(parsed["message"].as_str(), Some("say \"hi\"\n\\ (tab\t)"));
}

#[test]
fn a_code_that_is_no_status_goes_out_as_500() {
    assert_eq!(APIError::new(404, "x").status(), 404);
    assert_eq!(APIError::new(100, "x").status(), 100);
    assert_eq!(APIError::new(999, "x").status(), 999);
    assert_eq!(APIError::new(99, "x").status(), 500);
    assert_eq!(APIError::new(1000, "x").status(), 500);
    assert_eq!(APIError::new(0, "x").status(), 500);
    let reply = APIError::new(42, "x").into_response();
    assert_eq!(reply.status, 500);
    assert_eq!(reply.body, "{\"code\":500,\"message\":\"x\"}");
    assert_eq!(APIError::new(1000, "x").body(), "{\"code\":500,\"message\":\"x\"}");
}

#[test]
fn envelope_by_hand() {
    assert_eq!(envelope(404, "\"yok\""), "{\"code\":404,\"message\":\"yok\"}");
    assert_eq!(escape_quotes("a\"b\"\"c"), "a\\\"b\\\"\\\"c");
    assert_eq!(escape_quotes(""), "");
    assert_eq!(
        fallback_envelope(500, "bad \"value\""),
        "{\"code\": 500, \"message\": \"Serde JSON serileştirme başarısız oldu: bad \\\"value\\\"\"}"
    );
}

#[test]
fn describe_names_message_and_code() {
    assert_eq!(APIError::new(404, "Bulunamadı").describe(), "Bulunamadı (Kod: 404)");
}

#[test]
fn client_and_server_errors_are_rewritten() {
    assert_eq!(
        handle_axum_rejections(404),
        Some(APIError { code: 404, message: "İstemci hatası: Not Found".to_owned() })
    );
    assert_eq!(
        handle_axum_rejections(400),
        Some(APIError { code: 400, message: "İstemci hatası: Bad Request".to_owned() })
    );
    assert_eq!(
        handle_axum_rejections(500),
        Some(APIError { code: 500, message: "Sunucu hatası: Internal Server Error".to_owned() })
    );
    assert_eq!(
        handle_axum_rejections(499),
        Some(APIError { code: 499, message: "İstemci hatası: Tanımsız davranış".to_owned() })
    );
    assert_eq!(
        handle_axum_rejections(599),
        Some(APIError { code: 599, message: "Sunucu hatası: Tanımsız davranış".to_owned() })
    );
}

#[test]
fn other_answers_pass_the_boundary() {
    for status in [100u16, 200, 204, 301, 399, 600, 999, 0, 1000] {
        assert_eq!(handle_axum_rejections(status), None);
    }
    assert_eq!(boundary_error_with(200, Some("OK".to_owned())), None);
    assert_eq!(
        boundary_error_with(418, Some("I'm a teapot".to_owned())),
        Some(APIError { code: 418, message: "İstemci hatası: I'm a teapot".to_owned() })
    );
    assert_eq!(
        boundary_error_with(503, None),
        Some(APIError { code: 503, message: "Sunucu hatası: Tanımsız davranış".to_owned() })
    );
}

#[test]
fn rejections_become_errors() {
    assert_eq!(
        handle_rejections(Rejection::QueryString("missing field `limit`".to_owned())),
        APIError {
            code: 400,
            message: "Sorgu ters serileştirilirken bir problem oluştu missing field `limit`"
                .to_owned(),
        }
    );
    assert_eq!(
        handle_rejections(Rejection::Query),
        APIError { code: 400, message: "Geçeriz sorgu".to_owned() }
    );
    assert_eq!(
        handle_rejections(Rejection::Other),
        APIError { code: 500, message: "Teknik bir hata oluştu".to_owned() }
    );
}

#[test]
fn unknown_slug_answers_404_with_an_envelope() {
    let store = Store::new();
    let failure = get_food_handler(&store, "does-not-exist").unwrap_err();
    assert_eq!(
        failure,
        HandlerError { status: 404, message: "Bu yemekle ilgili veriye ulaşılamadı".to_owned() }
    );
    let error = handle_axum_rejections(failure.status).unwrap();
    let reply = error.into_response();
    assert_eq!(reply.status, 404);
    assert_eq!(reply.content_type, "application/json");
    let parsed: serde_json::Value = serde_json::from_str(&reply.body).unwrap();
    assert_eq!(parsed["code"].as_u64(), Some(404));
    assert!(!parsed["message"].as_str().unwrap().is_empty());
    assert_eq!(parsed.as_object().unwrap().len(), 2);
}

#[test]
fn the_code_of_the_envelope_is_the_status_of_the_answer() {
    for code in [0u16, 42, 99, 100, 200, 404, 500, 999, 1000, u16::MAX] {
        let error = APIError::new(code, "mesaj \"x\"");
        let reply = error.clone().into_response();
        let parsed: serde_json::Value = serde_json::from_str(&reply.body).unwrap();
        assert_eq!(parsed["code"].as_u64(), Some(u64::from(reply.status)));
        assert_eq!(parsed["message"].as_str(), Some("mesaj \"x\""));
        assert_eq!(reply.body, error.body());
    }
}

#[test]
fn the_body_follows_what_became_of_the_message() {
    let error = APIError::new(42, "a\"b");
    assert_eq!(
        error.body_with(Some("\"a\\\"b\"".to_owned())),
        "{\"code\":500,\"message\":\"a\\\"b\"}"
    );
    assert_eq!(
        error.body_with(None),
        "{\"code\": 500, \"message\": \"Serde JSON serileştirme başarısız oldu: a\\\"b\"}"
    );
}
