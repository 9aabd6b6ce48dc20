use besinveri::status::{get_status_handler, status_at, ServerStatus, REPORT_OFFSET};

#[test]
fn report_at_the_epoch() {
    let status = get_status_handler("1.2.3", 0, 0).unwrap();
    assert_eq!(
        status,
        ServerStatus {
            name: "BesinVeri API".to_owned(),
            version: "1.2.3".to_owned(),
            status: "iyi".to_owned(),
            documentation: "https://github.com/karahanbuhan/besinveri".to_owned(),
            last_updated: "1970-01-01T03:00:00+03:00".to_owned(),
        }
    );
}

#[test]
fn report_time_is_three_hours_east() {
    assert_eq!(REPORT_OFFSET, 3 * 3600);
    let status = get_status_handler("0.1.0", 1_757_788_955, 785_219_000).unwrap();
    assert_eq!(status.last_updated, "2025-09-13T21:42:35.785219+03:00");
    let late = get_status_handler("0.1.0", 1_767_214_800, 0).unwrap();
    assert_eq!(late.last_updated, "2026-01-01T00:00:00+03:00");
}

#[test]
fn an_instant_out_of_range_has_no_report() {
    assert_eq!(get_status_handler("0.1.0", i64::MAX, 0), None);
    assert_eq!(get_status_handler("0.1.0", i64::MIN, 0), None);
    assert_eq!(get_status_handler("0.1.0", 0, 2_000_000_000), None);
    assert!(get_status_handler("0.1.0", -1, 999_999_999).is_some());
}

#[test]
fn report_for_a_given_time() {
    let status = status_at("9.9.9", "now".to_owned());
    assert_eq!(status.name, "BesinVeri API");
    assert_eq!(status.version, "9.9.9");
    assert_eq!(status.status, "iyi");
    assert_eq!(status.documentation, "https://github.com/karahanbuhan/besinveri");
    assert_eq!(status.last_updated, "now");
}

#[test]
fn test_get_status_handler_success() {
    let now = std::time::SystemTime::now().duration_since(std::time::UNIX_EPOCH).unwrap();
    let expected_last_updated = {
        let utc_time = chrono::DateTime::from_timestamp(now.as_secs() as i64, now.subsec_nanos()).unwrap();
        let turkish_offset = chrono::FixedOffset::east_opt(3 * 3600).unwrap();
        utc_time.with_timezone(&turkish_offset).to_rfc3339()
    };

    let status = get_status_handler("0.1.0", now.as_secs() as i64, now.subsec_nanos()).unwrap();

    assert_eq!(status.name, "BesinVeri API");
    assert_eq!(status.version, "0.1.0");
    assert_eq!(status.status, "iyi");
    assert_eq!(status.documentation, "https://github.com/karahanbuhan/besinveri");
    let actual_last_updated = status.last_updated;
    let expected_time =
        chrono::NaiveDateTime::parse_from_str(&expected_last_updated[..19], "%Y-%m-%dT%H:%M:%S")
            .expect("Zaman formatı hatalı");
    let actual_time =
        chrono::NaiveDateTime::parse_from_str(&actual_last_updated[..19], "%Y-%m-%dT%H:%M:%S")
            .expect("Zaman formatı hatalı");
    let tolerance = chrono::Duration::seconds(1);
    assert!(
        (actual_time - expected_time) <= tolerance && (expected_time - actual_time) <= tolerance,
        "Last updated beklenen aralıkta değil: {} != ~{}",
        actual_last_updated,
        expected_last_updated
    );
}
