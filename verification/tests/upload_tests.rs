use poe_watcher::upload::{classify_upload_response, UploadOutcome};
use poe_watcher::image_proxy::{image_data_url, proxy_host_allowed};
use poe_watcher::api_types::get_ascendancy_name;

#[test]
fn bare_identifier_becomes_the_paste_url() {
    let outcome = classify_upload_response(200, "WtDNCT-adpMf\n");
    assert_eq!(outcome, UploadOutcome::Url("https://pobb.in/WtDNCT-adpMf".to_string()));
}

#[test]
fn surrounding_whitespace_is_trimmed_before_classifying() {
    let outcome = classify_upload_response(200, "  \t abc-id \r\n");
    assert_eq!(outcome, UploadOutcome::Url("https://pobb.in/abc-id".to_string()));
}

#[test]
fn unicode_whitespace_is_trimmed_too() {
    // padding with a non-breaking space and an em space still yields the id
    let outcome = classify_upload_response(200, "\u{A0}\u{2003}abc-id\u{A0}\n");
    assert_eq!(outcome, UploadOutcome::Url("https://pobb.in/abc-id".to_string()));
}

#[test]
fn non_success_status_reports_the_body() {
    let outcome = classify_upload_response(503, "maintenance\n");
    assert_eq!(
        outcome,
        UploadOutcome::HttpError { status: 503, body: "maintenance".to_string() }
    );
}

#[test]
fn json_error_object_yields_its_message() {
    let outcome = classify_upload_response(200, "{\"code\": 422, \"message\": \"invalid build code\"}");
    assert_eq!(outcome, UploadOutcome::JsonError { message: "invalid build code".to_string() });
}

#[test]
fn json_error_without_message_defaults() {
    let outcome = classify_upload_response(200, "{\"code\": 500}");
    assert_eq!(outcome, UploadOutcome::JsonError { message: "Unknown error".to_string() });
}

#[test]
fn json_id_field_becomes_the_paste_url() {
    let outcome = classify_upload_response(200, "{\"id\": \"xyz123\"}");
    assert_eq!(outcome, UploadOutcome::Url("https://pobb.in/xyz123".to_string()));
}

#[test]
fn json_url_field_is_taken_as_is() {
    let outcome = classify_upload_response(200, "{\"url\": \"https://pobb.in/direct\"}");
    assert_eq!(outcome, UploadOutcome::Url("https://pobb.in/direct".to_string()));
}

#[test]
fn malformed_json_is_unrecognized() {
    let outcome = classify_upload_response(200, "{not json at all");
    assert_eq!(
        outcome,
        UploadOutcome::Unrecognized { status: 200, body: "{not json at all".to_string() }
    );
}

#[test]
fn empty_success_body_is_unrecognized() {
    let outcome = classify_upload_response(200, "   ");
    assert_eq!(outcome, UploadOutcome::Unrecognized { status: 200, body: "".to_string() });
}

#[test]
fn only_the_game_image_host_may_be_proxied() {
    assert!(proxy_host_allowed("web.poecdn.com"));
    assert!(!proxy_host_allowed("example.com"));
    assert!(!proxy_host_allowed("web.poecdn.com.evil.example"));
    assert!(!proxy_host_allowed(""));
}

#[test]
fn image_bytes_become_a_base64_data_url() {
    let url = image_data_url("image/png", b"abc");
    assert_eq!(url, "data:image/png;base64,YWJj");
    let url = image_data_url("image/jpeg", &[0xff, 0xd8, 0xff]);
    assert_eq!(url, "data:image/jpeg;base64,/9j/");
}

#[test]
fn ascendancy_names_follow_class_and_number() {
    assert_eq!(get_ascendancy_name("Witch", 1), Some("Necromancer".to_string()));
    assert_eq!(get_ascendancy_name("Witch", 3), Some("Occultist".to_string()));
    assert_eq!(get_ascendancy_name("Scion", 1), Some("Ascendant".to_string()));
    assert_eq!(get_ascendancy_name("Ranger", 2), Some("Deadeye".to_string()));
    // zero means no ascendancy was chosen
    assert_eq!(get_ascendancy_name("Witch", 0), None);
    // out-of-range numbers and unknown classes yield nothing
    assert_eq!(get_ascendancy_name("Scion", 2), None);
    assert_eq!(get_ascendancy_name("Witch", 4), None);
    assert_eq!(get_ascendancy_name("Cleric", 1), None);
}
