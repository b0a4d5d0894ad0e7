use har_extract::extract::{
    default_output_dir_name, plan_entry, plan_extraction, CapturedEntry, ExtractionPlan,
};
use har_extract::location::UrlParts;
use har_extract::registry::{get_mimetypes, MimeTypes};
use har_extract::resolve::{resolve, ExtractError, OutputLayoutPolicy};
use har_extract::text::{ends_with, is_safe_segment, is_skippable_segment};

fn policy(domain: bool, path: bool) -> OutputLayoutPolicy {
    OutputLayoutPolicy { use_domain_subfolder: domain, use_path_subfolder: path, path_depth: 0 }
}

fn entry(url: &str, content_type: &str, payload: &str) -> CapturedEntry {
    CapturedEntry {
        url: UrlParts::parse(url).expect("valid url"),
        content_type: content_type.to_string(),
        payload: payload.to_string(),
    }
}

fn parts(host: Option<&str>, segments: &[&str]) -> UrlParts {
    UrlParts {
        host: host.map(|h| h.to_string()),
        segments: Some(segments.iter().map(|s| s.to_string()).collect()),
    }
}

fn places(plan: &ExtractionPlan) -> Vec<(Vec<String>, String)> {
    plan.writes
        .iter()
        .map(|w| (w.destination.relative_dir.clone(), w.destination.filename.clone()))
        .collect()
}

fn photo_destination(domain: bool, path: bool) -> (Vec<String>, String) {
    let types = get_mimetypes();
    let entries = vec![entry("https://img.example.com/a/b/photo", "image/jpeg", "aGVsbG8=")];
    let plan = plan_extraction(&entries, &policy(domain, path), &types);
    assert_eq!(plan.failure, None);
    assert_eq!(plan.writes.len(), 1);
    places(&plan).remove(0)
}

#[test]
fn layout_flat() {
    assert_eq!(photo_destination(false, false), (vec![], "photo.jpg".to_string()));
}

#[test]
fn layout_domain_only() {
    assert_eq!(
        photo_destination(true, false),
        (vec!["img.example.com".to_string()], "photo.jpg".to_string())
    );
}

#[test]
fn layout_domain_and_path() {
    assert_eq!(
        photo_destination(true, true),
        (
            vec!["img.example.com".to_string(), "a".to_string(), "b".to_string()],
            "photo.jpg".to_string()
        )
    );
}

#[test]
fn layout_path_only_resolves() {
    let types = get_mimetypes();
    let url = UrlParts::parse("https://img.example.com/a/b/photo").unwrap();
    let d = resolve(&url, &policy(false, true), &types, ".jpg").unwrap();
    assert_eq!(d.relative_dir, vec!["a".to_string(), "b".to_string()]);
    assert_eq!(d.filename, "photo.jpg");
}

#[test]
fn layout_path_only_is_a_configuration_error_for_a_run() {
    let types = get_mimetypes();
    let entries = vec![entry("https://img.example.com/a/b/photo", "image/jpeg", "aGVsbG8=")];
    let plan = plan_extraction(&entries, &policy(false, true), &types);
    assert_eq!(plan.failure, Some(ExtractError::ConfigurationError));
    assert!(plan.writes.is_empty());
    assert_eq!(plan.tally.total, 0);
    assert_eq!(policy(false, true).validate(), Err(ExtractError::ConfigurationError));
    assert_eq!(policy(true, true).validate(), Ok(()));
    assert_eq!(policy(false, false).validate(), Ok(()));
}

#[test]
fn known_extension_is_not_repeated() {
    let types = get_mimetypes();
    let entries = vec![entry("https://cdn.example.com/img/logo.png", "image/png", "iVBORw0KGgo=")];
    let plan = plan_extraction(&entries, &policy(false, false), &types);
    assert_eq!(places(&plan), vec![(vec![], "logo.png".to_string())]);
}

#[test]
fn any_known_extension_is_kept() {
    let types = get_mimetypes();
    let url = parts(Some("h.example"), &["icon.svg"]);
    let d = resolve(&url, &policy(false, false), &types, ".png").unwrap();
    assert_eq!(d.filename, "icon.svg");
}

#[test]
fn jpeg_extension_is_replaced_by_jpg() {
    let types = get_mimetypes();
    assert_eq!(types.get("image/jpeg"), Some(".jpg".to_string()));
    assert!(!types.has_known_extension("x.jpeg"));
    let url = parts(Some("h.example"), &["x.jpeg"]);
    let d = resolve(&url, &policy(false, false), &types, ".jpg").unwrap();
    assert_eq!(d.filename, "x.jpeg.jpg");
}

#[test]
fn registry_matches_exactly() {
    let types = get_mimetypes();
    assert_eq!(types.get("image/webp"), Some(".webp".to_string()));
    assert_eq!(types.get("image/png"), Some(".png".to_string()));
    assert_eq!(types.get("image/svg+xml"), Some(".svg".to_string()));
    assert_eq!(types.get("image/svg"), None);
    assert_eq!(types.get("image/png; charset=binary"), None);
    assert_eq!(types.get("IMAGE/PNG"), None);
    assert_eq!(types.get("text/html"), None);
}

#[test]
fn registry_insert_replaces() {
    let mut types = MimeTypes::new();
    assert_eq!(types.get("a/b"), None);
    types.insert("a/b", ".x");
    types.insert("a/b", ".y");
    assert_eq!(types.get("a/b"), Some(".y".to_string()));
    assert!(types.has_known_extension("f.y"));
    assert!(!types.has_known_extension("f.x"));
}

#[test]
fn counts_extractable_entries() {
    let types = get_mimetypes();
    let entries = vec![
        entry("https://a.example/x/one", "image/png", "AAEC"),
        entry("https://a.example/page", "text/html", "not base64 at all!"),
        entry("https://a.example/two.webp", "image/webp", ""),
        entry("https://a.example/style.css", "text/css", ""),
    ];
    let plan = plan_extraction(&entries, &policy(true, true), &types);
    assert_eq!(plan.failure, None);
    assert_eq!(plan.tally.total, 4);
    assert_eq!(plan.tally.extracted, 2);
    assert_eq!(
        places(&plan),
        vec![
            (vec!["a.example".to_string(), "x".to_string()], "one.png".to_string()),
            (vec!["a.example".to_string()], "two.webp".to_string()),
        ]
    );
    assert_eq!(plan.writes[0].bytes, vec![0u8, 1, 2]);
    assert!(plan.writes[1].bytes.is_empty());
}

#[test]
fn no_entries_no_writes() {
    let types = get_mimetypes();
    let plan = plan_extraction(&vec![], &policy(false, false), &types);
    assert_eq!(plan.failure, None);
    assert_eq!(plan.tally.total, 0);
    assert_eq!(plan.tally.extracted, 0);
}

#[test]
fn decoded_payload_is_written_unchanged() {
    let types = get_mimetypes();
    let entries = vec![entry("https://a.example/h", "image/png", "aGVsbG8gd29ybGR+Cg==")];
    let plan = plan_extraction(&entries, &policy(false, false), &types);
    assert_eq!(plan.writes[0].bytes, b"hello world~\n".to_vec());
}

#[test]
fn two_runs_give_the_same_files() {
    let types = get_mimetypes();
    let entries = vec![
        entry("https://a.example/p/one", "image/png", "AAEC"),
        entry("https://b.example/q/two.svg", "image/svg+xml", "PHN2Zy8+"),
    ];
    let first = plan_extraction(&entries, &policy(true, true), &types);
    let second = plan_extraction(&entries, &policy(true, true), &types);
    assert_eq!(places(&first), places(&second));
    let bytes = |p: &ExtractionPlan| p.writes.iter().map(|w| w.bytes.clone()).collect::<Vec<_>>();
    assert_eq!(bytes(&first), bytes(&second));
    assert_eq!(first.tally, second.tally);
}

#[test]
fn invalid_payload_stops_after_earlier_writes() {
    let types = get_mimetypes();
    let entries = vec![
        entry("https://a.example/one", "image/png", "AAEC"),
        entry("https://a.example/two", "image/png", "%%%not-base64"),
        entry("https://a.example/three", "image/png", "AAEC"),
    ];
    let plan = plan_extraction(&entries, &policy(false, false), &types);
    assert_eq!(plan.failure, Some(ExtractError::InvalidEncoding));
    assert_eq!(places(&plan), vec![(vec![], "one.png".to_string())]);
    assert_eq!(plan.tally.total, 2);
    assert_eq!(plan.tally.extracted, 1);
}

#[test]
fn missing_host_is_malformed() {
    let types = get_mimetypes();
    let e = CapturedEntry {
        url: parts(None, &["x.png"]),
        content_type: "image/png".to_string(),
        payload: "".to_string(),
    };
    assert!(matches!(plan_entry(&e, &policy(false, false), &types), Err(ExtractError::MalformedUrl)));
}

#[test]
fn url_without_path_is_malformed() {
    let types = get_mimetypes();
    let url = UrlParts::parse("data:image/png;base64,AAEC").unwrap();
    assert_eq!(url.segments, None);
    assert!(resolve(&url, &policy(false, false), &types, ".png").is_err());
    let empty = UrlParts { host: Some("h".to_string()), segments: Some(vec![]) };
    assert!(matches!(
        resolve(&empty, &policy(false, false), &types, ".png"),
        Err(ExtractError::MalformedUrl)
    ));
}

#[test]
fn parent_segment_is_refused() {
    let types = get_mimetypes();
    let url = parts(Some("h.example"), &["a", "..", "x.png"]);
    assert!(matches!(
        resolve(&url, &policy(true, true), &types, ".png"),
        Err(ExtractError::MalformedUrl)
    ));
    // The same URL without the path layout does not use the segment.
    let d = resolve(&url, &policy(true, false), &types, ".png").unwrap();
    assert_eq!(d.relative_dir, vec!["h.example".to_string()]);
}

#[test]
fn empty_and_dot_segments_are_skipped() {
    let types = get_mimetypes();
    let url = parts(Some("h.example"), &["a", "", ".", "b", "x.png"]);
    let d = resolve(&url, &policy(true, true), &types, ".png").unwrap();
    assert_eq!(
        d.relative_dir,
        vec!["h.example".to_string(), "a".to_string(), "b".to_string()]
    );
}

#[test]
fn empty_file_name_gets_extension() {
    let types = get_mimetypes();
    let e = entry("https://h.example/dir/", "image/png", "");
    let w = plan_entry(&e, &policy(false, false), &types).unwrap().unwrap();
    assert_eq!(w.destination.filename, ".png");
}

#[test]
fn separator_in_file_name_is_refused() {
    let types = get_mimetypes();
    let url = parts(Some("h.example"), &["a\\b.png"]);
    assert!(resolve(&url, &policy(false, false), &types, ".png").is_err());
}

#[test]
fn url_parse_reports_host_and_segments() {
    let url = UrlParts::parse("https://img.example.com/a/b/photo?x=1").unwrap();
    assert_eq!(url.host, Some("img.example.com".to_string()));
    assert_eq!(
        url.segments,
        Some(vec!["a".to_string(), "b".to_string(), "photo".to_string()])
    );
    assert!(UrlParts::parse("not a url").is_none());
}

#[test]
fn text_predicates() {
    assert!(ends_with("logo.png", ".png"));
    assert!(!ends_with("png", ".png"));
    assert!(ends_with("abc", ""));
    assert!(is_skippable_segment(""));
    assert!(is_skippable_segment("."));
    assert!(!is_skippable_segment(".."));
    assert!(!is_safe_segment(".."));
    assert!(!is_safe_segment("a/b"));
    assert!(is_safe_segment("..a"));
}

#[test]
fn default_output_dir_name_appends_suffix() {
    assert_eq!(default_output_dir_name("capture"), "capture_extract");
}
