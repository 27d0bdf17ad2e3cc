use haval_tool::error::ApiError;
use haval_tool::json::{parse_json, Json};
use haval_tool::releases::{list_haval_releases, read_release, select_releases};
use haval_tool::{parse_github_releases, ReleaseInfo};

#[test]
fn parse_releases_extracts_apk_asset() {
    let body = r#"[
            {
                "tag_name": "v1.2.3",
                "name": "Release 1.2.3",
                "prerelease": false,
                "published_at": "2025-01-01T00:00:00Z",
                "assets": [
                    {"browser_download_url": "https://example.com/readme.txt"},
                    {"browser_download_url": "https://example.com/app-v1.2.3.apk"}
                ]
            },
            {
                "tag_name": "v1.2.2",
                "name": "",
                "prerelease": true,
                "published_at": "2024-12-01T00:00:00Z",
                "assets": [
                    {"browser_download_url": "https://example.com/app-v1.2.2.apk"}
                ]
            }
        ]"#;
    let parsed = parse_github_releases(body);
    assert_eq!(parsed.len(), 2);
    assert_eq!(parsed[0].tag, "v1.2.3");
    assert_eq!(parsed[0].name, "Release 1.2.3");
    assert_eq!(parsed[0].apk_url, "https://example.com/app-v1.2.3.apk");
    assert!(!parsed[0].prerelease);
    // Empty name falls back to tag.
    assert_eq!(parsed[1].name, "v1.2.2");
    assert!(parsed[1].prerelease);
}

#[test]
fn parse_releases_skips_releases_without_apk() {
    let body = r#"[
            {
                "tag_name": "v2.0.0",
                "name": "No APK release",
                "assets": [
                    {"browser_download_url": "https://example.com/notes.md"}
                ]
            },
            {
                "tag_name": "v1.0.0",
                "name": "Good",
                "assets": [
                    {"browser_download_url": "https://example.com/good.apk"}
                ]
            }
        ]"#;
    let parsed = parse_github_releases(body);
    assert_eq!(parsed.len(), 1);
    assert_eq!(parsed[0].tag, "v1.0.0");
}

#[test]
fn parse_releases_handles_malformed_input() {
    assert!(parse_github_releases("not json").is_empty());
    assert!(parse_github_releases("").is_empty());
    assert!(parse_github_releases("{}").is_empty());
    assert!(parse_github_releases("[{\"no_tag\": true}]").is_empty());
}

#[test]
fn parse_releases_case_insensitive_apk_extension() {
    let body = r#"[{
            "tag_name": "v3.0.0",
            "name": "Upper case",
            "assets": [{"browser_download_url": "https://example.com/App.APK"}]
        }]"#;
    let parsed = parse_github_releases(body);
    assert_eq!(parsed.len(), 1);
    assert_eq!(parsed[0].apk_url, "https://example.com/App.APK");
}

#[test]
fn missing_fields_have_defaults() {
    let body = r#"[{
            "tag_name": "v4",
            "prerelease": "yes",
            "published_at": 7,
            "assets": [{"browser_download_url": "u.apk"}]
        }]"#;
    assert_eq!(
        parse_github_releases(body),
        vec![ReleaseInfo {
            tag: "v4".to_string(),
            name: "v4".to_string(),
            apk_url: "u.apk".to_string(),
            prerelease: false,
            published_at: "".to_string(),
        }]
    );
}

#[test]
fn first_apk_is_chosen_and_odd_assets_are_passed_over() {
    let body = r#"[{
            "tag_name": "v5",
            "published_at": "2025-02-03T00:00:00Z",
            "assets": [
                null, 3, {}, {"browser_download_url": false},
                {"browser_download_url": "a.apk.sha256"},
                {"browser_download_url": "b.aPk"},
                {"browser_download_url": "c.apk"}
            ]
        }]"#;
    let parsed = parse_github_releases(body);
    assert_eq!(parsed.len(), 1);
    assert_eq!(parsed[0].apk_url, "b.aPk");
    assert_eq!(parsed[0].published_at, "2025-02-03T00:00:00Z");
}

#[test]
fn extension_goes_by_unicode_lower_case() {
    // The Kelvin sign's lower case is the letter k.
    let body = "[{\"tag_name\": \"v6\", \"assets\": [{\"browser_download_url\": \"a.AP\u{212A}\"}]}]";
    let parsed = parse_github_releases(body);
    assert_eq!(parsed.len(), 1);
    assert_eq!(parsed[0].apk_url, "a.AP\u{212A}");
}

#[test]
fn extension_is_read_behind_any_text() {
    for url in ["é.apk", "Σ.APK", "ΑΣ.aPk", "\u{130}.Apk", "日本.apK"] {
        let body = format!(
            "[{{\"tag_name\": \"v\", \"assets\": [{{\"browser_download_url\": \"{}\"}}]}}]",
            url
        );
        let parsed = parse_github_releases(&body);
        assert_eq!(parsed.len(), 1);
        assert_eq!(parsed[0].apk_url, url);
    }
    let body = "[{\"tag_name\": \"v\", \"assets\": [{\"browser_download_url\": \"é.zip\"}]}]";
    assert!(parse_github_releases(body).is_empty());
}

#[test]
fn releases_without_tag_or_assets_are_left_out() {
    let body = r#"[
            {"tag_name": 1, "assets": [{"browser_download_url": "a.apk"}]},
            {"tag_name": "v1", "assets": {}},
            {"tag_name": "v2"},
            "text",
            {"tag_name": "v3", "assets": [{"browser_download_url": ".apk"}]},
            {"tag_name": "v4", "assets": []}
        ]"#;
    let parsed = parse_github_releases(body);
    assert_eq!(parsed.len(), 1);
    assert_eq!(parsed[0].tag, "v3");
}

#[test]
fn later_member_replaces_earlier_one() {
    let body = r#"[{
            "tag_name": "old", "tag_name": "new",
            "assets": [{"browser_download_url": "a.apk", "browser_download_url": "b.apk"}]
        }]"#;
    let parsed = parse_github_releases(body);
    assert_eq!(parsed[0].tag, "new");
    assert_eq!(parsed[0].apk_url, "b.apk");
}

fn text(s: &str) -> Json {
    Json::Text(s.to_string())
}

fn release(tag: &str, url: &str) -> Json {
    Json::Object(vec![
        ("tag_name".to_string(), text(tag)),
        (
            "assets".to_string(),
            Json::Array(vec![Json::Object(vec![(
                "browser_download_url".to_string(),
                text(url),
            )])]),
        ),
    ])
}

#[test]
fn documents_built_by_hand_are_read() {
    let doc = Json::Array(vec![release("a", "x.apk"), Json::Null, release("b", "y.zip")]);
    let list = select_releases(&doc);
    assert_eq!(list.len(), 1);
    assert_eq!(list[0].tag, "a");
    assert!(select_releases(&Json::Bool(true)).is_empty());
    assert!(select_releases(&Json::Number).is_empty());
    assert!(read_release(&release("b", "y.zip")).is_none());
    let twice = Json::Object(vec![
        ("k".to_string(), text("first")),
        ("k".to_string(), text("second")),
    ]);
    assert_eq!(twice.member_text("k"), Some("second"));
    assert_eq!(twice.member_text("other"), None);
}

#[test]
fn releases_are_judged_one_by_one() {
    let both = select_releases(&Json::Array(vec![release("a", "x.apk"), release("b", "y.apk")]));
    let mut apart = select_releases(&Json::Array(vec![release("a", "x.apk")]));
    apart.extend(select_releases(&Json::Array(vec![release("b", "y.apk")])));
    assert_eq!(both, apart);
}

#[test]
fn json_text_becomes_a_plain_tree() {
    let doc = parse_json(r#"{"a": [null, true, 1.5, "A"], "b": {}}"#).unwrap();
    let items = doc.member("a").unwrap().elements().unwrap();
    assert!(matches!(items[0], Json::Null));
    assert_eq!(items[1].truth(), Some(true));
    assert!(matches!(items[2], Json::Number));
    assert_eq!(items[3].text(), Some("A"));
    assert_eq!(items[3].truth(), None);
    assert!(doc.member("b").unwrap().member("a").is_none());
    assert!(doc.elements().is_none());
    assert!(parse_json("[1, 2").is_none());
    assert!(parse_json("1 2").is_none());
}

#[test]
fn failed_download_lists_nothing() {
    assert_eq!(list_haval_releases(None), Err(ApiError::DownloadFailed));
    assert_eq!(list_haval_releases(Some("oops".to_string())), Ok(vec![]));
    let body = r#"[{"tag_name": "v", "assets": [{"browser_download_url": "v.apk"}]}]"#;
    assert_eq!(list_haval_releases(Some(body.to_string())).unwrap()[0].tag, "v");
}
