use zen_tab::favicon::{read_data_url, FaviconCache};
use zen_tab::launcher::{LauncherEntries, Tab};
use zen_tab::native::{read_native_message, write_native_message};
use zen_tab::web_url::parse_web_url;

fn test_entries(root: &str) -> LauncherEntries {
    LauncherEntries {
        directory: root.to_owned(),
        executable: "/opt/zen tab/zen-tab".to_owned(),
    }
}

#[test]
fn validates_target_urls() {
    assert!(parse_web_url("https://example.com/path").is_ok());
    assert!(parse_web_url("file:///tmp/private").is_err());
}

#[test]
fn live_entry_has_favicon_and_url_fallback() {
    let root = "/tmp/zen-tab-test-entries";
    let favicon_root = format!("{}/icons", root);
    let favicon = FaviconCache {
        directory: favicon_root.clone(),
    };
    let source = "data:image/png;base64,iVBORw0KGgo=";
    let fetched = read_data_url(source).unwrap().unwrap();
    let key = FaviconCache::cache_key(source);
    let (icon, _) = favicon.stored(&key, fetched).unwrap();
    let tabs = vec![Tab {
        id: "42".to_owned(),
        title: "Issue tracker".to_owned(),
        url: "https://github.com/acme/issues".to_owned(),
        fav_icon_url: Some(source.to_owned()),
    }];
    let plan = test_entries(root).sync_tabs(&tabs, &vec![Some(icon)], &Vec::new());
    let written = plan.write.entries();
    assert_eq!(written.len(), 1);
    assert!(written[0].0.ends_with(".desktop"));
    let entry = &written[0].1;
    assert!(entry.contains("Name=Issue tracker"));
    assert!(entry.contains("github.com"));
    assert!(entry.contains("\"focus-tab\" \"42\" \"https://github.com/acme/issues\""));
    assert!(entry.contains(&format!("Icon={}", favicon_root)));
    assert!(!entry.contains("GenericName=Zen tab"));
}

#[test]
fn cleanup_preserves_unowned_entries() {
    let existing = vec!["unrelated.desktop".to_owned()];
    let plan = test_entries("/tmp/zen-tab-test-cleanup").clear_all(&existing);
    assert!(!plan.remove.contains(&"unrelated.desktop".to_owned()));
    assert!(plan.write.entries().is_empty());
}

#[test]
fn native_messages_round_trip() {
    let mut object = serde_json::Map::new();
    object.insert("type".to_owned(), serde_json::Value::String("response".to_owned()));
    object.insert("ok".to_owned(), serde_json::Value::Bool(true));
    let value = serde_json::Value::Object(object);
    let mut bytes = Vec::new();
    write_native_message(&mut bytes, &value).unwrap();
    assert_eq!(read_native_message(&mut bytes.as_slice()).unwrap(), Some(value));
}
