use zen_tab::bridge::{
    bridge_request, failure_reply, focus_tab_request, parse_bridge_reply, parse_bridge_request,
    reply_ok, target_request_json,
};
use zen_tab::favicon::{favicon_needs_write, FaviconStep};
use zen_tab::command::{focus_selector, focus_tab_outcome, is_cli_command, open_outcome, parse_command, unknown_target, Command};
use zen_tab::config::{
    default_match, default_open, default_window_class, target_check, target_request,
    validate_config, valid_id, Config, MatchMode, OpenMode, Target,
};
use zen_tab::digest::{hex_digest, to_hex};
use zen_tab::entry::{command, desktop_value, exec_quote, keyword_list};
use zen_tab::favicon::{accept_download, fetch_arguments, image_extension, read_data_url, FaviconCache};
use zen_tab::ids::{new_request_id, temporary_path};
use zen_tab::launcher::{needs_write, reconcile, DesiredEntries, LauncherEntries, Tab};
use zen_tab::native::{extension_action, extension_action_of, frame_message, native_message_length, read_native_message, ExtensionAction};
use zen_tab::paths::{applications_dir, bridge_socket, cache_dir, config_path, join_path, runtime_dir};
use zen_tab::text::{blank, ends_with, starts_with};
use zen_tab::web_url::{check_web_url, parse_web_url, WebUrl};

fn target(url: &str) -> Target {
    Target {
        name: "Mail".to_owned(),
        url: url.to_owned(),
        favicon: None,
        aliases: vec!["inbox".to_owned()],
        match_mode: MatchMode::Origin,
        open: OpenMode::ReuseOrCreate,
        container: None,
    }
}

fn entries() -> LauncherEntries {
    LauncherEntries { directory: "/apps".to_owned(), executable: "/bin/zen-tab".to_owned() }
}

#[test]
fn defaults_are_zen_origin_reuse() {
    assert_eq!(default_window_class(), "zen");
    assert_eq!(default_match(), MatchMode::Origin);
    assert_eq!(default_open(), OpenMode::ReuseOrCreate);
}

#[test]
fn desktop_value_escapes_and_trims() {
    assert_eq!(desktop_value("  a\\b\nc\r "), "a\\\\b c");
    assert_eq!(desktop_value("\u{3000}x\u{a0}"), "x");
    assert_eq!(desktop_value("\n"), "");
}

#[test]
fn exec_quote_escapes_shell_characters() {
    assert_eq!(exec_quote("a\"b`c$d\\e"), "\"a\\\"b\\`c\\$d\\\\e\"");
    assert_eq!(exec_quote(""), "\"\"");
}

#[test]
fn keywords_skip_empty_and_drop_separators() {
    let keywords = vec!["a;b".to_owned(), "".to_owned(), " c ".to_owned()];
    assert_eq!(keyword_list(&keywords), "a b;c");
    assert_eq!(keyword_list(&[]), "");
}

#[test]
fn command_quotes_every_argument() {
    assert_eq!(command("/opt/zen tab/zen-tab", &["open", "mail"]), "\"/opt/zen tab/zen-tab\" \"open\" \"mail\"");
}

#[test]
fn entry_text_is_exact() {
    let text = entries().entry("Mail", &["inbox".to_owned(), "".to_owned()], &["open", "mail"], "zen-browser");
    assert_eq!(
        text,
        "[Desktop Entry]\nType=Application\nName=Mail\nKeywords=inbox;\nExec=\"/bin/zen-tab\" \"open\" \"mail\"\nIcon=zen-browser\nTerminal=false\nCategories=Network;WebBrowser;\nStartupNotify=false\nX-Zen-Tab-Launcher=true\n"
    );
}

#[test]
fn web_urls_are_parsed_by_the_url_crate() {
    let url = parse_web_url("https://Example.COM:8080/path").unwrap();
    assert_eq!(url.scheme, "https");
    assert_eq!(url.host.as_deref(), Some("example.com"));
    assert_eq!(parse_web_url("ftp://example.com").err().unwrap(), "only http and https URLs are supported");
    assert_eq!(parse_web_url("not a url").err().unwrap(), "relative URL without a base");
}

#[test]
fn check_web_url_keeps_only_web_schemes() {
    let ok = WebUrl { scheme: "http".to_owned(), host: None };
    assert!(check_web_url(Ok(ok)).is_ok());
    let bad = WebUrl { scheme: "file".to_owned(), host: None };
    assert_eq!(check_web_url(Ok(bad)).err().unwrap(), "only http and https URLs are supported");
    assert_eq!(check_web_url(Err("boom".to_owned())).err().unwrap(), "boom");
}

#[test]
fn target_ids_are_lowercase_ascii() {
    assert!(valid_id("mail.box-1_x"));
    assert!(!valid_id(""));
    assert!(!valid_id("Mail"));
    assert!(!valid_id("m ail"));
}

#[test]
fn target_check_reports_each_problem() {
    let mut t = target("https://mail.example.com/");
    assert!(target_check("mail", &t, true, true).is_ok());
    assert_eq!(target_check("Mail", &t, true, true).err().unwrap(), "invalid target id: Mail");
    assert_eq!(target_check("mail", &t, false, true).err().unwrap(), "target mail needs an http or https URL");
    t.favicon = Some("x".to_owned());
    assert_eq!(target_check("mail", &t, true, false).err().unwrap(), "target mail favicon must be an http or https URL");
    t.favicon = None;
    t.container = Some(" ".to_owned());
    assert_eq!(target_check("mail", &t, true, true).err().unwrap(), "target mail container must not be empty");
    t.name = " \t".to_owned();
    assert_eq!(target_check("mail", &t, true, true).err().unwrap(), "target mail needs a non-empty name");
}

#[test]
fn validate_config_checks_window_class_then_targets() {
    let config = Config::new("  ".to_owned());
    assert_eq!(validate_config(&config).err().unwrap(), "zenWindowClass must not be empty");
    let mut config = Config::new("zen".to_owned());
    assert!(validate_config(&config).is_ok());
    config.insert_target("mail".to_owned(), target("https://mail.example.com/"));
    assert!(validate_config(&config).is_ok());
    let mut with_favicon = target("https://a.example.com/");
    with_favicon.favicon = Some("file:///icon.png".to_owned());
    config.insert_target("a".to_owned(), with_favicon);
    assert_eq!(validate_config(&config).err().unwrap(), "target a favicon must be an http or https URL");
    config.insert_target("b".to_owned(), target("mailto:x@example.com"));
    assert_eq!(validate_config(&config).err().unwrap(), "target a favicon must be an http or https URL");
}

#[test]
fn config_insert_replaces_same_id() {
    let mut config = Config::new("zen".to_owned());
    config.insert_target("mail".to_owned(), target("https://one.example.com/"));
    config.insert_target("news".to_owned(), target("https://news.example.com/"));
    config.insert_target("mail".to_owned(), target("https://two.example.com/"));
    assert_eq!(config.targets().len(), 2);
    assert_eq!(config.targets()[0].0, "mail");
    assert_eq!(config.target("mail").unwrap().url, "https://two.example.com/");
    assert!(config.target("other").is_none());
    assert_eq!(config.zen_window_class(), "zen");
}

#[test]
fn target_request_names_modes() {
    let mut t = target("https://mail.example.com/");
    t.match_mode = MatchMode::Exact;
    t.open = OpenMode::AlwaysNew;
    t.container = Some("work".to_owned());
    let request = target_request("mail", &t);
    assert_eq!(request.action(), "open-target");
    assert_eq!(request.target_id, "mail");
    assert_eq!(request.url, "https://mail.example.com/");
    assert_eq!(request.match_mode, "exact");
    assert_eq!(request.open, "always-new");
    assert_eq!(request.container.as_deref(), Some("work"));
    assert_eq!(MatchMode::Origin.name(), "origin");
    assert_eq!(OpenMode::Focus.name(), "focus");
    assert_eq!(OpenMode::ReuseOrCreate.name(), "reuse-or-create");
}

#[test]
fn digests_are_lowercase_hex() {
    assert_eq!(hex_digest(b""), "e3b0c44298fc1c149afbf4c8996fb92427ae41e4649b934ca495991b7852b855");
    assert_eq!(hex_digest(b"abc"), "ba7816bf8f01cfea414140de5dae2223b00361a396177a9cb410ff61f20015ad");
    assert_eq!(to_hex(&[0x00, 0xab, 0x0f]), "00ab0f");
}

#[test]
fn image_signatures_are_recognised() {
    assert_eq!(image_extension(b"\x89PNG\r\n\x1a\nrest"), Some("png"));
    assert_eq!(image_extension(b"\xff\xd8\xff"), Some("jpg"));
    assert_eq!(image_extension(b"GIF87a"), Some("gif"));
    assert_eq!(image_extension(b"GIF89a..."), Some("gif"));
    assert_eq!(image_extension(&[0, 0, 1, 0]), Some("ico"));
    assert_eq!(image_extension(b"RIFF\0\0\0\0WEBP"), Some("webp"));
    assert_eq!(image_extension(b"RIFF\0\0\0\0WEB"), None);
    assert_eq!(image_extension(b"<svg"), None);
    assert_eq!(image_extension(b""), None);
}

#[test]
fn data_urls_are_decoded() {
    assert!(read_data_url("https://example.com/icon.png").is_none());
    let (ext, bytes) = read_data_url("data:image/png;base64,iVBORw0KGgo=").unwrap().unwrap().unwrap();
    assert_eq!(ext, "png");
    assert_eq!(bytes, b"\x89PNG\r\n\x1a\n".to_vec());
    assert_eq!(read_data_url("data:image/png;base64").unwrap().err().unwrap(), "invalid favicon data URL");
    assert!(read_data_url("data:image/svg+xml,<svg/>").unwrap().unwrap().is_none());
    assert!(read_data_url("data:text/plain;base64x,aGk=").unwrap().unwrap().is_none());
    assert!(read_data_url("data:text/plain;base64,aGk=").unwrap().unwrap().is_none());
    assert!(read_data_url("data:;base64,***").unwrap().is_err());
}

#[test]
fn downloads_are_checked() {
    assert!(accept_download(false, b"\xff\xd8\xff".to_vec()).is_none());
    assert_eq!(accept_download(true, b"\xff\xd8\xff".to_vec()).unwrap().0, "jpg");
    let mut big = b"\xff\xd8\xff".to_vec();
    big.resize(524289, 0);
    assert!(accept_download(true, big).is_none());
    let args = fetch_arguments("https://e.com/f.ico");
    assert_eq!(args[7], "524288");
    assert_eq!(args[8], "https://e.com/f.ico");
    assert_eq!(args.len(), 9);
}

#[test]
fn favicon_cache_paths() {
    let cache = FaviconCache { directory: "/cache".to_owned() };
    let key = FaviconCache::cache_key("");
    assert_eq!(key, "e3b0c44298fc1c149afbf4c8996fb92427ae41e4649b934ca495991b7852b855");
    let (path, bytes) = cache.stored("k", Some(("png", vec![1]))).unwrap();
    assert_eq!(path, "/cache/k.png");
    assert_eq!(bytes, vec![1]);
    assert!(cache.stored("k", Some(("png", vec![]))).is_none());
    assert!(cache.stored("k", None).is_none());
    let files = vec![
        ("/cache/a.png".to_owned(), Some("a".to_owned())),
        ("/cache/k.ico".to_owned(), Some("k".to_owned())),
        ("/cache/k.png".to_owned(), Some("k".to_owned())),
    ];
    assert_eq!(cache.existing("k", &files).as_deref(), Some("/cache/k.ico"));
    assert!(cache.existing("z", &files).is_none());
    let installed = FaviconCache::installed(&None, &Some("/home/u".to_owned())).unwrap();
    assert_eq!(installed.directory, "/home/u/.cache/zen-tab-launcher/favicons");
    assert_eq!(FaviconCache::installed(&Some("/x".to_owned()), &None).err().unwrap(), "HOME is not set");
}

#[test]
fn paths_follow_the_environment() {
    assert_eq!(join_path("/a", "b"), "/a/b");
    assert_eq!(join_path("/a/", "b"), "/a/b");
    assert_eq!(join_path("", "b"), "b");
    assert_eq!(join_path("/a", "/b"), "/b");
    let home = Some("/home/u".to_owned());
    assert_eq!(config_path(&None, &home).unwrap(), "/home/u/.config/zen-tab-launcher/config.json");
    assert_eq!(config_path(&Some("/xdg".to_owned()), &home).unwrap(), "/xdg/zen-tab-launcher/config.json");
    assert_eq!(config_path(&Some("/xdg".to_owned()), &None).err().unwrap(), "HOME is not set");
    assert_eq!(applications_dir(&Some("/apps".to_owned()), &None, &None).unwrap(), "/apps");
    assert_eq!(applications_dir(&None, &None, &home).unwrap(), "/home/u/.local/share/applications");
    assert_eq!(cache_dir(&None, &home).unwrap(), "/home/u/.cache/zen-tab-launcher/favicons");
    assert_eq!(runtime_dir(&Some("/run/user/1000".to_owned()), b""), "/run/user/1000/zen-tab-launcher");
    assert_eq!(runtime_dir(&None, b""), "/tmp/zen-tab-launcher-e3b0c44298fc/zen-tab-launcher");
    assert_eq!(bridge_socket("/run/x"), "/run/x/bridge.sock");
}

fn header(n: u32) -> [u8; 4] {
    n.to_ne_bytes()
}

fn framed(body: &[u8]) -> Vec<u8> {
    let mut out = header(body.len() as u32).to_vec();
    out.extend_from_slice(body);
    out
}

#[test]
fn native_frames_are_length_prefixed() {
    let mut out = vec![9u8];
    frame_message(&mut out, b"{}");
    let mut expected = vec![9u8];
    expected.extend_from_slice(&framed(b"{}"));
    assert_eq!(out, expected);
    assert_eq!(out.len(), 7);
    assert_eq!(native_message_length(header(1048576)).unwrap(), 1048576);
    assert_eq!(native_message_length(header(0)).unwrap(), 0);
    assert_eq!(native_message_length(header(1048577)).err().unwrap(), "native message exceeds 1 MiB");
    assert_eq!(native_message_length(header(u32::MAX)).err().unwrap(), "native message exceeds 1 MiB");
}

#[test]
fn native_reads_handle_short_and_bad_input() {
    let mut empty: &[u8] = &[];
    assert_eq!(read_native_message(&mut empty).unwrap(), None);
    let mut short: &[u8] = &[1, 0];
    assert_eq!(read_native_message(&mut short).unwrap(), None);
    assert!(short.is_empty());
    let mut too_long_bytes = header(1048577).to_vec();
    too_long_bytes.push(7);
    let mut too_long: &[u8] = &too_long_bytes;
    assert_eq!(read_native_message(&mut too_long).err().unwrap(), "native message exceeds 1 MiB");
    assert_eq!(too_long, &[7]);
    let mut truncated_bytes = header(5).to_vec();
    truncated_bytes.push(b'1');
    let mut truncated: &[u8] = &truncated_bytes;
    assert_eq!(read_native_message(&mut truncated).err().unwrap(), "failed to fill whole buffer");
    assert!(truncated.is_empty());
    let mut two_bytes = framed(b"1");
    two_bytes.extend_from_slice(&framed(b"true"));
    let mut two: &[u8] = &two_bytes;
    assert_eq!(read_native_message(&mut two).unwrap(), Some(serde_json::Value::from(1)));
    assert_eq!(read_native_message(&mut two).unwrap(), Some(serde_json::Value::Bool(true)));
    assert_eq!(read_native_message(&mut two).unwrap(), None);
    let bad_bytes = framed(b"x");
    let mut bad: &[u8] = &bad_bytes;
    assert!(read_native_message(&mut bad).is_err());
    assert!(bad.is_empty());
}

#[test]
fn written_messages_read_back_in_order() {
    let values = vec![
        object(vec![("type", serde_json::Value::from("snapshot")), ("tabs", serde_json::Value::Array(vec![]))]),
        serde_json::Value::from("text"),
        serde_json::Value::Bool(false),
        serde_json::Value::from(42),
        serde_json::Value::Null,
    ];
    let mut wire = Vec::new();
    for value in &values {
        zen_tab::native::write_native_message(&mut wire, value).unwrap();
    }
    let mut input: &[u8] = &wire;
    for value in &values {
        let before = input.len();
        let text_len = serde_json::to_vec(value).unwrap().len();
        assert_eq!(read_native_message(&mut input).unwrap(), Some(value.clone()));
        assert_eq!(before - input.len(), 4 + text_len);
    }
    assert_eq!(read_native_message(&mut input).unwrap(), None);
    assert!(input.is_empty());
}

#[test]
fn extension_messages_are_classified() {
    assert!(matches!(extension_action(Some("snapshot"), None), ExtensionAction::SyncTabs));
    match extension_action(Some("response"), Some("abc")) {
        ExtensionAction::Deliver(id) => assert_eq!(id, "abc"),
        _ => panic!("expected a delivery"),
    }
    assert!(matches!(extension_action(Some("response"), None), ExtensionAction::Ignore));
    assert!(matches!(extension_action(Some("other"), Some("abc")), ExtensionAction::Ignore));
    assert!(matches!(extension_action(None, None), ExtensionAction::Ignore));
}

#[test]
fn extension_messages_are_read_by_their_members() {
    let snapshot = object(vec![("type", serde_json::Value::from("snapshot"))]);
    assert!(matches!(extension_action_of(&snapshot), ExtensionAction::SyncTabs));
    let response = object(vec![
        ("type", serde_json::Value::from("response")),
        ("requestId", serde_json::Value::from("r1")),
    ]);
    match extension_action_of(&response) {
        ExtensionAction::Deliver(id) => assert_eq!(id, "r1"),
        _ => panic!("expected a delivery"),
    }
    let numeric_id = object(vec![
        ("type", serde_json::Value::from("response")),
        ("requestId", serde_json::Value::from(7)),
    ]);
    assert!(matches!(extension_action_of(&numeric_id), ExtensionAction::Ignore));
    let numeric_type = object(vec![("type", serde_json::Value::from(1))]);
    assert!(matches!(extension_action_of(&numeric_type), ExtensionAction::Ignore));
    assert!(matches!(extension_action_of(&serde_json::Value::Null), ExtensionAction::Ignore));
}

#[test]
fn commands_are_parsed() {
    let args = |v: &[&str]| v.iter().map(|s| s.to_string()).collect::<Vec<_>>();
    assert!(matches!(parse_command(&args(&["sync-targets"])), Ok(Command::SyncTargets)));
    assert!(matches!(parse_command(&args(&["clear-entries"])), Ok(Command::ClearEntries)));
    match parse_command(&args(&["focus-tab", "42", "https://e.com"])) {
        Ok(Command::FocusTab { id, url }) => {
            assert_eq!(id, "42");
            assert_eq!(url, "https://e.com");
        }
        _ => panic!("expected focus-tab"),
    }
    match parse_command(&args(&["open", "mail"])) {
        Ok(Command::Open { id }) => assert_eq!(id, "mail"),
        _ => panic!("expected open"),
    }
    let usage = "usage: zen-tab <focus-tab TAB_ID URL|open TARGET|sync-targets|clear-entries>";
    assert_eq!(parse_command(&args(&["open"])).err().unwrap(), usage);
    assert_eq!(parse_command(&args(&["sync-targets", "x"])).err().unwrap(), usage);
    assert_eq!(parse_command(&args(&[])).err().unwrap(), usage);
    assert!(is_cli_command(Some(&"open".to_owned())));
    assert!(!is_cli_command(Some(&"other".to_owned())));
    assert!(!is_cli_command(None));
}

#[test]
fn open_outcomes_follow_the_open_mode() {
    let mut t = target("https://mail.example.com/");
    assert_eq!(open_outcome("mail", &t, true).unwrap(), None);
    assert_eq!(open_outcome("mail", &t, false).unwrap().as_deref(), Some("https://mail.example.com/"));
    t.open = OpenMode::Focus;
    assert_eq!(open_outcome("mail", &t, false).err().unwrap(), "no open tab matches mail");
    assert_eq!(unknown_target("x"), "unknown target: x");
    assert_eq!(focus_selector("zen"), "class:^(zen)$");
}

#[test]
fn focus_tab_falls_back_to_launching_the_url() {
    assert_eq!(focus_tab_outcome("https://e.com/a", true), None);
    assert_eq!(focus_tab_outcome("https://e.com/a", false).as_deref(), Some("https://e.com/a"));
}

#[test]
fn desired_entries_replace_by_name() {
    let mut d = DesiredEntries::new();
    d.insert("a".to_owned(), "1".to_owned());
    d.insert("b".to_owned(), "2".to_owned());
    d.insert("a".to_owned(), "3".to_owned());
    assert_eq!(d.entries().len(), 2);
    assert!(d.contains("a"));
    assert!(!d.contains("c"));
    assert_eq!(d.entries()[0], ("a".to_owned(), "3".to_owned()));
}

#[test]
fn reconcile_removes_only_stale_owned_entries() {
    let mut d = DesiredEntries::new();
    d.insert("zen-tab-live-keep.desktop".to_owned(), "x".to_owned());
    let existing = vec![
        "zen-tab-live-old.desktop".to_owned(),
        "zen-tab-live-keep.desktop".to_owned(),
        "zen-tab-live-notes.txt".to_owned(),
        "zen-tab-target-mail.desktop".to_owned(),
        "firefox.desktop".to_owned(),
    ];
    let plan = reconcile("zen-tab-live-", d, &existing);
    assert_eq!(plan.remove, vec!["zen-tab-live-old.desktop".to_owned()]);
    assert_eq!(plan.write.entries().len(), 1);
    let all = entries().clear_all(&existing);
    assert_eq!(
        all.remove,
        vec![
            "zen-tab-live-old.desktop".to_owned(),
            "zen-tab-live-keep.desktop".to_owned(),
            "zen-tab-target-mail.desktop".to_owned(),
        ]
    );
    let live = entries().clear_live(&existing);
    assert_eq!(live.remove.len(), 2);
    assert!(needs_write(&None, "x"));
    assert!(needs_write(&Some("y".to_owned()), "x"));
    assert!(!needs_write(&Some("x".to_owned()), "x"));
}

#[test]
fn targets_sync_to_entries() {
    let mut config = Config::new("zen".to_owned());
    let mut t = target("https://mail.example.com/");
    t.favicon = Some("https://mail.example.com/favicon.ico".to_owned());
    config.insert_target("mail".to_owned(), t);
    let existing = vec!["zen-tab-target-old.desktop".to_owned(), "zen-tab-live-x.desktop".to_owned()];
    let plan = entries()
        .sync_targets(&config, &vec![Some("/cache/k.ico".to_owned())], &existing)
        .unwrap();
    assert_eq!(plan.remove, vec!["zen-tab-target-old.desktop".to_owned()]);
    let written = plan.write.entries();
    assert_eq!(written.len(), 1);
    assert_eq!(written[0].0, "zen-tab-target-mail.desktop");
    assert!(written[0].1.contains("Keywords=inbox;https://mail.example.com/;mail.example.com;\n"));
    assert!(written[0].1.contains("Exec=\"/bin/zen-tab\" \"open\" \"mail\"\n"));
    assert!(written[0].1.contains("Icon=/cache/k.ico\n"));
    let plain = entries().sync_targets(&config, &vec![None], &Vec::new()).unwrap();
    assert!(plain.write.entries()[0].1.contains("Icon=zen-browser\n"));
    config.insert_target("bad".to_owned(), target("file:///etc/passwd"));
    let failed = entries().sync_targets(&config, &vec![None, None], &existing);
    assert_eq!(failed.err().unwrap(), "only http and https URLs are supported");
}

#[test]
fn tabs_without_url_id_or_title_are_skipped() {
    let tab = |id: &str, title: &str, url: &str| Tab {
        id: id.to_owned(),
        title: title.to_owned(),
        url: url.to_owned(),
        fav_icon_url: None,
    };
    let tabs = vec![
        tab("1", "One", "https://one.example.com/"),
        tab("", "No id", "https://two.example.com/"),
        tab("3", "  ", "https://three.example.com/"),
        tab("4", "Local", "file:///tmp/x"),
        tab("1", "One again", "https://one.example.com/again"),
    ];
    let written = entries().tab_entries(&tabs, &vec![None, None, None, None, Some("/i.png".to_owned())]);
    let list = written.entries();
    assert_eq!(list.len(), 1);
    let digest = hex_digest(b"1");
    assert_eq!(list[0].0, format!("zen-tab-live-{}.desktop", &digest[..16]));
    assert!(list[0].1.contains("Name=One again\n"));
    assert!(list[0].1.contains("Icon=zen-browser\n"));
}

#[test]
fn text_helpers() {
    assert!(blank(" \t\n"));
    assert!(!blank(" x "));
    assert!(starts_with("zen-tab-live-a", "zen-tab-live-"));
    assert!(!starts_with("zen", "zen-tab"));
    assert!(ends_with("a.desktop", ".desktop"));
    assert!(!ends_with("a.desktops", ".desktop"));
}

#[test]
fn random_names_have_uuid_shape() {
    let id = new_request_id();
    assert_eq!(id.len(), 32);
    assert!(id.chars().all(|c| c.is_ascii_hexdigit() && !c.is_ascii_uppercase()));
    assert_eq!(id.as_bytes()[12], b'4');
    let path = temporary_path("/apps");
    assert!(path.starts_with("/apps/.zen-tab-"));
    let name = &path["/apps/.zen-tab-".len()..];
    assert_eq!(name.len(), 36);
    assert_eq!(name.as_bytes()[8], b'-');
    assert_eq!(name.as_bytes()[14], b'4');
    assert_ne!(temporary_path("/apps"), path);
}

#[test]
fn favicon_sources_follow_what_gets_an_entry() {
    let mut config = Config::new("zen".to_owned());
    let mut first = target("https://a.example.com/");
    first.favicon = Some("https://a.example.com/a.ico".to_owned());
    config.insert_target("a".to_owned(), first);
    let mut broken = target("file:///b");
    broken.favicon = Some("https://b.example.com/b.ico".to_owned());
    config.insert_target("b".to_owned(), broken);
    let mut after = target("https://c.example.com/");
    after.favicon = Some("https://c.example.com/c.ico".to_owned());
    config.insert_target("c".to_owned(), after);
    assert_eq!(
        LauncherEntries::target_favicon_sources(&config),
        vec![Some("https://a.example.com/a.ico".to_owned()), None, None]
    );
    let tabs = vec![
        Tab { id: "1".to_owned(), title: "T".to_owned(), url: "https://e.com/".to_owned(), fav_icon_url: Some("i".to_owned()) },
        Tab { id: "".to_owned(), title: "T".to_owned(), url: "https://e.com/".to_owned(), fav_icon_url: Some("j".to_owned()) },
    ];
    assert_eq!(LauncherEntries::tab_favicon_sources(&tabs), vec![Some("i".to_owned()), None]);
}

#[test]
fn quoted_arguments_read_back_unchanged() {
    for original in ["plain", "a \"b\" `c` $d \\e", "", "\\"] {
        let quoted = exec_quote(original);
        assert!(quoted.starts_with('"') && quoted.ends_with('"'));
        let inner: Vec<char> = quoted[1..quoted.len() - 1].chars().collect();
        let mut read = String::new();
        let mut i = 0;
        while i < inner.len() {
            if inner[i] == '\\' && i + 1 < inner.len() {
                read.push(inner[i + 1]);
                i += 2;
            } else {
                read.push(inner[i]);
                i += 1;
            }
        }
        assert_eq!(read, original);
    }
}

#[test]
fn sync_leaves_other_files_and_reaches_the_targets() {
    let mut config = Config::new("zen".to_owned());
    config.insert_target("mail".to_owned(), target("https://mail.example.com/"));
    let existing = vec![
        "zen-tab-target-old.desktop".to_owned(),
        "zen-tab-target-mail.desktop".to_owned(),
        "zen-tab-live-0123456789abcdef.desktop".to_owned(),
        "firefox.desktop".to_owned(),
    ];
    let plan = entries().sync_targets(&config, &vec![None], &existing).unwrap();
    let mut after: Vec<String> = existing.iter().filter(|n| !plan.remove.contains(n)).cloned().collect();
    for (name, _) in plan.write.entries() {
        if !after.contains(name) {
            after.push(name.clone());
        }
    }
    after.sort();
    assert_eq!(
        after,
        vec![
            "firefox.desktop".to_owned(),
            "zen-tab-live-0123456789abcdef.desktop".to_owned(),
            "zen-tab-target-mail.desktop".to_owned(),
        ]
    );
}

#[test]
fn native_bodies_parse_as_json() {
    assert!(zen_tab::native::parse_native_body(b"{\"ok\":true}").is_ok());
    let first = zen_tab::native::parse_native_body(b"{").err().unwrap();
    let second = zen_tab::native::parse_native_body(b"{").err().unwrap();
    assert_eq!(first, second);
    assert!(zen_tab::native::parse_native_body(b"").is_err());
}

fn object(pairs: Vec<(&str, serde_json::Value)>) -> serde_json::Value {
    let mut map = serde_json::Map::new();
    for (key, value) in pairs {
        map.insert(key.to_owned(), value);
    }
    serde_json::Value::Object(map)
}

#[test]
fn bridge_requests_and_replies() {
    let request = parse_bridge_request("{\"action\":\"focus-tab\",\"tabId\":\"7\"}\n").unwrap();
    assert_eq!(request.len(), 2);
    assert!(parse_bridge_request("[1]").is_err());
    assert!(parse_bridge_request("not json").is_err());
    let sent = bridge_request(request, "abc");
    assert_eq!(
        sent,
        object(vec![
            ("action", serde_json::Value::from("focus-tab")),
            ("tabId", serde_json::Value::from("7")),
            ("type", serde_json::Value::from("request")),
            ("requestId", serde_json::Value::from("abc")),
        ])
    );
    let reply = parse_bridge_reply("{\"ok\":true}").unwrap();
    assert!(reply_ok(&reply));
    assert!(!reply_ok(&parse_bridge_reply("{\"ok\":\"true\"}").unwrap()));
    assert!(!reply_ok(&parse_bridge_reply("{}").unwrap()));
    assert!(parse_bridge_reply("").is_err());
    let failure = failure_reply("Zen did not answer within 5 seconds");
    assert_eq!(
        failure,
        object(vec![
            ("ok", serde_json::Value::Bool(false)),
            ("error", serde_json::Value::from("Zen did not answer within 5 seconds")),
        ])
    );
    assert!(!reply_ok(&failure));
    assert_eq!(
        focus_tab_request("42"),
        object(vec![
            ("action", serde_json::Value::from("focus-tab")),
            ("tabId", serde_json::Value::from("42")),
        ])
    );
    let mut t = target("https://mail.example.com/");
    t.container = None;
    assert_eq!(
        target_request_json("mail", &t),
        object(vec![
            ("action", serde_json::Value::from("open-target")),
            ("targetId", serde_json::Value::from("mail")),
            ("url", serde_json::Value::from("https://mail.example.com/")),
            ("match", serde_json::Value::from("origin")),
            ("open", serde_json::Value::from("reuse-or-create")),
            ("container", serde_json::Value::Null),
        ])
    );
}

#[test]
fn written_messages_hold_the_json_text() {
    let value = object(vec![("type", serde_json::Value::from("snapshot"))]);
    let mut out = vec![1u8];
    zen_tab::native::write_native_message(&mut out, &value).unwrap();
    let text = serde_json::to_vec(&value).unwrap();
    let mut expected = vec![1u8];
    expected.extend_from_slice(&(text.len() as u32).to_ne_bytes());
    expected.extend_from_slice(&text);
    assert_eq!(out, expected);
}

#[test]
fn favicon_lookup_finds_kept_files_first() {
    let cache = FaviconCache { directory: "/cache".to_owned() };
    let source = "https://e.com/favicon.ico";
    let key = FaviconCache::cache_key(source);
    match cache.lookup(source, &None) {
        FaviconStep::Fetch(k) => assert_eq!(k, key),
        FaviconStep::Cached(_) => panic!("nothing is cached"),
    }
    let mut files = vec![("/cache/other.png".to_owned(), Some("other".to_owned()))];
    assert!(matches!(cache.lookup(source, &Some(files.clone())), FaviconStep::Fetch(_)));
    let (stored, _) = cache.stored(&key, Some(("ico", vec![0, 0, 1, 0]))).unwrap();
    files.push((stored.clone(), Some(key.clone())));
    match cache.lookup(source, &Some(files.clone())) {
        FaviconStep::Cached(path) => assert_eq!(path, stored),
        FaviconStep::Fetch(_) => panic!("the kept favicon is found"),
    }
    assert!(favicon_needs_write(&None, &[1]));
    assert!(favicon_needs_write(&Some(vec![1, 2]), &[1]));
    assert!(favicon_needs_write(&Some(vec![2]), &[1]));
    assert!(!favicon_needs_write(&Some(vec![1]), &[1]));
}
