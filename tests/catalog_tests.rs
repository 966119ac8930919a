use relaunchpad::catalog::{build_catalog, dedup_entries, sort_by_keys};
use relaunchpad::descriptor::AppInfo;
use relaunchpad::transcode::{embedded_payload, fallback_payload};

fn app(name: &str, id: &str) -> AppInfo {
    AppInfo {
        name: name.to_string(),
        bundle_id: id.to_string(),
        path: format!("/Applications/{}.app", id),
        icon_path: None,
        category: None,
        version: None,
    }
}

fn names(v: &[AppInfo]) -> Vec<String> {
    v.iter().map(|a| a.name.clone()).collect()
}

#[test]
fn catalog_sorted_case_insensitively() {
    let entries = vec![app("safari", "s"), app("Mail", "m"), app("App Store", "a"), app("calendar", "c")];
    let c = build_catalog(&entries);
    assert_eq!(names(&c), vec!["App Store", "calendar", "Mail", "safari"]);
    let mut reversed = entries.clone();
    reversed.reverse();
    assert_eq!(names(&build_catalog(&reversed)), vec!["App Store", "calendar", "Mail", "safari"]);
}

#[test]
fn equal_names_keep_discovery_order() {
    let entries = vec![app("notes", "n1"), app("Notes", "n2"), app("NOTES", "n3")];
    let ids: Vec<String> = build_catalog(&entries).iter().map(|a| a.bundle_id.clone()).collect();
    assert_eq!(ids, vec!["n1", "n2", "n3"]);
}

#[test]
fn duplicate_identifiers_keep_first() {
    let entries = vec![app("Beta", "x"), app("Alpha", "x"), app("Gamma", "y")];
    let d = dedup_entries(&entries);
    assert_eq!(names(&d), vec!["Beta", "Gamma"]);
    assert_eq!(names(&build_catalog(&entries)), vec!["Beta", "Gamma"]);
    assert!(build_catalog(&vec![]).is_empty());
}

#[test]
fn sort_by_given_keys() {
    let items = vec![
        ("b".to_string(), app("first", "1")),
        ("a".to_string(), app("second", "2")),
        ("b".to_string(), app("third", "3")),
    ];
    assert_eq!(names(&sort_by_keys(&items)), vec!["second", "first", "third"]);
}

#[test]
fn fallback_encodes_raw_bytes() {
    assert_eq!(fallback_payload(&b"hello".to_vec(), &None), "aGVsbG8=");
    assert_eq!(fallback_payload(&b"hello".to_vec(), &Some(b"abc".to_vec())), "YWJj");
    assert_eq!(fallback_payload(&vec![], &None), "");
}

#[test]
fn embedded_codec_rejects_unknown_bytes() {
    assert_eq!(embedded_payload(&b"icns-but-not-really".to_vec()), None);
}

#[test]
fn embedded_codec_reencodes_png() {
    let img = image::RgbImage::new(2, 2);
    let mut bytes = std::io::Cursor::new(Vec::new());
    img.write_to(&mut bytes, image::ImageFormat::Png).unwrap();
    let data = bytes.into_inner();
    let payload = embedded_payload(&data).unwrap();
    assert!(payload.starts_with("iVBORw0KGgo"));
    assert_eq!(payload.len() % 4, 0);
}

#[test]
fn blank_discovery_lines_are_skipped() {
    let lines: Vec<String> = vec!["/Applications/A.app", "", "   ", "\t\u{3000}", "/Applications/B C.app", " /x.app "]
        .into_iter()
        .map(|s| s.to_string())
        .collect();
    assert_eq!(
        relaunchpad::catalog::discovered_paths(&lines),
        vec!["/Applications/A.app".to_string(), "/Applications/B C.app".to_string(), " /x.app ".to_string()]
    );
}

#[test]
fn white_space_matches_std() {
    for u in 0u32..0x3100 {
        if let Some(c) = char::from_u32(u) {
            assert_eq!(relaunchpad::text::is_white_char(c), c.is_whitespace(), "code point {:x}", u);
        }
    }
    assert!(relaunchpad::text::is_blank(""));
    assert!(!relaunchpad::text::is_blank(" a "));
}
