use plist::{Dictionary, Value};
use relaunchpad::icon::{choose_icon_path, icon_candidates, icon_resources_dir};

fn dict(pairs: &[(&str, &str)]) -> Dictionary {
    let mut d = Dictionary::new();
    for (k, v) in pairs {
        d.insert(k.to_string(), Value::String(v.to_string()));
    }
    d
}

#[test]
fn candidates_follow_key_order_and_extension() {
    let d = dict(&[("CFBundleIconName", "Named.icns"), ("CFBundleIconFile", "AppIcon")]);
    let c = icon_candidates(&d, "/A/W.app");
    assert_eq!(
        c,
        vec![
            "/A/W.app/Contents/Resources/AppIcon.icns".to_string(),
            "/A/W.app/Contents/Resources/Named.icns".to_string(),
        ]
    );
    assert!(icon_candidates(&Dictionary::new(), "/A/W.app").is_empty());
    assert_eq!(icon_resources_dir("/A/W.app"), "/A/W.app/Contents/Resources");
}

#[test]
fn no_icon_when_nothing_exists() {
    let d = dict(&[("CFBundleIconFile", "AppIcon")]);
    let c = icon_candidates(&d, "/A/W.app");
    assert_eq!(choose_icon_path("/A/W.app", &c, &vec![false], &None), None);
    let listing = Some(vec!["Info.txt".to_string(), "x.png".to_string()]);
    assert_eq!(choose_icon_path("/A/W.app", &c, &vec![false], &listing), None);
}

#[test]
fn first_existing_candidate_wins() {
    let c = vec!["/a.icns".to_string(), "/b.icns".to_string(), "/c.icns".to_string()];
    let listing = Some(vec!["z.icns".to_string()]);
    assert_eq!(choose_icon_path("/A/W.app", &c, &vec![false, true, true], &listing), Some("/b.icns".to_string()));
}

#[test]
fn listing_fallback_takes_first_icns() {
    let c: Vec<String> = vec![];
    let listing = Some(vec!["readme.txt".to_string(), "one.icns".to_string(), "two.icns".to_string()]);
    assert_eq!(
        choose_icon_path("/A/W.app", &c, &vec![], &listing),
        Some("/A/W.app/Contents/Resources/one.icns".to_string())
    );
}
