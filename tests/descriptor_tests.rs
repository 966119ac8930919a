use plist::{Dictionary, Value};
use relaunchpad::category::{format_app_category, guess_category_from_path};
use relaunchpad::descriptor::{parse_app_info, read_descriptor, DescriptorError};
use relaunchpad::text::{contains, ends_with, lex_less, str_eq};

fn dict(pairs: &[(&str, &str)]) -> Dictionary {
    let mut d = Dictionary::new();
    for (k, v) in pairs {
        d.insert(k.to_string(), Value::String(v.to_string()));
    }
    d
}

#[test]
fn category_codes_map_to_labels() {
    assert_eq!(format_app_category("public.app-category.productivity"), "Productivity");
    assert_eq!(format_app_category("public.app-category.graphics-design"), "Graphics & Design");
    assert_eq!(format_app_category("public.app-category.developer-tools"), "Developer Tools");
    assert_eq!(format_app_category("public.app-category.entertainment"), "Entertainment");
    assert_eq!(format_app_category("public.app-category.education"), "Education");
    assert_eq!(format_app_category("public.app-category.lifestyle"), "Lifestyle");
    assert_eq!(format_app_category("public.app-category.utilities"), "Utilities");
    assert_eq!(format_app_category("public.app-category.games"), "Games");
    assert_eq!(format_app_category("public.app-category.social-networking"), "Social Networking");
    assert_eq!(format_app_category("public.app-category.finance"), "Finance");
    assert_eq!(format_app_category("public.app-category.photography"), "Photography");
    assert_eq!(format_app_category("public.app-category.music"), "Music");
    assert_eq!(format_app_category("public.app-category.video"), "Video");
}

#[test]
fn unknown_category_code_is_other() {
    assert_eq!(format_app_category("public.app-category.weather"), "Other");
    assert_eq!(format_app_category(""), "Other");
    assert_eq!(format_app_category("public.app-category.productivityx"), "Other");
}

#[test]
fn category_guessed_from_path() {
    assert_eq!(guess_category_from_path("/Applications/Utilities/Terminal.app"), Some("Utilities".to_string()));
    assert_eq!(guess_category_from_path("/Applications/Games/Chess.app"), Some("Games".to_string()));
    assert_eq!(guess_category_from_path("/Applications/Graphics/Paint.app"), Some("Graphics & Design".to_string()));
    assert_eq!(guess_category_from_path("/Applications/Design Tools/X.app"), Some("Graphics & Design".to_string()));
    assert_eq!(guess_category_from_path("/Applications/Utilities/Games.app"), Some("Utilities".to_string()));
    assert_eq!(guess_category_from_path("/Applications/Safari.app"), None);
}

#[test]
fn identifier_only_gives_unnamed_entry() {
    let d = dict(&[("CFBundleIdentifier", "com.x.y")]);
    let a = parse_app_info(&d, "/Applications/Y.app", None).unwrap();
    assert_eq!(a.name, "Unnamed");
    assert_eq!(a.bundle_id, "com.x.y");
    assert_eq!(a.path, "/Applications/Y.app");
    assert_eq!(a.icon_path, None);
    assert_eq!(a.category, None);
    assert_eq!(a.version, None);
}

#[test]
fn bundle_name_alone_is_the_name() {
    let d = dict(&[("CFBundleIdentifier", "com.x.y"), ("CFBundleName", "Widget")]);
    assert_eq!(parse_app_info(&d, "/A/W.app", None).unwrap().name, "Widget");
}

#[test]
fn display_name_takes_priority() {
    let d = dict(&[
        ("CFBundleIdentifier", "com.x.y"),
        ("CFBundleName", "Widget"),
        ("CFBundleDisplayName", "Widget Pro"),
    ]);
    assert_eq!(parse_app_info(&d, "/A/W.app", None).unwrap().name, "Widget Pro");
}

#[test]
fn empty_display_name_falls_back_to_bundle_name() {
    let d = dict(&[("CFBundleIdentifier", "com.x.y"), ("CFBundleName", "Widget"), ("CFBundleDisplayName", "")]);
    assert_eq!(parse_app_info(&d, "/A/W.app", None).unwrap().name, "Widget");
}

#[test]
fn missing_identifier_gives_no_entry() {
    let d = dict(&[("CFBundleName", "Widget"), ("CFBundleShortVersionString", "1.0")]);
    assert!(parse_app_info(&d, "/A/W.app", None).is_none());
    let e = dict(&[("CFBundleIdentifier", ""), ("CFBundleName", "Widget")]);
    assert!(parse_app_info(&e, "/A/W.app", None).is_none());
}

#[test]
fn non_string_identifier_gives_no_entry() {
    let mut d = dict(&[("CFBundleName", "Widget")]);
    d.insert("CFBundleIdentifier".to_string(), Value::Integer(7.into()));
    assert!(parse_app_info(&d, "/A/W.app", None).is_none());
}

#[test]
fn version_and_category_fields() {
    let d = dict(&[
        ("CFBundleIdentifier", "com.x.y"),
        ("CFBundleVersion", "42"),
        ("LSApplicationCategoryType", "public.app-category.music"),
    ]);
    let a = parse_app_info(&d, "/Applications/Utilities/W.app", Some("/i.icns".to_string())).unwrap();
    assert_eq!(a.version, Some("42".to_string()));
    assert_eq!(a.category, Some("Music".to_string()));
    assert_eq!(a.icon_path, Some("/i.icns".to_string()));
    let e = dict(&[
        ("CFBundleIdentifier", "com.x.y"),
        ("CFBundleVersion", "42"),
        ("CFBundleShortVersionString", "1.2"),
    ]);
    let b = parse_app_info(&e, "/Applications/Utilities/W.app", None).unwrap();
    assert_eq!(b.version, Some("1.2".to_string()));
    assert_eq!(b.category, Some("Utilities".to_string()));
}

#[test]
fn descriptor_missing_and_corrupt() {
    assert_eq!(read_descriptor(None).err(), Some(DescriptorError::NotFound));
    assert_eq!(read_descriptor(Some(b"not a plist".to_vec())).err(), Some(DescriptorError::Decode));
    let array_root = b"<?xml version=\"1.0\"?><plist version=\"1.0\"><array><string>a</string></array></plist>";
    assert_eq!(read_descriptor(Some(array_root.to_vec())).err(), Some(DescriptorError::Decode));
}

#[test]
fn descriptor_decodes_xml_dictionary() {
    let xml = b"<?xml version=\"1.0\" encoding=\"UTF-8\"?>
<plist version=\"1.0\"><dict>
<key>CFBundleIdentifier</key><string>com.x.y</string>
<key>CFBundleName</key><string>Widget</string>
</dict></plist>";
    let d = read_descriptor(Some(xml.to_vec())).unwrap();
    let a = parse_app_info(&d, "/A/W.app", None).unwrap();
    assert_eq!(a.bundle_id, "com.x.y");
    assert_eq!(a.name, "Widget");
}

#[test]
fn text_helpers() {
    assert!(str_eq("abc", "abc"));
    assert!(!str_eq("abc", "abd"));
    assert!(!str_eq("abc", "ab"));
    assert!(contains("/Applications/Games/x", "Games"));
    assert!(contains("abc", ""));
    assert!(!contains("Gam", "Games"));
    assert!(ends_with("AppIcon.icns", ".icns"));
    assert!(!ends_with("AppIcon", ".icns"));
    assert!(lex_less("abc", "abd"));
    assert!(lex_less("ab", "abc"));
    assert!(!lex_less("abc", "abc"));
    assert!(!lex_less("b", "abc"));
    assert!(lex_less("z", "é"));
}
