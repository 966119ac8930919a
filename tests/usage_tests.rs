use relaunchpad::descriptor::AppInfo;
use relaunchpad::ranking::{get_frequent_apps, MAX_FREQUENT};
use relaunchpad::usage::{record_launch_at, track_app_usage};
use relaunchpad::AppUsage;

fn app(name: &str, id: &str) -> AppInfo {
    AppInfo {
        name: name.to_string(),
        bundle_id: id.to_string(),
        path: format!("/Applications/{}.app", name),
        icon_path: None,
        category: None,
        version: None,
    }
}

fn usage(id: &str, n: u32) -> AppUsage {
    AppUsage { bundle_id: id.to_string(), launch_count: n, last_launched: None }
}

#[test]
fn repeated_launches_count_up() {
    let mut records: Vec<AppUsage> = Vec::new();
    for k in 0..5 {
        record_launch_at(&mut records, "com.a".to_string(), format!("t{}", k));
    }
    assert_eq!(records.len(), 1);
    assert_eq!(records[0].launch_count, 5);
    assert_eq!(records[0].last_launched, Some("t4".to_string()));
}

#[test]
fn launch_of_new_identifier_appends() {
    let mut records = vec![usage("com.a", 3)];
    record_launch_at(&mut records, "com.b".to_string(), "t".to_string());
    assert_eq!(records.len(), 2);
    assert_eq!(records[0].launch_count, 3);
    assert_eq!(records[1].bundle_id, "com.b");
    assert_eq!(records[1].launch_count, 1);
}

#[test]
fn launch_count_saturates() {
    let mut records = vec![usage("com.a", u32::MAX)];
    record_launch_at(&mut records, "com.a".to_string(), "t".to_string());
    assert_eq!(records[0].launch_count, u32::MAX);
}

#[test]
fn tracking_stamps_the_time() {
    let mut records: Vec<AppUsage> = Vec::new();
    track_app_usage(&mut records, "com.a".to_string());
    track_app_usage(&mut records, "com.a".to_string());
    assert_eq!(records[0].launch_count, 2);
    let stamp = records[0].last_launched.clone().unwrap();
    assert!(stamp.len() >= 20);
    assert!(stamp.starts_with("20"));
}

#[test]
fn two_launches_rank_before_one() {
    let mut records: Vec<AppUsage> = Vec::new();
    record_launch_at(&mut records, "a".to_string(), "t1".to_string());
    record_launch_at(&mut records, "a".to_string(), "t2".to_string());
    record_launch_at(&mut records, "b".to_string(), "t3".to_string());
    let catalog = vec![app("Bee", "b"), app("Ant", "a")];
    let r = get_frequent_apps(&records, &catalog);
    let ids: Vec<&str> = r.iter().map(|x| x.bundle_id.as_str()).collect();
    assert_eq!(ids, vec!["a", "b"]);
}

#[test]
fn uninstalled_apps_are_excluded() {
    let records = vec![usage("gone", 50), usage("a", 2)];
    let catalog = vec![app("Ant", "a")];
    let r = get_frequent_apps(&records, &catalog);
    assert_eq!(r.len(), 1);
    assert_eq!(r[0].bundle_id, "a");
    assert!(get_frequent_apps(&records, &vec![]).is_empty());
}

#[test]
fn ranking_ties_keep_usage_order() {
    let records = vec![usage("c", 1), usage("a", 3), usage("b", 1), usage("d", 3)];
    let catalog = vec![app("A", "a"), app("B", "b"), app("C", "c"), app("D", "d")];
    let r = get_frequent_apps(&records, &catalog);
    let ids: Vec<&str> = r.iter().map(|x| x.bundle_id.as_str()).collect();
    assert_eq!(ids, vec!["a", "d", "c", "b"]);
    assert_eq!(r[0].name, "A");
}

#[test]
fn ranking_keeps_at_most_twenty() {
    let mut records = Vec::new();
    let mut catalog = Vec::new();
    for k in 0..25u32 {
        let id = format!("id{}", k);
        records.push(usage(&id, k));
        catalog.push(app(&format!("App{}", k), &id));
    }
    let r = get_frequent_apps(&records, &catalog);
    assert_eq!(MAX_FREQUENT, 20);
    assert_eq!(r.len(), 20);
    assert_eq!(r[0].bundle_id, "id24");
    assert_eq!(r[19].bundle_id, "id5");
}
