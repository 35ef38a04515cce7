use gemfeed2atom::select::select_candidates;
use gemfeed2atom::types::RawEntry;

fn entry(name: &str, secs: i64) -> RawEntry {
    RawEntry { name: Some(name.to_string()), mode: 0o644, is_file: true, secs, nanos: 0 }
}

#[test]
fn empty_listing_yields_no_candidates() {
    let r = select_candidates(Vec::new(), 10);
    assert_eq!(r.len(), 0);
}

#[test]
fn few_eligible_files_all_kept() {
    let listing = vec![entry("a.gmi", 3), entry("b.gmi", 1), entry("c.gemini", 2)];
    let r = select_candidates(listing, 10);
    assert_eq!(r.len(), 3);
}

#[test]
fn many_eligible_files_capped() {
    let mut listing = Vec::new();
    for i in 0..12 {
        listing.push(entry(&format!("post{:02}.gmi", i), i as i64));
    }
    let r = select_candidates(listing, 10);
    assert_eq!(r.len(), 10);
}

#[test]
fn candidates_sorted_ascending_by_time() {
    let listing = vec![entry("new.gmi", 30), entry("old.gmi", 10), entry("mid.gmi", 20)];
    let r = select_candidates(listing, 10);
    let names: Vec<&str> = r.iter().map(|c| c.name.as_str()).collect();
    assert_eq!(names, vec!["old.gmi", "mid.gmi", "new.gmi"]);
}

#[test]
fn truncation_keeps_most_recent() {
    let mut listing = Vec::new();
    for i in 0..12 {
        listing.push(entry(&format!("post{:02}.gmi", i), i as i64));
    }
    let r = select_candidates(listing, 10);
    assert_eq!(r.len(), 10);
    assert_eq!(r[0].name, "post02.gmi");
    assert_eq!(r[0].secs, 2);
    assert_eq!(r[9].name, "post11.gmi");
    assert_eq!(r[9].secs, 11);
}

#[test]
fn equal_timestamps_keep_listing_order() {
    let listing = vec![entry("first.gmi", 7), entry("second.gmi", 7), entry("third.gmi", 7)];
    let r = select_candidates(listing, 10);
    let names: Vec<&str> = r.iter().map(|c| c.name.as_str()).collect();
    assert_eq!(names, vec!["first.gmi", "second.gmi", "third.gmi"]);
}

#[test]
fn nanoseconds_break_second_ties() {
    let listing = vec![
        RawEntry { name: Some("late.gmi".to_string()), mode: 0o644, is_file: true, secs: 5, nanos: 900 },
        RawEntry { name: Some("early.gmi".to_string()), mode: 0o644, is_file: true, secs: 5, nanos: 100 },
    ];
    let r = select_candidates(listing, 10);
    let names: Vec<&str> = r.iter().map(|c| c.name.as_str()).collect();
    assert_eq!(names, vec!["early.gmi", "late.gmi"]);
}

#[test]
fn index_files_excluded() {
    let listing = vec![
        entry("index.gmi", 100),
        entry("index.gemini", 100),
        entry("post.gmi", 1),
    ];
    let r = select_candidates(listing, 10);
    let names: Vec<&str> = r.iter().map(|c| c.name.as_str()).collect();
    assert_eq!(names, vec!["post.gmi"]);
}

#[test]
fn non_world_readable_excluded() {
    let listing = vec![
        RawEntry { name: Some("hidden.gmi".to_string()), mode: 0o640, is_file: true, secs: 9, nanos: 0 },
        entry("open.gmi", 1),
    ];
    let r = select_candidates(listing, 10);
    let names: Vec<&str> = r.iter().map(|c| c.name.as_str()).collect();
    assert_eq!(names, vec!["open.gmi"]);
}

#[test]
fn wrong_extension_excluded() {
    let listing = vec![entry("notes.txt", 5), entry("post.gmi", 1), entry("gmi", 2)];
    let r = select_candidates(listing, 10);
    let names: Vec<&str> = r.iter().map(|c| c.name.as_str()).collect();
    assert_eq!(names, vec!["post.gmi"]);
}

#[test]
fn non_regular_files_excluded() {
    let listing = vec![
        RawEntry { name: Some("dir.gmi".to_string()), mode: 0o755, is_file: false, secs: 9, nanos: 0 },
        entry("file.gmi", 1),
    ];
    let r = select_candidates(listing, 10);
    let names: Vec<&str> = r.iter().map(|c| c.name.as_str()).collect();
    assert_eq!(names, vec!["file.gmi"]);
}

#[test]
fn undecodable_names_excluded() {
    let listing = vec![
        RawEntry { name: None, mode: 0o644, is_file: true, secs: 9, nanos: 0 },
        entry("named.gmi", 1),
    ];
    let r = select_candidates(listing, 10);
    let names: Vec<&str> = r.iter().map(|c| c.name.as_str()).collect();
    assert_eq!(names, vec!["named.gmi"]);
}
