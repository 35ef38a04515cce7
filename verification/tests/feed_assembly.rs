use gemfeed2atom::feed::{get_entries, get_feed, get_generator, get_links, MAX_ENTRIES};
use gemfeed2atom::select::select_candidates;
use gemfeed2atom::types::{Candidate, RawEntry};

fn doc(first_line: &str) -> Vec<Option<String>> {
    vec![Some(first_line.to_string())]
}

#[test]
fn max_entries_is_ten() {
    assert_eq!(MAX_ENTRIES, 10);
}

#[test]
fn generator_identity() {
    let g = get_generator();
    assert_eq!(g.uri, "https://github.com/mk270/gemfeed2atom");
    assert_eq!(g.version, "1.0.0");
    assert_eq!(g.contents, "gemfeed2atom");
}

#[test]
fn links_self_and_alternate() {
    let links = get_links("gemini://example.org/posts/".to_string());
    assert_eq!(links.len(), 2);
    assert_eq!(links[0].href, "gemini://example.org/posts/atom.xml");
    assert_eq!(links[0].rel, "self");
    assert_eq!(links[1].href, "gemini://example.org/posts/");
    assert_eq!(links[1].rel, "alternate");
}

#[test]
fn entry_id_matches_link_href() {
    let cands = vec![Candidate { name: "2024-01-01.gmi".to_string(), secs: 0, nanos: 0 }];
    let docs = vec![doc("# New year post")];
    let entries = get_entries(cands, docs, "gemini://example.org/posts/");
    assert_eq!(entries.len(), 1);
    assert_eq!(entries[0].id, "gemini://example.org/posts/2024-01-01.gmi");
    assert_eq!(entries[0].link.href, entries[0].id);
    assert_eq!(entries[0].title, "New year post");
}

#[test]
fn epoch_renders_rfc3339() {
    let cands = vec![Candidate { name: "a.gmi".to_string(), secs: 0, nanos: 0 }];
    let docs = vec![doc("# A")];
    let entries = get_entries(cands, docs, "gemini://example.org/");
    assert_eq!(entries[0].updated, "1970-01-01T00:00:00+00:00");
}

#[test]
fn known_timestamp_renders_rfc3339() {
    let cands = vec![Candidate { name: "a.gmi".to_string(), secs: 1431648000, nanos: 0 }];
    let docs = vec![doc("# A")];
    let entries = get_entries(cands, docs, "gemini://example.org/");
    assert_eq!(entries[0].updated, "2015-05-15T00:00:00+00:00");
}

#[test]
fn missing_document_defaults_title() {
    let cands = vec![Candidate { name: "a.gmi".to_string(), secs: 4, nanos: 0 }];
    let docs = vec![Vec::new()];
    let entries = get_entries(cands, docs, "gemini://example.org/");
    assert_eq!(entries[0].title, "No title found");
}

#[test]
fn feed_assembles_all_fields() {
    let listing = vec![
        RawEntry { name: Some("b.gmi".to_string()), mode: 0o644, is_file: true, secs: 20, nanos: 0 },
        RawEntry { name: Some("a.gmi".to_string()), mode: 0o644, is_file: true, secs: 10, nanos: 0 },
    ];
    let cands = select_candidates(listing, MAX_ENTRIES);
    let docs = vec![doc("# Older"), doc("# Newer")];
    let f = get_feed(
        "gemini://example.org/posts/".to_string(),
        "My gemlog".to_string(),
        1431648000,
        0,
        cands,
        docs,
    );
    assert_eq!(f.xmlns, "http://www.w3.org/2005/Atom");
    assert_eq!(f.id, "gemini://example.org/posts/");
    assert_eq!(f.title, "My gemlog");
    assert_eq!(f.updated, "2015-05-15T00:00:00+00:00");
    assert_eq!(f.links.len(), 2);
    assert_eq!(f.links[0].href, "gemini://example.org/posts/atom.xml");
    assert_eq!(f.links[0].rel, "self");
    assert_eq!(f.links[1].href, "gemini://example.org/posts/");
    assert_eq!(f.links[1].rel, "alternate");
    assert_eq!(f.generator.contents, "gemfeed2atom");
    assert_eq!(f.entry.len(), 2);
    assert_eq!(f.entry[0].id, "gemini://example.org/posts/a.gmi");
    assert_eq!(f.entry[0].title, "Older");
    assert_eq!(f.entry[1].id, "gemini://example.org/posts/b.gmi");
    assert_eq!(f.entry[1].title, "Newer");
}

#[test]
fn two_runs_yield_identical_entries() {
    let listing = || {
        vec![
            RawEntry { name: Some("x.gmi".to_string()), mode: 0o644, is_file: true, secs: 3, nanos: 5 },
            RawEntry { name: Some("y.gemini".to_string()), mode: 0o644, is_file: true, secs: 1, nanos: 2 },
        ]
    };
    let docs = || vec![doc("# Y post"), doc("# X post")];
    let e1 = get_entries(
        select_candidates(listing(), MAX_ENTRIES),
        docs(),
        "gemini://example.org/",
    );
    let e2 = get_entries(
        select_candidates(listing(), MAX_ENTRIES),
        docs(),
        "gemini://example.org/",
    );
    assert_eq!(e1.len(), e2.len());
    for (a, b) in e1.iter().zip(e2.iter()) {
        assert_eq!(a.id, b.id);
        assert_eq!(a.title, b.title);
        assert_eq!(a.updated, b.updated);
        assert_eq!(a.link.href, b.link.href);
    }
}
