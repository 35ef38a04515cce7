use gemfeed2atom::heading::{extract_first_heading, get_title};

fn lines(items: &[Option<&str>]) -> Vec<Option<String>> {
    items.iter().map(|l| l.map(|s| s.to_string())).collect()
}

#[test]
fn hello_world_title() {
    let doc = lines(&[Some("# Hello World")]);
    assert_eq!(get_title(&doc), "Hello World");
}

#[test]
fn markers_and_whitespace_stripped() {
    let doc = lines(&[Some("###   Deep  Title\t ")]);
    assert_eq!(get_title(&doc), "Deep  Title");
}

#[test]
fn no_heading_yields_default() {
    let doc = lines(&[Some("just text"), Some("more text")]);
    assert_eq!(get_title(&doc), "No title found");
}

#[test]
fn empty_document_yields_default() {
    let doc = lines(&[]);
    assert_eq!(get_title(&doc), "No title found");
}

#[test]
fn first_heading_wins() {
    let doc = lines(&[Some("intro"), Some("# First"), Some("# Second")]);
    assert_eq!(get_title(&doc), "First");
}

#[test]
fn undecodable_lines_skipped() {
    let doc = lines(&[None, Some("# After the bad line")]);
    assert_eq!(get_title(&doc), "After the bad line");
}

#[test]
fn heading_marker_must_start_the_line() {
    let doc = lines(&[Some(" # indented")]);
    assert_eq!(get_title(&doc), "No title found");
}

#[test]
fn custom_default_is_returned() {
    let doc = lines(&[Some("nothing here")]);
    assert_eq!(extract_first_heading(&doc, "fallback"), "fallback");
}

#[test]
fn all_markers_of_a_run_are_stripped() {
    let doc = lines(&[Some("##No space after markers")]);
    assert_eq!(extract_first_heading(&doc, "d"), "No space after markers");
}
