use maimap::extract::{parse_all_store_list, store_entries, ParseError};

fn page(items: &str) -> String {
    format!("<html><body><ul class=\"store_list\">{}</ul></body></html>", items)
}

fn item(name: &str, address: &str) -> String {
    format!(
        "<li><span class=\"store_name\">{}</span><span class=\"store_address\">{}</span></li>",
        name, address
    )
}

#[test]
fn extracts_entries_in_document_order() {
    let html = page(&(item("  Arcade  A ", " Road X ") + &item("ArcadeB", "Road Y")));
    let got = parse_all_store_list(&html).unwrap();
    assert_eq!(
        got,
        vec![
            ("Arcade A".to_string(), "Road X".to_string()),
            ("ArcadeB".to_string(), "Road Y".to_string()),
        ]
    );
}

#[test]
fn extracts_from_every_list() {
    let html = format!(
        "<div><ul class=\"store_list\">{}</ul><ul class=\"store_list\">{}</ul></div>",
        item("A", "1"),
        item("B", "2")
    );
    let got = parse_all_store_list(&html).unwrap();
    assert_eq!(got.len(), 2);
    assert_eq!(got[0].0, "A");
    assert_eq!(got[1].0, "B");
}

#[test]
fn empty_list_gives_no_entries() {
    assert_eq!(parse_all_store_list(&page("")).unwrap(), vec![]);
}

#[test]
fn missing_list_is_refused() {
    let html = "<html><body><ul class=\"other\"></ul></body></html>";
    assert_eq!(parse_all_store_list(html), Err(ParseError::MissingList));
}

#[test]
fn missing_name_is_refused() {
    let html = page(&(item("A", "1") + "<li><span class=\"store_address\">2</span></li>"));
    assert_eq!(parse_all_store_list(&html), Err(ParseError::MissingName));
}

#[test]
fn missing_address_is_refused() {
    let html = page("<li><span class=\"store_name\">A</span></li>");
    assert_eq!(parse_all_store_list(&html), Err(ParseError::MissingAddress));
}

#[test]
fn name_is_checked_before_address() {
    let html = page("<li><b>nothing</b></li>");
    assert_eq!(parse_all_store_list(&html), Err(ParseError::MissingName));
}

#[test]
fn store_entries_takes_first_texts() {
    let lists = vec![vec![(
        vec![" A ".to_string(), "ignored".to_string()],
        vec![" 1 ".to_string(), "ignored".to_string()],
    )]];
    assert_eq!(store_entries(&lists).unwrap(), vec![("A".to_string(), "1".to_string())]);
}

#[test]
fn store_entries_errors() {
    let none: Vec<Vec<(Vec<String>, Vec<String>)>> = vec![];
    assert_eq!(store_entries(&none), Err(ParseError::MissingList));
    let lists = vec![vec![(vec![], vec!["1".to_string()])]];
    assert_eq!(store_entries(&lists), Err(ParseError::MissingName));
    let lists = vec![vec![(vec!["A".to_string()], vec![])]];
    assert_eq!(store_entries(&lists), Err(ParseError::MissingAddress));
}
