use rustfully_syndicated::content::{SourceConfig, SourceError};
use rustfully_syndicated::darkreading::DarkReadingSource;
use rustfully_syndicated::date::{Date, MonthStyle};
use rustfully_syndicated::extract::{extract_from_page, extract_items, RawArticle};
use rustfully_syndicated::krebs::KrebsSource;

fn example_config() -> SourceConfig {
    SourceConfig {
        name: "Example".to_string(),
        url: "https://example.com/latest".to_string(),
        base_url: "https://example.com".to_string(),
        container_query: ".item".to_string(),
        title_query: "h2 a".to_string(),
        link_query: "h2 a".to_string(),
        date_query: ".date".to_string(),
        month_style: MonthStyle::Abbreviated,
        join_links: false,
        custom_headers: false,
    }
}

fn page(items: &str) -> String {
    format!("<html><body>{}</body></html>", items)
}

#[test]
fn extracts_title_link_and_date() {
    let html = page(
        "<div class=\"item\"><h2><a href=\"https://example.com/a\">First story</a></h2>\
         <span class=\"date\">Mar 5, 2024</span></div>",
    );
    let items = extract_from_page(&html, &example_config()).unwrap();
    assert_eq!(items.len(), 1);
    assert_eq!(items[0].title, "First story".to_string());
    assert_eq!(items[0].link, "https://example.com/a".to_string());
    assert_eq!(items[0].published_at, Date { year: 2024, month: 3, day: 5 });
}

#[test]
fn relative_link_joins_base_url() {
    let mut cfg = example_config();
    cfg.join_links = true;
    let html = page(
        "<div class=\"item\"><h2><a href=\"/article/123\">Story</a></h2>\
         <span class=\"date\">Mar 5, 2024</span></div>",
    );
    let items = extract_from_page(&html, &cfg).unwrap();
    assert_eq!(items[0].link, "https://example.com/article/123".to_string());
}

#[test]
fn no_matching_containers_is_empty_not_error() {
    let html = page("<p>a redesigned page with nothing familiar</p>");
    let items = extract_from_page(&html, &example_config()).unwrap();
    assert!(items.is_empty());
}

#[test]
fn malformed_date_is_a_parse_error_not_a_default() {
    let html = page(
        "<div class=\"item\"><h2><a href=\"/a\">Story</a></h2>\
         <span class=\"date\">yesterday</span></div>",
    );
    assert_eq!(extract_from_page(&html, &example_config()), Err(SourceError::DateParse));
}

#[test]
fn missing_title_fails_the_whole_call() {
    let html = page(
        "<div class=\"item\"><span class=\"date\">Mar 5, 2024</span></div>\
         <div class=\"item\"><h2><a href=\"/b\">Fine</a></h2>\
         <span class=\"date\">Mar 6, 2024</span></div>",
    );
    assert_eq!(extract_from_page(&html, &example_config()), Err(SourceError::MissingTitle));
}

#[test]
fn missing_date_node_fails() {
    let html = page("<div class=\"item\"><h2><a href=\"/a\">Story</a></h2></div>");
    assert_eq!(extract_from_page(&html, &example_config()), Err(SourceError::MissingDate));
}

#[test]
fn invalid_selector_is_reported() {
    let mut cfg = example_config();
    cfg.container_query = "[".to_string();
    assert_eq!(extract_from_page("<html></html>", &cfg), Err(SourceError::BadSelector));
}

#[test]
fn date_text_is_trimmed_before_parsing() {
    let html = page(
        "<div class=\"item\"><h2><a href=\"/a\">Story</a></h2>\
         <span class=\"date\">\n   Mar 5, 2024  \n</span></div>",
    );
    let items = extract_from_page(&html, &example_config()).unwrap();
    assert_eq!(items[0].published_at, Date { year: 2024, month: 3, day: 5 });
}

#[test]
fn extraction_follows_document_order() {
    let html = page(
        "<div class=\"item\"><h2><a href=\"/old\">Old story</a></h2>\
         <span class=\"date\">Mar 1, 2024</span></div>\
         <div class=\"item\"><h2><a href=\"/new\">New story</a></h2>\
         <span class=\"date\">Mar 9, 2024</span></div>",
    );
    let items = extract_from_page(&html, &example_config()).unwrap();
    assert_eq!(items[0].title, "Old story".to_string());
    assert_eq!(items[1].title, "New story".to_string());
}

#[test]
fn empty_title_text_is_rejected() {
    let raws = vec![RawArticle {
        title: Some("".to_string()),
        link: Some("/a".to_string()),
        date_text: Some("Mar 5, 2024".to_string()),
    }];
    assert_eq!(extract_items(&raws, &example_config()), Err(SourceError::EmptyTitle));
}

#[test]
fn missing_link_is_rejected() {
    let raws = vec![RawArticle {
        title: Some("Story".to_string()),
        link: None,
        date_text: Some("Mar 5, 2024".to_string()),
    }];
    assert_eq!(extract_items(&raws, &example_config()), Err(SourceError::MissingLink));
}

#[test]
fn krebs_shaped_page_extracts_with_full_months() {
    let src = KrebsSource::default();
    let html = "<html><body><div id=\"primary\">\
        <article><h2><a href=\"https://krebsonsecurity.com/x\">Krebs story</a></h2>\
        <span class=\"date\">March 5, 2024</span></article>\
        </div></body></html>";
    let items = src.extract(html).unwrap();
    assert_eq!(items.len(), 1);
    assert_eq!(items[0].title, "Krebs story".to_string());
    assert_eq!(items[0].published_at, Date { year: 2024, month: 3, day: 5 });
}

#[test]
fn darkreading_shaped_page_joins_links() {
    let src = DarkReadingSource::default();
    let html = "<html><body><div class=\"ListContent-Body\">\
        <div class=\"ContentPreview\">\
        <a class=\"ListPreview-Title\" href=\"/article/123\">DR story</a>\
        <span class=\"ListPreview-Date\">Mar 5, 2024</span>\
        </div></div></body></html>";
    let items = src.extract(html).unwrap();
    assert_eq!(items.len(), 1);
    assert_eq!(
        items[0].link,
        "https://www.darkreading.com/cyber-risk/data-privacy/article/123".to_string()
    );
}
