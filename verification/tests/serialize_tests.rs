use rustfully_syndicated::content::{AggregatedFeed, ContentItem};
use rustfully_syndicated::date::{format_rfc2822, Date};
use rustfully_syndicated::serialize::{feed_ready, media_type, serialize};

fn item(title: &str, link: &str, year: u32, month: u32, day: u32) -> ContentItem {
    ContentItem {
        title: title.to_string(),
        link: link.to_string(),
        published_at: Date { year, month, day },
    }
}

fn feed(items: Vec<ContentItem>) -> AggregatedFeed {
    AggregatedFeed {
        channel_title: "Rustfully syndicated".to_string(),
        channel_link: "http://localhost:3000".to_string(),
        items,
    }
}

#[test]
fn one_item_document_is_exactly_as_specified() {
    let f = feed(vec![item("Hello", "https://example.com/a", 2024, 3, 5)]);
    assert!(feed_ready(&f));
    assert_eq!(
        serialize(&f),
        "<?xml version=\"1.0\" encoding=\"utf-8\"?><rss version=\"2.0\"><channel>\
         <title>Rustfully syndicated</title><link>http://localhost:3000</link>\
         <description></description><item><title>Hello</title>\
         <link>https://example.com/a</link>\
         <pubDate>Tue, 05 Mar 2024 00:00:00 +0000</pubDate></item></channel></rss>"
            .to_string()
    );
}

#[test]
fn declared_media_type() {
    assert_eq!(media_type(), "application/xml".to_string());
}

#[test]
fn markup_characters_are_escaped() {
    let f = feed(vec![item("Fish & <Chips>", "https://example.com/?a=1&b=2", 2024, 3, 5)]);
    let doc = serialize(&f);
    assert!(doc.contains("<title>Fish &amp; &lt;Chips&gt;</title>"));
    assert!(doc.contains("<link>https://example.com/?a=1&amp;b=2</link>"));
}

#[test]
fn round_trip_recovers_titles_links_and_timestamps() {
    let f = feed(vec![
        item("Fish & <Chips>", "https://example.com/?a=1&b=2", 2024, 3, 9),
        item("Plain story", "https://example.com/b", 2023, 12, 31),
    ]);
    let doc = serialize(&f);
    let channel = rss::Channel::read_from(doc.as_bytes()).unwrap();
    assert_eq!(channel.title(), "Rustfully syndicated");
    assert_eq!(channel.link(), "http://localhost:3000");
    assert_eq!(channel.items().len(), 2);
    for (got, want) in channel.items().iter().zip(f.items.iter()) {
        assert_eq!(got.title(), Some(want.title.as_str()));
        assert_eq!(got.link(), Some(want.link.as_str()));
        assert_eq!(got.pub_date(), Some(format_rfc2822(&want.published_at).as_str()));
    }
}

#[test]
fn empty_feed_round_trips() {
    let f = feed(vec![]);
    let doc = serialize(&f);
    let channel = rss::Channel::read_from(doc.as_bytes()).unwrap();
    assert_eq!(channel.title(), "Rustfully syndicated");
    assert!(channel.items().is_empty());
}

#[test]
fn whole_response_path_renders_the_merged_feed() {
    let results = vec![
        Ok(vec![item("Old", "https://example.com/o", 2024, 3, 1)]),
        Ok(vec![item("New", "https://example.com/n", 2024, 3, 9)]),
    ];
    let doc = rustfully_syndicated::serialize::feed_document(
        results,
        rustfully_syndicated::aggregate::FanInPolicy::PartialSuccess,
        "Rustfully syndicated".to_string(),
        "http://localhost:3000".to_string(),
    )
    .unwrap();
    let channel = rss::Channel::read_from(doc.as_bytes()).unwrap();
    assert_eq!(channel.items().len(), 2);
    assert_eq!(channel.items()[0].title(), Some("New"));
    assert_eq!(channel.items()[1].title(), Some("Old"));
}

#[test]
fn feed_ready_rejects_an_impossible_date() {
    let f = feed(vec![item("Story", "https://example.com/a", 2024, 2, 30)]);
    assert!(!feed_ready(&f));
}
