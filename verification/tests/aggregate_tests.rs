use rustfully_syndicated::aggregate::{
    aggregate, default_channel_link, default_channel_title, FanInPolicy,
};
use rustfully_syndicated::content::{AggregationError, ContentItem, SourceError};
use rustfully_syndicated::date::Date;

fn item(title: &str, link: &str, year: u32, month: u32, day: u32) -> ContentItem {
    ContentItem {
        title: title.to_string(),
        link: link.to_string(),
        published_at: Date { year, month, day },
    }
}

fn titles(items: &[ContentItem]) -> Vec<String> {
    items.iter().map(|i| i.title.clone()).collect()
}

#[test]
fn three_sources_merge_into_five_sorted_items() {
    let results = vec![
        Ok(vec![item("a1", "l", 2024, 3, 1), item("a2", "l", 2024, 3, 7)]),
        Ok(vec![]),
        Ok(vec![
            item("b1", "l", 2024, 3, 5),
            item("b2", "l", 2024, 2, 28),
            item("b3", "l", 2024, 3, 9),
        ]),
    ];
    let feed = aggregate(
        results,
        FanInPolicy::PartialSuccess,
        default_channel_title(),
        default_channel_link(),
    )
    .unwrap();
    assert_eq!(feed.items.len(), 5);
    assert_eq!(titles(&feed.items), vec!["b3", "a2", "b1", "a1", "b2"]);
    for w in feed.items.windows(2) {
        let a = &w[0].published_at;
        let b = &w[1].published_at;
        assert!((a.year, a.month, a.day) >= (b.year, b.month, b.day));
    }
}

#[test]
fn one_failure_blanks_the_feed_under_all_or_nothing() {
    let results = vec![
        Ok(vec![item("a1", "l", 2024, 3, 1)]),
        Err(SourceError::Fetch { source: "Dark Reading".to_string() }),
        Ok(vec![item("c1", "l", 2024, 3, 2)]),
    ];
    assert_eq!(
        aggregate(
            results,
            FanInPolicy::AllOrNothing,
            default_channel_title(),
            default_channel_link(),
        ),
        Err(AggregationError::SourceFailed(SourceError::Fetch {
            source: "Dark Reading".to_string()
        }))
    );
}

#[test]
fn one_failure_keeps_the_rest_under_partial_success() {
    let results = vec![
        Ok(vec![item("a1", "l", 2024, 3, 1)]),
        Err(SourceError::Fetch { source: "Dark Reading".to_string() }),
        Ok(vec![item("c1", "l", 2024, 3, 2)]),
    ];
    let feed = aggregate(
        results,
        FanInPolicy::PartialSuccess,
        default_channel_title(),
        default_channel_link(),
    )
    .unwrap();
    assert_eq!(titles(&feed.items), vec!["c1", "a1"]);
}

#[test]
fn identical_inputs_yield_identical_feeds() {
    let make = || {
        vec![
            Ok(vec![item("a1", "l1", 2024, 3, 1), item("a2", "l2", 2024, 3, 5)]),
            Err(SourceError::DateParse),
            Ok(vec![item("c1", "l3", 2024, 3, 5)]),
        ]
    };
    let f1 = aggregate(
        make(),
        FanInPolicy::PartialSuccess,
        default_channel_title(),
        default_channel_link(),
    )
    .unwrap();
    let f2 = aggregate(
        make(),
        FanInPolicy::PartialSuccess,
        default_channel_title(),
        default_channel_link(),
    )
    .unwrap();
    assert_eq!(f1, f2);
}

#[test]
fn all_sources_failing_fails_the_request() {
    let results: Vec<Result<Vec<ContentItem>, SourceError>> = vec![
        Err(SourceError::Fetch { source: "a".to_string() }),
        Err(SourceError::Fetch { source: "b".to_string() }),
    ];
    assert_eq!(
        aggregate(
            results,
            FanInPolicy::PartialSuccess,
            default_channel_title(),
            default_channel_link(),
        ),
        Err(AggregationError::AllSourcesFailed)
    );
}

#[test]
fn first_failure_is_the_reported_one() {
    let results: Vec<Result<Vec<ContentItem>, SourceError>> =
        vec![Err(SourceError::MissingTitle), Err(SourceError::DateParse)];
    assert_eq!(
        aggregate(
            results,
            FanInPolicy::AllOrNothing,
            default_channel_title(),
            default_channel_link(),
        ),
        Err(AggregationError::SourceFailed(SourceError::MissingTitle))
    );
}

#[test]
fn no_sources_gives_an_empty_feed() {
    let feed = aggregate(
        vec![],
        FanInPolicy::PartialSuccess,
        default_channel_title(),
        default_channel_link(),
    )
    .unwrap();
    assert!(feed.items.is_empty());
    assert_eq!(feed.channel_title, "Rustfully syndicated".to_string());
    assert_eq!(feed.channel_link, "http://localhost:3000".to_string());
}

#[test]
fn equal_instants_keep_merge_order() {
    let results = vec![
        Ok(vec![item("first source", "l1", 2024, 3, 5), item("same source later", "l2", 2024, 3, 5)]),
        Ok(vec![item("second source", "l3", 2024, 3, 5)]),
    ];
    let feed = aggregate(
        results,
        FanInPolicy::PartialSuccess,
        default_channel_title(),
        default_channel_link(),
    )
    .unwrap();
    assert_eq!(titles(&feed.items), vec!["first source", "same source later", "second source"]);
}

#[test]
fn duplicates_across_sources_are_both_kept() {
    let results = vec![
        Ok(vec![item("same story", "same link", 2024, 3, 5)]),
        Ok(vec![item("same story", "same link", 2024, 3, 5)]),
    ];
    let feed = aggregate(
        results,
        FanInPolicy::PartialSuccess,
        default_channel_title(),
        default_channel_link(),
    )
    .unwrap();
    assert_eq!(feed.items.len(), 2);
}
