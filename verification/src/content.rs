//! The data model: one syndicated entry, a source's static configuration,
//! the aggregated feed, and the error taxonomy.

use vstd::prelude::*;

use crate::date::{date_valid, Date, MonthStyle};

verus! {

/// One syndicated entry: a non-empty title, an absolute link, and the
/// canonical publication instant. Created during extraction and never
/// mutated afterwards.
#[derive(Clone, Debug, PartialEq, Eq)]
pub struct ContentItem {
    pub title: String,
    pub link: String,
    pub published_at: Date,
}

pub ghost struct ContentItemV {
    pub title: Seq<char>,
    pub link: Seq<char>,
    pub published_at: Date,
}

impl View for ContentItem {
    type V = ContentItemV;

    open spec fn view(&self) -> ContentItemV {
        ContentItemV { title: self.title@, link: self.link@, published_at: self.published_at }
    }
}

impl DeepView for ContentItem {
    type V = ContentItemV;

    open spec fn deep_view(&self) -> ContentItemV {
        self.view()
    }
}

/// What extraction guarantees of every item it emits.
pub open spec fn item_wf(it: ContentItemV) -> bool {
    &&& it.title.len() > 0
    &&& date_valid(it.published_at)
}

/// A source's static extraction rules: where its listing page lives, which
/// nodes are item containers, where title, link and date sit inside one
/// container, how the source spells dates, and its capability flags.
#[derive(Clone, Debug)]
pub struct SourceConfig {
    /// Diagnostic name, attached to fetch failures.
    pub name: String,
    /// The listing page to fetch (one page, no pagination).
    pub url: String,
    /// Base joined in front of relative links when `join_links` is set.
    pub base_url: String,
    /// Selects the item containers of the listing page.
    pub container_query: String,
    /// Selects the title node inside one container.
    pub title_query: String,
    /// Selects the node carrying the item's `href` inside one container.
    pub link_query: String,
    /// Selects the node whose text is the item's date inside one container.
    pub date_query: String,
    /// How this source spells months in its date strings.
    pub month_style: MonthStyle,
    /// The source emits path-only links that need `base_url` in front.
    pub join_links: bool,
    /// The source blocks default clients; fetches need browser-like headers.
    pub custom_headers: bool,
}

pub ghost struct SourceConfigV {
    pub name: Seq<char>,
    pub url: Seq<char>,
    pub base_url: Seq<char>,
    pub container_query: Seq<char>,
    pub title_query: Seq<char>,
    pub link_query: Seq<char>,
    pub date_query: Seq<char>,
    pub month_style: MonthStyle,
    pub join_links: bool,
    pub custom_headers: bool,
}

impl View for SourceConfig {
    type V = SourceConfigV;

    open spec fn view(&self) -> SourceConfigV {
        SourceConfigV {
            name: self.name@,
            url: self.url@,
            base_url: self.base_url@,
            container_query: self.container_query@,
            title_query: self.title_query@,
            link_query: self.link_query@,
            date_query: self.date_query@,
            month_style: self.month_style,
            join_links: self.join_links,
            custom_headers: self.custom_headers,
        }
    }
}

/// Why one source produced no items. A listing page whose markup parses but
/// matches no containers is not an error: it is a valid empty result.
#[derive(Clone, Debug, PartialEq, Eq)]
pub enum SourceError {
    /// Network-layer failure (unreachable host, bad status, timeout),
    /// attributed to the failing source's name.
    Fetch { source: String },
    /// A configured selector is not a valid selector expression.
    BadSelector,
    /// A container had no title node with text.
    MissingTitle,
    /// A container's title text was empty.
    EmptyTitle,
    /// A container had no node carrying an `href`.
    MissingLink,
    /// A container had no date node with text.
    MissingDate,
    /// A container's date text did not match the source's date pattern;
    /// this propagates and is never replaced by a default timestamp.
    DateParse,
}

pub ghost enum SourceErrorV {
    Fetch { source: Seq<char> },
    BadSelector,
    MissingTitle,
    EmptyTitle,
    MissingLink,
    MissingDate,
    DateParse,
}

impl View for SourceError {
    type V = SourceErrorV;

    open spec fn view(&self) -> SourceErrorV {
        match self {
            SourceError::Fetch { source } => SourceErrorV::Fetch { source: source@ },
            SourceError::BadSelector => SourceErrorV::BadSelector,
            SourceError::MissingTitle => SourceErrorV::MissingTitle,
            SourceError::EmptyTitle => SourceErrorV::EmptyTitle,
            SourceError::MissingLink => SourceErrorV::MissingLink,
            SourceError::MissingDate => SourceErrorV::MissingDate,
            SourceError::DateParse => SourceErrorV::DateParse,
        }
    }
}

impl DeepView for SourceError {
    type V = SourceErrorV;

    open spec fn deep_view(&self) -> SourceErrorV {
        self.view()
    }
}

/// Why a whole aggregation produced no feed.
#[derive(Clone, Debug, PartialEq, Eq)]
pub enum AggregationError {
    /// Under the all-or-nothing policy: the first constituent failure.
    SourceFailed(SourceError),
    /// Under the partial-success policy: every configured source failed.
    AllSourcesFailed,
}

pub ghost enum AggregationErrorV {
    SourceFailed(SourceErrorV),
    AllSourcesFailed,
}

impl View for AggregationError {
    type V = AggregationErrorV;

    open spec fn view(&self) -> AggregationErrorV {
        match self {
            AggregationError::SourceFailed(e) => AggregationErrorV::SourceFailed(e@),
            AggregationError::AllSourcesFailed => AggregationErrorV::AllSourcesFailed,
        }
    }
}

impl DeepView for AggregationError {
    type V = AggregationErrorV;

    open spec fn deep_view(&self) -> AggregationErrorV {
        self.view()
    }
}

/// The output artifact: channel metadata plus the merged items, ordered by
/// publication instant, newest first.
#[derive(Clone, Debug, PartialEq, Eq)]
pub struct AggregatedFeed {
    pub channel_title: String,
    pub channel_link: String,
    pub items: Vec<ContentItem>,
}

pub ghost struct AggregatedFeedV {
    pub channel_title: Seq<char>,
    pub channel_link: Seq<char>,
    pub items: Seq<ContentItemV>,
}

impl View for AggregatedFeed {
    type V = AggregatedFeedV;

    open spec fn view(&self) -> AggregatedFeedV {
        AggregatedFeedV {
            channel_title: self.channel_title@,
            channel_link: self.channel_link@,
            items: self.items.deep_view(),
        }
    }
}

impl DeepView for AggregatedFeed {
    type V = AggregatedFeedV;

    open spec fn deep_view(&self) -> AggregatedFeedV {
        self.view()
    }
}

/// A `Result` seen through the deep views of both of its sides.
pub open spec fn res_view<T: DeepView, E: DeepView>(r: Result<T, E>) -> Result<T::V, E::V> {
    match r {
        Ok(t) => Ok(t.deep_view()),
        Err(e) => Err(e.deep_view()),
    }
}

/// What a serializable feed looks like: every item well formed.
pub open spec fn feed_wf(f: AggregatedFeedV) -> bool {
    forall|i: int| 0 <= i < f.items.len() ==> item_wf(#[trigger] f.items[i])
}

} // verus!
