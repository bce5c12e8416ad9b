//! The Krebs on Security source: its listing page and markup shape.

use vstd::prelude::*;

use crate::content::{res_view, ContentItem, SourceConfig, SourceConfigV, SourceError};
use crate::date::MonthStyle;
use crate::extract::{extract_from_page, page_items_spec};

verus! {

/// The extraction rules of the Krebs on Security listing page: plain
/// fetch, absolute links, spelled-out month names.
pub open spec fn krebs_config_spec() -> SourceConfigV {
    SourceConfigV {
        name: "Krebs on Security"@,
        url: "https://krebsonsecurity.com"@,
        base_url: "https://krebsonsecurity.com"@,
        container_query: "#primary article"@,
        title_query: "h2 a"@,
        link_query: "h2 a"@,
        date_query: ".date"@,
        month_style: MonthStyle::Full,
        join_links: false,
        custom_headers: false,
    }
}

pub struct KrebsSource {
    pub config: SourceConfig,
}

impl KrebsSource {
    /// The fixed configuration of this source.
    pub fn default() -> (s: KrebsSource)
        ensures
            s.config@ == krebs_config_spec(),
    {
        KrebsSource {
            config: SourceConfig {
                name: "Krebs on Security".to_owned(),
                url: "https://krebsonsecurity.com".to_owned(),
                base_url: "https://krebsonsecurity.com".to_owned(),
                container_query: "#primary article".to_owned(),
                title_query: "h2 a".to_owned(),
                link_query: "h2 a".to_owned(),
                date_query: ".date".to_owned(),
                month_style: MonthStyle::Full,
                join_links: false,
                custom_headers: false,
            },
        }
    }

    /// Extracts this source's items from its fetched listing page, in
    /// markup document order.
    pub fn extract(&self, page: &str) -> (r: Result<Vec<ContentItem>, SourceError>)
        ensures
            res_view(r) == page_items_spec(page@, self.config@),
    {
        extract_from_page(page, &self.config)
    }
}

} // verus!
