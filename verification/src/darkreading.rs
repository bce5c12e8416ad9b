//! The Dark Reading source: its listing page and markup shape.

use vstd::prelude::*;

use crate::content::{res_view, ContentItem, SourceConfig, SourceConfigV, SourceError};
use crate::date::MonthStyle;
use crate::extract::{extract_from_page, page_items_spec};

verus! {

/// The extraction rules of the Dark Reading data-privacy listing page:
/// fetched with browser-like headers (the site blocks default clients),
/// path-only links joined onto the page URL, abbreviated month names.
pub open spec fn darkreading_config_spec() -> SourceConfigV {
    SourceConfigV {
        name: "Dark Reading"@,
        url: "https://www.darkreading.com/cyber-risk/data-privacy"@,
        base_url: "https://www.darkreading.com/cyber-risk/data-privacy"@,
        container_query: ".ListContent-Body .ContentPreview"@,
        title_query: ".ArticlePreview-Title, .ListPreview-Title, .ContentCard-Title"@,
        link_query: ".ArticlePreview-Title, .ListPreview-Title, .ContentCard-Title"@,
        date_query: ".ArticlePreview-Date, .ContentCard-Date, .ListPreview-Date"@,
        month_style: MonthStyle::Abbreviated,
        join_links: true,
        custom_headers: true,
    }
}

pub struct DarkReadingSource {
    pub config: SourceConfig,
}

impl DarkReadingSource {
    /// The fixed configuration of this source.
    pub fn default() -> (s: DarkReadingSource)
        ensures
            s.config@ == darkreading_config_spec(),
    {
        DarkReadingSource {
            config: SourceConfig {
                name: "Dark Reading".to_owned(),
                url: "https://www.darkreading.com/cyber-risk/data-privacy".to_owned(),
                base_url: "https://www.darkreading.com/cyber-risk/data-privacy".to_owned(),
                container_query: ".ListContent-Body .ContentPreview".to_owned(),
                title_query: ".ArticlePreview-Title, .ListPreview-Title, .ContentCard-Title".to_owned(),
                link_query: ".ArticlePreview-Title, .ListPreview-Title, .ContentCard-Title".to_owned(),
                date_query: ".ArticlePreview-Date, .ContentCard-Date, .ListPreview-Date".to_owned(),
                month_style: MonthStyle::Abbreviated,
                join_links: true,
                custom_headers: true,
            },
        }
    }

    /// Extracts this source's items from its fetched listing page, in
    /// markup document order.
    pub fn extract(&self, page: &str) -> (r: Result<Vec<ContentItem>, SourceError>)
        ensures
            res_view(r) == page_items_spec(page@, self.config@),
    {
        extract_from_page(page, &self.config)
    }
}

} // verus!
