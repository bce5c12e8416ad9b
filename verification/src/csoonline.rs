//! The CSO Online source: its listing page and markup shape.

use vstd::prelude::*;

use crate::content::{res_view, ContentItem, SourceConfig, SourceConfigV, SourceError};
use crate::date::MonthStyle;
use crate::extract::{extract_from_page, page_items_spec};

verus! {

/// The extraction rules of the CSO Online privacy listing page: plain
/// fetch, absolute links, abbreviated month names.
pub open spec fn cso_config_spec() -> SourceConfigV {
    SourceConfigV {
        name: "CSO Online"@,
        url: "https://www.csoonline.com/privacy"@,
        base_url: "https://www.csoonline.com/privacy"@,
        container_query: ".latest-content__content-featured, .latest-content__card-main, #article .content-listing-articles__row"@,
        title_query: "h3"@,
        link_query: "a"@,
        date_query: ".card__info.card__info--light span"@,
        month_style: MonthStyle::Abbreviated,
        join_links: false,
        custom_headers: false,
    }
}

pub struct CSOSource {
    pub config: SourceConfig,
}

impl CSOSource {
    /// The fixed configuration of this source.
    pub fn default() -> (s: CSOSource)
        ensures
            s.config@ == cso_config_spec(),
    {
        CSOSource {
            config: SourceConfig {
                name: "CSO Online".to_owned(),
                url: "https://www.csoonline.com/privacy".to_owned(),
                base_url: "https://www.csoonline.com/privacy".to_owned(),
                container_query: ".latest-content__content-featured, .latest-content__card-main, #article .content-listing-articles__row".to_owned(),
                title_query: "h3".to_owned(),
                link_query: "a".to_owned(),
                date_query: ".card__info.card__info--light span".to_owned(),
                month_style: MonthStyle::Abbreviated,
                join_links: false,
                custom_headers: false,
            },
        }
    }

    /// Extracts this source's items from its fetched listing page, in
    /// markup document order.
    pub fn extract(&self, page: &str) -> (r: Result<Vec<ContentItem>, SourceError>)
        ensures
            res_view(r) == page_items_spec(page@, self.config@),
    {
        extract_from_page(page, &self.config)
    }
}

} // verus!
