//! The generic source adapter: the scraper boundary hands back, per item
//! container of a listing page, the raw title text, raw `href` and raw date
//! text; the verified extraction below turns those into `ContentItem`s or
//! into the adapter's error, under the strict fail-the-whole-call policy.

use scraper::Html;
use scraper::Selector;
use vstd::prelude::*;
use vstd::string::StringExecFns;

use crate::content::{item_wf, res_view, ContentItem, ContentItemV, SourceConfig, SourceConfigV, SourceError, SourceErrorV};
use crate::date::{chars_of, lemma_parse_date_spec_valid, parse_date_chars, parse_date_spec, trim_chars, trim_spec};

verus! {

/// What the markup of one item container yielded, before any validation:
/// the first text of the title node, the `href` of the link node, and the
/// first text of the date node, each absent when the container lacks it.
#[derive(Clone, Debug)]
pub struct RawArticle {
    pub title: Option<String>,
    pub link: Option<String>,
    pub date_text: Option<String>,
}

/// The raw fields of one container: title text, `href`, date text.
pub type RawFields = (Option<Seq<char>>, Option<Seq<char>>, Option<Seq<char>>);

impl DeepView for RawArticle {
    type V = RawFields;

    open spec fn deep_view(&self) -> RawFields {
        (self.title.deep_view(), self.link.deep_view(), self.date_text.deep_view())
    }
}

/// What `Selector::parse` accepts: whether `s` is a valid selector
/// expression. Its value depends on `s` alone.
pub uninterp spec fn selector_ok(s: Seq<char>) -> bool;

/// What one scrape of `page` under the four selector queries returns. The
/// markup tree and the matched containers are functions of the page text
/// and the queries alone, so the raw fields are too.
pub uninterp spec fn scraped_articles(
    page: Seq<char>,
    container: Seq<char>,
    title: Seq<char>,
    link: Seq<char>,
    date: Seq<char>,
) -> Seq<RawFields>;

/// Relies on scraper's `Html::parse_document`, `Selector::parse` and
/// `ElementRef::{select, text, attr}`: parses `page`, and for each node
/// matching `container` takes the first text of its first `title` match,
/// the `href` of its first `link` match and the first text of its first
/// `date` match. Returns `None` exactly when one of the four selector
/// strings is not a valid selector expression; a page where nothing
/// matches `container` gives `Some` of the empty vector.
#[verifier::external_body]
fn scrape_page(page: &str, container: &str, title: &str, link: &str, date: &str) -> (r: Option<
    Vec<RawArticle>,
>)
    ensures
        (r is Some) == (selector_ok(container@) && selector_ok(title@) && selector_ok(link@)
            && selector_ok(date@)),
        r matches Some(v) ==> v.deep_view() == scraped_articles(page@, container@, title@, link@, date@),
{
    let c = Selector::parse(container).ok()?;
    let t = Selector::parse(title).ok()?;
    let l = Selector::parse(link).ok()?;
    let d = Selector::parse(date).ok()?;
    let mut out = Vec::new();
    for el in Html::parse_document(page).select(&c) {
        let f = |q| el.select(q).next();
        let g = |q| f(q).and_then(|n| n.text().next()).map(str::to_owned);
        out.push(RawArticle {
            title: g(&t),
            link: f(&l).and_then(|n| n.attr("href")).map(str::to_owned),
            date_text: g(&d),
        });
    }
    Some(out)
}

/// What extraction makes of one container's raw fields: the title must be
/// present and non-empty, the link present (joined onto the base when the
/// source emits path-only links), and the trimmed date text must match the
/// source's date pattern; the first violation is the adapter's error.
pub open spec fn extract_one_spec(raw: RawFields, cfg: SourceConfigV) -> Result<
    ContentItemV,
    SourceErrorV,
> {
    match raw.0 {
        None => Err(SourceErrorV::MissingTitle),
        Some(t) => if t.len() == 0 {
            Err(SourceErrorV::EmptyTitle)
        } else {
            match raw.1 {
                None => Err(SourceErrorV::MissingLink),
                Some(href) => {
                    let link = if cfg.join_links {
                        cfg.base_url + href
                    } else {
                        href
                    };
                    match raw.2 {
                        None => Err(SourceErrorV::MissingDate),
                        Some(dt) => match parse_date_spec(trim_spec(dt), cfg.month_style) {
                            None => Err(SourceErrorV::DateParse),
                            Some(d) => Ok(ContentItemV { title: t, link, published_at: d }),
                        },
                    }
                },
            }
        },
    }
}

/// Extraction over a whole page's containers, in markup document order,
/// stopping at the first malformed container (the strict policy).
pub open spec fn extract_spec(raws: Seq<RawFields>, cfg: SourceConfigV) -> Result<
    Seq<ContentItemV>,
    SourceErrorV,
>
    decreases raws.len(),
{
    if raws.len() == 0 {
        Ok(Seq::empty())
    } else {
        match extract_one_spec(raws[0], cfg) {
            Err(e) => Err(e),
            Ok(item) => match extract_spec(raws.drop_first(), cfg) {
                Err(e) => Err(e),
                Ok(rest) => Ok(seq![item] + rest),
            },
        }
    }
}

/// Every item extraction emits is well formed: a non-empty title and a
/// valid calendar date.
pub proof fn lemma_extract_spec_wf(raws: Seq<RawFields>, cfg: SourceConfigV)
    ensures
        extract_spec(raws, cfg) matches Ok(items) ==> forall|i: int|
            0 <= i < items.len() ==> item_wf(#[trigger] items[i]),
    decreases raws.len(),
{
    if raws.len() > 0 {
        lemma_extract_spec_wf(raws.drop_first(), cfg);
        match raws[0].2 {
            Some(dt) => lemma_parse_date_spec_valid(trim_spec(dt), cfg.month_style),
            None => {},
        }
    }
}

fn extract_one(raw: &RawArticle, cfg: &SourceConfig) -> (r: Result<ContentItem, SourceError>)
    ensures
        res_view(r) == extract_one_spec(raw.deep_view(), cfg@),
{
    let t = match &raw.title {
        None => {
            return Err(SourceError::MissingTitle);
        },
        Some(t) => t,
    };
    if t.as_str().is_empty() {
        return Err(SourceError::EmptyTitle);
    }
    let href = match &raw.link {
        None => {
            return Err(SourceError::MissingLink);
        },
        Some(href) => href,
    };
    let link = if cfg.join_links {
        let mut l = cfg.base_url.clone();
        l.append(href.as_str());
        l
    } else {
        href.clone()
    };
    let dt = match &raw.date_text {
        None => {
            return Err(SourceError::MissingDate);
        },
        Some(dt) => dt,
    };
    let dv = chars_of(dt.as_str());
    let trimmed = trim_chars(&dv);
    match parse_date_chars(&trimmed, cfg.month_style) {
        Err(_) => Err(SourceError::DateParse),
        Ok(d) => Ok(ContentItem { title: t.clone(), link, published_at: d }),
    }
}

/// Extraction over all raw containers of one page, strict policy: the
/// first malformed container fails the whole adapter call.
pub fn extract_items(raws: &Vec<RawArticle>, cfg: &SourceConfig) -> (r: Result<
    Vec<ContentItem>,
    SourceError,
>)
    ensures
        res_view(r) == extract_spec(raws.deep_view(), cfg@),
{
    let ghost rs = raws.deep_view();
    let mut out: Vec<ContentItem> = Vec::new();
    proof {
        assert(rs.skip(0) =~= rs);
        assert(out.deep_view() =~= Seq::<ContentItemV>::empty());
        match extract_spec(rs, cfg@) {
            Ok(rest) => {
                assert(out.deep_view() + rest =~= rest);
            },
            Err(_) => {},
        }
    }
    let n = raws.len();
    let mut i: usize = 0;
    while i < n
        invariant
            i <= n,
            n == raws@.len(),
            rs == raws.deep_view(),
            rs.len() == raws@.len(),
            forall|k: int| 0 <= k < rs.len() ==> rs[k] == raws@[k].deep_view(),
            extract_spec(rs, cfg@) == (match extract_spec(rs.skip(i as int), cfg@) {
                Ok(rest) => Ok::<Seq<ContentItemV>, SourceErrorV>(out.deep_view() + rest),
                Err(e) => Err::<Seq<ContentItemV>, SourceErrorV>(e),
            }),
        decreases n - i,
    {
        let item = match extract_one(&raws[i], cfg) {
            Err(e) => {
                proof {
                    assert(rs.skip(i as int)[0] == rs[i as int]);
                }
                return Err(e);
            },
            Ok(item) => item,
        };
        proof {
            assert(rs.skip(i as int)[0] == rs[i as int]);
            assert(rs.skip(i as int).drop_first() =~= rs.skip(i + 1));
        }
        let ghost old_out = out.deep_view();
        out.push(item);
        proof {
            assert(out.deep_view() =~= old_out.push(item.deep_view()));
            match extract_spec(rs.skip(i + 1), cfg@) {
                Ok(rest) => {
                    assert(out.deep_view() + rest =~= old_out + (seq![item.deep_view()] + rest));
                },
                Err(_) => {},
            }
        }
        i += 1;
    }
    proof {
        assert(rs.skip(n as int) =~= Seq::<RawFields>::empty());
        assert(out.deep_view() + Seq::<ContentItemV>::empty() =~= out.deep_view());
    }
    Ok(out)
}

/// What one whole adapter pass over a fetched page yields: the extraction
/// of the scraped raw fields, or `BadSelector` when a configured query is
/// not a valid selector expression.
pub open spec fn page_items_spec(page: Seq<char>, cfg: SourceConfigV) -> Result<
    Seq<ContentItemV>,
    SourceErrorV,
> {
    if selector_ok(cfg.container_query) && selector_ok(cfg.title_query) && selector_ok(
        cfg.link_query,
    ) && selector_ok(cfg.date_query) {
        extract_spec(
            scraped_articles(page, cfg.container_query, cfg.title_query, cfg.link_query, cfg.date_query),
            cfg,
        )
    } else {
        Err(SourceErrorV::BadSelector)
    }
}

/// One adapter call on an already fetched listing page: scrape the item
/// containers and extract items from them, in markup document order.
pub fn extract_from_page(page: &str, cfg: &SourceConfig) -> (r: Result<Vec<ContentItem>, SourceError>)
    ensures
        res_view(r) == page_items_spec(page@, cfg@),
        r matches Ok(items) ==> forall|i: int|
            0 <= i < items.deep_view().len() ==> item_wf(#[trigger] items.deep_view()[i]),
{
    proof {
        lemma_extract_spec_wf(
            scraped_articles(page@, cfg@.container_query, cfg@.title_query, cfg@.link_query, cfg@.date_query),
            cfg@,
        );
    }
    let raws = match scrape_page(
        page,
        cfg.container_query.as_str(),
        cfg.title_query.as_str(),
        cfg.link_query.as_str(),
        cfg.date_query.as_str(),
    ) {
        None => {
            return Err(SourceError::BadSelector);
        },
        Some(raws) => raws,
    };
    let r = extract_items(&raws, cfg);
    proof {
        let scraped = scraped_articles(
            page@,
            cfg@.container_query,
            cfg@.title_query,
            cfg@.link_query,
            cfg@.date_query,
        );
        if let Ok(items) = &r {
            assert(extract_spec(scraped, cfg@) == Ok::<Seq<ContentItemV>, SourceErrorV>(
                items.deep_view(),
            ));
            assert forall|i: int| 0 <= i < items.deep_view().len() implies item_wf(
                items.deep_view()[i],
            ) by {
                let s = match extract_spec(scraped, cfg@) {
                    Ok(s) => s,
                    Err(_) => arbitrary(),
                };
                assert(s == items.deep_view());
                assert(item_wf(s[i]));
            }
        }
    }
    r
}

} // verus!
