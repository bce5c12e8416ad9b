//! The feed serializer: renders the aggregated feed as an RSS document —
//! one channel with title and link, one entry per item with title, link and
//! an RFC 2822 publication timestamp — and the document grammar it emits,
//! with the proof that re-parsing a serialized feed recovers every title,
//! link and timestamp.

use vstd::prelude::*;

use crate::aggregate::{
    aggregate, aggregate_spec, lemma_ok_items_wf, lemma_sort_desc, ok_items, results_view,
    results_wf, sort_desc, FanInPolicy,
};
use crate::content::{
    feed_wf, item_wf, AggregatedFeed, AggregatedFeedV, AggregationError, ContentItem,
    ContentItemV, SourceError,
};
use crate::date::{
    all_digits, chars_of, chars_to_string, date_valid, date_valid_exec, digit_char, digit_val,
    four_digits, is_digit, month_abbrev, month_of_name, num_of_digits, pow10, push_all,
    rfc2822_chars, rfc2822_spec, two_digits, Date, MonthStyle,
};

verus! {

/// How one character of text content is written inside an element.
pub open spec fn esc_char(c: char) -> Seq<char> {
    if c == '&' {
        seq!['&', 'a', 'm', 'p', ';']
    } else if c == '<' {
        seq!['&', 'l', 't', ';']
    } else if c == '>' {
        seq!['&', 'g', 't', ';']
    } else {
        seq![c]
    }
}

/// Text content with markup-significant characters escaped.
pub open spec fn escape(s: Seq<char>) -> Seq<char>
    decreases s.len(),
{
    if s.len() == 0 {
        Seq::empty()
    } else {
        esc_char(s[0]) + escape(s.drop_first())
    }
}

/// The inverse reading of escaped text content; `None` on a stray `&`.
pub open spec fn unescape(s: Seq<char>) -> Option<Seq<char>>
    decreases s.len(),
{
    if s.len() == 0 {
        Some(Seq::empty())
    } else if s[0] == '&' {
        if s.len() >= 5 && s.take(5) == seq!['&', 'a', 'm', 'p', ';'] {
            match unescape(s.skip(5)) {
                Some(r) => Some(seq!['&'] + r),
                None => None,
            }
        } else if s.len() >= 4 && s.take(4) == seq!['&', 'l', 't', ';'] {
            match unescape(s.skip(4)) {
                Some(r) => Some(seq!['<'] + r),
                None => None,
            }
        } else if s.len() >= 4 && s.take(4) == seq!['&', 'g', 't', ';'] {
            match unescape(s.skip(4)) {
                Some(r) => Some(seq!['>'] + r),
                None => None,
            }
        } else {
            None
        }
    } else {
        match unescape(s.drop_first()) {
            Some(r) => Some(seq![s[0]] + r),
            None => None,
        }
    }
}

/// No `<` anywhere: such text ends exactly at the next tag.
pub open spec fn no_lt(s: Seq<char>) -> bool {
    forall|i: int| 0 <= i < s.len() ==> (#[trigger] s[i]) != '<'
}

proof fn lemma_escape_no_lt(s: Seq<char>)
    ensures
        no_lt(escape(s)),
    decreases s.len(),
{
    if s.len() > 0 {
        lemma_escape_no_lt(s.drop_first());
        assert forall|i: int| 0 <= i < escape(s).len() implies (#[trigger] escape(s)[i])
            != '<' by {
            if i < esc_char(s[0]).len() {
                assert(escape(s)[i] == esc_char(s[0])[i]);
            } else {
                assert(escape(s)[i] == escape(s.drop_first())[i - esc_char(s[0]).len()]);
            }
        }
    }
}

proof fn lemma_escape_concat(a: Seq<char>, b: Seq<char>)
    ensures
        escape(a + b) == escape(a) + escape(b),
    decreases a.len(),
{
    if a.len() == 0 {
        assert(a + b =~= b);
        assert(escape(a) + escape(b) =~= escape(b));
    } else {
        assert((a + b)[0] == a[0]);
        assert((a + b).drop_first() =~= a.drop_first() + b);
        lemma_escape_concat(a.drop_first(), b);
        assert(esc_char(a[0]) + (escape(a.drop_first()) + escape(b)) =~= (esc_char(a[0]) + escape(
            a.drop_first(),
        )) + escape(b));
    }
}

proof fn lemma_unescape_escape(s: Seq<char>)
    ensures
        unescape(escape(s)) == Some(s),
    decreases s.len(),
{
    if s.len() > 0 {
        lemma_unescape_escape(s.drop_first());
        let e = escape(s);
        let tail = escape(s.drop_first());
        let c = s[0];
        if c == '&' {
            assert(e.len() >= 5);
            assert(e.take(5) =~= seq!['&', 'a', 'm', 'p', ';']);
            assert(e.skip(5) =~= tail);
            assert(seq!['&'] + s.drop_first() =~= s);
        } else if c == '<' {
            assert(e[0] == '&');
            assert(e.len() >= 4);
            if e.len() >= 5 {
                assert(e[1] == 'l');
                assert(e.take(5)[1] == 'l');
                assert(e.take(5) != seq!['&', 'a', 'm', 'p', ';']) by {
                    assert(seq!['&', 'a', 'm', 'p', ';'][1] == 'a');
                }
            }
            assert(e.take(4) =~= seq!['&', 'l', 't', ';']);
            assert(e.skip(4) =~= tail);
            assert(seq!['<'] + s.drop_first() =~= s);
        } else if c == '>' {
            assert(e[0] == '&');
            assert(e.len() >= 4);
            if e.len() >= 5 {
                assert(e.take(5)[1] == 'g');
                assert(e.take(5) != seq!['&', 'a', 'm', 'p', ';']) by {
                    assert(seq!['&', 'a', 'm', 'p', ';'][1] == 'a');
                }
            }
            assert(e.take(4)[1] == 'g');
            assert(e.take(4) != seq!['&', 'l', 't', ';']) by {
                assert(seq!['&', 'l', 't', ';'][1] == 'l');
            }
            assert(e.take(4) =~= seq!['&', 'g', 't', ';']);
            assert(e.skip(4) =~= tail);
            assert(seq!['>'] + s.drop_first() =~= s);
        } else {
            assert(e[0] == c);
            assert(e.drop_first() =~= tail);
            assert(seq![c] + s.drop_first() =~= s);
        }
    }
}

/// The text before the first `<`, and everything from that `<` on.
pub open spec fn split_at_lt(s: Seq<char>) -> (Seq<char>, Seq<char>)
    decreases s.len(),
{
    if s.len() == 0 {
        (Seq::empty(), Seq::empty())
    } else if s[0] == '<' {
        (Seq::empty(), s)
    } else {
        let (a, b) = split_at_lt(s.drop_first());
        (seq![s[0]] + a, b)
    }
}

proof fn lemma_split_at_lt_concat(a: Seq<char>, b: Seq<char>)
    requires
        no_lt(a),
        b.len() > 0,
        b[0] == '<',
    ensures
        split_at_lt(a + b) == (a, b),
    decreases a.len(),
{
    if a.len() == 0 {
        assert(a + b =~= b);
    } else {
        assert((a + b)[0] == a[0]);
        assert((a + b).drop_first() =~= a.drop_first() + b);
        assert(no_lt(a.drop_first()));
        lemma_split_at_lt_concat(a.drop_first(), b);
        assert(seq![a[0]] + a.drop_first() =~= a);
    }
}

/// The remainder of `s` after the exact prefix `p`, if `s` starts with it.
pub open spec fn strip_prefix(s: Seq<char>, p: Seq<char>) -> Option<Seq<char>> {
    if p.len() <= s.len() && s.take(p.len() as int) == p {
        Some(s.skip(p.len() as int))
    } else {
        None
    }
}

proof fn lemma_strip_prefix_concat(p: Seq<char>, rest: Seq<char>)
    ensures
        strip_prefix(p + rest, p) == Some(rest),
{
    assert((p + rest).take(p.len() as int) =~= p);
    assert((p + rest).skip(p.len() as int) =~= rest);
}

pub open spec fn doc_head() -> Seq<char> {
    "<?xml version=\"1.0\" encoding=\"utf-8\"?><rss version=\"2.0\"><channel><title>"@
}

pub open spec fn lit_title_link() -> Seq<char> {
    "</title><link>"@
}

pub open spec fn lit_link_desc() -> Seq<char> {
    "</link><description></description>"@
}

pub open spec fn lit_item_open() -> Seq<char> {
    "<item><title>"@
}

pub open spec fn lit_link_pubdate() -> Seq<char> {
    "</link><pubDate>"@
}

pub open spec fn lit_item_close() -> Seq<char> {
    "</pubDate></item>"@
}

pub open spec fn doc_tail() -> Seq<char> {
    "</channel></rss>"@
}

/// One entry: title, link, and the publication instant in the fixed
/// RFC 2822 rendering.
pub open spec fn item_xml(it: ContentItemV) -> Seq<char> {
    lit_item_open() + escape(it.title) + lit_title_link() + escape(it.link) + lit_link_pubdate()
        + rfc2822_spec(it.published_at) + lit_item_close()
}

pub open spec fn items_xml(items: Seq<ContentItemV>) -> Seq<char>
    decreases items.len(),
{
    if items.len() == 0 {
        Seq::empty()
    } else {
        item_xml(items[0]) + items_xml(items.drop_first())
    }
}

/// The whole document: one channel holding the title, the link, an empty
/// description, and the entries in feed order.
pub open spec fn serialize_spec(f: AggregatedFeedV) -> Seq<char> {
    doc_head() + escape(f.channel_title) + lit_title_link() + escape(f.channel_link)
        + lit_link_desc() + items_xml(f.items) + doc_tail()
}

/// Whether the feed is serializable: every item well formed. The
/// aggregation of extracted items always is; a caller assembling a feed by
/// hand can check before serializing.
pub fn feed_ready(feed: &AggregatedFeed) -> (r: bool)
    ensures
        r == feed_wf(feed@),
{
    let n = feed.items.len();
    let mut i: usize = 0;
    while i < n
        invariant
            i <= n,
            n == feed.items@.len(),
            forall|j: int| 0 <= j < i ==> crate::content::item_wf(#[trigger] feed@.items[j]),
        decreases n - i,
    {
        let it = &feed.items[i];
        proof {
            assert(feed@.items[i as int] == feed.items@[i as int].deep_view());
        }
        if it.title.as_str().is_empty() || !date_valid_exec(&it.published_at) {
            return false;
        }
        i += 1;
    }
    true
}

/// The document's declared media type.
pub fn media_type() -> (r: String)
    ensures
        r@ == "application/xml"@,
{
    "application/xml".to_owned()
}

fn push_escaped(out: &mut Vec<char>, s: &String)
    ensures
        final(out)@ == old(out)@ + escape(s@),
{
    let v = chars_of(s.as_str());
    let n = v.len();
    let mut i: usize = 0;
    proof {
        assert(v@.take(0) =~= Seq::<char>::empty());
        assert(old(out)@ + escape(Seq::<char>::empty()) =~= old(out)@);
    }
    while i < n
        invariant
            i <= n,
            n == v@.len(),
            v@ == s@,
            out@ == old(out)@ + escape(v@.take(i as int)),
        decreases n - i,
    {
        let c = v[i];
        if c == '&' {
            out.push('&');
            out.push('a');
            out.push('m');
            out.push('p');
            out.push(';');
        } else if c == '<' {
            out.push('&');
            out.push('l');
            out.push('t');
            out.push(';');
        } else if c == '>' {
            out.push('&');
            out.push('g');
            out.push('t');
            out.push(';');
        } else {
            out.push(c);
        }
        proof {
            assert(v@.take(i + 1) =~= v@.take(i as int) + seq![v@[i as int]]);
            lemma_escape_concat(v@.take(i as int), seq![v@[i as int]]);
            reveal_with_fuel(escape, 2);
            assert(seq![v@[i as int]].drop_first() =~= Seq::<char>::empty());
            assert(escape(seq![v@[i as int]]) =~= esc_char(v@[i as int]));
            assert(out@ =~= old(out)@ + escape(v@.take(i + 1)));
        }
        i += 1;
    }
    proof {
        assert(v@.take(n as int) =~= v@);
    }
}

proof fn lemma_items_xml_snoc(items: Seq<ContentItemV>)
    requires
        items.len() > 0,
    ensures
        items_xml(items) == items_xml(items.drop_last()) + item_xml(items.last()),
    decreases items.len(),
{
    if items.len() == 1 {
        assert(items.drop_first() =~= Seq::<ContentItemV>::empty());
        assert(items.drop_last() =~= Seq::<ContentItemV>::empty());
        assert(items_xml(items) =~= item_xml(items[0]) + items_xml(items.drop_first()));
        assert(item_xml(items[0]) + Seq::<char>::empty() =~= item_xml(items[0]));
        assert(Seq::<char>::empty() + item_xml(items.last()) =~= item_xml(items.last()));
    } else {
        let t = items.drop_first();
        lemma_items_xml_snoc(t);
        assert(t.drop_last() =~= items.drop_last().drop_first());
        assert(t.last() == items.last());
        assert(items.drop_last()[0] == items[0]);
        assert(item_xml(items[0]) + (items_xml(t.drop_last()) + item_xml(items.last())) =~= (
        item_xml(items[0]) + items_xml(t.drop_last())) + item_xml(items.last()));
    }
}

/// Renders the feed as the RSS document of `serialize_spec`. Total for any
/// feed whose items are well formed; it never fails.
#[verifier::rlimit(60)]
pub fn serialize(feed: &AggregatedFeed) -> (r: String)
    requires
        feed_wf(feed@),
    ensures
        r@ == serialize_spec(feed@),
{
    let mut out: Vec<char> = Vec::new();
    let head = chars_of(
        "<?xml version=\"1.0\" encoding=\"utf-8\"?><rss version=\"2.0\"><channel><title>",
    );
    push_all(&mut out, &head);
    push_escaped(&mut out, &feed.channel_title);
    let tl = chars_of("</title><link>");
    push_all(&mut out, &tl);
    push_escaped(&mut out, &feed.channel_link);
    let ld = chars_of("</link><description></description>");
    push_all(&mut out, &ld);
    let ghost mid = out@;
    let n = feed.items.len();
    let mut i: usize = 0;
    proof {
        assert(feed@.items.take(0) =~= Seq::<ContentItemV>::empty());
        assert(mid + items_xml(feed@.items.take(0)) =~= mid);
    }
    while i < n
        invariant
            i <= n,
            n == feed.items@.len(),
            feed@.items.len() == n,
            feed_wf(feed@),
            out@ == mid + items_xml(feed@.items.take(i as int)),
        decreases n - i,
    {
        let it = &feed.items[i];
        proof {
            assert(feed@.items[i as int] == feed.items@[i as int].deep_view());
            assert(crate::content::item_wf(feed@.items[i as int]));
        }
        let io = chars_of("<item><title>");
        push_all(&mut out, &io);
        push_escaped(&mut out, &it.title);
        let tl2 = chars_of("</title><link>");
        push_all(&mut out, &tl2);
        push_escaped(&mut out, &it.link);
        let lp = chars_of("</link><pubDate>");
        push_all(&mut out, &lp);
        let dc = rfc2822_chars(&it.published_at);
        push_all(&mut out, &dc);
        let ic = chars_of("</pubDate></item>");
        push_all(&mut out, &ic);
        proof {
            let items = feed@.items;
            assert(items.take(i + 1).drop_last() =~= items.take(i as int));
            assert(items.take(i + 1).last() == items[i as int]);
            lemma_items_xml_snoc(items.take(i + 1));
            assert(out@ =~= mid + items_xml(items.take(i + 1)));
        }
        i += 1;
    }
    proof {
        assert(feed@.items.take(n as int) =~= feed@.items);
    }
    let tail = chars_of("</channel></rss>");
    push_all(&mut out, &tail);
    proof {
        assert(out@ =~= serialize_spec(feed@));
    }
    chars_to_string(&out)
}

/// One whole response after the fetches, as the inbound boundary runs it:
/// aggregates the per-source results under the chosen policy and renders
/// the feed document around the given channel metadata. Returns the
/// document exactly when aggregation succeeds, and aggregation's error
/// otherwise.
pub fn feed_document(
    results: Vec<Result<Vec<ContentItem>, SourceError>>,
    policy: FanInPolicy,
    channel_title: String,
    channel_link: String,
) -> (r: Result<String, AggregationError>)
    requires
        results_wf(results_view(results@)),
    ensures
        match aggregate_spec(results_view(results@), policy) {
            Ok(items) => r matches Ok(doc) && doc@ == serialize_spec(
                AggregatedFeedV {
                    channel_title: channel_title@,
                    channel_link: channel_link@,
                    items,
                },
            ),
            Err(e) => r matches Err(e2) && e2@ == e,
        },
{
    let ghost rs = results_view(results@);
    proof {
        lemma_ok_items_wf(rs);
        lemma_sort_desc(ok_items(rs));
    }
    match aggregate(results, policy, channel_title, channel_link) {
        Err(e) => Err(e),
        Ok(feed) => {
            proof {
                assert(feed.items.deep_view() == sort_desc(ok_items(rs)));
                assert forall|i: int| 0 <= i < feed@.items.len() implies crate::content::item_wf(
                    #[trigger] feed@.items[i],
                ) by {
                    let v = sort_desc(ok_items(rs))[i];
                    assert(ok_items(rs).contains(v));
                    let ix = choose|ix: int|
                        0 <= ix < ok_items(rs).len() && ok_items(rs)[ix] == v;
                    assert(item_wf(ok_items(rs)[ix]));
                }
            }
            Ok(serialize(&feed))
        },
    }
}

/// One entry as a reader of the document sees it: title, link, instant.
pub type FeedEntry = (Seq<char>, Seq<char>, Date);

/// Reads one element's text content: the unescaped text before the next
/// tag, and everything from that tag on.
pub open spec fn parse_text(s: Seq<char>) -> Option<(Seq<char>, Seq<char>)> {
    let (raw, rest) = split_at_lt(s);
    match unescape(raw) {
        Some(t) => Some((t, rest)),
        None => None,
    }
}

/// Reads back a publication timestamp in the feed's fixed rendering:
/// `Ddd, DD Mon YYYY 00:00:00 +0000`, with the day-of-week part carried
/// but not re-checked, and only calendar-valid dates accepted.
pub open spec fn parse_rfc2822_spec(s: Seq<char>) -> Option<Date> {
    if s.len() == 31 && s.subrange(3, 5) == seq![',', ' '] && all_digits(s.subrange(5, 7)) && s[7]
        == ' ' && s[11] == ' ' && all_digits(s.subrange(12, 16)) && s.subrange(16, 31) == seq![
        ' ',
        '0',
        '0',
        ':',
        '0',
        '0',
        ':',
        '0',
        '0',
        ' ',
        '+',
        '0',
        '0',
        '0',
        '0',
    ] {
        match month_of_name(s.subrange(8, 11), MonthStyle::Abbreviated) {
            None => None,
            Some(m) => {
                let d = Date {
                    year: num_of_digits(s.subrange(12, 16)) as u32,
                    month: m as u32,
                    day: num_of_digits(s.subrange(5, 7)) as u32,
                };
                if date_valid(d) {
                    Some(d)
                } else {
                    None
                }
            },
        }
    } else {
        None
    }
}

/// Reads one entry: its title, link and instant, and the remainder.
pub open spec fn parse_one_item(s: Seq<char>) -> Option<(Seq<char>, Seq<char>, Date, Seq<char>)> {
    match strip_prefix(s, lit_item_open()) {
        None => None,
        Some(r1) => match parse_text(r1) {
            None => None,
            Some((title, r2)) => match strip_prefix(r2, lit_title_link()) {
                None => None,
                Some(r3) => match parse_text(r3) {
                    None => None,
                    Some((link, r4)) => match strip_prefix(r4, lit_link_pubdate()) {
                        None => None,
                        Some(r5) => {
                            let (draw, r6) = split_at_lt(r5);
                            match parse_rfc2822_spec(draw) {
                                None => None,
                                Some(d) => match strip_prefix(r6, lit_item_close()) {
                                    None => None,
                                    Some(rest) => Some((title, link, d, rest)),
                                },
                            }
                        },
                    },
                },
            },
        },
    }
}

/// Reads entries until the document's closing tags, which must end it.
pub open spec fn parse_items(s: Seq<char>) -> Option<Seq<FeedEntry>>
    decreases s.len(),
{
    match strip_prefix(s, doc_tail()) {
        Some(r) => if r.len() == 0 {
            Some(Seq::empty())
        } else {
            None
        },
        None => match parse_one_item(s) {
            None => None,
            Some((title, link, d, rest)) => if rest.len() < s.len() {
                match parse_items(rest) {
                    Some(more) => Some(seq![(title, link, d)] + more),
                    None => None,
                }
            } else {
                None
            },
        },
    }
}

/// Reads a whole document of this serializer's grammar back into its
/// channel title, channel link and entries.
pub open spec fn parse_feed_spec(s: Seq<char>) -> Option<(Seq<char>, Seq<char>, Seq<FeedEntry>)> {
    match strip_prefix(s, doc_head()) {
        None => None,
        Some(r1) => match parse_text(r1) {
            None => None,
            Some((ct, r2)) => match strip_prefix(r2, lit_title_link()) {
                None => None,
                Some(r3) => match parse_text(r3) {
                    None => None,
                    Some((cl, r4)) => match strip_prefix(r4, lit_link_desc()) {
                        None => None,
                        Some(r5) => match parse_items(r5) {
                            None => None,
                            Some(entries) => Some((ct, cl, entries)),
                        },
                    },
                },
            },
        },
    }
}

proof fn lemma_parse_text_of(t: Seq<char>, rest: Seq<char>)
    requires
        rest.len() > 0,
        rest[0] == '<',
    ensures
        parse_text(escape(t) + rest) == Some((t, rest)),
{
    lemma_escape_no_lt(t);
    lemma_split_at_lt_concat(escape(t), rest);
    lemma_unescape_escape(t);
}

proof fn lemma_digit_char(k: int)
    requires
        0 <= k <= 9,
    ensures
        is_digit(digit_char(k)),
        digit_val(digit_char(k)) == k,
        digit_char(k) != '<',
{
}

proof fn lemma_two_digits_val(n: int)
    requires
        0 <= n < 100,
    ensures
        two_digits(n).len() == 2,
        all_digits(two_digits(n)),
        num_of_digits(two_digits(n)) == n,
        no_lt(two_digits(n)),
{
    lemma_digit_char(n / 10);
    lemma_digit_char(n % 10);
    let s = two_digits(n);
    assert(s.drop_last() =~= seq![digit_char(n / 10)]);
    assert(seq![digit_char(n / 10)].drop_last() =~= Seq::<char>::empty());
    reveal_with_fuel(num_of_digits, 3);
}

proof fn lemma_num_concat(a: Seq<char>, b: Seq<char>)
    ensures
        num_of_digits(a + b) == num_of_digits(a) * pow10(b.len()) + num_of_digits(b),
    decreases b.len(),
{
    if b.len() == 0 {
        assert(a + b =~= a);
    } else {
        assert((a + b).drop_last() =~= a + b.drop_last());
        assert((a + b).last() == b.last());
        lemma_num_concat(a, b.drop_last());
        let p = pow10((b.len() - 1) as nat);
        assert(pow10(b.len()) == 10 * p);
        assert(num_of_digits(a + b) == (num_of_digits(a) * p + num_of_digits(b.drop_last())) * 10
            + digit_val(b.last()));
        assert((num_of_digits(a) * p + num_of_digits(b.drop_last())) * 10 == num_of_digits(a) * (10
            * p) + num_of_digits(b.drop_last()) * 10) by (nonlinear_arith);
    }
}

#[verifier::rlimit(50)]
#[verifier::spinoff_prover]
proof fn lemma_four_digits_val(n: int)
    requires
        0 <= n < 10000,
    ensures
        four_digits(n).len() == 4,
        all_digits(four_digits(n)),
        num_of_digits(four_digits(n)) == n,
        no_lt(four_digits(n)),
{
    lemma_two_digits_val(n / 100);
    lemma_two_digits_val(n % 100);
    assert(num_of_digits(four_digits(n)) == n) by {
        lemma_num_concat(two_digits(n / 100), two_digits(n % 100));
        reveal_with_fuel(pow10, 3);
        assert(pow10(2nat) == 100);
    }
    assert forall|i: int| 0 <= i < four_digits(n).len() implies (#[trigger] four_digits(n)[i])
        != '<' by {
        if i < 2 {
            assert(four_digits(n)[i] == two_digits(n / 100)[i]);
        } else {
            assert(four_digits(n)[i] == two_digits(n % 100)[i - 2]);
        }
    }
    assert forall|i: int| 0 <= i < four_digits(n).len() implies is_digit(
        #[trigger] four_digits(n)[i],
    ) by {
        if i < 2 {
            assert(four_digits(n)[i] == two_digits(n / 100)[i]);
        } else {
            assert(four_digits(n)[i] == two_digits(n % 100)[i - 2]);
        }
    }
}

proof fn lemma_month_abbrev_inv(m: int)
    requires
        1 <= m <= 12,
    ensures
        month_of_name(month_abbrev(m), MonthStyle::Abbreviated) == Some(m),
        month_abbrev(m).len() == 3,
        no_lt(month_abbrev(m)),
{
    // distinct first letters settle most pairs; the J- and M- collisions
    // are told apart at the second or third letter
    assert(month_abbrev(1)[1] == 'a' && month_abbrev(6)[1] == 'u' && month_abbrev(7)[1] == 'u');
    assert(month_abbrev(6)[2] == 'n' && month_abbrev(7)[2] == 'l');
    assert(month_abbrev(3)[2] == 'r' && month_abbrev(5)[2] == 'y');
}

proof fn lemma_parse_rfc2822_of(d: Date)
    requires
        date_valid(d),
    ensures
        parse_rfc2822_spec(rfc2822_spec(d)) == Some(d),
        no_lt(rfc2822_spec(d)),
        rfc2822_spec(d).len() == 31,
{
    let r = rfc2822_spec(d);
    let w = crate::date::weekday(d);
    assert(0 <= w <= 6);
    assert(crate::date::dow_name(w).len() == 3);
    lemma_two_digits_val(d.day as int);
    lemma_four_digits_val(d.year as int);
    lemma_month_abbrev_inv(d.month as int);
    assert(r.len() == 31);
    assert(r.subrange(0, 3) =~= crate::date::dow_name(w));
    assert(r.subrange(3, 5) =~= seq![',', ' ']);
    assert(r.subrange(5, 7) =~= two_digits(d.day as int));
    assert(r[7] == ' ');
    assert(r.subrange(8, 11) =~= month_abbrev(d.month as int));
    assert(r[11] == ' ');
    assert(r.subrange(12, 16) =~= four_digits(d.year as int));
    assert(r.subrange(16, 31) =~= seq![
        ' ',
        '0',
        '0',
        ':',
        '0',
        '0',
        ':',
        '0',
        '0',
        ' ',
        '+',
        '0',
        '0',
        '0',
        '0',
    ]);
    assert forall|i: int| 0 <= i < r.len() implies (#[trigger] r[i]) != '<' by {
        if i < 3 {
            assert(r[i] == crate::date::dow_name(w)[i]);
            assert(crate::date::dow_name(w)[i] != '<');
        } else if i < 5 {
            assert(r[i] == r.subrange(3, 5)[i - 3]);
        } else if i < 7 {
            assert(r[i] == two_digits(d.day as int)[i - 5]);
        } else if i == 7 {
        } else if i < 11 {
            assert(r[i] == month_abbrev(d.month as int)[i - 8]);
            assert(month_abbrev(d.month as int)[i - 8] != '<');
        } else if i == 11 {
        } else if i < 16 {
            assert(r[i] == four_digits(d.year as int)[i - 12]);
        } else {
            assert(r[i] == r.subrange(16, 31)[i - 16]);
        }
    }
}

#[verifier::rlimit(100)]
#[verifier::spinoff_prover]
proof fn lemma_parse_one_item_of(it: ContentItemV, rest: Seq<char>)
    requires
        crate::content::item_wf(it),
        rest.len() > 0,
        rest[0] == '<',
    ensures
        parse_one_item(item_xml(it) + rest) == Some((it.title, it.link, it.published_at, rest)),
        item_xml(it).len() > 0,
        (item_xml(it) + rest)[0] == '<',
        (item_xml(it) + rest)[1] == 'i',
{
    reveal_strlit("<item><title>");
    reveal_strlit("</title><link>");
    reveal_strlit("</link><pubDate>");
    reveal_strlit("</pubDate></item>");
    let a = lit_item_open();
    let c = lit_title_link();
    let e = lit_link_pubdate();
    let g = lit_item_close();
    let f = rfc2822_spec(it.published_at);
    lemma_parse_rfc2822_of(it.published_at);
    let s = item_xml(it) + rest;
    let r3 = g + rest;
    let x3 = f + r3;
    let r2 = e + x3;
    let x2 = escape(it.link) + r2;
    let r1 = c + x2;
    let x1 = escape(it.title) + r1;
    assert(s =~= a + x1);
    lemma_strip_prefix_concat(a, x1);
    assert(r1[0] == c[0]);
    lemma_parse_text_of(it.title, r1);
    lemma_strip_prefix_concat(c, x2);
    assert(r2[0] == e[0]);
    lemma_parse_text_of(it.link, r2);
    lemma_strip_prefix_concat(e, x3);
    assert(r3[0] == g[0]);
    lemma_split_at_lt_concat(f, r3);
    lemma_strip_prefix_concat(g, rest);
    assert(s[0] == a[0]);
    assert(s[1] == a[1]);
}

proof fn lemma_parse_items_of(items: Seq<ContentItemV>)
    requires
        forall|i: int| 0 <= i < items.len() ==> crate::content::item_wf(#[trigger] items[i]),
    ensures
        parse_items(items_xml(items) + doc_tail()) == Some(
            items.map_values(|it: ContentItemV| (it.title, it.link, it.published_at)),
        ),
    decreases items.len(),
{
    reveal_strlit("</channel></rss>");
    reveal_strlit("<item><title>");
    let s = items_xml(items) + doc_tail();
    if items.len() == 0 {
        assert(s =~= doc_tail());
        lemma_strip_prefix_concat(doc_tail(), Seq::<char>::empty());
        assert(doc_tail() + Seq::<char>::empty() =~= doc_tail());
        assert(items.map_values(|it: ContentItemV| (it.title, it.link, it.published_at)) =~= Seq::<
            FeedEntry,
        >::empty());
    } else {
        let h = items[0];
        let t = items.drop_first();
        let rest = items_xml(t) + doc_tail();
        assert(rest.len() > 0 && rest[0] == '<') by {
            if t.len() == 0 {
                assert(rest =~= doc_tail());
            } else {
                assert(rest[0] == item_xml(t[0])[0]);
                assert(item_xml(t[0])[0] == lit_item_open()[0]);
            }
        }
        lemma_parse_one_item_of(h, rest);
        assert(s =~= item_xml(h) + rest);
        // the document cannot be ending here: the second character of an
        // entry differs from the second character of the closing tags
        assert(strip_prefix(s, doc_tail()) is None) by {
            if doc_tail().len() <= s.len() && s.take(doc_tail().len() as int) == doc_tail() {
                assert(s.take(doc_tail().len() as int)[1] == s[1]);
                assert(s[1] == 'i');
                assert(doc_tail()[1] == '/');
            }
        }
        assert(rest.len() < s.len());
        assert(forall|i: int| 0 <= i < t.len() ==> crate::content::item_wf(#[trigger] t[i])) by {
            assert(forall|i: int| 0 <= i < t.len() ==> t[i] == items[i + 1]);
        }
        lemma_parse_items_of(t);
        let fm = |it: ContentItemV| (it.title, it.link, it.published_at);
        assert(items.map_values(fm) =~= seq![(h.title, h.link, h.published_at)] + t.map_values(
            fm,
        )) by {
            assert(forall|i: int| 0 <= i < t.len() ==> t[i] == items[i + 1]);
        }
    }
}

/// Law: serializing and re-parsing is the identity on the feed's content —
/// the document of a well-formed feed parses back to exactly the same
/// channel title, channel link, and, entry by entry in the same order, the
/// same titles, links and publication instants.
pub proof fn lemma_serialize_round_trip(f: AggregatedFeedV)
    requires
        feed_wf(f),
    ensures
        parse_feed_spec(serialize_spec(f)) == Some(
            (
                f.channel_title,
                f.channel_link,
                f.items.map_values(|it: ContentItemV| (it.title, it.link, it.published_at)),
            ),
        ),
{
    reveal_strlit("</title><link>");
    reveal_strlit("</link><description></description>");
    let s = serialize_spec(f);
    let r5 = items_xml(f.items) + doc_tail();
    let r4 = lit_link_desc() + r5;
    let x2 = escape(f.channel_link) + r4;
    let r2 = lit_title_link() + x2;
    let x1 = escape(f.channel_title) + r2;
    assert(s =~= doc_head() + x1);
    lemma_strip_prefix_concat(doc_head(), x1);
    assert(r2[0] == lit_title_link()[0]);
    lemma_parse_text_of(f.channel_title, r2);
    lemma_strip_prefix_concat(lit_title_link(), x2);
    assert(r4.len() > 0 && r4[0] == lit_link_desc()[0]);
    lemma_parse_text_of(f.channel_link, r4);
    lemma_strip_prefix_concat(lit_link_desc(), r5);
    lemma_parse_items_of(f.items);
}

} // verus!
