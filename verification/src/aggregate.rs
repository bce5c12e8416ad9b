//! The aggregator: fans in per-source results, merges every successful
//! source's items, orders them by publication instant (newest first, with a
//! deterministic tie-break), and assembles the feed under one of the two
//! fan-in policies.

use vstd::prelude::*;
use vstd::multiset::Multiset;
use vstd::seq_lib::group_to_multiset_ensures;
use vstd::seq_lib::lemma_multiset_commutative;

use crate::content::{
    item_wf, res_view, AggregatedFeed, AggregationError, AggregationErrorV, ContentItem,
    ContentItemV, SourceError, SourceErrorV,
};
use crate::date::{date_key, Date};

verus! {

/// What the aggregator does when one source fails.
#[derive(Clone, Copy, PartialEq, Eq, Structural, Debug)]
pub enum FanInPolicy {
    /// Any single source failure fails the whole aggregation.
    AllOrNothing,
    /// Failed sources are dropped from the merge; the aggregation fails
    /// only when every source failed.
    PartialSuccess,
}

/// The items of every successful source, concatenated in source order;
/// within one source, extraction order is preserved.
pub open spec fn ok_items(rs: Seq<Result<Seq<ContentItemV>, SourceErrorV>>) -> Seq<ContentItemV>
    decreases rs.len(),
{
    if rs.len() == 0 {
        Seq::empty()
    } else {
        (match rs[0] {
            Ok(items) => items,
            Err(_) => Seq::empty(),
        }) + ok_items(rs.drop_first())
    }
}

/// The first failing source's error, in source order.
pub open spec fn first_error(rs: Seq<Result<Seq<ContentItemV>, SourceErrorV>>) -> Option<
    SourceErrorV,
>
    decreases rs.len(),
{
    if rs.len() == 0 {
        None
    } else {
        match rs[0] {
            Err(e) => Some(e),
            Ok(_) => first_error(rs.drop_first()),
        }
    }
}

pub open spec fn all_failed(rs: Seq<Result<Seq<ContentItemV>, SourceErrorV>>) -> bool {
    rs.len() > 0 && forall|j: int| 0 <= j < rs.len() ==> (#[trigger] rs[j]) is Err
}

/// Newest first: every item's instant is at or after the next one's.
pub open spec fn sorted_desc(s: Seq<ContentItemV>) -> bool {
    forall|i: int, j: int|
        0 <= i <= j < s.len() ==> date_key(#[trigger] s[i].published_at) >= date_key(
            #[trigger] s[j].published_at,
        )
}

/// `x` placed behind every already-listed item that is at least as new:
/// items with equal instants keep their merge order, the deterministic
/// tie-break of this aggregator.
pub open spec fn insert_desc(s: Seq<ContentItemV>, x: ContentItemV) -> Seq<ContentItemV>
    decreases s.len(),
{
    if s.len() == 0 {
        seq![x]
    } else if date_key(s[0].published_at) >= date_key(x.published_at) {
        seq![s[0]] + insert_desc(s.drop_first(), x)
    } else {
        seq![x] + s
    }
}

/// The merged order of the feed: insertion sort by publication instant,
/// newest first, stable across the merge order.
pub open spec fn sort_desc(s: Seq<ContentItemV>) -> Seq<ContentItemV>
    decreases s.len(),
{
    if s.len() == 0 {
        Seq::empty()
    } else {
        insert_desc(sort_desc(s.drop_last()), s.last())
    }
}

proof fn lemma_insert_desc(s: Seq<ContentItemV>, x: ContentItemV)
    requires
        sorted_desc(s),
    ensures
        sorted_desc(insert_desc(s, x)),
        insert_desc(s, x).len() == s.len() + 1,
        insert_desc(s, x).to_multiset() == s.to_multiset().insert(x),
        forall|k: int|
            0 <= k < insert_desc(s, x).len() ==> insert_desc(s, x)[k] == x || s.contains(
                #[trigger] insert_desc(s, x)[k],
            ),
    decreases s.len(),
{
    broadcast use group_to_multiset_ensures;

    let r = insert_desc(s, x);
    if s.len() == 0 {
        assert(seq![x] =~= Seq::<ContentItemV>::empty().push(x));
        assert(r.to_multiset() =~= s.to_multiset().insert(x));
        assert(r[0] == x);
    } else if date_key(s[0].published_at) >= date_key(x.published_at) {
        let t = s.drop_first();
        assert(sorted_desc(t)) by {
            assert(forall|i: int, j: int|
                0 <= i <= j < t.len() ==> date_key(#[trigger] t[i].published_at) >= date_key(
                    #[trigger] t[j].published_at,
                )) by {
                assert(forall|i: int| 0 <= i < t.len() ==> t[i] == s[i + 1]);
            }
        }
        lemma_insert_desc(t, x);
        let ri = insert_desc(t, x);
        assert(r == seq![s[0]] + ri);
        assert(r.len() == s.len() + 1);
        assert forall|k: int| 0 <= k < r.len() implies r[k] == x || s.contains(#[trigger] r[k]) by {
            if k == 0 {
                assert(r[0] == s[0]);
                assert(s.contains(r[0])) by {
                    assert(s[0] == r[0]);
                }
            } else {
                assert(r[k] == ri[k - 1]);
                if ri[k - 1] == x {
                } else {
                    assert(t.contains(ri[k - 1]));
                    let ix = choose|ix: int| 0 <= ix < t.len() && t[ix] == ri[k - 1];
                    assert(s[ix + 1] == t[ix]);
                    assert(s.contains(r[k])) by {
                        assert(s[ix + 1] == r[k]);
                    }
                }
            }
        }
        assert forall|i2: int, j2: int|
            0 <= i2 <= j2 < r.len() implies date_key(r[i2].published_at) >= date_key(
            r[j2].published_at,
        ) by {
            if i2 == 0 && j2 > 0 {
                let v = r[j2];
                assert(v == ri[j2 - 1]);
                if v == x {
                } else {
                    assert(t.contains(v));
                    let ix = choose|ix: int| 0 <= ix < t.len() && t[ix] == v;
                    assert(s[ix + 1] == v);
                    assert(date_key(s[0].published_at) >= date_key(s[ix + 1].published_at));
                }
            } else if i2 > 0 {
                assert(r[i2] == ri[i2 - 1] && r[j2] == ri[j2 - 1]);
            }
        }
        assert(r.to_multiset() =~= s.to_multiset().insert(x)) by {
            lemma_multiset_commutative(seq![s[0]], ri);
            lemma_multiset_commutative(seq![s[0]], t);
            assert(seq![s[0]] + t =~= s);
            assert(seq![s[0]].to_multiset() =~= Multiset::<ContentItemV>::empty().insert(s[0]))
                by {
                assert(seq![s[0]] =~= Seq::<ContentItemV>::empty().push(s[0]));
            }
        }
    } else {
        assert(r == seq![x] + s);
        assert forall|i2: int, j2: int|
            0 <= i2 <= j2 < r.len() implies date_key(r[i2].published_at) >= date_key(
            r[j2].published_at,
        ) by {
            if i2 == 0 && j2 > 0 {
                assert(r[j2] == s[j2 - 1]);
                assert(date_key(s[0].published_at) >= date_key(s[j2 - 1].published_at));
            } else if i2 > 0 {
                assert(r[i2] == s[i2 - 1] && r[j2] == s[j2 - 1]);
            }
        }
        assert forall|k: int| 0 <= k < r.len() implies r[k] == x || s.contains(#[trigger] r[k]) by {
            if k > 0 {
                assert(r[k] == s[k - 1]);
                assert(s.contains(r[k])) by {
                    assert(s[k - 1] == r[k]);
                }
            }
        }
        assert(r.to_multiset() =~= s.to_multiset().insert(x)) by {
            lemma_multiset_commutative(seq![x], s);
            assert(seq![x].to_multiset() =~= Multiset::<ContentItemV>::empty().insert(x)) by {
                assert(seq![x] =~= Seq::<ContentItemV>::empty().push(x));
            }
        }
    }
}

/// Law: the merged order is sorted by publication instant, newest first,
/// and reordering loses nothing and invents nothing — the sorted sequence
/// holds exactly the merged items, duplicates included.
pub proof fn lemma_sort_desc(s: Seq<ContentItemV>)
    ensures
        sorted_desc(sort_desc(s)),
        sort_desc(s).to_multiset() == s.to_multiset(),
        sort_desc(s).len() == s.len(),
        forall|k: int|
            0 <= k < sort_desc(s).len() ==> s.contains(#[trigger] sort_desc(s)[k]),
    decreases s.len(),
{
    broadcast use group_to_multiset_ensures;

    if s.len() > 0 {
        let t = s.drop_last();
        lemma_sort_desc(t);
        lemma_insert_desc(sort_desc(t), s.last());
        assert(s =~= t.push(s.last()));
        assert(s.to_multiset() == t.to_multiset().insert(s.last()));
        assert forall|k: int| 0 <= k < sort_desc(s).len() implies s.contains(
            #[trigger] sort_desc(s)[k],
        ) by {
            let v = sort_desc(s)[k];
            if v == s.last() {
                assert(s.contains(v)) by {
                    assert(s[s.len() - 1] == v);
                }
            } else if sort_desc(t).contains(v) {
                let ix = choose|ix: int| 0 <= ix < sort_desc(t).len() && sort_desc(t)[ix] == v;
                assert(t.contains(v));
                let jx = choose|jx: int| 0 <= jx < t.len() && t[jx] == v;
                assert(s.contains(v)) by {
                    assert(s[jx] == v);
                }
            }
        }
    }
}

/// Law: aggregation is a function of the per-source results alone — two
/// aggregations over equal result sets yield equal outcomes, items and
/// order included.
pub proof fn lemma_aggregate_deterministic(
    a: Seq<Result<Seq<ContentItemV>, SourceErrorV>>,
    b: Seq<Result<Seq<ContentItemV>, SourceErrorV>>,
    policy: FanInPolicy,
)
    requires
        a == b,
    ensures
        aggregate_spec(a, policy) == aggregate_spec(b, policy),
{
}

/// What aggregation yields, as a function of the per-source results.
pub open spec fn aggregate_spec(
    rs: Seq<Result<Seq<ContentItemV>, SourceErrorV>>,
    policy: FanInPolicy,
) -> Result<Seq<ContentItemV>, AggregationErrorV> {
    match policy {
        FanInPolicy::AllOrNothing => match first_error(rs) {
            Some(e) => Err(AggregationErrorV::SourceFailed(e)),
            None => Ok(sort_desc(ok_items(rs))),
        },
        FanInPolicy::PartialSuccess => if all_failed(rs) {
            Err(AggregationErrorV::AllSourcesFailed)
        } else {
            Ok(sort_desc(ok_items(rs)))
        },
    }
}

/// Law: a source that succeeds with zero items neither errs nor appears —
/// dropping it changes no merged item and no reported error; under the
/// all-or-nothing policy the aggregation outcome is identical, and under
/// the partial-success policy it is identical as long as the remaining
/// sources are not all failures (removing the lone success of an otherwise
/// failing set leaves nothing to succeed on).
pub proof fn lemma_empty_source_invisible(
    rs: Seq<Result<Seq<ContentItemV>, SourceErrorV>>,
    i: int,
)
    requires
        0 <= i < rs.len(),
        rs[i] == Ok::<Seq<ContentItemV>, SourceErrorV>(Seq::<ContentItemV>::empty()),
    ensures
        ok_items(rs.remove(i)) == ok_items(rs),
        first_error(rs.remove(i)) == first_error(rs),
        aggregate_spec(rs, FanInPolicy::AllOrNothing) == aggregate_spec(
            rs.remove(i),
            FanInPolicy::AllOrNothing,
        ),
        !all_failed(rs.remove(i)) ==> aggregate_spec(rs, FanInPolicy::PartialSuccess)
            == aggregate_spec(rs.remove(i), FanInPolicy::PartialSuccess),
    decreases rs.len(),
{
    let rr = rs.remove(i);
    if i == 0 {
        assert(rr =~= rs.drop_first());
        assert(ok_items(rs) == Seq::<ContentItemV>::empty() + ok_items(rs.drop_first()));
        assert(Seq::<ContentItemV>::empty() + ok_items(rs.drop_first()) =~= ok_items(
            rs.drop_first(),
        ));
    } else {
        let t = rs.drop_first();
        lemma_empty_source_invisible(t, i - 1);
        assert(rr[0] == rs[0]);
        assert(rr.drop_first() =~= t.remove(i - 1));
    }
    assert(!all_failed(rs)) by {
        assert(!(rs[i] is Err));
    }
}

/// Per-source results whose successful items are all well formed, as every
/// result that extraction produced is.
pub open spec fn results_wf(rs: Seq<Result<Seq<ContentItemV>, SourceErrorV>>) -> bool {
    forall|j: int|
        0 <= j < rs.len() ==> match #[trigger] rs[j] {
            Ok(items) => forall|k: int| 0 <= k < items.len() ==> item_wf(#[trigger] items[k]),
            Err(_) => true,
        }
}

/// Merging well-formed sources yields well-formed items only.
pub proof fn lemma_ok_items_wf(rs: Seq<Result<Seq<ContentItemV>, SourceErrorV>>)
    requires
        results_wf(rs),
    ensures
        forall|k: int| 0 <= k < ok_items(rs).len() ==> item_wf(#[trigger] ok_items(rs)[k]),
    decreases rs.len(),
{
    if rs.len() > 0 {
        let t = rs.drop_first();
        assert(results_wf(t)) by {
            assert(forall|j: int| 0 <= j < t.len() ==> t[j] == rs[j + 1]);
        }
        lemma_ok_items_wf(t);
        let head = match rs[0] {
            Ok(items) => items,
            Err(_) => Seq::empty(),
        };
        assert forall|k: int| 0 <= k < ok_items(rs).len() implies item_wf(
            #[trigger] ok_items(rs)[k],
        ) by {
            if k < head.len() {
                assert(ok_items(rs)[k] == head[k]);
            } else {
                assert(ok_items(rs)[k] == ok_items(t)[k - head.len()]);
            }
        }
    }
}

fn date_key_exec(d: &Date) -> (k: u64)
    ensures
        k == date_key(*d),
{
    (d.year as u64) * 10000 + (d.month as u64) * 100 + (d.day as u64)
}

proof fn lemma_insert_desc_at(s: Seq<ContentItemV>, x: ContentItemV, p: int)
    requires
        0 <= p <= s.len(),
        forall|j: int|
            0 <= j < p ==> date_key(#[trigger] s[j].published_at) >= date_key(x.published_at),
        p < s.len() ==> date_key(s[p].published_at) < date_key(x.published_at),
    ensures
        insert_desc(s, x) == s.insert(p, x),
    decreases s.len(),
{
    if p == 0 {
        if s.len() == 0 {
            assert(insert_desc(s, x) =~= s.insert(0, x));
        } else {
            assert(insert_desc(s, x) == seq![x] + s);
            assert(seq![x] + s =~= s.insert(0, x));
        }
    } else {
        let t = s.drop_first();
        assert(date_key(s[0].published_at) >= date_key(x.published_at));
        assert(forall|j: int|
            0 <= j < p - 1 ==> date_key(#[trigger] t[j].published_at) >= date_key(
                x.published_at,
            )) by {
            assert(forall|j: int| 0 <= j < t.len() ==> t[j] == s[j + 1]);
        }
        lemma_insert_desc_at(t, x, p - 1);
        assert(seq![s[0]] + t.insert(p - 1, x) =~= s.insert(p, x));
    }
}

/// Places one item into an already ordered vector, keeping the order and
/// putting it behind every item that is at least as new.
fn insert_item(out: &mut Vec<ContentItem>, x: ContentItem)
    ensures
        final (out).deep_view() == insert_desc(old(out).deep_view(), x.deep_view()),
{
    let ghost s = out.deep_view();
    let n = out.len();
    let mut p: usize = 0;
    let xk = date_key_exec(&x.published_at);
    while p < n && date_key_exec(&out[p].published_at) >= xk
        invariant
            p <= n,
            n == out@.len(),
            s == out.deep_view(),
            s.len() == n,
            xk == date_key(x.deep_view().published_at),
            forall|j: int|
                0 <= j < p ==> date_key(#[trigger] s[j].published_at) >= date_key(
                    x.deep_view().published_at,
                ),
        decreases n - p,
    {
        proof {
            assert(s[p as int] == out@[p as int].deep_view());
        }
        p += 1;
    }
    proof {
        lemma_insert_desc_at(s, x.deep_view(), p as int);
    }
    out.insert(p, x);
    proof {
        assert(out.deep_view() =~= s.insert(p as int, x.deep_view())) by {
            assert(forall|k: int|
                0 <= k < out@.len() ==> (#[trigger] out.deep_view()[k]) == out@[k].deep_view());
        }
    }
}

/// Orders the merged items by publication instant, newest first, with the
/// stable tie-break: items with equal instants keep their merge order.
fn sort_items(items: Vec<ContentItem>) -> (r: Vec<ContentItem>)
    ensures
        r.deep_view() == sort_desc(items.deep_view()),
{
    let ghost s = items.deep_view();
    let mut out: Vec<ContentItem> = Vec::new();
    proof {
        assert(out.deep_view() =~= Seq::<ContentItemV>::empty());
        assert(s.take(0) =~= Seq::<ContentItemV>::empty());
        assert(s.skip(0) =~= s);
    }
    let mut rest = items;
    let total = rest.len();
    let mut i: usize = 0;
    while i < total
        invariant
            i <= total,
            total == s.len(),
            rest@.len() == total - i,
            rest.deep_view() == s.skip(i as int),
            out.deep_view() == sort_desc(s.take(i as int)),
        decreases total - i,
    {
        proof {
            assert(rest.deep_view()[0] == rest@[0].deep_view());
            assert(s.skip(i as int)[0] == s[i as int]);
        }
        let ghost prev = rest@;
        let x = rest.remove(0);
        proof {
            assert(x.deep_view() == s[i as int]);
            assert(rest.deep_view() =~= s.skip(i + 1)) by {
                assert(forall|k: int| 0 <= k < rest@.len() ==> rest@[k] == prev[k + 1]);
                assert(forall|k: int|
                    0 <= k < rest@.len() ==> (#[trigger] rest.deep_view()[k])
                        == rest@[k].deep_view());
                assert(forall|k: int|
                    0 <= k < rest@.len() ==> (#[trigger] prev[k + 1]).deep_view() == s.skip(
                        i as int,
                    )[k + 1]);
                assert(forall|k: int|
                    0 <= k < rest@.len() ==> s.skip(i as int)[k + 1] == (#[trigger] s.skip(
                        i + 1,
                    )[k]));
            }
        }
        insert_item(&mut out, x);
        proof {
            assert(s.take(i + 1).drop_last() =~= s.take(i as int));
            assert(s.take(i + 1).last() == s[i as int]);
        }
        i += 1;
    }
    proof {
        assert(s.take(total as int) =~= s);
    }
    out
}

/// The view of a per-source result set.
pub open spec fn results_view(rs: Seq<Result<Vec<ContentItem>, SourceError>>) -> Seq<
    Result<Seq<ContentItemV>, SourceErrorV>,
> {
    rs.map_values(|r: Result<Vec<ContentItem>, SourceError>| res_view(r))
}

/// Fans in the per-source results: merges every successful source's items,
/// orders them newest first under the stable tie-break, and wraps them
/// with the channel metadata; failures are handled by the chosen policy.
/// Sources that succeeded with zero items contribute nothing and block
/// nothing.
pub fn aggregate(
    results: Vec<Result<Vec<ContentItem>, SourceError>>,
    policy: FanInPolicy,
    channel_title: String,
    channel_link: String,
) -> (r: Result<AggregatedFeed, AggregationError>)
    ensures
        match r {
            Ok(feed) => aggregate_spec(results_view(results@), policy) == Ok::<
                Seq<ContentItemV>,
                AggregationErrorV,
            >(feed.items.deep_view()) && feed.channel_title@ == channel_title@
                && feed.channel_link@ == channel_link@ && sorted_desc(feed.items.deep_view()),
            Err(e) => aggregate_spec(results_view(results@), policy) == Err::<
                Seq<ContentItemV>,
                AggregationErrorV,
            >(e@),
        },
{
    let ghost rs = results_view(results@);
    let mut pending = results;
    let mut merged: Vec<ContentItem> = Vec::new();
    let mut first_err: Option<SourceError> = None;
    let mut saw_ok: bool = false;
    let total = pending.len();
    proof {
        assert(rs.skip(0) =~= rs);
        assert(merged.deep_view() =~= Seq::<ContentItemV>::empty());
        assert(Seq::<ContentItemV>::empty() + ok_items(rs) =~= ok_items(rs));
    }
    let mut i: usize = 0;
    while i < total
        invariant
            i <= total,
            total == rs.len(),
            pending@.len() == total - i,
            results_view(pending@) == rs.skip(i as int),
            ok_items(rs) == merged.deep_view() + ok_items(rs.skip(i as int)),
            first_err is None ==> first_error(rs) == first_error(rs.skip(i as int)),
            first_err matches Some(e) ==> first_error(rs) == Some(e@),
            saw_ok == exists|j: int| 0 <= j < i && !((#[trigger] rs[j]) is Err),
        decreases total - i,
    {
        proof {
            assert(rs.skip(i as int)[0] == results_view(pending@)[0]);
            assert(results_view(pending@)[0] == res_view(pending@[0]));
            assert(rs.skip(i as int)[0] == rs[i as int]);
        }
        let ghost head = pending@[0];
        let ghost pprev = pending@;
        let r0 = pending.remove(0);
        let ghost r0v = r0;
        proof {
            assert(r0v == head);
            assert(results_view(pending@) =~= rs.skip(i + 1)) by {
                assert(forall|k: int| 0 <= k < pending@.len() ==> pending@[k] == pprev[k + 1]);
                assert(forall|k: int|
                    0 <= k < pending@.len() ==> (#[trigger] results_view(pending@)[k])
                        == res_view(pending@[k]));
                assert(forall|k: int|
                    0 <= k < pending@.len() ==> res_view(#[trigger] pprev[k + 1]) == results_view(
                        pprev,
                    )[k + 1]);
                assert(forall|k: int|
                    0 <= k < pending@.len() ==> rs.skip(i as int)[k + 1] == (#[trigger] rs.skip(
                        i + 1,
                    )[k]));
            }
            assert(rs.skip(i as int).drop_first() =~= rs.skip(i + 1));
        }
        match r0 {
            Ok(mut items) => {
                proof {
                    assert(r0v == Ok::<Vec<ContentItem>, SourceError>(items));
                    assert(rs.skip(i as int)[0] == Ok::<Seq<ContentItemV>, SourceErrorV>(
                        items.deep_view(),
                    ));
                    assert(!(rs[i as int] is Err));
                }
                saw_ok = true;
                let ghost mprev = merged.deep_view();
                let ghost iprev = items.deep_view();
                merged.append(&mut items);
                proof {
                    assert(merged.deep_view() =~= mprev + iprev) by {
                        assert(forall|k: int|
                            0 <= k < merged@.len() ==> (#[trigger] merged.deep_view()[k])
                                == merged@[k].deep_view());
                    }
                    assert(mprev + (iprev + ok_items(rs.skip(i + 1))) =~= (mprev + iprev)
                        + ok_items(rs.skip(i + 1)));
                }
            },
            Err(e) => {
                proof {
                    assert(r0v == Err::<Vec<ContentItem>, SourceError>(e));
                    assert(rs.skip(i as int)[0] == Err::<Seq<ContentItemV>, SourceErrorV>(e@));
                    assert(rs[i as int] is Err);
                    assert(Seq::<ContentItemV>::empty() + ok_items(rs.skip(i + 1)) =~= ok_items(
                        rs.skip(i + 1),
                    ));
                }
                if first_err.is_none() {
                    first_err = Some(e);
                }
            },
        }
        i += 1;
    }
    proof {
        assert(rs.skip(total as int) =~= Seq::<Result<Seq<ContentItemV>, SourceErrorV>>::empty());
        assert(merged.deep_view() + Seq::<ContentItemV>::empty() =~= merged.deep_view());
        if !saw_ok && total > 0 {
            assert(all_failed(rs)) by {
                assert(forall|j: int| 0 <= j < rs.len() ==> (#[trigger] rs[j]) is Err);
            }
        }
        if saw_ok {
            assert(!all_failed(rs));
        }
        lemma_sort_desc(merged.deep_view());
    }
    match policy {
        FanInPolicy::AllOrNothing => match first_err {
            Some(e) => Err(AggregationError::SourceFailed(e)),
            None => {
                let items = sort_items(merged);
                Ok(AggregatedFeed { channel_title, channel_link, items })
            },
        },
        FanInPolicy::PartialSuccess => {
            if !saw_ok && total > 0 {
                Err(AggregationError::AllSourcesFailed)
            } else {
                let items = sort_items(merged);
                Ok(AggregatedFeed { channel_title, channel_link, items })
            }
        },
    }
}

/// The feed's fixed channel title.
pub fn default_channel_title() -> (t: String)
    ensures
        t@ == "Rustfully syndicated"@,
{
    "Rustfully syndicated".to_owned()
}

/// The channel's self-referential link when no override is configured.
pub fn default_channel_link() -> (t: String)
    ensures
        t@ == "http://localhost:3000"@,
{
    "http://localhost:3000".to_owned()
}

} // verus!
