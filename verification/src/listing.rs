//! Ordering for media listings: a total sort key per row (the ordering
//! column, the id as tie-break, the position last), a verified sort, and the
//! page extraction over the ordered rows.

use vstd::prelude::*;
use vstd::relations::{sorted_by, total_ordering};

use crate::api::{Direction, MediaOrderByField};
use crate::model::media::Media;
use crate::pagination::page_of;
use crate::seqs::{lemma_insert_multiset, lemma_sorted_insert};

verus! {

/// The sort key of one row: the ordering column's value, the row id as a
/// tie-break, and the row's position so that the order is total.
#[derive(Clone, Copy, Debug, PartialEq, Eq, Structural)]
pub struct SortKey {
    pub primary: i64,
    pub hi: u64,
    pub lo: u64,
    pub idx: usize,
}

/// The ordering column of a row: creation time unless updates are asked for.
pub open spec fn primary_of(m: Media, field: MediaOrderByField) -> i64 {
    match field {
        MediaOrderByField::UpdatedAt => m.updated_at,
        _ => m.created_at,
    }
}

/// The sort key of the row at position `i`.
pub open spec fn key_of(rows: Seq<Media>, field: MediaOrderByField, i: int) -> SortKey {
    SortKey {
        primary: primary_of(rows[i], field),
        hi: rows[i].media_id.hi,
        lo: rows[i].media_id.lo,
        idx: i as usize,
    }
}

/// The sort keys of all rows, in row order.
pub open spec fn keys_of(rows: Seq<Media>, field: MediaOrderByField) -> Seq<SortKey> {
    Seq::new(rows.len(), |i: int| key_of(rows, field, i))
}

/// The key order: by the ordering column in the requested direction, ties by
/// id, remaining ties by position.
pub open spec fn key_le_at(desc: bool, a: SortKey, b: SortKey) -> bool {
    if a.primary != b.primary {
        if desc {
            a.primary > b.primary
        } else {
            a.primary < b.primary
        }
    } else if a.hi != b.hi {
        a.hi < b.hi
    } else if a.lo != b.lo {
        a.lo < b.lo
    } else {
        a.idx <= b.idx
    }
}

/// The key order as a relation.
pub open spec fn key_le(desc: bool) -> spec_fn(SortKey, SortKey) -> bool {
    |a: SortKey, b: SortKey| key_le_at(desc, a, b)
}

/// The key order is total, so a listing has exactly one sorted arrangement.
pub proof fn lemma_key_le_total(desc: bool)
    ensures
        total_ordering(key_le(desc)),
{
    let leq = key_le(desc);
    assert forall|a: SortKey| #[trigger] leq(a, a) by {}
    assert forall|a: SortKey, b: SortKey| #[trigger] leq(a, b) && #[trigger] leq(b, a) implies a
        == b by {}
    assert forall|a: SortKey, b: SortKey, c: SortKey|
        #[trigger] leq(a, b) && #[trigger] leq(b, c) implies leq(a, c) by {}
    assert forall|a: SortKey, b: SortKey| !(#[trigger] leq(a, b)) implies #[trigger] leq(b, a) by {}
}

/// The canonical order of a listing's keys.
pub open spec fn sorted_keys(rows: Seq<Media>, field: MediaOrderByField, desc: bool) -> Seq<
    SortKey,
> {
    keys_of(rows, field).sort_by(key_le(desc))
}

/// A listing's rows in their canonical order.
pub open spec fn ordered(rows: Seq<Media>, field: MediaOrderByField, desc: bool) -> Seq<Media> {
    let ks = sorted_keys(rows, field, desc);
    Seq::new(ks.len(), |p: int| rows[ks[p].idx as int])
}

/// The ordering column an order request resolves to: creation time by
/// default.
pub open spec fn field_of(order_by: Option<(MediaOrderByField, Direction)>) -> MediaOrderByField {
    match order_by {
        Some((MediaOrderByField::UpdatedAt, _)) => MediaOrderByField::UpdatedAt,
        _ => MediaOrderByField::CreatedAt,
    }
}

/// The direction an order request resolves to: descending unless ascending
/// is asked for.
pub open spec fn desc_of(order_by: Option<(MediaOrderByField, Direction)>) -> bool {
    !(order_by matches Some((_, Direction::Asc)))
}

/// The typed filter of a listing: a case-insensitive name fragment, or an
/// exact offer link.
#[derive(Clone, Debug, PartialEq)]
pub enum ListFilter {
    Name(String),
    OfferId(crate::ids::Uuid),
}

/// Whether a row passes a filter.
pub open spec fn filter_passes(
    offers: Seq<crate::model::media_offer::MediaOffer>,
    filter: Option<ListFilter>,
    m: Media,
) -> bool {
    match filter {
        None => true,
        Some(ListFilter::Name(q)) => crate::text::spec_contains_ci(m.name@, q@),
        Some(ListFilter::OfferId(o)) => crate::model::media_offer::has_pair(offers, m.media_id, o),
    }
}

/// The predicate an owner listing applies: the caller's rows in one market
/// booth, restricted by the filter.
pub open spec fn owner_pred(
    offers: Seq<crate::model::media_offer::MediaOffer>,
    booth: crate::ids::Uuid,
    user: Seq<char>,
    filter: Option<ListFilter>,
) -> spec_fn(Media) -> bool {
    |m: Media| m.market_booth_id == booth && m.user_id@ == user && filter_passes(offers, filter, m)
}

/// Every position of an ordered listing holds one of the listing's rows.
pub proof fn lemma_ordered_elements(rows: Seq<Media>, field: MediaOrderByField, desc: bool)
    requires
        rows.len() <= usize::MAX,
    ensures
        ordered(rows, field, desc).len() == rows.len(),
        forall|p: int|
            0 <= p < rows.len() ==> rows.contains(#[trigger] ordered(rows, field, desc)[p]),
{
    let ks = keys_of(rows, field);
    let sorted = sorted_keys(rows, field, desc);
    lemma_key_le_total(desc);
    ks.lemma_sort_by_ensures(key_le(desc));
    assert(sorted.len() == rows.len()) by {
        ks.to_multiset_ensures();
        sorted.to_multiset_ensures();
        assert(ks.to_multiset().len() == ks.len());
        assert(sorted.to_multiset().len() == sorted.len());
    }
    assert forall|p: int| 0 <= p < rows.len() implies rows.contains(
        #[trigger] ordered(rows, field, desc)[p],
    ) by {
        broadcast use vstd::seq_lib::group_to_multiset_ensures;

        assert(sorted.to_multiset().contains(sorted[p]));
        assert(ks.to_multiset().contains(sorted[p]));
        assert(ks.contains(sorted[p]));
        let w = choose|w: int| 0 <= w < ks.len() && ks[w] == sorted[p];
        assert(ks[w] == key_of(rows, field, w));
        assert(ordered(rows, field, desc)[p] == rows[sorted[p].idx as int]);
        assert(rows[w] == ordered(rows, field, desc)[p]);
    }
}

fn key_le_exec(desc: bool, a: &SortKey, b: &SortKey) -> (r: bool)
    ensures
        r == key_le_at(desc, *a, *b),
{
    if a.primary != b.primary {
        if desc {
            a.primary > b.primary
        } else {
            a.primary < b.primary
        }
    } else if a.hi != b.hi {
        a.hi < b.hi
    } else if a.lo != b.lo {
        a.lo < b.lo
    } else {
        a.idx <= b.idx
    }
}

/// The sort keys of a row vector.
fn build_keys(rows: &Vec<Media>, field: MediaOrderByField) -> (r: Vec<SortKey>)
    ensures
        r@ == keys_of(rows@, field),
{
    let n = rows.len();
    let mut out: Vec<SortKey> = Vec::new();
    let mut i: usize = 0;
    while i < n
        invariant
            n == rows@.len(),
            i <= n,
            out@.len() == i,
            forall|k: int| 0 <= k < i ==> #[trigger] out@[k] == key_of(rows@, field, k),
        decreases n - i,
    {
        let primary = match field {
            MediaOrderByField::UpdatedAt => rows[i].updated_at,
            _ => rows[i].created_at,
        };
        out.push(
            SortKey { primary, hi: rows[i].media_id.hi, lo: rows[i].media_id.lo, idx: i },
        );
        i = i + 1;
    }
    proof {
        assert(out@ =~= keys_of(rows@, field));
    }
    out
}

/// Sort keys into the canonical order.
fn sort_keys_exec(input: &Vec<SortKey>, desc: bool) -> (r: Vec<SortKey>)
    ensures
        r@ == input@.sort_by(key_le(desc)),
{
    let ghost leq = key_le(desc);
    proof {
        lemma_key_le_total(desc);
    }
    let n = input.len();
    let mut out: Vec<SortKey> = Vec::new();
    proof {
        broadcast use vstd::seq_lib::group_to_multiset_ensures;

        assert(out@.to_multiset() =~= input@.take(0).to_multiset()) by {
            assert(input@.take(0) =~= Seq::<SortKey>::empty());
        }
    }
    let mut i: usize = 0;
    while i < n
        invariant
            n == input@.len(),
            leq == key_le(desc),
            total_ordering(leq),
            i <= n,
            sorted_by(out@, leq),
            out@.to_multiset() == input@.take(i as int).to_multiset(),
            out@.len() == i,
        decreases n - i,
    {
        let k = input[i];
        let m = out.len();
        let mut pos: usize = 0;
        while pos < m && key_le_exec(desc, &out[pos], &k)
            invariant
                m == out@.len(),
                leq == key_le(desc),
                k == input@[i as int],
                pos <= m,
                forall|q: int| 0 <= q < pos ==> leq(#[trigger] out@[q], k),
            decreases m - pos,
        {
            pos = pos + 1;
        }
        proof {
            if pos < m {
                assert(!key_le_at(desc, out@[pos as int], k));
                assert(leq(k, out@[pos as int]));
            }
            assert forall|q: int| pos <= q < out@.len() implies leq(k, #[trigger] out@[q]) by {
                assert(leq(k, out@[pos as int]));
                if q > pos {
                    assert(leq(out@[pos as int], out@[q]));
                }
            }
            lemma_sorted_insert(out@, pos as int, k, leq);
            lemma_insert_multiset(out@, pos as int, k);
        }
        out.insert(pos, k);
        proof {
            broadcast use vstd::seq_lib::group_to_multiset_ensures;

            assert(input@.take(i + 1) =~= input@.take(i as int).push(input@[i as int]));
            assert(input@.take(i + 1).to_multiset() == input@.take(i as int).to_multiset().insert(
                input@[i as int],
            ));
        }
        i = i + 1;
    }
    proof {
        assert(input@.take(n as int) =~= input@);
        input@.lemma_sort_by_ensures(leq);
        vstd::seq_lib::lemma_sorted_unique(out@, input@.sort_by(leq), leq);
    }
    out
}

/// One page of the rows in their canonical order. The rows must be stored
/// rows (no read-time aggregate); the page holds equal copies.
pub fn page_rows(
    base: &Vec<Media>,
    field: MediaOrderByField,
    desc: bool,
    offset: u64,
    limit: u64,
) -> (r: Vec<Media>)
    requires
        forall|k: int| 0 <= k < base@.len() ==> (#[trigger] base@[k]).offer_ids is None,
    ensures
        r@ == page_of(ordered(base@, field, desc), offset as int, limit as int),
{
    let keys = build_keys(base, field);
    let sorted = sort_keys_exec(&keys, desc);
    let ghost ord = ordered(base@, field, desc);
    proof {
        lemma_key_le_total(desc);
        keys@.lemma_sort_by_ensures(key_le(desc));
        assert(sorted@.len() == base@.len()) by {
            keys@.to_multiset_ensures();
            sorted@.to_multiset_ensures();
            assert(keys@.to_multiset().len() == keys@.len());
            assert(sorted@.to_multiset().len() == sorted@.len());
        }
        assert forall|p: int| 0 <= p < sorted@.len() implies 0 <= (#[trigger] sorted@[p]).idx
            < base@.len() by {
            broadcast use vstd::seq_lib::group_to_multiset_ensures;

            assert(sorted@.to_multiset().contains(sorted@[p]));
            assert(keys@.to_multiset().contains(sorted@[p]));
            assert(keys@.contains(sorted@[p]));
            let w = choose|w: int| 0 <= w < keys@.len() && keys@[w] == sorted@[p];
            assert(keys@[w] == key_of(base@, field, w));
        }
    }
    let total = sorted.len();
    let lo: usize = if offset > total as u64 {
        total
    } else {
        offset as usize
    };
    let room: u64 = (total - lo) as u64;
    let take_n: usize = if limit > room {
        total - lo
    } else {
        limit as usize
    };
    let mut r: Vec<Media> = Vec::new();
    let mut p: usize = 0;
    while p < take_n
        invariant
            total == sorted@.len(),
            sorted@ == sorted_keys(base@, field, desc),
            ord == ordered(base@, field, desc),
            forall|k: int| 0 <= k < base@.len() ==> (#[trigger] base@[k]).offer_ids is None,
            forall|q: int| 0 <= q < sorted@.len() ==> 0 <= (#[trigger] sorted@[q]).idx < base@.len(),
            lo + take_n <= total,
            p <= take_n,
            r@.len() == p,
            forall|q: int| 0 <= q < p ==> #[trigger] r@[q] == ord[lo + q],
        decreases take_n - p,
    {
        let ki = sorted[lo + p].idx;
        let row = base[ki].duplicate();
        r.push(row);
        proof {
            assert(ord[lo + p] == base@[sorted@[lo + p].idx as int]);
        }
        p = p + 1;
    }
    proof {
        let o = offset as int;
        let l = limit as int;
        let seglo = if o > ord.len() {
            ord.len() as int
        } else {
            o
        };
        let seghi = if o + l > ord.len() {
            ord.len() as int
        } else {
            o + l
        };
        assert(ord.len() == sorted@.len());
        assert(seglo == lo as int);
        assert(seghi == lo + take_n);
        assert(r@ =~= page_of(ord, o, l));
    }
    r
}

} // verus!
