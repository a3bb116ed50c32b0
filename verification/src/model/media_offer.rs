//! The many-to-many association between medias and offers.

use vstd::prelude::*;

use crate::errors::DbError;
use crate::ids::Uuid;
use crate::model::media::{find_media_index, has_media, store_wf, MediaStore};
use crate::seqs::{lemma_filter_all, lemma_filter_indexes, lemma_filter_member,
    lemma_filter_singleton};

verus! {

/// Column identifiers of the `media_offers` table.
#[derive(Clone, Copy, Debug, PartialEq, Eq, Structural)]
pub enum MediaOfferIden {
    Table,
    MediaId,
    OfferId,
}

impl MediaOfferIden {
    /// The SQL name of this identifier.
    pub fn sql_name(&self) -> (r: &'static str)
        ensures
            r@ == spec_media_offer_iden_name(*self),
    {
        match self {
            MediaOfferIden::Table => "media_offers",
            MediaOfferIden::MediaId => "media_id",
            MediaOfferIden::OfferId => "offer_id",
        }
    }
}

pub open spec fn spec_media_offer_iden_name(i: MediaOfferIden) -> Seq<char> {
    match i {
        MediaOfferIden::Table => "media_offers"@,
        MediaOfferIden::MediaId => "media_id"@,
        MediaOfferIden::OfferId => "offer_id"@,
    }
}

/// One association row: the composite key is the whole row.
#[derive(Clone, Copy, Debug, PartialEq, Eq, Structural)]
pub struct MediaOffer {
    pub media_id: Uuid,
    pub offer_id: Uuid,
}

/// Whether the association holds a given pair.
pub open spec fn has_pair(offers: Seq<MediaOffer>, media_id: Uuid, offer_id: Uuid) -> bool {
    exists|i: int|
        0 <= i < offers.len() && #[trigger] offers[i] == (MediaOffer { media_id, offer_id })
}

/// At most one row per pair.
pub open spec fn pairs_distinct(offers: Seq<MediaOffer>) -> bool {
    forall|i: int, j: int| 0 <= i < j < offers.len() ==> #[trigger] offers[i] != #[trigger] offers[j]
}

/// The offer ids linked to a media, in row order: the aggregate a read
/// returns beside the media row.
pub open spec fn offers_of(offers: Seq<MediaOffer>, media_id: Uuid) -> Seq<Uuid> {
    offers.filter(|o: MediaOffer| o.media_id == media_id).map_values(|o: MediaOffer| o.offer_id)
}

/// The filter predicate a media deletion's cascade applies: keep the rows
/// of every other media.
pub open spec fn not_media(media_id: Uuid) -> spec_fn(MediaOffer) -> bool {
    |o: MediaOffer| o.media_id != media_id
}

/// The filter predicate a pair deletion applies: keep every other row.
pub open spec fn not_pair(media_id: Uuid, offer_id: Uuid) -> spec_fn(MediaOffer) -> bool {
    |o: MediaOffer| o != (MediaOffer { media_id, offer_id })
}

/// Find the index of an association pair.
pub(crate) fn find_pair_index(offers: &Vec<MediaOffer>, media_id: Uuid, offer_id: Uuid) -> (r:
    Option<usize>)
    ensures
        r matches Some(i) ==> i < offers@.len() && offers@[i as int] == (MediaOffer {
            media_id,
            offer_id,
        }),
        r is Some <==> has_pair(offers@, media_id, offer_id),
{
    let pair = MediaOffer { media_id, offer_id };
    let n = offers.len();
    let mut i: usize = 0;
    while i < n
        invariant
            n == offers@.len(),
            pair == (MediaOffer { media_id, offer_id }),
            i <= n,
            forall|k: int| 0 <= k < i ==> #[trigger] offers@[k] != pair,
        decreases n - i,
    {
        if offers[i] == pair {
            return Some(i);
        }
        i = i + 1;
    }
    None
}

impl MediaOffer {
    /// Insert an association row. Inserting a pair that already exists is a
    /// success that changes nothing; the association's foreign key demands
    /// that the media row exist.
    pub fn upsert(store: &mut MediaStore, media_id: Uuid, offer_id: Uuid) -> (r: Result<
        (),
        DbError,
    >)
        requires
            store_wf(*old(store)),
        ensures
            store_wf(*final(store)),
            final(store).medias@ == old(store).medias@,
            final(store).media_subscriptions@ == old(store).media_subscriptions@,
            !has_media(old(store).medias@, media_id) ==> r == Result::<(), DbError>::Err(
                DbError::ForeignKeyViolation,
            ) && final(store).media_offers@ == old(store).media_offers@,
            has_media(old(store).medias@, media_id) ==> r is Ok && final(store).media_offers@ == (
            if has_pair(old(store).media_offers@, media_id, offer_id) {
                old(store).media_offers@
            } else {
                old(store).media_offers@.push(MediaOffer { media_id, offer_id })
            }),
    {
        if find_media_index(&store.medias, media_id).is_none() {
            return Err(DbError::ForeignKeyViolation);
        }
        match find_pair_index(&store.media_offers, media_id, offer_id) {
            Some(_) => Ok(()),
            None => {
                store.media_offers.push(MediaOffer { media_id, offer_id });
                proof {
                    let pairs = store.media_offers@;
                    let prev = old(store).media_offers@;
                    assert forall|i: int, j: int| 0 <= i < j < pairs.len() implies (
                    #[trigger] pairs[i]) != (#[trigger] pairs[j]) by {
                        if j < pairs.len() - 1 {
                            assert(pairs[i] == prev[i] && pairs[j] == prev[j]);
                        } else {
                            assert(pairs[i] == prev[i]);
                        }
                    }
                    assert forall|i: int| 0 <= i < pairs.len() implies has_media(
                        store.medias@,
                        (#[trigger] pairs[i]).media_id,
                    ) by {
                        if i < pairs.len() - 1 {
                            assert(pairs[i] == prev[i]);
                        }
                    }
                }
                Ok(())
            },
        }
    }

    /// Delete an association row. Deleting a pair that does not exist
    /// deletes nothing and is no error.
    pub fn delete(store: &mut MediaStore, media_id: Uuid, offer_id: Uuid) -> (r: Result<
        (),
        DbError,
    >)
        requires
            store_wf(*old(store)),
        ensures
            store_wf(*final(store)),
            r is Ok,
            final(store).medias@ == old(store).medias@,
            final(store).media_subscriptions@ == old(store).media_subscriptions@,
            final(store).media_offers@ == old(store).media_offers@.filter(
                not_pair(media_id, offer_id),
            ),
            !has_pair(old(store).media_offers@, media_id, offer_id) ==> final(store).media_offers@
                == old(store).media_offers@,
            !has_pair(final(store).media_offers@, media_id, offer_id),
    {
        let pair = MediaOffer { media_id, offer_id };
        let ghost p = not_pair(media_id, offer_id);
        let n = store.media_offers.len();
        let mut acc: Vec<MediaOffer> = Vec::new();
        proof {
            assert(old(store).media_offers@.take(0).filter(p) =~= Seq::empty()) by {
                reveal(Seq::filter);
            }
        }
        let mut i: usize = 0;
        while i < n
            invariant
                n == store.media_offers@.len(),
                store.media_offers@ == old(store).media_offers@,
                p == not_pair(media_id, offer_id),
                pair == (MediaOffer { media_id, offer_id }),
                i <= n,
                acc@ == store.media_offers@.take(i as int).filter(p),
            decreases n - i,
        {
            let o = store.media_offers[i];
            proof {
                assert(store.media_offers@.take(i + 1) =~= store.media_offers@.take(i as int)
                    + seq![store.media_offers@[i as int]]);
                Seq::filter_distributes_over_add(
                    store.media_offers@.take(i as int),
                    seq![store.media_offers@[i as int]],
                    p,
                );
                lemma_filter_singleton(store.media_offers@[i as int], p);
            }
            if !(o == pair) {
                acc.push(o);
            }
            proof {
                assert(acc@ =~= store.media_offers@.take(i + 1).filter(p));
            }
            i = i + 1;
        }
        proof {
            assert(store.media_offers@.take(n as int) =~= store.media_offers@);
        }
        store.media_offers = acc;
        proof {
            let prev = old(store).media_offers@;
            let pairs = store.media_offers@;
            assert forall|i: int, j: int| 0 <= i < j < pairs.len() implies (#[trigger] pairs[i])
                != (#[trigger] pairs[j]) by {
                lemma_filter_indexes(prev, p, i, j);
            }
            assert forall|i: int| 0 <= i < pairs.len() implies has_media(
                store.medias@,
                (#[trigger] pairs[i]).media_id,
            ) by {
                lemma_filter_member(prev, p, i);
                let k = choose|k: int| 0 <= k < prev.len() && prev[k] == pairs[i];
            }
            if !has_pair(prev, media_id, offer_id) {
                lemma_filter_all(prev, p);
            }
            if has_pair(pairs, media_id, offer_id) {
                let w = choose|w: int|
                    0 <= w < pairs.len() && #[trigger] pairs[w] == (MediaOffer {
                        media_id,
                        offer_id,
                    });
                prev.lemma_filter_pred(p, w);
            }
        }
        Ok(())
    }
}

} // verus!
