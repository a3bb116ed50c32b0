//! The projection of external media-subscription state, written only by the
//! billing pipeline's upsert and read by the authorization rules.

use vstd::prelude::*;

use crate::errors::DbError;
use crate::ids::Uuid;
use crate::model::media::{store_wf, MediaStore};

verus! {

/// Column identifiers of the `media_subscriptions` table.
#[derive(Clone, Copy, Debug, PartialEq, Eq, Structural)]
pub enum MediaSubscriptionIden {
    Table,
    MediaSubscriptionId,
    BuyerUserId,
    OfferId,
    CurrentPeriodStart,
    CurrentPeriodEnd,
    SubscriptionStatus,
    PayedAt,
    PayedUntil,
}

impl MediaSubscriptionIden {
    /// The SQL name of this identifier.
    pub fn sql_name(&self) -> (r: &'static str)
        ensures
            r@ == spec_media_subscription_iden_name(*self),
    {
        match self {
            MediaSubscriptionIden::Table => "media_subscriptions",
            MediaSubscriptionIden::MediaSubscriptionId => "media_subscription_id",
            MediaSubscriptionIden::BuyerUserId => "buyer_user_id",
            MediaSubscriptionIden::OfferId => "offer_id",
            MediaSubscriptionIden::CurrentPeriodStart => "current_period_start",
            MediaSubscriptionIden::CurrentPeriodEnd => "current_period_end",
            MediaSubscriptionIden::SubscriptionStatus => "subscription_status",
            MediaSubscriptionIden::PayedAt => "payed_at",
            MediaSubscriptionIden::PayedUntil => "payed_until",
        }
    }
}

pub open spec fn spec_media_subscription_iden_name(i: MediaSubscriptionIden) -> Seq<char> {
    match i {
        MediaSubscriptionIden::Table => "media_subscriptions"@,
        MediaSubscriptionIden::MediaSubscriptionId => "media_subscription_id"@,
        MediaSubscriptionIden::BuyerUserId => "buyer_user_id"@,
        MediaSubscriptionIden::OfferId => "offer_id"@,
        MediaSubscriptionIden::CurrentPeriodStart => "current_period_start"@,
        MediaSubscriptionIden::CurrentPeriodEnd => "current_period_end"@,
        MediaSubscriptionIden::SubscriptionStatus => "subscription_status"@,
        MediaSubscriptionIden::PayedAt => "payed_at"@,
        MediaSubscriptionIden::PayedUntil => "payed_until"@,
    }
}

/// One subscription row, keyed by `media_subscription_id`.
#[derive(Clone, Debug, PartialEq)]
pub struct MediaSubscription {
    pub media_subscription_id: Uuid,
    pub buyer_user_id: String,
    pub offer_id: Uuid,
    pub current_period_start: u64,
    pub current_period_end: u64,
    pub subscription_status: String,
    pub payed_at: u64,
    pub payed_until: u64,
}

/// The index of the row with a given key, or -1 where none exists.
pub open spec fn subscription_index(subs: Seq<MediaSubscription>, id: Uuid) -> int
    decreases subs.len(),
{
    if subs.len() == 0 {
        -1
    } else if subs[0].media_subscription_id == id {
        0
    } else {
        let r = subscription_index(subs.drop_first(), id);
        if r < 0 {
            -1
        } else {
            r + 1
        }
    }
}

/// At most one row per key.
pub open spec fn subscription_ids_distinct(subs: Seq<MediaSubscription>) -> bool {
    forall|i: int, j: int|
        0 <= i < j < subs.len() ==> #[trigger] subs[i].media_subscription_id != #[trigger] subs[j].media_subscription_id
}

/// `subscription_index` finds the first matching row, and -1 exactly where
/// none matches.
pub proof fn lemma_subscription_index(subs: Seq<MediaSubscription>, id: Uuid)
    ensures
        -1 <= subscription_index(subs, id) < subs.len(),
        subscription_index(subs, id) >= 0 ==> subs[subscription_index(subs, id)].media_subscription_id
            == id,
        subscription_index(subs, id) >= 0 ==> forall|k: int|
            0 <= k < subscription_index(subs, id) ==> (#[trigger] subs[k]).media_subscription_id
                != id,
        subscription_index(subs, id) == -1 ==> forall|k: int|
            0 <= k < subs.len() ==> (#[trigger] subs[k]).media_subscription_id != id,
    decreases subs.len(),
{
    if subs.len() > 0 && subs[0].media_subscription_id != id {
        lemma_subscription_index(subs.drop_first(), id);
        if subscription_index(subs, id) == -1 {
            assert forall|k: int| 0 <= k < subs.len() implies (
            #[trigger] subs[k]).media_subscription_id != id by {
                if k > 0 {
                    assert(subs.drop_first()[k - 1] == subs[k]);
                }
            }
        }
        if subscription_index(subs, id) >= 0 {
            assert forall|k: int| 0 <= k < subscription_index(subs, id) implies (
            #[trigger] subs[k]).media_subscription_id != id by {
                if k > 0 {
                    assert(subs.drop_first()[k - 1] == subs[k]);
                }
            }
            assert(subs.drop_first()[subscription_index(subs, id) - 1] == subs[subscription_index(
                subs,
                id,
            )]);
        }
    }
}

impl MediaSubscription {
    /// Upsert a subscription row by its key: a new key is inserted, an
    /// existing key has its whole row replaced.
    pub fn upsert(store: &mut MediaStore, sub: MediaSubscription) -> (r: Result<(), DbError>)
        requires
            store_wf(*old(store)),
        ensures
            store_wf(*final(store)),
            r is Ok,
            final(store).medias@ == old(store).medias@,
            final(store).media_offers@ == old(store).media_offers@,
            subscription_index(old(store).media_subscriptions@, sub.media_subscription_id) == -1
                ==> final(store).media_subscriptions@ == old(store).media_subscriptions@.push(sub),
            subscription_index(old(store).media_subscriptions@, sub.media_subscription_id) >= 0
                ==> final(store).media_subscriptions@ == old(store).media_subscriptions@.update(
                subscription_index(old(store).media_subscriptions@, sub.media_subscription_id),
                sub,
            ),
    {
        proof {
            lemma_subscription_index(store.media_subscriptions@, sub.media_subscription_id);
        }
        let id = sub.media_subscription_id;
        let n = store.media_subscriptions.len();
        let mut i: usize = 0;
        while i < n
            invariant
                n == store.media_subscriptions@.len(),
                id == sub.media_subscription_id,
                store.medias@ == old(store).medias@,
                store.media_offers@ == old(store).media_offers@,
                store.media_subscriptions@ == old(store).media_subscriptions@,
                store_wf(*store),
                i <= n,
                forall|k: int|
                    0 <= k < i ==> (
                    #[trigger] store.media_subscriptions@[k]).media_subscription_id != id,
            decreases n - i,
        {
            if store.media_subscriptions[i].media_subscription_id == id {
                proof {
                    lemma_subscription_index(store.media_subscriptions@, id);
                    if subscription_index(store.media_subscriptions@, id) < i as int {
                        assert(store.media_subscriptions@[subscription_index(
                            store.media_subscriptions@,
                            id,
                        )].media_subscription_id != id);
                    }
                }
                store.media_subscriptions.set(i, sub);
                proof {
                    let subs = store.media_subscriptions@;
                    let prev = old(store).media_subscriptions@;
                    let ii = i as int;
                    assert forall|a: int| 0 <= a < subs.len() implies (
                    #[trigger] subs[a]).media_subscription_id == prev[a].media_subscription_id by {
                        if a != ii {
                            assert(subs[a] == prev[a]);
                        }
                    }
                    assert forall|a: int, b: int| 0 <= a < b < subs.len() implies (
                    #[trigger] subs[a]).media_subscription_id != (
                    #[trigger] subs[b]).media_subscription_id by {
                        assert(subs[a].media_subscription_id == prev[a].media_subscription_id);
                        assert(subs[b].media_subscription_id == prev[b].media_subscription_id);
                    }
                }
                return Ok(());
            }
            i = i + 1;
        }
        proof {
            lemma_subscription_index(store.media_subscriptions@, id);
        }
        store.media_subscriptions.push(sub);
        proof {
            let subs = store.media_subscriptions@;
            let prev = old(store).media_subscriptions@;
            assert forall|a: int, b: int| 0 <= a < b < subs.len() implies (
            #[trigger] subs[a]).media_subscription_id != (
            #[trigger] subs[b]).media_subscription_id by {
                if b < subs.len() - 1 {
                    assert(subs[a] == prev[a] && subs[b] == prev[b]);
                } else {
                    assert(subs[a] == prev[a]);
                }
            }
        }
        Ok(())
    }
}

/// Whether the caller holds a subscription row granting access to the given
/// offer at the given time: the row names that offer and is paid up.
pub open spec fn grants_subscription(
    subs: Seq<MediaSubscription>,
    buyer: Seq<char>,
    offer_id: Uuid,
    now: i64,
) -> bool {
    exists|i: int|
        0 <= i < subs.len() && (#[trigger] subs[i]).buyer_user_id@ == buyer && subs[i].offer_id
            == offer_id && now <= subs[i].payed_until as int
}

} // verus!
