//! Authorization: the access-grant rule deciding whether a caller may read a
//! media. The caller's identity is the verified token subject, handed in by
//! the transport; offer policies are the commerce service's answers.

use vstd::prelude::*;

use crate::ids::Uuid;
use crate::model::media::Media;
use crate::model::media_offer::MediaOffer;
use crate::model::media_subscription::{grants_subscription, MediaSubscription};

verus! {

/// An offer's access policy as the commerce service reports it.
#[derive(Clone, Copy, Debug, PartialEq, Eq, Structural)]
pub enum AccessPolicy {
    Public,
    Subscription,
}

/// What the commerce service knows of one offer.
#[derive(Clone, Debug, PartialEq)]
pub struct OfferAccess {
    pub offer_id: Uuid,
    pub owner_user_id: String,
    pub access_policy: AccessPolicy,
    pub subscription_offer_id: Option<Uuid>,
}

/// The caller identity as a character sequence, where one is present.
pub open spec fn caller_view(caller: Option<&String>) -> Option<Seq<char>> {
    match caller {
        Some(u) => Some(u@),
        None => None,
    }
}

/// The index of the policy for an offer, or -1 where none is known.
pub open spec fn policy_index(policies: Seq<OfferAccess>, offer_id: Uuid) -> int
    decreases policies.len(),
{
    if policies.len() == 0 {
        -1
    } else if policies[0].offer_id == offer_id {
        0
    } else {
        let r = policy_index(policies.drop_first(), offer_id);
        if r < 0 {
            -1
        } else {
            r + 1
        }
    }
}

/// The policy for an offer, where one is known.
pub open spec fn policy_of(policies: Seq<OfferAccess>, offer_id: Uuid) -> Option<OfferAccess> {
    let i = policy_index(policies, offer_id);
    if i >= 0 {
        Some(policies[i])
    } else {
        None
    }
}

/// The offer whose subscriptions grant access under a policy: the policy's
/// subscription offer where it names one, else the offer itself.
pub open spec fn subscription_target(p: OfferAccess) -> Uuid {
    match p.subscription_offer_id {
        Some(s) => s,
        None => p.offer_id,
    }
}

/// Whether one offer grants the caller access at the given time: its policy
/// is public, or it is subscription-gated and the caller holds a matching
/// paid-up subscription row. An offer with no known policy grants nothing.
pub open spec fn offer_grants(
    policies: Seq<OfferAccess>,
    subs: Seq<MediaSubscription>,
    caller: Option<Seq<char>>,
    offer_id: Uuid,
    now: i64,
) -> bool {
    match policy_of(policies, offer_id) {
        Some(p) => match p.access_policy {
            AccessPolicy::Public => true,
            AccessPolicy::Subscription => match caller {
                Some(u) => grants_subscription(subs, u, subscription_target(p), now),
                None => false,
            },
        },
        None => false,
    }
}

/// Whether some offer linked to the media grants the caller access.
pub open spec fn access_grant(
    offers: Seq<MediaOffer>,
    policies: Seq<OfferAccess>,
    subs: Seq<MediaSubscription>,
    caller: Option<Seq<char>>,
    media_id: Uuid,
    now: i64,
) -> bool {
    exists|i: int|
        0 <= i < offers.len() && (#[trigger] offers[i]).media_id == media_id && offer_grants(
            policies,
            subs,
            caller,
            offers[i].offer_id,
            now,
        )
}

/// The read rule: the owner always may; anyone else needs an access grant.
pub open spec fn can_read(
    row: Media,
    offers: Seq<MediaOffer>,
    policies: Seq<OfferAccess>,
    subs: Seq<MediaSubscription>,
    caller: Option<Seq<char>>,
    now: i64,
) -> bool {
    (caller matches Some(u) && row.user_id@ == u) || access_grant(
        offers,
        policies,
        subs,
        caller,
        row.media_id,
        now,
    )
}

/// Find the policy for an offer.
pub fn find_policy<'a>(policies: &'a Vec<OfferAccess>, offer_id: Uuid) -> (r: Option<
    &'a OfferAccess,
>)
    ensures
        r matches Some(p) ==> policy_of(policies@, offer_id) == Some(*p),
        r is None ==> policy_of(policies@, offer_id) is None,
{
    proof {
        lemma_policy_index(policies@, offer_id);
    }
    let n = policies.len();
    let mut i: usize = 0;
    while i < n
        invariant
            n == policies@.len(),
            i <= n,
            forall|k: int| 0 <= k < i ==> (#[trigger] policies@[k]).offer_id != offer_id,
            -1 <= policy_index(policies@, offer_id) < policies@.len(),
            policy_index(policies@, offer_id) >= 0 ==> policies@[policy_index(
                policies@,
                offer_id,
            )].offer_id == offer_id,
            policy_index(policies@, offer_id) >= 0 ==> forall|k: int|
                0 <= k < policy_index(policies@, offer_id) ==> (
                #[trigger] policies@[k]).offer_id != offer_id,
            policy_index(policies@, offer_id) == -1 ==> forall|k: int|
                0 <= k < policies@.len() ==> (#[trigger] policies@[k]).offer_id != offer_id,
        decreases n - i,
    {
        if policies[i].offer_id == offer_id {
            proof {
                if policy_index(policies@, offer_id) < i as int {
                    assert(policies@[policy_index(policies@, offer_id)].offer_id != offer_id);
                }
            }
            return Some(&policies[i]);
        }
        i = i + 1;
    }
    None
}

proof fn lemma_policy_index(policies: Seq<OfferAccess>, offer_id: Uuid)
    ensures
        -1 <= policy_index(policies, offer_id) < policies.len(),
        policy_index(policies, offer_id) >= 0 ==> policies[policy_index(
            policies,
            offer_id,
        )].offer_id == offer_id,
        policy_index(policies, offer_id) >= 0 ==> forall|k: int|
            0 <= k < policy_index(policies, offer_id) ==> (#[trigger] policies[k]).offer_id
                != offer_id,
        policy_index(policies, offer_id) == -1 ==> forall|k: int|
            0 <= k < policies.len() ==> (#[trigger] policies[k]).offer_id != offer_id,
    decreases policies.len(),
{
    if policies.len() > 0 && policies[0].offer_id != offer_id {
        lemma_policy_index(policies.drop_first(), offer_id);
        if policy_index(policies, offer_id) == -1 {
            assert forall|k: int| 0 <= k < policies.len() implies (
            #[trigger] policies[k]).offer_id != offer_id by {
                if k > 0 {
                    assert(policies.drop_first()[k - 1] == policies[k]);
                }
            }
        }
        if policy_index(policies, offer_id) >= 0 {
            assert forall|k: int| 0 <= k < policy_index(policies, offer_id) implies (
            #[trigger] policies[k]).offer_id != offer_id by {
                if k > 0 {
                    assert(policies.drop_first()[k - 1] == policies[k]);
                }
            }
            assert(policies.drop_first()[policy_index(policies, offer_id) - 1]
                == policies[policy_index(policies, offer_id)]);
        }
    }
}

/// Whether the caller holds a paid-up subscription row for the offer.
fn holds_subscription(
    subs: &Vec<MediaSubscription>,
    buyer: &String,
    offer_id: Uuid,
    now: i64,
) -> (r: bool)
    ensures
        r == grants_subscription(subs@, buyer@, offer_id, now),
{
    let n = subs.len();
    let mut i: usize = 0;
    while i < n
        invariant
            n == subs@.len(),
            i <= n,
            forall|k: int|
                0 <= k < i ==> !((#[trigger] subs@[k]).buyer_user_id@ == buyer@ && subs@[k].offer_id
                    == offer_id && now <= subs@[k].payed_until as int),
        decreases n - i,
    {
        let buyer_ok = subs[i].buyer_user_id == *buyer;
        let offer_ok = subs[i].offer_id == offer_id;
        let paid_ok = now <= 0 || (now as u64) <= subs[i].payed_until;
        if buyer_ok && offer_ok && paid_ok {
            return true;
        }
        i = i + 1;
    }
    false
}

/// Whether one offer grants the caller access.
pub fn offer_grants_exec(
    policies: &Vec<OfferAccess>,
    subs: &Vec<MediaSubscription>,
    caller: Option<&String>,
    offer_id: Uuid,
    now: i64,
) -> (r: bool)
    ensures
        r == offer_grants(policies@, subs@, caller_view(caller), offer_id, now),
{
    match find_policy(policies, offer_id) {
        None => false,
        Some(p) => match p.access_policy {
            AccessPolicy::Public => true,
            AccessPolicy::Subscription => match caller {
                None => false,
                Some(u) => {
                    let target = match p.subscription_offer_id {
                        Some(s) => s,
                        None => p.offer_id,
                    };
                    holds_subscription(subs, u, target, now)
                },
            },
        },
    }
}

/// Whether the caller may read the row.
pub fn can_read_exec(
    row: &Media,
    offers: &Vec<MediaOffer>,
    policies: &Vec<OfferAccess>,
    subs: &Vec<MediaSubscription>,
    caller: Option<&String>,
    now: i64,
) -> (r: bool)
    ensures
        r == can_read(*row, offers@, policies@, subs@, caller_view(caller), now),
{
    match caller {
        Some(u) => {
            if row.user_id == *u {
                return true;
            }
        },
        None => {},
    }
    let n = offers.len();
    let mut i: usize = 0;
    while i < n
        invariant
            n == offers@.len(),
            i <= n,
            forall|k: int|
                0 <= k < i ==> !((#[trigger] offers@[k]).media_id == row.media_id && offer_grants(
                    policies@,
                    subs@,
                    caller_view(caller),
                    offers@[k].offer_id,
                    now,
                )),
        decreases n - i,
    {
        if offers[i].media_id == row.media_id {
            if offer_grants_exec(policies, subs, caller, offers[i].offer_id, now) {
                return true;
            }
        }
        i = i + 1;
    }
    false
}

} // verus!
