//! System-level guarantees that span more than one operation, proved from
//! the operations' contracts.

use vstd::prelude::*;

use crate::api::MediaOrderByField;
use crate::ids::{is_v4, parsed_uuid, parsed_v4, Uuid};
use crate::listing::ordered;
use crate::model::media::{has_media, lemma_media_index, media_at, media_index, Media};
use crate::objects::{has_object, obj_view};
use crate::pagination::{lemma_pages_cover, pages_concat};
use crate::services::authz::{can_read, OfferAccess};
use crate::services::media::{state_inv, unchanged, ServiceState};

verus! {

/// After a successful inline create — the state gained one committed row
/// whose key resolves to the uploaded bytes — the returned id string parses
/// back to the created id, and a read of that id finds exactly the created
/// row: it belongs to the creator, the creator may read it, and its key
/// still resolves to the same bytes.
pub proof fn lemma_create_then_get(
    pre: ServiceState,
    post: ServiceState,
    row: Media,
    media_id: Uuid,
    response_id: Seq<char>,
    caller: Seq<char>,
    ct: Seq<char>,
    data: Seq<u8>,
    now: i64,
)
    requires
        state_inv(post),
        !has_media(pre.store.medias@, media_id),
        post.store.medias@ == pre.store.medias@.push(row),
        row.media_id == media_id,
        row.user_id@ == caller,
        is_v4(media_id),
        parsed_uuid(response_id) == Some((media_id.hi, media_id.lo)),
        obj_view(post.objects.objects@, row.data_url@) == Some((ct, data)),
    ensures
        parsed_v4(response_id) == Some(media_id),
        has_media(post.store.medias@, media_id),
        media_at(post.store.medias@, media_id) == row,
        media_at(post.store.medias@, media_id).user_id@ == caller,
        can_read(
            media_at(post.store.medias@, media_id),
            post.store.media_offers@,
            Seq::<OfferAccess>::empty(),
            post.store.media_subscriptions@,
            Some(caller),
            now,
        ),
        obj_view(post.objects.objects@, media_at(post.store.medias@, media_id).data_url@) == Some(
            (ct, data),
        ),
{
    let rows = post.store.medias@;
    let last = rows.len() - 1;
    assert(rows[last] == row);
    assert(has_media(rows, media_id));
    lemma_media_index(rows, media_id);
    let ix = media_index(rows, media_id);
    if ix < last {
        assert(rows[ix] == pre.store.medias@[ix]);
        assert(has_media(pre.store.medias@, media_id));
    }
    assert(ix == last);
}

/// After a create whose object-store put failed — the operation changed
/// nothing — neither a row for the minted id nor an object at the minted
/// key exists, provided the freshly minted key carried no residual object
/// beforehand.
pub proof fn lemma_failed_create_leaves_nothing(
    pre: ServiceState,
    post: ServiceState,
    media_id: Uuid,
    key: Seq<char>,
)
    requires
        unchanged(pre, post),
        !has_media(pre.store.medias@, media_id),
        !has_object(pre.objects.objects@, key),
    ensures
        !has_media(post.store.medias@, media_id),
        obj_view(post.objects.objects@, key) is None,
{
}

/// Pagination round trip: over any listing in its canonical order,
/// concatenating pages one through the last (the ceiling of the listing's
/// length over the page size) yields exactly the whole listing — nothing
/// repeated, nothing left out, under any allowed order.
pub proof fn lemma_listing_pages_cover(
    rows: Seq<Media>,
    pred: spec_fn(Media) -> bool,
    field: MediaOrderByField,
    desc: bool,
    size: int,
)
    requires
        size >= 1,
    ensures
        ({
            let listing = ordered(rows.filter(pred), field, desc);
            pages_concat(listing, size, (listing.len() + size - 1) / size) == listing
        }),
{
    lemma_pages_cover(ordered(rows.filter(pred), field, desc), size);
}

} // verus!
