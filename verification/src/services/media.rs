//! The media service: the state it governs, its system invariant (no
//! committed row ever references missing bytes), and the verified transition
//! each remote call makes.

use vstd::prelude::*;

use crate::api::{spec_direction_from_i32, spec_filter_field_from_i32, spec_order_by_field_from_i32,
    CreateMediaRequest, CreateMediaResponse, DeleteMediaRequest, DeleteMediaResponse, Direction,
    GetMediaRequest, GetMediaResponse, ListAccessibleMediaRequest, ListAccessibleMediaResponse,
    CompleteMultipartUploadRequest, CompleteMultipartUploadResponse,
    InitiateMultipartUploadRequest, InitiateMultipartUploadResponse, ListMediaRequest,
    ListMediaResponse, MediaFilter, MediaFilterField, MediaOrderBy, MediaOrderByField,
    AddMediaToOfferRequest, AddMediaToOfferResponse, MediaResponse, Pagination,
    PutMediaSubscriptionRequest, PutMediaSubscriptionResponse, PutMultipartChunkRequest,
    PutMultipartChunkResponse, RemoveMediaFromOfferRequest, RemoveMediaFromOfferResponse,
    UpdateMediaRequest, UpdateMediaResponse};
use crate::errors::ServiceError;
use crate::listing::{desc_of, field_of, ordered, owner_pred, page_rows, ListFilter};
use crate::model::media_offer::{has_pair, MediaOffer};
use crate::model::media_subscription::{lemma_subscription_index, subscription_index,
    MediaSubscription};
use crate::pagination::{page_of, paginate, pagination_ok};
use crate::text::spec_contains_ci;
use crate::ids::{hyphenated_of, is_v4, lemma_hyphenated_injective, parsed_uuid, parsed_v4, Uuid};
use crate::model::media::{
    find_media_index, has_media, media_at, media_key_prefix, row_with_offers, store_wf,
    url_under_prefix, Media, MediaStore, UploadState,
};
use crate::model::media_offer::offers_of;
use crate::objects::{has_object, obj_view, objects_wf, ObjectStore, StoredObject};
use crate::seqs::copy_vec;
use crate::services::authz::{caller_view, can_read, can_read_exec, OfferAccess};
use crate::text::{slug, slug_of, starts_with};

verus! {

/// Everything the service governs: the relational state and the object
/// store.
#[derive(Debug)]
pub struct ServiceState {
    pub store: MediaStore,
    pub objects: ObjectStore,
}

/// What must hold of one stored row against the object store: a committed
/// row's key lies under the row's own prefix and resolves to an object; a
/// pending row has no key yet; a row mid-upload has either. Ids are version
/// 4 and names are never empty.
pub open spec fn row_ok(m: Media, objs: Seq<StoredObject>) -> bool {
    &&& is_v4(m.media_id)
    &&& is_v4(m.market_booth_id)
    &&& m.name@.len() > 0
    &&& match m.upload {
        UploadState::Committed => url_under_prefix(m.data_url@, m.market_booth_id, m.media_id)
            && has_object(objs, m.data_url@),
        UploadState::Pending => m.data_url@.len() == 0,
        UploadState::Uploading(_) => m.data_url@.len() == 0 || (url_under_prefix(
            m.data_url@,
            m.market_booth_id,
            m.media_id,
        ) && has_object(objs, m.data_url@)),
    }
}

/// The system invariant: both stores are well-formed and no row references
/// missing bytes.
pub open spec fn state_inv(s: ServiceState) -> bool {
    &&& store_wf(s.store)
    &&& objects_wf(s.objects)
    &&& forall|i: int|
        0 <= i < s.store.medias@.len() ==> row_ok(#[trigger] s.store.medias@[i], s.objects.objects@)
}

impl ServiceState {
    /// A fresh, empty state.
    pub fn new() -> (r: ServiceState)
        ensures
            state_inv(r),
            r.store.medias@.len() == 0,
            r.store.media_offers@.len() == 0,
            r.store.media_subscriptions@.len() == 0,
            r.objects.objects@.len() == 0,
            r.objects.sessions@.len() == 0,
    {
        ServiceState { store: MediaStore::new(), objects: ObjectStore::new() }
    }
}

/// Nothing observable changed.
pub open spec fn unchanged(pre: ServiceState, post: ServiceState) -> bool {
    &&& post.store.medias@ == pre.store.medias@
    &&& post.store.media_offers@ == pre.store.media_offers@
    &&& post.store.media_subscriptions@ == pre.store.media_subscriptions@
    &&& post.objects.objects@ == pre.objects.objects@
    &&& post.objects.sessions@ == pre.objects.sessions@
}

/// The result is an invalid-argument error naming the given field.
pub open spec fn err_invalid<T>(r: Result<T, ServiceError>, field: Seq<char>) -> bool {
    r matches Err(e) && (e matches ServiceError::InvalidArgument(f) && f@ == field)
}

/// Parse a request field that must be a version-4 UUID.
pub fn parse_uuid(uuid_string: &str, field: &str) -> (r: Result<Uuid, ServiceError>)
    ensures
        parsed_v4(uuid_string@) matches Some(u) ==> r == Result::<Uuid, ServiceError>::Ok(u),
        parsed_v4(uuid_string@) is None ==> err_invalid(r, field@),
        r matches Ok(u) ==> parsed_v4(uuid_string@) == Some(u) && is_v4(u),
{
    match Uuid::parse_v4(uuid_string) {
        Some(u) => Ok(u),
        None => Err(crate::errors::invalid_uuid_error(field)),
    }
}

/// The content types the service accepts for uploads.
pub open spec fn spec_allowed_content_type(ct: Seq<char>) -> bool {
    ||| ct == "image/jpeg"@
    ||| ct == "image/png"@
    ||| ct == "image/gif"@
    ||| ct == "image/webp"@
    ||| ct == "image/svg+xml"@
    ||| ct == "video/mp4"@
    ||| ct == "audio/mpeg"@
    ||| ct == "application/pdf"@
    ||| ct == "application/octet-stream"@
}

/// Whether a content type is in the allowed set.
pub fn is_allowed_content_type(ct: &str) -> (r: bool)
    ensures
        r == spec_allowed_content_type(ct@),
{
    crate::api::str_eq(ct, "image/jpeg") || crate::api::str_eq(ct, "image/png")
        || crate::api::str_eq(ct, "image/gif") || crate::api::str_eq(ct, "image/webp")
        || crate::api::str_eq(ct, "image/svg+xml") || crate::api::str_eq(ct, "video/mp4")
        || crate::api::str_eq(ct, "audio/mpeg") || crate::api::str_eq(ct, "application/pdf")
        || crate::api::str_eq(ct, "application/octet-stream")
}

/// The full object key of a media: its isolating prefix followed by the slug
/// of its name.
pub open spec fn media_key(booth: Uuid, media: Uuid, name: Seq<char>) -> Seq<char> {
    media_key_prefix(booth, media) + slug_of(name)
}

/// Build the isolating prefix and the full key for a media.
pub fn build_key(booth: Uuid, media: Uuid, name: &str) -> (r: (String, String))
    ensures
        r.0@ == media_key_prefix(booth, media),
        r.1@ == media_key(booth, media, name@),
        parsed_uuid(r.0@.subrange(37, 73)) == Some((media.hi, media.lo)),
{
    let mut p = booth.hyphenated_string();
    let ms = media.hyphenated_string();
    proof {
        reveal_strlit("/");
        assert("/"@ =~= seq!['/']);
    }
    p.append("/");
    p.append(ms.as_str());
    p.append("/");
    proof {
        assert(p@ =~= media_key_prefix(booth, media));
        assert(p@.subrange(37, 73) =~= hyphenated_of(media.hi, media.lo));
    }
    let sl = slug(name);
    let mut k = p.clone();
    k.append(sl.as_str());
    proof {
        assert(k@ =~= media_key(booth, media, name@));
    }
    (p, k)
}

/// The isolating prefix is 74 characters long.
pub proof fn lemma_prefix_len(booth: Uuid, media: Uuid)
    ensures
        media_key_prefix(booth, media).len() == 74,
        media_key_prefix(booth, media).subrange(37, 73) == hyphenated_of(media.hi, media.lo),
        media_key_prefix(booth, media).subrange(0, 36) == hyphenated_of(booth.hi, booth.lo),
{
    assert(media_key_prefix(booth, media).subrange(37, 73) =~= hyphenated_of(media.hi, media.lo));
    assert(media_key_prefix(booth, media).subrange(0, 36) =~= hyphenated_of(booth.hi, booth.lo));
}

/// Two medias never share an isolating prefix.
pub proof fn lemma_prefix_injective(b1: Uuid, m1: Uuid, b2: Uuid, m2: Uuid)
    requires
        media_key_prefix(b1, m1) == media_key_prefix(b2, m2),
    ensures
        m1 == m2,
        b1 == b2,
{
    lemma_prefix_len(b1, m1);
    lemma_prefix_len(b2, m2);
    assert(hyphenated_of(m1.hi, m1.lo) == hyphenated_of(m2.hi, m2.lo)) by {
        assert(media_key_prefix(b1, m1).subrange(37, 73) == media_key_prefix(b2, m2).subrange(
            37,
            73,
        ));
    }
    lemma_hyphenated_injective(m1, m2);
    assert(hyphenated_of(b1.hi, b1.lo) == hyphenated_of(b2.hi, b2.lo)) by {
        assert(media_key_prefix(b1, m1).subrange(0, 36) == media_key_prefix(b2, m2).subrange(
            0,
            36,
        ));
    }
    lemma_hyphenated_injective(b1, b2);
}

/// One key lies under the prefix of at most one media.
pub proof fn lemma_url_prefix_unique(u: Seq<char>, b1: Uuid, m1: Uuid, b2: Uuid, m2: Uuid)
    requires
        url_under_prefix(u, b1, m1),
        url_under_prefix(u, b2, m2),
    ensures
        m1 == m2,
        b1 == b2,
{
    assert(media_key_prefix(b1, m1) == media_key_prefix(b2, m2));
    lemma_prefix_injective(b1, m1, b2, m2);
}

/// Deleting everything under one media's prefix never breaks another
/// media's reference.
pub proof fn lemma_rows_keep_after_prefix_delete(
    rows: Seq<Media>,
    pre: Seq<StoredObject>,
    post: Seq<StoredObject>,
    booth: Uuid,
    mid: Uuid,
)
    requires
        forall|i: int| 0 <= i < rows.len() ==> row_ok(#[trigger] rows[i], pre),
        forall|i: int| 0 <= i < rows.len() ==> (#[trigger] rows[i]).media_id != mid,
        forall|k: Seq<char>|
            !starts_with(k, media_key_prefix(booth, mid)) ==> #[trigger] obj_view(post, k)
                == obj_view(pre, k),
    ensures
        forall|i: int| 0 <= i < rows.len() ==> row_ok(#[trigger] rows[i], post),
{
    let prefix = media_key_prefix(booth, mid);
    lemma_prefix_len(booth, mid);
    assert forall|i: int| 0 <= i < rows.len() implies row_ok(#[trigger] rows[i], post) by {
        let m = rows[i];
        let u = m.data_url@;
        if (m.upload is Committed) || (m.upload is Uploading && u.len() != 0) {
            assert(url_under_prefix(u, m.market_booth_id, m.media_id));
            if starts_with(u, prefix) {
                assert(u.subrange(0, 74) == prefix);
                assert(media_key_prefix(m.market_booth_id, m.media_id) == prefix);
                lemma_prefix_injective(m.market_booth_id, m.media_id, booth, mid);
            }
            assert(!starts_with(u, prefix));
            assert(obj_view(post, u) == obj_view(pre, u));
            if has_object(pre, u) {
                assert(has_object(post, u));
            }
        }
    }
}

/// A key under a fresh media's prefix is referenced by no stored row.
pub proof fn lemma_fresh_key_unreferenced(
    rows: Seq<Media>,
    objs: Seq<StoredObject>,
    key: Seq<char>,
    booth: Uuid,
    media: Uuid,
)
    requires
        forall|i: int| 0 <= i < rows.len() ==> row_ok(#[trigger] rows[i], objs),
        !has_media(rows, media),
        url_under_prefix(key, booth, media),
    ensures
        forall|i: int|
            0 <= i < rows.len() ==> ((#[trigger] rows[i]).upload is Committed ==> rows[i].data_url@
                != key),
        forall|i: int|
            0 <= i < rows.len() ==> ((#[trigger] rows[i]).upload is Uploading
                ==> rows[i].data_url@.len() == 0 || rows[i].data_url@ != key),
{
    assert forall|i: int| 0 <= i < rows.len() implies ((#[trigger] rows[i]).upload is Committed
        ==> rows[i].data_url@ != key) && (rows[i].upload is Uploading ==> rows[i].data_url@.len()
        == 0 || rows[i].data_url@ != key) by {
        if (rows[i].upload is Committed || rows[i].upload is Uploading) && rows[i].data_url@.len()
            != 0 && rows[i].data_url@ == key {
            if url_under_prefix(rows[i].data_url@, rows[i].market_booth_id, rows[i].media_id) {
                lemma_url_prefix_unique(
                    key,
                    booth,
                    media,
                    rows[i].market_booth_id,
                    rows[i].media_id,
                );
                assert(rows[i].media_id == media);
            }
        }
    }
}

/// Writing bytes at some key never breaks a row's reference.
pub proof fn lemma_rows_keep_after_write(
    rows: Seq<Media>,
    pre: Seq<StoredObject>,
    post: Seq<StoredObject>,
    key: Seq<char>,
)
    requires
        forall|i: int| 0 <= i < rows.len() ==> row_ok(#[trigger] rows[i], pre),
        obj_view(post, key) is Some,
        forall|k: Seq<char>| k != key ==> #[trigger] obj_view(post, k) == obj_view(pre, k),
    ensures
        forall|i: int| 0 <= i < rows.len() ==> row_ok(#[trigger] rows[i], post),
{
    assert forall|i: int| 0 <= i < rows.len() implies row_ok(#[trigger] rows[i], post) by {
        let u = rows[i].data_url@;
        if u == key {
            assert(has_object(post, u));
        } else {
            assert(obj_view(post, u) == obj_view(pre, u));
            if has_object(pre, u) {
                assert(has_object(post, u));
            }
        }
    }
}

/// Deleting the object at a key referenced by no row never breaks a row's
/// reference.
pub proof fn lemma_rows_keep_after_delete(
    rows: Seq<Media>,
    pre: Seq<StoredObject>,
    post: Seq<StoredObject>,
    key: Seq<char>,
)
    requires
        forall|i: int| 0 <= i < rows.len() ==> row_ok(#[trigger] rows[i], pre),
        forall|k: Seq<char>| k != key ==> #[trigger] obj_view(post, k) == obj_view(pre, k),
        forall|i: int|
            0 <= i < rows.len() ==> ((#[trigger] rows[i]).upload is Committed ==> rows[i].data_url@
                != key),
        forall|i: int|
            0 <= i < rows.len() ==> ((#[trigger] rows[i]).upload is Uploading
                ==> rows[i].data_url@.len() == 0 || rows[i].data_url@ != key),
    ensures
        forall|i: int| 0 <= i < rows.len() ==> row_ok(#[trigger] rows[i], post),
{
    assert forall|i: int| 0 <= i < rows.len() implies row_ok(#[trigger] rows[i], post) by {
        let u = rows[i].data_url@;
        if (rows[i].upload is Committed) || (rows[i].upload is Uploading && u.len() != 0) {
            assert(u != key);
            assert(obj_view(post, u) == obj_view(pre, u));
            if has_object(pre, u) {
                assert(has_object(post, u));
            }
        }
    }
}

/// The media service: the one piece of configuration its decisions use.
pub struct MediaService {
    pub file_max_size: u64,
}

/// How one response row relates to a stored row and its offer aggregate.
pub open spec fn response_of_row(
    mr: MediaResponse,
    row: Media,
    ids: Seq<Uuid>,
    data: Option<Seq<u8>>,
) -> bool {
    &&& mr.media_id@ == hyphenated_of(row.media_id.hi, row.media_id.lo)
    &&& parsed_uuid(mr.media_id@) == Some((row.media_id.hi, row.media_id.lo))
    &&& mr.offer_ids@.len() == ids.len()
    &&& forall|q: int|
        0 <= q < ids.len() ==> (#[trigger] mr.offer_ids@[q])@ == hyphenated_of(
            ids[q].hi,
            ids[q].lo,
        )
    &&& mr.market_booth_id@ == hyphenated_of(row.market_booth_id.hi, row.market_booth_id.lo)
    &&& mr.user_id@ == row.user_id@
    &&& mr.created_at == row.created_at
    &&& mr.updated_at == row.updated_at
    &&& mr.name@ == row.name@
    &&& match data {
        Some(d) => mr.data matches Some(v) && v@ == d,
        None => mr.data is None,
    }
}

/// Outcome of a single-shot object-store put, as the adapter reports it.
#[derive(Clone, Copy, Debug, PartialEq, Eq, Structural)]
pub enum PutOutcome {
    Success,
    TransportError,
    AuthError,
}

/// Outcomes of the outside steps of an inline create: the object-store put,
/// the transaction commit, and the best-effort cleanup delete after a
/// failed commit.
#[derive(Clone, Copy, Debug, PartialEq, Eq, Structural)]
pub struct CreateIo {
    pub put: PutOutcome,
    pub commit_ok: bool,
    pub cleanup_ok: bool,
}

/// The bytes a read inlines: the stored object's bytes where the caller is
/// the owner and the object is small enough, nothing otherwise.
pub open spec fn inline_data(
    row: Media,
    objs: Seq<StoredObject>,
    caller: Option<Seq<char>>,
    max: u64,
) -> Option<Seq<u8>> {
    if (caller matches Some(u) && row.user_id@ == u) && (obj_view(objs, row.data_url@) matches Some(
        o,
    ) && o.1.len() <= max) {
        Some(obj_view(objs, row.data_url@)->Some_0.1)
    } else {
        None
    }
}

impl MediaService {
    /// The service over its configuration.
    pub fn build(file_max_size: u64) -> (s: MediaService)
        ensures
            s.file_max_size == file_max_size,
    {
        MediaService { file_max_size }
    }

    /// Create a media. A caller-authenticated request is validated, the
    /// minted id must be free, and with an inline file the bytes are stored
    /// before the row is committed: on a failed put neither the row nor the
    /// bytes survive; on a failed commit the row is gone and the bytes are
    /// reaped where the cleanup succeeds. Without a file the row starts
    /// pending, awaiting a multipart upload.
    pub fn create_media(
        &self,
        state: &mut ServiceState,
        caller: Option<&String>,
        request: &CreateMediaRequest,
        media_id: Uuid,
        now: i64,
        io: CreateIo,
    ) -> (r: Result<CreateMediaResponse, ServiceError>)
        requires
            state_inv(*old(state)),
            is_v4(media_id),
        ensures
            state_inv(*final(state)),
            caller is None ==> r == Result::<CreateMediaResponse, ServiceError>::Err(
                ServiceError::Unauthenticated,
            ) && unchanged(*old(state), *final(state)),
            caller matches Some(u) ==> ({
                let booth = parsed_v4(request.market_booth_id@);
                let rows = old(state).store.medias@;
                &&& booth is None ==> err_invalid(r, "market_booth_id"@) && unchanged(
                    *old(state),
                    *final(state),
                )
                &&& booth is Some && request.name@.len() == 0 ==> err_invalid(r, "name"@)
                    && unchanged(*old(state), *final(state))
                &&& booth is Some && request.name@.len() > 0 && (request.file matches Some(f)
                    && !spec_allowed_content_type(f.content_type@)) ==> err_invalid(
                    r,
                    "file.content_type"@,
                ) && unchanged(*old(state), *final(state))
                &&& booth is Some && request.name@.len() > 0 && (request.file matches Some(f)
                    && spec_allowed_content_type(f.content_type@) && f.data@.len()
                    > self.file_max_size) ==> err_invalid(r, "file.data"@) && unchanged(
                    *old(state),
                    *final(state),
                )
                &&& create_valid(self.file_max_size, *request) && has_media(rows, media_id) ==> r
                    == Result::<CreateMediaResponse, ServiceError>::Err(
                    ServiceError::AlreadyExists,
                ) && unchanged(*old(state), *final(state))
                &&& create_valid(self.file_max_size, *request) && !has_media(rows, media_id)
                    && request.file is None ==> ({
                    &&& !io.commit_ok ==> r == Result::<CreateMediaResponse, ServiceError>::Err(
                        ServiceError::Unavailable,
                    ) && unchanged(*old(state), *final(state))
                    &&& io.commit_ok ==> (r matches Ok(resp) && ({
                        let row = final(state).store.medias@.last();
                        &&& final(state).store.medias@ == rows.push(row)
                        &&& row.media_id == media_id
                        &&& row.market_booth_id == booth->Some_0
                        &&& row.user_id@ == u@
                        &&& row.name@ == request.name@
                        &&& row.data_url@.len() == 0
                        &&& row.upload is Pending
                        &&& row.created_at == now
                        &&& row.updated_at == now
                        &&& final(state).store.media_offers@ == old(state).store.media_offers@
                        &&& final(state).store.media_subscriptions@ == old(state).store.media_subscriptions@
                        &&& final(state).objects.objects@ == old(state).objects.objects@
                        &&& final(state).objects.sessions@ == old(state).objects.sessions@
                        &&& resp.media matches Some(mr) && response_of_row(
                            mr,
                            row,
                            Seq::empty(),
                            None,
                        )
                    }))
                })
                &&& create_valid(self.file_max_size, *request) && !has_media(rows, media_id)
                    ==> (match request.file {
                    Option::None => true,
                    Option::Some(f) => ({
                    let key = media_key(booth->Some_0, media_id, request.name@);
                    &&& !(io.put is Success) ==> r == Result::<CreateMediaResponse, ServiceError>::Err(
                        ServiceError::Unavailable,
                    ) && unchanged(*old(state), *final(state))
                    &&& io.put is Success && !io.commit_ok ==> ({
                        &&& r == Result::<CreateMediaResponse, ServiceError>::Err(
                            ServiceError::Unavailable,
                        )
                        &&& final(state).store.medias@ == rows
                        &&& final(state).store.media_offers@ == old(state).store.media_offers@
                        &&& final(state).store.media_subscriptions@ == old(state).store.media_subscriptions@
                        &&& final(state).objects.sessions@ == old(state).objects.sessions@
                        &&& io.cleanup_ok ==> obj_view(final(state).objects.objects@, key) is None
                        &&& !io.cleanup_ok ==> obj_view(final(state).objects.objects@, key)
                            == Some((f.content_type@, f.data@))
                        &&& forall|k: Seq<char>|
                            k != key ==> #[trigger] obj_view(final(state).objects.objects@, k)
                                == obj_view(old(state).objects.objects@, k)
                    })
                    &&& io.put is Success && io.commit_ok ==> (r matches Ok(resp) && ({
                        let row = final(state).store.medias@.last();
                        &&& final(state).store.medias@ == rows.push(row)
                        &&& row.media_id == media_id
                        &&& row.market_booth_id == booth->Some_0
                        &&& row.user_id@ == u@
                        &&& row.name@ == request.name@
                        &&& row.data_url@ == key
                        &&& row.upload is Committed
                        &&& row.created_at == now
                        &&& row.updated_at == now
                        &&& final(state).store.media_offers@ == old(state).store.media_offers@
                        &&& final(state).store.media_subscriptions@ == old(state).store.media_subscriptions@
                        &&& final(state).objects.sessions@ == old(state).objects.sessions@
                        &&& obj_view(final(state).objects.objects@, key) == Some(
                            (f.content_type@, f.data@),
                        )
                        &&& forall|k: Seq<char>|
                            k != key ==> #[trigger] obj_view(final(state).objects.objects@, k)
                                == obj_view(old(state).objects.objects@, k)
                        &&& resp.media matches Some(mr) && response_of_row(
                            mr,
                            row,
                            Seq::empty(),
                            Some(f.data@),
                        )
                    }))
                    }),
                })
            }),
    {
        let u = match caller {
            Some(u) => u,
            None => {
                return Err(ServiceError::Unauthenticated);
            },
        };
        let booth = match parse_uuid(request.market_booth_id.as_str(), "market_booth_id") {
            Ok(b) => b,
            Err(e) => {
                return Err(e);
            },
        };
        if request.name.as_str().is_empty() {
            return Err(ServiceError::InvalidArgument("name".to_owned()));
        }
        match &request.file {
            Some(f) => {
                if !is_allowed_content_type(f.content_type.as_str()) {
                    return Err(ServiceError::InvalidArgument("file.content_type".to_owned()));
                }
                if f.data.len() as u64 > self.file_max_size {
                    return Err(ServiceError::InvalidArgument("file.data".to_owned()));
                }
            },
            None => {},
        }
        if find_media_index(&state.store.medias, media_id).is_some() {
            return Err(ServiceError::AlreadyExists);
        }
        match &request.file {
            None => {
                if !io.commit_ok {
                    return Err(ServiceError::Unavailable);
                }
                let empty_url = String::new();
                let row = match Media::create(
                    &mut state.store,
                    media_id,
                    booth,
                    u,
                    &request.name,
                    &empty_url,
                    UploadState::Pending,
                    now,
                ) {
                    Ok(m) => m,
                    Err(_) => {
                        return Err(ServiceError::Internal);
                    },
                };
                let mr = response_for_row(&row, None);
                Ok(CreateMediaResponse { media: Some(mr) })
            },
            Some(f) => {
                let (_prefix, key) = build_key(booth, media_id, request.name.as_str());
                match io.put {
                    PutOutcome::Success => {},
                    _ => {
                        return Err(ServiceError::Unavailable);
                    },
                }
                state.objects.put(&key, &f.content_type, &f.data);
                proof {
                    lemma_rows_keep_after_write(
                        state.store.medias@,
                        old(state).objects.objects@,
                        state.objects.objects@,
                        key@,
                    );
                }
                if !io.commit_ok {
                    if io.cleanup_ok {
                        let ghost mid_objects = state.objects.objects@;
                        state.objects.delete(&key);
                        proof {
                            lemma_prefix_len(booth, media_id);
                            assert(url_under_prefix(key@, booth, media_id)) by {
                                assert(key@.subrange(0, 74) =~= media_key_prefix(booth, media_id));
                            }
                            lemma_fresh_key_unreferenced(
                                state.store.medias@,
                                mid_objects,
                                key@,
                                booth,
                                media_id,
                            );
                            lemma_rows_keep_after_delete(
                                state.store.medias@,
                                mid_objects,
                                state.objects.objects@,
                                key@,
                            );
                        }
                    }
                    return Err(ServiceError::Unavailable);
                }
                let row = match Media::create(
                    &mut state.store,
                    media_id,
                    booth,
                    u,
                    &request.name,
                    &key,
                    UploadState::Committed,
                    now,
                ) {
                    Ok(m) => m,
                    Err(_) => {
                        return Err(ServiceError::Internal);
                    },
                };
                proof {
                    lemma_prefix_len(booth, media_id);
                    assert(url_under_prefix(key@, booth, media_id)) by {
                        assert(key@.subrange(0, 74) =~= media_key_prefix(booth, media_id));
                    }
                }
                let data_echo = copy_vec(&f.data);
                let mr = response_for_row(&row, Some(data_echo));
                Ok(CreateMediaResponse { media: Some(mr) })
            },
        }
    }

    /// Read a media. The owner may always read; anyone else needs an access
    /// grant from a linked offer's policy and, for gated offers, a paid-up
    /// subscription. The bytes are inlined only for the owner, and only
    /// while the object is within the inline limit.
    pub fn get_media(
        &self,
        state: &ServiceState,
        caller: Option<&String>,
        request: &GetMediaRequest,
        policies: &Vec<OfferAccess>,
        now: i64,
    ) -> (r: Result<GetMediaResponse, ServiceError>)
        requires
            state_inv(*state),
        ensures
            ({
                let rows = state.store.medias@;
                &&& parsed_v4(request.media_id@) is None ==> err_invalid(r, "media_id"@)
                &&& parsed_v4(request.media_id@) matches Some(mid) ==> ({
                    &&& !has_media(rows, mid) ==> r == Result::<
                        GetMediaResponse,
                        ServiceError,
                    >::Err(ServiceError::NotFound)
                    &&& has_media(rows, mid) ==> ({
                        let row = media_at(rows, mid);
                        let readable = can_read(
                            row,
                            state.store.media_offers@,
                            policies@,
                            state.store.media_subscriptions@,
                            caller_view(caller),
                            now,
                        );
                        &&& !readable ==> r == Result::<GetMediaResponse, ServiceError>::Err(
                            ServiceError::PermissionDenied,
                        )
                        &&& readable ==> (r matches Ok(resp) && (resp.media matches Some(mr)
                            && response_of_row(
                            mr,
                            row,
                            offers_of(state.store.media_offers@, mid),
                            inline_data(
                                row,
                                state.objects.objects@,
                                caller_view(caller),
                                self.file_max_size,
                            ),
                        )))
                    })
                })
            }),
    {
        let mid = match parse_uuid(request.media_id.as_str(), "media_id") {
            Ok(m) => m,
            Err(e) => {
                return Err(e);
            },
        };
        let m = match Media::get(&state.store, mid) {
            Some(m) => m,
            None => {
                return Err(ServiceError::NotFound);
            },
        };
        if !can_read_exec(
            &m,
            &state.store.media_offers,
            policies,
            &state.store.media_subscriptions,
            caller,
            now,
        ) {
            proof {
                let row = media_at(state.store.medias@, mid);
                assert(m.user_id == row.user_id && m.media_id == row.media_id);
            }
            return Err(ServiceError::PermissionDenied);
        }
        let owner = match caller {
            Some(us) => m.user_id == *us,
            None => false,
        };
        let mut data: Option<Vec<u8>> = None;
        if owner {
            match state.objects.get(&m.data_url) {
                Some(o) => {
                    if o.data.len() as u64 <= self.file_max_size {
                        data = Some(copy_vec(&o.data));
                    }
                },
                None => {},
            }
        }
        let mr = response_for_row(&m, data);
        proof {
            let row = media_at(state.store.medias@, mid);
            assert(response_of_row(
                mr,
                row,
                offers_of(state.store.media_offers@, mid),
                inline_data(row, state.objects.objects@, caller_view(caller), self.file_max_size),
            ));
        }
        Ok(GetMediaResponse { media: Some(mr) })
    }
}

impl MediaService {
    /// List the caller's medias in one market booth: validated, filtered,
    /// ordered, and paged, each row carrying its offer aggregate.
    pub fn list_media(
        &self,
        state: &ServiceState,
        caller: Option<&String>,
        request: &ListMediaRequest,
    ) -> (r: Result<ListMediaResponse, ServiceError>)
        requires
            state_inv(*state),
        ensures
            caller is None ==> r == Result::<ListMediaResponse, ServiceError>::Err(
                ServiceError::Unauthenticated,
            ),
            caller matches Some(u) ==> ({
                let booth = parsed_v4(request.market_booth_id@);
                let freq = request.filter;
                let oreq = request.order_by;
                let preq = request.pagination;
                &&& booth is None ==> err_invalid(r, "market_booth_id"@)
                &&& booth is Some && (freq matches Some(fl) && spec_filter_field_from_i32(fl.field)
                    is None) ==> err_invalid(r, "filter.field"@)
                &&& booth is Some && (freq matches Some(fl) && spec_filter_field_from_i32(fl.field)
                    == Some(MediaFilterField::OfferId) && parsed_v4(fl.query@) is None)
                    ==> err_invalid(r, "filter.query"@)
                &&& booth is Some && wire_filter_ok(freq) && (oreq matches Some(ob)
                    && spec_order_by_field_from_i32(ob.field) is None) ==> err_invalid(
                    r,
                    "order_by.field"@,
                )
                &&& booth is Some && wire_filter_ok(freq) && (oreq matches Some(ob)
                    && spec_order_by_field_from_i32(ob.field) is Some && spec_direction_from_i32(
                    ob.direction,
                ) is None) ==> err_invalid(r, "order_by.direction"@)
                &&& booth is Some && wire_filter_ok(freq) && wire_order_ok(oreq) && (preq
                    matches Some(p) && p.page < 1) ==> err_invalid(r, "pagination.page"@)
                &&& booth is Some && wire_filter_ok(freq) && wire_order_ok(oreq) && (preq
                    matches Some(p) && p.page >= 1 && p.size < 1) ==> err_invalid(
                    r,
                    "pagination.size"@,
                )
                &&& booth is Some && wire_filter_ok(freq) && wire_order_ok(oreq) && (preq
                    matches Some(p) && p.page >= 1 && p.size >= 1 && (p.page - 1) * p.size
                    > u64::MAX) ==> err_invalid(r, "pagination"@)
                &&& booth is Some && wire_filter_ok(freq) && wire_order_ok(oreq)
                    && wire_pagination_ok(preq) ==> (r matches Ok(resp) && ({
                    let pred = wire_owner_pred(
                        state.store.media_offers@,
                        booth->Some_0,
                        u@,
                        freq,
                    );
                    let page = page_of(
                        ordered(
                            state.store.medias@.filter(pred),
                            wire_field(oreq),
                            wire_desc(oreq),
                        ),
                        offset_of(preq),
                        limit_of(preq) as int,
                    );
                    &&& resp.pagination == Some(echo_of(preq))
                    &&& listing_matches(resp.medias@, page, state.store.media_offers@)
                }))
            }),
    {
        let u = match caller {
            Some(u) => u,
            None => {
                return Err(ServiceError::Unauthenticated);
            },
        };
        let booth = match parse_uuid(request.market_booth_id.as_str(), "market_booth_id") {
            Ok(b) => b,
            Err(e) => {
                return Err(e);
            },
        };
        let filter_val: Option<ListFilter> = match &request.filter {
            None => None,
            Some(fl) => match MediaFilterField::from_i32(fl.field) {
                None => {
                    return Err(ServiceError::InvalidArgument("filter.field".to_owned()));
                },
                Some(MediaFilterField::Unspecified) => None,
                Some(MediaFilterField::Name) => Some(ListFilter::Name(fl.query.clone())),
                Some(MediaFilterField::OfferId) => match Uuid::parse_v4(fl.query.as_str()) {
                    Some(o) => Some(ListFilter::OfferId(o)),
                    None => {
                        return Err(ServiceError::InvalidArgument("filter.query".to_owned()));
                    },
                },
            },
        };
        let order_val: Option<(MediaOrderByField, Direction)> = match &request.order_by {
            None => None,
            Some(ob) => {
                let f = match MediaOrderByField::from_i32(ob.field) {
                    Some(f) => f,
                    None => {
                        return Err(ServiceError::InvalidArgument("order_by.field".to_owned()));
                    },
                };
                let d = match Direction::from_i32(ob.direction) {
                    Some(d) => d,
                    None => {
                        return Err(ServiceError::InvalidArgument("order_by.direction".to_owned()));
                    },
                };
                Some((f, d))
            },
        };
        let (limit, offset, echo) = match paginate(request.pagination) {
            Ok(t) => t,
            Err(e) => {
                return Err(e);
            },
        };
        proof {
            let p1 = owner_pred(state.store.media_offers@, booth, u@, filter_val);
            let p2 = wire_owner_pred(state.store.media_offers@, booth, u@, request.filter);
            assert forall|m: Media| #[trigger] p1(m) == p2(m) by {}
            assert(p1 =~= p2);
            assert(field_of(order_val) == wire_field(request.order_by));
            assert(desc_of(order_val) == wire_desc(request.order_by));
        }
        let rows = Media::list(
            &state.store,
            booth,
            u,
            limit,
            offset,
            filter_val,
            order_val,
        );
        let mut medias: Vec<MediaResponse> = Vec::new();
        let ghost page = page_of(
            ordered(
                state.store.medias@.filter(
                    wire_owner_pred(state.store.media_offers@, booth, u@, request.filter),
                ),
                wire_field(request.order_by),
                wire_desc(request.order_by),
            ),
            offset_of(request.pagination),
            limit_of(request.pagination) as int,
        );
        let total = rows.len();
        let mut rows = rows;
        let mut p: usize = 0;
        while rows.len() > 0
            invariant
                total == page.len(),
                total <= usize::MAX,
                p + rows@.len() == total,
                forall|q: int|
                    0 <= q < rows@.len() ==> row_with_offers(
                        #[trigger] rows@[q],
                        page[p + q],
                        offers_of(state.store.media_offers@, page[p + q].media_id),
                    ),
                medias@.len() == p,
                forall|q: int|
                    0 <= q < p ==> response_of_row(
                        #[trigger] medias@[q],
                        page[q],
                        offers_of(state.store.media_offers@, page[q].media_id),
                        None,
                    ),
            decreases rows@.len(),
        {
            let ghost rows0 = rows@;
            let m = rows.remove(0);
            proof {
                assert(rows@ =~= rows0.skip(1));
                assert forall|q: int| 0 <= q < rows@.len() implies row_with_offers(
                    #[trigger] rows@[q],
                    page[p + 1 + q],
                    offers_of(state.store.media_offers@, page[p + 1 + q].media_id),
                ) by {
                    assert(rows@[q] == rows0[q + 1]);
                }
            }
            let mr = response_for_row(&m, None);
            proof {
                assert(response_of_row(
                    mr,
                    page[p as int],
                    offers_of(state.store.media_offers@, page[p as int].media_id),
                    None,
                ));
            }
            medias.push(mr);
            p = p + 1;
        }
        Ok(ListMediaResponse { medias, pagination: Some(echo) })
    }
}

impl MediaService {
    /// List every media the caller may read, across all market booths,
    /// filtered, ordered and paged. Anyone may call; an anonymous caller
    /// sees what public offers expose.
    pub fn list_accessible_media(
        &self,
        state: &ServiceState,
        caller: Option<&String>,
        request: &ListAccessibleMediaRequest,
        policies: &Vec<OfferAccess>,
        now: i64,
    ) -> (r: Result<ListAccessibleMediaResponse, ServiceError>)
        requires
            state_inv(*state),
        ensures
            ({
                let freq = request.filter;
                let oreq = request.order_by;
                let preq = request.pagination;
                &&& (freq matches Some(fl) && spec_filter_field_from_i32(fl.field) is None)
                    ==> err_invalid(r, "filter.field"@)
                &&& (freq matches Some(fl) && spec_filter_field_from_i32(fl.field) == Some(
                    MediaFilterField::OfferId,
                ) && parsed_v4(fl.query@) is None) ==> err_invalid(r, "filter.query"@)
                &&& wire_filter_ok(freq) && (oreq matches Some(ob)
                    && spec_order_by_field_from_i32(ob.field) is None) ==> err_invalid(
                    r,
                    "order_by.field"@,
                )
                &&& wire_filter_ok(freq) && (oreq matches Some(ob)
                    && spec_order_by_field_from_i32(ob.field) is Some && spec_direction_from_i32(
                    ob.direction,
                ) is None) ==> err_invalid(r, "order_by.direction"@)
                &&& wire_filter_ok(freq) && wire_order_ok(oreq) && (preq matches Some(p) && p.page
                    < 1) ==> err_invalid(r, "pagination.page"@)
                &&& wire_filter_ok(freq) && wire_order_ok(oreq) && (preq matches Some(p) && p.page
                    >= 1 && p.size < 1) ==> err_invalid(r, "pagination.size"@)
                &&& wire_filter_ok(freq) && wire_order_ok(oreq) && (preq matches Some(p) && p.page
                    >= 1 && p.size >= 1 && (p.page - 1) * p.size > u64::MAX) ==> err_invalid(
                    r,
                    "pagination"@,
                )
                &&& wire_filter_ok(freq) && wire_order_ok(oreq) && wire_pagination_ok(preq) ==> (r
                    matches Ok(resp) && ({
                    let pred = wire_accessible_pred(
                        state.store.media_offers@,
                        policies@,
                        state.store.media_subscriptions@,
                        caller_view(caller),
                        freq,
                        now,
                    );
                    let page = page_of(
                        ordered(
                            state.store.medias@.filter(pred),
                            wire_field(oreq),
                            wire_desc(oreq),
                        ),
                        offset_of(preq),
                        limit_of(preq) as int,
                    );
                    &&& resp.pagination == Some(echo_of(preq))
                    &&& listing_matches(resp.medias@, page, state.store.media_offers@)
                }))
            }),
    {
        match &request.filter {
            None => {},
            Some(fl) => match MediaFilterField::from_i32(fl.field) {
                None => {
                    return Err(ServiceError::InvalidArgument("filter.field".to_owned()));
                },
                Some(MediaFilterField::OfferId) => {
                    if Uuid::parse_v4(fl.query.as_str()).is_none() {
                        return Err(ServiceError::InvalidArgument("filter.query".to_owned()));
                    }
                },
                Some(_) => {},
            },
        };
        let field = match &request.order_by {
            None => MediaOrderByField::CreatedAt,
            Some(ob) => {
                let f = match MediaOrderByField::from_i32(ob.field) {
                    Some(f) => f,
                    None => {
                        return Err(ServiceError::InvalidArgument("order_by.field".to_owned()));
                    },
                };
                match Direction::from_i32(ob.direction) {
                    Some(_) => {},
                    None => {
                        return Err(ServiceError::InvalidArgument("order_by.direction".to_owned()));
                    },
                };
                match f {
                    MediaOrderByField::UpdatedAt => MediaOrderByField::UpdatedAt,
                    _ => MediaOrderByField::CreatedAt,
                }
            },
        };
        let desc = match &request.order_by {
            None => true,
            Some(ob) => !(ob.direction == 1),
        };
        let (limit, offset, echo) = match paginate(request.pagination) {
            Ok(t) => t,
            Err(e) => {
                return Err(e);
            },
        };
        proof {
            assert(field == wire_field(request.order_by));
            assert(desc == wire_desc(request.order_by));
        }
        let ghost pred = wire_accessible_pred(
            state.store.media_offers@,
            policies@,
            state.store.media_subscriptions@,
            caller_view(caller),
            request.filter,
            now,
        );
        let n = state.store.medias.len();
        let mut base: Vec<Media> = Vec::new();
        proof {
            assert(state.store.medias@.take(0).filter(pred) =~= Seq::empty()) by {
                reveal(Seq::filter);
            }
        }
        let mut i: usize = 0;
        while i < n
            invariant
                n == state.store.medias@.len(),
                state_inv(*state),
                pred == wire_accessible_pred(
                    state.store.media_offers@,
                    policies@,
                    state.store.media_subscriptions@,
                    caller_view(caller),
                    request.filter,
                    now,
                ),
                wire_filter_ok(request.filter),
                i <= n,
                base@ == state.store.medias@.take(i as int).filter(pred),
            decreases n - i,
        {
            let m = &state.store.medias[i];
            let mut pass = can_read_exec(
                m,
                &state.store.media_offers,
                policies,
                &state.store.media_subscriptions,
                caller,
                now,
            );
            if pass {
                pass = match &request.filter {
                    None => true,
                    Some(fl) => match MediaFilterField::from_i32(fl.field) {
                        Some(MediaFilterField::Name) => crate::text::contains_ci(
                            m.name.as_str(),
                            fl.query.as_str(),
                        ),
                        Some(MediaFilterField::OfferId) => {
                            let o = match Uuid::parse_v4(fl.query.as_str()) {
                                Some(o) => o,
                                None => {
                                    return Err(
                                        ServiceError::InvalidArgument("filter.query".to_owned()),
                                    );
                                },
                            };
                            crate::model::media_offer::find_pair_index(
                                &state.store.media_offers,
                                m.media_id,
                                o,
                            ).is_some()
                        },
                        _ => true,
                    },
                };
            }
            proof {
                assert(state.store.medias@.take(i + 1) =~= state.store.medias@.take(i as int)
                    + seq![state.store.medias@[i as int]]);
                Seq::filter_distributes_over_add(
                    state.store.medias@.take(i as int),
                    seq![state.store.medias@[i as int]],
                    pred,
                );
                crate::seqs::lemma_filter_singleton(state.store.medias@[i as int], pred);
                assert(pass == pred(state.store.medias@[i as int]));
            }
            if pass {
                let copy = m.duplicate();
                base.push(copy);
            }
            proof {
                assert(base@ =~= state.store.medias@.take(i + 1).filter(pred));
            }
            i = i + 1;
        }
        proof {
            assert(state.store.medias@.take(n as int) =~= state.store.medias@);
            assert forall|k: int| 0 <= k < base@.len() implies (
            #[trigger] base@[k]).offer_ids is None by {
                crate::seqs::lemma_filter_member(state.store.medias@, pred, k);
                let w = choose|w: int|
                    0 <= w < state.store.medias@.len() && #[trigger] state.store.medias@[w]
                        == base@[k];
            }
        }
        let mut page = page_rows(&base, field, desc, offset, limit);
        let ghost page0 = page@;
        let page_len = page.len();
        proof {
            assert(page0.len() == page_len);
        }
        let mut medias: Vec<MediaResponse> = Vec::new();
        let mut p: usize = 0;
        while page.len() > 0
            invariant
                state_inv(*state),
                page0.len() <= usize::MAX,
                p + page@.len() == page0.len(),
                page@ == page0.skip(p as int),
                medias@.len() == p,
                forall|q: int|
                    0 <= q < p ==> response_of_row(
                        #[trigger] medias@[q],
                        page0[q],
                        offers_of(state.store.media_offers@, page0[q].media_id),
                        None,
                    ),
            decreases page@.len(),
        {
            let mut m = page.remove(0);
            proof {
                assert(page0.skip(p as int)[0] == page0[p as int]);
                assert(page0.skip(p as int).remove(0) =~= page0.skip(p + 1));
            }
            let ids = crate::model::media::collect_offer_ids(&state.store.media_offers, m.media_id);
            if ids.len() > 0 {
                m.offer_ids = Some(ids);
            } else {
                m.offer_ids = None;
            }
            let mr = response_for_row(&m, None);
            medias.push(mr);
            p = p + 1;
        }
        proof {
            assert(page0.skip(page0.len() as int) =~= Seq::<Media>::empty());
        }
        Ok(ListAccessibleMediaResponse { medias, pagination: Some(echo) })
    }
}

impl MediaService {
    /// Update an owned media: the name where one is given, the bytes where a
    /// file is given (rewritten in place at the same key), and the update
    /// timestamp always. A failed byte write leaves the row untouched.
    pub fn update_media(
        &self,
        state: &mut ServiceState,
        caller: Option<&String>,
        request: &UpdateMediaRequest,
        now: i64,
        put: PutOutcome,
    ) -> (r: Result<UpdateMediaResponse, ServiceError>)
        requires
            state_inv(*old(state)),
        ensures
            state_inv(*final(state)),
            caller is None ==> r == Result::<UpdateMediaResponse, ServiceError>::Err(
                ServiceError::Unauthenticated,
            ) && unchanged(*old(state), *final(state)),
            caller matches Some(u) ==> ({
                let mid = parsed_v4(request.media_id@);
                let rows = old(state).store.medias@;
                &&& mid is None ==> err_invalid(r, "media_id"@) && unchanged(
                    *old(state),
                    *final(state),
                )
                &&& mid is Some && (request.name matches Some(nm) && nm@.len() == 0)
                    ==> err_invalid(r, "name"@) && unchanged(*old(state), *final(state))
                &&& mid is Some && update_name_ok(*request) && (request.file matches Some(f)
                    && !spec_allowed_content_type(f.content_type@)) ==> err_invalid(
                    r,
                    "file.content_type"@,
                ) && unchanged(*old(state), *final(state))
                &&& mid is Some && update_name_ok(*request) && (request.file matches Some(f)
                    && spec_allowed_content_type(f.content_type@) && f.data@.len()
                    > self.file_max_size) ==> err_invalid(r, "file.data"@) && unchanged(
                    *old(state),
                    *final(state),
                )
                &&& mid matches Some(m) ==> (update_valid(self.file_max_size, *request) ==> ({
                    &&& !has_media(rows, m) ==> r == Result::<UpdateMediaResponse,
                    ServiceError>::Err(ServiceError::NotFound) && unchanged(
                        *old(state),
                        *final(state),
                    )
                    &&& has_media(rows, m) && media_at(rows, m).user_id@ != u@ ==> r == Result::<
                        UpdateMediaResponse,
                        ServiceError,
                    >::Err(ServiceError::PermissionDenied) && unchanged(*old(state), *final(state))
                    &&& has_media(rows, m) && media_at(rows, m).user_id@ == u@ ==> ({
                        let prev = media_at(rows, m);
                        &&& (request.file is Some && !(prev.upload is Committed)) ==> r
                            == Result::<UpdateMediaResponse, ServiceError>::Err(
                            ServiceError::FailedPrecondition,
                        ) && unchanged(*old(state), *final(state))
                        &&& (request.file is Some && prev.upload is Committed && !(put
                            is Success)) ==> r == Result::<UpdateMediaResponse, ServiceError>::Err(
                            ServiceError::Unavailable,
                        ) && unchanged(*old(state), *final(state))
                        &&& (request.file is None || (prev.upload is Committed && put is Success))
                            ==> (r matches Ok(resp) && ({
                            let idx = crate::model::media::media_index(rows, m);
                            let row = final(state).store.medias@[idx];
                            &&& final(state).store.medias@ == rows.update(idx, row)
                            &&& row.media_id == prev.media_id
                            &&& row.market_booth_id == prev.market_booth_id
                            &&& row.user_id == prev.user_id
                            &&& row.created_at == prev.created_at
                            &&& row.updated_at == now
                            &&& row.name@ == (match request.name {
                                Some(nm) => nm@,
                                None => prev.name@,
                            })
                            &&& row.data_url == prev.data_url
                            &&& row.upload == prev.upload
                            &&& final(state).store.media_offers@ == old(state).store.media_offers@
                            &&& final(state).store.media_subscriptions@ == old(state).store.media_subscriptions@
                            &&& final(state).objects.sessions@ == old(state).objects.sessions@
                            &&& (match request.file {
                                Some(f) => obj_view(final(state).objects.objects@, prev.data_url@)
                                    == Some((f.content_type@, f.data@)) && forall|k: Seq<char>|
                                    k != prev.data_url@ ==> #[trigger] obj_view(
                                        final(state).objects.objects@,
                                        k,
                                    ) == obj_view(old(state).objects.objects@, k),
                                None => final(state).objects.objects@ == old(state).objects.objects@,
                            })
                            &&& resp.media matches Some(mr) && response_of_row(
                                mr,
                                row,
                                offers_of(old(state).store.media_offers@, m),
                                None,
                            )
                        }))
                    })
                }))
            }),
    {
        let u = match caller {
            Some(u) => u,
            None => {
                return Err(ServiceError::Unauthenticated);
            },
        };
        let mid = match parse_uuid(request.media_id.as_str(), "media_id") {
            Ok(m) => m,
            Err(e) => {
                return Err(e);
            },
        };
        match &request.name {
            Some(nm) => {
                if nm.as_str().is_empty() {
                    return Err(ServiceError::InvalidArgument("name".to_owned()));
                }
            },
            None => {},
        }
        match &request.file {
            Some(f) => {
                if !is_allowed_content_type(f.content_type.as_str()) {
                    return Err(ServiceError::InvalidArgument("file.content_type".to_owned()));
                }
                if f.data.len() as u64 > self.file_max_size {
                    return Err(ServiceError::InvalidArgument("file.data".to_owned()));
                }
            },
            None => {},
        }
        let idx = match find_media_index(&state.store.medias, mid) {
            Some(i) => i,
            None => {
                return Err(ServiceError::NotFound);
            },
        };
        let owner_ok = state.store.medias[idx].user_id == *u;
        if !owner_ok {
            return Err(ServiceError::PermissionDenied);
        }
        match &request.file {
            Some(f) => {
                let committed = match &state.store.medias[idx].upload {
                    UploadState::Committed => true,
                    _ => false,
                };
                if !committed {
                    return Err(ServiceError::FailedPrecondition);
                }
                match put {
                    PutOutcome::Success => {},
                    _ => {
                        return Err(ServiceError::Unavailable);
                    },
                }
                let url = state.store.medias[idx].data_url.clone();
                state.objects.put(&url, &f.content_type, &f.data);
                proof {
                    lemma_rows_keep_after_write(
                        state.store.medias@,
                        old(state).objects.objects@,
                        state.objects.objects@,
                        url@,
                    );
                }
            },
            None => {},
        }
        let name_opt: Option<String> = match &request.name {
            Some(nm) => Some(nm.clone()),
            None => None,
        };
        let ghost mid_objects = state.objects.objects@;
        let m = match Media::update(&mut state.store, mid, u, name_opt, now) {
            Ok(m) => m,
            Err(_) => {
                return Err(ServiceError::Internal);
            },
        };
        proof {
            let rows = state.store.medias@;
            let prev = media_at(old(state).store.medias@, mid);
            assert forall|i: int| 0 <= i < rows.len() implies row_ok(
                #[trigger] rows[i],
                state.objects.objects@,
            ) by {
                let ix = crate::model::media::media_index(old(state).store.medias@, mid);
                if i != ix {
                    assert(rows[i] == old(state).store.medias@[i]);
                    assert(row_ok(old(state).store.medias@[i], mid_objects));
                } else {
                    assert(row_ok(old(state).store.medias@[ix], mid_objects));
                }
            }
        }
        let mut with_offers = m;
        let ids = crate::model::media::collect_offer_ids(&state.store.media_offers, mid);
        if ids.len() > 0 {
            with_offers.offer_ids = Some(ids);
        } else {
            with_offers.offer_ids = None;
        }
        let mr = response_for_row(&with_offers, None);
        Ok(UpdateMediaResponse { media: Some(mr) })
    }

    /// Delete an owned media: the row goes first with its associations, then
    /// every object and session under the media's prefix. A failed
    /// object-store deletion aborts the whole operation, so the row survives
    /// for a retry.
    pub fn delete_media(
        &self,
        state: &mut ServiceState,
        caller: Option<&String>,
        request: &DeleteMediaRequest,
        delete_ok: bool,
    ) -> (r: Result<DeleteMediaResponse, ServiceError>)
        requires
            state_inv(*old(state)),
        ensures
            state_inv(*final(state)),
            caller is None ==> r == Result::<DeleteMediaResponse, ServiceError>::Err(
                ServiceError::Unauthenticated,
            ) && unchanged(*old(state), *final(state)),
            caller matches Some(u) ==> ({
                let mid = parsed_v4(request.media_id@);
                let rows = old(state).store.medias@;
                &&& mid is None ==> err_invalid(r, "media_id"@) && unchanged(
                    *old(state),
                    *final(state),
                )
                &&& mid matches Some(m) ==> ({
                    &&& !has_media(rows, m) ==> r == Result::<DeleteMediaResponse,
                    ServiceError>::Err(ServiceError::NotFound) && unchanged(
                        *old(state),
                        *final(state),
                    )
                    &&& has_media(rows, m) && media_at(rows, m).user_id@ != u@ ==> r == Result::<
                        DeleteMediaResponse,
                        ServiceError,
                    >::Err(ServiceError::PermissionDenied) && unchanged(*old(state), *final(state))
                    &&& has_media(rows, m) && media_at(rows, m).user_id@ == u@ && !delete_ok ==> r
                        == Result::<DeleteMediaResponse, ServiceError>::Err(ServiceError::Internal)
                        && unchanged(*old(state), *final(state))
                    &&& has_media(rows, m) && media_at(rows, m).user_id@ == u@ && delete_ok ==> (r
                        matches Ok(_) && ({
                        let prefix = media_key_prefix(media_at(rows, m).market_booth_id, m);
                        &&& final(state).store.medias@ == crate::model::media::remove_at(
                            rows,
                            crate::model::media::media_index(rows, m),
                        )
                        &&& !has_media(final(state).store.medias@, m)
                        &&& final(state).store.media_offers@ == old(state).store.media_offers@.filter(
                            crate::model::media_offer::not_media(m),
                        )
                        &&& final(state).store.media_subscriptions@ == old(state).store.media_subscriptions@
                        &&& forall|k: Seq<char>|
                            starts_with(k, prefix) ==> #[trigger] obj_view(
                                final(state).objects.objects@,
                                k,
                            ) is None
                        &&& forall|k: Seq<char>|
                            !starts_with(k, prefix) ==> #[trigger] obj_view(
                                final(state).objects.objects@,
                                k,
                            ) == obj_view(old(state).objects.objects@, k)
                        &&& forall|k: Seq<char>, uu: Seq<char>|
                            starts_with(k, prefix) ==> #[trigger] crate::objects::session_view(
                                final(state).objects.sessions@,
                                k,
                                uu,
                            ) is None
                        &&& forall|k: Seq<char>, uu: Seq<char>|
                            !starts_with(k, prefix) ==> #[trigger] crate::objects::session_view(
                                final(state).objects.sessions@,
                                k,
                                uu,
                            ) == crate::objects::session_view(old(state).objects.sessions@, k, uu)
                    }))
                })
            }),
    {
        let u = match caller {
            Some(u) => u,
            None => {
                return Err(ServiceError::Unauthenticated);
            },
        };
        let mid = match parse_uuid(request.media_id.as_str(), "media_id") {
            Ok(m) => m,
            Err(e) => {
                return Err(e);
            },
        };
        let idx = match find_media_index(&state.store.medias, mid) {
            Some(i) => i,
            None => {
                return Err(ServiceError::NotFound);
            },
        };
        let owner_ok = state.store.medias[idx].user_id == *u;
        if !owner_ok {
            return Err(ServiceError::PermissionDenied);
        }
        if !delete_ok {
            return Err(ServiceError::Internal);
        }
        let booth = state.store.medias[idx].market_booth_id;
        let (prefix, _key) = build_key(booth, mid, state.store.medias[idx].name.as_str());
        let ghost pre_objects = state.objects.objects@;
        state.objects.delete_prefix(&prefix);
        let delr = Media::begin_delete(&mut state.store, mid, u);
        proof {
            let rows = state.store.medias@;
            assert forall|i: int| 0 <= i < rows.len() implies (#[trigger] rows[i]).media_id
                != mid by {}
            assert forall|i: int| 0 <= i < rows.len() implies row_ok(
                #[trigger] rows[i],
                pre_objects,
            ) by {
                let pre_rows = old(state).store.medias@;
                let ix = crate::model::media::media_index(pre_rows, mid);
                let pi = if i < ix {
                    i
                } else {
                    i + 1
                };
                assert(rows[i] == pre_rows[pi]);
            }
            lemma_rows_keep_after_prefix_delete(
                rows,
                pre_objects,
                state.objects.objects@,
                booth,
                mid,
            );
        }
        Ok(DeleteMediaResponse {  })
    }
}

impl MediaService {
    /// Open a multipart upload for an owned media that is pending or being
    /// replaced. The object-store session starts under the media's key; the
    /// row remembers the upload id. `upload_id` is what the object store
    /// answered, or nothing where that call failed.
    pub fn initiate_multipart_upload(
        &self,
        state: &mut ServiceState,
        caller: Option<&String>,
        request: &InitiateMultipartUploadRequest,
        upload_id: Option<&String>,
        now: i64,
    ) -> (r: Result<InitiateMultipartUploadResponse, ServiceError>)
        requires
            state_inv(*old(state)),
        ensures
            state_inv(*final(state)),
            caller is None ==> r == Result::<InitiateMultipartUploadResponse, ServiceError>::Err(
                ServiceError::Unauthenticated,
            ) && unchanged(*old(state), *final(state)),
            caller matches Some(u) ==> ({
                let mid = parsed_v4(request.media_id@);
                let rows = old(state).store.medias@;
                &&& mid is None ==> err_invalid(r, "media_id"@) && unchanged(
                    *old(state),
                    *final(state),
                )
                &&& mid is Some && !spec_allowed_content_type(request.content_type@)
                    ==> err_invalid(r, "content_type"@) && unchanged(*old(state), *final(state))
                &&& mid matches Some(m) ==> (spec_allowed_content_type(request.content_type@)
                    ==> ({
                    &&& !has_media(rows, m) ==> r == Result::<
                        InitiateMultipartUploadResponse,
                        ServiceError,
                    >::Err(ServiceError::NotFound) && unchanged(*old(state), *final(state))
                    &&& has_media(rows, m) && media_at(rows, m).user_id@ != u@ ==> r == Result::<
                        InitiateMultipartUploadResponse,
                        ServiceError,
                    >::Err(ServiceError::PermissionDenied) && unchanged(*old(state), *final(state))
                    &&& has_media(rows, m) && media_at(rows, m).user_id@ == u@ ==> ({
                        let prev = media_at(rows, m);
                        &&& prev.upload is Uploading ==> r == Result::<
                            InitiateMultipartUploadResponse,
                            ServiceError,
                        >::Err(ServiceError::FailedPrecondition) && unchanged(
                            *old(state),
                            *final(state),
                        )
                        &&& !(prev.upload is Uploading) && upload_id is None ==> r == Result::<
                            InitiateMultipartUploadResponse,
                            ServiceError,
                        >::Err(ServiceError::Unavailable) && unchanged(*old(state), *final(state))
                        &&& !(prev.upload is Uploading) ==> (match upload_id {
                            Option::None => true,
                            Option::Some(uid) => (r matches Ok(resp) && ({
                            let key = media_key(prev.market_booth_id, m, prev.name@);
                            let idx = crate::model::media::media_index(rows, m);
                            let row = final(state).store.medias@[idx];
                            &&& final(state).store.medias@ == rows.update(idx, row)
                            &&& row.media_id == prev.media_id
                            &&& row.market_booth_id == prev.market_booth_id
                            &&& row.user_id == prev.user_id
                            &&& row.name == prev.name
                            &&& row.data_url@ == prev.data_url@
                            &&& row.created_at == prev.created_at
                            &&& row.updated_at == now
                            &&& row.upload matches UploadState::Uploading(ru) && ru@ == uid@
                            &&& final(state).store.media_offers@ == old(state).store.media_offers@
                            &&& final(state).store.media_subscriptions@ == old(state).store.media_subscriptions@
                            &&& final(state).objects.objects@ == old(state).objects.objects@
                            &&& (crate::objects::session_view(
                                final(state).objects.sessions@,
                                key,
                                uid@,
                            ) matches Some(s) && s.content_type@ == request.content_type@
                                && s.parts@.len() == 0)
                            &&& forall|k: Seq<char>, uu: Seq<char>|
                                !(k == key && uu == uid@) ==> #[trigger] crate::objects::session_view(
                                    final(state).objects.sessions@,
                                    k,
                                    uu,
                                ) == crate::objects::session_view(
                                    old(state).objects.sessions@,
                                    k,
                                    uu,
                                )
                            &&& resp.key@ == key
                            &&& resp.upload_id@ == uid@
                        })),
                        })
                    })
                }))
            }),
    {
        let u = match caller {
            Some(u) => u,
            None => {
                return Err(ServiceError::Unauthenticated);
            },
        };
        let mid = match parse_uuid(request.media_id.as_str(), "media_id") {
            Ok(m) => m,
            Err(e) => {
                return Err(e);
            },
        };
        if !is_allowed_content_type(request.content_type.as_str()) {
            return Err(ServiceError::InvalidArgument("content_type".to_owned()));
        }
        let idx = match find_media_index(&state.store.medias, mid) {
            Some(i) => i,
            None => {
                return Err(ServiceError::NotFound);
            },
        };
        let owner_ok = state.store.medias[idx].user_id == *u;
        if !owner_ok {
            return Err(ServiceError::PermissionDenied);
        }
        let uploading = match &state.store.medias[idx].upload {
            UploadState::Uploading(_) => true,
            _ => false,
        };
        if uploading {
            return Err(ServiceError::FailedPrecondition);
        }
        let uid = match upload_id {
            Some(uid) => uid,
            None => {
                return Err(ServiceError::Unavailable);
            },
        };
        let booth = state.store.medias[idx].market_booth_id;
        let (_prefix, key) = build_key(booth, mid, state.store.medias[idx].name.as_str());
        state.objects.initiate_multipart(&key, &request.content_type, uid);
        proof {
            assert forall|i: int| 0 <= i < state.store.medias@.len() implies row_ok(
                #[trigger] state.store.medias@[i],
                state.objects.objects@,
            ) by {
                assert(row_ok(state.store.medias@[i], old(state).objects.objects@));
            }
        }
        crate::model::media::set_upload_state(
            &mut state.store,
            idx,
            UploadState::Uploading(uid.clone()),
            None,
            now,
        );
        proof {
            let rows = state.store.medias@;
            let prev_rows = old(state).store.medias@;
            assert forall|i: int| 0 <= i < rows.len() implies row_ok(
                #[trigger] rows[i],
                state.objects.objects@,
            ) by {
                if i != idx as int {
                    assert(rows[i] == prev_rows[i]);
                    assert(row_ok(prev_rows[i], old(state).objects.objects@));
                } else {
                    assert(row_ok(prev_rows[i], old(state).objects.objects@));
                }
            }
        }
        let response_key = key;
        Ok(
            InitiateMultipartUploadResponse {
                key: response_key,
                upload_id: uid.clone(),
            },
        )
    }

    /// Store one chunk of an open multipart upload. The part number must be
    /// in range and the upload id must match the row's open upload. `etag`
    /// is what the object store answered for this part, or nothing where
    /// that call failed.
    pub fn put_multipart_chunk(
        &self,
        state: &mut ServiceState,
        caller: Option<&String>,
        request: &PutMultipartChunkRequest,
        etag: Option<&String>,
    ) -> (r: Result<PutMultipartChunkResponse, ServiceError>)
        requires
            state_inv(*old(state)),
        ensures
            state_inv(*final(state)),
            final(state).store.medias@ == old(state).store.medias@,
            final(state).store.media_offers@ == old(state).store.media_offers@,
            final(state).store.media_subscriptions@ == old(state).store.media_subscriptions@,
            final(state).objects.objects@ == old(state).objects.objects@,
            caller is None ==> r == Result::<PutMultipartChunkResponse, ServiceError>::Err(
                ServiceError::Unauthenticated,
            ) && unchanged(*old(state), *final(state)),
            caller matches Some(u) ==> ({
                let mid = parsed_v4(request.media_id@);
                let rows = old(state).store.medias@;
                &&& mid is None ==> err_invalid(r, "media_id"@) && unchanged(
                    *old(state),
                    *final(state),
                )
                &&& mid is Some && !(1 <= request.part_number <= 10000) ==> err_invalid(
                    r,
                    "part_number"@,
                ) && unchanged(*old(state), *final(state))
                &&& mid matches Some(m) ==> (1 <= request.part_number <= 10000 ==> ({
                    &&& !has_media(rows, m) ==> r == Result::<
                        PutMultipartChunkResponse,
                        ServiceError,
                    >::Err(ServiceError::NotFound) && unchanged(*old(state), *final(state))
                    &&& has_media(rows, m) && media_at(rows, m).user_id@ != u@ ==> r == Result::<
                        PutMultipartChunkResponse,
                        ServiceError,
                    >::Err(ServiceError::PermissionDenied) && unchanged(*old(state), *final(state))
                    &&& has_media(rows, m) && media_at(rows, m).user_id@ == u@ ==> ({
                        let prev = media_at(rows, m);
                        let open_matches = prev.upload matches UploadState::Uploading(ru) && ru@
                            == request.upload_id@;
                        &&& !open_matches ==> r == Result::<
                            PutMultipartChunkResponse,
                            ServiceError,
                        >::Err(ServiceError::FailedPrecondition) && unchanged(
                            *old(state),
                            *final(state),
                        )
                        &&& open_matches && etag is None ==> r == Result::<
                            PutMultipartChunkResponse,
                            ServiceError,
                        >::Err(ServiceError::Unavailable) && unchanged(*old(state), *final(state))
                        &&& open_matches ==> (match etag {
                            Option::None => true,
                            Option::Some(et) => ({
                            let key = media_key(prev.market_booth_id, m, prev.name@);
                            &&& !crate::objects::has_session(
                                old(state).objects.sessions@,
                                key,
                                request.upload_id@,
                            ) ==> r == Result::<PutMultipartChunkResponse, ServiceError>::Err(
                                ServiceError::FailedPrecondition,
                            ) && unchanged(*old(state), *final(state))
                            &&& crate::objects::has_session(
                                old(state).objects.sessions@,
                                key,
                                request.upload_id@,
                            ) ==> (r matches Ok(resp) && ({
                                let prev_sess = crate::objects::session_at(
                                    old(state).objects.sessions@,
                                    key,
                                    request.upload_id@,
                                );
                                &&& (crate::objects::session_view(
                                    final(state).objects.sessions@,
                                    key,
                                    request.upload_id@,
                                ) matches Some(s) && ({
                                    &&& s.content_type@ == prev_sess.content_type@
                                    &&& crate::objects::part_data(s.parts@, request.part_number)
                                        == Some((et@, request.chunk@))
                                    &&& forall|q: u32|
                                        q != request.part_number
                                            ==> #[trigger] crate::objects::part_data(s.parts@, q)
                                            == crate::objects::part_data(prev_sess.parts@, q)
                                }))
                                &&& forall|k: Seq<char>, uu: Seq<char>|
                                    !(k == key && uu == request.upload_id@)
                                        ==> #[trigger] crate::objects::session_view(
                                        final(state).objects.sessions@,
                                        k,
                                        uu,
                                    ) == crate::objects::session_view(
                                        old(state).objects.sessions@,
                                        k,
                                        uu,
                                    )
                                &&& resp.part matches Some(p) && p.part_number
                                    == request.part_number && p.etag@ == et@
                            }))
                        }),
                        })
                    })
                }))
            }),
    {
        let u = match caller {
            Some(u) => u,
            None => {
                return Err(ServiceError::Unauthenticated);
            },
        };
        let mid = match parse_uuid(request.media_id.as_str(), "media_id") {
            Ok(m) => m,
            Err(e) => {
                return Err(e);
            },
        };
        if request.part_number < 1 || request.part_number > 10000 {
            return Err(ServiceError::InvalidArgument("part_number".to_owned()));
        }
        let idx = match find_media_index(&state.store.medias, mid) {
            Some(i) => i,
            None => {
                return Err(ServiceError::NotFound);
            },
        };
        let owner_ok = state.store.medias[idx].user_id == *u;
        if !owner_ok {
            return Err(ServiceError::PermissionDenied);
        }
        let open_matches = match &state.store.medias[idx].upload {
            UploadState::Uploading(ru) => *ru == request.upload_id,
            _ => false,
        };
        if !open_matches {
            return Err(ServiceError::FailedPrecondition);
        }
        let et = match etag {
            Some(et) => et,
            None => {
                return Err(ServiceError::Unavailable);
            },
        };
        let booth = state.store.medias[idx].market_booth_id;
        let (_prefix, key) = build_key(booth, mid, state.store.medias[idx].name.as_str());
        let ok = state.objects.put_part(
            &key,
            &request.upload_id,
            request.part_number,
            &request.chunk,
            et,
        );
        if !ok {
            return Err(ServiceError::FailedPrecondition);
        }
        proof {
            assert forall|i: int| 0 <= i < state.store.medias@.len() implies row_ok(
                #[trigger] state.store.medias@[i],
                state.objects.objects@,
            ) by {
                assert(row_ok(state.store.medias@[i], old(state).objects.objects@));
            }
        }
        Ok(
            PutMultipartChunkResponse {
                part: Some(
                    crate::api::Part { part_number: request.part_number, etag: et.clone() },
                ),
            },
        )
    }

    /// Finish a multipart upload: the echoed parts must be 1 through n in
    /// order and match the stored parts; the object then holds their bytes
    /// in order, the session is gone, and the row is committed at the key.
    /// On an object-store failure the upload stays open for a retry.
    pub fn complete_multipart_upload(
        &self,
        state: &mut ServiceState,
        caller: Option<&String>,
        request: &CompleteMultipartUploadRequest,
        now: i64,
        complete_ok: bool,
    ) -> (r: Result<CompleteMultipartUploadResponse, ServiceError>)
        requires
            state_inv(*old(state)),
        ensures
            state_inv(*final(state)),
            caller is None ==> r == Result::<CompleteMultipartUploadResponse, ServiceError>::Err(
                ServiceError::Unauthenticated,
            ) && unchanged(*old(state), *final(state)),
            caller matches Some(u) ==> ({
                let mid = parsed_v4(request.media_id@);
                let rows = old(state).store.medias@;
                &&& mid is None ==> err_invalid(r, "media_id"@) && unchanged(
                    *old(state),
                    *final(state),
                )
                &&& mid is Some && !parts_sequential(request.parts@) ==> err_invalid(r, "parts"@)
                    && unchanged(*old(state), *final(state))
                &&& mid matches Some(m) ==> (parts_sequential(request.parts@) ==> ({
                    &&& !has_media(rows, m) ==> r == Result::<
                        CompleteMultipartUploadResponse,
                        ServiceError,
                    >::Err(ServiceError::NotFound) && unchanged(*old(state), *final(state))
                    &&& has_media(rows, m) && media_at(rows, m).user_id@ != u@ ==> r == Result::<
                        CompleteMultipartUploadResponse,
                        ServiceError,
                    >::Err(ServiceError::PermissionDenied) && unchanged(*old(state), *final(state))
                    &&& has_media(rows, m) && media_at(rows, m).user_id@ == u@ ==> ({
                        let prev = media_at(rows, m);
                        let open_matches = prev.upload matches UploadState::Uploading(ru) && ru@
                            == request.upload_id@;
                        let key = media_key(prev.market_booth_id, m, prev.name@);
                        &&& !open_matches ==> r == Result::<
                            CompleteMultipartUploadResponse,
                            ServiceError,
                        >::Err(ServiceError::FailedPrecondition) && unchanged(
                            *old(state),
                            *final(state),
                        )
                        &&& open_matches && !complete_ok ==> r == Result::<
                            CompleteMultipartUploadResponse,
                            ServiceError,
                        >::Err(ServiceError::Unavailable) && unchanged(*old(state), *final(state))
                        &&& open_matches && complete_ok && !crate::objects::has_session(
                            old(state).objects.sessions@,
                            key,
                            request.upload_id@,
                        ) ==> r == Result::<CompleteMultipartUploadResponse, ServiceError>::Err(
                            ServiceError::FailedPrecondition,
                        ) && unchanged(*old(state), *final(state))
                        &&& open_matches && complete_ok && crate::objects::has_session(
                            old(state).objects.sessions@,
                            key,
                            request.upload_id@,
                        ) ==> ({
                            let sess = crate::objects::session_at(
                                old(state).objects.sessions@,
                                key,
                                request.upload_id@,
                            );
                            &&& !crate::objects::parts_match(request.parts@, sess.parts@) ==> r
                                == Result::<CompleteMultipartUploadResponse, ServiceError>::Err(
                                ServiceError::FailedPrecondition,
                            ) && unchanged(*old(state), *final(state))
                            &&& crate::objects::parts_match(request.parts@, sess.parts@) ==> (r
                                matches Ok(_) && ({
                                let idx = crate::model::media::media_index(rows, m);
                                let row = final(state).store.medias@[idx];
                                &&& final(state).store.medias@ == rows.update(idx, row)
                                &&& row.media_id == prev.media_id
                                &&& row.market_booth_id == prev.market_booth_id
                                &&& row.user_id == prev.user_id
                                &&& row.name == prev.name
                                &&& row.created_at == prev.created_at
                                &&& row.updated_at == now
                                &&& row.upload is Committed
                                &&& row.data_url@ == key
                                &&& final(state).store.media_offers@ == old(state).store.media_offers@
                                &&& final(state).store.media_subscriptions@ == old(state).store.media_subscriptions@
                                &&& obj_view(final(state).objects.objects@, key) == Some(
                                    (
                                        sess.content_type@,
                                        crate::objects::concat_echoed(
                                            request.parts@,
                                            sess.parts@,
                                        ),
                                    ),
                                )
                                &&& forall|k: Seq<char>|
                                    k != key ==> #[trigger] obj_view(
                                        final(state).objects.objects@,
                                        k,
                                    ) == obj_view(old(state).objects.objects@, k)
                                &&& crate::objects::session_view(
                                    final(state).objects.sessions@,
                                    key,
                                    request.upload_id@,
                                ) is None
                                &&& forall|k: Seq<char>, uu: Seq<char>|
                                    !(k == key && uu == request.upload_id@)
                                        ==> #[trigger] crate::objects::session_view(
                                        final(state).objects.sessions@,
                                        k,
                                        uu,
                                    ) == crate::objects::session_view(
                                        old(state).objects.sessions@,
                                        k,
                                        uu,
                                    )
                            }))
                        })
                    })
                }))
            }),
    {
        let u = match caller {
            Some(u) => u,
            None => {
                return Err(ServiceError::Unauthenticated);
            },
        };
        let mid = match parse_uuid(request.media_id.as_str(), "media_id") {
            Ok(m) => m,
            Err(e) => {
                return Err(e);
            },
        };
        let pcount = request.parts.len();
        if pcount < 1 || pcount > 10000 {
            return Err(ServiceError::InvalidArgument("parts".to_owned()));
        }
        let mut q: usize = 0;
        while q < pcount
            invariant
                pcount == request.parts@.len(),
                1 <= pcount <= 10000,
                q <= pcount,
                *state == *old(state),
                state_inv(*state),
                caller is Some,
                parsed_v4(request.media_id@) is Some,
                forall|z: int|
                    0 <= z < q ==> (#[trigger] request.parts@[z]).part_number == z + 1,
            decreases pcount - q,
        {
            if request.parts[q].part_number != (q as u32) + 1 {
                return Err(ServiceError::InvalidArgument("parts".to_owned()));
            }
            q = q + 1;
        }
        let idx = match find_media_index(&state.store.medias, mid) {
            Some(i) => i,
            None => {
                return Err(ServiceError::NotFound);
            },
        };
        let owner_ok = state.store.medias[idx].user_id == *u;
        if !owner_ok {
            return Err(ServiceError::PermissionDenied);
        }
        let open_matches = match &state.store.medias[idx].upload {
            UploadState::Uploading(ru) => *ru == request.upload_id,
            _ => false,
        };
        if !open_matches {
            return Err(ServiceError::FailedPrecondition);
        }
        if !complete_ok {
            return Err(ServiceError::Unavailable);
        }
        let booth = state.store.medias[idx].market_booth_id;
        let (_prefix, key) = build_key(booth, mid, state.store.medias[idx].name.as_str());
        match state.objects.complete_multipart(&key, &request.upload_id, &request.parts) {
            Err(_) => {
                return Err(ServiceError::FailedPrecondition);
            },
            Ok(_) => {},
        }
        proof {
            lemma_rows_keep_after_write(
                state.store.medias@,
                old(state).objects.objects@,
                state.objects.objects@,
                key@,
            );
        }
        crate::model::media::set_upload_state(
            &mut state.store,
            idx,
            UploadState::Committed,
            Some(key),
            now,
        );
        proof {
            let rows = state.store.medias@;
            let prev_rows = old(state).store.medias@;
            lemma_prefix_len(booth, mid);
            assert(url_under_prefix(
                media_key(booth, mid, prev_rows[idx as int].name@),
                booth,
                mid,
            )) by {
                assert(media_key(booth, mid, prev_rows[idx as int].name@).subrange(0, 74)
                    =~= media_key_prefix(booth, mid));
            }
            assert forall|i: int| 0 <= i < rows.len() implies row_ok(
                #[trigger] rows[i],
                state.objects.objects@,
            ) by {
                if i != idx as int {
                    assert(rows[i] == prev_rows[i]);
                    assert(row_ok(prev_rows[i], old(state).objects.objects@));
                } else {
                    assert(row_ok(prev_rows[i], old(state).objects.objects@));
                }
            }
        }
        Ok(CompleteMultipartUploadResponse {  })
    }
}

impl MediaService {
    /// Link an owned media to an offer. Linking the same pair twice leaves
    /// exactly one association row.
    pub fn add_media_to_offer(
        &self,
        state: &mut ServiceState,
        caller: Option<&String>,
        request: &AddMediaToOfferRequest,
    ) -> (r: Result<AddMediaToOfferResponse, ServiceError>)
        requires
            state_inv(*old(state)),
        ensures
            state_inv(*final(state)),
            final(state).store.medias@ == old(state).store.medias@,
            final(state).store.media_subscriptions@ == old(state).store.media_subscriptions@,
            final(state).objects.objects@ == old(state).objects.objects@,
            final(state).objects.sessions@ == old(state).objects.sessions@,
            caller is None ==> r == Result::<AddMediaToOfferResponse, ServiceError>::Err(
                ServiceError::Unauthenticated,
            ) && unchanged(*old(state), *final(state)),
            caller matches Some(u) ==> ({
                let mid = parsed_v4(request.media_id@);
                let oid = parsed_v4(request.offer_id@);
                let rows = old(state).store.medias@;
                &&& mid is None ==> err_invalid(r, "media_id"@) && unchanged(
                    *old(state),
                    *final(state),
                )
                &&& mid is Some && oid is None ==> err_invalid(r, "offer_id"@) && unchanged(
                    *old(state),
                    *final(state),
                )
                &&& mid matches Some(m) ==> (oid matches Some(o) ==> ({
                    &&& !has_media(rows, m) ==> r == Result::<
                        AddMediaToOfferResponse,
                        ServiceError,
                    >::Err(ServiceError::NotFound) && unchanged(*old(state), *final(state))
                    &&& has_media(rows, m) && media_at(rows, m).user_id@ != u@ ==> r == Result::<
                        AddMediaToOfferResponse,
                        ServiceError,
                    >::Err(ServiceError::PermissionDenied) && unchanged(*old(state), *final(state))
                    &&& has_media(rows, m) && media_at(rows, m).user_id@ == u@ ==> (r matches Ok(_)
                        && final(state).store.media_offers@ == (
                    if has_pair(old(state).store.media_offers@, m, o) {
                        old(state).store.media_offers@
                    } else {
                        old(state).store.media_offers@.push(MediaOffer { media_id: m, offer_id: o })
                    }))
                }))
            }),
    {
        let u = match caller {
            Some(u) => u,
            None => {
                return Err(ServiceError::Unauthenticated);
            },
        };
        let mid = match parse_uuid(request.media_id.as_str(), "media_id") {
            Ok(m) => m,
            Err(e) => {
                return Err(e);
            },
        };
        let oid = match parse_uuid(request.offer_id.as_str(), "offer_id") {
            Ok(o) => o,
            Err(e) => {
                return Err(e);
            },
        };
        let idx = match find_media_index(&state.store.medias, mid) {
            Some(i) => i,
            None => {
                return Err(ServiceError::NotFound);
            },
        };
        let owner_ok = state.store.medias[idx].user_id == *u;
        if !owner_ok {
            return Err(ServiceError::PermissionDenied);
        }
        match MediaOffer::upsert(&mut state.store, mid, oid) {
            Ok(_) => {},
            Err(_) => {
                return Err(ServiceError::Internal);
            },
        }
        proof {
            assert forall|i: int| 0 <= i < state.store.medias@.len() implies row_ok(
                #[trigger] state.store.medias@[i],
                state.objects.objects@,
            ) by {
                assert(row_ok(old(state).store.medias@[i], old(state).objects.objects@));
            }
        }
        Ok(AddMediaToOfferResponse {  })
    }

    /// Unlink an owned media from an offer. Unlinking a pair that is not
    /// there is a no-op that succeeds.
    pub fn remove_media_from_offer(
        &self,
        state: &mut ServiceState,
        caller: Option<&String>,
        request: &RemoveMediaFromOfferRequest,
    ) -> (r: Result<RemoveMediaFromOfferResponse, ServiceError>)
        requires
            state_inv(*old(state)),
        ensures
            state_inv(*final(state)),
            final(state).store.medias@ == old(state).store.medias@,
            final(state).store.media_subscriptions@ == old(state).store.media_subscriptions@,
            final(state).objects.objects@ == old(state).objects.objects@,
            final(state).objects.sessions@ == old(state).objects.sessions@,
            caller is None ==> r == Result::<RemoveMediaFromOfferResponse, ServiceError>::Err(
                ServiceError::Unauthenticated,
            ) && unchanged(*old(state), *final(state)),
            caller matches Some(u) ==> ({
                let mid = parsed_v4(request.media_id@);
                let oid = parsed_v4(request.offer_id@);
                let rows = old(state).store.medias@;
                &&& mid is None ==> err_invalid(r, "media_id"@) && unchanged(
                    *old(state),
                    *final(state),
                )
                &&& mid is Some && oid is None ==> err_invalid(r, "offer_id"@) && unchanged(
                    *old(state),
                    *final(state),
                )
                &&& mid matches Some(m) ==> (oid matches Some(o) ==> ({
                    &&& !has_media(rows, m) ==> r == Result::<
                        RemoveMediaFromOfferResponse,
                        ServiceError,
                    >::Err(ServiceError::NotFound) && unchanged(*old(state), *final(state))
                    &&& has_media(rows, m) && media_at(rows, m).user_id@ != u@ ==> r == Result::<
                        RemoveMediaFromOfferResponse,
                        ServiceError,
                    >::Err(ServiceError::PermissionDenied) && unchanged(*old(state), *final(state))
                    &&& has_media(rows, m) && media_at(rows, m).user_id@ == u@ ==> (r matches Ok(_)
                        && ({
                        &&& final(state).store.media_offers@ == old(state).store.media_offers@.filter(crate::model::media_offer::not_pair(m, o))
                        &&& !has_pair(old(state).store.media_offers@, m, o) ==> final(state).store.media_offers@ == old(state).store.media_offers@
                        &&& !has_pair(final(state).store.media_offers@, m, o)
                    }))
                }))
            }),
    {
        let u = match caller {
            Some(u) => u,
            None => {
                return Err(ServiceError::Unauthenticated);
            },
        };
        let mid = match parse_uuid(request.media_id.as_str(), "media_id") {
            Ok(m) => m,
            Err(e) => {
                return Err(e);
            },
        };
        let oid = match parse_uuid(request.offer_id.as_str(), "offer_id") {
            Ok(o) => o,
            Err(e) => {
                return Err(e);
            },
        };
        let idx = match find_media_index(&state.store.medias, mid) {
            Some(i) => i,
            None => {
                return Err(ServiceError::NotFound);
            },
        };
        let owner_ok = state.store.medias[idx].user_id == *u;
        if !owner_ok {
            return Err(ServiceError::PermissionDenied);
        }
        match MediaOffer::delete(&mut state.store, mid, oid) {
            Ok(_) => {},
            Err(_) => {
                return Err(ServiceError::Internal);
            },
        }
        proof {
            assert forall|i: int| 0 <= i < state.store.medias@.len() implies row_ok(
                #[trigger] state.store.medias@[i],
                state.objects.objects@,
            ) by {
                assert(row_ok(old(state).store.medias@[i], old(state).objects.objects@));
            }
        }
        Ok(RemoveMediaFromOfferResponse {  })
    }

    /// Upsert a subscription row from the billing pipeline: a new key is
    /// inserted, an existing key has its whole row replaced. The caller must
    /// carry the service-to-service identity.
    pub fn put_media_subscription(
        &self,
        state: &mut ServiceState,
        caller: Option<&String>,
        request: &PutMediaSubscriptionRequest,
    ) -> (r: Result<PutMediaSubscriptionResponse, ServiceError>)
        requires
            state_inv(*old(state)),
        ensures
            state_inv(*final(state)),
            final(state).store.medias@ == old(state).store.medias@,
            final(state).store.media_offers@ == old(state).store.media_offers@,
            final(state).objects.objects@ == old(state).objects.objects@,
            final(state).objects.sessions@ == old(state).objects.sessions@,
            caller is None ==> r == Result::<PutMediaSubscriptionResponse, ServiceError>::Err(
                ServiceError::Unauthenticated,
            ) && unchanged(*old(state), *final(state)),
            caller is Some ==> ({
                let sid = parsed_v4(request.media_subscription_id@);
                let oid = parsed_v4(request.offer_id@);
                let subs = old(state).store.media_subscriptions@;
                &&& sid is None ==> err_invalid(r, "media_subscription_id"@) && unchanged(
                    *old(state),
                    *final(state),
                )
                &&& sid is Some && oid is None ==> err_invalid(r, "offer_id"@) && unchanged(
                    *old(state),
                    *final(state),
                )
                &&& sid is Some && oid is Some && request.buyer_user_id@.len() == 0
                    ==> err_invalid(r, "buyer_user_id"@) && unchanged(*old(state), *final(state))
                &&& sid matches Some(s) ==> (oid matches Some(o) ==> (
                    request.buyer_user_id@.len() > 0 ==> (r matches Ok(_) && ({
                    let sub = final(state).store.media_subscriptions@[(
                    if subscription_index(subs, s) >= 0 {
                        subscription_index(subs, s)
                    } else {
                        subs.len() as int
                    })];
                    &&& (subscription_index(subs, s) == -1 ==> final(state).store.media_subscriptions@ == subs.push(sub))
                    &&& (subscription_index(subs, s) >= 0 ==> final(state).store.media_subscriptions@ == subs.update(subscription_index(subs, s), sub))
                    &&& sub.media_subscription_id == s
                    &&& sub.buyer_user_id@ == request.buyer_user_id@
                    &&& sub.offer_id == o
                    &&& sub.current_period_start == request.current_period_start
                    &&& sub.current_period_end == request.current_period_end
                    &&& sub.subscription_status@ == request.subscription_status@
                    &&& sub.payed_at == request.payed_at
                    &&& sub.payed_until == request.payed_until
                }))))
            }),
    {
        if caller.is_none() {
            return Err(ServiceError::Unauthenticated);
        }
        let sid = match parse_uuid(request.media_subscription_id.as_str(), "media_subscription_id")
            {
            Ok(s) => s,
            Err(e) => {
                return Err(e);
            },
        };
        let oid = match parse_uuid(request.offer_id.as_str(), "offer_id") {
            Ok(o) => o,
            Err(e) => {
                return Err(e);
            },
        };
        if request.buyer_user_id.as_str().is_empty() {
            return Err(ServiceError::InvalidArgument("buyer_user_id".to_owned()));
        }
        let sub = MediaSubscription {
            media_subscription_id: sid,
            buyer_user_id: request.buyer_user_id.clone(),
            offer_id: oid,
            current_period_start: request.current_period_start,
            current_period_end: request.current_period_end,
            subscription_status: request.subscription_status.clone(),
            payed_at: request.payed_at,
            payed_until: request.payed_until,
        };
        proof {
            lemma_subscription_index(state.store.media_subscriptions@, sid);
        }
        match MediaSubscription::upsert(&mut state.store, sub) {
            Ok(_) => {},
            Err(_) => {
                return Err(ServiceError::Internal);
            },
        }
        proof {
            assert forall|i: int| 0 <= i < state.store.medias@.len() implies row_ok(
                #[trigger] state.store.medias@[i],
                state.objects.objects@,
            ) by {
                assert(row_ok(old(state).store.medias@[i], old(state).objects.objects@));
            }
        }
        Ok(PutMediaSubscriptionResponse {  })
    }
}

/// The echoed part list of a completion: parts 1 through n, in order.
pub open spec fn parts_sequential(parts: Seq<crate::api::Part>) -> bool {
    &&& 1 <= parts.len() <= 10000
    &&& forall|q: int| 0 <= q < parts.len() ==> (#[trigger] parts[q]).part_number == q + 1
}

/// A name update, where one is present, is non-empty.
pub open spec fn update_name_ok(req: UpdateMediaRequest) -> bool {
    req.name matches Some(nm) ==> nm@.len() > 0
}

/// An update request that passes validation.
pub open spec fn update_valid(max: u64, req: UpdateMediaRequest) -> bool {
    &&& update_name_ok(req)
    &&& (req.file matches Some(f) ==> spec_allowed_content_type(f.content_type@) && f.data@.len()
        <= max)
}

/// Whether a wire filter decodes: a known field, and for the offer filter a
/// version-4 UUID query.
pub open spec fn wire_filter_ok(freq: Option<MediaFilter>) -> bool {
    match freq {
        None => true,
        Some(fl) => match spec_filter_field_from_i32(fl.field) {
            None => false,
            Some(MediaFilterField::OfferId) => parsed_v4(fl.query@) is Some,
            Some(_) => true,
        },
    }
}

/// Whether a wire order decodes: known field and direction values.
pub open spec fn wire_order_ok(oreq: Option<MediaOrderBy>) -> bool {
    match oreq {
        None => true,
        Some(ob) => spec_order_by_field_from_i32(ob.field) is Some && spec_direction_from_i32(
            ob.direction,
        ) is Some,
    }
}

/// Whether a wire pagination is acceptable.
pub open spec fn wire_pagination_ok(preq: Option<Pagination>) -> bool {
    match preq {
        None => true,
        Some(p) => pagination_ok(p),
    }
}

/// The ordering column a wire order resolves to.
pub open spec fn wire_field(oreq: Option<MediaOrderBy>) -> MediaOrderByField {
    match oreq {
        Some(ob) => match spec_order_by_field_from_i32(ob.field) {
            Some(MediaOrderByField::UpdatedAt) => MediaOrderByField::UpdatedAt,
            _ => MediaOrderByField::CreatedAt,
        },
        None => MediaOrderByField::CreatedAt,
    }
}

/// The direction a wire order resolves to.
pub open spec fn wire_desc(oreq: Option<MediaOrderBy>) -> bool {
    !(oreq matches Some(ob) && spec_direction_from_i32(ob.direction) == Some(Direction::Asc))
}

/// The page size a wire pagination resolves to.
pub open spec fn limit_of(preq: Option<Pagination>) -> u64 {
    match preq {
        None => crate::DEFAULT_PAGE_SIZE,
        Some(p) => p.size,
    }
}

/// The offset a wire pagination resolves to.
pub open spec fn offset_of(preq: Option<Pagination>) -> int {
    match preq {
        None => 0,
        Some(p) => (p.page - 1) * p.size,
    }
}

/// The pagination a response echoes.
pub open spec fn echo_of(preq: Option<Pagination>) -> Pagination {
    match preq {
        None => Pagination { page: 1, size: crate::DEFAULT_PAGE_SIZE },
        Some(p) => p,
    }
}

/// Whether a row passes a wire filter.
pub open spec fn wire_filter_passes(
    offers: Seq<MediaOffer>,
    freq: Option<MediaFilter>,
    m: Media,
) -> bool {
    match freq {
        None => true,
        Some(fl) => match spec_filter_field_from_i32(fl.field) {
            Some(MediaFilterField::Name) => spec_contains_ci(m.name@, fl.query@),
            Some(MediaFilterField::OfferId) => match parsed_v4(fl.query@) {
                Some(o) => has_pair(offers, m.media_id, o),
                None => false,
            },
            Some(MediaFilterField::Unspecified) => true,
            None => false,
        },
    }
}

/// The predicate an owner listing derives from the wire request.
pub open spec fn wire_owner_pred(
    offers: Seq<MediaOffer>,
    booth: Uuid,
    user: Seq<char>,
    freq: Option<MediaFilter>,
) -> spec_fn(Media) -> bool {
    |m: Media|
        m.market_booth_id == booth && m.user_id@ == user && wire_filter_passes(offers, freq, m)
}

/// The predicate an accessibility listing derives from the wire request: the
/// read rule across all tenants, restricted by the filter.
pub open spec fn wire_accessible_pred(
    offers: Seq<MediaOffer>,
    policies: Seq<OfferAccess>,
    subs: Seq<MediaSubscription>,
    caller: Option<Seq<char>>,
    freq: Option<MediaFilter>,
    now: i64,
) -> spec_fn(Media) -> bool {
    |m: Media|
        can_read(m, offers, policies, subs, caller, now) && wire_filter_passes(offers, freq, m)
}

/// How a listing response body relates to its page of rows.
pub open spec fn listing_matches(
    medias: Seq<MediaResponse>,
    page: Seq<Media>,
    offers: Seq<MediaOffer>,
) -> bool {
    &&& medias.len() == page.len()
    &&& forall|p: int|
        0 <= p < page.len() ==> response_of_row(
            #[trigger] medias[p],
            page[p],
            offers_of(offers, page[p].media_id),
            None,
        )
}

/// A creation request that passes validation.
pub open spec fn create_valid(max: u64, req: CreateMediaRequest) -> bool {
    &&& parsed_v4(req.market_booth_id@) is Some
    &&& req.name@.len() > 0
    &&& (req.file matches Some(f) ==> spec_allowed_content_type(f.content_type@) && f.data@.len()
        <= max)
}

/// Build the response row for a stored row carrying its offer aggregate.
pub fn response_for_row(row: &Media, data: Option<Vec<u8>>) -> (mr: MediaResponse)
    ensures
        response_of_row(
            mr,
            *row,
            match row.offer_ids {
                Some(v) => v@,
                None => Seq::empty(),
            },
            match data {
                Some(d) => Some(d@),
                None => None,
            },
        ),
{
    let mut offer_strings: Vec<String> = Vec::new();
    match &row.offer_ids {
        Some(v) => {
            let n = v.len();
            let mut q: usize = 0;
            while q < n
                invariant
                    n == v@.len(),
                    q <= n,
                    offer_strings@.len() == q,
                    forall|z: int|
                        0 <= z < q ==> (#[trigger] offer_strings@[z])@ == hyphenated_of(
                            v@[z].hi,
                            v@[z].lo,
                        ),
                decreases n - q,
            {
                let s = v[q].hyphenated_string();
                offer_strings.push(s);
                q = q + 1;
            }
        },
        None => {},
    }
    MediaResponse {
        media_id: row.media_id.hyphenated_string(),
        offer_ids: offer_strings,
        market_booth_id: row.market_booth_id.hyphenated_string(),
        user_id: row.user_id.clone(),
        created_at: row.created_at,
        updated_at: row.updated_at,
        name: row.name.clone(),
        data,
    }
}

} // verus!
