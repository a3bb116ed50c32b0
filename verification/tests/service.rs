//! Scenario tests driving the service operations end to end over the model
//! state, with outside-call outcomes injected.

use media::api::{
    AddMediaToOfferRequest, CompleteMultipartUploadRequest, CreateMediaRequest,
    DeleteMediaRequest, GetMediaRequest, InitiateMultipartUploadRequest,
    ListAccessibleMediaRequest, ListMediaRequest, MediaFilter, MediaUpload, Pagination, Part,
    PutMediaSubscriptionRequest, PutMultipartChunkRequest, RemoveMediaFromOfferRequest,
    UpdateMediaRequest,
};
use media::errors::ServiceError;
use media::ids::Uuid;
use media::services::authz::{AccessPolicy, OfferAccess};
use media::services::media::{CreateIo, MediaService, PutOutcome, ServiceState};

const B1: &str = "11111111-1111-4111-8111-111111111111";
const O1: &str = "22222222-2222-4222-8222-222222222222";

fn svc() -> MediaService {
    MediaService::build(64 * 1024 * 1024)
}

fn ok_io() -> CreateIo {
    CreateIo { put: PutOutcome::Success, commit_ok: true, cleanup_ok: true }
}

fn jpeg_bytes() -> Vec<u8> {
    let mut data = vec![0xFF, 0xD8, 0x01, 0x02, 0x03];
    data.push(0xFF);
    data.push(0xD9);
    data
}

fn create_req(name: &str, file: Option<MediaUpload>) -> CreateMediaRequest {
    CreateMediaRequest {
        market_booth_id: B1.to_owned(),
        name: name.to_owned(),
        file,
    }
}

fn inline_create(
    service: &MediaService,
    state: &mut ServiceState,
    user: &str,
    name: &str,
) -> String {
    let caller = user.to_owned();
    let req = create_req(
        name,
        Some(MediaUpload { content_type: "image/jpeg".to_owned(), data: jpeg_bytes() }),
    );
    let resp = service
        .create_media(state, Some(&caller), &req, Uuid::new_v4(), 1_000, ok_io())
        .expect("inline create succeeds");
    resp.media.expect("response carries the media").media_id
}

#[test]
fn inline_create_happy_path() {
    // A caller stores a small image; the response id reads back the row.
    let service = svc();
    let mut state = ServiceState::new();
    let u1 = "u1".to_owned();
    let media_id = inline_create(&service, &mut state, "u1", "cat.jpg");
    assert!(Uuid::parse_v4(&media_id).is_some());

    let got = service
        .get_media(
            &state,
            Some(&u1),
            &GetMediaRequest { media_id: media_id.clone() },
            &Vec::new(),
            2_000,
        )
        .expect("owner read succeeds");
    let mr = got.media.expect("row present");
    assert_eq!(mr.name, "cat.jpg");
    assert_eq!(mr.market_booth_id, B1);
    assert_eq!(mr.user_id, "u1");
    // the owner gets the bytes back, exactly as uploaded
    assert_eq!(mr.data.expect("owner sees bytes"), jpeg_bytes());
    // and the stored object itself holds them
    let row = media::model::media::Media::get(&state.store, Uuid::parse_v4(&media_id).unwrap())
        .expect("row exists");
    let obj = state.objects.get(&row.data_url).expect("object exists at the key");
    assert_eq!(obj.data, jpeg_bytes());
    assert_eq!(obj.content_type, "image/jpeg");
}

#[test]
fn non_owner_read_denied() {
    let service = svc();
    let mut state = ServiceState::new();
    let media_id = inline_create(&service, &mut state, "u1", "cat.jpg");
    let u2 = "u2".to_owned();
    let e = service
        .get_media(&state, Some(&u2), &GetMediaRequest { media_id }, &Vec::new(), 2_000)
        .unwrap_err();
    assert!(matches!(e, ServiceError::PermissionDenied));
}

#[test]
fn add_to_offer_then_list_accessible() {
    let service = svc();
    let mut state = ServiceState::new();
    let u1 = "u1".to_owned();
    let u2 = "u2".to_owned();
    let media_id = inline_create(&service, &mut state, "u1", "cat.jpg");
    service
        .add_media_to_offer(
            &mut state,
            Some(&u1),
            &AddMediaToOfferRequest { media_id: media_id.clone(), offer_id: O1.to_owned() },
        )
        .expect("owner links the offer");
    let policies = vec![OfferAccess {
        offer_id: Uuid::parse_v4(O1).unwrap(),
        owner_user_id: "u1".to_owned(),
        access_policy: AccessPolicy::Public,
        subscription_offer_id: None,
    }];
    let resp = service
        .list_accessible_media(
            &state,
            Some(&u2),
            &ListAccessibleMediaRequest {
                pagination: None,
                order_by: None,
                filter: Some(MediaFilter { field: 2, query: O1.to_owned() }),
            },
            &policies,
            2_000,
        )
        .expect("listing succeeds");
    assert_eq!(resp.medias.len(), 1);
    assert_eq!(resp.medias[0].media_id, media_id);
    // and the non-owner may now read it directly
    let got = service
        .get_media(&state, Some(&u2), &GetMediaRequest { media_id }, &policies, 2_000)
        .expect("grant allows the read");
    // bytes are inlined only for the owner
    assert!(got.media.unwrap().data.is_none());
}

#[test]
fn multipart_round_trip() {
    let service = svc();
    let mut state = ServiceState::new();
    let u1 = "u1".to_owned();
    let req = create_req("vid.mp4", None);
    let resp = service
        .create_media(&mut state, Some(&u1), &req, Uuid::new_v4(), 1_000, ok_io())
        .expect("pending create succeeds");
    let media_id = resp.media.unwrap().media_id;

    let up = "upload-1".to_owned();
    let init = service
        .initiate_multipart_upload(
            &mut state,
            Some(&u1),
            &InitiateMultipartUploadRequest {
                media_id: media_id.clone(),
                content_type: "video/mp4".to_owned(),
            },
            Some(&up),
            1_100,
        )
        .expect("initiate succeeds");
    assert_eq!(init.upload_id, "upload-1");

    let part_a = vec![0xAA_u8; 5 * 1024 * 1024];
    let part_b = vec![0xBB_u8; 1024 * 1024];
    let et1 = "etag-1".to_owned();
    let et2 = "etag-2".to_owned();
    let p1 = service
        .put_multipart_chunk(
            &mut state,
            Some(&u1),
            &PutMultipartChunkRequest {
                media_id: media_id.clone(),
                upload_id: up.clone(),
                part_number: 1,
                chunk: part_a.clone(),
            },
            Some(&et1),
        )
        .expect("part one stored");
    assert_eq!(p1.part.unwrap().etag, "etag-1");
    service
        .put_multipart_chunk(
            &mut state,
            Some(&u1),
            &PutMultipartChunkRequest {
                media_id: media_id.clone(),
                upload_id: up.clone(),
                part_number: 2,
                chunk: part_b.clone(),
            },
            Some(&et2),
        )
        .expect("part two stored");

    service
        .complete_multipart_upload(
            &mut state,
            Some(&u1),
            &CompleteMultipartUploadRequest {
                media_id: media_id.clone(),
                upload_id: up.clone(),
                parts: vec![
                    Part { part_number: 1, etag: "etag-1".to_owned() },
                    Part { part_number: 2, etag: "etag-2".to_owned() },
                ],
            },
            1_200,
            true,
        )
        .expect("complete succeeds");

    let row = media::model::media::Media::get(&state.store, Uuid::parse_v4(&media_id).unwrap())
        .expect("row exists");
    assert_eq!(row.data_url, init.key);
    let obj = state.objects.get(&row.data_url).expect("object assembled");
    let mut expected = part_a.clone();
    expected.extend_from_slice(&part_b);
    assert_eq!(obj.data, expected);
    assert_eq!(obj.content_type, "video/mp4");
}

#[test]
fn delete_cleans_prefix() {
    let service = svc();
    let mut state = ServiceState::new();
    let u1 = "u1".to_owned();
    let media_id = inline_create(&service, &mut state, "u1", "vid.mp4");
    let row = media::model::media::Media::get(&state.store, Uuid::parse_v4(&media_id).unwrap())
        .expect("row exists");
    let booth = Uuid::parse_v4(B1).unwrap();
    let mid = Uuid::parse_v4(&media_id).unwrap();
    let prefix = format!("{}/{}/", booth.hyphenated_string(), mid.hyphenated_string());
    assert_eq!(state.objects.list_prefix(&prefix).len(), 1);
    assert!(row.data_url.starts_with(&prefix));

    service
        .delete_media(&mut state, Some(&u1), &DeleteMediaRequest { media_id: media_id.clone() }, true)
        .expect("delete succeeds");
    assert!(state.objects.list_prefix(&prefix).is_empty());
    let e = service
        .get_media(&state, Some(&u1), &GetMediaRequest { media_id }, &Vec::new(), 2_000)
        .unwrap_err();
    assert!(matches!(e, ServiceError::NotFound));
}

#[test]
fn pagination_covers_everything_once() {
    let service = svc();
    let mut state = ServiceState::new();
    let u1 = "u1".to_owned();
    for i in 0..25 {
        let caller = u1.clone();
        let req = create_req(
            &format!("m{:02}.jpg", i),
            Some(MediaUpload { content_type: "image/jpeg".to_owned(), data: vec![i as u8] }),
        );
        service
            .create_media(&mut state, Some(&caller), &req, Uuid::new_v4(), 1_000 + i as i64, ok_io())
            .expect("create succeeds");
    }
    let mut seen = std::collections::HashSet::new();
    let mut sizes = Vec::new();
    for page in 1..=3_u64 {
        let resp = service
            .list_media(
                &state,
                Some(&u1),
                &ListMediaRequest {
                    market_booth_id: B1.to_owned(),
                    pagination: Some(Pagination { page, size: 10 }),
                    order_by: None,
                    filter: None,
                },
            )
            .expect("listing succeeds");
        sizes.push(resp.medias.len());
        for m in &resp.medias {
            assert!(seen.insert(m.media_id.clone()), "no id repeats across pages");
        }
    }
    assert_eq!(sizes, vec![10, 10, 5]);
    assert_eq!(seen.len(), 25);
}

#[test]
fn default_order_is_created_at_desc() {
    let service = svc();
    let mut state = ServiceState::new();
    let u1 = "u1".to_owned();
    for i in 0..3 {
        let req = create_req(
            &format!("n{}.jpg", i),
            Some(MediaUpload { content_type: "image/jpeg".to_owned(), data: vec![1] }),
        );
        service
            .create_media(&mut state, Some(&u1), &req, Uuid::new_v4(), 1_000 + i, ok_io())
            .expect("create succeeds");
    }
    let resp = service
        .list_media(
            &state,
            Some(&u1),
            &ListMediaRequest {
                market_booth_id: B1.to_owned(),
                pagination: None,
                order_by: None,
                filter: None,
            },
        )
        .expect("listing succeeds");
    let stamps: Vec<i64> = resp.medias.iter().map(|m| m.created_at).collect();
    assert_eq!(stamps, vec![1_002, 1_001, 1_000]);
}

#[test]
fn name_filter_is_case_insensitive() {
    let service = svc();
    let mut state = ServiceState::new();
    let u1 = "u1".to_owned();
    inline_create(&service, &mut state, "u1", "Holiday.JPG");
    inline_create(&service, &mut state, "u1", "notes.pdf");
    let resp = service
        .list_media(
            &state,
            Some(&u1),
            &ListMediaRequest {
                market_booth_id: B1.to_owned(),
                pagination: None,
                order_by: None,
                filter: Some(MediaFilter { field: 1, query: "holiday".to_owned() }),
            },
        )
        .expect("listing succeeds");
    assert_eq!(resp.medias.len(), 1);
    assert_eq!(resp.medias[0].name, "Holiday.JPG");
}

#[test]
fn add_media_to_offer_is_idempotent() {
    let service = svc();
    let mut state = ServiceState::new();
    let u1 = "u1".to_owned();
    let media_id = inline_create(&service, &mut state, "u1", "cat.jpg");
    let req = AddMediaToOfferRequest { media_id, offer_id: O1.to_owned() };
    service.add_media_to_offer(&mut state, Some(&u1), &req).expect("first link");
    service.add_media_to_offer(&mut state, Some(&u1), &req).expect("second link is a no-op");
    assert_eq!(state.store.media_offers.len(), 1);
}

#[test]
fn remove_missing_pair_is_a_noop_success() {
    let service = svc();
    let mut state = ServiceState::new();
    let u1 = "u1".to_owned();
    let media_id = inline_create(&service, &mut state, "u1", "cat.jpg");
    service
        .remove_media_from_offer(
            &mut state,
            Some(&u1),
            &RemoveMediaFromOfferRequest { media_id, offer_id: O1.to_owned() },
        )
        .expect("removing a missing pair succeeds");
    assert_eq!(state.store.media_offers.len(), 0);
}

#[test]
fn failed_put_leaves_no_trace() {
    let service = svc();
    let mut state = ServiceState::new();
    let u1 = "u1".to_owned();
    let minted = Uuid::new_v4();
    let req = create_req(
        "cat.jpg",
        Some(MediaUpload { content_type: "image/jpeg".to_owned(), data: jpeg_bytes() }),
    );
    let io = CreateIo { put: PutOutcome::TransportError, commit_ok: true, cleanup_ok: true };
    let e = service
        .create_media(&mut state, Some(&u1), &req, minted, 1_000, io)
        .unwrap_err();
    assert!(matches!(e, ServiceError::Unavailable));
    assert!(state.store.medias.is_empty());
    assert!(state.objects.objects.is_empty());
    let e2 = service
        .get_media(
            &state,
            Some(&u1),
            &GetMediaRequest { media_id: minted.hyphenated_string() },
            &Vec::new(),
            2_000,
        )
        .unwrap_err();
    assert!(matches!(e2, ServiceError::NotFound));
}

#[test]
fn failed_commit_reaps_bytes() {
    let service = svc();
    let mut state = ServiceState::new();
    let u1 = "u1".to_owned();
    let req = create_req(
        "cat.jpg",
        Some(MediaUpload { content_type: "image/jpeg".to_owned(), data: jpeg_bytes() }),
    );
    let io = CreateIo { put: PutOutcome::Success, commit_ok: false, cleanup_ok: true };
    let e = service
        .create_media(&mut state, Some(&u1), &req, Uuid::new_v4(), 1_000, io)
        .unwrap_err();
    assert!(matches!(e, ServiceError::Unavailable));
    assert!(state.store.medias.is_empty());
    assert!(state.objects.objects.is_empty());
}

#[test]
fn failed_cleanup_tolerates_residual_bytes() {
    let service = svc();
    let mut state = ServiceState::new();
    let u1 = "u1".to_owned();
    let req = create_req(
        "cat.jpg",
        Some(MediaUpload { content_type: "image/jpeg".to_owned(), data: jpeg_bytes() }),
    );
    let io = CreateIo { put: PutOutcome::Success, commit_ok: false, cleanup_ok: false };
    let e = service
        .create_media(&mut state, Some(&u1), &req, Uuid::new_v4(), 1_000, io)
        .unwrap_err();
    assert!(matches!(e, ServiceError::Unavailable));
    assert!(state.store.medias.is_empty());
    // the bytes linger unreferenced until a sweep reaps them
    assert_eq!(state.objects.objects.len(), 1);
}

#[test]
fn subscription_gates_paid_media() {
    let service = svc();
    let mut state = ServiceState::new();
    let u1 = "u1".to_owned();
    let u2 = "u2".to_owned();
    let svc_caller = "billing".to_owned();
    let media_id = inline_create(&service, &mut state, "u1", "paid.jpg");
    service
        .add_media_to_offer(
            &mut state,
            Some(&u1),
            &AddMediaToOfferRequest { media_id: media_id.clone(), offer_id: O1.to_owned() },
        )
        .expect("link");
    let policies = vec![OfferAccess {
        offer_id: Uuid::parse_v4(O1).unwrap(),
        owner_user_id: "u1".to_owned(),
        access_policy: AccessPolicy::Subscription,
        subscription_offer_id: None,
    }];
    // no subscription row yet: denied
    let e = service
        .get_media(
            &state,
            Some(&u2),
            &GetMediaRequest { media_id: media_id.clone() },
            &policies,
            2_000,
        )
        .unwrap_err();
    assert!(matches!(e, ServiceError::PermissionDenied));
    // the billing pipeline projects a paid-up subscription for u2
    service
        .put_media_subscription(
            &mut state,
            Some(&svc_caller),
            &PutMediaSubscriptionRequest {
                media_subscription_id: "33333333-3333-4333-8333-333333333333".to_owned(),
                buyer_user_id: "u2".to_owned(),
                offer_id: O1.to_owned(),
                current_period_start: 1_000,
                current_period_end: 10_000,
                subscription_status: "active".to_owned(),
                payed_at: 1_000,
                payed_until: 10_000,
            },
        )
        .expect("projection upsert");
    service
        .get_media(
            &state,
            Some(&u2),
            &GetMediaRequest { media_id: media_id.clone() },
            &policies,
            2_000,
        )
        .expect("paid-up subscriber reads");
    // but not after it expires
    let e = service
        .get_media(&state, Some(&u2), &GetMediaRequest { media_id }, &policies, 20_000)
        .unwrap_err();
    assert!(matches!(e, ServiceError::PermissionDenied));
}

#[test]
fn update_renames_and_rewrites_bytes() {
    let service = svc();
    let mut state = ServiceState::new();
    let u1 = "u1".to_owned();
    let media_id = inline_create(&service, &mut state, "u1", "cat.jpg");
    let new_bytes = vec![9_u8, 8, 7];
    let resp = service
        .update_media(
            &mut state,
            Some(&u1),
            &UpdateMediaRequest {
                media_id: media_id.clone(),
                name: Some("kitten.jpg".to_owned()),
                file: Some(MediaUpload {
                    content_type: "image/png".to_owned(),
                    data: new_bytes.clone(),
                }),
            },
            5_000,
            PutOutcome::Success,
        )
        .expect("update succeeds");
    let mr = resp.media.unwrap();
    assert_eq!(mr.name, "kitten.jpg");
    assert_eq!(mr.updated_at, 5_000);
    let row = media::model::media::Media::get(&state.store, Uuid::parse_v4(&media_id).unwrap())
        .expect("row exists");
    let obj = state.objects.get(&row.data_url).expect("object still at the same key");
    assert_eq!(obj.data, new_bytes);
    assert_eq!(obj.content_type, "image/png");
}

#[test]
fn update_with_failed_put_leaves_row_untouched() {
    let service = svc();
    let mut state = ServiceState::new();
    let u1 = "u1".to_owned();
    let media_id = inline_create(&service, &mut state, "u1", "cat.jpg");
    let e = service
        .update_media(
            &mut state,
            Some(&u1),
            &UpdateMediaRequest {
                media_id: media_id.clone(),
                name: Some("kitten.jpg".to_owned()),
                file: Some(MediaUpload {
                    content_type: "image/png".to_owned(),
                    data: vec![1],
                }),
            },
            5_000,
            PutOutcome::TransportError,
        )
        .unwrap_err();
    assert!(matches!(e, ServiceError::Unavailable));
    let row = media::model::media::Media::get(&state.store, Uuid::parse_v4(&media_id).unwrap())
        .expect("row exists");
    assert_eq!(row.name, "cat.jpg");
    let obj = state.objects.get(&row.data_url).expect("object untouched");
    assert_eq!(obj.data, jpeg_bytes());
}

#[test]
fn error_paths_name_their_causes() {
    let service = svc();
    let mut state = ServiceState::new();
    let u1 = "u1".to_owned();

    // unauthenticated
    let req = create_req("cat.jpg", None);
    let e = service
        .create_media(&mut state, None, &req, Uuid::new_v4(), 1_000, ok_io())
        .unwrap_err();
    assert!(matches!(e, ServiceError::Unauthenticated));

    // malformed booth id
    let bad = CreateMediaRequest {
        market_booth_id: "nope".to_owned(),
        name: "cat.jpg".to_owned(),
        file: None,
    };
    let e = service
        .create_media(&mut state, Some(&u1), &bad, Uuid::new_v4(), 1_000, ok_io())
        .unwrap_err();
    assert!(matches!(e, ServiceError::InvalidArgument(f) if f == "market_booth_id"));

    // empty name
    let e = service
        .create_media(&mut state, Some(&u1), &create_req("", None), Uuid::new_v4(), 1_000, ok_io())
        .unwrap_err();
    assert!(matches!(e, ServiceError::InvalidArgument(f) if f == "name"));

    // disallowed content type
    let e = service
        .create_media(
            &mut state,
            Some(&u1),
            &create_req(
                "x.bin",
                Some(MediaUpload { content_type: "text/plain".to_owned(), data: vec![1] }),
            ),
            Uuid::new_v4(),
            1_000,
            ok_io(),
        )
        .unwrap_err();
    assert!(matches!(e, ServiceError::InvalidArgument(f) if f == "file.content_type"));

    // oversize payload
    let tiny = MediaService::build(2);
    let e = tiny
        .create_media(
            &mut state,
            Some(&u1),
            &create_req(
                "x.jpg",
                Some(MediaUpload { content_type: "image/jpeg".to_owned(), data: vec![1, 2, 3] }),
            ),
            Uuid::new_v4(),
            1_000,
            ok_io(),
        )
        .unwrap_err();
    assert!(matches!(e, ServiceError::InvalidArgument(f) if f == "file.data"));

    // duplicate caller-supplied id
    let minted = Uuid::new_v4();
    service
        .create_media(&mut state, Some(&u1), &create_req("a.jpg", None), minted, 1_000, ok_io())
        .expect("first create");
    let e = service
        .create_media(&mut state, Some(&u1), &create_req("b.jpg", None), minted, 1_000, ok_io())
        .unwrap_err();
    assert!(matches!(e, ServiceError::AlreadyExists));

    // deleting with a failing object store keeps the row
    let media_id = minted.hyphenated_string();
    let e = service
        .delete_media(&mut state, Some(&u1), &DeleteMediaRequest { media_id: media_id.clone() }, false)
        .unwrap_err();
    assert!(matches!(e, ServiceError::Internal));
    assert_eq!(state.store.medias.len(), 1);

    // completing an unknown upload fails the precondition
    let e = service
        .complete_multipart_upload(
            &mut state,
            Some(&u1),
            &CompleteMultipartUploadRequest {
                media_id,
                upload_id: "ghost".to_owned(),
                parts: vec![Part { part_number: 1, etag: "e".to_owned() }],
            },
            2_000,
            true,
        )
        .unwrap_err();
    assert!(matches!(e, ServiceError::FailedPrecondition));
}

#[test]
fn delete_after_multipart_cleans_the_whole_prefix() {
    let service = svc();
    let mut state = ServiceState::new();
    let u1 = "u1".to_owned();
    let resp = service
        .create_media(&mut state, Some(&u1), &create_req("clip.mp4", None), Uuid::new_v4(), 1_000, ok_io())
        .expect("pending create");
    let media_id = resp.media.unwrap().media_id;
    let up = "up-3".to_owned();
    let init = service
        .initiate_multipart_upload(
            &mut state,
            Some(&u1),
            &InitiateMultipartUploadRequest {
                media_id: media_id.clone(),
                content_type: "video/mp4".to_owned(),
            },
            Some(&up),
            1_100,
        )
        .expect("initiate");
    let et = "e1".to_owned();
    service
        .put_multipart_chunk(
            &mut state,
            Some(&u1),
            &PutMultipartChunkRequest {
                media_id: media_id.clone(),
                upload_id: up.clone(),
                part_number: 1,
                chunk: vec![7; 16],
            },
            Some(&et),
        )
        .expect("chunk");
    service
        .complete_multipart_upload(
            &mut state,
            Some(&u1),
            &CompleteMultipartUploadRequest {
                media_id: media_id.clone(),
                upload_id: up,
                parts: vec![Part { part_number: 1, etag: "e1".to_owned() }],
            },
            1_200,
            true,
        )
        .expect("complete");
    let prefix = {
        let mid = Uuid::parse_v4(&media_id).unwrap();
        let booth = Uuid::parse_v4(B1).unwrap();
        format!("{}/{}/", booth.hyphenated_string(), mid.hyphenated_string())
    };
    assert!(init.key.starts_with(&prefix));
    assert_eq!(state.objects.list_prefix(&prefix).len(), 1);
    service
        .delete_media(&mut state, Some(&u1), &DeleteMediaRequest { media_id }, true)
        .expect("delete");
    assert!(state.objects.list_prefix(&prefix).is_empty());
    assert!(state.objects.sessions.is_empty());
}

#[test]
fn anonymous_caller_sees_public_media_only() {
    let service = svc();
    let mut state = ServiceState::new();
    let u1 = "u1".to_owned();
    let public_id = inline_create(&service, &mut state, "u1", "public.jpg");
    inline_create(&service, &mut state, "u1", "private.jpg");
    service
        .add_media_to_offer(
            &mut state,
            Some(&u1),
            &AddMediaToOfferRequest { media_id: public_id.clone(), offer_id: O1.to_owned() },
        )
        .expect("link");
    let policies = vec![OfferAccess {
        offer_id: Uuid::parse_v4(O1).unwrap(),
        owner_user_id: "u1".to_owned(),
        access_policy: AccessPolicy::Public,
        subscription_offer_id: None,
    }];
    let resp = service
        .list_accessible_media(
            &state,
            None,
            &ListAccessibleMediaRequest { pagination: None, order_by: None, filter: None },
            &policies,
            2_000,
        )
        .expect("anonymous listing succeeds");
    assert_eq!(resp.medias.len(), 1);
    assert_eq!(resp.medias[0].media_id, public_id);
}

#[test]
fn owner_listing_is_scoped_to_the_owner() {
    let service = svc();
    let mut state = ServiceState::new();
    inline_create(&service, &mut state, "u1", "mine.jpg");
    let u2 = "u2".to_owned();
    let resp = service
        .list_media(
            &state,
            Some(&u2),
            &ListMediaRequest {
                market_booth_id: B1.to_owned(),
                pagination: None,
                order_by: None,
                filter: None,
            },
        )
        .expect("listing succeeds");
    assert!(resp.medias.is_empty());
}

#[test]
fn complete_rejects_out_of_order_parts() {
    let service = svc();
    let mut state = ServiceState::new();
    let u1 = "u1".to_owned();
    let resp = service
        .create_media(&mut state, Some(&u1), &create_req("v.mp4", None), Uuid::new_v4(), 1_000, ok_io())
        .expect("pending create");
    let media_id = resp.media.unwrap().media_id;
    let up = "up-2".to_owned();
    service
        .initiate_multipart_upload(
            &mut state,
            Some(&u1),
            &InitiateMultipartUploadRequest {
                media_id: media_id.clone(),
                content_type: "video/mp4".to_owned(),
            },
            Some(&up),
            1_100,
        )
        .expect("initiate");
    let e = service
        .complete_multipart_upload(
            &mut state,
            Some(&u1),
            &CompleteMultipartUploadRequest {
                media_id,
                upload_id: up,
                parts: vec![
                    Part { part_number: 2, etag: "b".to_owned() },
                    Part { part_number: 1, etag: "a".to_owned() },
                ],
            },
            1_200,
            true,
        )
        .unwrap_err();
    assert!(matches!(e, ServiceError::InvalidArgument(f) if f == "parts"));
}

#[test]
fn multipart_chunk_rejects_out_of_range_part_numbers() {
    let service = svc();
    let mut state = ServiceState::new();
    let u1 = "u1".to_owned();
    let resp = service
        .create_media(&mut state, Some(&u1), &create_req("v.mp4", None), Uuid::new_v4(), 1_000, ok_io())
        .expect("pending create");
    let media_id = resp.media.unwrap().media_id;
    let et = "e".to_owned();
    for bad in [0_u32, 10_001] {
        let e = service
            .put_multipart_chunk(
                &mut state,
                Some(&u1),
                &PutMultipartChunkRequest {
                    media_id: media_id.clone(),
                    upload_id: "any".to_owned(),
                    part_number: bad,
                    chunk: vec![1],
                },
                Some(&et),
            )
            .unwrap_err();
        assert!(matches!(e, ServiceError::InvalidArgument(f) if f == "part_number"));
    }
}
