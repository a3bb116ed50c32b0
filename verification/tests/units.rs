//! Unit tests for ids, text helpers, pagination and the emitted SQL.

use media::api::{Direction, MediaFilterField, MediaOrderByField, Pagination};
use media::errors::ServiceError;
use media::ids::Uuid;
use media::pagination::paginate;
use media::services::commerce::retry_backoff_ms;
use media::text::{contains_ci, slug, str_starts_with};

const B1: &str = "11111111-1111-4111-8111-111111111111";

#[test]
fn parse_and_render_round_trip() {
    let u = Uuid::parse_v4(B1).expect("canonical v4 parses");
    assert_eq!(u.hyphenated_string(), B1);
}

#[test]
fn parse_normalizes_case() {
    let upper = "11111111-1111-4111-8111-111111111111".to_uppercase();
    let u = Uuid::parse_v4(&upper).expect("uppercase form parses");
    assert_eq!(u.hyphenated_string(), B1);
}

#[test]
fn parse_rejects_garbage() {
    assert!(Uuid::parse_v4("not-a-uuid").is_none());
    assert!(Uuid::parse_v4("").is_none());
}

#[test]
fn parse_rejects_other_versions() {
    // version nibble 1: a valid UUID, but not version 4
    assert!(Uuid::parse_v4("11111111-1111-1111-8111-111111111111").is_none());
    assert!(Uuid::parse("11111111-1111-1111-8111-111111111111").is_some());
}

#[test]
fn minted_ids_are_version4() {
    for _ in 0..16 {
        let u = Uuid::new_v4();
        assert!(u.is_version4());
        let s = u.hyphenated_string();
        assert_eq!(s.len(), 36);
        assert_eq!(s.as_bytes()[14], b'4');
        let back = Uuid::parse_v4(&s).expect("rendered mint parses back");
        assert_eq!(back.hi, u.hi);
        assert_eq!(back.lo, u.lo);
    }
}

#[test]
fn minted_ids_cross_check_with_external_parser() {
    let u = Uuid::new_v4();
    let s = u.hyphenated_string();
    let ext = uuid::Uuid::try_parse(&s).expect("external parser accepts the rendering");
    assert_eq!(ext.as_u64_pair(), (u.hi, u.lo));
    assert_eq!(ext.get_version_num(), 4);
}

#[test]
fn slug_keeps_simple_names() {
    assert_eq!(slug("cat.jpg"), "cat.jpg");
    assert_eq!(slug("Vid-01_final.mp4"), "Vid-01_final.mp4");
}

#[test]
fn slug_replaces_separators() {
    assert_eq!(slug("a b/c"), "a_b_c");
    assert_eq!(slug("weird\u{e9}name"), "weird_name");
}

#[test]
fn contains_ci_finds_substrings() {
    assert!(contains_ci("Holiday.JPG", "jpg"));
    assert!(contains_ci("Holiday.JPG", "HOLIDAY"));
    assert!(contains_ci("anything", ""));
    assert!(!contains_ci("short", "longer than hay"));
    assert!(!contains_ci("Holiday.JPG", "png"));
}

#[test]
fn starts_with_prefixes() {
    assert!(str_starts_with("abc/def", "abc/"));
    assert!(str_starts_with("abc", ""));
    assert!(!str_starts_with("abc", "abcd"));
    assert!(!str_starts_with("abd", "abc"));
}

#[test]
fn paginate_defaults() {
    let (limit, offset, echo) = paginate(None).expect("no pagination means defaults");
    assert_eq!(limit, 10);
    assert_eq!(offset, 0);
    assert_eq!(echo, Pagination { page: 1, size: 10 });
}

#[test]
fn paginate_computes_offset() {
    let p = Pagination { page: 3, size: 10 };
    let (limit, offset, echo) = paginate(Some(p)).expect("valid pagination");
    assert_eq!(limit, 10);
    assert_eq!(offset, 20);
    assert_eq!(echo, p);
}

#[test]
fn paginate_rejects_zero_page() {
    let e = paginate(Some(Pagination { page: 0, size: 10 })).unwrap_err();
    assert!(matches!(e, ServiceError::InvalidArgument(f) if f == "pagination.page"));
}

#[test]
fn paginate_rejects_zero_size() {
    let e = paginate(Some(Pagination { page: 1, size: 0 })).unwrap_err();
    assert!(matches!(e, ServiceError::InvalidArgument(f) if f == "pagination.size"));
}

#[test]
fn paginate_rejects_huge_offset() {
    let e = paginate(Some(Pagination { page: u64::MAX, size: u64::MAX })).unwrap_err();
    assert!(matches!(e, ServiceError::InvalidArgument(f) if f == "pagination"));
}

#[test]
fn order_by_field_names_round_trip() {
    for f in [
        MediaOrderByField::Unspecified,
        MediaOrderByField::CreatedAt,
        MediaOrderByField::UpdatedAt,
    ] {
        assert_eq!(MediaOrderByField::from_str_name(f.as_str_name()), Some(f));
    }
    assert_eq!(
        MediaOrderByField::CreatedAt.as_str_name(),
        "MEDIA_ORDER_BY_FIELD_CREATED_AT"
    );
    assert_eq!(MediaOrderByField::from_str_name("nonsense"), None);
    assert_eq!(MediaOrderByField::from_i32(2), Some(MediaOrderByField::UpdatedAt));
    assert_eq!(MediaOrderByField::from_i32(9), None);
}

#[test]
fn filter_field_names_round_trip() {
    for f in [
        MediaFilterField::Unspecified,
        MediaFilterField::Name,
        MediaFilterField::OfferId,
    ] {
        assert_eq!(MediaFilterField::from_str_name(f.as_str_name()), Some(f));
    }
    assert_eq!(MediaFilterField::OfferId.as_str_name(), "MEDIA_FILTER_FIELD_OFFER_ID");
    assert_eq!(MediaFilterField::from_str_name("bad"), None);
    assert_eq!(MediaFilterField::from_i32(1), Some(MediaFilterField::Name));
    assert_eq!(Direction::from_i32(1), Some(Direction::Asc));
    assert_eq!(Direction::from_i32(3), None);
}

#[test]
fn commerce_retry_backs_off_then_gives_up() {
    assert_eq!(retry_backoff_ms(0), Some(50));
    assert_eq!(retry_backoff_ms(1), Some(200));
    assert_eq!(retry_backoff_ms(2), Some(800));
    assert_eq!(retry_backoff_ms(3), None);
    assert_eq!(retry_backoff_ms(100), None);
}

#[test]
fn error_codes_are_stable() {
    assert_eq!(ServiceError::NotFound.code(), "not-found");
    assert_eq!(ServiceError::PermissionDenied.code(), "permission-denied");
    assert_eq!(
        ServiceError::InvalidArgument("x".to_owned()).code(),
        "invalid-argument"
    );
}

#[test]
fn emitted_sql_is_exact() {
    assert_eq!(
        media::sql::get_media_sql(),
        "SELECT \"medias\".*, ARRAY_AGG(\"media_offers\".\"offer_id\") AS \"offer_ids\" \
         FROM \"medias\" LEFT JOIN \"media_offers\" ON \"medias\".\"media_id\" = \
         \"media_offers\".\"media_id\" WHERE \"medias\".\"media_id\" = $1 GROUP BY \
         \"medias\".\"media_id\""
    );
    assert_eq!(
        media::sql::delete_media_sql(),
        "DELETE FROM \"medias\" WHERE \"media_id\" = $1 AND \"user_id\" = $2"
    );
    let listing = media::sql::list_media_sql(
        Some(MediaFilterField::Name),
        MediaOrderByField::CreatedAt,
        true,
    );
    assert!(listing.ends_with(
        " AND \"medias\".\"name\" ILIKE $3 GROUP BY \"medias\".\"media_id\" ORDER BY \
         \"medias\".\"created_at\" DESC, \"medias\".\"media_id\" ASC LIMIT $4 OFFSET $5"
    ));
    assert_eq!(
        media::sql::insert_media_offer_sql(),
        "INSERT INTO \"media_offers\" (\"media_id\", \"offer_id\") VALUES ($1, $2) \
         ON CONFLICT DO NOTHING"
    );
}
