//! The request and response shapes of the two RPC services, as plain data,
//! together with the ordering, filtering and pagination enums and their
//! stable wire names.

use vstd::prelude::*;

verus! {

#[derive(Clone, Debug, PartialEq)]
pub struct MediaResponse {
    pub media_id: String,
    pub offer_ids: Vec<String>,
    pub market_booth_id: String,
    pub user_id: String,
    pub created_at: i64,
    pub updated_at: i64,
    pub name: String,
    pub data: Option<Vec<u8>>,
}

#[derive(Clone, Debug, PartialEq)]
pub struct MediaUpload {
    pub content_type: String,
    pub data: Vec<u8>,
}

#[derive(Clone, Debug, PartialEq)]
pub struct CreateMediaRequest {
    pub market_booth_id: String,
    pub name: String,
    pub file: Option<MediaUpload>,
}

#[derive(Clone, Debug, PartialEq)]
pub struct CreateMediaResponse {
    pub media: Option<MediaResponse>,
}

#[derive(Clone, Debug, PartialEq)]
pub struct GetMediaRequest {
    pub media_id: String,
}

#[derive(Clone, Debug, PartialEq)]
pub struct GetMediaResponse {
    pub media: Option<MediaResponse>,
}

#[derive(Clone, Copy, Debug, PartialEq, Eq, Structural)]
pub struct MediaOrderBy {
    pub field: i32,
    pub direction: i32,
}

#[derive(Clone, Debug, PartialEq)]
pub struct MediaFilter {
    pub field: i32,
    pub query: String,
}

#[derive(Clone, Copy, Debug, PartialEq, Eq, Structural)]
pub struct Pagination {
    pub page: u64,
    pub size: u64,
}

#[derive(Clone, Debug, PartialEq)]
pub struct ListMediaRequest {
    pub market_booth_id: String,
    pub pagination: Option<Pagination>,
    pub order_by: Option<MediaOrderBy>,
    pub filter: Option<MediaFilter>,
}

#[derive(Clone, Debug, PartialEq)]
pub struct ListMediaResponse {
    pub medias: Vec<MediaResponse>,
    pub pagination: Option<Pagination>,
}

#[derive(Clone, Debug, PartialEq)]
pub struct ListAccessibleMediaRequest {
    pub pagination: Option<Pagination>,
    pub order_by: Option<MediaOrderBy>,
    pub filter: Option<MediaFilter>,
}

#[derive(Clone, Debug, PartialEq)]
pub struct ListAccessibleMediaResponse {
    pub medias: Vec<MediaResponse>,
    pub pagination: Option<Pagination>,
}

#[derive(Clone, Debug, PartialEq)]
pub struct UpdateMediaRequest {
    pub media_id: String,
    pub name: Option<String>,
    pub file: Option<MediaUpload>,
}

#[derive(Clone, Debug, PartialEq)]
pub struct UpdateMediaResponse {
    pub media: Option<MediaResponse>,
}

#[derive(Clone, Debug, PartialEq)]
pub struct DeleteMediaRequest {
    pub media_id: String,
}

#[derive(Clone, Debug, PartialEq)]
pub struct DeleteMediaResponse {
}

#[derive(Clone, Debug, PartialEq)]
pub struct InitiateMultipartUploadRequest {
    pub media_id: String,
    pub content_type: String,
}

#[derive(Clone, Debug, PartialEq)]
pub struct InitiateMultipartUploadResponse {
    pub key: String,
    pub upload_id: String,
}

#[derive(Clone, Debug, PartialEq)]
pub struct PutMultipartChunkRequest {
    pub media_id: String,
    pub upload_id: String,
    pub part_number: u32,
    pub chunk: Vec<u8>,
}

#[derive(Clone, Debug, PartialEq)]
pub struct Part {
    pub part_number: u32,
    pub etag: String,
}

#[derive(Clone, Debug, PartialEq)]
pub struct PutMultipartChunkResponse {
    pub part: Option<Part>,
}

#[derive(Clone, Debug, PartialEq)]
pub struct CompleteMultipartUploadRequest {
    pub media_id: String,
    pub upload_id: String,
    pub parts: Vec<Part>,
}

#[derive(Clone, Debug, PartialEq)]
pub struct CompleteMultipartUploadResponse {
}

#[derive(Clone, Debug, PartialEq)]
pub struct AddMediaToOfferRequest {
    pub media_id: String,
    pub offer_id: String,
}

#[derive(Clone, Debug, PartialEq)]
pub struct AddMediaToOfferResponse {
}

#[derive(Clone, Debug, PartialEq)]
pub struct RemoveMediaFromOfferRequest {
    pub media_id: String,
    pub offer_id: String,
}

#[derive(Clone, Debug, PartialEq)]
pub struct RemoveMediaFromOfferResponse {
}

#[derive(Clone, Debug, PartialEq)]
pub struct PutMediaSubscriptionRequest {
    pub media_subscription_id: String,
    pub buyer_user_id: String,
    pub offer_id: String,
    pub current_period_start: u64,
    pub current_period_end: u64,
    pub subscription_status: String,
    pub payed_at: u64,
    pub payed_until: u64,
}

#[derive(Clone, Debug, PartialEq)]
pub struct PutMediaSubscriptionResponse {
}

/// The field a media listing is ordered by.
#[derive(Clone, Copy, Debug, PartialEq, Eq, Structural)]
pub enum MediaOrderByField {
    Unspecified,
    CreatedAt,
    UpdatedAt,
}

/// The field a media listing is filtered on.
#[derive(Clone, Copy, Debug, PartialEq, Eq, Structural)]
pub enum MediaFilterField {
    Unspecified,
    Name,
    OfferId,
}

/// An ordering direction.
#[derive(Clone, Copy, Debug, PartialEq, Eq, Structural)]
pub enum Direction {
    Unspecified,
    Asc,
    Desc,
}

/// Compare two string slices by their character sequences.
pub fn str_eq(a: &str, b: &str) -> (r: bool)
    ensures
        r == (a@ == b@),
{
    let sa = a.to_owned();
    let sb = b.to_owned();
    sa == sb
}

pub open spec fn spec_order_by_field_name(f: MediaOrderByField) -> Seq<char> {
    match f {
        MediaOrderByField::Unspecified => "MEDIA_ORDER_BY_FIELD_UNSPECIFIED"@,
        MediaOrderByField::CreatedAt => "MEDIA_ORDER_BY_FIELD_CREATED_AT"@,
        MediaOrderByField::UpdatedAt => "MEDIA_ORDER_BY_FIELD_UPDATED_AT"@,
    }
}

pub open spec fn spec_order_by_field_from_name(s: Seq<char>) -> Option<MediaOrderByField> {
    if s == "MEDIA_ORDER_BY_FIELD_UNSPECIFIED"@ {
        Some(MediaOrderByField::Unspecified)
    } else if s == "MEDIA_ORDER_BY_FIELD_CREATED_AT"@ {
        Some(MediaOrderByField::CreatedAt)
    } else if s == "MEDIA_ORDER_BY_FIELD_UPDATED_AT"@ {
        Some(MediaOrderByField::UpdatedAt)
    } else {
        None
    }
}

impl MediaOrderByField {
    /// The stable wire name of this value.
    pub fn as_str_name(&self) -> (r: &'static str)
        ensures
            r@ == spec_order_by_field_name(*self),
    {
        match self {
            MediaOrderByField::Unspecified => "MEDIA_ORDER_BY_FIELD_UNSPECIFIED",
            MediaOrderByField::CreatedAt => "MEDIA_ORDER_BY_FIELD_CREATED_AT",
            MediaOrderByField::UpdatedAt => "MEDIA_ORDER_BY_FIELD_UPDATED_AT",
        }
    }

    /// The value a stable wire name denotes.
    pub fn from_str_name(value: &str) -> (r: Option<MediaOrderByField>)
        ensures
            r == spec_order_by_field_from_name(value@),
    {
        if str_eq(value, "MEDIA_ORDER_BY_FIELD_UNSPECIFIED") {
            Some(MediaOrderByField::Unspecified)
        } else if str_eq(value, "MEDIA_ORDER_BY_FIELD_CREATED_AT") {
            Some(MediaOrderByField::CreatedAt)
        } else if str_eq(value, "MEDIA_ORDER_BY_FIELD_UPDATED_AT") {
            Some(MediaOrderByField::UpdatedAt)
        } else {
            None
        }
    }

    /// The value a wire integer denotes.
    pub fn from_i32(value: i32) -> (r: Option<MediaOrderByField>)
        ensures
            r == spec_order_by_field_from_i32(value),
    {
        if value == 0 {
            Some(MediaOrderByField::Unspecified)
        } else if value == 1 {
            Some(MediaOrderByField::CreatedAt)
        } else if value == 2 {
            Some(MediaOrderByField::UpdatedAt)
        } else {
            None
        }
    }
}

pub open spec fn spec_order_by_field_from_i32(v: i32) -> Option<MediaOrderByField> {
    if v == 0 {
        Some(MediaOrderByField::Unspecified)
    } else if v == 1 {
        Some(MediaOrderByField::CreatedAt)
    } else if v == 2 {
        Some(MediaOrderByField::UpdatedAt)
    } else {
        None
    }
}

pub open spec fn spec_filter_field_name(f: MediaFilterField) -> Seq<char> {
    match f {
        MediaFilterField::Unspecified => "MEDIA_FILTER_FIELD_UNSPECIFIED"@,
        MediaFilterField::Name => "MEDIA_FILTER_FIELD_NAME"@,
        MediaFilterField::OfferId => "MEDIA_FILTER_FIELD_OFFER_ID"@,
    }
}

pub open spec fn spec_filter_field_from_name(s: Seq<char>) -> Option<MediaFilterField> {
    if s == "MEDIA_FILTER_FIELD_UNSPECIFIED"@ {
        Some(MediaFilterField::Unspecified)
    } else if s == "MEDIA_FILTER_FIELD_NAME"@ {
        Some(MediaFilterField::Name)
    } else if s == "MEDIA_FILTER_FIELD_OFFER_ID"@ {
        Some(MediaFilterField::OfferId)
    } else {
        None
    }
}

impl MediaFilterField {
    /// The stable wire name of this value.
    pub fn as_str_name(&self) -> (r: &'static str)
        ensures
            r@ == spec_filter_field_name(*self),
    {
        match self {
            MediaFilterField::Unspecified => "MEDIA_FILTER_FIELD_UNSPECIFIED",
            MediaFilterField::Name => "MEDIA_FILTER_FIELD_NAME",
            MediaFilterField::OfferId => "MEDIA_FILTER_FIELD_OFFER_ID",
        }
    }

    /// The value a stable wire name denotes.
    pub fn from_str_name(value: &str) -> (r: Option<MediaFilterField>)
        ensures
            r == spec_filter_field_from_name(value@),
    {
        if str_eq(value, "MEDIA_FILTER_FIELD_UNSPECIFIED") {
            Some(MediaFilterField::Unspecified)
        } else if str_eq(value, "MEDIA_FILTER_FIELD_NAME") {
            Some(MediaFilterField::Name)
        } else if str_eq(value, "MEDIA_FILTER_FIELD_OFFER_ID") {
            Some(MediaFilterField::OfferId)
        } else {
            None
        }
    }

    /// The value a wire integer denotes.
    pub fn from_i32(value: i32) -> (r: Option<MediaFilterField>)
        ensures
            r == spec_filter_field_from_i32(value),
    {
        if value == 0 {
            Some(MediaFilterField::Unspecified)
        } else if value == 1 {
            Some(MediaFilterField::Name)
        } else if value == 2 {
            Some(MediaFilterField::OfferId)
        } else {
            None
        }
    }
}

pub open spec fn spec_filter_field_from_i32(v: i32) -> Option<MediaFilterField> {
    if v == 0 {
        Some(MediaFilterField::Unspecified)
    } else if v == 1 {
        Some(MediaFilterField::Name)
    } else if v == 2 {
        Some(MediaFilterField::OfferId)
    } else {
        None
    }
}

impl Direction {
    /// The value a wire integer denotes.
    pub fn from_i32(value: i32) -> (r: Option<Direction>)
        ensures
            r == spec_direction_from_i32(value),
    {
        if value == 0 {
            Some(Direction::Unspecified)
        } else if value == 1 {
            Some(Direction::Asc)
        } else if value == 2 {
            Some(Direction::Desc)
        } else {
            None
        }
    }
}

pub open spec fn spec_direction_from_i32(v: i32) -> Option<Direction> {
    if v == 0 {
        Some(Direction::Unspecified)
    } else if v == 1 {
        Some(Direction::Asc)
    } else if v == 2 {
        Some(Direction::Desc)
    } else {
        None
    }
}

} // verus!
