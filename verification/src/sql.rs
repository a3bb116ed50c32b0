//! The SQL the service sends to its relational store, emitted as exact
//! text with numbered parameter placeholders. Reads join the association
//! table and aggregate the linked offer ids per row; listings always order
//! by the requested column and then by id, so pages never overlap.

use vstd::prelude::*;

use crate::api::{MediaFilterField, MediaOrderByField};

verus! {

/// The read skeleton: every media column plus the aggregated offer ids.
pub open spec fn spec_select_with_relations() -> Seq<char> {
    "SELECT \"medias\".*, ARRAY_AGG(\"media_offers\".\"offer_id\") AS \"offer_ids\" FROM \"medias\" LEFT JOIN \"media_offers\" ON \"medias\".\"media_id\" = \"media_offers\".\"media_id\""@
}

/// The grouping every aggregated read ends with.
pub open spec fn spec_group_by() -> Seq<char> {
    " GROUP BY \"medias\".\"media_id\""@
}

/// The read skeleton as text.
pub fn select_with_relations() -> (r: String)
    ensures
        r@ == spec_select_with_relations(),
{
    "SELECT \"medias\".*, ARRAY_AGG(\"media_offers\".\"offer_id\") AS \"offer_ids\" FROM \"medias\" LEFT JOIN \"media_offers\" ON \"medias\".\"media_id\" = \"media_offers\".\"media_id\"".to_owned()
}

/// The query behind a single-media read: the skeleton, keyed by id.
pub open spec fn spec_get_media_sql() -> Seq<char> {
    spec_select_with_relations() + " WHERE \"medias\".\"media_id\" = $1"@ + spec_group_by()
}

/// The single-media read as text.
pub fn get_media_sql() -> (r: String)
    ensures
        r@ == spec_get_media_sql(),
{
    let mut s = select_with_relations();
    s.append(" WHERE \"medias\".\"media_id\" = $1");
    s.append(" GROUP BY \"medias\".\"media_id\"");
    s
}

/// The filter clause a listing adds: nothing, a case-insensitive name
/// match, or an exact offer link.
pub open spec fn spec_list_filter_clause(filter: Option<MediaFilterField>) -> Seq<char> {
    match filter {
        Some(MediaFilterField::Name) => " AND \"medias\".\"name\" ILIKE $3"@,
        Some(MediaFilterField::OfferId) => " AND \"media_offers\".\"offer_id\" = $3"@,
        _ => ""@,
    }
}

/// The ordering column of a listing.
pub open spec fn spec_order_column(field: MediaOrderByField) -> Seq<char> {
    match field {
        MediaOrderByField::UpdatedAt => " ORDER BY \"medias\".\"updated_at\""@,
        _ => " ORDER BY \"medias\".\"created_at\""@,
    }
}

/// The direction of a listing, with the id as the stable tie-break.
pub open spec fn spec_order_direction(desc: bool) -> Seq<char> {
    if desc {
        " DESC, \"medias\".\"media_id\" ASC"@
    } else {
        " ASC, \"medias\".\"media_id\" ASC"@
    }
}

/// The trailing page window. Its placeholder numbers follow the filter's.
pub open spec fn spec_limit_offset(filter: Option<MediaFilterField>) -> Seq<char> {
    match filter {
        Some(MediaFilterField::Name) | Some(MediaFilterField::OfferId) => " LIMIT $4 OFFSET $5"@,
        _ => " LIMIT $3 OFFSET $4"@,
    }
}

/// The query behind an owner listing: the skeleton, scoped to one booth and
/// one owner, optionally filtered, grouped, ordered stably, and paged.
pub open spec fn spec_list_media_sql(
    filter: Option<MediaFilterField>,
    field: MediaOrderByField,
    desc: bool,
) -> Seq<char> {
    spec_select_with_relations()
        + " WHERE \"medias\".\"market_booth_id\" = $1 AND \"medias\".\"user_id\" = $2"@
        + spec_list_filter_clause(filter) + spec_group_by() + spec_order_column(field)
        + spec_order_direction(desc) + spec_limit_offset(filter)
}

/// The owner listing as text.
pub fn list_media_sql(
    filter: Option<MediaFilterField>,
    field: MediaOrderByField,
    desc: bool,
) -> (r: String)
    ensures
        r@ == spec_list_media_sql(filter, field, desc),
{
    let mut s = select_with_relations();
    s.append(" WHERE \"medias\".\"market_booth_id\" = $1 AND \"medias\".\"user_id\" = $2");
    match filter {
        Some(MediaFilterField::Name) => s.append(" AND \"medias\".\"name\" ILIKE $3"),
        Some(MediaFilterField::OfferId) => s.append(" AND \"media_offers\".\"offer_id\" = $3"),
        _ => (),
    }
    s.append(" GROUP BY \"medias\".\"media_id\"");
    match field {
        MediaOrderByField::UpdatedAt => s.append(" ORDER BY \"medias\".\"updated_at\""),
        _ => s.append(" ORDER BY \"medias\".\"created_at\""),
    }
    if desc {
        s.append(" DESC, \"medias\".\"media_id\" ASC");
    } else {
        s.append(" ASC, \"medias\".\"media_id\" ASC");
    }
    match filter {
        Some(MediaFilterField::Name) | Some(MediaFilterField::OfferId) => s.append(
            " LIMIT $4 OFFSET $5",
        ),
        _ => s.append(" LIMIT $3 OFFSET $4"),
    }
    proof {
        reveal_strlit("");
        assert(s@ =~= spec_list_media_sql(filter, field, desc));
    }
    s
}

/// The query behind an insert: all caller-supplied columns, returning the
/// stored row.
pub open spec fn spec_insert_media_sql() -> Seq<char> {
    "INSERT INTO \"medias\" (\"media_id\", \"market_booth_id\", \"user_id\", \"name\", \"data_url\") VALUES ($1, $2, $3, $4, $5) RETURNING *"@
}

/// The insert as text.
pub fn insert_media_sql() -> (r: String)
    ensures
        r@ == spec_insert_media_sql(),
{
    "INSERT INTO \"medias\" (\"media_id\", \"market_booth_id\", \"user_id\", \"name\", \"data_url\") VALUES ($1, $2, $3, $4, $5) RETURNING *".to_owned()
}

/// The query behind an update: the update timestamp always, the name where
/// one is given, guarded by id and owner.
pub open spec fn spec_update_media_sql(with_name: bool) -> Seq<char> {
    if with_name {
        "UPDATE \"medias\" SET \"updated_at\" = $1, \"name\" = $2 WHERE \"media_id\" = $3 AND \"user_id\" = $4 RETURNING *"@
    } else {
        "UPDATE \"medias\" SET \"updated_at\" = $1 WHERE \"media_id\" = $2 AND \"user_id\" = $3 RETURNING *"@
    }
}

/// The update as text.
pub fn update_media_sql(with_name: bool) -> (r: String)
    ensures
        r@ == spec_update_media_sql(with_name),
{
    if with_name {
        "UPDATE \"medias\" SET \"updated_at\" = $1, \"name\" = $2 WHERE \"media_id\" = $3 AND \"user_id\" = $4 RETURNING *".to_owned()
    } else {
        "UPDATE \"medias\" SET \"updated_at\" = $1 WHERE \"media_id\" = $2 AND \"user_id\" = $3 RETURNING *".to_owned()
    }
}

/// The query behind a delete, guarded by id and owner. The schema cascades
/// to the association rows.
pub open spec fn spec_delete_media_sql() -> Seq<char> {
    "DELETE FROM \"medias\" WHERE \"media_id\" = $1 AND \"user_id\" = $2"@
}

/// The delete as text.
pub fn delete_media_sql() -> (r: String)
    ensures
        r@ == spec_delete_media_sql(),
{
    "DELETE FROM \"medias\" WHERE \"media_id\" = $1 AND \"user_id\" = $2".to_owned()
}

/// The query behind an association insert: a duplicate pair changes nothing.
pub open spec fn spec_insert_media_offer_sql() -> Seq<char> {
    "INSERT INTO \"media_offers\" (\"media_id\", \"offer_id\") VALUES ($1, $2) ON CONFLICT DO NOTHING"@
}

/// The association insert as text.
pub fn insert_media_offer_sql() -> (r: String)
    ensures
        r@ == spec_insert_media_offer_sql(),
{
    "INSERT INTO \"media_offers\" (\"media_id\", \"offer_id\") VALUES ($1, $2) ON CONFLICT DO NOTHING".to_owned()
}

/// The query behind an association delete: a missing pair is no error.
pub open spec fn spec_delete_media_offer_sql() -> Seq<char> {
    "DELETE FROM \"media_offers\" WHERE \"media_id\" = $1 AND \"offer_id\" = $2"@
}

/// The association delete as text.
pub fn delete_media_offer_sql() -> (r: String)
    ensures
        r@ == spec_delete_media_offer_sql(),
{
    "DELETE FROM \"media_offers\" WHERE \"media_id\" = $1 AND \"offer_id\" = $2".to_owned()
}

/// The query behind the subscription upsert: keyed on the subscription id,
/// replacing every other column.
pub open spec fn spec_upsert_media_subscription_sql() -> Seq<char> {
    "INSERT INTO \"media_subscriptions\" (\"media_subscription_id\", \"buyer_user_id\", \"offer_id\", \"current_period_start\", \"current_period_end\", \"subscription_status\", \"payed_at\", \"payed_until\") VALUES ($1, $2, $3, $4, $5, $6, $7, $8) ON CONFLICT (\"media_subscription_id\") DO UPDATE SET \"buyer_user_id\" = $2, \"offer_id\" = $3, \"current_period_start\" = $4, \"current_period_end\" = $5, \"subscription_status\" = $6, \"payed_at\" = $7, \"payed_until\" = $8"@
}

/// The subscription upsert as text.
pub fn upsert_media_subscription_sql() -> (r: String)
    ensures
        r@ == spec_upsert_media_subscription_sql(),
{
    "INSERT INTO \"media_subscriptions\" (\"media_subscription_id\", \"buyer_user_id\", \"offer_id\", \"current_period_start\", \"current_period_end\", \"subscription_status\", \"payed_at\", \"payed_until\") VALUES ($1, $2, $3, $4, $5, $6, $7, $8) ON CONFLICT (\"media_subscription_id\") DO UPDATE SET \"buyer_user_id\" = $2, \"offer_id\" = $3, \"current_period_start\" = $4, \"current_period_end\" = $5, \"subscription_status\" = $6, \"payed_at\" = $7, \"payed_until\" = $8".to_owned()
}

} // verus!
