//! The `medias` table: row shape, store well-formedness, and the four row
//! transitions a request can make (insert, read with the offer aggregate,
//! column update, delete with cascade).

use vstd::prelude::*;

use crate::api::{Direction, MediaOrderByField};
use crate::errors::DbError;
use crate::ids::{hyphenated_of, Uuid};
use crate::listing::{desc_of, field_of, ordered, owner_pred, page_rows, ListFilter};
use crate::model::media_offer::{find_pair_index, not_media, offers_of, pairs_distinct,
    MediaOffer};
use crate::model::media_subscription::{subscription_ids_distinct, MediaSubscription};
use crate::pagination::page_of;
use crate::seqs::{lemma_filter_indexes, lemma_filter_member, lemma_filter_singleton};
use crate::text::contains_ci;

verus! {

/// Column identifiers of the `medias` table.
#[derive(Clone, Copy, Debug, PartialEq, Eq, Structural)]
pub enum MediaIden {
    Table,
    MediaId,
    MarketBoothId,
    UserId,
    CreatedAt,
    UpdatedAt,
    Name,
    DataUrl,
}

impl MediaIden {
    /// The SQL name of this identifier.
    pub fn sql_name(&self) -> (r: &'static str)
        ensures
            r@ == spec_media_iden_name(*self),
    {
        match self {
            MediaIden::Table => "medias",
            MediaIden::MediaId => "media_id",
            MediaIden::MarketBoothId => "market_booth_id",
            MediaIden::UserId => "user_id",
            MediaIden::CreatedAt => "created_at",
            MediaIden::UpdatedAt => "updated_at",
            MediaIden::Name => "name",
            MediaIden::DataUrl => "data_url",
        }
    }
}

pub open spec fn spec_media_iden_name(i: MediaIden) -> Seq<char> {
    match i {
        MediaIden::Table => "medias"@,
        MediaIden::MediaId => "media_id"@,
        MediaIden::MarketBoothId => "market_booth_id"@,
        MediaIden::UserId => "user_id"@,
        MediaIden::CreatedAt => "created_at"@,
        MediaIden::UpdatedAt => "updated_at"@,
        MediaIden::Name => "name"@,
        MediaIden::DataUrl => "data_url"@,
    }
}

/// Where a media's bytes stand: committed to the object store, not yet
/// uploaded, or in an in-progress multipart upload with the given upload id.
#[derive(Clone, Debug, PartialEq)]
pub enum UploadState {
    Committed,
    Pending,
    Uploading(String),
}

impl UploadState {
    /// An equal copy of the state.
    pub fn duplicate(&self) -> (r: UploadState)
        ensures
            r == *self,
    {
        match self {
            UploadState::Committed => UploadState::Committed,
            UploadState::Pending => UploadState::Pending,
            UploadState::Uploading(uid) => UploadState::Uploading(uid.clone()),
        }
    }
}

/// One media row. `offer_ids` is the read-time aggregate of the association
/// table; stored rows carry `None`.
#[derive(Clone, Debug, PartialEq)]
pub struct Media {
    pub media_id: Uuid,
    pub offer_ids: Option<Vec<Uuid>>,
    pub market_booth_id: Uuid,
    pub user_id: String,
    pub created_at: i64,
    pub updated_at: i64,
    pub name: String,
    pub data_url: String,
    pub upload: UploadState,
}

/// The relational state: media rows, media-offer associations, and the
/// subscription projection.
#[derive(Clone, Debug)]
pub struct MediaStore {
    pub medias: Vec<Media>,
    pub media_offers: Vec<MediaOffer>,
    pub media_subscriptions: Vec<MediaSubscription>,
}

impl Media {
    /// An equal copy of a stored row (one carrying no read-time aggregate).
    pub fn duplicate(&self) -> (r: Media)
        requires
            self.offer_ids is None,
        ensures
            r == *self,
    {
        Media {
            media_id: self.media_id,
            offer_ids: None,
            market_booth_id: self.market_booth_id,
            user_id: self.user_id.clone(),
            created_at: self.created_at,
            updated_at: self.updated_at,
            name: self.name.clone(),
            data_url: self.data_url.clone(),
            upload: self.upload.duplicate(),
        }
    }
}

/// The index of the row with a given id, or -1 where none exists.
pub open spec fn media_index(rows: Seq<Media>, id: Uuid) -> int
    decreases rows.len(),
{
    if rows.len() == 0 {
        -1
    } else if rows[0].media_id == id {
        0
    } else {
        let r = media_index(rows.drop_first(), id);
        if r < 0 {
            -1
        } else {
            r + 1
        }
    }
}

/// Whether a row with the given id exists.
pub open spec fn has_media(rows: Seq<Media>, id: Uuid) -> bool {
    exists|i: int| 0 <= i < rows.len() && (#[trigger] rows[i]).media_id == id
}

/// The row with the given id.
pub open spec fn media_at(rows: Seq<Media>, id: Uuid) -> Media {
    rows[media_index(rows, id)]
}

/// `media_index` finds the first matching row, and -1 exactly where none
/// matches.
pub proof fn lemma_media_index(rows: Seq<Media>, id: Uuid)
    ensures
        -1 <= media_index(rows, id) < rows.len(),
        media_index(rows, id) >= 0 ==> rows[media_index(rows, id)].media_id == id,
        media_index(rows, id) >= 0 ==> forall|k: int|
            0 <= k < media_index(rows, id) ==> (#[trigger] rows[k]).media_id != id,
        media_index(rows, id) == -1 ==> forall|k: int|
            0 <= k < rows.len() ==> (#[trigger] rows[k]).media_id != id,
        has_media(rows, id) <==> media_index(rows, id) >= 0,
    decreases rows.len(),
{
    if rows.len() > 0 && rows[0].media_id != id {
        lemma_media_index(rows.drop_first(), id);
        if media_index(rows, id) == -1 {
            assert forall|k: int| 0 <= k < rows.len() implies (#[trigger] rows[k]).media_id
                != id by {
                if k > 0 {
                    assert(rows.drop_first()[k - 1] == rows[k]);
                }
            }
        }
        if has_media(rows, id) {
            let w = choose|i: int| 0 <= i < rows.len() && (#[trigger] rows[i]).media_id == id;
            assert(w > 0);
            assert(rows.drop_first()[w - 1] == rows[w]);
            assert(has_media(rows.drop_first(), id));
        }
        if media_index(rows, id) >= 0 {
            assert forall|k: int| 0 <= k < media_index(rows, id) implies (#[trigger] rows[k]).media_id
                != id by {
                if k > 0 {
                    assert(rows.drop_first()[k - 1] == rows[k]);
                }
            }
            assert(rows.drop_first()[media_index(rows, id) - 1] == rows[media_index(rows, id)]);
        }
    }
}

/// Every row id occurs at most once.
pub open spec fn media_ids_distinct(rows: Seq<Media>) -> bool {
    forall|i: int, j: int|
        0 <= i < j < rows.len() ==> (#[trigger] rows[i]).media_id != (#[trigger] rows[j]).media_id
}

/// The rows with the row at `idx` taken out.
pub open spec fn remove_at(rows: Seq<Media>, idx: int) -> Seq<Media> {
    rows.subrange(0, idx) + rows.subrange(idx + 1, rows.len() as int)
}

/// What the database schema enforces of the relational state: unique media
/// ids, unique association pairs, unique subscription keys, associations
/// referencing existing medias, and no read-time aggregate stored in a row.
pub open spec fn store_wf(s: MediaStore) -> bool {
    &&& media_ids_distinct(s.medias@)
    &&& pairs_distinct(s.media_offers@)
    &&& subscription_ids_distinct(s.media_subscriptions@)
    &&& forall|i: int|
        0 <= i < s.media_offers@.len() ==> has_media(
            s.medias@,
            (#[trigger] s.media_offers@[i]).media_id,
        )
    &&& forall|i: int| 0 <= i < s.medias@.len() ==> (#[trigger] s.medias@[i]).offer_ids is None
}

/// The object-key prefix that isolates one media's bytes:
/// `{market_booth_id}/{media_id}/` in canonical hyphenated form, 74
/// characters in all.
pub open spec fn media_key_prefix(booth: Uuid, media: Uuid) -> Seq<char> {
    hyphenated_of(booth.hi, booth.lo) + seq!['/'] + hyphenated_of(media.hi, media.lo) + seq!['/']
}

/// Whether an object key lies under the prefix of the given media.
pub open spec fn url_under_prefix(url: Seq<char>, booth: Uuid, media: Uuid) -> bool {
    url.len() > 74 && url.subrange(0, 74) == media_key_prefix(booth, media)
}

/// A returned row equals the stored row, with the offer aggregate attached:
/// `None` where the media is linked to no offer.
pub open spec fn row_with_offers(got: Media, row: Media, ids: Seq<Uuid>) -> bool {
    &&& got.media_id == row.media_id
    &&& got.market_booth_id == row.market_booth_id
    &&& got.user_id == row.user_id
    &&& got.created_at == row.created_at
    &&& got.updated_at == row.updated_at
    &&& got.name == row.name
    &&& got.data_url == row.data_url
    &&& got.upload == row.upload
    &&& if ids.len() == 0 {
        got.offer_ids is None
    } else {
        got.offer_ids matches Some(v) && v@ == ids
    }
}

impl MediaStore {
    /// The empty relational state.
    pub fn new() -> (r: MediaStore)
        ensures
            store_wf(r),
            r.medias@.len() == 0,
            r.media_offers@.len() == 0,
            r.media_subscriptions@.len() == 0,
    {
        MediaStore { medias: Vec::new(), media_offers: Vec::new(), media_subscriptions: Vec::new() }
    }
}

/// Find the index of the row with the given id.
pub fn find_media_index(medias: &Vec<Media>, id: Uuid) -> (r: Option<usize>)
    ensures
        r matches Some(i) ==> media_index(medias@, id) == i as int && i < medias@.len()
            && medias@[i as int].media_id == id,
        r is None ==> media_index(medias@, id) == -1 && !has_media(medias@, id),
        r is Some <==> has_media(medias@, id),
{
    proof {
        lemma_media_index(medias@, id);
    }
    let n = medias.len();
    let mut i: usize = 0;
    while i < n
        invariant
            n == medias@.len(),
            i <= n,
            forall|k: int| 0 <= k < i ==> (#[trigger] medias@[k]).media_id != id,
            -1 <= media_index(medias@, id) < medias@.len(),
            media_index(medias@, id) >= 0 ==> medias@[media_index(medias@, id)].media_id == id,
            media_index(medias@, id) >= 0 ==> forall|k: int|
                0 <= k < media_index(medias@, id) ==> (#[trigger] medias@[k]).media_id != id,
            media_index(medias@, id) == -1 ==> forall|k: int|
                0 <= k < medias@.len() ==> (#[trigger] medias@[k]).media_id != id,
            (has_media(medias@, id) <==> media_index(medias@, id) >= 0),
        decreases n - i,
    {
        if medias[i].media_id == id {
            proof {
                if media_index(medias@, id) < i as int {
                    assert(medias@[media_index(medias@, id)].media_id != id);
                }
            }
            return Some(i);
        }
        i = i + 1;
    }
    None
}

/// Collect the offer ids linked to a media, in row order.
pub fn collect_offer_ids(offers: &Vec<MediaOffer>, media_id: Uuid) -> (r: Vec<Uuid>)
    ensures
        r@ == offers_of(offers@, media_id),
{
    let n = offers.len();
    let mut acc: Vec<Uuid> = Vec::new();
    proof {
        assert(offers@.take(0).filter(|o: MediaOffer| o.media_id == media_id) =~= Seq::empty()) by {
            reveal(Seq::filter);
        }
        assert(acc@ =~= offers_of(offers@.take(0), media_id));
    }
    let mut i: usize = 0;
    while i < n
        invariant
            n == offers@.len(),
            i <= n,
            acc@ == offers_of(offers@.take(i as int), media_id),
        decreases n - i,
    {
        let o = offers[i];
        proof {
            lemma_offers_of_step(offers@, media_id, i as int);
        }
        if o.media_id == media_id {
            acc.push(o.offer_id);
        }
        proof {
            assert(acc@ =~= offers_of(offers@.take(i + 1), media_id));
        }
        i = i + 1;
    }
    proof {
        assert(offers@.take(n as int) =~= offers@);
    }
    acc
}

proof fn lemma_offers_of_step(offers: Seq<MediaOffer>, id: Uuid, i: int)
    requires
        0 <= i < offers.len(),
    ensures
        offers_of(offers.take(i + 1), id) == offers_of(offers.take(i), id) + (if offers[i].media_id
            == id {
            seq![offers[i].offer_id]
        } else {
            Seq::<Uuid>::empty()
        }),
{
    let pred = |o: MediaOffer| o.media_id == id;
    let f = |o: MediaOffer| o.offer_id;
    assert(offers.take(i + 1) =~= offers.take(i) + seq![offers[i]]);
    Seq::filter_distributes_over_add(offers.take(i), seq![offers[i]], pred);
    lemma_filter_singleton(offers[i], pred);
    assert(offers_of(offers.take(i + 1), id) =~= offers_of(offers.take(i), id) + (if offers[i].media_id
        == id {
        seq![offers[i].offer_id]
    } else {
        Seq::<Uuid>::empty()
    })) by {
        let a = offers.take(i).filter(pred);
        let b = seq![offers[i]].filter(pred);
        assert((a + b).map_values(f) =~= a.map_values(f) + b.map_values(f));
    }
}

impl Media {
    /// Insert a new row. The database's primary key makes a second insert of
    /// the same id a unique violation; nothing else can fail.
    pub fn create(
        store: &mut MediaStore,
        media_id: Uuid,
        market_booth_id: Uuid,
        user_id: &String,
        name: &String,
        file_path: &String,
        upload: UploadState,
        now: i64,
    ) -> (r: Result<Media, DbError>)
        requires
            store_wf(*old(store)),
        ensures
            store_wf(*final(store)),
            final(store).media_offers@ == old(store).media_offers@,
            final(store).media_subscriptions@ == old(store).media_subscriptions@,
            has_media(old(store).medias@, media_id) ==> r == Result::<Media, DbError>::Err(
                DbError::UniqueViolation,
            ) && final(store).medias@ == old(store).medias@,
            !has_media(old(store).medias@, media_id) ==> (r matches Ok(m) && {
                &&& final(store).medias@ == old(store).medias@.push(m)
                &&& m.media_id == media_id
                &&& m.market_booth_id == market_booth_id
                &&& m.user_id@ == user_id@
                &&& m.name@ == name@
                &&& m.data_url@ == file_path@
                &&& m.upload == upload
                &&& m.created_at == now
                &&& m.updated_at == now
                &&& m.offer_ids is None
            }),
    {
        if find_media_index(&store.medias, media_id).is_some() {
            return Err(DbError::UniqueViolation);
        }
        let row = Media {
            media_id,
            offer_ids: None,
            market_booth_id,
            user_id: user_id.clone(),
            created_at: now,
            updated_at: now,
            name: name.clone(),
            data_url: file_path.clone(),
            upload,
        };
        let out = row.duplicate();
        store.medias.push(row);
        proof {
            assert forall|i: int|
                0 <= i < store.media_offers@.len() implies has_media(
                store.medias@,
                (#[trigger] store.media_offers@[i]).media_id,
            ) by {
                let w = choose|k: int|
                    0 <= k < old(store).medias@.len() && (#[trigger] old(store).medias@[k]).media_id
                        == store.media_offers@[i].media_id;
                assert(store.medias@[w].media_id == store.media_offers@[i].media_id);
            }
        }
        Ok(out)
    }

    /// Read one row with its offer aggregate.
    pub fn get(store: &MediaStore, media_id: Uuid) -> (r: Option<Media>)
        requires
            store_wf(*store),
        ensures
            r matches Some(m) ==> has_media(store.medias@, media_id) && row_with_offers(
                m,
                media_at(store.medias@, media_id),
                offers_of(store.media_offers@, media_id),
            ),
            r is None ==> !has_media(store.medias@, media_id),
    {
        match find_media_index(&store.medias, media_id) {
            Some(i) => {
                let mut m = store.medias[i].duplicate();
                let ids = collect_offer_ids(&store.media_offers, media_id);
                if ids.len() > 0 {
                    m.offer_ids = Some(ids);
                } else {
                    m.offer_ids = None;
                }
                Some(m)
            },
            None => None,
        }
    }

    /// List the caller's rows in one market booth, restricted by the filter,
    /// in the requested order, one page at a time, each row carrying its
    /// offer aggregate.
    pub fn list(
        store: &MediaStore,
        market_booth_id: Uuid,
        user_id: &String,
        limit: u64,
        offset: u64,
        filter: Option<ListFilter>,
        order_by: Option<(MediaOrderByField, Direction)>,
    ) -> (r: Vec<Media>)
        requires
            store_wf(*store),
        ensures
            ({
                let pred = owner_pred(store.media_offers@, market_booth_id, user_id@, filter);
                let page = page_of(
                    ordered(
                        store.medias@.filter(pred),
                        field_of(order_by),
                        desc_of(order_by),
                    ),
                    offset as int,
                    limit as int,
                );
                &&& r@.len() == page.len()
                &&& forall|p: int|
                    0 <= p < page.len() ==> row_with_offers(
                        #[trigger] r@[p],
                        page[p],
                        offers_of(store.media_offers@, page[p].media_id),
                    )
            }),
    {
        let ghost pred = owner_pred(store.media_offers@, market_booth_id, user_id@, filter);
        let n = store.medias.len();
        let mut base: Vec<Media> = Vec::new();
        proof {
            assert(store.medias@.take(0).filter(pred) =~= Seq::empty()) by {
                reveal(Seq::filter);
            }
        }
        let mut i: usize = 0;
        while i < n
            invariant
                n == store.medias@.len(),
                store_wf(*store),
                pred == owner_pred(store.media_offers@, market_booth_id, user_id@, filter),
                i <= n,
                base@ == store.medias@.take(i as int).filter(pred),
            decreases n - i,
        {
            let m = &store.medias[i];
            let mut pass = m.market_booth_id == market_booth_id && m.user_id == *user_id;
            if pass {
                pass = match &filter {
                    None => true,
                    Some(ListFilter::Name(q)) => contains_ci(m.name.as_str(), q.as_str()),
                    Some(ListFilter::OfferId(o)) => find_pair_index(
                        &store.media_offers,
                        m.media_id,
                        *o,
                    ).is_some(),
                };
            }
            proof {
                assert(store.medias@.take(i + 1) =~= store.medias@.take(i as int) + seq![
                    store.medias@[i as int],
                ]);
                Seq::filter_distributes_over_add(
                    store.medias@.take(i as int),
                    seq![store.medias@[i as int]],
                    pred,
                );
                lemma_filter_singleton(store.medias@[i as int], pred);
                assert(pass == pred(store.medias@[i as int]));
            }
            if pass {
                let copy = m.duplicate();
                base.push(copy);
            }
            proof {
                assert(base@ =~= store.medias@.take(i + 1).filter(pred));
            }
            i = i + 1;
        }
        proof {
            assert(store.medias@.take(n as int) =~= store.medias@);
        }
        let field = match order_by {
            Some((MediaOrderByField::UpdatedAt, _)) => MediaOrderByField::UpdatedAt,
            _ => MediaOrderByField::CreatedAt,
        };
        let desc = match order_by {
            Some((_, Direction::Asc)) => false,
            _ => true,
        };
        proof {
            assert forall|k: int| 0 <= k < base@.len() implies (
            #[trigger] base@[k]).offer_ids is None by {
                lemma_filter_member(store.medias@, pred, k);
                let w = choose|w: int|
                    0 <= w < store.medias@.len() && #[trigger] store.medias@[w] == base@[k];
            }
        }
        let mut page = page_rows(&base, field, desc, offset, limit);
        let ghost page0 = page@;
        let page_len = page.len();
        proof {
            assert(page0.len() == page_len);
        }
        let mut out: Vec<Media> = Vec::new();
        let mut p: usize = 0;
        while page.len() > 0
            invariant
                store_wf(*store),
                page0.len() <= usize::MAX,
                p + page@.len() == page0.len(),
                page@ == page0.skip(p as int),
                out@.len() == p,
                forall|q: int|
                    0 <= q < p ==> row_with_offers(
                        #[trigger] out@[q],
                        page0[q],
                        offers_of(store.media_offers@, page0[q].media_id),
                    ),
            decreases page@.len(),
        {
            let mut m = page.remove(0);
            proof {
                assert(page0.skip(p as int)[0] == page0[p as int]);
                assert(page0.skip(p as int).remove(0) =~= page0.skip(p + 1));
            }
            let ids = collect_offer_ids(&store.media_offers, m.media_id);
            if ids.len() > 0 {
                m.offer_ids = Some(ids);
            } else {
                m.offer_ids = None;
            }
            out.push(m);
            p = p + 1;
        }
        proof {
            assert(page0.skip(page0.len() as int) =~= Seq::<Media>::empty());
        }
        out
    }

    /// Update the mutable columns of an owned row: the name where one is
    /// given, and the update timestamp always. The row must exist and belong
    /// to the caller; the database's `WHERE` clause reports anything else as
    /// no row found.
    pub fn update(
        store: &mut MediaStore,
        media_id: Uuid,
        user_id: &String,
        name: Option<String>,
        now: i64,
    ) -> (r: Result<Media, DbError>)
        requires
            store_wf(*old(store)),
        ensures
            store_wf(*final(store)),
            final(store).media_offers@ == old(store).media_offers@,
            final(store).media_subscriptions@ == old(store).media_subscriptions@,
            !(has_media(old(store).medias@, media_id) && media_at(old(store).medias@, media_id).user_id@
                == user_id@) ==> r == Result::<Media, DbError>::Err(DbError::NotFound)
                && final(store).medias@ == old(store).medias@,
            (has_media(old(store).medias@, media_id) && media_at(old(store).medias@, media_id).user_id@
                == user_id@) ==> (r matches Ok(m) && {
                let idx = media_index(old(store).medias@, media_id);
                let prev = old(store).medias@[idx];
                &&& final(store).medias@ == old(store).medias@.update(idx, m)
                &&& m.media_id == prev.media_id
                &&& m.market_booth_id == prev.market_booth_id
                &&& m.user_id == prev.user_id
                &&& m.created_at == prev.created_at
                &&& m.updated_at == now
                &&& m.name@ == (match name {
                    Some(n) => n@,
                    None => prev.name@,
                })
                &&& m.data_url == prev.data_url
                &&& m.upload == prev.upload
                &&& m.offer_ids is None
            }),
    {
        match find_media_index(&store.medias, media_id) {
            Some(i) => {
                let owner_ok = store.medias[i].user_id == *user_id;
                if !owner_ok {
                    return Err(DbError::NotFound);
                }
                let mut m = store.medias[i].duplicate();
                match name {
                    Some(n) => {
                        m.name = n;
                    },
                    None => {},
                }
                m.updated_at = now;
                let out = m.duplicate();
                store.medias.set(i, m);
                proof {
                    let rows = store.medias@;
                    let prev = old(store).medias@;
                    let ii = i as int;
                    assert forall|a: int| 0 <= a < rows.len() implies (#[trigger] rows[a]).media_id
                        == prev[a].media_id by {
                        if a != ii {
                            assert(rows[a] == prev[a]);
                        }
                    }
                    assert forall|a: int, b: int| 0 <= a < b < rows.len() implies (
                    #[trigger] rows[a]).media_id != (#[trigger] rows[b]).media_id by {
                        assert(rows[a].media_id == prev[a].media_id);
                        assert(rows[b].media_id == prev[b].media_id);
                    }
                    assert forall|k: int| 0 <= k < store.media_offers@.len() implies has_media(
                        rows,
                        (#[trigger] store.media_offers@[k]).media_id,
                    ) by {
                        let w = choose|w: int|
                            0 <= w < prev.len() && (#[trigger] prev[w]).media_id
                                == store.media_offers@[k].media_id;
                        assert(rows[w].media_id == store.media_offers@[k].media_id);
                    }
                    assert forall|a: int| 0 <= a < rows.len() implies (
                    #[trigger] rows[a]).offer_ids is None by {
                        if a != ii {
                            assert(rows[a] == prev[a]);
                        }
                    }
                }
                Ok(out)
            },
            None => Err(DbError::NotFound),
        }
    }

    /// Delete an owned row, cascading to its association rows. Deleting a row
    /// that does not exist, or is not owned by the caller, deletes nothing
    /// and is no error.
    pub fn begin_delete(store: &mut MediaStore, media_id: Uuid, user_id: &String) -> (r: Result<
        (),
        DbError,
    >)
        requires
            store_wf(*old(store)),
        ensures
            store_wf(*final(store)),
            r is Ok,
            final(store).media_subscriptions@ == old(store).media_subscriptions@,
            !(has_media(old(store).medias@, media_id) && media_at(old(store).medias@, media_id).user_id@
                == user_id@) ==> final(store).medias@ == old(store).medias@
                && final(store).media_offers@ == old(store).media_offers@,
            (has_media(old(store).medias@, media_id) && media_at(old(store).medias@, media_id).user_id@
                == user_id@) ==> {
                &&& final(store).medias@ == remove_at(
                    old(store).medias@,
                    media_index(old(store).medias@, media_id),
                )
                &&& final(store).media_offers@ == old(store).media_offers@.filter(
                    not_media(media_id),
                )
                &&& !has_media(final(store).medias@, media_id)
            },
    {
        match find_media_index(&store.medias, media_id) {
            Some(i) => {
                let owner_ok = store.medias[i].user_id == *user_id;
                if !owner_ok {
                    return Ok(());
                }
                store.medias.remove(i);
                proof {
                    assert(store.medias@ =~= remove_at(
                        old(store).medias@,
                        media_index(old(store).medias@, media_id),
                    ));
                }
                let filtered = filter_offers_excluding(&store.media_offers, media_id);
                store.media_offers = filtered;
                proof {
                    lemma_delete_preserves_wf(*old(store), *store, media_id, i as int);
                }
                Ok(())
            },
            None => Ok(()),
        }
    }
}

/// Replace the upload bookkeeping of the row at `idx`: its state, its key
/// where a new one is given, and the update timestamp.
pub(crate) fn set_upload_state(
    store: &mut MediaStore,
    idx: usize,
    upload: UploadState,
    data_url: Option<String>,
    now: i64,
)
    requires
        store_wf(*old(store)),
        idx < old(store).medias@.len(),
    ensures
        store_wf(*final(store)),
        final(store).media_offers@ == old(store).media_offers@,
        final(store).media_subscriptions@ == old(store).media_subscriptions@,
        ({
            let prev = old(store).medias@[idx as int];
            let row = final(store).medias@[idx as int];
            &&& final(store).medias@ == old(store).medias@.update(idx as int, row)
            &&& row.media_id == prev.media_id
            &&& row.market_booth_id == prev.market_booth_id
            &&& row.user_id == prev.user_id
            &&& row.created_at == prev.created_at
            &&& row.updated_at == now
            &&& row.name == prev.name
            &&& row.upload == upload
            &&& row.data_url@ == (match data_url {
                Some(urlv) => urlv@,
                None => prev.data_url@,
            })
            &&& row.offer_ids is None
        }),
{
    let mut m = store.medias[idx].duplicate();
    m.upload = upload;
    match data_url {
        Some(urlv) => {
            m.data_url = urlv;
        },
        None => {},
    }
    m.updated_at = now;
    store.medias.set(idx, m);
    proof {
        let rows = store.medias@;
        let prev = old(store).medias@;
        let ii = idx as int;
        assert forall|a: int| 0 <= a < rows.len() implies (#[trigger] rows[a]).media_id
            == prev[a].media_id by {
            if a != ii {
                assert(rows[a] == prev[a]);
            }
        }
        assert forall|a: int, b: int| 0 <= a < b < rows.len() implies (#[trigger] rows[a]).media_id
            != (#[trigger] rows[b]).media_id by {
            assert(rows[a].media_id == prev[a].media_id);
            assert(rows[b].media_id == prev[b].media_id);
        }
        assert forall|k: int| 0 <= k < store.media_offers@.len() implies has_media(
            rows,
            (#[trigger] store.media_offers@[k]).media_id,
        ) by {
            let w = choose|w: int|
                0 <= w < prev.len() && (#[trigger] prev[w]).media_id
                    == store.media_offers@[k].media_id;
            assert(rows[w].media_id == store.media_offers@[k].media_id);
        }
        assert forall|a: int| 0 <= a < rows.len() implies (#[trigger] rows[a]).offer_ids
            is None by {
            if a != ii {
                assert(rows[a] == prev[a]);
            }
        }
    }
}

/// The association rows that survive a cascade delete of one media.
fn filter_offers_excluding(offers: &Vec<MediaOffer>, media_id: Uuid) -> (r: Vec<MediaOffer>)
    ensures
        r@ == offers@.filter(not_media(media_id)),
{
    let ghost pred = not_media(media_id);
    let n = offers.len();
    let mut acc: Vec<MediaOffer> = Vec::new();
    proof {
        assert(offers@.take(0).filter(pred) =~= Seq::empty()) by {
            reveal(Seq::filter);
        }
        assert(acc@ =~= offers@.take(0).filter(pred));
    }
    let mut i: usize = 0;
    while i < n
        invariant
            n == offers@.len(),
            i <= n,
            pred == not_media(media_id),
            acc@ == offers@.take(i as int).filter(pred),
        decreases n - i,
    {
        let o = offers[i];
        proof {
            let p = pred;
            assert(offers@.take(i + 1) =~= offers@.take(i as int) + seq![offers@[i as int]]);
            Seq::filter_distributes_over_add(offers@.take(i as int), seq![offers@[i as int]], p);
            lemma_filter_singleton(offers@[i as int], p);
        }
        if o.media_id != media_id {
            acc.push(o);
        }
        proof {
            assert(acc@ =~= offers@.take(i + 1).filter(pred));
        }
        i = i + 1;
    }
    proof {
        assert(offers@.take(n as int) =~= offers@);
    }
    acc
}

proof fn lemma_delete_preserves_wf(pre: MediaStore, post: MediaStore, media_id: Uuid, idx: int)
    requires
        store_wf(pre),
        0 <= idx < pre.medias@.len(),
        pre.medias@[idx].media_id == media_id,
        post.medias@ == remove_at(pre.medias@, idx),
        post.media_offers@ == pre.media_offers@.filter(not_media(media_id)),
        post.media_subscriptions@ == pre.media_subscriptions@,
    ensures
        store_wf(post),
        !has_media(post.medias@, media_id),
{
    let rows = post.medias@;
    let p = not_media(media_id);
    broadcast use vstd::seq_lib::group_filter_ensures;

    assert(media_ids_distinct(rows)) by {
        assert forall|i: int, j: int| 0 <= i < j < rows.len() implies (#[trigger] rows[i]).media_id
            != (#[trigger] rows[j]).media_id by {
            let pi = if i < idx {
                i
            } else {
                i + 1
            };
            let pj = if j < idx {
                j
            } else {
                j + 1
            };
            assert(rows[i] == pre.medias@[pi]);
            assert(rows[j] == pre.medias@[pj]);
        }
    }
    assert(!has_media(rows, media_id)) by {
        if has_media(rows, media_id) {
            let w = choose|i: int| 0 <= i < rows.len() && (#[trigger] rows[i]).media_id == media_id;
            let pw = if w < idx {
                w
            } else {
                w + 1
            };
            assert(rows[w] == pre.medias@[pw]);
        }
    }
    assert(pairs_distinct(post.media_offers@)) by {
        assert forall|i: int, j: int| 0 <= i < j < post.media_offers@.len() implies (
        #[trigger] post.media_offers@[i]) != (#[trigger] post.media_offers@[j]) by {
            lemma_filter_indexes(pre.media_offers@, p, i, j);
        }
    }
    assert forall|i: int| 0 <= i < post.media_offers@.len() implies has_media(
        rows,
        (#[trigger] post.media_offers@[i]).media_id,
    ) by {
        assert(pre.media_offers@.contains(post.media_offers@[i])) by {
            lemma_filter_member(pre.media_offers@, p, i);
        }
        let k = choose|k: int|
            0 <= k < pre.media_offers@.len() && pre.media_offers@[k] == post.media_offers@[i];
        let oid = post.media_offers@[i].media_id;
        assert(has_media(pre.medias@, oid));
        let w = choose|w: int|
            0 <= w < pre.medias@.len() && (#[trigger] pre.medias@[w]).media_id == oid;
        assert(oid != media_id) by {
            assert(p(post.media_offers@[i]));
        }
        assert(w != idx);
        let nw = if w < idx {
            w
        } else {
            w - 1
        };
        assert(rows[nw] == pre.medias@[w]);
    }
    assert forall|i: int| 0 <= i < rows.len() implies (#[trigger] rows[i]).offer_ids is None by {
        let pi = if i < idx {
            i
        } else {
            i + 1
        };
        assert(rows[i] == pre.medias@[pi]);
    }
}

} // verus!
