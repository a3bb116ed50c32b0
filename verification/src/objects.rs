//! A model of the S3-style object store the service writes to: objects held
//! by key, and in-progress multipart uploads held by key and upload id. The
//! service decides against this model; the live adapter mirrors it.

use vstd::prelude::*;

use crate::api::Part;
use crate::seqs::copy_vec;
use crate::text::{starts_with, str_starts_with};

verus! {

/// One stored object.
#[derive(Clone, Debug, PartialEq)]
pub struct StoredObject {
    pub key: String,
    pub content_type: String,
    pub data: Vec<u8>,
}

/// One uploaded part of a multipart session, confirmed by its etag.
#[derive(Clone, Debug, PartialEq)]
pub struct UploadPart {
    pub part_number: u32,
    pub etag: String,
    pub data: Vec<u8>,
}

/// One in-progress multipart upload.
#[derive(Clone, Debug, PartialEq)]
pub struct MultipartSession {
    pub key: String,
    pub upload_id: String,
    pub content_type: String,
    pub parts: Vec<UploadPart>,
}

/// The object store: objects and multipart sessions.
#[derive(Clone, Debug)]
pub struct ObjectStore {
    pub objects: Vec<StoredObject>,
    pub sessions: Vec<MultipartSession>,
}

/// The index of the object with a given key, or -1 where none exists.
pub open spec fn object_index(objs: Seq<StoredObject>, key: Seq<char>) -> int
    decreases objs.len(),
{
    if objs.len() == 0 {
        -1
    } else if objs[0].key@ == key {
        0
    } else {
        let r = object_index(objs.drop_first(), key);
        if r < 0 {
            -1
        } else {
            r + 1
        }
    }
}

/// Whether an object with the given key exists.
pub open spec fn has_object(objs: Seq<StoredObject>, key: Seq<char>) -> bool {
    exists|i: int| 0 <= i < objs.len() && (#[trigger] objs[i]).key@ == key
}

/// What the store holds at a key: the content type and the bytes, or
/// nothing.
pub open spec fn obj_view(objs: Seq<StoredObject>, key: Seq<char>) -> Option<(Seq<char>, Seq<u8>)> {
    if has_object(objs, key) {
        let o = objs[object_index(objs, key)];
        Some((o.content_type@, o.data@))
    } else {
        None
    }
}

/// `object_index` finds the first matching object, and -1 exactly where none
/// matches.
pub proof fn lemma_object_index(objs: Seq<StoredObject>, key: Seq<char>)
    ensures
        -1 <= object_index(objs, key) < objs.len(),
        object_index(objs, key) >= 0 ==> objs[object_index(objs, key)].key@ == key,
        object_index(objs, key) >= 0 ==> forall|k: int|
            0 <= k < object_index(objs, key) ==> (#[trigger] objs[k]).key@ != key,
        object_index(objs, key) == -1 ==> forall|k: int|
            0 <= k < objs.len() ==> (#[trigger] objs[k]).key@ != key,
        has_object(objs, key) <==> object_index(objs, key) >= 0,
    decreases objs.len(),
{
    if objs.len() > 0 && objs[0].key@ != key {
        lemma_object_index(objs.drop_first(), key);
        if object_index(objs, key) == -1 {
            assert forall|k: int| 0 <= k < objs.len() implies (#[trigger] objs[k]).key@ != key by {
                if k > 0 {
                    assert(objs.drop_first()[k - 1] == objs[k]);
                }
            }
        }
        if has_object(objs, key) {
            let w = choose|i: int| 0 <= i < objs.len() && (#[trigger] objs[i]).key@ == key;
            assert(objs.drop_first()[w - 1] == objs[w]);
            assert(has_object(objs.drop_first(), key));
        }
        if object_index(objs, key) >= 0 {
            assert forall|k: int| 0 <= k < object_index(objs, key) implies (
            #[trigger] objs[k]).key@ != key by {
                if k > 0 {
                    assert(objs.drop_first()[k - 1] == objs[k]);
                }
            }
            assert(objs.drop_first()[object_index(objs, key) - 1] == objs[object_index(objs, key)]);
        }
    }
}

/// Every key occurs at most once.
pub open spec fn object_keys_distinct(objs: Seq<StoredObject>) -> bool {
    forall|i: int, j: int|
        0 <= i < j < objs.len() ==> (#[trigger] objs[i]).key@ != (#[trigger] objs[j]).key@
}

/// The index of the session with a given key and upload id, or -1.
pub open spec fn session_index(sess: Seq<MultipartSession>, key: Seq<char>, uid: Seq<char>) -> int
    decreases sess.len(),
{
    if sess.len() == 0 {
        -1
    } else if sess[0].key@ == key && sess[0].upload_id@ == uid {
        0
    } else {
        let r = session_index(sess.drop_first(), key, uid);
        if r < 0 {
            -1
        } else {
            r + 1
        }
    }
}

/// Whether a session with the given key and upload id exists.
pub open spec fn has_session(sess: Seq<MultipartSession>, key: Seq<char>, uid: Seq<char>) -> bool {
    exists|i: int|
        0 <= i < sess.len() && (#[trigger] sess[i]).key@ == key && sess[i].upload_id@ == uid
}

/// One uploaded part as plain values: etag and bytes.
pub open spec fn part_data(parts: Seq<UploadPart>, pn: u32) -> Option<(Seq<char>, Seq<u8>)> {
    if exists|i: int| 0 <= i < parts.len() && (#[trigger] parts[i]).part_number == pn {
        let i = choose|i: int| 0 <= i < parts.len() && (#[trigger] parts[i]).part_number == pn;
        Some((parts[i].etag@, parts[i].data@))
    } else {
        None
    }
}

/// The session with the given key and upload id.
pub open spec fn session_at(
    sess: Seq<MultipartSession>,
    key: Seq<char>,
    uid: Seq<char>,
) -> MultipartSession {
    sess[session_index(sess, key, uid)]
}

/// What the store holds for a session: its content type and its parts.
pub open spec fn session_view(
    sess: Seq<MultipartSession>,
    key: Seq<char>,
    uid: Seq<char>,
) -> Option<MultipartSession> {
    if has_session(sess, key, uid) {
        Some(sess[session_index(sess, key, uid)])
    } else {
        None
    }
}

/// `session_index` finds the first matching session, and -1 exactly where
/// none matches.
pub proof fn lemma_session_index(sess: Seq<MultipartSession>, key: Seq<char>, uid: Seq<char>)
    ensures
        -1 <= session_index(sess, key, uid) < sess.len(),
        session_index(sess, key, uid) >= 0 ==> sess[session_index(sess, key, uid)].key@ == key
            && sess[session_index(sess, key, uid)].upload_id@ == uid,
        session_index(sess, key, uid) == -1 ==> forall|k: int|
            0 <= k < sess.len() ==> !((#[trigger] sess[k]).key@ == key && sess[k].upload_id@
                == uid),
        has_session(sess, key, uid) <==> session_index(sess, key, uid) >= 0,
    decreases sess.len(),
{
    if sess.len() > 0 && !(sess[0].key@ == key && sess[0].upload_id@ == uid) {
        lemma_session_index(sess.drop_first(), key, uid);
        if session_index(sess, key, uid) == -1 {
            assert forall|k: int| 0 <= k < sess.len() implies !((#[trigger] sess[k]).key@ == key
                && sess[k].upload_id@ == uid) by {
                if k > 0 {
                    assert(sess.drop_first()[k - 1] == sess[k]);
                }
            }
        }
        if has_session(sess, key, uid) {
            let w = choose|i: int|
                0 <= i < sess.len() && (#[trigger] sess[i]).key@ == key && sess[i].upload_id@
                    == uid;
            assert(sess.drop_first()[w - 1] == sess[w]);
            assert(has_session(sess.drop_first(), key, uid));
        }
        if session_index(sess, key, uid) >= 0 {
            assert(sess.drop_first()[session_index(sess, key, uid) - 1] == sess[session_index(
                sess,
                key,
                uid,
            )]);
        }
    }
}

/// Every (key, upload id) pair occurs at most once.
pub open spec fn sessions_distinct(sess: Seq<MultipartSession>) -> bool {
    forall|i: int, j: int|
        0 <= i < j < sess.len() ==> !((#[trigger] sess[i]).key@ == (#[trigger] sess[j]).key@
            && sess[i].upload_id@ == sess[j].upload_id@)
}

/// Every part number occurs at most once within a session.
pub open spec fn parts_distinct(parts: Seq<UploadPart>) -> bool {
    forall|i: int, j: int|
        0 <= i < j < parts.len() ==> (#[trigger] parts[i]).part_number != (
        #[trigger] parts[j]).part_number
}

/// Well-formedness of the store: unique keys, unique sessions, unique part
/// numbers.
pub open spec fn objects_wf(o: ObjectStore) -> bool {
    &&& object_keys_distinct(o.objects@)
    &&& sessions_distinct(o.sessions@)
    &&& forall|i: int| 0 <= i < o.sessions@.len() ==> parts_distinct((#[trigger] o.sessions@[i]).parts@)
}

impl ObjectStore {
    /// The empty store.
    pub fn new() -> (r: ObjectStore)
        ensures
            objects_wf(r),
            r.objects@.len() == 0,
            r.sessions@.len() == 0,
    {
        ObjectStore { objects: Vec::new(), sessions: Vec::new() }
    }

    /// Find the index of the object with the given key.
    fn find_object(&self, key: &String) -> (r: Option<usize>)
        ensures
            r matches Some(i) ==> object_index(self.objects@, key@) == i as int && i
                < self.objects@.len() && self.objects@[i as int].key@ == key@,
            r is None ==> !has_object(self.objects@, key@),
            r is Some <==> has_object(self.objects@, key@),
    {
        proof {
            lemma_object_index(self.objects@, key@);
        }
        let n = self.objects.len();
        let mut i: usize = 0;
        while i < n
            invariant
                n == self.objects@.len(),
                i <= n,
                forall|k: int| 0 <= k < i ==> (#[trigger] self.objects@[k]).key@ != key@,
                -1 <= object_index(self.objects@, key@) < self.objects@.len(),
                object_index(self.objects@, key@) >= 0 ==> self.objects@[object_index(
                    self.objects@,
                    key@,
                )].key@ == key@,
                object_index(self.objects@, key@) >= 0 ==> forall|k: int|
                    0 <= k < object_index(self.objects@, key@) ==> (
                    #[trigger] self.objects@[k]).key@ != key@,
                (has_object(self.objects@, key@) <==> object_index(self.objects@, key@) >= 0),
            decreases n - i,
        {
            if self.objects[i].key == *key {
                proof {
                    if object_index(self.objects@, key@) < i as int {
                        assert(self.objects@[object_index(self.objects@, key@)].key@ != key@);
                    }
                }
                return Some(i);
            }
            i = i + 1;
        }
        None
    }

    /// Read the object at a key.
    pub fn get(&self, key: &String) -> (r: Option<&StoredObject>)
        ensures
            r matches Some(o) ==> obj_view(self.objects@, key@) == Some((o.content_type@, o.data@))
                && o.key@ == key@,
            r is None ==> obj_view(self.objects@, key@) is None,
    {
        match self.find_object(key) {
            Some(i) => Some(&self.objects[i]),
            None => None,
        }
    }

    /// Store bytes at a key, replacing whatever was there: a single-shot put.
    pub fn put(&mut self, key: &String, content_type: &String, data: &Vec<u8>)
        requires
            objects_wf(*old(self)),
        ensures
            objects_wf(*final(self)),
            final(self).sessions@ == old(self).sessions@,
            obj_view(final(self).objects@, key@) == Some((content_type@, data@)),
            forall|k: Seq<char>|
                k != key@ ==> #[trigger] obj_view(final(self).objects@, k) == obj_view(
                    old(self).objects@,
                    k,
                ),
    {
        let obj = StoredObject {
            key: key.clone(),
            content_type: content_type.clone(),
            data: copy_vec(data),
        };
        match self.find_object(key) {
            Some(i) => {
                self.objects.set(i, obj);
                proof {
                    lemma_store_update(old(self).objects@, self.objects@, i as int, key@);
                }
            },
            None => {
                self.objects.push(obj);
                proof {
                    lemma_store_push(old(self).objects@, self.objects@, key@);
                }
            },
        }
    }

    /// Delete the object at a key; absence is not an error.
    pub fn delete(&mut self, key: &String)
        requires
            objects_wf(*old(self)),
        ensures
            objects_wf(*final(self)),
            final(self).sessions@ == old(self).sessions@,
            obj_view(final(self).objects@, key@) is None,
            forall|k: Seq<char>|
                k != key@ ==> #[trigger] obj_view(final(self).objects@, k) == obj_view(
                    old(self).objects@,
                    k,
                ),
    {
        match self.find_object(key) {
            Some(i) => {
                self.objects.remove(i);
                proof {
                    lemma_store_remove(old(self).objects@, self.objects@, i as int, key@);
                }
            },
            None => {
                proof {
                    lemma_object_index(self.objects@, key@);
                }
            },
        }
    }
}

/// Errors of the multipart protocol, as the adapter reports them.
#[derive(Clone, Copy, Debug, PartialEq, Eq, Structural)]
pub enum MultipartError {
    UnknownUpload,
    PartMismatch,
}

/// The bytes of an echoed part list, concatenated in list order, each part
/// taken from the session's stored parts.
pub open spec fn concat_echoed(parts: Seq<Part>, stored: Seq<UploadPart>) -> Seq<u8>
    decreases parts.len(),
{
    if parts.len() == 0 {
        Seq::empty()
    } else {
        concat_echoed(parts.drop_last(), stored) + (match part_data(
            stored,
            parts.last().part_number,
        ) {
            Some(p) => p.1,
            None => Seq::empty(),
        })
    }
}

/// Whether every echoed part names a stored part with the same etag.
pub open spec fn parts_match(parts: Seq<Part>, stored: Seq<UploadPart>) -> bool {
    forall|i: int|
        0 <= i < parts.len() ==> (match part_data(stored, (#[trigger] parts[i]).part_number) {
            Some(p) => p.0 == parts[i].etag@,
            None => false,
        })
}

/// The filter a prefix deletion applies to objects: keep keys outside the
/// prefix.
pub open spec fn object_survives(prefix: Seq<char>) -> spec_fn(StoredObject) -> bool {
    |o: StoredObject| !starts_with(o.key@, prefix)
}

/// The filter a prefix deletion applies to sessions.
pub open spec fn session_survives(prefix: Seq<char>) -> spec_fn(MultipartSession) -> bool {
    |s: MultipartSession| !starts_with(s.key@, prefix)
}

/// The keys under a prefix, in store order.
pub open spec fn keys_with_prefix(objs: Seq<StoredObject>, prefix: Seq<char>) -> Seq<Seq<char>> {
    objs.map_values(|o: StoredObject| o.key@).filter(|k: Seq<char>| starts_with(k, prefix))
}

/// An object at a distinct-keyed position is the one its key finds.
proof fn lemma_object_index_unique(objs: Seq<StoredObject>, i: int)
    requires
        object_keys_distinct(objs),
        0 <= i < objs.len(),
    ensures
        object_index(objs, objs[i].key@) == i,
        has_object(objs, objs[i].key@),
{
    lemma_object_index(objs, objs[i].key@);
    let r = object_index(objs, objs[i].key@);
    assert(has_object(objs, objs[i].key@));
    if r != i {
        assert(objs[r].key@ == objs[i].key@);
        assert(false);
    }
}

/// A session at a distinct position is the one its pair finds.
proof fn lemma_session_index_unique(sess: Seq<MultipartSession>, i: int)
    requires
        sessions_distinct(sess),
        0 <= i < sess.len(),
    ensures
        session_index(sess, sess[i].key@, sess[i].upload_id@) == i,
        has_session(sess, sess[i].key@, sess[i].upload_id@),
{
    lemma_session_index(sess, sess[i].key@, sess[i].upload_id@);
    let r = session_index(sess, sess[i].key@, sess[i].upload_id@);
    assert(has_session(sess, sess[i].key@, sess[i].upload_id@));
    if r != i {
        assert(sess[r].key@ == sess[i].key@ && sess[r].upload_id@ == sess[i].upload_id@);
        assert(false);
    }
}

/// After replacing the object at `idx` (whose key is `key`) with a new
/// object carrying the same key, lookups behave pointwise.
proof fn lemma_store_update(
    pre: Seq<StoredObject>,
    post: Seq<StoredObject>,
    idx: int,
    key: Seq<char>,
)
    requires
        object_keys_distinct(pre),
        0 <= idx < pre.len(),
        pre[idx].key@ == key,
        post.len() == pre.len(),
        post[idx].key@ == key,
        forall|i: int| 0 <= i < pre.len() && i != idx ==> #[trigger] post[i] == pre[i],
    ensures
        object_keys_distinct(post),
        obj_view(post, key) == Some((post[idx].content_type@, post[idx].data@)),
        forall|k: Seq<char>| k != key ==> #[trigger] obj_view(post, k) == obj_view(pre, k),
{
    assert forall|i: int, j: int| 0 <= i < j < post.len() implies (#[trigger] post[i]).key@ != (
    #[trigger] post[j]).key@ by {
        assert(post[i].key@ == pre[i].key@);
        assert(post[j].key@ == pre[j].key@);
    }
    lemma_object_index(pre, key);
    lemma_object_index(post, key);
    assert(object_index(post, key) == idx) by {
        assert(has_object(post, key));
        let r = object_index(post, key);
        if r != idx {
            assert(post[r].key@ == key);
            assert(pre[r].key@ == key);
        }
    }
    assert forall|k: Seq<char>| k != key implies #[trigger] obj_view(post, k) == obj_view(
        pre,
        k,
    ) by {
        lemma_object_index(pre, k);
        lemma_object_index(post, k);
        if has_object(pre, k) {
            let r = object_index(pre, k);
            assert(r != idx);
            assert(post[r].key@ == k);
            assert(has_object(post, k));
        }
        if has_object(post, k) {
            let r = object_index(post, k);
            assert(r != idx);
            assert(pre[r].key@ == k);
            assert(has_object(pre, k));
        }
        if has_object(pre, k) {
            let a = object_index(pre, k);
            let b = object_index(post, k);
            assert(post[b].key@ == k && pre[a].key@ == k);
            assert(pre[b].key@ == k);
            if a != b {
                assert(pre[a].key@ == pre[b].key@);
                assert(false);
            }
            assert(post[b] == pre[a]);
        }
    }
}

/// After appending an object with a fresh key, lookups behave pointwise.
proof fn lemma_store_push(pre: Seq<StoredObject>, post: Seq<StoredObject>, key: Seq<char>)
    requires
        object_keys_distinct(pre),
        !has_object(pre, key),
        post.len() == pre.len() + 1,
        post[post.len() - 1].key@ == key,
        forall|i: int| 0 <= i < pre.len() ==> #[trigger] post[i] == pre[i],
    ensures
        object_keys_distinct(post),
        obj_view(post, key) == Some(
            (post[post.len() - 1].content_type@, post[post.len() - 1].data@),
        ),
        forall|k: Seq<char>| k != key ==> #[trigger] obj_view(post, k) == obj_view(pre, k),
{
    let last = post.len() - 1;
    assert forall|i: int, j: int| 0 <= i < j < post.len() implies (#[trigger] post[i]).key@ != (
    #[trigger] post[j]).key@ by {
        if j < last {
            assert(post[i] == pre[i] && post[j] == pre[j]);
        } else {
            assert(post[i] == pre[i]);
            if pre[i].key@ == key {
                assert(has_object(pre, key));
            }
        }
    }
    lemma_object_index(post, key);
    assert(has_object(post, key));
    assert(object_index(post, key) == last) by {
        let r = object_index(post, key);
        if r < last {
            assert(post[r] == pre[r]);
            assert(has_object(pre, key));
        }
    }
    assert forall|k: Seq<char>| k != key implies #[trigger] obj_view(post, k) == obj_view(
        pre,
        k,
    ) by {
        lemma_object_index(pre, k);
        lemma_object_index(post, k);
        if has_object(pre, k) {
            let a = object_index(pre, k);
            assert(post[a].key@ == k);
            assert(has_object(post, k));
        }
        if has_object(post, k) {
            let b = object_index(post, k);
            assert(b != last);
            assert(pre[b].key@ == k);
            assert(has_object(pre, k));
        }
        if has_object(pre, k) {
            let a = object_index(pre, k);
            let b = object_index(post, k);
            assert(b != last);
            assert(pre[b].key@ == k);
            if a != b {
                assert(pre[a].key@ == pre[b].key@);
                assert(false);
            }
            assert(post[b] == pre[a]);
        }
    }
}

/// After removing the object at `idx` (whose key is `key`), lookups behave
/// pointwise.
proof fn lemma_store_remove(
    pre: Seq<StoredObject>,
    post: Seq<StoredObject>,
    idx: int,
    key: Seq<char>,
)
    requires
        object_keys_distinct(pre),
        0 <= idx < pre.len(),
        pre[idx].key@ == key,
        post.len() == pre.len() - 1,
        forall|i: int| 0 <= i < idx ==> #[trigger] post[i] == pre[i],
        forall|i: int| idx <= i < post.len() ==> #[trigger] post[i] == pre[i + 1],
    ensures
        object_keys_distinct(post),
        obj_view(post, key) is None,
        forall|k: Seq<char>| k != key ==> #[trigger] obj_view(post, k) == obj_view(pre, k),
{
    assert forall|i: int, j: int| 0 <= i < j < post.len() implies (#[trigger] post[i]).key@ != (
    #[trigger] post[j]).key@ by {
        let pi = if i < idx {
            i
        } else {
            i + 1
        };
        let pj = if j < idx {
            j
        } else {
            j + 1
        };
        assert(post[i] == pre[pi]);
        assert(post[j] == pre[pj]);
    }
    lemma_object_index(post, key);
    assert(!has_object(post, key)) by {
        if has_object(post, key) {
            let w = choose|i: int| 0 <= i < post.len() && (#[trigger] post[i]).key@ == key;
            let pw = if w < idx {
                w
            } else {
                w + 1
            };
            assert(post[w] == pre[pw]);
            assert(pw != idx);
            assert(pre[pw].key@ == pre[idx].key@);
        }
    }
    assert forall|k: Seq<char>| k != key implies #[trigger] obj_view(post, k) == obj_view(
        pre,
        k,
    ) by {
        lemma_object_index(pre, k);
        lemma_object_index(post, k);
        if has_object(pre, k) {
            let a = object_index(pre, k);
            assert(a != idx);
            let w = if a < idx {
                a
            } else {
                a - 1
            };
            assert(post[w] == pre[a]);
            assert(has_object(post, k));
        }
        if has_object(post, k) {
            let b = object_index(post, k);
            let pb = if b < idx {
                b
            } else {
                b + 1
            };
            assert(post[b] == pre[pb]);
            assert(has_object(pre, k));
        }
        if has_object(pre, k) {
            let a = object_index(pre, k);
            let b = object_index(post, k);
            let pb = if b < idx {
                b
            } else {
                b + 1
            };
            assert(post[b] == pre[pb]);
            if a != pb {
                assert(pre[a].key@ == pre[pb].key@);
                assert(false);
            }
        }
    }
}

/// After replacing the session at `idx` (whose pair is `(key, uid)`) with a
/// session carrying the same pair, lookups behave pointwise.
proof fn lemma_sessions_update(
    pre: Seq<MultipartSession>,
    post: Seq<MultipartSession>,
    idx: int,
    key: Seq<char>,
    uid: Seq<char>,
)
    requires
        sessions_distinct(pre),
        0 <= idx < pre.len(),
        pre[idx].key@ == key && pre[idx].upload_id@ == uid,
        post.len() == pre.len(),
        post[idx].key@ == key && post[idx].upload_id@ == uid,
        forall|i: int| 0 <= i < pre.len() && i != idx ==> #[trigger] post[i] == pre[i],
    ensures
        sessions_distinct(post),
        session_view(post, key, uid) == Some(post[idx]),
        forall|k: Seq<char>, u: Seq<char>|
            !(k == key && u == uid) ==> #[trigger] session_view(post, k, u) == session_view(
                pre,
                k,
                u,
            ),
{
    assert forall|i: int, j: int| 0 <= i < j < post.len() implies !((#[trigger] post[i]).key@ == (
    #[trigger] post[j]).key@ && post[i].upload_id@ == post[j].upload_id@) by {
        assert(post[i].key@ == pre[i].key@ && post[i].upload_id@ == pre[i].upload_id@);
        assert(post[j].key@ == pre[j].key@ && post[j].upload_id@ == pre[j].upload_id@);
    }
    lemma_session_index_unique(post, idx);
    assert forall|k: Seq<char>, u: Seq<char>| !(k == key && u == uid) implies #[trigger] session_view(
        post,
        k,
        u,
    ) == session_view(pre, k, u) by {
        lemma_session_index(pre, k, u);
        lemma_session_index(post, k, u);
        if has_session(pre, k, u) {
            let a = session_index(pre, k, u);
            assert(a != idx);
            assert(post[a] == pre[a]);
            lemma_session_index_unique(post, a);
        }
        if has_session(post, k, u) {
            let b = session_index(post, k, u);
            assert(b != idx);
            assert(pre[b] == post[b]);
            lemma_session_index_unique(pre, b);
        }
    }
}

/// After appending a session with a fresh pair, lookups behave pointwise.
proof fn lemma_sessions_push(
    pre: Seq<MultipartSession>,
    post: Seq<MultipartSession>,
    key: Seq<char>,
    uid: Seq<char>,
)
    requires
        sessions_distinct(pre),
        !has_session(pre, key, uid),
        post.len() == pre.len() + 1,
        post[post.len() - 1].key@ == key && post[post.len() - 1].upload_id@ == uid,
        forall|i: int| 0 <= i < pre.len() ==> #[trigger] post[i] == pre[i],
    ensures
        sessions_distinct(post),
        session_view(post, key, uid) == Some(post[post.len() - 1]),
        forall|k: Seq<char>, u: Seq<char>|
            !(k == key && u == uid) ==> #[trigger] session_view(post, k, u) == session_view(
                pre,
                k,
                u,
            ),
{
    let last = post.len() - 1;
    assert forall|i: int, j: int| 0 <= i < j < post.len() implies !((#[trigger] post[i]).key@ == (
    #[trigger] post[j]).key@ && post[i].upload_id@ == post[j].upload_id@) by {
        if j < last {
            assert(post[i] == pre[i] && post[j] == pre[j]);
        } else {
            assert(post[i] == pre[i]);
            if pre[i].key@ == key && pre[i].upload_id@ == uid {
                assert(has_session(pre, key, uid));
            }
        }
    }
    lemma_session_index_unique(post, last);
    assert forall|k: Seq<char>, u: Seq<char>| !(k == key && u == uid) implies #[trigger] session_view(
        post,
        k,
        u,
    ) == session_view(pre, k, u) by {
        lemma_session_index(pre, k, u);
        lemma_session_index(post, k, u);
        if has_session(pre, k, u) {
            let a = session_index(pre, k, u);
            assert(post[a] == pre[a]);
            lemma_session_index_unique(post, a);
        }
        if has_session(post, k, u) {
            let b = session_index(post, k, u);
            assert(b != last);
            assert(pre[b] == post[b]);
            lemma_session_index_unique(pre, b);
        }
    }
}

/// After removing the session at `idx` (whose pair is `(key, uid)`),
/// lookups behave pointwise.
proof fn lemma_sessions_remove(
    pre: Seq<MultipartSession>,
    post: Seq<MultipartSession>,
    idx: int,
    key: Seq<char>,
    uid: Seq<char>,
)
    requires
        sessions_distinct(pre),
        0 <= idx < pre.len(),
        pre[idx].key@ == key && pre[idx].upload_id@ == uid,
        post.len() == pre.len() - 1,
        forall|i: int| 0 <= i < idx ==> #[trigger] post[i] == pre[i],
        forall|i: int| idx <= i < post.len() ==> #[trigger] post[i] == pre[i + 1],
    ensures
        sessions_distinct(post),
        session_view(post, key, uid) is None,
        forall|k: Seq<char>, u: Seq<char>|
            !(k == key && u == uid) ==> #[trigger] session_view(post, k, u) == session_view(
                pre,
                k,
                u,
            ),
{
    assert forall|i: int, j: int| 0 <= i < j < post.len() implies !((#[trigger] post[i]).key@ == (
    #[trigger] post[j]).key@ && post[i].upload_id@ == post[j].upload_id@) by {
        let pi = if i < idx {
            i
        } else {
            i + 1
        };
        let pj = if j < idx {
            j
        } else {
            j + 1
        };
        assert(post[i] == pre[pi]);
        assert(post[j] == pre[pj]);
    }
    lemma_session_index(post, key, uid);
    assert(!has_session(post, key, uid)) by {
        if has_session(post, key, uid) {
            let w = choose|i: int|
                0 <= i < post.len() && (#[trigger] post[i]).key@ == key && post[i].upload_id@
                    == uid;
            let pw = if w < idx {
                w
            } else {
                w + 1
            };
            assert(post[w] == pre[pw]);
            assert(pw != idx);
        }
    }
    assert forall|k: Seq<char>, u: Seq<char>| !(k == key && u == uid) implies #[trigger] session_view(
        post,
        k,
        u,
    ) == session_view(pre, k, u) by {
        lemma_session_index(pre, k, u);
        lemma_session_index(post, k, u);
        if has_session(pre, k, u) {
            let a = session_index(pre, k, u);
            assert(a != idx);
            let w = if a < idx {
                a
            } else {
                a - 1
            };
            assert(post[w] == pre[a]);
            lemma_session_index_unique(post, w);
        }
        if has_session(post, k, u) {
            let b = session_index(post, k, u);
            let pb = if b < idx {
                b
            } else {
                b + 1
            };
            assert(post[b] == pre[pb]);
            lemma_session_index_unique(pre, pb);
        }
    }
}

/// A part at a distinct-numbered position is the one its number finds.
proof fn lemma_part_unique(parts: Seq<UploadPart>, i: int)
    requires
        parts_distinct(parts),
        0 <= i < parts.len(),
    ensures
        part_data(parts, parts[i].part_number) == Some((parts[i].etag@, parts[i].data@)),
{
    let pn = parts[i].part_number;
    assert(exists|k: int| 0 <= k < parts.len() && (#[trigger] parts[k]).part_number == pn);
    let k = choose|k: int| 0 <= k < parts.len() && (#[trigger] parts[k]).part_number == pn;
    if k != i {
        assert(parts[k].part_number == parts[i].part_number);
        assert(false);
    }
}

/// After replacing every part numbered `pn` (there is exactly one) with
/// `np`, lookups by part number behave pointwise.
proof fn lemma_parts_replaced(
    pre: Seq<UploadPart>,
    post: Seq<UploadPart>,
    pn: u32,
    np: UploadPart,
)
    requires
        parts_distinct(pre),
        post.len() == pre.len(),
        np.part_number == pn,
        forall|k: int|
            0 <= k < pre.len() ==> #[trigger] post[k] == (if pre[k].part_number == pn {
                np
            } else {
                pre[k]
            }),
        exists|k: int| 0 <= k < pre.len() && (#[trigger] pre[k]).part_number == pn,
    ensures
        parts_distinct(post),
        part_data(post, pn) == Some((np.etag@, np.data@)),
        forall|q: u32| q != pn ==> #[trigger] part_data(post, q) == part_data(pre, q),
{
    assert forall|i: int| 0 <= i < post.len() implies (#[trigger] post[i]).part_number
        == pre[i].part_number by {}
    assert forall|i: int, j: int| 0 <= i < j < post.len() implies (
    #[trigger] post[i]).part_number != (#[trigger] post[j]).part_number by {
        assert(pre[i].part_number != pre[j].part_number);
    }
    let w = choose|k: int| 0 <= k < pre.len() && (#[trigger] pre[k]).part_number == pn;
    assert(post[w] == np);
    lemma_part_unique(post, w);
    assert forall|q: u32| q != pn implies #[trigger] part_data(post, q) == part_data(pre, q) by {
        if exists|k: int| 0 <= k < pre.len() && (#[trigger] pre[k]).part_number == q {
            let a = choose|k: int| 0 <= k < pre.len() && (#[trigger] pre[k]).part_number == q;
            lemma_part_unique(pre, a);
            assert(post[a] == pre[a]);
            lemma_part_unique(post, a);
        } else {
            if exists|k: int| 0 <= k < post.len() && (#[trigger] post[k]).part_number == q {
                let b = choose|k: int| 0 <= k < post.len() && (#[trigger] post[k]).part_number == q;
                assert(pre[b].part_number == q);
            }
        }
    }
}

/// After appending a part with a fresh number, lookups by part number
/// behave pointwise.
proof fn lemma_parts_appended(pre: Seq<UploadPart>, post: Seq<UploadPart>, np: UploadPart)
    requires
        parts_distinct(pre),
        !(exists|k: int| 0 <= k < pre.len() && (#[trigger] pre[k]).part_number == np.part_number),
        post == pre.push(np),
    ensures
        parts_distinct(post),
        part_data(post, np.part_number) == Some((np.etag@, np.data@)),
        forall|q: u32|
            q != np.part_number ==> #[trigger] part_data(post, q) == part_data(pre, q),
{
    let last = post.len() - 1;
    assert forall|i: int, j: int| 0 <= i < j < post.len() implies (
    #[trigger] post[i]).part_number != (#[trigger] post[j]).part_number by {
        if j < last {
            assert(post[i] == pre[i] && post[j] == pre[j]);
        } else {
            assert(post[i] == pre[i]);
            if pre[i].part_number == np.part_number {
                assert(exists|k: int|
                    0 <= k < pre.len() && (#[trigger] pre[k]).part_number == np.part_number);
            }
        }
    }
    assert(post[last] == np);
    lemma_part_unique(post, last);
    assert forall|q: u32| q != np.part_number implies #[trigger] part_data(post, q) == part_data(
        pre,
        q,
    ) by {
        if exists|k: int| 0 <= k < pre.len() && (#[trigger] pre[k]).part_number == q {
            let a = choose|k: int| 0 <= k < pre.len() && (#[trigger] pre[k]).part_number == q;
            lemma_part_unique(pre, a);
            assert(post[a] == pre[a]);
            lemma_part_unique(post, a);
        } else {
            if exists|k: int| 0 <= k < post.len() && (#[trigger] post[k]).part_number == q {
                let b = choose|k: int| 0 <= k < post.len() && (#[trigger] post[k]).part_number == q;
                if b < last {
                    assert(pre[b].part_number == q);
                }
            }
        }
    }
}

/// Append the bytes of `src` to `dst`.
pub fn append_bytes(dst: &mut Vec<u8>, src: &Vec<u8>)
    ensures
        final(dst)@ == old(dst)@ + src@,
{
    let n = src.len();
    let mut i: usize = 0;
    while i < n
        invariant
            n == src@.len(),
            i <= n,
            dst@ == old(dst)@ + src@.take(i as int),
        decreases n - i,
    {
        dst.push(src[i]);
        proof {
            assert(old(dst)@ + src@.take(i + 1) =~= (old(dst)@ + src@.take(i as int)).push(
                src@[i as int]));
        }
        i = i + 1;
    }
    proof {
        assert(src@.take(n as int) =~= src@);
        assert(dst@ =~= old(dst)@ + src@);
    }
}

/// Find the index of the part with a given number.
fn find_part(parts: &Vec<UploadPart>, pn: u32) -> (r: Option<usize>)
    ensures
        r matches Some(i) ==> i < parts@.len() && parts@[i as int].part_number == pn,
        r is Some <==> exists|k: int|
            0 <= k < parts@.len() && (#[trigger] parts@[k]).part_number == pn,
{
    let n = parts.len();
    let mut i: usize = 0;
    while i < n
        invariant
            n == parts@.len(),
            i <= n,
            forall|k: int| 0 <= k < i ==> (#[trigger] parts@[k]).part_number != pn,
        decreases n - i,
    {
        if parts[i].part_number == pn {
            return Some(i);
        }
        i = i + 1;
    }
    None
}

impl ObjectStore {
    /// Find the index of the session with the given key and upload id.
    fn find_session(&self, key: &String, upload_id: &String) -> (r: Option<usize>)
        requires
            objects_wf(*self),
        ensures
            r matches Some(i) ==> i < self.sessions@.len() && self.sessions@[i as int].key@ == key@
                && self.sessions@[i as int].upload_id@ == upload_id@ && session_index(
                self.sessions@,
                key@,
                upload_id@,
            ) == i as int,
            r is Some <==> has_session(self.sessions@, key@, upload_id@),
    {
        let n = self.sessions.len();
        let mut i: usize = 0;
        while i < n
            invariant
                n == self.sessions@.len(),
                sessions_distinct(self.sessions@),
                i <= n,
                forall|k: int|
                    0 <= k < i ==> !((#[trigger] self.sessions@[k]).key@ == key@
                        && self.sessions@[k].upload_id@ == upload_id@),
            decreases n - i,
        {
            let ok = self.sessions[i].key == *key;
            let ou = self.sessions[i].upload_id == *upload_id;
            if ok && ou {
                proof {
                    lemma_session_index_unique(self.sessions@, i as int);
                }
                return Some(i);
            }
            i = i + 1;
        }
        proof {
            lemma_session_index(self.sessions@, key@, upload_id@);
        }
        None
    }

    /// Open a multipart upload for a key under a given upload id. Reusing an
    /// id the store already carries for the key starts the session over.
    pub fn initiate_multipart(&mut self, key: &String, content_type: &String, upload_id: &String)
        requires
            objects_wf(*old(self)),
        ensures
            objects_wf(*final(self)),
            final(self).objects@ == old(self).objects@,
            session_view(final(self).sessions@, key@, upload_id@) matches Some(s) && s.key@ == key@
                && s.upload_id@ == upload_id@ && s.content_type@ == content_type@ && s.parts@.len()
                == 0,
            forall|k: Seq<char>, u: Seq<char>|
                !(k == key@ && u == upload_id@) ==> #[trigger] session_view(
                    final(self).sessions@,
                    k,
                    u,
                ) == session_view(old(self).sessions@, k, u),
    {
        let fresh = MultipartSession {
            key: key.clone(),
            upload_id: upload_id.clone(),
            content_type: content_type.clone(),
            parts: Vec::new(),
        };
        match self.find_session(key, upload_id) {
            Some(i) => {
                self.sessions.set(i, fresh);
                proof {
                    lemma_sessions_update(
                        old(self).sessions@,
                        self.sessions@,
                        i as int,
                        key@,
                        upload_id@,
                    );
                }
            },
            None => {
                self.sessions.push(fresh);
                proof {
                    lemma_sessions_push(old(self).sessions@, self.sessions@, key@, upload_id@);
                }
            },
        }
    }

    /// Store one part of an open session, replacing a part with the same
    /// number. Returns false where no such session is open.
    pub fn put_part(
        &mut self,
        key: &String,
        upload_id: &String,
        part_number: u32,
        data: &Vec<u8>,
        etag: &String,
    ) -> (ok: bool)
        requires
            objects_wf(*old(self)),
        ensures
            objects_wf(*final(self)),
            final(self).objects@ == old(self).objects@,
            ok == has_session(old(self).sessions@, key@, upload_id@),
            !ok ==> final(self).sessions@ == old(self).sessions@,
            ok ==> (session_view(final(self).sessions@, key@, upload_id@) matches Some(s) && {
                let prev = session_at(old(self).sessions@, key@, upload_id@);
                &&& s.key@ == key@
                &&& s.upload_id@ == upload_id@
                &&& s.content_type@ == prev.content_type@
                &&& part_data(s.parts@, part_number) == Some((etag@, data@))
                &&& forall|q: u32|
                    q != part_number ==> #[trigger] part_data(s.parts@, q) == part_data(
                        prev.parts@,
                        q,
                    )
            }),
            forall|k: Seq<char>, u: Seq<char>|
                !(k == key@ && u == upload_id@) ==> #[trigger] session_view(
                    final(self).sessions@,
                    k,
                    u,
                ) == session_view(old(self).sessions@, k, u),
    {
        match self.find_session(key, upload_id) {
            None => false,
            Some(si) => {
                let mut sess = self.sessions.remove(si);
                proof {
                    assert(sess == old(self).sessions@[si as int]);
                }
                let newp = UploadPart { part_number, etag: etag.clone(), data: copy_vec(data) };
                let ghost pp = old(self).sessions@[si as int].parts@;
                let ghost np = newp;
                match find_part(&sess.parts, part_number) {
                    Some(pi) => {
                        sess.parts.set(pi, newp);
                        proof {
                            assert(parts_distinct(pp));
                            assert forall|k: int| 0 <= k < pp.len() implies #[trigger] sess.parts@[k]
                                == (if pp[k].part_number == part_number {
                                np
                            } else {
                                pp[k]
                            }) by {
                                if pp[k].part_number == part_number && k != pi as int {
                                    assert(pp[k].part_number == pp[pi as int].part_number);
                                }
                            }
                            lemma_parts_replaced(pp, sess.parts@, part_number, np);
                        }
                    },
                    None => {
                        sess.parts.push(newp);
                        proof {
                            assert(parts_distinct(pp));
                            lemma_parts_appended(pp, sess.parts@, np);
                        }
                    },
                }
                let ghost sv = sess;
                self.sessions.insert(si, sess);
                proof {
                    let prev = old(self).sessions@;
                    let mid = prev.remove(si as int);
                    prev.remove_ensures(si as int);
                    mid.insert_ensures(si as int, sv);
                    assert(self.sessions@[si as int] == sv);
                    assert forall|k: int|
                        0 <= k < prev.len() && k != si as int implies #[trigger] self.sessions@[k]
                        == prev[k] by {
                        if k < si as int {
                            assert(self.sessions@[k] == mid[k]);
                        } else {
                            assert(self.sessions@[k] == mid[k - 1]);
                        }
                    }
                    lemma_sessions_update(prev, self.sessions@, si as int, key@, upload_id@);
                    assert forall|a: int| 0 <= a < self.sessions@.len() implies parts_distinct(
                        (#[trigger] self.sessions@[a]).parts@,
                    ) by {
                        if a != si as int {
                            assert(self.sessions@[a] == old(self).sessions@[a]);
                        }
                    }
                }
                true
            },
        }
    }

    /// Finish a multipart upload: every echoed part must name a stored part
    /// with its etag; the object then holds the echoed parts' bytes in list
    /// order and the session is gone.
    pub fn complete_multipart(&mut self, key: &String, upload_id: &String, parts: &Vec<Part>) -> (r:
        Result<(), MultipartError>)
        requires
            objects_wf(*old(self)),
        ensures
            objects_wf(*final(self)),
            !has_session(old(self).sessions@, key@, upload_id@) ==> r
                == Result::<(), MultipartError>::Err(MultipartError::UnknownUpload) && *final(self)
                == *old(self),
            has_session(old(self).sessions@, key@, upload_id@) && !parts_match(
                parts@,
                session_at(old(self).sessions@, key@, upload_id@).parts@,
            ) ==> r == Result::<(), MultipartError>::Err(MultipartError::PartMismatch)
                && *final(self) == *old(self),
            has_session(old(self).sessions@, key@, upload_id@) && parts_match(
                parts@,
                session_at(old(self).sessions@, key@, upload_id@).parts@,
            ) ==> {
                let sess = session_at(old(self).sessions@, key@, upload_id@);
                &&& r is Ok
                &&& obj_view(final(self).objects@, key@) == Some(
                    (sess.content_type@, concat_echoed(parts@, sess.parts@)),
                )
                &&& forall|k: Seq<char>|
                    k != key@ ==> #[trigger] obj_view(final(self).objects@, k) == obj_view(
                        old(self).objects@,
                        k,
                    )
                &&& session_view(final(self).sessions@, key@, upload_id@) is None
                &&& forall|k: Seq<char>, u: Seq<char>|
                    !(k == key@ && u == upload_id@) ==> #[trigger] session_view(
                        final(self).sessions@,
                        k,
                        u,
                    ) == session_view(old(self).sessions@, k, u)
            },
    {
        match self.find_session(key, upload_id) {
            None => Err(MultipartError::UnknownUpload),
            Some(si) => {
                let n = parts.len();
                let mut data: Vec<u8> = Vec::new();
                let mut i: usize = 0;
                proof {
                    assert(concat_echoed(parts@.take(0), self.sessions@[si as int].parts@)
                        =~= Seq::<u8>::empty());
                }
                while i < n
                    invariant
                        si < self.sessions@.len(),
                        has_session(old(self).sessions@, key@, upload_id@),
                        session_index(old(self).sessions@, key@, upload_id@) == si as int,
                        n == parts@.len(),
                        *self == *old(self),
                        objects_wf(*self),
                        i <= n,
                        parts_match(parts@.take(i as int), self.sessions@[si as int].parts@),
                        data@ == concat_echoed(
                            parts@.take(i as int),
                            self.sessions@[si as int].parts@,
                        ),
                    decreases n - i,
                {
                    let stored = &self.sessions[si].parts;
                    match find_part(stored, parts[i].part_number) {
                        None => {
                            proof {
                                assert(part_data(
                                    self.sessions@[si as int].parts@,
                                    parts@[i as int].part_number,
                                ) is None);
                            }
                            return Err(MultipartError::PartMismatch);
                        },
                        Some(pi) => {
                            proof {
                                lemma_part_unique(self.sessions@[si as int].parts@, pi as int);
                            }
                            let etag_ok = stored[pi].etag == parts[i].etag;
                            if !etag_ok {
                                return Err(MultipartError::PartMismatch);
                            }
                            append_bytes(&mut data, &self.sessions[si].parts[pi].data);
                            proof {
                                let pp = self.sessions@[si as int].parts@;
                                assert(parts@.take(i + 1).drop_last() =~= parts@.take(i as int));
                                assert(parts@.take(i + 1).last() == parts@[i as int]);
                                assert forall|k: int| 0 <= k < i + 1 implies (match part_data(
                                    pp,
                                    (#[trigger] parts@.take(i + 1)[k]).part_number,
                                ) {
                                    Some(p) => p.0 == parts@.take(i + 1)[k].etag@,
                                    None => false,
                                }) by {
                                    if k < i {
                                        assert(parts@.take(i as int)[k] == parts@.take(i + 1)[k]);
                                    }
                                }
                            }
                            i = i + 1;
                        },
                    }
                }
                proof {
                    assert(parts@.take(n as int) =~= parts@);
                }
                let ct = self.sessions[si].content_type.clone();
                self.put(key, &ct, &data);
                proof {
                    assert(self.sessions@ == old(self).sessions@);
                }
                self.sessions.remove(si);
                proof {
                    lemma_sessions_remove(
                        old(self).sessions@,
                        self.sessions@,
                        si as int,
                        key@,
                        upload_id@,
                    );
                }
                Ok(())
            },
        }
    }

    /// Delete every object and session under a key prefix.
    pub fn delete_prefix(&mut self, prefix: &String)
        requires
            objects_wf(*old(self)),
        ensures
            objects_wf(*final(self)),
            forall|k: Seq<char>|
                starts_with(k, prefix@) ==> #[trigger] obj_view(final(self).objects@, k) is None,
            forall|k: Seq<char>|
                !starts_with(k, prefix@) ==> #[trigger] obj_view(final(self).objects@, k)
                    == obj_view(old(self).objects@, k),
            forall|k: Seq<char>, u: Seq<char>|
                starts_with(k, prefix@) ==> #[trigger] session_view(
                    final(self).sessions@,
                    k,
                    u,
                ) is None,
            forall|k: Seq<char>, u: Seq<char>|
                !starts_with(k, prefix@) ==> #[trigger] session_view(final(self).sessions@, k, u)
                    == session_view(old(self).sessions@, k, u),
    {
        let n = self.objects.len();
        let mut kept: Vec<StoredObject> = Vec::new();
        let mut i: usize = 0;
        while i < n
            invariant
                n == old(self).objects@.len(),
                self.objects@ == old(self).objects@.skip(i as int),
                self.sessions@ == old(self).sessions@,
                objects_wf(*old(self)),
                i <= n,
                object_keys_distinct(kept@),
                forall|k: Seq<char>|
                    #![trigger obj_view(kept@, k)]
                    obj_view(kept@, k) == (if starts_with(k, prefix@) {
                        Option::<(Seq<char>, Seq<u8>)>::None
                    } else {
                        obj_view(old(self).objects@.take(i as int), k)
                    }),
            decreases n - i,
        {
            let o = self.objects.remove(0);
            proof {
                assert(o == old(self).objects@[i as int]) by {
                    assert(old(self).objects@.skip(i as int)[0] == old(self).objects@[i as int]);
                }
                assert(self.objects@ =~= old(self).objects@.skip(i + 1)) by {
                    assert(old(self).objects@.skip(i as int).remove(0) =~= old(self).objects@.skip(
                        i + 1,
                    ));
                }
                let pre = old(self).objects@;
                let okey = pre[i as int].key@;
                assert(!has_object(pre.take(i as int), okey)) by {
                    if has_object(pre.take(i as int), okey) {
                        let w = choose|w: int|
                            0 <= w < pre.take(i as int).len() && (#[trigger] pre.take(
                                i as int,
                            )[w]).key@ == okey;
                        assert(pre.take(i as int)[w] == pre[w]);
                    }
                }
                assert(pre.take(i + 1)[i as int] == pre[i as int]);
                assert forall|z: int| 0 <= z < i implies #[trigger] pre.take(i + 1)[z] == pre.take(
                    i as int,
                )[z] by {}
                lemma_store_push(pre.take(i as int), pre.take(i + 1), okey);
            }
            let under = str_starts_with(o.key.as_str(), prefix.as_str());
            if !under {
                let ghost kept0 = kept@;
                kept.push(o);
                proof {
                    let okey = old(self).objects@[i as int].key@;
                    assert(obj_view(kept0, okey) == obj_view(
                        old(self).objects@.take(i as int),
                        okey,
                    ));
                    assert(!has_object(kept0, okey));
                    lemma_store_push(kept0, kept@, okey);
                    assert forall|k: Seq<char>|
                        #![trigger obj_view(kept@, k)]
                        obj_view(kept@, k) == (if starts_with(k, prefix@) {
                            Option::<(Seq<char>, Seq<u8>)>::None
                        } else {
                            obj_view(old(self).objects@.take(i + 1), k)
                        }) by {
                        if k != okey {
                            assert(obj_view(kept@, k) == obj_view(kept0, k));
                            assert(obj_view(
                                old(self).objects@.take(i + 1),
                                k,
                            ) == obj_view(old(self).objects@.take(i as int), k));
                        }
                    }
                }
            } else {
                proof {
                    let okey = old(self).objects@[i as int].key@;
                    assert forall|k: Seq<char>|
                        #![trigger obj_view(kept@, k)]
                        obj_view(kept@, k) == (if starts_with(k, prefix@) {
                            Option::<(Seq<char>, Seq<u8>)>::None
                        } else {
                            obj_view(old(self).objects@.take(i + 1), k)
                        }) by {
                        if k != okey {
                            assert(obj_view(
                                old(self).objects@.take(i + 1),
                                k,
                            ) == obj_view(old(self).objects@.take(i as int), k));
                        }
                    }
                }
            }
            i = i + 1;
        }
        proof {
            assert(old(self).objects@.take(n as int) =~= old(self).objects@);
        }
        self.objects = kept;
        let m = self.sessions.len();
        let mut skept: Vec<MultipartSession> = Vec::new();
        let mut j: usize = 0;
        while j < m
            invariant
                m == old(self).sessions@.len(),
                self.sessions@ == old(self).sessions@.skip(j as int),
                objects_wf(*old(self)),
                object_keys_distinct(self.objects@),
                forall|k: Seq<char>|
                    #![trigger obj_view(self.objects@, k)]
                    obj_view(self.objects@, k) == (if starts_with(k, prefix@) {
                        Option::<(Seq<char>, Seq<u8>)>::None
                    } else {
                        obj_view(old(self).objects@, k)
                    }),
                j <= m,
                sessions_distinct(skept@),
                forall|a: int| 0 <= a < skept@.len() ==> parts_distinct((#[trigger] skept@[a]).parts@),
                forall|k: Seq<char>, u: Seq<char>|
                    #![trigger session_view(skept@, k, u)]
                    session_view(skept@, k, u) == (if starts_with(k, prefix@) {
                        Option::<MultipartSession>::None
                    } else {
                        session_view(old(self).sessions@.take(j as int), k, u)
                    }),
            decreases m - j,
        {
            let se = self.sessions.remove(0);
            proof {
                assert(se == old(self).sessions@[j as int]) by {
                    assert(old(self).sessions@.skip(j as int)[0] == old(self).sessions@[j as int]);
                }
                assert(self.sessions@ =~= old(self).sessions@.skip(j + 1)) by {
                    assert(old(self).sessions@.skip(j as int).remove(0) =~= old(
                        self,
                    ).sessions@.skip(j + 1));
                }
                let pre = old(self).sessions@;
                let skey = pre[j as int].key@;
                let suid = pre[j as int].upload_id@;
                assert(!has_session(pre.take(j as int), skey, suid)) by {
                    if has_session(pre.take(j as int), skey, suid) {
                        let w = choose|w: int|
                            0 <= w < pre.take(j as int).len() && (#[trigger] pre.take(
                                j as int,
                            )[w]).key@ == skey && pre.take(j as int)[w].upload_id@ == suid;
                        assert(pre.take(j as int)[w] == pre[w]);
                    }
                }
                assert(pre.take(j + 1)[j as int] == pre[j as int]);
                assert forall|z: int| 0 <= z < j implies #[trigger] pre.take(j + 1)[z] == pre.take(
                    j as int,
                )[z] by {}
                lemma_sessions_push(pre.take(j as int), pre.take(j + 1), skey, suid);
            }
            let under = str_starts_with(se.key.as_str(), prefix.as_str());
            if !under {
                let ghost skept0 = skept@;
                skept.push(se);
                proof {
                    let skey = old(self).sessions@[j as int].key@;
                    let suid = old(self).sessions@[j as int].upload_id@;
                    assert(session_view(skept0, skey, suid) == session_view(
                        old(self).sessions@.take(j as int),
                        skey,
                        suid,
                    ));
                    assert(!has_session(skept0, skey, suid));
                    lemma_sessions_push(skept0, skept@, skey, suid);
                    assert forall|k: Seq<char>, u: Seq<char>|
                        #![trigger session_view(skept@, k, u)]
                        session_view(skept@, k, u) == (if starts_with(k, prefix@) {
                            Option::<MultipartSession>::None
                        } else {
                            session_view(old(self).sessions@.take(j + 1), k, u)
                        }) by {
                        if !(k == skey && u == suid) {
                            assert(session_view(skept@, k, u) == session_view(skept0, k, u));
                            assert(session_view(
                                old(self).sessions@.take(j + 1),
                                k,
                                u,
                            ) == session_view(old(self).sessions@.take(j as int), k, u));
                        }
                    }
                    assert forall|a: int| 0 <= a < skept@.len() implies parts_distinct(
                        (#[trigger] skept@[a]).parts@,
                    ) by {
                        if a == skept@.len() - 1 {
                            assert(skept@[a] == old(self).sessions@[j as int]);
                        } else {
                            assert(skept@[a] == skept0[a]);
                        }
                    }
                }
            } else {
                proof {
                    let skey = old(self).sessions@[j as int].key@;
                    let suid = old(self).sessions@[j as int].upload_id@;
                    assert forall|k: Seq<char>, u: Seq<char>|
                        #![trigger session_view(skept@, k, u)]
                        session_view(skept@, k, u) == (if starts_with(k, prefix@) {
                            Option::<MultipartSession>::None
                        } else {
                            session_view(old(self).sessions@.take(j + 1), k, u)
                        }) by {
                        if !(k == skey && u == suid) {
                            assert(session_view(
                                old(self).sessions@.take(j + 1),
                                k,
                                u,
                            ) == session_view(old(self).sessions@.take(j as int), k, u));
                        }
                    }
                }
            }
            j = j + 1;
        }
        proof {
            assert(old(self).sessions@.take(m as int) =~= old(self).sessions@);
        }
        self.sessions = skept;
    }

    /// The keys of the objects under a prefix, in store order.
    pub fn list_prefix(&self, prefix: &String) -> (r: Vec<String>)
        ensures
            r@.map_values(|s: String| s@) == keys_with_prefix(self.objects@, prefix@),
    {
        let n = self.objects.len();
        let mut acc: Vec<String> = Vec::new();
        proof {
            assert(keys_with_prefix(self.objects@.take(0), prefix@) =~= Seq::<Seq<char>>::empty())
                by {
                assert(self.objects@.take(0).map_values(|o: StoredObject| o.key@)
                    =~= Seq::<Seq<char>>::empty());
                reveal(Seq::filter);
            }
            assert(acc@.map_values(|s: String| s@) =~= keys_with_prefix(
                self.objects@.take(0),
                prefix@,
            ));
        }
        let mut i: usize = 0;
        while i < n
            invariant
                n == self.objects@.len(),
                i <= n,
                acc@.map_values(|s: String| s@) == keys_with_prefix(
                    self.objects@.take(i as int),
                    prefix@,
                ),
            decreases n - i,
        {
            let under = str_starts_with(self.objects[i].key.as_str(), prefix.as_str());
            proof {
                let f = |o: StoredObject| o.key@;
                let p = |k: Seq<char>| starts_with(k, prefix@);
                let pre = self.objects@;
                assert(pre.take(i + 1).map_values(f) =~= pre.take(i as int).map_values(f) + seq![
                    pre[i as int].key@,
                ]);
                Seq::filter_distributes_over_add(
                    pre.take(i as int).map_values(f),
                    seq![pre[i as int].key@],
                    p,
                );
                crate::seqs::lemma_filter_singleton(pre[i as int].key@, p);
            }
            if under {
                let kc = self.objects[i].key.clone();
                acc.push(kc);
            }
            proof {
                assert(acc@.map_values(|s: String| s@) =~= keys_with_prefix(
                    self.objects@.take(i + 1),
                    prefix@,
                ));
            }
            i = i + 1;
        }
        proof {
            assert(self.objects@.take(n as int) =~= self.objects@);
        }
        acc
    }
}

} // verus!
