//! An in-memory object store realizing the syncer contract.
//!
//! One [`MemStorageClient`] is one logical store: a validated identity plus
//! the objects of its bucket namespace, modelled as a map from key characters
//! to object bytes. The nine syncer operations are built on a get/put adapter
//! over that map, with the same key scheme and index encoding that any other
//! backend of this contract uses.

use vstd::prelude::*;

use crate::codec::{dec_bytes, decode_index, encode_index, lemma_dec_bytes_injective};
use crate::errors::StoreError;
use crate::keys::{
    announcement_key, checkpoint_key, checkpoint_key_chars, latest_index_key, location_chars,
    metadata_key, reorg_flag_key, StoreIdentity,
};
use crate::sync::should_write_latest;

verus! {

/// A signed checkpoint as this store holds it: the embedded index that keys
/// the object, and the serialized signed payload, treated as immutable bytes.
pub struct Checkpoint {
    /// The position of this checkpoint in the append-only sequence.
    pub index: u32,
    /// The serialized signed checkpoint, opaque to the store.
    pub payload: Vec<u8>,
}

/// The keys of `s`, pairwise distinct.
pub open spec fn distinct_keys(s: Seq<(String, Vec<u8>)>) -> bool {
    forall|i: int, j: int| 0 <= i < j < s.len() ==> s[i].0@ != s[j].0@
}

/// The object map that an entry sequence denotes (later entries win, though
/// a well-formed store never repeats a key).
pub open spec fn kv_map(s: Seq<(String, Vec<u8>)>) -> Map<Seq<char>, Seq<u8>>
    decreases s.len(),
{
    if s.len() == 0 {
        Map::empty()
    } else {
        kv_map(s.drop_last()).insert(s.last().0@, s.last().1@)
    }
}

proof fn lemma_distinct_drop_last(s: Seq<(String, Vec<u8>)>)
    requires
        distinct_keys(s),
        s.len() > 0,
    ensures
        distinct_keys(s.drop_last()),
{
    assert forall|i: int, j: int|
        0 <= i < j < s.drop_last().len() implies s.drop_last()[i].0@ != s.drop_last()[j].0@ by {
        assert(s.drop_last()[i] == s[i]);
        assert(s.drop_last()[j] == s[j]);
    }
}

proof fn lemma_kv_map_lookup(s: Seq<(String, Vec<u8>)>, i: int)
    requires
        distinct_keys(s),
        0 <= i < s.len(),
    ensures
        kv_map(s).contains_key(s[i].0@),
        kv_map(s)[s[i].0@] == s[i].1@,
    decreases s.len(),
{
    if i < s.len() - 1 {
        lemma_distinct_drop_last(s);
        assert(s.drop_last()[i] == s[i]);
        lemma_kv_map_lookup(s.drop_last(), i);
        assert(s[i].0@ != s.last().0@);
    }
}

proof fn lemma_kv_map_absent(s: Seq<(String, Vec<u8>)>, k: Seq<char>)
    requires
        forall|i: int| 0 <= i < s.len() ==> s[i].0@ != k,
    ensures
        !kv_map(s).contains_key(k),
    decreases s.len(),
{
    if s.len() > 0 {
        assert(s.last() == s[s.len() - 1]);
        assert forall|i: int| 0 <= i < s.drop_last().len() implies s.drop_last()[i].0@ != k by {
            assert(s.drop_last()[i] == s[i]);
        }
        lemma_kv_map_absent(s.drop_last(), k);
    }
}

proof fn lemma_kv_map_update(
    s1: Seq<(String, Vec<u8>)>,
    s2: Seq<(String, Vec<u8>)>,
    i: int,
    kc: Seq<char>,
    vb: Seq<u8>,
)
    requires
        distinct_keys(s1),
        0 <= i < s1.len(),
        s2.len() == s1.len(),
        forall|j: int| 0 <= j < s1.len() && j != i ==> s2[j] == s1[j],
        s1[i].0@ == kc,
        s2[i].0@ == kc,
        s2[i].1@ == vb,
    ensures
        kv_map(s2) == kv_map(s1).insert(kc, vb),
        distinct_keys(s2),
    decreases s1.len(),
{
    assert forall|p: int, q: int| 0 <= p < q < s2.len() implies s2[p].0@ != s2[q].0@ by {
        if p == i {
            assert(s1[p].0@ == kc);
        } else if q == i {
            assert(s1[q].0@ == kc);
        }
    }
    lemma_distinct_drop_last(s1);
    if i == s1.len() - 1 {
        assert(s2.drop_last() =~= s1.drop_last());
        assert(s2.last() == s2[i]);
        assert(kv_map(s2) == kv_map(s1.drop_last()).insert(kc, vb));
        assert(kv_map(s1) == kv_map(s1.drop_last()).insert(s1[i].0@, s1[i].1@));
        assert(kv_map(s1.drop_last()).insert(s1[i].0@, s1[i].1@).insert(kc, vb) =~= kv_map(
            s1.drop_last(),
        ).insert(kc, vb));
    } else {
        assert forall|j: int|
            0 <= j < s1.drop_last().len() && j != i implies s2.drop_last()[j] == s1.drop_last()[j] by {
            assert(s2.drop_last()[j] == s2[j]);
            assert(s1.drop_last()[j] == s1[j]);
        }
        assert(s2.drop_last()[i] == s2[i]);
        assert(s1.drop_last()[i] == s1[i]);
        lemma_kv_map_update(s1.drop_last(), s2.drop_last(), i, kc, vb);
        let lk = s1.last().0@;
        let lv = s1.last().1@;
        assert(s2.last() == s1.last());
        assert(lk != kc);
        assert(kv_map(s2) == kv_map(s1.drop_last()).insert(kc, vb).insert(lk, lv));
        assert(kv_map(s1).insert(kc, vb) == kv_map(s1.drop_last()).insert(lk, lv).insert(kc, vb));
        assert(kv_map(s1.drop_last()).insert(kc, vb).insert(lk, lv) =~= kv_map(
            s1.drop_last(),
        ).insert(lk, lv).insert(kc, vb));
    }
}

proof fn lemma_kv_map_push(
    s1: Seq<(String, Vec<u8>)>,
    s2: Seq<(String, Vec<u8>)>,
    kc: Seq<char>,
    vb: Seq<u8>,
)
    requires
        distinct_keys(s1),
        forall|i: int| 0 <= i < s1.len() ==> s1[i].0@ != kc,
        s2.len() == s1.len() + 1,
        forall|j: int| 0 <= j < s1.len() ==> s2[j] == s1[j],
        s2.last().0@ == kc,
        s2.last().1@ == vb,
    ensures
        kv_map(s2) == kv_map(s1).insert(kc, vb),
        distinct_keys(s2),
{
    assert(s2.drop_last() =~= s1);
    assert forall|p: int, q: int| 0 <= p < q < s2.len() implies s2[p].0@ != s2[q].0@ by {
        if q == s1.len() {
            assert(s2[p] == s1[p]);
            assert(s2[q] == s2.last());
        } else {
            assert(s2[p] == s1[p]);
            assert(s2[q] == s1[q]);
        }
    }
}

/// The latest-index object of `m` holds exactly the number `v`.
pub open spec fn is_stored_latest(m: Map<Seq<char>, Seq<u8>>, v: u32) -> bool {
    m.contains_key(latest_index_key()) && m[latest_index_key()] == dec_bytes(v as nat)
}

/// The latest-index object, if present, holds a canonically encoded number.
/// Every store that only ever wrote through this contract satisfies it.
pub open spec fn latest_wf(m: Map<Seq<char>, Seq<u8>>) -> bool {
    m.contains_key(latest_index_key()) ==> exists|v: u32| is_stored_latest(m, v)
}

/// The latest index an update observes: the stored number, with absence
/// read as 0.
pub open spec fn latest_observed(m: Map<Seq<char>, Seq<u8>>) -> nat {
    if exists|v: u32| is_stored_latest(m, v) {
        (choose|v: u32| is_stored_latest(m, v)) as nat
    } else {
        0
    }
}

/// What `write_latest_index(i)` does to the store.
pub open spec fn spec_write_latest(m: Map<Seq<char>, Seq<u8>>, i: u32) -> Map<Seq<char>, Seq<u8>> {
    m.insert(latest_index_key(), dec_bytes(i as nat))
}

/// What `update_latest_index(i)` does to the store: writes only when `i`
/// is strictly above the observed latest.
pub open spec fn spec_update_latest(m: Map<Seq<char>, Seq<u8>>, i: u32) -> Map<Seq<char>, Seq<u8>> {
    if i as nat > latest_observed(m) {
        spec_write_latest(m, i)
    } else {
        m
    }
}

/// What `write_checkpoint` does to the store: one object under the key of
/// the embedded index.
pub open spec fn spec_write_checkpoint(
    m: Map<Seq<char>, Seq<u8>>,
    index: u32,
    payload: Seq<u8>,
) -> Map<Seq<char>, Seq<u8>> {
    m.insert(checkpoint_key_chars(index as nat), payload)
}

/// What `fetch_checkpoint` reads: the payload stored at the index's key.
pub open spec fn spec_fetch_checkpoint(m: Map<Seq<char>, Seq<u8>>, index: u32) -> Option<Seq<u8>> {
    if m.contains_key(checkpoint_key_chars(index as nat)) {
        Some(m[checkpoint_key_chars(index as nat)])
    } else {
        None
    }
}

/// A store can hold at most one latest number: the canonical decimal
/// encoding determines it.
pub proof fn lemma_stored_latest_unique(m: Map<Seq<char>, Seq<u8>>, a: u32, b: u32)
    requires
        is_stored_latest(m, a),
        is_stored_latest(m, b),
    ensures
        a == b,
{
    lemma_dec_bytes_injective(a as nat, b as nat);
}

/// After writing index `i`, the store observes exactly `i`.
pub proof fn lemma_latest_after_write(m: Map<Seq<char>, Seq<u8>>, i: u32)
    ensures
        latest_wf(spec_write_latest(m, i)),
        latest_observed(spec_write_latest(m, i)) == i as nat,
        is_stored_latest(spec_write_latest(m, i), i),
{
    let m2 = spec_write_latest(m, i);
    assert(is_stored_latest(m2, i));
    let w = choose|v: u32| is_stored_latest(m2, v);
    assert(is_stored_latest(m2, w));
    lemma_stored_latest_unique(m2, w, i);
}

/// A store without a latest-index object observes 0.
pub proof fn lemma_latest_absent(m: Map<Seq<char>, Seq<u8>>)
    requires
        !m.contains_key(latest_index_key()),
    ensures
        latest_wf(m),
        latest_observed(m) == 0,
{
    assert(!(exists|v: u32| is_stored_latest(m, v))) by {
        if exists|v: u32| is_stored_latest(m, v) {
            let v = choose|v: u32| is_stored_latest(m, v);
            assert(m.contains_key(latest_index_key()));
        }
    }
}

/// Copies the bytes of an object.
fn copy_bytes(src: &Vec<u8>) -> (r: Vec<u8>)
    ensures
        r@ == src@,
{
    let mut out: Vec<u8> = Vec::new();
    let mut i: usize = 0;
    while i < src.len()
        invariant
            i <= src@.len(),
            out@ == src@.take(i as int),
        decreases src@.len() - i,
    {
        out.push(src[i]);
        proof {
            assert(src@.take(i + 1 as int) =~= src@.take(i as int).push(src@[i as int]));
        }
        i = i + 1;
    }
    proof {
        assert(src@.take(src@.len() as int) =~= src@);
    }
    out
}

/// An in-memory store: one bucket namespace held as a list of objects,
/// plus the identity under which this store names its keys.
pub struct MemStorageClient {
    identity: StoreIdentity,
    objects: Vec<(String, Vec<u8>)>,
}

impl MemStorageClient {
    /// The objects of this store's bucket, keyed by their full key.
    pub closed spec fn obj_map(&self) -> Map<Seq<char>, Seq<u8>> {
        kv_map(self.objects@)
    }

    /// The identity this store was built with.
    pub closed spec fn store_id(&self) -> StoreIdentity {
        self.identity
    }

    /// Well-formedness: a validated identity and no repeated keys.
    pub closed spec fn wf(&self) -> bool {
        distinct_keys(self.objects@) && self.identity.wf()
    }

    /// Builds a fresh, empty store after validating the bucket name; fails
    /// with `InvalidBucketName` exactly when the name contains `'/'`, before
    /// anything else happens.
    pub fn new(bucket: String, folder: Option<String>) -> (r: Result<MemStorageClient, StoreError>)
        ensures
            r is Ok <==> !bucket@.contains('/'),
            r matches Err(e) ==> e == StoreError::InvalidBucketName,
            r matches Ok(s) ==> s.wf() && s.obj_map() == Map::<Seq<char>, Seq<u8>>::empty()
                && s.store_id().bucket_view() == bucket@ && s.store_id().folder_view() == (
            match folder {
                Some(f) => Some(f@),
                None => None::<Seq<char>>,
            }),
    {
        match StoreIdentity::new(bucket, folder) {
            Err(e) => Err(e),
            Ok(identity) => Ok(MemStorageClient { identity, objects: Vec::new() }),
        }
    }

    fn find_index(&self, key: &String) -> (r: Option<usize>)
        ensures
            r matches Some(i) ==> i < self.objects@.len() && self.objects@[i as int].0@ == key@,
            r is None ==> forall|i: int| 0 <= i < self.objects@.len() ==> self.objects@[i].0@
                != key@,
    {
        let n = self.objects.len();
        let mut i: usize = 0;
        while i < n
            invariant
                i <= n,
                n == self.objects@.len(),
                forall|j: int| 0 <= j < i ==> self.objects@[j].0@ != key@,
            decreases n - i,
        {
            if self.objects[i].0 == *key {
                return Some(i);
            }
            i = i + 1;
        }
        None
    }

    /// The adapter's read operation: the bytes stored under `key`, or
    /// `None` when this store holds no such object.
    pub fn get_object(&self, key: &String) -> (r: Option<&Vec<u8>>)
        requires
            self.wf(),
        ensures
            r matches Some(v) ==> self.obj_map().contains_key(key@) && v@ == self.obj_map()[key@],
            r is None ==> !self.obj_map().contains_key(key@),
    {
        match self.find_index(key) {
            Some(i) => {
                proof {
                    lemma_kv_map_lookup(self.objects@, i as int);
                }
                Some(&self.objects[i].1)
            },
            None => {
                proof {
                    lemma_kv_map_absent(self.objects@, key@);
                }
                None
            },
        }
    }

    /// The adapter's write operation: stores `value` under `key`, fully
    /// replacing any previous object there and touching no other key.
    pub fn put_object(&mut self, key: String, value: Vec<u8>)
        requires
            old(self).wf(),
        ensures
            final(self).wf(),
            final(self).obj_map() == old(self).obj_map().insert(key@, value@),
            final(self).store_id() == old(self).store_id(),
    {
        let ghost kc = key@;
        let ghost vb = value@;
        match self.find_index(&key) {
            Some(i) => {
                self.objects[i] = (key, value);
                proof {
                    lemma_kv_map_update(old(self).objects@, self.objects@, i as int, kc, vb);
                }
            },
            None => {
                self.objects.push((key, value));
                proof {
                    assert(self.objects@.last().0@ == kc);
                    lemma_kv_map_push(old(self).objects@, self.objects@, kc, vb);
                }
            },
        }
    }

    /// Reads the highest index this store claims to have published:
    /// `Ok(None)` on a store whose latest-index object was never written
    /// (never an error), the decoded number when the object holds one, and
    /// `DecodeFailure` when it exists but is malformed.
    pub fn latest_index(&self) -> (r: Result<Option<u32>, StoreError>)
        requires
            self.wf(),
        ensures
            !self.obj_map().contains_key(latest_index_key()) ==> r == Ok::<Option<u32>, StoreError>(
                None,
            ),
            forall|v: u32|
                is_stored_latest(self.obj_map(), v) ==> r == Ok::<Option<u32>, StoreError>(
                    Some(v),
                ),
            r matches Err(e) ==> self.obj_map().contains_key(latest_index_key()) && e
                == StoreError::DecodeFailure,
            (r matches Ok(o) && o is Some) ==> self.obj_map().contains_key(latest_index_key()),
    {
        let key = latest_key_string();
        match self.get_object(&key) {
            None => Ok(None),
            Some(b) => match decode_index(b) {
                Some(v) => Ok(Some(v)),
                None => Err(StoreError::DecodeFailure),
            },
        }
    }

    /// Overwrites the latest-index object with the encoding of `index`.
    pub fn write_latest_index(&mut self, index: u32) -> (r: Result<(), StoreError>)
        requires
            old(self).wf(),
        ensures
            r is Ok,
            final(self).wf(),
            final(self).store_id() == old(self).store_id(),
            final(self).obj_map() == spec_write_latest(old(self).obj_map(), index),
    {
        let data = encode_index(index);
        let key = latest_key_string();
        self.put_object(key, data);
        Ok(())
    }

    /// Raises the stored latest index to `index` exactly when `index` is
    /// strictly greater than the observed one (absence observes 0); the
    /// stored value never decreases. The read and the write are two separate
    /// steps, so a concurrent writer may interleave between them, but each
    /// committed write is strictly above what its writer observed.
    pub fn update_latest_index(&mut self, index: u32) -> (r: Result<(), StoreError>)
        requires
            old(self).wf(),
        ensures
            final(self).wf(),
            final(self).store_id() == old(self).store_id(),
            latest_wf(old(self).obj_map()) ==> r is Ok && final(self).obj_map()
                == spec_update_latest(old(self).obj_map(), index),
            r is Err ==> final(self).obj_map() == old(self).obj_map() && !latest_wf(
                old(self).obj_map(),
            ),
    {
        let ghost m0 = self.obj_map();
        let current = match self.latest_index() {
            Ok(c) => c,
            Err(e) => {
                proof {
                    if latest_wf(m0) {
                        let w = choose|v: u32| is_stored_latest(m0, v);
                        assert(is_stored_latest(m0, w));
                    }
                }
                return Err(e);
            },
        };
        proof {
            if !m0.contains_key(latest_index_key()) {
                lemma_latest_absent(m0);
            } else if latest_wf(m0) {
                let w = choose|v: u32| is_stored_latest(m0, v);
                assert(is_stored_latest(m0, w));
            }
        }
        if should_write_latest(current, index) {
            match self.write_latest_index(index) {
                Ok(u) => Ok(u),
                Err(e) => Err(e),
            }
        } else {
            Ok(())
        }
    }

    /// Fetches the checkpoint at `index`: its payload is exactly the bytes
    /// that were written there, and absence is `Ok(None)`, never an error.
    pub fn fetch_checkpoint(&self, index: u32) -> (r: Result<Option<Checkpoint>, StoreError>)
        requires
            self.wf(),
        ensures
            spec_fetch_checkpoint(self.obj_map(), index) matches Some(p) ==> (r matches Ok(o) && o
                matches Some(c) && c.index == index && c.payload@ == p),
            spec_fetch_checkpoint(self.obj_map(), index) is None ==> (r matches Ok(o) && o
                is None),
            r is Ok,
    {
        let key = checkpoint_key(index);
        match self.get_object(&key) {
            None => Ok(None),
            Some(b) => {
                let payload = copy_bytes(b);
                Ok(Some(Checkpoint { index, payload }))
            },
        }
    }

    /// Writes the checkpoint under the key of its embedded index, replacing
    /// nothing but that one object.
    pub fn write_checkpoint(&mut self, checkpoint: &Checkpoint) -> (r: Result<(), StoreError>)
        requires
            old(self).wf(),
        ensures
            r is Ok,
            final(self).wf(),
            final(self).store_id() == old(self).store_id(),
            final(self).obj_map() == spec_write_checkpoint(
                old(self).obj_map(),
                checkpoint.index,
                checkpoint.payload@,
            ),
    {
        let key = checkpoint_key(checkpoint.index);
        let data = copy_bytes(&checkpoint.payload);
        self.put_object(key, data);
        Ok(())
    }

    /// Overwrites the single, folder-prefixed metadata slot of this store.
    pub fn write_metadata(&mut self, metadata: Vec<u8>) -> (r: Result<(), StoreError>)
        requires
            old(self).wf(),
        ensures
            r is Ok,
            final(self).wf(),
            final(self).store_id() == old(self).store_id(),
            final(self).obj_map() == old(self).obj_map().insert(
                metadata_key(old(self).store_id().folder_view()),
                metadata@,
            ),
    {
        let key = self.identity.object_path("gcsMetadataKey");
        self.put_object(key, metadata);
        Ok(())
    }

    /// Overwrites the single, folder-prefixed announcement slot of this
    /// store.
    pub fn write_announcement(&mut self, announcement: Vec<u8>) -> (r: Result<(), StoreError>)
        requires
            old(self).wf(),
        ensures
            r is Ok,
            final(self).wf(),
            final(self).store_id() == old(self).store_id(),
            final(self).obj_map() == old(self).obj_map().insert(
                announcement_key(old(self).store_id().folder_view()),
                announcement@,
            ),
    {
        let key = self.identity.object_path("announcement.json");
        self.put_object(key, announcement);
        Ok(())
    }

    /// The deterministic location string of this store's announcement
    /// object: a pure function of the store identity, unchanged by any
    /// write, embedding the exact bucket name and folder-prefixed key.
    pub fn announcement_location(&self) -> (r: String)
        ensures
            r@ == location_chars(self.store_id().bucket_view(), self.store_id().folder_view()),
    {
        self.identity.announcement_location()
    }

    /// Overwrites the single reorg-flag slot (a fixed, unprefixed key).
    pub fn write_reorg_status(&mut self, event: Vec<u8>) -> (r: Result<(), StoreError>)
        requires
            old(self).wf(),
        ensures
            r is Ok,
            final(self).wf(),
            final(self).store_id() == old(self).store_id(),
            final(self).obj_map() == old(self).obj_map().insert(reorg_flag_key(), event@),
    {
        let key = reorg_key_string();
        self.put_object(key, event);
        Ok(())
    }

    /// Reads the reorg flag back: exactly the bytes that were written, or
    /// `Ok(None)` when no reorg was ever signalled.
    pub fn reorg_status(&self) -> (r: Result<Option<Vec<u8>>, StoreError>)
        requires
            self.wf(),
        ensures
            r is Ok,
            self.obj_map().contains_key(reorg_flag_key()) ==> (r matches Ok(o) && o matches Some(v)
                && v@ == self.obj_map()[reorg_flag_key()]),
            !self.obj_map().contains_key(reorg_flag_key()) ==> (r matches Ok(o) && o is None),
    {
        let key = reorg_key_string();
        match self.get_object(&key) {
            None => Ok(None),
            Some(b) => Ok(Some(copy_bytes(b))),
        }
    }
}

fn latest_key_string() -> (r: String)
    ensures
        r@ == latest_index_key(),
{
    "gcsLatestIndexKey".to_owned()
}

fn reorg_key_string() -> (r: String)
    ensures
        r@ == reorg_flag_key(),
{
    "gcsReorgFlagKey".to_owned()
}

} // verus!
