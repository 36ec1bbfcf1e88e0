//! Store identity and the key naming scheme.
//!
//! A logical store is a bucket plus an optional folder. Single-slot values
//! (metadata, announcement) live under folder-prefixed keys; the latest-index
//! object, checkpoint objects and the reorg flag use fixed, unprefixed keys.
//! That asymmetry is part of the wire layout and is preserved deliberately.

use vstd::prelude::*;
use vstd::string::*;

use crate::codec::{dec_chars, u32_to_decimal};
use crate::errors::StoreError;

verus! {

/// The fixed key of the latest-index object (never folder-prefixed).
pub open spec fn latest_index_key() -> Seq<char> {
    "gcsLatestIndexKey"@
}

/// The object name of the agent-metadata slot (folder-prefixed).
pub open spec fn metadata_key_name() -> Seq<char> {
    "gcsMetadataKey"@
}

/// The object name of the announcement slot (folder-prefixed).
pub open spec fn announcement_key_name() -> Seq<char> {
    "announcement.json"@
}

/// The fixed key of the reorg-flag object (never folder-prefixed).
pub open spec fn reorg_flag_key() -> Seq<char> {
    "gcsReorgFlagKey"@
}

/// The key of the checkpoint object at index `i`:
/// `checkpoint_{i}_with_id.json`, never folder-prefixed.
pub open spec fn checkpoint_key_chars(i: nat) -> Seq<char> {
    "checkpoint_"@ + dec_chars(i) + "_with_id.json"@
}

/// `folder` with every trailing `'/'` removed.
pub open spec fn trim_trailing_slashes(s: Seq<char>) -> Seq<char>
    decreases s.len(),
{
    if s.len() > 0 && s.last() == '/' {
        trim_trailing_slashes(s.drop_last())
    } else {
        s
    }
}

/// The folder-prefixing rule: with a folder, the key is
/// `{folder with trailing '/' stripped}/{name}`; without one, the name
/// stands unchanged.
pub open spec fn prefixed_key(folder: Option<Seq<char>>, name: Seq<char>) -> Seq<char> {
    match folder {
        Some(f) => trim_trailing_slashes(f) + seq!['/'] + name,
        None => name,
    }
}

/// The full key of the metadata slot for a store with the given folder.
pub open spec fn metadata_key(folder: Option<Seq<char>>) -> Seq<char> {
    prefixed_key(folder, metadata_key_name())
}

/// The full key of the announcement slot for a store with the given folder.
pub open spec fn announcement_key(folder: Option<Seq<char>>) -> Seq<char> {
    prefixed_key(folder, announcement_key_name())
}

/// The discoverable location string of the announcement object:
/// `gs://{bucket}/{folder-prefixed announcement key}`.
pub open spec fn location_chars(bucket: Seq<char>, folder: Option<Seq<char>>) -> Seq<char> {
    "gs://"@ + bucket + seq!['/'] + announcement_key(folder)
}

/// The identity of one logical store: a validated bucket name and an
/// optional folder namespace. Immutable after construction.
#[derive(Debug)]
pub struct StoreIdentity {
    bucket: String,
    folder: Option<String>,
}

impl StoreIdentity {
    /// The bucket name, as a sequence of characters.
    pub closed spec fn bucket_view(&self) -> Seq<char> {
        self.bucket@
    }

    /// The folder namespace, if one is configured.
    pub closed spec fn folder_view(&self) -> Option<Seq<char>> {
        match self.folder {
            Some(f) => Some(f@),
            None => None,
        }
    }

    /// A well-formed identity has no path separator in its bucket name.
    pub open spec fn wf(&self) -> bool {
        !self.bucket_view().contains('/')
    }

    /// Validates the bucket name and builds the identity. Fails with
    /// `InvalidBucketName` exactly when the bucket name contains `'/'`;
    /// no other input is rejected.
    pub fn new(bucket: String, folder: Option<String>) -> (r: Result<StoreIdentity, StoreError>)
        ensures
            r is Ok <==> !bucket@.contains('/'),
            r matches Err(e) ==> e == StoreError::InvalidBucketName,
            r matches Ok(id) ==> id.wf() && id.bucket_view() == bucket@ && id.folder_view()
                == (match folder {
                Some(f) => Some(f@),
                None => None::<Seq<char>>,
            }),
    {
        if str_contains_slash(bucket.as_str()) {
            Err(StoreError::InvalidBucketName)
        } else {
            Ok(StoreIdentity { bucket, folder })
        }
    }

    /// The validated bucket name.
    pub fn bucket_name(&self) -> (r: &String)
        ensures
            r@ == self.bucket_view(),
    {
        &self.bucket
    }

    /// Applies the folder-prefixing rule of this store to an object name.
    pub fn object_path(&self, name: &str) -> (r: String)
        ensures
            r@ == prefixed_key(self.folder_view(), name@),
    {
        match &self.folder {
            None => name.to_owned(),
            Some(f) => {
                let t = trim_folder(f.as_str());
                let mut out = t.to_owned();
                out.append("/");
                out.append(name);
                proof {
                    reveal_strlit("/");
                    assert(out@ =~= prefixed_key(self.folder_view(), name@));
                }
                out
            },
        }
    }

    /// The location string of this store's announcement object. A pure
    /// function of the store identity: it is the same before and after the
    /// announcement is ever written, and embeds the exact bucket name and
    /// the folder-prefixed announcement key.
    pub fn announcement_location(&self) -> (r: String)
        ensures
            r@ == location_chars(self.bucket_view(), self.folder_view()),
    {
        let mut out = "gs://".to_owned();
        out.append(self.bucket.as_str());
        out.append("/");
        let p = self.object_path("announcement.json");
        out.append(p.as_str());
        proof {
            reveal_strlit("/");
            assert(out@ =~= location_chars(self.bucket_view(), self.folder_view()));
        }
        out
    }
}

/// The key of the checkpoint object at the given index.
pub fn checkpoint_key(index: u32) -> (r: String)
    ensures
        r@ == checkpoint_key_chars(index as nat),
{
    let mut s = "checkpoint_".to_owned();
    let digits = u32_to_decimal(index);
    s.append(digits.as_str());
    s.append("_with_id.json");
    proof {
        assert(s@ =~= checkpoint_key_chars(index as nat));
    }
    s
}

/// True exactly when the string contains the path separator `'/'`.
pub fn str_contains_slash(s: &str) -> (b: bool)
    ensures
        b == s@.contains('/'),
{
    let len = s.unicode_len();
    let mut i: usize = 0;
    while i < len
        invariant
            i <= len,
            len == s@.len(),
            forall|j: int| 0 <= j < i ==> s@[j] != '/',
        decreases len - i,
    {
        if s.get_char(i) == '/' {
            proof {
                assert(s@[i as int] == '/');
            }
            return true;
        }
        i = i + 1;
    }
    proof {
        assert(!s@.contains('/')) by {
            if s@.contains('/') {
                let k = choose|k: int| 0 <= k < s@.len() && s@[k] == '/';
                assert(s@[k] != '/');
            }
        }
    }
    false
}

/// Removes every trailing `'/'` from a folder name.
fn trim_folder(f: &str) -> (r: &str)
    ensures
        r@ == trim_trailing_slashes(f@),
{
    let mut end = f.unicode_len();
    proof {
        assert(f@.subrange(0, end as int) =~= f@);
    }
    while end > 0 && f.get_char(end - 1) == '/'
        invariant
            end <= f@.len(),
            trim_trailing_slashes(f@) == trim_trailing_slashes(f@.subrange(0, end as int)),
        decreases end,
    {
        proof {
            let sub = f@.subrange(0, end as int);
            assert(sub.last() == f@[end - 1]);
            assert(sub.drop_last() =~= f@.subrange(0, end - 1));
        }
        end = end - 1;
    }
    proof {
        let sub = f@.subrange(0, end as int);
        assert(end > 0 ==> sub.last() == f@[end - 1]);
        assert(trim_trailing_slashes(sub) == sub);
    }
    f.substring_char(0, end)
}

/// Keys in distinct folder namespaces never collide: for one object name,
/// two folders with different trimmed forms yield different keys.
pub proof fn lemma_distinct_folders_distinct_keys(f1: Seq<char>, f2: Seq<char>, name: Seq<char>)
    requires
        trim_trailing_slashes(f1) != trim_trailing_slashes(f2),
    ensures
        prefixed_key(Some(f1), name) != prefixed_key(Some(f2), name),
{
    let t1 = trim_trailing_slashes(f1);
    let t2 = trim_trailing_slashes(f2);
    let k1 = t1 + seq!['/'] + name;
    let k2 = t2 + seq!['/'] + name;
    if k1 == k2 {
        assert(k1.len() == (t1 + seq!['/']).len() + name.len());
        assert(k2.len() == (t2 + seq!['/']).len() + name.len());
        assert(t1.len() == t2.len());
        assert forall|i: int| 0 <= i < t1.len() implies t1[i] == t2[i] by {
            assert(((t1 + seq!['/']) + name)[i] == (t1 + seq!['/'])[i]);
            assert((t1 + seq!['/'])[i] == t1[i]);
            assert(((t2 + seq!['/']) + name)[i] == (t2 + seq!['/'])[i]);
            assert((t2 + seq!['/'])[i] == t2[i]);
            assert(k1[i] == k2[i]);
        }
        assert(t1 =~= t2);
    }
}

/// A folder-prefixed key always contains `'/'`, so it can never collide
/// with (or shadow) one of the fixed, unprefixed keys, which contain none.
pub proof fn lemma_prefixed_never_shadows_plain(f: Seq<char>, name: Seq<char>, plain: Seq<char>)
    requires
        !plain.contains('/'),
    ensures
        prefixed_key(Some(f), name) != plain,
{
    let t = trim_trailing_slashes(f);
    let k = t + seq!['/'] + name;
    assert(k[t.len() as int] == '/');
    assert(k.contains('/'));
}

} // verus!
