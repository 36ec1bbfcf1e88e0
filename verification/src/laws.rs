//! The store-level guarantees of the syncer contract, stated and proved
//! over the spec transitions that the operations' own contracts use.
//!
//! A store's observable state is its object map; different buckets are
//! different stores outright, so the isolation laws below concern folder
//! namespaces within one bucket.

use vstd::prelude::*;

use crate::codec::{dec_chars, lemma_dec_chars_no_slash};
use crate::keys::{
    announcement_key, announcement_key_name, checkpoint_key_chars, latest_index_key,
    lemma_distinct_folders_distinct_keys, lemma_prefixed_never_shadows_plain, metadata_key,
    metadata_key_name, prefixed_key, reorg_flag_key, trim_trailing_slashes,
};
use crate::store::{
    latest_observed, latest_wf, lemma_latest_absent, lemma_latest_after_write,
    spec_fetch_checkpoint, spec_update_latest, spec_write_checkpoint,
};

verus! {

/// Round trip: writing a checkpoint with index `index` and payload
/// `payload`, then fetching that index, returns exactly that payload.
pub proof fn lemma_checkpoint_round_trip(m: Map<Seq<char>, Seq<u8>>, index: u32, payload: Seq<u8>)
    ensures
        spec_fetch_checkpoint(spec_write_checkpoint(m, index, payload), index) == Some(payload),
{
}

/// Fresh-store absence: a store with no prior writes holds no latest-index
/// object and no checkpoint at any index, so both reads answer "absent",
/// never an error.
pub proof fn lemma_fresh_store_absence(index: u32)
    ensures
        spec_fetch_checkpoint(Map::<Seq<char>, Seq<u8>>::empty(), index) is None,
        !Map::<Seq<char>, Seq<u8>>::empty().contains_key(latest_index_key()),
        latest_observed(Map::<Seq<char>, Seq<u8>>::empty()) == 0,
{
    lemma_latest_absent(Map::<Seq<char>, Seq<u8>>::empty());
}

/// The store after a serial sequence of `update_latest_index` calls.
pub open spec fn apply_updates(m: Map<Seq<char>, Seq<u8>>, s: Seq<u32>) -> Map<Seq<char>, Seq<u8>>
    decreases s.len(),
{
    if s.len() == 0 {
        m
    } else {
        apply_updates(spec_update_latest(m, s.first()), s.drop_first())
    }
}

/// The maximum of `floor` and every element of `s`.
pub open spec fn running_max(floor: nat, s: Seq<u32>) -> nat
    decreases s.len(),
{
    if s.len() == 0 {
        floor
    } else {
        running_max(
            if s.first() as nat > floor {
                s.first() as nat
            } else {
                floor
            },
            s.drop_first(),
        )
    }
}

/// One update moves the observed latest index to the maximum of the old
/// value and the requested index; in particular it never decreases.
pub proof fn lemma_update_latest_step(m: Map<Seq<char>, Seq<u8>>, i: u32)
    requires
        latest_wf(m),
    ensures
        latest_wf(spec_update_latest(m, i)),
        latest_observed(spec_update_latest(m, i)) == if i as nat > latest_observed(m) {
            i as nat
        } else {
            latest_observed(m)
        },
{
    if i as nat > latest_observed(m) {
        lemma_latest_after_write(m, i);
    }
}

/// Monotonicity: after any serial sequence of updates, the store observes
/// exactly the maximum of its starting value and every requested index.
pub proof fn lemma_update_monotonicity(m: Map<Seq<char>, Seq<u8>>, s: Seq<u32>)
    requires
        latest_wf(m),
    ensures
        latest_wf(apply_updates(m, s)),
        latest_observed(apply_updates(m, s)) == running_max(latest_observed(m), s),
    decreases s.len(),
{
    if s.len() > 0 {
        lemma_update_latest_step(m, s.first());
        lemma_update_monotonicity(spec_update_latest(m, s.first()), s.drop_first());
    }
}

/// Non-decrease under racing updates: serialized in either order, two
/// updates leave the same observed value, at least as large as the starting
/// value and as either writer's committed target — so no interleaving of
/// the two can make the index end below what either writer wrote.
pub proof fn lemma_update_order_irrelevant(m: Map<Seq<char>, Seq<u8>>, a: u32, b: u32)
    requires
        latest_wf(m),
    ensures
        latest_observed(spec_update_latest(spec_update_latest(m, a), b)) == latest_observed(
            spec_update_latest(spec_update_latest(m, b), a),
        ),
        latest_observed(spec_update_latest(spec_update_latest(m, a), b)) >= latest_observed(m),
        a as nat > latest_observed(m) ==> latest_observed(
            spec_update_latest(spec_update_latest(m, a), b),
        ) >= a as nat,
        b as nat > latest_observed(m) ==> latest_observed(
            spec_update_latest(spec_update_latest(m, a), b),
        ) >= b as nat,
{
    lemma_update_latest_step(m, a);
    lemma_update_latest_step(spec_update_latest(m, a), b);
    lemma_update_latest_step(m, b);
    lemma_update_latest_step(spec_update_latest(m, b), a);
}

/// Idempotent overwrite: writing the same bytes twice to the same
/// single-slot key (metadata, announcement or reorg flag) leaves the store
/// exactly as one write does.
pub proof fn lemma_overwrite_idempotent(m: Map<Seq<char>, Seq<u8>>, k: Seq<char>, v: Seq<u8>)
    ensures
        m.insert(k, v).insert(k, v) == m.insert(k, v),
{
    assert(m.insert(k, v).insert(k, v) =~= m.insert(k, v));
}

/// Two folders name different namespaces when their trimmed forms differ;
/// a store without a folder is its own namespace distinct from every
/// folder.
pub open spec fn distinct_folder_namespaces(
    f1: Option<Seq<char>>,
    f2: Option<Seq<char>>,
) -> bool {
    match (f1, f2) {
        (Some(a), Some(b)) => trim_trailing_slashes(a) != trim_trailing_slashes(b),
        (None, None) => false,
        _ => true,
    }
}

proof fn lemma_slot_names_no_slash()
    ensures
        !metadata_key_name().contains('/'),
        !announcement_key_name().contains('/'),
        !latest_index_key().contains('/'),
        !reorg_flag_key().contains('/'),
{
    reveal_strlit("gcsMetadataKey");
    reveal_strlit("announcement.json");
    reveal_strlit("gcsLatestIndexKey");
    reveal_strlit("gcsReorgFlagKey");
}

/// Key isolation across folders: a metadata or announcement write under one
/// namespace never alters or shadows the same slot of a different namespace
/// in the same bucket.
pub proof fn lemma_folder_write_isolation(
    m: Map<Seq<char>, Seq<u8>>,
    f1: Option<Seq<char>>,
    f2: Option<Seq<char>>,
    payload: Seq<u8>,
)
    requires
        distinct_folder_namespaces(f1, f2),
    ensures
        metadata_key(f1) != metadata_key(f2),
        announcement_key(f1) != announcement_key(f2),
        m.insert(metadata_key(f1), payload).contains_key(metadata_key(f2)) == m.contains_key(
            metadata_key(f2),
        ),
        m.contains_key(metadata_key(f2)) ==> m.insert(metadata_key(f1), payload)[metadata_key(f2)]
            == m[metadata_key(f2)],
        m.insert(announcement_key(f1), payload).contains_key(announcement_key(f2))
            == m.contains_key(announcement_key(f2)),
        m.contains_key(announcement_key(f2)) ==> m.insert(
            announcement_key(f1),
            payload,
        )[announcement_key(f2)] == m[announcement_key(f2)],
{
    lemma_slot_names_no_slash();
    match (f1, f2) {
        (Some(a), Some(b)) => {
            lemma_distinct_folders_distinct_keys(a, b, metadata_key_name());
            lemma_distinct_folders_distinct_keys(a, b, announcement_key_name());
        },
        (Some(a), None) => {
            lemma_prefixed_never_shadows_plain(a, metadata_key_name(), metadata_key_name());
            lemma_prefixed_never_shadows_plain(a, announcement_key_name(), announcement_key_name());
        },
        (None, Some(b)) => {
            lemma_prefixed_never_shadows_plain(b, metadata_key_name(), metadata_key_name());
            lemma_prefixed_never_shadows_plain(b, announcement_key_name(), announcement_key_name());
        },
        (None, None) => {
        },
    }
}

/// A folder-prefixed slot key is never one of the fixed unprefixed keys, so
/// folder-namespaced writes cannot shadow the latest-index or reorg-flag
/// objects of any store in the bucket.
pub proof fn lemma_slots_never_shadow_fixed_keys(f: Seq<char>, name: Seq<char>)
    ensures
        prefixed_key(Some(f), name) != latest_index_key(),
        prefixed_key(Some(f), name) != reorg_flag_key(),
{
    lemma_slot_names_no_slash();
    lemma_prefixed_never_shadows_plain(f, name, latest_index_key());
    lemma_prefixed_never_shadows_plain(f, name, reorg_flag_key());
}

/// A folder-prefixed slot key is never a checkpoint key either: checkpoint
/// keys are unprefixed and contain no `'/'`, so folder-namespaced writes
/// cannot shadow any checkpoint object.
pub proof fn lemma_slots_never_shadow_checkpoints(f: Seq<char>, name: Seq<char>, index: u32)
    ensures
        prefixed_key(Some(f), name) != checkpoint_key_chars(index as nat),
{
    reveal_strlit("checkpoint_");
    reveal_strlit("_with_id.json");
    lemma_dec_chars_no_slash(index as nat);
    let a = "checkpoint_"@;
    let b = dec_chars(index as nat);
    let c = "_with_id.json"@;
    assert(!((a + b) + c).contains('/')) by {
        if ((a + b) + c).contains('/') {
            let k = choose|k: int| 0 <= k < ((a + b) + c).len() && ((a + b) + c)[k] == '/';
            if k < (a + b).len() {
                assert(((a + b) + c)[k] == (a + b)[k]);
                if k < a.len() {
                    assert((a + b)[k] == a[k]);
                    assert(a.contains('/'));
                } else {
                    assert((a + b)[k] == b[k - a.len()]);
                    assert(b.contains('/'));
                }
            } else {
                assert(((a + b) + c)[k] == c[k - (a + b).len()]);
                assert(c.contains('/'));
            }
        }
    }
    lemma_prefixed_never_shadows_plain(f, name, checkpoint_key_chars(index as nat));
}

} // verus!
