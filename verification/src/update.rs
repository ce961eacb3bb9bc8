//! The secure update pipeline: the deterministic per-record lock token,
//! expiry computation, and the batch preparation of encrypted updates.
//!
//! Batch preparation is synchronous and performs per-item cryptographic
//! work; a caller on a latency-sensitive cooperative scheduler should
//! run it on a dedicated worker context.

use vstd::prelude::*;

use crate::encrypt::EncryptionKey;
use crate::types::{
    enc_tags_view, EncEntryTagV, EncEntryV, Expiry, ProfileId, UpdateEntry, UpdateEntryV,
};
use crate::KvError;
use vstd::utf8::encode_utf8;
use vstd::wrapping::u64_specs;

verus! {

/// The offset basis of the 64-bit FNV-1a hash.
pub const FNV_OFFSET: u64 = 0xcbf29ce484222325;

/// The prime of the 64-bit FNV-1a hash.
pub const FNV_PRIME: u64 = 0x100000001b3;

/// One FNV-1a step: fold one byte into the running hash.
pub open spec fn fnv_step(h: u64, b: u8) -> u64 {
    u64_specs::wrapping_mul(h ^ (b as u64), FNV_PRIME)
}

/// The running FNV-1a hash after folding in every byte of `bytes`.
pub open spec fn fnv_fold(h: u64, bytes: Seq<u8>) -> u64
    decreases bytes.len(),
{
    if bytes.len() == 0 {
        h
    } else {
        fnv_fold(fnv_step(h, bytes[0]), bytes.skip(1))
    }
}

/// The little-endian bytes of a 64-bit value.
pub open spec fn le_bytes(p: u64) -> Seq<u8> {
    seq![
        (p & 0xff) as u8,
        ((p >> 8) & 0xff) as u8,
        ((p >> 16) & 0xff) as u8,
        ((p >> 24) & 0xff) as u8,
        ((p >> 32) & 0xff) as u8,
        ((p >> 40) & 0xff) as u8,
        ((p >> 48) & 0xff) as u8,
        ((p >> 56) & 0xff) as u8,
    ]
}

/// The lock token of a record: a fixed, versioned hash combination of
/// the profile identifier, then the category bytes, then the name
/// bytes, with no hidden per-process seed.
pub open spec fn lock_token(profile_id: i64, category: Seq<char>, name: Seq<char>) -> i64 {
    fnv_fold(
        fnv_fold(fnv_fold(FNV_OFFSET, le_bytes(profile_id as u64)), encode_utf8(category)),
        encode_utf8(name),
    ) as i64
}

/// Folds every byte of `bytes` into the running hash.
fn fnv_fold_bytes(h: u64, bytes: &[u8]) -> (r: u64)
    ensures
        r == fnv_fold(h, bytes@),
{
    let mut acc = h;
    let mut i: usize = 0;
    proof {
        assert(bytes@.skip(0) =~= bytes@);
    }
    while i < bytes.len()
        invariant
            i <= bytes@.len(),
            fnv_fold(h, bytes@) == fnv_fold(acc, bytes@.skip(i as int)),
        decreases bytes@.len() - i,
    {
        let ghost pre = bytes@.skip(i as int);
        let b = *vstd::slice::slice_index_get(bytes, i);
        acc = (acc ^ (b as u64)).wrapping_mul(FNV_PRIME);
        i = i + 1;
        proof {
            assert(pre.skip(1) =~= bytes@.skip(i as int));
        }
    }
    proof {
        assert(bytes@.skip(bytes@.len() as int) =~= Seq::<u8>::empty());
    }
    acc
}

/// Derives the advisory lock token that groups writes touching the same
/// logical record: a pure, fixed-order hash of the profile identifier,
/// the category bytes and the name bytes. Equal triples always yield
/// equal tokens, in every process; collisions only cause unnecessary
/// serialization.
pub fn hash_lock_info(profile_id: ProfileId, lock_info: &UpdateEntry) -> (r: i64)
    ensures
        r == lock_token(profile_id, lock_info@.entry.category, lock_info@.entry.name),
{
    let p = profile_id as u64;
    let mut bytes: Vec<u8> = Vec::new();
    bytes.push((p & 0xff) as u8);
    bytes.push(((p >> 8) & 0xff) as u8);
    bytes.push(((p >> 16) & 0xff) as u8);
    bytes.push(((p >> 24) & 0xff) as u8);
    bytes.push(((p >> 32) & 0xff) as u8);
    bytes.push(((p >> 40) & 0xff) as u8);
    bytes.push(((p >> 48) & 0xff) as u8);
    bytes.push(((p >> 56) & 0xff) as u8);
    proof {
        assert(bytes@ =~= le_bytes(p));
    }
    let h1 = fnv_fold_bytes(FNV_OFFSET, bytes.as_slice());
    let h2 = fnv_fold_bytes(h1, lock_info.entry.category.as_str().as_bytes());
    let h3 = fnv_fold_bytes(h2, lock_info.entry.name.as_str().as_bytes());
    #[verifier::truncate]
    let r = h3 as i64;
    r
}

/// The lock-token law: two calls on equal (profile, category, name)
/// triples agree, whatever entries carry them — the token is a pure
/// function of the triple, with no hidden seed state.
pub proof fn lemma_lock_token_deterministic(
    p1: i64,
    c1: Seq<char>,
    n1: Seq<char>,
    p2: i64,
    c2: Seq<char>,
    n2: Seq<char>,
)
    requires
        p1 == p2,
        c1 == c2,
        n1 == n2,
    ensures
        lock_token(p1, c1, n1) == lock_token(p2, c2, n2),
{
}

/// Relies on chrono's Utc::now: the current wall-clock time, in
/// milliseconds since the Unix epoch. The value depends on the clock,
/// so nothing is promised of it.
#[verifier::external_body]
fn now_millis() -> i64 {
    chrono::Utc::now().timestamp_millis()
}

/// The absolute expiry reached `expire_ms` milliseconds after the
/// moment `now_ms`, or a timestamp error when that sum leaves the
/// representable range.
pub fn expiry_at(now_ms: i64, expire_ms: i64) -> (r: Result<Expiry, KvError>)
    ensures
        match r {
            Ok(t) => t == now_ms + expire_ms,
            Err(e) => {
                &&& !(i64::MIN <= now_ms + expire_ms <= i64::MAX)
                &&& e == KvError::Timestamp
            },
        },
{
    match now_ms.checked_add(expire_ms) {
        Some(t) => Ok(t),
        None => Err(KvError::Timestamp),
    }
}

/// The absolute expiry timestamp lying `expire_ms` milliseconds past
/// the present moment, or a timestamp error where that computation
/// overflows the representable range.
pub fn expiry_timestamp(expire_ms: i64) -> (r: Result<Expiry, KvError>)
    ensures
        r matches Err(e) ==> e == KvError::Timestamp,
        expire_ms == 0 ==> r is Ok,
{
    let now = now_millis();
    expiry_at(now, expire_ms)
}

/// The abstract value of one prepared update.
pub ghost struct PreparedUpdateV {
    pub profile_id: i64,
    pub enc_entry: EncEntryV,
    pub enc_tags: Option<Seq<EncEntryTagV>>,
    pub expire_ms: Option<i64>,
}

/// The encrypted, ready-to-persist form of one update request.
pub struct PreparedUpdate {
    /// The profile the record belongs to.
    pub profile_id: ProfileId,
    /// The encrypted entry record.
    pub enc_entry: crate::types::EncEntry,
    /// The encrypted searchable tags, where the request carried tags.
    pub enc_tags: Option<Vec<crate::types::EncEntryTag>>,
    /// The absolute expiry timestamp in milliseconds, where the request
    /// carried a relative expiry offset.
    pub expire_ms: Option<Expiry>,
}

impl View for PreparedUpdate {
    type V = PreparedUpdateV;

    open spec fn view(&self) -> PreparedUpdateV {
        PreparedUpdateV {
            profile_id: self.profile_id,
            enc_entry: self.enc_entry@,
            enc_tags: enc_tags_view(&self.enc_tags),
            expire_ms: self.expire_ms,
        }
    }
}

/// Whether one update request can be prepared at the moment `now_ms`:
/// its entry encrypts, and its expiry, if any, stays representable.
pub open spec fn item_ok<E: EncryptionKey>(e: &E, now_ms: i64, u: UpdateEntryV) -> bool {
    &&& e.entry_ct(u.entry) is Some
    &&& match u.expire_ms {
        Some(d) => i64::MIN <= now_ms + d <= i64::MAX,
        None => true,
    }
}

/// The error the preparation of one update request reports: an
/// encryption failure, else a timestamp overflow.
pub open spec fn item_err<E: EncryptionKey>(e: &E, now_ms: i64, u: UpdateEntryV) -> KvError {
    if e.entry_ct(u.entry) is None {
        KvError::Encryption
    } else {
        KvError::Timestamp
    }
}

/// The prepared form of one update request, under `item_ok`.
pub open spec fn item_prepared<E: EncryptionKey>(
    e: &E,
    profile_id: i64,
    now_ms: i64,
    u: UpdateEntryV,
) -> PreparedUpdateV {
    PreparedUpdateV {
        profile_id,
        enc_entry: e.entry_ct(u.entry).unwrap().0,
        enc_tags: e.entry_ct(u.entry).unwrap().1,
        expire_ms: match u.expire_ms {
            Some(d) => Some((now_ms + d) as i64),
            None => None,
        },
    }
}

/// Encrypts a batch of update requests as of the moment `now_ms`,
/// strictly in input order: the result holds one prepared update per
/// request, in the same order, each with the entry's ciphertext and the
/// absolute expiry. The first failure — a refused encryption or an
/// unrepresentable expiry — aborts the whole batch with that item's
/// error and no partial output.
pub fn prepare_update_at<E: EncryptionKey>(
    profile_id: ProfileId,
    now_ms: i64,
    key: &E,
    entries: Vec<UpdateEntry>,
) -> (r: Result<Vec<PreparedUpdate>, KvError>)
    ensures
        match r {
            Ok(v) => {
                &&& v@.len() == entries@.len()
                &&& forall|i: int|
                    0 <= i < entries@.len() ==> item_ok(key, now_ms, #[trigger] entries@[i]@)
                &&& forall|i: int|
                    0 <= i < entries@.len() ==> #[trigger] v@[i]@ == item_prepared(
                        key,
                        profile_id,
                        now_ms,
                        entries@[i]@,
                    )
            },
            Err(err) => exists|i: int|
                {
                    &&& 0 <= i < entries@.len()
                    &&& !item_ok(key, now_ms, #[trigger] entries@[i]@)
                    &&& forall|j: int| 0 <= j < i ==> item_ok(key, now_ms, #[trigger] entries@[j]@)
                    &&& err == item_err(key, now_ms, entries@[i]@)
                },
        },
{
    let mut updates: Vec<PreparedUpdate> = Vec::new();
    let mut i: usize = 0;
    while i < entries.len()
        invariant
            i <= entries@.len(),
            updates@.len() == i,
            forall|k: int| 0 <= k < i ==> item_ok(key, now_ms, #[trigger] entries@[k]@),
            forall|k: int|
                0 <= k < i ==> #[trigger] updates@[k]@ == item_prepared(
                    key,
                    profile_id,
                    now_ms,
                    entries@[k]@,
                ),
        decreases entries@.len() - i,
    {
        let ghost i0 = i as int;
        let update = &entries[i];
        let (enc_entry, enc_tags) = match key.encrypt_entry(&update.entry) {
            Ok(enc) => enc,
            Err(err) => {
                proof {
                    assert(!item_ok(key, now_ms, entries@[i0]@));
                }
                return Err(err);
            },
        };
        let expire_ms = match update.expire_ms {
            Some(d) => match expiry_at(now_ms, d) {
                Ok(t) => Some(t),
                Err(err) => {
                    proof {
                        assert(!item_ok(key, now_ms, entries@[i0]@));
                    }
                    return Err(err);
                },
            },
            None => None,
        };
        let prepared = PreparedUpdate { profile_id, enc_entry, enc_tags, expire_ms };
        proof {
            assert(prepared@ == item_prepared(key, profile_id, now_ms, entries@[i0]@));
        }
        updates.push(prepared);
        i = i + 1;
    }
    Ok(updates)
}

/// Encrypts a batch of update requests into ciphertext-ready records,
/// preserving input order, with expiries taken relative to the present
/// moment. All-or-nothing: any failure aborts the whole batch. A batch
/// in which nothing can fail — every entry encrypts and none carries an
/// expiry offset, the empty batch included — succeeds whatever the
/// clock reads; an encryption error names a refused entry, a timestamp
/// error an entry with an expiry offset.
pub fn prepare_update<E: EncryptionKey>(
    profile_id: ProfileId,
    key: &E,
    entries: Vec<UpdateEntry>,
) -> (r: Result<Vec<PreparedUpdate>, KvError>)
    ensures
        match r {
            Ok(v) => {
                &&& v@.len() == entries@.len()
                &&& forall|i: int|
                    0 <= i < entries@.len() ==> key.entry_ct(
                        #[trigger] entries@[i]@.entry,
                    ) is Some
                &&& forall|i: int|
                    0 <= i < entries@.len() ==> {
                        &&& (#[trigger] v@[i]@).profile_id == profile_id
                        &&& v@[i]@.enc_entry == key.entry_ct(entries@[i]@.entry).unwrap().0
                        &&& v@[i]@.enc_tags == key.entry_ct(entries@[i]@.entry).unwrap().1
                        &&& (v@[i]@.expire_ms is Some <==> entries@[i]@.expire_ms is Some)
                    }
            },
            Err(err) => err == KvError::Encryption || err == KvError::Timestamp,
        },
        (forall|i: int|
            0 <= i < entries@.len() ==> key.entry_ct(#[trigger] entries@[i]@.entry) is Some
                && entries@[i]@.expire_ms is None) ==> r is Ok,
        (r matches Err(err) && err == KvError::Encryption) ==> exists|i: int|
            0 <= i < entries@.len() && key.entry_ct(#[trigger] entries@[i]@.entry) is None,
        (r matches Err(err) && err == KvError::Timestamp) ==> exists|i: int|
            0 <= i < entries@.len() && (#[trigger] entries@[i]@).expire_ms is Some,
{
    let ghost es = entries@;
    let now = now_millis();
    let r = prepare_update_at(profile_id, now, key, entries);
    proof {
        if r is Err {
            let i = choose|i: int|
                {
                    &&& 0 <= i < es.len()
                    &&& !item_ok(key, now, #[trigger] es[i]@)
                    &&& forall|j: int| 0 <= j < i ==> item_ok(key, now, #[trigger] es[j]@)
                    &&& r->Err_0 == item_err(key, now, es[i]@)
                };
            if key.entry_ct(es[i]@.entry) is None {
                assert(r->Err_0 == KvError::Encryption);
            } else {
                assert(es[i]@.expire_ms is Some);
                assert(r->Err_0 == KvError::Timestamp);
            }
        }
    }
    r
}

} // verus!
