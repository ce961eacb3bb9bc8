//! The encryption capability: the operations a caller-supplied key
//! offers for protecting tag names, tag values and whole entries, and
//! two concrete capabilities of this crate — the pass-through used when
//! no key is supplied, and a keystream capability with a bounded
//! plaintext size.

use vstd::prelude::*;

use crate::types::{enc_tags_view, EncEntry, EncEntryTag, EncEntryTagV, EncEntryV, Entry, EntryV};
use crate::KvError;
use vstd::slice::slice_to_vec;
use vstd::utf8::encode_utf8;

verus! {

/// A caller-supplied symmetric encryption capability. Each operation is
/// a deterministic function of the plaintext and the key alone, so that
/// equal predicates compile to equal ciphertexts and server-side
/// equality matching works; an operation may refuse a plaintext, which
/// callers surface as an encryption failure.
pub trait EncryptionKey {
    /// The ciphertext this capability produces for a tag name, or `None`
    /// where it refuses the plaintext.
    spec fn name_ct(&self, plain: Seq<u8>) -> Option<Seq<u8>>;

    /// The ciphertext this capability produces for a tag value, or
    /// `None` where it refuses the plaintext.
    spec fn value_ct(&self, plain: Seq<u8>) -> Option<Seq<u8>>;

    /// The encrypted record and optional encrypted tag list this
    /// capability produces for a whole entry, or `None` where it refuses
    /// the entry.
    spec fn entry_ct(&self, entry: EntryV) -> Option<(EncEntryV, Option<Seq<EncEntryTagV>>)>;

    /// Encrypts one tag name.
    fn encrypt_tag_name(&self, name: &[u8]) -> (r: Result<Vec<u8>, KvError>)
        ensures
            match r {
                Ok(ct) => self.name_ct(name@) == Some(ct@),
                Err(e) => self.name_ct(name@) is None && e == KvError::Encryption,
            },
    ;

    /// Encrypts one tag value.
    fn encrypt_tag_value(&self, value: &[u8]) -> (r: Result<Vec<u8>, KvError>)
        ensures
            match r {
                Ok(ct) => self.value_ct(value@) == Some(ct@),
                Err(e) => self.value_ct(value@) is None && e == KvError::Encryption,
            },
    ;

    /// Encrypts one whole entry: its payload record and its tag set.
    fn encrypt_entry(&self, entry: &Entry) -> (r: Result<
        (EncEntry, Option<Vec<EncEntryTag>>),
        KvError,
    >)
        ensures
            match r {
                Ok(enc) => self.entry_ct(entry@) == Some((enc.0@, enc_tags_view(&enc.1))),
                Err(e) => self.entry_ct(entry@) is None && e == KvError::Encryption,
            },
    ;
}

/// The capability used when no key is supplied: names and values pass
/// through as their raw UTF-8 bytes, unchanged.
pub struct PlainEncryptor;

/// The encrypted tag a pass-through capability produces.
pub open spec fn plain_tag_ct(name: Seq<char>, value: Seq<char>) -> EncEntryTagV {
    EncEntryTagV { name: encode_utf8(name), value: encode_utf8(value) }
}

impl EncryptionKey for PlainEncryptor {
    open spec fn name_ct(&self, plain: Seq<u8>) -> Option<Seq<u8>> {
        Some(plain)
    }

    open spec fn value_ct(&self, plain: Seq<u8>) -> Option<Seq<u8>> {
        Some(plain)
    }

    open spec fn entry_ct(&self, entry: EntryV) -> Option<
        (EncEntryV, Option<Seq<EncEntryTagV>>),
    > {
        Some(
            (
                EncEntryV {
                    category: encode_utf8(entry.category),
                    name: encode_utf8(entry.name),
                    value: entry.value,
                },
                match entry.tags {
                    Some(ts) => Some(
                        ts.map_values(|t: crate::types::EntryTagV| plain_tag_ct(t.name, t.value)),
                    ),
                    None => None,
                },
            ),
        )
    }

    fn encrypt_tag_name(&self, name: &[u8]) -> (r: Result<Vec<u8>, KvError>) {
        Ok(slice_to_vec(name))
    }

    fn encrypt_tag_value(&self, value: &[u8]) -> (r: Result<Vec<u8>, KvError>) {
        Ok(slice_to_vec(value))
    }

    fn encrypt_entry(&self, entry: &Entry) -> (r: Result<
        (EncEntry, Option<Vec<EncEntryTag>>),
        KvError,
    >) {
        let enc = EncEntry {
            category: entry.category.as_str().as_bytes_vec(),
            name: entry.name.as_str().as_bytes_vec(),
            value: slice_to_vec(entry.value.as_slice()),
        };
        let enc_tags = match &entry.tags {
            Some(ts) => {
                let ghost expected = entry@.tags.unwrap().map_values(
                    |t: crate::types::EntryTagV| plain_tag_ct(t.name, t.value),
                );
                let mut out: Vec<EncEntryTag> = Vec::new();
                let mut i: usize = 0;
                while i < ts.len()
                    invariant
                        i <= ts@.len(),
                        expected.len() == ts@.len(),
                        forall|k: int|
                            0 <= k < ts@.len() ==> expected[k] == plain_tag_ct(
                                ts@[k].name@,
                                ts@[k].value@,
                            ),
                        out@.map_values(|t: EncEntryTag| t@) =~= expected.take(i as int),
                    decreases ts@.len() - i,
                {
                    let ghost i0 = i as int;
                    let ghost out0 = out@;
                    let tag = EncEntryTag {
                        name: ts[i].name.as_str().as_bytes_vec(),
                        value: ts[i].value.as_str().as_bytes_vec(),
                    };
                    proof {
                        assert(tag@ == plain_tag_ct(ts@[i0].name@, ts@[i0].value@));
                        assert(tag@ == expected[i0]);
                    }
                    out.push(tag);
                    i = i + 1;
                    proof {
                        out0.lemma_push_map_commute(|t: EncEntryTag| t@, tag);
                        assert(out@ =~= out0.push(tag));
                        assert(out@.map_values(|t: EncEntryTag| t@) =~= out0.map_values(
                            |t: EncEntryTag| t@,
                        ).push(tag@));
                        assert(expected.take(i as int) =~= expected.take(i0).push(expected[i0]));
                        assert(out@.map_values(|t: EncEntryTag| t@) =~= expected.take(i as int));
                    }
                }
                proof {
                    assert(expected.take(ts@.len() as int) =~= expected);
                }
                Some(out)
            },
            None => None,
        };
        Ok((enc, enc_tags))
    }
}

/// The bytes of `p`, each combined with `key`.
pub open spec fn xored(p: Seq<u8>, key: u8) -> Seq<u8> {
    p.map_values(|b: u8| b ^ key)
}

/// The encrypted tag a keystream capability with key byte `key`
/// produces.
pub open spec fn xor_tag_ct(t: crate::types::EntryTagV, key: u8) -> EncEntryTagV {
    EncEntryTagV {
        name: xored(encode_utf8(t.name), key),
        value: xored(encode_utf8(t.value), key),
    }
}

/// Whether every plaintext field of `e` fits a keystream capability's
/// plaintext bound.
pub open spec fn xor_fits(e: EntryV, cap: int) -> bool {
    &&& encode_utf8(e.category).len() <= cap
    &&& encode_utf8(e.name).len() <= cap
    &&& e.value.len() <= cap
    &&& match e.tags {
        Some(ts) => forall|i: int|
            0 <= i < ts.len() ==> encode_utf8(ts[i].name).len() <= cap && encode_utf8(
                ts[i].value,
            ).len() <= cap,
        None => true,
    }
}

/// Combines each input byte with the key byte, refusing plaintexts
/// longer than `cap`.
fn xor_bytes(input: &[u8], key: u8, cap: usize) -> (r: Result<Vec<u8>, KvError>)
    ensures
        match r {
            Ok(ct) => input@.len() <= cap && ct@ == xored(input@, key),
            Err(e) => input@.len() > cap && e == KvError::Encryption,
        },
{
    if input.len() > cap {
        return Err(KvError::Encryption);
    }
    let v = slice_to_vec(input);
    let mut out: Vec<u8> = Vec::new();
    let mut i: usize = 0;
    while i < v.len()
        invariant
            v@ == input@,
            i <= v@.len(),
            out@.len() == i,
            forall|j: int| 0 <= j < i ==> out@[j] == (v@[j] ^ key),
        decreases v@.len() - i,
    {
        out.push(v[i] ^ key);
        i = i + 1;
    }
    proof {
        assert(out@ =~= xored(input@, key));
    }
    Ok(out)
}

/// A bounded keystream capability: every plaintext byte is combined
/// with one key byte, and plaintexts longer than `cap` are refused. The
/// scheme is deterministic, so equal plaintexts give equal ciphertexts.
pub struct XorEncryptor {
    /// The key byte combined with every plaintext byte.
    pub key: u8,
    /// The longest plaintext the capability accepts, in bytes.
    pub cap: usize,
}

impl EncryptionKey for XorEncryptor {
    open spec fn name_ct(&self, plain: Seq<u8>) -> Option<Seq<u8>> {
        if plain.len() <= self.cap {
            Some(xored(plain, self.key))
        } else {
            None
        }
    }

    open spec fn value_ct(&self, plain: Seq<u8>) -> Option<Seq<u8>> {
        if plain.len() <= self.cap {
            Some(xored(plain, self.key))
        } else {
            None
        }
    }

    open spec fn entry_ct(&self, entry: EntryV) -> Option<
        (EncEntryV, Option<Seq<EncEntryTagV>>),
    > {
        if xor_fits(entry, self.cap as int) {
            Some(
                (
                    EncEntryV {
                        category: xored(encode_utf8(entry.category), self.key),
                        name: xored(encode_utf8(entry.name), self.key),
                        value: xored(entry.value, self.key),
                    },
                    match entry.tags {
                        Some(ts) => Some(
                            ts.map_values(|t: crate::types::EntryTagV| xor_tag_ct(t, self.key)),
                        ),
                        None => None,
                    },
                ),
            )
        } else {
            None
        }
    }

    fn encrypt_tag_name(&self, name: &[u8]) -> (r: Result<Vec<u8>, KvError>) {
        xor_bytes(name, self.key, self.cap)
    }

    fn encrypt_tag_value(&self, value: &[u8]) -> (r: Result<Vec<u8>, KvError>) {
        xor_bytes(value, self.key, self.cap)
    }

    fn encrypt_entry(&self, entry: &Entry) -> (r: Result<
        (EncEntry, Option<Vec<EncEntryTag>>),
        KvError,
    >) {
        let category = match xor_bytes(entry.category.as_str().as_bytes(), self.key, self.cap) {
            Ok(v) => v,
            Err(e) => {
                return Err(e);
            },
        };
        let name = match xor_bytes(entry.name.as_str().as_bytes(), self.key, self.cap) {
            Ok(v) => v,
            Err(e) => {
                return Err(e);
            },
        };
        let value = match xor_bytes(entry.value.as_slice(), self.key, self.cap) {
            Ok(v) => v,
            Err(e) => {
                return Err(e);
            },
        };
        let enc = EncEntry { category, name, value };
        let enc_tags = match &entry.tags {
            Some(ts) => {
                let ghost expected = entry@.tags.unwrap().map_values(
                    |t: crate::types::EntryTagV| xor_tag_ct(t, self.key),
                );
                let mut out: Vec<EncEntryTag> = Vec::new();
                let mut i: usize = 0;
                while i < ts.len()
                    invariant
                        i <= ts@.len(),
                        expected.len() == ts@.len(),
                        entry@.tags == Some(
                            ts@.map_values(|t: crate::types::EntryTag| t@),
                        ),
                        forall|k: int|
                            0 <= k < ts@.len() ==> expected[k] == xor_tag_ct(ts@[k]@, self.key),
                        forall|k: int|
                            0 <= k < i ==> encode_utf8(ts@[k].name@).len() <= self.cap
                                && encode_utf8(ts@[k].value@).len() <= self.cap,
                        out@.map_values(|t: EncEntryTag| t@) =~= expected.take(i as int),
                    decreases ts@.len() - i,
                {
                    let ghost i0 = i as int;
                    let ghost out0 = out@;
                    let tag_name = match xor_bytes(
                        ts[i].name.as_str().as_bytes(),
                        self.key,
                        self.cap,
                    ) {
                        Ok(v) => v,
                        Err(e) => {
                            proof {
                                let tv = entry@.tags.unwrap();
                                assert(tv[i0] == ts@[i0]@);
                                assert(encode_utf8(tv[i0].name).len() > self.cap);
                                assert(!xor_fits(entry@, self.cap as int));
                            }
                            return Err(e);
                        },
                    };
                    let tag_value = match xor_bytes(
                        ts[i].value.as_str().as_bytes(),
                        self.key,
                        self.cap,
                    ) {
                        Ok(v) => v,
                        Err(e) => {
                            proof {
                                let tv = entry@.tags.unwrap();
                                assert(tv[i0] == ts@[i0]@);
                                assert(encode_utf8(tv[i0].value).len() > self.cap);
                                assert(!xor_fits(entry@, self.cap as int));
                            }
                            return Err(e);
                        },
                    };
                    let tag = EncEntryTag { name: tag_name, value: tag_value };
                    proof {
                        assert(tag@ == expected[i0]);
                    }
                    out.push(tag);
                    i = i + 1;
                    proof {
                        out0.lemma_push_map_commute(|t: EncEntryTag| t@, tag);
                        assert(out@ =~= out0.push(tag));
                        assert(expected.take(i as int) =~= expected.take(i0).push(expected[i0]));
                        assert(out@.map_values(|t: EncEntryTag| t@) =~= expected.take(i as int));
                    }
                }
                proof {
                    assert(expected.take(ts@.len() as int) =~= expected);
                    let tv = entry@.tags.unwrap();
                    assert forall|k: int| 0 <= k < tv.len() implies encode_utf8(
                        tv[k].name,
                    ).len() <= self.cap && encode_utf8(tv[k].value).len() <= self.cap by {
                        assert(tv[k] == ts@[k]@);
                    }
                    assert(xor_fits(entry@, self.cap as int));
                }
                Some(out)
            },
            None => None,
        };
        Ok((enc, enc_tags))
    }
}

} // verus!
