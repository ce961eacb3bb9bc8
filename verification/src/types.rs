//! The plaintext and ciphertext record shapes this crate works on.

use vstd::prelude::*;

verus! {

/// Identifies the profile (key namespace) a record belongs to.
pub type ProfileId = i64;

/// The abstract value of one plaintext tag.
pub ghost struct EntryTagV {
    pub name: Seq<char>,
    pub value: Seq<char>,
}

/// One searchable plaintext tag attached to an entry.
pub struct EntryTag {
    pub name: String,
    pub value: String,
}

impl View for EntryTag {
    type V = EntryTagV;

    open spec fn view(&self) -> EntryTagV {
        EntryTagV { name: self.name@, value: self.value@ }
    }
}

/// The abstract value of one plaintext entry.
pub ghost struct EntryV {
    pub category: Seq<char>,
    pub name: Seq<char>,
    pub value: Seq<u8>,
    pub tags: Option<Seq<EntryTagV>>,
}

/// One plaintext entry: an opaque payload addressed by category and
/// name, with an optional set of searchable tags.
pub struct Entry {
    pub category: String,
    pub name: String,
    pub value: Vec<u8>,
    pub tags: Option<Vec<EntryTag>>,
}

impl View for Entry {
    type V = EntryV;

    open spec fn view(&self) -> EntryV {
        EntryV {
            category: self.category@,
            name: self.name@,
            value: self.value@,
            tags: match self.tags {
                Some(ts) => Some(ts@.map_values(|t: EntryTag| t@)),
                None => None,
            },
        }
    }
}

/// An absolute expiry timestamp, in milliseconds since the Unix epoch.
pub type Expiry = i64;

/// The abstract value of one update request.
pub ghost struct UpdateEntryV {
    pub entry: EntryV,
    pub expire_ms: Option<i64>,
}

/// A plaintext intent to upsert one entry, with an optional relative
/// expiry offset in milliseconds.
pub struct UpdateEntry {
    pub entry: Entry,
    pub expire_ms: Option<i64>,
}

impl View for UpdateEntry {
    type V = UpdateEntryV;

    open spec fn view(&self) -> UpdateEntryV {
        UpdateEntryV { entry: self.entry@, expire_ms: self.expire_ms }
    }
}

/// The abstract value of one encrypted entry.
pub ghost struct EncEntryV {
    pub category: Seq<u8>,
    pub name: Seq<u8>,
    pub value: Seq<u8>,
}

/// One encrypted entry, ready to persist.
pub struct EncEntry {
    pub category: Vec<u8>,
    pub name: Vec<u8>,
    pub value: Vec<u8>,
}

impl View for EncEntry {
    type V = EncEntryV;

    open spec fn view(&self) -> EncEntryV {
        EncEntryV { category: self.category@, name: self.name@, value: self.value@ }
    }
}

/// The abstract value of one encrypted tag.
pub ghost struct EncEntryTagV {
    pub name: Seq<u8>,
    pub value: Seq<u8>,
}

/// One encrypted searchable tag.
pub struct EncEntryTag {
    pub name: Vec<u8>,
    pub value: Vec<u8>,
}

impl View for EncEntryTag {
    type V = EncEntryTagV;

    open spec fn view(&self) -> EncEntryTagV {
        EncEntryTagV { name: self.name@, value: self.value@ }
    }
}

/// The abstract value of an optional encrypted tag list.
pub open spec fn enc_tags_view(tags: &Option<Vec<EncEntryTag>>) -> Option<Seq<EncEntryTagV>> {
    match tags {
        Some(ts) => Some(ts@.map_values(|t: EncEntryTag| t@)),
        None => None,
    }
}

} // verus!
