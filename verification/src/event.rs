//! The event model.  Every write produces one event: metadata plus an
//! optional payload.  The meta hash digests the canonical metadata
//! bytes, the data hash digests the payload, and the event hash — the
//! canonical identifier — digests the pair.

use vstd::prelude::*;
use crate::codec::enc_meta;
use crate::codec::meta_to_bytes;
use crate::crypto::AteHash;
use crate::crypto::hash128_of;
use crate::crypto::spec_double_hash;
use crate::meta::CoreMetadataV;
use crate::meta::Metadata;

verus! {

/// How a payload is encoded on the wire: a compact binary form or
/// human-readable JSON.  The chain treats the payload as opaque bytes
/// either way.
#[derive(Debug, Clone, Copy, PartialEq, Eq, Structural)]
pub enum MessageFormat {
    Binary,
    Json,
}

/// The mathematical shape of one event.
pub struct EventDataV {
    pub meta: Seq<CoreMetadataV>,
    pub data: Option<Seq<u8>>,
    pub format: MessageFormat,
}

/// One atomic unit of change in a chain: metadata plus an optional
/// payload.  Events are never mutated once stored.
#[derive(Debug)]
pub struct EventData {
    pub meta: Metadata,
    pub data_bytes: Option<Vec<u8>>,
    pub format: MessageFormat,
}

impl View for EventData {
    type V = EventDataV;

    open spec fn view(&self) -> EventDataV {
        EventDataV {
            meta: self.meta@,
            data: match self.data_bytes {
                Some(ref d) => Some(d@),
                None => None,
            },
            format: self.format,
        }
    }
}

/// The meta hash: the digest of the canonical metadata bytes.
pub open spec fn spec_meta_hash(meta: Seq<CoreMetadataV>) -> u128 {
    hash128_of(enc_meta(meta))
}

/// The data hash: the digest of the payload, when one exists.
pub open spec fn spec_data_hash(data: Option<Seq<u8>>) -> Option<u128> {
    match data {
        Some(d) => Some(hash128_of(d)),
        None => None,
    }
}

/// The canonical event identifier: the digest of meta hash and data
/// hash together, or the meta hash alone for payload-less events.
pub open spec fn spec_event_hash(ev: EventDataV) -> u128 {
    match spec_data_hash(ev.data) {
        Some(dh) => spec_double_hash(spec_meta_hash(ev.meta), dh),
        None => spec_meta_hash(ev.meta),
    }
}

/// The header of a stored event: the hashes and the canonical metadata
/// bytes, enough to validate without the payload.
#[derive(Debug)]
pub struct EventHeaderRaw {
    pub meta_hash: AteHash,
    pub meta_bytes: Vec<u8>,
    pub data_hash: Option<AteHash>,
    pub data_size: usize,
    pub event_hash: AteHash,
    pub format: MessageFormat,
}

/// A header together with its decoded metadata.
#[derive(Debug)]
pub struct EventHeader {
    pub raw: EventHeaderRaw,
    pub meta: Metadata,
}

impl EventHeader {
    /// A header is well formed when its hashes and canonical bytes
    /// really are those of its metadata.
    pub open spec fn wf(&self) -> bool {
        &&& self.raw.meta_bytes@ == enc_meta(self.meta@)
        &&& self.raw.meta_hash.val == spec_meta_hash(self.meta@)
        &&& self.raw.event_hash.val == (match self.raw.data_hash {
            Some(dh) => spec_double_hash(self.raw.meta_hash.val, dh.val),
            None => self.raw.meta_hash.val,
        })
    }
}

impl EventData {
    /// A fresh event around existing metadata, with the payload
    /// normalized: an empty payload is no payload.
    pub fn new(meta: Metadata, data: Option<Vec<u8>>, format: MessageFormat) -> (r: EventData)
        ensures
            r@.meta == meta@,
            r@.format == format,
            r@.data == (match data {
                Some(d) => if d@.len() == 0 {
                    None::<Seq<u8>>
                } else {
                    Some(d@)
                },
                None => None::<Seq<u8>>,
            }),
    {
        let data_bytes = match data {
            Some(d) => {
                if d.len() == 0 {
                    None
                } else {
                    Some(d)
                }
            },
            None => None,
        };
        EventData { meta, data_bytes, format }
    }

    /// Computes the stored header of this event: canonical metadata
    /// bytes and the three digests.
    pub fn as_header_raw(&self) -> (r: EventHeaderRaw)
        ensures
            r.meta_bytes@ == enc_meta(self@.meta),
            r.meta_hash.val == spec_meta_hash(self@.meta),
            r.data_hash == (match spec_data_hash(self@.data) {
                Some(dh) => Some(AteHash { val: dh }),
                None => None::<AteHash>,
            }),
            r.event_hash.val == spec_event_hash(self@),
            r.format == self@.format,
    {
        let meta_bytes = meta_to_bytes(&self.meta);
        let meta_hash = AteHash::from_bytes(meta_bytes.as_slice());
        let (data_hash, data_size) = match &self.data_bytes {
            Some(d) => (Some(AteHash::from_bytes(d.as_slice())), d.len()),
            None => (None, 0),
        };
        let event_hash = match &data_hash {
            Some(dh) => crate::crypto::double_hash(&meta_hash, dh),
            None => meta_hash,
        };
        EventHeaderRaw { meta_hash, meta_bytes, data_hash, data_size, event_hash, format: self.format }
    }

    /// Turns this event into a header, keeping the metadata and
    /// dropping the payload (which lives on in the redo log).
    pub fn into_header(self) -> (r: EventHeader)
        ensures
            r.wf(),
            r.meta@ == self@.meta,
            r.raw.data_hash == (match spec_data_hash(self@.data) {
                Some(dh) => Some(AteHash { val: dh }),
                None => None::<AteHash>,
            }),
            r.raw.event_hash.val == spec_event_hash(self@),
            r.raw.format == self@.format,
    {
        let raw = self.as_header_raw();
        EventHeader { raw, meta: self.meta }
    }
}


/// The mathematical shape of a stored header, as the indexer and the
/// trust pipeline see it.
pub struct EventHeaderV {
    pub meta: Seq<CoreMetadataV>,
    pub data_hash: Option<AteHash>,
    pub event_hash: AteHash,
}

impl View for EventHeader {
    type V = EventHeaderV;

    open spec fn view(&self) -> EventHeaderV {
        EventHeaderV {
            meta: self.meta@,
            data_hash: self.raw.data_hash,
            event_hash: self.raw.event_hash,
        }
    }
}


/// The header an event determines: its hashes are functions of its
/// bytes alone, so replaying a log reconstructs identical headers.
pub open spec fn spec_header_of(e: EventDataV) -> EventHeaderV {
    EventHeaderV {
        meta: e.meta,
        data_hash: match spec_data_hash(e.data) {
            Some(d) => Some(AteHash { val: d }),
            None => None,
        },
        event_hash: AteHash { val: spec_event_hash(e) },
    }
}

} // verus!
