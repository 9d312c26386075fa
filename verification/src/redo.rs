//! The redo log: the on-disk form of a chain.
//!
//! A log opens with the magic header and then holds length-prefixed
//! frames, one per event.  Replay parses frames in order and stops at
//! the first partial or corrupt frame, recovering everything written
//! before it.  The log carries a ghost list of the events it holds,
//! pinned to the replay parse of its own byte image, so reopening a
//! log is proved to reconstruct exactly the events that were appended.

use vstd::prelude::*;
use crate::codec::enc_meta;
use crate::codec::lemma_p_le_enc;
use crate::codec::lemma_p_meta_enc;
use crate::codec::lemma_split_at;
use crate::codec::meta_to_bytes;
use crate::codec::p_le;
use crate::codec::p_meta;
use crate::codec::p_u8;
use crate::codec::read_meta;
use crate::codec::wf_core;
use crate::codec::wf_meta;
use crate::crypto::le_enc;
use crate::crypto::lemma_le_dec_bound;
use crate::crypto::lemma_le_enc_len;
use crate::crypto::pow256;
use crate::crypto::push_all;
use crate::crypto::read_le;
use crate::crypto::write_le;
use crate::error::LogError;
use crate::event::EventData;
use crate::event::EventDataV;
use crate::event::MessageFormat;
use crate::meta::CoreMetadata;
use crate::meta::Metadata;

verus! {

/// Addresses one stored event: the log file index and the byte offset
/// of its frame, always a valid frame start.
#[derive(Debug, Clone, Copy, PartialEq, Eq, Structural)]
pub struct LogLookup {
    pub index: u32,
    pub offset: u64,
}

/// The magic header this library stamps on a fresh log file.
pub open spec fn magic_bytes() -> Seq<u8> {
    seq![0x56u8, 0x31u8, 0x00u8, 0x00u8]
}

/// Whether an image opens with an accepted magic header: the first
/// version or a later one.
pub open spec fn spec_magic_ok(s: Seq<u8>) -> bool {
    &&& s.len() >= 4
    &&& s[0] == 0x56u8
    &&& 0x31u8 <= s[1]
    &&& s[2] == 0x00u8
    &&& s[3] == 0x00u8
}

pub open spec fn fmt_byte(f: MessageFormat) -> u8 {
    match f {
        MessageFormat::Binary => 0,
        MessageFormat::Json => 1,
    }
}

pub open spec fn p_fmt(b: u8) -> Option<MessageFormat> {
    if b == 0 {
        Some(MessageFormat::Binary)
    } else if b == 1 {
        Some(MessageFormat::Json)
    } else {
        None
    }
}

pub open spec fn spec_dlen(d: Option<Seq<u8>>) -> int {
    match d {
        None => 0,
        Some(x) => x.len() as int,
    }
}

pub open spec fn spec_dbytes(d: Option<Seq<u8>>) -> Seq<u8> {
    match d {
        None => Seq::empty(),
        Some(x) => x,
    }
}

/// One frame: meta length, data length, format byte, meta bytes, and
/// the payload bytes when there are any.
pub open spec fn enc_frame(mb: Seq<u8>, d: Option<Seq<u8>>, f: MessageFormat) -> Seq<u8> {
    le_enc(mb.len() as int, 4) + le_enc(spec_dlen(d), 4) + seq![fmt_byte(f)] + mb + spec_dbytes(d)
}

/// The framed byte form of one event.
pub open spec fn enc_event(e: EventDataV) -> Seq<u8> {
    enc_frame(enc_meta(e.meta), e.data, e.format)
}

/// Whether an event fits a frame: the encoded metadata fits a 32-bit
/// length, and the payload, if any, is non-empty and fits one too.
pub open spec fn spec_framable(e: EventDataV) -> bool {
    &&& enc_meta(e.meta).len() < 0x1_0000_0000
    &&& (match e.data {
        Some(d) => 0 < d.len() < 0x1_0000_0000,
        None => true,
    })
}

/// Whether an event can be framed and parsed back: its metadata is
/// encodable and it fits a frame.
pub open spec fn wf_event_enc(e: EventDataV) -> bool {
    &&& wf_meta(e.meta)
    &&& spec_framable(e)
}

/// Parses one frame at `i`.
pub open spec fn p_frame(s: Seq<u8>, i: int) -> Option<
    ((Seq<u8>, Option<Seq<u8>>, MessageFormat), int),
> {
    match p_le(s, i, 4) {
        Some((ml, j1)) => {
            match p_le(s, j1, 4) {
                Some((dl, j2)) => {
                    match p_u8(s, j2) {
                        Some((fb, j3)) => {
                            match p_fmt(fb) {
                                Some(f) => {
                                    if j3 + ml + dl <= s.len() {
                                        Some((
                                            (
                                                s.subrange(j3, j3 + ml),
                                                if dl == 0 {
                                                    None
                                                } else {
                                                    Some(s.subrange(j3 + ml, j3 + ml + dl))
                                                },
                                                f,
                                            ),
                                            j3 + ml + dl,
                                        ))
                                    } else {
                                        None
                                    }
                                },
                                None => None,
                            }
                        },
                        None => None,
                    }
                },
                None => None,
            }
        },
        None => None,
    }
}

/// Parses one event at `i`: a frame whose meta bytes decode fully.
pub open spec fn p_event(s: Seq<u8>, i: int) -> Option<(EventDataV, int)> {
    match p_frame(s, i) {
        Some(((mb, d, f), j)) => {
            match p_meta(mb, 0) {
                Some((mv, used)) => {
                    if used == mb.len() {
                        Some((EventDataV { meta: mv, data: d, format: f }, j))
                    } else {
                        None
                    }
                },
                None => None,
            }
        },
        None => None,
    }
}

pub proof fn lemma_pow256_u32()
    ensures
        pow256(4) == 0x1_0000_0000int,
{
    reveal_with_fuel(pow256, 5);
}

/// A parsed frame always advances the position and stays in bounds.
pub proof fn lemma_p_event_advances(s: Seq<u8>, i: int)
    ensures
        match p_event(s, i) {
            Some((e, j)) => i + 9 <= j <= s.len(),
            None => true,
        },
{
    match p_le(s, i, 4) {
        Some((ml, _)) => {
            lemma_le_dec_bound(s.subrange(i, i + 4));
            match p_le(s, i + 4, 4) {
                Some((dl, _)) => {
                    lemma_le_dec_bound(s.subrange(i + 4, i + 8));
                },
                None => {},
            }
        },
        None => {},
    }
}

/// Framing inverts: a buffer holding a framed event at `i` parses back
/// to exactly that event.
pub proof fn lemma_p_event_enc(s: Seq<u8>, i: int, e: EventDataV)
    requires
        0 <= i,
        wf_event_enc(e),
        i + enc_event(e).len() <= s.len(),
        s.subrange(i, i + enc_event(e).len()) == enc_event(e),
    ensures
        p_event(s, i) == Some((e, i + enc_event(e).len())),
        enc_event(e).len() >= 9,
{
    let mb = enc_meta(e.meta);
    let db = spec_dbytes(e.data);
    let ml = mb.len() as int;
    let dl = spec_dlen(e.data);
    let a = le_enc(ml, 4);
    let b = le_enc(dl, 4);
    let c = seq![fmt_byte(e.format)];
    lemma_le_enc_len(ml, 4);
    lemma_le_enc_len(dl, 4);
    assert(enc_event(e) =~= a + (b + (c + (mb + db))));
    lemma_split_at(s, i, a, b + (c + (mb + db)));
    lemma_split_at(s, i + 4, b, c + (mb + db));
    lemma_split_at(s, i + 8, c, mb + db);
    lemma_split_at(s, i + 9, mb, db);
    lemma_pow256_u32();
    lemma_p_le_enc(s, i, ml, 4);
    lemma_p_le_enc(s, i + 4, dl, 4);
    assert(s.subrange(i + 8, i + 9)[0] == s[i + 8]);
    assert(p_u8(s, i + 8) == Some((fmt_byte(e.format), i + 9)));
    assert(p_fmt(fmt_byte(e.format)) == Some(e.format));
    assert(mb.subrange(0, mb.len() as int) =~= mb);
    lemma_p_meta_enc(mb, 0, e.meta);
    match e.data {
        Some(d) => {
            assert(s.subrange(i + 9 + ml, i + 9 + ml + dl) == d);
        },
        None => {
            assert(dl == 0);
        },
    }
}

/// A successful parse is stable under appending bytes at the end.
pub proof fn lemma_p_event_extend(s: Seq<u8>, t: Seq<u8>, i: int)
    requires
        p_event(s, i) is Some,
    ensures
        p_event(s + t, i) == p_event(s, i),
{
    let s2 = s + t;
    lemma_p_event_advances(s, i);
    match p_le(s, i, 4) {
        Some((ml, _)) => {
            lemma_le_dec_bound(s.subrange(i, i + 4));
            assert(s2.subrange(i, i + 4) =~= s.subrange(i, i + 4));
            match p_le(s, i + 4, 4) {
                Some((dl, _)) => {
                    lemma_le_dec_bound(s.subrange(i + 4, i + 8));
                    assert(s2.subrange(i + 4, i + 8) =~= s.subrange(i + 4, i + 8));
                    match p_frame(s, i) {
                        Some(((mb, d, f), j)) => {
                            assert(j == i + 9 + ml + dl);
                            assert(i + 9 + ml + dl <= s.len());
                            assert(s2.subrange(i + 9, i + 9 + ml) =~= s.subrange(
                                i + 9,
                                i + 9 + ml,
                            ));
                            if dl != 0 {
                                assert(s2.subrange(i + 9 + ml, i + 9 + ml + dl) =~= s.subrange(
                                    i + 9 + ml,
                                    i + 9 + ml + dl,
                                ));
                            }
                        },
                        None => {},
                    }
                },
                None => {},
            }
        },
        None => {},
    }
}

/// A successful parse that fits inside a prefix also parses inside the
/// prefix alone.
pub proof fn lemma_p_event_restrict(s: Seq<u8>, m: int, i: int)
    requires
        0 <= i,
        match p_event(s, i) {
            Some((e, j)) => j <= m <= s.len(),
            None => false,
        },
    ensures
        p_event(s.subrange(0, m), i) == p_event(s, i),
{
    let sub = s.subrange(0, m);
    lemma_p_event_advances(s, i);
    match p_le(s, i, 4) {
        Some((ml, _)) => {
            lemma_le_dec_bound(s.subrange(i, i + 4));
            assert(sub.subrange(i, i + 4) =~= s.subrange(i, i + 4));
            match p_le(s, i + 4, 4) {
                Some((dl, _)) => {
                    lemma_le_dec_bound(s.subrange(i + 4, i + 8));
                    assert(sub.subrange(i + 4, i + 8) =~= s.subrange(i + 4, i + 8));
                    match p_frame(s, i) {
                        Some(((mb, d, f), j)) => {
                            assert(j == i + 9 + ml + dl);
                            assert(i + 9 + ml + dl <= m);
                            assert(sub.subrange(i + 9, i + 9 + ml) =~= s.subrange(
                                i + 9,
                                i + 9 + ml,
                            ));
                            if dl != 0 {
                                assert(sub.subrange(i + 9 + ml, i + 9 + ml + dl) =~= s.subrange(
                                    i + 9 + ml,
                                    i + 9 + ml + dl,
                                ));
                            }
                        },
                        None => {},
                    }
                },
                None => {},
            }
        },
        None => {},
    }
}

/// Replay: parses events in order from `i`, stopping at the first
/// position that does not hold a whole well-formed frame.  This is the
/// truncation-recovery rule: everything before the first bad frame is
/// recovered, nothing after it.
pub open spec fn p_events(s: Seq<u8>, i: int) -> Seq<(int, EventDataV)>
    decreases s.len() - i,
    when 0 <= i <= s.len()
{
    match p_event(s, i) {
        Some((e, j)) => {
            if i < j <= s.len() {
                seq![(i, e)] + p_events(s, j)
            } else {
                Seq::empty()
            }
        },
        None => Seq::empty(),
    }
}

/// The position where replay from `i` stops.
pub open spec fn p_events_end(s: Seq<u8>, i: int) -> int
    decreases s.len() - i,
    when 0 <= i <= s.len()
{
    match p_event(s, i) {
        Some((e, j)) => {
            if i < j <= s.len() {
                p_events_end(s, j)
            } else {
                i
            }
        },
        None => i,
    }
}

pub proof fn lemma_p_events_end_bounds(s: Seq<u8>, i: int)
    requires
        0 <= i <= s.len(),
    ensures
        i <= p_events_end(s, i) <= s.len(),
    decreases s.len() - i,
{
    match p_event(s, i) {
        Some((e, j)) => {
            if i < j <= s.len() {
                lemma_p_events_end_bounds(s, j);
            }
        },
        None => {},
    }
}

/// Replay distributes over appending bytes to a fully-parsed image.
pub proof fn lemma_p_events_extend(s: Seq<u8>, t: Seq<u8>, i: int)
    requires
        0 <= i <= s.len(),
        p_events_end(s, i) == s.len(),
    ensures
        p_events(s + t, i) == p_events(s, i) + p_events(s + t, s.len() as int),
        p_events_end(s + t, i) == p_events_end(s + t, s.len() as int),
    decreases s.len() - i,
{
    let s2 = s + t;
    match p_event(s, i) {
        Some((e, j)) => {
            lemma_p_event_advances(s, i);
            lemma_p_event_extend(s, t, i);
            lemma_p_events_extend(s, t, j);
            assert(p_events(s2, i) =~= p_events(s, i) + p_events(s2, s.len() as int));
        },
        None => {
            assert(p_events_end(s, i) == i);
            assert(i == s.len());
            assert(p_events(s, i) =~= Seq::<(int, EventDataV)>::empty());
            assert(p_events(s2, i) =~= p_events(s, i) + p_events(s2, s.len() as int));
        },
    }
}

/// Replay of a fully-parsed region is the same inside the prefix that
/// holds it.
pub proof fn lemma_p_events_restrict(s: Seq<u8>, i: int, m: int)
    requires
        0 <= i <= m <= s.len(),
        p_events_end(s, i) <= m,
    ensures
        p_events(s.subrange(0, m), i) == p_events(s, i),
        p_events_end(s.subrange(0, m), i) == p_events_end(s, i),
    decreases s.len() - i,
{
    let sub = s.subrange(0, m);
    match p_event(s, i) {
        Some((e, j)) => {
            lemma_p_event_advances(s, i);
            lemma_p_events_end_bounds(s, j);
            lemma_p_event_restrict(s, m, i);
            lemma_p_events_restrict(s, j, m);
            assert(p_events(sub, i) =~= p_events(s, i));
        },
        None => {
            match p_event(sub, i) {
                Some((e2, j2)) => {
                    lemma_p_event_extend(sub, s.subrange(m, s.len() as int), i);
                    assert(sub + s.subrange(m, s.len() as int) =~= s);
                    assert(false);
                },
                None => {
                    assert(p_events(sub, i) =~= p_events(s, i));
                },
            }
        },
    }
}

/// Each replayed pair parses individually at its recorded offset.
pub proof fn lemma_p_events_elements(s: Seq<u8>, i: int)
    requires
        0 <= i <= s.len(),
    ensures
        forall|k: int|
            0 <= k < p_events(s, i).len() ==> {
                &&& 0 <= #[trigger] p_events(s, i)[k].0 <= s.len()
                &&& (match p_event(s, p_events(s, i)[k].0) {
                    Some((e, _)) => e == p_events(s, i)[k].1,
                    None => false,
                })
            },
    decreases s.len() - i,
{
    match p_event(s, i) {
        Some((e, j)) => {
            if i < j <= s.len() {
                lemma_p_events_elements(s, j);
                assert forall|k: int| 0 <= k < p_events(s, i).len() implies {
                    &&& 0 <= #[trigger] p_events(s, i)[k].0 <= s.len()
                    &&& (match p_event(s, p_events(s, i)[k].0) {
                        Some((e2, _)) => e2 == p_events(s, i)[k].1,
                        None => false,
                    })
                } by {
                    if k > 0 {
                        assert(p_events(s, i)[k] == p_events(s, j)[k - 1]);
                    }
                }
            }
        },
        None => {},
    }
}


/// Appending one frame to a fully-parsed image appends one entry to
/// its replay.
pub proof fn lemma_append_effect(base: Seq<u8>, e: EventDataV, entries: Seq<(int, EventDataV)>)
    requires
        base.len() >= 4,
        spec_magic_ok(base),
        p_events(base, 4) == entries,
        p_events_end(base, 4) == base.len(),
        wf_event_enc(e),
    ensures
        p_events(base + enc_event(e), 4) == entries.push((base.len() as int, e)),
        p_events_end(base + enc_event(e), 4) == (base + enc_event(e)).len(),
        spec_magic_ok(base + enc_event(e)),
        p_event(base + enc_event(e), base.len() as int) == Some(
            (e, (base + enc_event(e)).len() as int),
        ),
{
    let s2 = base + enc_event(e);
    assert(s2.subrange(base.len() as int, s2.len() as int) =~= enc_event(e));
    lemma_p_event_enc(s2, base.len() as int, e);
    lemma_p_events_extend(base, enc_event(e), 4);
    assert(p_le(s2, s2.len() as int, 4) is None);
    assert(p_event(s2, s2.len() as int) is None);
    assert(p_events(s2, s2.len() as int) =~= Seq::<(int, EventDataV)>::empty());
    assert(p_events_end(s2, s2.len() as int) == s2.len());
    assert(p_events(s2, base.len() as int) =~= seq![(base.len() as int, e)]);
    assert(p_events_end(s2, base.len() as int) == s2.len());
    assert(p_events(s2, 4) =~= entries.push((base.len() as int, e)));
    assert(s2[0] == base[0] && s2[1] == base[1] && s2[2] == base[2] && s2[3] == base[3]);
}

/// Reads exactly `n` bytes at `*pos` into a fresh buffer.
pub fn read_exact(buf: &Vec<u8>, pos: &mut usize, n: usize) -> (r: Option<Vec<u8>>)
    requires
        *old(pos) <= buf@.len(),
    ensures
        match r {
            Some(v) => {
                &&& *old(pos) + n <= buf@.len()
                &&& *final(pos) == *old(pos) + n
                &&& v@ == buf@.subrange(*old(pos) as int, (*old(pos) + n) as int)
            },
            None => {
                &&& *old(pos) + n > buf@.len()
                &&& *final(pos) == *old(pos)
            },
        },
{
    if buf.len() - *pos < n {
        return None;
    }
    let from: usize = *pos;
    let mut v: Vec<u8> = Vec::new();
    let mut k: usize = 0;
    while k < n
        invariant
            k <= n,
            from + n <= buf@.len(),
            from + n <= usize::MAX,
            v@ == buf@.subrange(from as int, (from + k) as int),
        decreases n - k,
    {
        v.push(buf[from + k]);
        k = k + 1;
        proof {
            assert(buf@.subrange(from as int, (from + k) as int) =~= buf@.subrange(
                from as int,
                (from + k - 1) as int,
            ).push(buf@[(from + k - 1) as int]));
        }
    }
    *pos = from + n;
    Some(v)
}

/// Reads one framed event at `*pos`, advancing past it.
pub fn read_event(buf: &Vec<u8>, pos: &mut usize) -> (r: Option<EventData>)
    requires
        *old(pos) <= buf@.len(),
    ensures
        match r {
            Some(e) => {
                &&& p_event(buf@, *old(pos) as int) == Some((e@, *final(pos) as int))
                &&& *old(pos) < *final(pos) <= buf@.len()
            },
            None => {
                &&& p_event(buf@, *old(pos) as int) is None
                &&& *final(pos) == *old(pos)
            },
        },
{
    let start: usize = *pos;
    let ml128 = match read_le(buf, pos, 4) {
        Some(v) => v,
        None => {
            return None;
        },
    };
    proof {
        lemma_le_dec_bound(buf@.subrange(start as int, start + 4));
        lemma_pow256_u32();
    }
    let ml: usize = ml128 as usize;
    let dl128 = match read_le(buf, pos, 4) {
        Some(v) => v,
        None => {
            *pos = start;
            return None;
        },
    };
    proof {
        lemma_le_dec_bound(buf@.subrange(start + 4, start + 8));
    }
    let dl: usize = dl128 as usize;
    let fb = match crate::codec::read_u8(buf, pos) {
        Some(v) => v,
        None => {
            *pos = start;
            return None;
        },
    };
    let format = if fb == 0 {
        MessageFormat::Binary
    } else if fb == 1 {
        MessageFormat::Json
    } else {
        *pos = start;
        return None;
    };
    let mb = match read_exact(buf, pos, ml) {
        Some(v) => v,
        None => {
            *pos = start;
            return None;
        },
    };
    let data_bytes = if dl == 0 {
        None
    } else {
        match read_exact(buf, pos, dl) {
            Some(v) => Some(v),
            None => {
                *pos = start;
                return None;
            },
        }
    };
    let mut mpos: usize = 0;
    let meta = match read_meta(&mb, &mut mpos) {
        Some(m) => m,
        None => {
            *pos = start;
            return None;
        },
    };
    if mpos != mb.len() {
        *pos = start;
        return None;
    }
    Some(EventData { meta, data_bytes, format })
}

/// The redo log of one chain file: the byte image, the watermarks of
/// what has been handed to the OS and what has been fsynced, and the
/// ghost list of events the image holds.
pub struct RedoLog {
    pub index: u32,
    pub data: Vec<u8>,
    pub flushed: usize,
    pub synced: usize,
    pub entries: Ghost<Seq<(int, EventDataV)>>,
}

impl RedoLog {
    /// The image starts with the magic header, replay of the image
    /// recovers exactly the recorded entries, and replay consumes the
    /// image whole.
    pub open spec fn wf(&self) -> bool {
        &&& self.data@.len() >= 4
        &&& spec_magic_ok(self.data@)
        &&& p_events(self.data@, 4) == self.entries@
        &&& p_events_end(self.data@, 4) == self.data@.len()
        &&& self.synced <= self.flushed <= self.data@.len()
    }

    /// The events the log holds, in order, without their offsets.
    pub open spec fn history(&self) -> Seq<EventDataV> {
        self.entries@.map_values(|p: (int, EventDataV)| p.1)
    }

    /// A fresh log: the magic header is stamped and fsynced.
    pub fn new(index: u32) -> (r: RedoLog)
        ensures
            r.wf(),
            r.index == index,
            r.entries@ =~= Seq::<(int, EventDataV)>::empty(),
            r.data@ == magic_bytes(),
            r.synced == 4,
    {
        let mut data: Vec<u8> = Vec::new();
        data.push(0x56u8);
        data.push(0x31u8);
        data.push(0x00u8);
        data.push(0x00u8);
        proof {
            assert(data@ =~= magic_bytes());
            assert(spec_magic_ok(data@));
            assert(p_le(data@, 4, 4) is None);
            assert(p_events(data@, 4) =~= Seq::<(int, EventDataV)>::empty());
        }
        RedoLog { index, data, flushed: 4, synced: 4, entries: Ghost(Seq::empty()) }
    }

    /// Appends one framed event at the end of the log.  The bytes are
    /// durable only after `sync`.
    #[verifier::rlimit(50)]
    pub fn append(&mut self, evt: &EventData) -> (r: Result<LogLookup, LogError>)
        requires
            old(self).wf(),
        ensures
            match r {
                Ok(lookup) => {
                    &&& final(self).wf()
                    &&& final(self).index == old(self).index
                    &&& final(self).synced == old(self).synced
                    &&& lookup.index == old(self).index
                    &&& lookup.offset as int == old(self).data@.len()
                    &&& final(self).data@ == old(self).data@ + enc_event(evt@)
                    &&& final(self).entries@ == old(self).entries@.push(
                        (old(self).data@.len() as int, evt@),
                    )
                    &&& wf_event_enc(evt@)
                    &&& p_event(final(self).data@, lookup.offset as int) == Some(
                        (evt@, final(self).data@.len() as int),
                    )
                },
                Err(e) => *final(self) == *old(self) && (match e {
                    LogError::Oversize => enc_meta(evt@.meta).len() >= 0x1_0000_0000
                        || spec_dlen(evt@.data) >= 0x1_0000_0000,
                    LogError::EmptyPayload => evt@.data == Some(Seq::<u8>::empty())
                        && enc_meta(evt@.meta).len() < 0x1_0000_0000,
                    _ => false,
                }),
            },
    {
        let meta_bytes = meta_to_bytes(&evt.meta);
        if (meta_bytes.len() as u64) >= 0x1_0000_0000u64 {
            return Err(LogError::Oversize);
        }
        match &evt.data_bytes {
            Some(d) => {
                if d.len() == 0 {
                    return Err(LogError::EmptyPayload);
                }
                if (d.len() as u64) >= 0x1_0000_0000u64 {
                    return Err(LogError::Oversize);
                }
            },
            None => {},
        }
        let offset: u64 = self.data.len() as u64;
        let ghost base = self.data@;
        write_le(&mut self.data, meta_bytes.len() as u128, 4);
        match &evt.data_bytes {
            Some(d) => write_le(&mut self.data, d.len() as u128, 4),
            None => write_le(&mut self.data, 0u128, 4),
        }
        match evt.format {
            MessageFormat::Binary => self.data.push(0u8),
            MessageFormat::Json => self.data.push(1u8),
        }
        push_all(&mut self.data, &meta_bytes);
        match &evt.data_bytes {
            Some(d) => push_all(&mut self.data, d),
            None => {},
        }
        proof {
            lemma_metadata_encodable(&evt.meta);
            assert(self.data@ =~= base + enc_event(evt@));
            lemma_append_effect(base, evt@, old(self).entries@);
        }
        self.entries = Ghost(self.entries@.push((offset as int, evt@)));
        Ok(LogLookup { index: self.index, offset })
    }

    /// Parses the event stored at `offset`.
    pub fn read_at(&self, offset: u64) -> (r: Option<EventData>)
        ensures
            match r {
                Some(e) => (match p_event(self.data@, offset as int) {
                    Some((ev, _)) => ev == e@,
                    None => false,
                }),
                None => p_event(self.data@, offset as int) is None,
            },
    {
        if offset >= self.data.len() as u64 {
            proof {
                assert(p_le(self.data@, offset as int, 4) is None);
            }
            return None;
        }
        let mut pos: usize = offset as usize;
        read_event(&self.data, &mut pos)
    }

    /// The next append offset.
    pub fn offset(&self) -> (r: u64)
        ensures
            r as int == self.data@.len(),
    {
        self.data.len() as u64
    }

    /// The size of the log in bytes.
    pub fn len(&self) -> (r: u64)
        ensures
            r as int == self.data@.len(),
    {
        self.data.len() as u64
    }

    /// Hands buffered bytes to the OS without fsync.
    pub fn flush(&mut self)
        ensures
            final(self).index == old(self).index,
            final(self).data == old(self).data,
            final(self).entries == old(self).entries,
            final(self).synced == old(self).synced,
            final(self).flushed == final(self).data@.len(),
            old(self).wf() ==> final(self).wf(),
    {
        self.flushed = self.data.len();
    }

    /// Flushes and fsyncs: after this, everything appended so far is
    /// durable.
    pub fn sync(&mut self)
        ensures
            final(self).index == old(self).index,
            final(self).data == old(self).data,
            final(self).entries == old(self).entries,
            final(self).flushed == final(self).data@.len(),
            final(self).synced == final(self).data@.len(),
            old(self).wf() ==> final(self).wf(),
    {
        self.flushed = self.data.len();
        self.synced = self.data.len();
    }

    /// Drops every event and leaves a fresh, stamped log.
    pub fn destroy(&mut self)
        ensures
            final(self).wf(),
            final(self).index == old(self).index,
            final(self).entries@ =~= Seq::<(int, EventDataV)>::empty(),
    {
        let fresh = RedoLog::new(self.index);
        *self = fresh;
    }

    /// Opens a log from its byte image.  An empty image becomes a
    /// fresh stamped log; a header other than the first version or a
    /// later one is refused; otherwise
    /// frames are replayed up to the first partial or corrupt frame —
    /// exactly the truncation-recovery parse — and the recovered
    /// prefix becomes the log image.
    pub fn open(index: u32, bytes: &Vec<u8>) -> (r: Result<
        (RedoLog, Vec<(LogLookup, EventData)>),
        LogError,
    >)
        ensures
            match r {
                Ok((log, evs)) => {
                    &&& log.wf()
                    &&& log.index == index
                    &&& (bytes@.len() == 0 ==> evs@.len() == 0 && log.entries@.len() == 0)
                    &&& (bytes@.len() > 0 ==> {
                        &&& spec_magic_ok(bytes@)
                        &&& log.entries@ == p_events(bytes@, 4)
                        &&& evs@.len() == p_events(bytes@, 4).len()
                        &&& (forall|k: int|
                            0 <= k < evs@.len() ==> {
                                &&& (#[trigger] evs@[k]).1@ == p_events(bytes@, 4)[k].1
                                &&& evs@[k].0.index == index
                                &&& evs@[k].0.offset as int == p_events(bytes@, 4)[k].0
                            })
                    })
                },
                Err(LogError::BadMagic) => bytes@.len() > 0 && !spec_magic_ok(bytes@),
                Err(_) => false,
            },
    {
        if bytes.len() == 0 {
            let log = RedoLog::new(index);
            let evs: Vec<(LogLookup, EventData)> = Vec::new();
            return Ok((log, evs));
        }
        if bytes.len() < 4 {
            return Err(LogError::BadMagic);
        }
        if !(bytes[0] == 0x56u8 && 0x31u8 <= bytes[1] && bytes[2] == 0x00u8 && bytes[3]
            == 0x00u8) {
            return Err(LogError::BadMagic);
        }
        proof {
            assert(spec_magic_ok(bytes@));
        }
        let mut evs: Vec<(LogLookup, EventData)> = Vec::new();
        let mut pos: usize = 4;
        let mut going = true;
        let mut done_tracker: Ghost<Seq<(int, EventDataV)>> = Ghost(Seq::empty());
        proof {
            assert(p_events(bytes@, 4) =~= done_tracker@ + p_events(bytes@, 4));
        }
        while going
            invariant
                4 <= pos <= bytes@.len(),
                evs@.len() == done_tracker@.len(),
                forall|k: int|
                    0 <= k < evs@.len() ==> {
                        &&& (#[trigger] evs@[k]).1@ == done_tracker@[k].1
                        &&& evs@[k].0.index == index
                        &&& evs@[k].0.offset as int == done_tracker@[k].0
                    },
                p_events(bytes@, 4) == done_tracker@ + p_events(bytes@, pos as int),
                p_events_end(bytes@, 4) == p_events_end(bytes@, pos as int),
                !going ==> p_event(bytes@, pos as int) is None,
            decreases bytes@.len() - pos + (if going {
                1int
            } else {
                0int
            }),
        {
            let at: usize = pos;
            let ghost pos_before = at as int;
            match read_event(bytes, &mut pos) {
                Some(e) => {
                    let ghost ev = e@;
                    evs.push((LogLookup { index, offset: at as u64 }, e));
                    done_tracker = Ghost(done_tracker@.push((pos_before, ev)));
                    proof {
                        assert(p_events(bytes@, pos_before) == seq![(pos_before, ev)]
                            + p_events(bytes@, pos as int));
                        assert(done_tracker@ + p_events(bytes@, pos as int) =~= (
                        done_tracker@.drop_last() + p_events(bytes@, pos_before)));
                    }
                },
                None => {
                    going = false;
                },
            }
        }
        proof {
            assert(p_events(bytes@, pos as int) =~= Seq::<(int, EventDataV)>::empty());
            assert(p_events(bytes@, 4) =~= done_tracker@);
            assert(p_events_end(bytes@, pos as int) == pos as int);
        }
        let mut from: usize = 0;
        let data = match read_exact(bytes, &mut from, pos) {
            Some(v) => v,
            None => {
                let log = RedoLog::new(index);
                let evs2: Vec<(LogLookup, EventData)> = Vec::new();
                return Ok((log, evs2));  // unreachable: pos <= bytes.len()
            },
        };
        proof {
            assert(data@ == bytes@.subrange(0, pos as int));
            lemma_p_events_restrict(bytes@, 4, pos as int);
            assert(data@[0] == bytes@[0] && data@[1] == bytes@[1] && data@[2] == bytes@[2]
                && data@[3] == bytes@[3]);
        }
        let log = RedoLog {
            index,
            data,
            flushed: pos,
            synced: pos,
            entries: Ghost(done_tracker@),
        };
        Ok((log, evs))
    }
}

/// Every metadata value held in executable form is encodable: its
/// lists are backed by vectors, whose lengths fit the machine.
pub proof fn lemma_metadata_encodable(m: &Metadata)
    ensures
        wf_meta(m@),
{
    vstd::std_specs::vec::axiom_spec_len(&m.core);
    assert forall|i: int| 0 <= i < m@.len() implies wf_core(#[trigger] m@[i]) by {
        assert(m@[i] == m.core@[i]@);
        lemma_core_encodable(m.core@[i]);
    }
}

proof fn lemma_core_encodable(c: CoreMetadata)
    ensures
        wf_core(c@),
{
    match c {
        CoreMetadata::Authorization(a) => {
            match a.write {
                crate::meta::WriteOption::Any(v) => {
                    vstd::std_specs::vec::axiom_spec_len(&v);
                },
                _ => {},
            }
        },
        CoreMetadata::InitializationVector(iv) => {
            vstd::std_specs::vec::axiom_spec_len(&iv.bytes);
        },
        CoreMetadata::Signature(g) => {
            vstd::std_specs::vec::axiom_spec_len(&g.hashes);
            vstd::std_specs::vec::axiom_spec_len(&g.signature);
            vstd::std_specs::vec::axiom_spec_len(&g.public_key.bytes);
        },
        CoreMetadata::SignWith(sw) => {
            vstd::std_specs::vec::axiom_spec_len(&sw.keys);
        },
        _ => {},
    }
}

} // verus!
