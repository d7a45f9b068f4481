use vstd::prelude::*;
use crate::first::{first_where, is_first_where, lemma_first_where};
use crate::frame::{
    block_entries, entry_views, extract_tcp_payload, find_marker, iter_data_entries, le_u32, le_u64,
    marker_position, read_u32_le, read_u64_le, tcp_payload, DataEntry, EntryView,
};

verus! {

/// Marker that opens a data block in the game's TCP stream.
pub const START_MARKER: [u8; 9] = [0x83, 0x4E, 0x00, 0x00, 0x00, 0x00, 0x00, 0x00, 0x00];

/// Marker that closes a data block in the game's TCP stream.
pub const END_MARKER: [u8; 9] = [0x1A, 0x4F, 0x00, 0x00, 0x00, 0x00, 0x00, 0x00, 0x00];

/// Entry type of a buff that starts on some character.
pub const BUFF_START_DATA_TYPE: u32 = 110055;

/// Entry type of a hit in a fight that involves the player's own character.
pub const SELF_DAMAGE_DATA_TYPE: u32 = 20937;

/// A queued emblem buff older than this (in nanoseconds) is dropped.
pub const MAX_BUFF_AGE_NANOS: u64 = 35_000_000_000;

/// Without a start marker, the stream buffer is cut down once it grows past this many bytes.
pub const MAX_BUFFER_LEN: usize = 1048576;

pub open spec fn start_marker() -> Seq<u8> {
    seq![0x83u8, 0x4Eu8, 0u8, 0u8, 0u8, 0u8, 0u8, 0u8, 0u8]
}

pub open spec fn end_marker() -> Seq<u8> {
    seq![0x1Au8, 0x4Fu8, 0u8, 0u8, 0u8, 0u8, 0u8, 0u8, 0u8]
}

/// An emblem awakening that the timer should start for: the emblem's buff key, the
/// duration its packet carries (seconds, the bits of a 32-bit IEEE 754 number; see
/// `crate::duration`) and when its packet was seen (nanoseconds on the caller's monotonic
/// clock).
#[derive(Clone, Copy, Debug, PartialEq, Eq, Structural)]
pub struct DetectedBuff {
    pub buff_key: u32,
    pub duration_bits: u32,
    pub detected_at: u64,
}

/// An emblem buff seen on some character, waiting to be matched with the player's own
/// character: who it was seen on, the emblem, the duration its packet carries (as in
/// `DetectedBuff`) and when it was seen.
#[derive(Clone, Copy, Debug, PartialEq, Eq, Structural)]
pub struct BufferedBuff {
    pub user_id: u64,
    pub buff_key: u32,
    pub duration_bits: u32,
    pub detected_at: u64,
}

/// What the capture remembers between blocks: the two character ids of the latest
/// self-damage entry (attacker and target; one of them is the player) and the emblem
/// buffs still waiting for a match, oldest first.
pub struct CaptureState {
    pub candidates: (u64, u64),
    pub buff_queue: Vec<BufferedBuff>,
}

/// A capture state by value: candidates and queue.
pub type CaptureView = ((u64, u64), Seq<BufferedBuff>);

impl CaptureState {
    pub open spec fn view(&self) -> CaptureView {
        (self.candidates, self.buff_queue@)
    }

    /// The state at the start of a capture: no candidates yet (both ids zero), empty queue.
    pub fn new() -> (s: CaptureState)
        ensures
            s.view() == ((0u64, 0u64), Seq::<BufferedBuff>::empty()),
    {
        CaptureState { candidates: (0, 0), buff_queue: Vec::new() }
    }
}

/// The buff key of the emblem whose BUFF_START entry carries bytes `b0..b3` at content
/// offsets 16..20, if it is one of the known emblems.
pub open spec fn emblem_key_of_field(b0: u8, b1: u8, b2: u8, b3: u8) -> Option<u32> {
    if (b0, b1, b2, b3) == (0x9Eu8, 0x5Au8, 0x0Du8, 0x72u8) {
        Some(122806656u32)
    } else if (b0, b1, b2, b3) == (0xA8u8, 0x0Fu8, 0x5Fu8, 0x44u8) {
        Some(122806657u32)
    } else if (b0, b1, b2, b3) == (0xCAu8, 0x1Au8, 0x9Cu8, 0x5Fu8) {
        Some(122806658u32)
    } else if (b0, b1, b2, b3) == (0x86u8, 0x81u8, 0xC8u8, 0x5Eu8) {
        Some(1590198662u32)
    } else if (b0, b1, b2, b3) == (0x4Bu8, 0x61u8, 0x2Au8, 0x15u8) {
        Some(355098955u32)
    } else if (b0, b1, b2, b3) == (0xF0u8, 0x13u8, 0x98u8, 0x46u8) {
        Some(1184371696u32)
    } else if (b0, b1, b2, b3) == (0x58u8, 0x5Eu8, 0x88u8, 0x65u8) {
        Some(1703435864u32)
    } else if (b0, b1, b2, b3) == (0x1Eu8, 0x97u8, 0xB0u8, 0x78u8) {
        Some(2024838942u32)
    } else {
        None
    }
}

/// Looks up the emblem buff key for the four field bytes of a BUFF_START entry.
pub fn emblem_key_for_field(b0: u8, b1: u8, b2: u8, b3: u8) -> (key: Option<u32>)
    ensures
        key == emblem_key_of_field(b0, b1, b2, b3),
{
    if b0 == 0x9E && b1 == 0x5A && b2 == 0x0D && b3 == 0x72 {
        Some(122806656)
    } else if b0 == 0xA8 && b1 == 0x0F && b2 == 0x5F && b3 == 0x44 {
        Some(122806657)
    } else if b0 == 0xCA && b1 == 0x1A && b2 == 0x9C && b3 == 0x5F {
        Some(122806658)
    } else if b0 == 0x86 && b1 == 0x81 && b2 == 0xC8 && b3 == 0x5E {
        Some(1590198662)
    } else if b0 == 0x4B && b1 == 0x61 && b2 == 0x2A && b3 == 0x15 {
        Some(355098955)
    } else if b0 == 0xF0 && b1 == 0x13 && b2 == 0x98 && b3 == 0x46 {
        Some(1184371696)
    } else if b0 == 0x58 && b1 == 0x5E && b2 == 0x88 && b3 == 0x65 {
        Some(1703435864)
    } else if b0 == 0x1E && b1 == 0x97 && b2 == 0xB0 && b3 == 0x78 {
        Some(2024838942)
    } else {
        None
    }
}

/// The (attacker, target) ids of a SELF_DAMAGE entry with at least 16 content bytes.
pub open spec fn self_damage_ids(e: EntryView) -> Option<(u64, u64)> {
    if e.0 == SELF_DAMAGE_DATA_TYPE && e.1.len() >= 16 {
        Some((le_u64(e.1, 0) as u64, le_u64(e.1, 8) as u64))
    } else {
        None
    }
}

/// The (user id, buff key, duration bits) of a BUFF_START entry with at least 24 content
/// bytes whose field bytes (16..20) name a known emblem: the user id is the little-endian
/// `u64` at 0..8, the duration the little-endian 32 bits at 20..24.
pub open spec fn emblem_buff(e: EntryView) -> Option<(u64, u32, u32)> {
    if e.0 == BUFF_START_DATA_TYPE && e.1.len() >= 24 {
        match emblem_key_of_field(e.1[16], e.1[17], e.1[18], e.1[19]) {
            Some(k) => Some((le_u64(e.1, 0) as u64, k, le_u32(e.1, 20) as u32)),
            None => None,
        }
    } else {
        None
    }
}

/// What a block's entries yield: the ids of its last self-damage entry, and the
/// (user id, buff key, duration bits) of its first emblem buff.
pub open spec fn scan_entries(es: Seq<EntryView>) -> (Option<(u64, u64)>, Option<(u64, u32, u32)>)
    decreases es.len(),
{
    if es.len() == 0 {
        (None, None)
    } else {
        let (c, d) = scan_entries(es.drop_last());
        let e = es.last();
        (
            if self_damage_ids(e) is Some { self_damage_ids(e) } else { c },
            if d is None { emblem_buff(e) } else { d },
        )
    }
}

/// How long ago a buff was seen, at time `now` (zero if the clock reads earlier).
pub open spec fn buff_age(b: BufferedBuff, now: u64) -> int {
    if now >= b.detected_at { now - b.detected_at } else { 0 }
}

pub open spec fn is_fresh(b: BufferedBuff, now: u64) -> bool {
    buff_age(b, now) < MAX_BUFF_AGE_NANOS
}

/// The buffs of `q` that are younger than the age limit, in order.
pub open spec fn keep_fresh(q: Seq<BufferedBuff>, now: u64) -> Seq<BufferedBuff>
    decreases q.len(),
{
    if q.len() == 0 {
        q
    } else if is_fresh(q.last(), now) {
        keep_fresh(q.drop_last(), now).push(q.last())
    } else {
        keep_fresh(q.drop_last(), now)
    }
}

/// The buff was seen on one of the two candidate characters.
pub open spec fn is_owned(b: BufferedBuff, candidates: (u64, u64)) -> bool {
    b.user_id == candidates.0 || b.user_id == candidates.1
}

/// The predicate "was seen on one of the candidates".
pub open spec fn owned_by(candidates: (u64, u64)) -> spec_fn(BufferedBuff) -> bool {
    |b: BufferedBuff| is_owned(b, candidates)
}

/// Index of the first buff of `q` seen on a candidate character, if any.
pub open spec fn owned_position(q: Seq<BufferedBuff>, candidates: (u64, u64)) -> Option<int> {
    first_where(q, owned_by(candidates))
}

/// The queue with the found emblem buff (if any) appended, stamped `now`.
pub open spec fn enqueue(q: Seq<BufferedBuff>, found_buff: Option<(u64, u32, u32)>, now: u64) -> Seq<BufferedBuff> {
    match found_buff {
        Some((user_id, buff_key, duration_bits)) => q.push(BufferedBuff { user_id, buff_key, duration_bits, detected_at: now }),
        None => q,
    }
}

/// One data block processed: candidates and queue after it, and the buff it emits.
///
/// The first known emblem buff of the block is always queued, stamped `now`. When the
/// block holds a self-damage entry, its last one gives the new candidates; then stale
/// buffs are dropped, and the first remaining buff seen on a candidate is emitted and
/// removed together with every buff queued before it.
pub open spec fn block_step(block: Seq<u8>, st: CaptureView, now: u64) -> (CaptureView, Option<DetectedBuff>) {
    let (found_candidates, found_buff) = scan_entries(block_entries(block));
    let queued = enqueue(st.1, found_buff, now);
    match found_candidates {
        None => ((st.0, queued), None),
        Some(c) => {
            let fresh = keep_fresh(queued, now);
            match owned_position(fresh, c) {
                Some(i) => (
                    (c, fresh.skip(i + 1)),
                    Some(DetectedBuff {
                        buff_key: fresh[i].buff_key,
                        duration_bits: fresh[i].duration_bits,
                        detected_at: fresh[i].detected_at,
                    }),
                ),
                None => ((c, fresh), None),
            }
        },
    }
}

/// Reads the self-damage ids of an entry.
fn entry_self_damage(e: &DataEntry) -> (ids: Option<(u64, u64)>)
    ensures
        ids == self_damage_ids(e.view()),
{
    if e.data_type == SELF_DAMAGE_DATA_TYPE && e.content.len() >= 16 {
        Some((read_u64_le(e.content, 0), read_u64_le(e.content, 8)))
    } else {
        None
    }
}

/// Reads the emblem buff of an entry.
fn entry_emblem_buff(e: &DataEntry) -> (buff: Option<(u64, u32, u32)>)
    ensures
        buff == emblem_buff(e.view()),
{
    if e.data_type == BUFF_START_DATA_TYPE && e.content.len() >= 24 {
        let c = e.content;
        match emblem_key_for_field(c[16], c[17], c[18], c[19]) {
            Some(k) => Some((read_u64_le(c, 0), k, read_u32_le(c, 20))),
            None => None,
        }
    } else {
        None
    }
}

/// Processes one data block: updates the candidates and the queue, and returns the buff
/// to start the timer for, if any (see `block_step`).
pub fn process_block(block: &[u8], state: &mut CaptureState, now: u64) -> (emitted: Option<DetectedBuff>)
    ensures
        (final(state).view(), emitted) == block_step(block@, old(state).view(), now),
{
    let entries = iter_data_entries(block);
    let ghost es = entry_views(entries@);
    let mut found_candidates: Option<(u64, u64)> = None;
    let mut found_buff: Option<(u64, u32, u32)> = None;
    let mut i: usize = 0;
    while i < entries.len()
        invariant
            i <= entries@.len(),
            es == entry_views(entries@),
            es == block_entries(block@),
            (found_candidates, found_buff) == scan_entries(es.take(i as int)),
            state.view() == old(state).view(),
        decreases entries@.len() - i,
    {
        let e = &entries[i];
        assert(es.take(i + 1).drop_last() =~= es.take(i as int));
        assert(es.take(i + 1).last() == e.view());
        match entry_self_damage(e) {
            Some(ids) => {
                found_candidates = Some(ids);
            },
            None => {},
        }
        if found_buff.is_none() {
            found_buff = entry_emblem_buff(e);
        }
        i = i + 1;
    }
    assert(es.take(i as int) =~= es);

    let ghost queued_spec = enqueue(old(state).buff_queue@, found_buff, now);
    match found_buff {
        Some((user_id, buff_key, duration_bits)) => {
            state.buff_queue.push(BufferedBuff { user_id, buff_key, duration_bits, detected_at: now });
        },
        None => {},
    }

    match found_candidates {
        None => None,
        Some(c) => {
            state.candidates = c;
            let ghost queued = state.buff_queue@;
            assert(queued == queued_spec);
            let mut fresh: Vec<BufferedBuff> = Vec::new();
            let mut j: usize = 0;
            while j < state.buff_queue.len()
                invariant
                    j <= queued.len(),
                    queued == state.buff_queue@,
                    fresh@ == keep_fresh(queued.take(j as int), now),
                    state.candidates == c,
                decreases queued.len() - j,
            {
                let b = state.buff_queue[j];
                assert(queued.take(j + 1).drop_last() =~= queued.take(j as int));
                let age: u64 = if now >= b.detected_at { now - b.detected_at } else { 0 };
                if age < MAX_BUFF_AGE_NANOS {
                    fresh.push(b);
                }
                j = j + 1;
            }
            assert(queued.take(j as int) =~= queued);
            proof {
                lemma_first_where(fresh@, owned_by(c));
            }
            let mut k: usize = 0;
            while k < fresh.len()
                invariant
                    k <= fresh@.len(),
                    forall|m: int| 0 <= m < k ==> !is_owned(#[trigger] fresh@[m], c),
                    state.candidates == c,
                    fresh@ == keep_fresh(enqueue(old(state).buff_queue@, found_buff, now), now),
                    scan_entries(block_entries(block@)) == (Some(c), found_buff),
                    owned_position(fresh@, c) matches Some(p) ==> is_first_where(fresh@, owned_by(c), p),
                    owned_position(fresh@, c) is None ==> forall|m: int|
                        0 <= m < fresh@.len() ==> !is_owned(#[trigger] fresh@[m], c),
                    forall|p: int| #[trigger]
                        is_first_where(fresh@, owned_by(c), p) ==> owned_position(fresh@, c) == Some(p),
                decreases fresh@.len() - k,
            {
                let b = fresh[k];
                if b.user_id == c.0 || b.user_id == c.1 {
                    assert(is_first_where(fresh@, owned_by(c), k as int));
                    let found = DetectedBuff {
                        buff_key: b.buff_key,
                        duration_bits: b.duration_bits,
                        detected_at: b.detected_at,
                    };
                    let ghost fresh_all = fresh@;
                    assert(owned_position(fresh_all, c) == Some(k as int));
                    let rest = fresh.split_off(k + 1);
                    assert(rest@ =~= fresh_all.skip(k + 1));
                    state.buff_queue = rest;
                    return Some(found);
                }
                k = k + 1;
            }
            state.buff_queue = fresh;
            None
        },
    }
}


/// The emitted buff as a sequence of zero or one buffs.
pub open spec fn emitted_seq(emitted: Option<DetectedBuff>) -> Seq<DetectedBuff> {
    match emitted {
        Some(d) => seq![d],
        None => Seq::empty(),
    }
}

/// The stream buffer processed: every complete `START_MARKER ... END_MARKER` block is cut
/// out, front to back, and processed. Returns the buffer left over, the capture state
/// and the buffs emitted, in order.
///
/// What is left: without a start marker, the buffer itself, or its last 9 bytes once it
/// is longer than `MAX_BUFFER_LEN`; with a start marker but no end marker after it, the
/// buffer from the start marker on.
pub open spec fn buffer_step(buf: Seq<u8>, st: CaptureView, now: u64) -> (Seq<u8>, CaptureView, Seq<DetectedBuff>)
    decreases buf.len(),
{
    match marker_position(buf, start_marker()) {
        None => (
            if buf.len() > MAX_BUFFER_LEN { buf.skip(buf.len() - 9) } else { buf },
            st,
            Seq::empty(),
        ),
        Some(s) => {
            let data_start = s + 9;
            match marker_position(buf.skip(data_start), end_marker()) {
                None => (buf.skip(s), st, Seq::empty()),
                Some(e) => {
                    proof {
                        crate::frame::lemma_marker_position(buf, start_marker());
                        crate::frame::lemma_marker_position(buf.skip(data_start), end_marker());
                    }
                    let (st2, emitted) = block_step(buf.subrange(data_start, data_start + e), st, now);
                    let (left, st3, later) = buffer_step(buf.skip(data_start + e + 9), st2, now);
                    (left, st3, emitted_seq(emitted) + later)
                },
            }
        },
    }
}

/// Cuts complete blocks out of the stream buffer and processes them (see `buffer_step`);
/// returns the buffs emitted, in order.
pub fn process_buffer(buffer: &mut Vec<u8>, state: &mut CaptureState, now: u64) -> (emitted: Vec<DetectedBuff>)
    ensures
        ({
            let r = buffer_step(old(buffer)@, old(state).view(), now);
            &&& final(buffer)@ == r.0
            &&& final(state).view() == r.1
            &&& emitted@ == r.2
        }),
{
    let ghost target = buffer_step(buffer@, state.view(), now);
    let mut emitted: Vec<DetectedBuff> = Vec::new();
    let start: &[u8] = &START_MARKER;
    let end: &[u8] = &END_MARKER;
    assert(start@ =~= start_marker());
    assert(end@ =~= end_marker());
    loop
        invariant
            start@ == start_marker(),
            end@ == end_marker(),
            target == buffer_step(old(buffer)@, old(state).view(), now),
            ({
                let r = buffer_step(buffer@, state.view(), now);
                &&& r.0 == target.0
                &&& r.1 == target.1
                &&& emitted@ + r.2 == target.2
            }),
        decreases buffer@.len(),
    {
        proof {
            crate::frame::lemma_marker_position(buffer@, start_marker());
        }
        let start_pos = match find_marker(buffer.as_slice(), start) {
            Some(p) => p,
            None => {
                let ghost before = buffer@;
                assert(marker_position(before, start_marker()) is None);
                if buffer.len() > MAX_BUFFER_LEN {
                    let keep_from = buffer.len() - 9;
                    let kept = buffer.split_off(keep_from);
                    *buffer = kept;
                    assert(buffer@ =~= before.skip(before.len() - 9));
                }
                assert(emitted@ + Seq::<DetectedBuff>::empty() =~= emitted@);
                return emitted;
            },
        };
        assert(buffer@.len() == buffer.len());
        assert(start_marker().len() == 9);
        let data_start = start_pos + 9;
        let tail = vstd::slice::slice_subrange(buffer.as_slice(), data_start, buffer.len());
        assert(tail@ =~= buffer@.skip(data_start as int));
        let end_offset = match find_marker(tail, end) {
            Some(e) => e,
            None => {
                if start_pos > 0 {
                    let kept = buffer.split_off(start_pos);
                    *buffer = kept;
                } else {
                    assert(buffer@.skip(0) =~= buffer@);
                }
                assert(emitted@ + Seq::<DetectedBuff>::empty() =~= emitted@);
                return emitted;
            },
        };
        let block_end = data_start + end_offset;
        let block = vstd::slice::slice_to_vec(
            vstd::slice::slice_subrange(buffer.as_slice(), data_start, block_end),
        );
        let remove_to = block_end + 9;
        let ghost before = buffer@;
        let rest = buffer.split_off(remove_to);
        *buffer = rest;
        assert(buffer@ =~= before.skip(remove_to as int));
        let ghost old_emitted = emitted@;
        let ghost st_before = state.view();
        let found = process_block(&block, state, now);
        match found {
            Some(d) => {
                emitted.push(d);
            },
            None => {},
        }
        assert(emitted@ =~= old_emitted + emitted_seq(found));
        assert(block@ == before.subrange(data_start as int, block_end as int));
        assert(buffer_step(before, st_before, now).2 =~= emitted_seq(found) + buffer_step(buffer@, state.view(), now).2);
    }
}


/// One captured frame handled: its TCP payload, if not empty, is appended to the stream
/// buffer, and the buffer is processed. Returns the buffs emitted, in order.
pub fn handle_packet(buffer: &mut Vec<u8>, state: &mut CaptureState, frame: &[u8], now: u64) -> (emitted: Vec<DetectedBuff>)
    ensures
        tcp_payload(frame@).len() == 0 ==> {
            &&& final(buffer)@ == old(buffer)@
            &&& final(state).view() == old(state).view()
            &&& emitted@.len() == 0
        },
        tcp_payload(frame@).len() > 0 ==> {
            let r = buffer_step(old(buffer)@ + tcp_payload(frame@), old(state).view(), now);
            &&& final(buffer)@ == r.0
            &&& final(state).view() == r.1
            &&& emitted@ == r.2
        },
{
    let payload = extract_tcp_payload(frame);
    if payload.len() == 0 {
        return Vec::new();
    }
    let ghost before = buffer@;
    buffer.extend_from_slice(payload);
    assert(buffer@ =~= before + payload@);
    process_buffer(buffer, state, now)
}


/// Every buff kept by `keep_fresh` is fresh and comes from the queue.
pub proof fn lemma_keep_fresh(q: Seq<BufferedBuff>, now: u64)
    ensures
        keep_fresh(q, now).len() <= q.len(),
        forall|i: int| 0 <= i < keep_fresh(q, now).len() ==> {
            &&& is_fresh(#[trigger] keep_fresh(q, now)[i], now)
            &&& q.contains(keep_fresh(q, now)[i])
        },
    decreases q.len(),
{
    if q.len() > 0 {
        lemma_keep_fresh(q.drop_last(), now);
        let k = keep_fresh(q, now);
        let k0 = keep_fresh(q.drop_last(), now);
        assert forall|i: int| 0 <= i < k.len() implies {
            &&& is_fresh(#[trigger] k[i], now)
            &&& q.contains(k[i])
        } by {
            if i < k0.len() {
                assert(k[i] == k0[i]);
                let j = choose|j: int| 0 <= j < q.drop_last().len() && q.drop_last()[j] == k0[i];
                assert(q[j] == k[i]);
            } else {
                assert(q[q.len() - 1] == k[i]);
            }
        }
    }
}

/// A block emits a buff only when it holds a self-damage entry; the buff was queued
/// (before or by this block), is younger than the age limit, and was seen on one of the
/// two characters of the block's last self-damage entry, which become the candidates.
pub proof fn lemma_emitted_buff_is_owned(block: Seq<u8>, st: CaptureView, now: u64)
    ensures
        block_step(block, st, now).1 matches Some(d) ==> {
            let (found_candidates, found_buff) = scan_entries(block_entries(block));
            &&& found_candidates matches Some(c)
            &&& block_step(block, st, now).0.0 == c
            &&& exists|b: BufferedBuff| {
                &&& enqueue(st.1, found_buff, now).contains(b)
                &&& is_fresh(b, now)
                &&& is_owned(b, c)
                &&& d == DetectedBuff {
                    buff_key: b.buff_key,
                    duration_bits: b.duration_bits,
                    detected_at: b.detected_at,
                }
            }
        },
{
    let (found_candidates, found_buff) = scan_entries(block_entries(block));
    if let Some(c) = found_candidates {
        let queued = enqueue(st.1, found_buff, now);
        let fresh = keep_fresh(queued, now);
        lemma_keep_fresh(queued, now);
        lemma_first_where(fresh, owned_by(c));
        if let Some(i) = owned_position(fresh, c) {
            let b = fresh[i];
            assert(queued.contains(b) && is_fresh(b, now) && is_owned(b, c));
        }
    }
}

/// After a block with a self-damage entry, every buff left in the queue is younger than
/// the age limit.
pub proof fn lemma_queue_fresh_after_self_damage(block: Seq<u8>, st: CaptureView, now: u64)
    requires
        scan_entries(block_entries(block)).0 is Some,
    ensures
        forall|i: int| 0 <= i < block_step(block, st, now).0.1.len() ==>
            is_fresh(#[trigger] block_step(block, st, now).0.1[i], now),
{
    let (found_candidates, found_buff) = scan_entries(block_entries(block));
    let c = found_candidates.unwrap();
    let fresh = keep_fresh(enqueue(st.1, found_buff, now), now);
    lemma_keep_fresh(enqueue(st.1, found_buff, now), now);
    lemma_first_where(fresh, owned_by(c));
    if let Some(k) = owned_position(fresh, c) {
        let left = fresh.skip(k + 1);
        assert forall|i: int| 0 <= i < left.len() implies is_fresh(#[trigger] left[i], now) by {
            assert(left[i] == fresh[i + k + 1]);
        }
    }
}

/// A block without a self-damage entry emits nothing and keeps the candidates; its first
/// emblem buff, if any, is queued all the same, stamped `now`.
pub proof fn lemma_block_without_self_damage(block: Seq<u8>, st: CaptureView, now: u64)
    requires
        scan_entries(block_entries(block)).0 is None,
    ensures
        block_step(block, st, now).1 is None,
        block_step(block, st, now).0.0 == st.0,
        block_step(block, st, now).0.1 == match scan_entries(block_entries(block)).1 {
            Some((user_id, buff_key, duration_bits)) => st.1.push(
                BufferedBuff { user_id, buff_key, duration_bits, detected_at: now },
            ),
            None => st.1,
        },
{
}

/// `p` is a match in `buf.skip(k)` exactly when `p + k` is one in `buf`.
proof fn lemma_matches_skip(buf: Seq<u8>, marker: Seq<u8>, k: int, p: int)
    requires
        0 <= k <= buf.len(),
        0 <= p,
    ensures
        crate::frame::matches_at(buf.skip(k), marker, p) == crate::frame::matches_at(buf, marker, p + k),
{
    if p + marker.len() <= buf.len() - k {
        assert(buf.skip(k).subrange(p, p + marker.len()) =~= buf.subrange(p + k, p + k + marker.len()));
    }
}

/// After processing, the stream buffer holds no complete block: either it has no start
/// marker and is at most `MAX_BUFFER_LEN` bytes long, or it begins with the start marker
/// and no end marker follows.
pub proof fn lemma_no_complete_block_left(buf: Seq<u8>, st: CaptureView, now: u64)
    ensures
        ({
            let left = buffer_step(buf, st, now).0;
            ||| marker_position(left, start_marker()) is None && left.len() <= MAX_BUFFER_LEN
            ||| marker_position(left, start_marker()) == Some(0int)
                && marker_position(left.skip(9), end_marker()) is None
        }),
    decreases buf.len(),
{
    crate::frame::lemma_marker_position(buf, start_marker());
    match marker_position(buf, start_marker()) {
        None => {
            if buf.len() > MAX_BUFFER_LEN {
                let left = buf.skip(buf.len() - 9);
                crate::frame::lemma_marker_position(left, start_marker());
                if let Some(p) = marker_position(left, start_marker()) {
                    lemma_matches_skip(buf, start_marker(), buf.len() - 9, p);
                }
            }
        },
        Some(s) => {
            let data_start = s + 9;
            crate::frame::lemma_marker_position(buf.skip(data_start), end_marker());
            match marker_position(buf.skip(data_start), end_marker()) {
                None => {
                    let left = buf.skip(s);
                    lemma_matches_skip(buf, start_marker(), s, 0);
                    crate::frame::lemma_marker_position(left, start_marker());
                    assert(crate::frame::is_first_match(left, start_marker(), 0));
                    assert(left.skip(9) =~= buf.skip(data_start));
                },
                Some(e) => {
                    let (st2, emitted) = block_step(buf.subrange(data_start, data_start + e), st, now);
                    lemma_no_complete_block_left(buf.skip(data_start + e + 9), st2, now);
                },
            }
        },
    }
}

/// The little-endian value of the eight bytes of `c` at `i`, written out.
pub open spec fn bytes_le64(c: Seq<u8>, i: int) -> int {
    c[i] + c[i + 1] * 0x100 + c[i + 2] * 0x1_0000 + c[i + 3] * 0x100_0000 + c[i + 4] * 0x1_0000_0000
        + c[i + 5] * 0x100_0000_0000 + c[i + 6] * 0x1_0000_0000_0000 + c[i + 7] * 0x100_0000_0000_0000
}

/// A SELF_DAMAGE entry (type 20937) with at least 16 content bytes gives as candidates the
/// full 64-bit little-endian attacker id (bytes 0..8) and target id (bytes 8..16); any
/// other entry gives none.
pub proof fn lemma_self_damage_entry(e: EntryView)
    ensures
        e.0 == 20937u32 && e.1.len() >= 16 ==> {
            &&& self_damage_ids(e) is Some
            &&& self_damage_ids(e).unwrap().0 as int == bytes_le64(e.1, 0)
            &&& self_damage_ids(e).unwrap().1 as int == bytes_le64(e.1, 8)
        },
        !(e.0 == 20937u32 && e.1.len() >= 16) ==> self_damage_ids(e) is None,
{
}

/// A BUFF_START entry (type 110055) with at least 24 content bytes whose bytes 16..20 are
/// one of the eight emblem patterns gives that pattern's buff key, the full 64-bit
/// little-endian user id of bytes 0..8 and the 32 bits of bytes 20..24 (little-endian)
/// as its duration; an entry whose bytes 16..20 are none of the patterns gives nothing.
pub proof fn lemma_buff_start_entry(e: EntryView)
    ensures
        e.0 == 110055u32 && e.1.len() >= 24 && emblem_key_of_field(e.1[16], e.1[17], e.1[18], e.1[19]) is Some ==> {
            &&& emblem_buff(e) is Some
            &&& emblem_buff(e).unwrap().0 as int == bytes_le64(e.1, 0)
            &&& emblem_buff(e).unwrap().1 == emblem_key_of_field(e.1[16], e.1[17], e.1[18], e.1[19]).unwrap()
            &&& emblem_buff(e).unwrap().2 as int == e.1[20] + e.1[21] * 0x100 + e.1[22] * 0x1_0000 + e.1[23] * 0x100_0000
        },
        !(e.0 == 110055u32 && e.1.len() >= 24) ==> emblem_buff(e) is None,
{
}

/// Exactly eight field patterns name an emblem.
pub proof fn lemma_only_eight_patterns(b0: u8, b1: u8, b2: u8, b3: u8)
    ensures
        emblem_key_of_field(b0, b1, b2, b3) is Some <==> {
            ||| (b0, b1, b2, b3) == (0x9Eu8, 0x5Au8, 0x0Du8, 0x72u8)
            ||| (b0, b1, b2, b3) == (0xA8u8, 0x0Fu8, 0x5Fu8, 0x44u8)
            ||| (b0, b1, b2, b3) == (0xCAu8, 0x1Au8, 0x9Cu8, 0x5Fu8)
            ||| (b0, b1, b2, b3) == (0x86u8, 0x81u8, 0xC8u8, 0x5Eu8)
            ||| (b0, b1, b2, b3) == (0x4Bu8, 0x61u8, 0x2Au8, 0x15u8)
            ||| (b0, b1, b2, b3) == (0xF0u8, 0x13u8, 0x98u8, 0x46u8)
            ||| (b0, b1, b2, b3) == (0x58u8, 0x5Eu8, 0x88u8, 0x65u8)
            ||| (b0, b1, b2, b3) == (0x1Eu8, 0x97u8, 0xB0u8, 0x78u8)
        },
{
}

/// Without any start marker, a buffer of up to 1 MiB (1048576 bytes) is kept whole and a
/// longer one is cut to its last nine bytes (room for a start marker that a later packet
/// completes); nothing is emitted and the state is unchanged.
pub proof fn lemma_buffer_without_start(buf: Seq<u8>, st: CaptureView, now: u64)
    requires
        forall|p: int| !crate::frame::matches_at(buf, start_marker(), p),
    ensures
        buf.len() <= 1048576 ==> buffer_step(buf, st, now).0 == buf,
        buf.len() > 1048576 ==> {
            let left = buffer_step(buf, st, now).0;
            &&& left.len() == 9
            &&& forall|j: int| 0 <= j < 9 ==> left[j] == buf[buf.len() - 9 + j]
        },
        buffer_step(buf, st, now).1 == st,
        buffer_step(buf, st, now).2.len() == 0,
{
    crate::frame::lemma_marker_position(buf, start_marker());
    if marker_position(buf, start_marker()) is Some {
        let p = marker_position(buf, start_marker()).unwrap();
        assert(crate::frame::matches_at(buf, start_marker(), p));
    }
}

/// A queued buff counts as fresh while less than 35 seconds have passed since it was seen
/// (a clock reading earlier than that counts as no time).
pub proof fn lemma_fresh_means_under_35_seconds(b: BufferedBuff, now: u64)
    ensures
        is_fresh(b, now) <==> (now <= b.detected_at || now - b.detected_at < 35_000_000_000),
{
}

/// A buff is owned by the candidates exactly when it was seen on the attacker or the
/// target of the latest self-damage entry.
pub proof fn lemma_owned_by_either(b: BufferedBuff, candidates: (u64, u64))
    ensures
        owned_by(candidates)(b) <==> (b.user_id == candidates.0 || b.user_id == candidates.1),
{
}

/// The block markers are `83 4E` and `1A 4F`, each followed by seven zero bytes.
pub proof fn lemma_markers()
    ensures
        start_marker() =~= seq![0x83u8, 0x4Eu8, 0u8, 0u8, 0u8, 0u8, 0u8, 0u8, 0u8],
        end_marker() =~= seq![0x1Au8, 0x4Fu8, 0u8, 0u8, 0u8, 0u8, 0u8, 0u8, 0u8],
        BUFF_START_DATA_TYPE == 110055,
        SELF_DAMAGE_DATA_TYPE == 20937,
{
}

} // verus!
