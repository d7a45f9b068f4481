use vstd::prelude::*;

verus! {

/// `marker` occurs in `data` starting at position `p`.
pub open spec fn matches_at(data: Seq<u8>, marker: Seq<u8>, p: int) -> bool {
    &&& 0 <= p
    &&& p + marker.len() <= data.len()
    &&& data.subrange(p, p + marker.len()) == marker
}

/// `p` is the first position at which `marker` occurs in `data`.
pub open spec fn is_first_match(data: Seq<u8>, marker: Seq<u8>, p: int) -> bool {
    &&& matches_at(data, marker, p)
    &&& forall|q: int| 0 <= q < p ==> !matches_at(data, marker, q)
}

/// The first position at which `marker` occurs in `data`, if any.
pub open spec fn marker_position(data: Seq<u8>, marker: Seq<u8>) -> Option<int> {
    if exists|p: int| is_first_match(data, marker, p) {
        Some(choose|p: int| is_first_match(data, marker, p))
    } else {
        None
    }
}

/// There is at most one first match, and a match exists exactly when a first match does.
pub proof fn lemma_marker_position(data: Seq<u8>, marker: Seq<u8>)
    ensures
        marker_position(data, marker) matches Some(p) ==> is_first_match(data, marker, p),
        marker_position(data, marker) is None ==> forall|q: int| !matches_at(data, marker, q),
        forall|p: int| #[trigger] is_first_match(data, marker, p) ==> marker_position(data, marker) == Some(p),
{
    if exists|p: int| is_first_match(data, marker, p) {
        let p = choose|p: int| is_first_match(data, marker, p);
        assert forall|r: int| #[trigger] is_first_match(data, marker, r) implies r == p by {
            if r < p {
                assert(!matches_at(data, marker, r));
            } else if p < r {
                assert(!matches_at(data, marker, p));
            }
        }
    } else {
        assert forall|q: int| !matches_at(data, marker, q) by {
            if matches_at(data, marker, q) {
                lemma_first_match_exists(data, marker, q);
            }
        }
    }
}

proof fn lemma_first_match_exists(data: Seq<u8>, marker: Seq<u8>, q: int)
    requires
        matches_at(data, marker, q),
    ensures
        exists|p: int| is_first_match(data, marker, p),
    decreases q,
{
    if forall|r: int| 0 <= r < q ==> !matches_at(data, marker, r) {
        assert(is_first_match(data, marker, q));
    } else {
        let r = choose|r: int| 0 <= r < q && matches_at(data, marker, r);
        lemma_first_match_exists(data, marker, r);
    }
}

/// Whether `data[start..start + marker.len()]` equals `marker`.
fn window_equals(data: &[u8], start: usize, marker: &[u8]) -> (eq: bool)
    requires
        start + marker@.len() <= data@.len(),
    ensures
        eq == (data@.subrange(start as int, start + marker@.len()) == marker@),
{
    let mut k: usize = 0;
    while k < marker.len()
        invariant
            k <= marker@.len(),
            start + marker@.len() <= data@.len(),
            data@.len() == data.len(),
            forall|j: int| 0 <= j < k ==> data@[start + j] == marker@[j],
        decreases marker@.len() - k,
    {
        if data[start + k] != marker[k] {
            assert(data@.subrange(start as int, start + marker@.len())[k as int] != marker@[k as int]);
            return false;
        }
        k = k + 1;
    }
    assert(data@.subrange(start as int, start + marker@.len()) =~= marker@);
    true
}

/// Position of the first occurrence of `marker` in `data`.
pub fn find_marker(data: &[u8], marker: &[u8]) -> (pos: Option<usize>)
    requires
        marker@.len() > 0,
    ensures
        pos matches Some(p) ==> is_first_match(data@, marker@, p as int),
        pos is None ==> forall|q: int| !matches_at(data@, marker@, q),
        match pos {
            Some(p) => marker_position(data@, marker@) == Some(p as int),
            None => marker_position(data@, marker@) is None,
        },
{
    proof {
        lemma_marker_position(data@, marker@);
    }
    if marker.len() > data.len() {
        return None;
    }
    let last = data.len() - marker.len();
    let mut i: usize = 0;
    while i <= last
        invariant
            last + marker@.len() == data@.len(),
            marker@.len() > 0,
            data@.len() == data.len(),
            forall|q: int| 0 <= q < i ==> !matches_at(data@, marker@, q),
            marker_position(data@, marker@) matches Some(p) ==> is_first_match(data@, marker@, p),
            marker_position(data@, marker@) is None ==> forall|q: int| !matches_at(data@, marker@, q),
            forall|p: int| #[trigger] is_first_match(data@, marker@, p) ==> marker_position(data@, marker@) == Some(p),
        decreases last + 1 - i,
    {
        if window_equals(data, i, marker) {
            assert(is_first_match(data@, marker@, i as int));
            return Some(i);
        }
        i = i + 1;
    }
    None
}


/// Offset of the TCP payload in an Ethernet + IPv4 + TCP frame, if the frame is long
/// enough and the payload is not empty. The IPv4 header length is the low nibble of
/// byte 14 in 32-bit words; the TCP header length is the high nibble of byte 12 of the
/// TCP header, in 32-bit words.
pub open spec fn tcp_payload_offset(frame: Seq<u8>) -> Option<int> {
    if frame.len() < 54 {
        None
    } else {
        let tcp_offset = 14 + (frame[14] % 16) * 4;
        if tcp_offset + 13 > frame.len() {
            None
        } else {
            let payload_offset = tcp_offset + (frame[tcp_offset + 12] / 16) * 4;
            if payload_offset >= frame.len() {
                None
            } else {
                Some(payload_offset)
            }
        }
    }
}

/// The TCP payload of an Ethernet + IPv4 + TCP frame, empty when there is none.
pub open spec fn tcp_payload(frame: Seq<u8>) -> Seq<u8> {
    match tcp_payload_offset(frame) {
        Some(p) => frame.subrange(p, frame.len() as int),
        None => Seq::empty(),
    }
}

/// The TCP payload of a captured Ethernet frame (empty when the frame is too short or
/// carries no payload).
pub fn extract_tcp_payload(data: &[u8]) -> (payload: &[u8])
    ensures
        payload@ == tcp_payload(data@),
{
    let empty: &[u8] = &[];
    if data.len() < 54 {
        assert(empty@ =~= Seq::<u8>::empty());
        return empty;
    }
    let b14 = data[14];
    assert(b14 & 0x0F == b14 % 16) by (bit_vector);
    let ip_header_len = ((b14 & 0x0F) as usize) * 4;
    let tcp_offset = 14 + ip_header_len;
    if tcp_offset + 13 > data.len() {
        assert(empty@ =~= Seq::<u8>::empty());
        return empty;
    }
    let b = data[tcp_offset + 12];
    assert(b >> 4 == b / 16) by (bit_vector);
    let tcp_header_len = ((b >> 4) as usize) * 4;
    let payload_offset = tcp_offset + tcp_header_len;
    if payload_offset >= data.len() {
        assert(empty@ =~= Seq::<u8>::empty());
        return empty;
    }
    vstd::slice::slice_subrange(data, payload_offset, data.len())
}

/// Little-endian value of the four bytes of `s` at `i`.
pub open spec fn le_u32(s: Seq<u8>, i: int) -> int {
    s[i] + s[i + 1] * 0x100 + s[i + 2] * 0x1_0000 + s[i + 3] * 0x100_0000
}

/// Little-endian value of the eight bytes of `s` at `i`.
pub open spec fn le_u64(s: Seq<u8>, i: int) -> int {
    le_u32(s, i) + le_u32(s, i + 4) * 0x1_0000_0000
}

/// Reads a little-endian `u32` at `i`.
pub fn read_u32_le(s: &[u8], i: usize) -> (v: u32)
    requires
        i + 4 <= s@.len(),
    ensures
        v as int == le_u32(s@, i as int),
{
    (s[i] as u32) + (s[i + 1] as u32) * 0x100 + (s[i + 2] as u32) * 0x1_0000 + (s[i + 3] as u32)
        * 0x100_0000
}

/// Reads a little-endian `u64` at `i`.
pub fn read_u64_le(s: &[u8], i: usize) -> (v: u64)
    requires
        i + 8 <= s@.len(),
    ensures
        v as int == le_u64(s@, i as int),
{
    let n = s.len();
    assert(n == s@.len());
    let lo = read_u32_le(s, i) as u64;
    let hi = read_u32_le(s, i + 4) as u64;
    lo + hi * 0x1_0000_0000
}

/// One entry of a data block: its type and its content, by view.
pub type EntryView = (u32, Seq<u8>);

/// The entries of `block` from `offset` on. Each entry is
/// `[dataType: u32 LE][length: u32 LE][encodeType: u8][content: length bytes]`;
/// reading stops at the first header that does not fit, or whose content does not fit.
pub open spec fn entries_from(block: Seq<u8>, offset: nat) -> Seq<EntryView>
    decreases block.len() - offset,
{
    if offset + 9 > block.len() {
        Seq::empty()
    } else {
        let data_type = le_u32(block, offset as int);
        let length = le_u32(block, offset + 4int);
        let content_start = offset + 9int;
        if content_start + length > block.len() {
            Seq::empty()
        } else {
            seq![(data_type as u32, block.subrange(content_start, content_start + length))]
                + entries_from(block, (content_start + length) as nat)
        }
    }
}

/// The entries of a data block.
pub open spec fn block_entries(block: Seq<u8>) -> Seq<EntryView> {
    entries_from(block, 0)
}

/// One entry of a data block.
pub struct DataEntry<'a> {
    pub data_type: u32,
    pub content: &'a [u8],
}

impl<'a> DataEntry<'a> {
    pub open spec fn view(&self) -> EntryView {
        (self.data_type, self.content@)
    }
}

/// The entries of `entries`, by view.
pub open spec fn entry_views<'a>(entries: Seq<DataEntry<'a>>) -> Seq<EntryView> {
    entries.map_values(|e: DataEntry<'a>| e.view())
}

/// Splits a data block into its entries (see `entries_from`).
pub fn iter_data_entries<'a>(block: &'a [u8]) -> (entries: Vec<DataEntry<'a>>)
    ensures
        entry_views(entries@) == block_entries(block@),
{
    let mut entries: Vec<DataEntry<'a>> = Vec::new();
    let mut offset: usize = 0;
    let ghost whole = block_entries(block@);
    loop
        invariant
            offset <= block@.len(),
            block@.len() == block.len(),
            whole == block_entries(block@),
            entry_views(entries@) + entries_from(block@, offset as nat) == whole,
        decreases block@.len() - offset,
    {
        if block.len() - offset < 9 {
            assert(entry_views(entries@) =~= whole);
            return entries;
        }
        let data_type = read_u32_le(block, offset);
        let length = read_u32_le(block, offset + 4) as usize;
        let content_start = offset + 9;
        if length > block.len() - content_start {
            assert(entry_views(entries@) =~= whole);
            return entries;
        }
        let content = vstd::slice::slice_subrange(block, content_start, content_start + length);
        let ghost before = entry_views(entries@);
        entries.push(DataEntry { data_type, content });
        assert(entry_views(entries@) =~= before.push((data_type, content@)));
        offset = content_start + length;
    }
}


/// The bytes that entries take in their block: each its 9-byte header and its content.
pub open spec fn entries_span(es: Seq<EntryView>) -> int
    decreases es.len(),
{
    if es.len() == 0 {
        0
    } else {
        entries_span(es.drop_last()) + 9 + es.last().1.len()
    }
}

/// Where entry `k` of `es` starts in its block: after the entries before it.
pub open spec fn entry_start(es: Seq<EntryView>, k: int) -> int {
    entries_span(es.take(k))
}

proof fn lemma_span_prepend(e: EntryView, rest: Seq<EntryView>)
    ensures
        entries_span(seq![e] + rest) == 9 + e.1.len() + entries_span(rest),
    decreases rest.len(),
{
    if rest.len() > 0 {
        assert((seq![e] + rest).drop_last() =~= seq![e] + rest.drop_last());
        assert((seq![e] + rest).last() == rest.last());
        lemma_span_prepend(e, rest.drop_last());
    } else {
        assert(seq![e] + rest =~= seq![e]);
        assert(seq![e].drop_last() =~= Seq::<EntryView>::empty());
        assert(entries_span(Seq::<EntryView>::empty()) == 0);
    }
}

proof fn lemma_span_bounds(es: Seq<EntryView>)
    ensures
        entries_span(es) >= 9 * es.len(),
    decreases es.len(),
{
    if es.len() > 0 {
        lemma_span_bounds(es.drop_last());
    }
}

proof fn lemma_entries_from_layout(block: Seq<u8>, offset: nat)
    ensures
        ({
            let es = entries_from(block, offset);
            &&& es.len() > 0 ==> offset + entries_span(es) <= block.len()
            &&& forall|k: int| 0 <= k < es.len() ==> {
                let o = offset + #[trigger] entry_start(es, k);
                &&& le_u32(block, o) == es[k].0
                &&& le_u32(block, o + 4) == es[k].1.len()
                &&& es[k].1 == block.subrange(o + 9, o + 9 + es[k].1.len())
            }
        }),
    decreases block.len() - offset,
{
    let es = entries_from(block, offset);
    if es.len() > 0 {
        let length = le_u32(block, offset + 4int);
        let next = (offset + 9 + length) as nat;
        let rest = entries_from(block, next);
        let e = es[0];
        assert(es == seq![e] + rest);
        lemma_entries_from_layout(block, next);
        lemma_span_prepend(e, rest);
        assert forall|k: int| 0 <= k < es.len() implies {
            let o = offset + #[trigger] entry_start(es, k);
            &&& le_u32(block, o) == es[k].0
            &&& le_u32(block, o + 4) == es[k].1.len()
            &&& es[k].1 == block.subrange(o + 9, o + 9 + es[k].1.len())
        } by {
            if k == 0 {
                assert(es.take(0) =~= Seq::<EntryView>::empty());
            } else {
                assert(es.take(k) =~= seq![e] + rest.take(k - 1));
                lemma_span_prepend(e, rest.take(k - 1));
                assert(es[k] == rest[k - 1]);
                assert(entry_start(rest, k - 1) == entries_span(rest.take(k - 1)));
            }
        }
    }
}

/// The entries of a block lie one after the other from its start: entry `k` begins at
/// `entry_start(es, k)` (entry 0 at 0, each next one right after the previous one's
/// header and content), its header there gives its type and its length, and its content
/// is the block's bytes right after that header. They all fit in the block, so there are
/// at most `block.len() / 9` of them.
pub proof fn lemma_block_entries_layout(block: Seq<u8>)
    ensures
        ({
            let es = block_entries(block);
            &&& entries_span(es) <= block.len()
            &&& es.len() <= block.len() / 9
            &&& forall|k: int| 0 <= k < es.len() ==> {
                let o = #[trigger] entry_start(es, k);
                &&& le_u32(block, o) == es[k].0
                &&& le_u32(block, o + 4) == es[k].1.len()
                &&& es[k].1 == block.subrange(o + 9, o + 9 + es[k].1.len())
                &&& entry_start(es, k + 1) == o + 9 + es[k].1.len()
            }
        }),
{
    let es = block_entries(block);
    lemma_entries_from_layout(block, 0);
    lemma_span_bounds(es);
    assert forall|k: int| 0 <= k < es.len() implies #[trigger] entry_start(es, k + 1)
        == entry_start(es, k) + 9 + es[k].1.len() by {
        assert(es.take(k + 1).drop_last() =~= es.take(k));
    }
}

/// Where a match is, each byte of the window equals the marker's byte.
pub proof fn lemma_match_bytes(data: Seq<u8>, marker: Seq<u8>, p: int)
    requires
        matches_at(data, marker, p),
    ensures
        forall|j: int| 0 <= j < marker.len() ==> data[p + j] == #[trigger] marker[j],
{
    assert forall|j: int| 0 <= j < marker.len() implies data[p + j] == #[trigger] marker[j] by {
        assert(data.subrange(p, p + marker.len())[j] == data[p + j]);
    }
}

/// The little-endian reading of four bytes gives them back: the low byte first, each next
/// byte 8 bits higher, the value below 2^32.
pub proof fn lemma_le_u32_bytes(s: Seq<u8>, i: int)
    requires
        0 <= i,
        i + 4 <= s.len(),
    ensures
        0 <= le_u32(s, i) < 0x1_0000_0000,
        le_u32(s, i) % 0x100 == s[i],
        (le_u32(s, i) / 0x100) % 0x100 == s[i + 1],
        (le_u32(s, i) / 0x1_0000) % 0x100 == s[i + 2],
        le_u32(s, i) / 0x100_0000 == s[i + 3],
{
    let b0 = s[i] as int;
    let b1 = s[i + 1] as int;
    let b2 = s[i + 2] as int;
    let b3 = s[i + 3] as int;
    let v = le_u32(s, i);
    assert(v == b0 + 0x100 * (b1 + 0x100 * (b2 + 0x100 * b3)));
    vstd::arithmetic::div_mod::lemma_fundamental_div_mod_converse(v, 0x100, b1 + 0x100 * (b2 + 0x100 * b3), b0);
    let v1 = b1 + 0x100 * (b2 + 0x100 * b3);
    vstd::arithmetic::div_mod::lemma_fundamental_div_mod_converse(v1, 0x100, b2 + 0x100 * b3, b1);
    let v2 = b2 + 0x100 * b3;
    vstd::arithmetic::div_mod::lemma_fundamental_div_mod_converse(v2, 0x100, b3, b2);
    vstd::arithmetic::div_mod::lemma_div_denominator(v, 0x100, 0x100);
    vstd::arithmetic::div_mod::lemma_div_denominator(v, 0x1_0000, 0x100);
}

/// The TCP payload of a frame, stated with the header fields as bit fields: the IPv4
/// header length is the low nibble of byte 14 and the TCP header length the high nibble of
/// byte 12 of the TCP header, both in 4-byte words. The payload is what follows both
/// headers when the frame holds at least 54 bytes, the TCP header's byte 12, and at least
/// one payload byte; otherwise there is none.
pub proof fn lemma_tcp_payload_fields(frame: Seq<u8>)
    ensures
        ({
            let b14 = frame[14];
            let tcp = 14 + (b14 & 0x0F) * 4;
            if frame.len() >= 54 && tcp + 13 <= frame.len() {
                let b12 = frame[tcp + 12];
                let start = tcp + (b12 >> 4) * 4;
                if start < frame.len() {
                    tcp_payload(frame) == frame.skip(start) && tcp_payload(frame).len() > 0
                } else {
                    tcp_payload(frame).len() == 0
                }
            } else {
                tcp_payload(frame).len() == 0
            }
        }),
{
    if frame.len() >= 54 {
        let b14 = frame[14];
        assert(b14 & 0x0F == b14 % 16) by (bit_vector);
        let tcp = 14 + (b14 & 0x0F) * 4;
        if tcp + 13 <= frame.len() {
            let b12 = frame[tcp + 12];
            assert(b12 >> 4 == b12 / 16) by (bit_vector);
        }
    }
}

} // verus!
