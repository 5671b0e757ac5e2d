//! Frame assembly for the wire format
//!
//! ```text
//! AA 55 | L | payload (L bytes, the first one selects the channel) | XOR of the payload
//! ```
//!
//! The assembler keeps the bytes that have not yet formed a frame, and on
//! every feed emits the payloads of the frames that are complete and whose
//! checksum matches. Anything else is dropped while it looks for the next
//! start marker.

use vstd::prelude::*;

verus! {

/// First byte of the start marker.
pub const MARKER_HEAD: u8 = 0xAA;

/// Second byte of the start marker.
pub const MARKER_TAIL: u8 = 0x55;

/// Shortest possible frame: marker, length byte and checksum around an empty payload.
pub const MIN_FRAME_LEN: usize = 4;

/// Number of pending bytes an assembler keeps unless told otherwise.
pub const DEFAULT_CAPACITY: usize = 1024;

/// XOR of all bytes of `bytes`; zero for the empty sequence.
pub open spec fn xor_all(bytes: Seq<u8>) -> u8
    decreases bytes.len(),
{
    if bytes.len() == 0 {
        0u8
    } else {
        xor_all(bytes.drop_last()) ^ bytes.last()
    }
}

/// The two marker bytes stand at offset `i` of `buf`.
pub open spec fn marker_at(buf: Seq<u8>, i: int) -> bool {
    0 <= i && i + 1 < buf.len() && buf[i] == MARKER_HEAD && buf[i + 1] == MARKER_TAIL
}

/// `buf` holds a start marker somewhere.
pub open spec fn has_marker(buf: Seq<u8>) -> bool {
    exists|i: int| marker_at(buf, i)
}

/// `i` is the offset of the first start marker in `buf`.
pub open spec fn is_first_marker(buf: Seq<u8>, i: int) -> bool {
    marker_at(buf, i) && forall|j: int| 0 <= j < i ==> !marker_at(buf, j)
}

/// Offset of the first start marker in `buf` (meaningful when `has_marker(buf)`).
pub open spec fn first_marker(buf: Seq<u8>) -> int {
    choose|i: int| is_first_marker(buf, i)
}

/// Total length that the frame at the front of `buf` declares: its length byte plus 4.
pub open spec fn declared_len(buf: Seq<u8>) -> int
    recommends
        buf.len() >= 3,
{
    buf[2] as int + 4
}

/// Payload of the frame at the front of `buf`.
pub open spec fn front_payload(buf: Seq<u8>) -> Seq<u8>
    recommends
        buf.len() >= declared_len(buf),
{
    buf.subrange(3, declared_len(buf) - 1)
}

/// `buf` begins with a whole frame: marker, length byte, that many payload bytes, a byte after them.
pub open spec fn front_complete(buf: Seq<u8>) -> bool {
    buf.len() >= MIN_FRAME_LEN && marker_at(buf, 0) && buf.len() >= declared_len(buf)
}

/// `buf` begins with a whole frame whose checksum byte is the XOR of its payload.
pub open spec fn front_valid(buf: Seq<u8>) -> bool {
    front_complete(buf) && xor_all(front_payload(buf)) == buf[declared_len(buf) - 1]
}

/// The bytes of the frame that carries `payload`.
pub open spec fn framed(payload: Seq<u8>) -> Seq<u8>
    recommends
        payload.len() <= u8::MAX,
{
    seq![MARKER_HEAD, MARKER_TAIL, payload.len() as u8] + payload + seq![xor_all(payload)]
}

/// How many bytes are thrown away at the front of a buffer of at least
/// `MIN_FRAME_LEN` bytes that does not begin with a marker: everything before
/// the first marker, or one byte if there is no marker at all.
pub open spec fn resync_len(buf: Seq<u8>) -> int {
    if has_marker(buf) {
        first_marker(buf)
    } else {
        1
    }
}

/// What the assembler makes of `buf`: the payloads it emits, in order, and the
/// bytes it keeps for later.
///
/// * fewer than `MIN_FRAME_LEN` bytes: nothing happens;
/// * a marker at the front and the declared frame not yet complete: nothing happens;
/// * a complete frame at the front: its bytes are consumed, and its payload is
///   emitted if the checksum matches;
/// * otherwise `resync_len(buf)` bytes are dropped.
pub open spec fn scan(buf: Seq<u8>) -> (Seq<Seq<u8>>, Seq<u8>)
    decreases buf.len(),
    via scan_decreases
{
    if buf.len() < MIN_FRAME_LEN {
        (Seq::empty(), buf)
    } else if marker_at(buf, 0) {
        if buf.len() < declared_len(buf) {
            (Seq::empty(), buf)
        } else {
            let later = scan(buf.skip(declared_len(buf)));
            if front_valid(buf) {
                (seq![front_payload(buf)] + later.0, later.1)
            } else {
                later
            }
        }
    } else {
        scan(buf.skip(resync_len(buf)))
    }
}

#[via_fn]
proof fn scan_decreases(buf: Seq<u8>) {
    if buf.len() >= MIN_FRAME_LEN && !marker_at(buf, 0) {
        lemma_resync_len_bounds(buf);
    }
}

/// The first marker is found by `choose` whenever there is a marker.
pub proof fn lemma_first_marker(buf: Seq<u8>)
    requires
        has_marker(buf),
    ensures
        is_first_marker(buf, first_marker(buf)),
{
    let w = choose|i: int| marker_at(buf, i);
    lemma_first_marker_below(buf, w);
}

proof fn lemma_first_marker_below(buf: Seq<u8>, w: int)
    requires
        marker_at(buf, w),
    ensures
        exists|i: int| is_first_marker(buf, i),
    decreases w,
{
    if exists|j: int| 0 <= j < w && marker_at(buf, j) {
        let j = choose|j: int| 0 <= j < w && marker_at(buf, j);
        lemma_first_marker_below(buf, j);
    } else {
        assert(is_first_marker(buf, w));
    }
}

/// Only one offset is the first marker.
pub proof fn lemma_first_marker_unique(buf: Seq<u8>, i: int)
    requires
        is_first_marker(buf, i),
    ensures
        has_marker(buf),
        first_marker(buf) == i,
{
    lemma_first_marker(buf);
    let c = first_marker(buf);
    if c < i {
        assert(!marker_at(buf, c));
    } else if i < c {
        assert(!marker_at(buf, i));
    }
}

/// Resynchronising always drops at least one byte and never more than there are.
pub proof fn lemma_resync_len_bounds(buf: Seq<u8>)
    requires
        buf.len() >= 2,
        !marker_at(buf, 0),
    ensures
        1 <= resync_len(buf) < buf.len(),
{
    if has_marker(buf) {
        lemma_first_marker(buf);
    }
}

/// A buffer without any marker loses its front byte by byte until fewer than
/// `MIN_FRAME_LEN` bytes are left; nothing is emitted.
pub proof fn lemma_scan_without_marker(buf: Seq<u8>)
    requires
        !has_marker(buf),
    ensures
        scan(buf).0 == Seq::<Seq<u8>>::empty(),
        buf.len() < MIN_FRAME_LEN ==> scan(buf).1 == buf,
        buf.len() >= MIN_FRAME_LEN ==> scan(buf).1 == buf.skip(buf.len() - 3),
    decreases buf.len(),
{
    if buf.len() >= MIN_FRAME_LEN {
        assert(!marker_at(buf, 0));
        let shorter = buf.skip(1);
        assert forall|i: int| !marker_at(shorter, i) by {
            if marker_at(shorter, i) {
                assert(marker_at(buf, i + 1));
            }
        }
        lemma_scan_without_marker(shorter);
        if shorter.len() >= MIN_FRAME_LEN {
            assert(shorter.skip(shorter.len() - 3) =~= buf.skip(buf.len() - 3));
        } else {
            assert(shorter =~= buf.skip(buf.len() - 3));
        }
    }
}

/// XOR of the bytes of a slice.
pub fn checksum(bytes: &[u8]) -> (sum: u8)
    ensures
        sum == xor_all(bytes@),
{
    let mut sum: u8 = 0;
    let mut i: usize = 0;
    while i < bytes.len()
        invariant
            i <= bytes.len(),
            sum == xor_all(bytes@.take(i as int)),
        decreases bytes.len() - i,
    {
        assert(bytes@.take(i + 1).drop_last() =~= bytes@.take(i as int));
        sum = sum ^ bytes[i];
        i += 1;
    }
    assert(bytes@.take(i as int) =~= bytes@);
    sum
}

/// Offset of the first start marker at or after `from`, if there is one.
pub fn find_marker(buf: &[u8], from: usize) -> (found: Option<usize>)
    ensures
        match found {
            Some(at) => from <= at && marker_at(buf@, at as int) && forall|j: int|
                from <= j < at ==> !marker_at(buf@, j),
            None => forall|j: int| from <= j ==> !marker_at(buf@, j),
        },
{
    let mut i: usize = from;
    while i < buf.len() && buf.len() - i >= 2
        invariant
            from <= i,
            forall|j: int| from <= j < i ==> !marker_at(buf@, j),
        decreases buf.len() - i,
    {
        if buf[i] == MARKER_HEAD && buf[i + 1] == MARKER_TAIL {
            return Some(i);
        }
        i += 1;
    }
    None
}

/// The payloads held by a list of emitted frames.
pub open spec fn payloads_of(frames: Seq<Vec<u8>>) -> Seq<Seq<u8>> {
    frames.map_values(|f: Vec<u8>| f@)
}

/// Rolling buffer that turns a byte stream into validated payloads.
pub struct FrameAssembler {
    pending: Vec<u8>,
    capacity: usize,
}

impl View for FrameAssembler {
    type V = Seq<u8>;

    /// The bytes received so far that belong to no emitted or dropped frame.
    closed spec fn view(&self) -> Seq<u8> {
        self.pending@
    }
}

impl FrameAssembler {
    /// Largest number of pending bytes that survive a feed.
    pub closed spec fn limit(&self) -> nat {
        self.capacity as nat
    }

    /// The pending bytes never exceed the limit.
    pub open spec fn wf(&self) -> bool {
        self@.len() <= self.limit()
    }

    /// An empty assembler that keeps at most `DEFAULT_CAPACITY` pending bytes.
    pub fn new() -> (fa: Self)
        ensures
            fa@ == Seq::<u8>::empty(),
            fa.limit() == DEFAULT_CAPACITY,
            fa.wf(),
    {
        FrameAssembler { pending: Vec::new(), capacity: DEFAULT_CAPACITY }
    }

    /// An empty assembler that keeps at most `capacity` pending bytes.
    pub fn with_capacity(capacity: usize) -> (fa: Self)
        ensures
            fa@ == Seq::<u8>::empty(),
            fa.limit() == capacity,
            fa.wf(),
    {
        FrameAssembler { pending: Vec::new(), capacity }
    }

    /// The overflow cap this assembler was made with.
    pub fn capacity(&self) -> (cap: usize)
        ensures
            cap == self.limit(),
    {
        self.capacity
    }

    /// Number of pending bytes.
    pub fn pending_len(&self) -> (n: usize)
        ensures
            n == self@.len(),
    {
        self.pending.len()
    }

    /// The pending bytes, oldest first.
    pub fn pending(&self) -> (bytes: &[u8])
        ensures
            bytes@ == self@,
    {
        self.pending.as_slice()
    }

    /// Forgets all pending bytes.
    pub fn clear(&mut self)
        ensures
            final(self)@ == Seq::<u8>::empty(),
            final(self).limit() == old(self).limit(),
            final(self).wf(),
    {
        self.pending.clear();
    }

    /// Appends `data` to the pending bytes without looking for frames.
    ///
    /// The bytes wait for a later `feed`, unless there are now more of them
    /// than the limit: then all of them are thrown away.
    pub fn hold(&mut self, data: &[u8])
        ensures
            final(self)@ == kept(old(self)@ + data@, old(self).limit()),
            final(self).limit() == old(self).limit(),
            final(self).wf(),
    {
        self.pending.extend_from_slice(data);
        assert(self.pending@ =~= old(self)@ + data@);
        if self.pending.len() > self.capacity {
            self.pending.clear();
        }
    }

    /// Appends `data` to the pending bytes and extracts every frame that is
    /// now complete.
    ///
    /// Returns the payloads of the frames whose checksum matched, in arrival
    /// order. What stays pending is what `fed` says: nothing at all when
    /// more bytes than the limit have piled up without a single valid frame
    /// among them, or when what `scan` leaves over is longer than the limit;
    /// otherwise what `scan` leaves over.
    pub fn feed(&mut self, data: &[u8]) -> (frames: Vec<Vec<u8>>)
        ensures
            payloads_of(frames@) == scan(old(self)@ + data@).0,
            final(self)@ == fed(old(self)@, data@, old(self).limit()),
            final(self).limit() == old(self).limit(),
            final(self).wf(),
    {
        let ghost full = self@ + data@;
        self.pending.extend_from_slice(data);
        assert(self.pending@ =~= full);
        let len: usize = self.pending.len();
        let mut frames: Vec<Vec<u8>> = Vec::new();
        let mut pos: usize = 0;
        assert(full.skip(0) =~= full);
        assert(payloads_of(frames@) + scan(full).0 =~= scan(full).0);
        while len - pos >= MIN_FRAME_LEN
            invariant
                pos <= len,
                len == full.len(),
                self.pending@ == full,
                self.capacity == old(self).capacity,
                scan(full).0 == payloads_of(frames@) + scan(full.skip(pos as int)).0,
                scan(full).1 == scan(full.skip(pos as int)).1,
            ensures
                pos <= len,
                self.pending@ == full,
                self.capacity == old(self).capacity,
                scan(full).0 == payloads_of(frames@),
                scan(full).1 == full.skip(pos as int),
            decreases len - pos,
        {
            let ghost sub = full.skip(pos as int);
            assert(sub.len() == len - pos);
            assert(forall|j: int| 0 <= j < sub.len() ==> sub[j] == full[pos + j]);
            if self.pending[pos] == MARKER_HEAD && self.pending[pos + 1] == MARKER_TAIL {
                assert(marker_at(sub, 0));
                let body: usize = self.pending[pos + 2] as usize;
                let total: usize = body + 4;
                assert(total == declared_len(sub));
                if len - pos < total {
                    assert(payloads_of(frames@) + Seq::<Seq<u8>>::empty() =~= payloads_of(
                        frames@,
                    ));
                    break;
                }
                assert(sub.skip(total as int) =~= full.skip(pos + total));
                let payload = vstd::slice::slice_subrange(
                    self.pending.as_slice(),
                    pos + 3,
                    pos + 3 + body,
                );
                assert(payload@ =~= front_payload(sub));
                if checksum(payload) == self.pending[pos + 3 + body] {
                    let ghost before = frames@;
                    let owned = vstd::slice::slice_to_vec(payload);
                    frames.push(owned);
                    assert(front_valid(sub));
                    assert(payloads_of(frames@) =~= payloads_of(before).push(front_payload(sub)));
                    assert(payloads_of(before) + (seq![front_payload(sub)] + scan(
                        sub.skip(total as int),
                    ).0) =~= payloads_of(frames@) + scan(sub.skip(total as int)).0);
                } else {
                    assert(!front_valid(sub));
                }
                pos = pos + total;
            } else {
                assert(!marker_at(sub, 0));
                match find_marker(self.pending.as_slice(), pos + 1) {
                    Some(at) => {
                        assert(marker_at(sub, at - pos));
                        assert forall|j: int| 0 <= j < at - pos implies !marker_at(sub, j) by {
                            if marker_at(sub, j) {
                                assert(marker_at(full, pos + j));
                            }
                        }
                        proof {
                            lemma_first_marker_unique(sub, at - pos);
                        }
                        assert(sub.skip(at - pos) =~= full.skip(at as int));
                        pos = at;
                    },
                    None => {
                        assert forall|j: int| !marker_at(sub, j) by {
                            if marker_at(sub, j) {
                                assert(marker_at(full, pos + j));
                            }
                        }
                        proof {
                            lemma_scan_without_marker(sub);
                        }
                        assert(sub.skip(sub.len() - 3) =~= full.skip(len - 3));
                        pos = len - 3;
                        assert(payloads_of(frames@) + Seq::<Seq<u8>>::empty() =~= payloads_of(
                            frames@,
                        ));
                    },
                }
            }
        }
        assert(payloads_of(frames@).len() == frames@.len());
        let rest = self.pending.split_off(pos);
        assert(rest@ =~= full.skip(pos as int));
        if (frames.len() == 0 && len > self.capacity) || rest.len() > self.capacity {
            self.pending = Vec::new();
        } else {
            self.pending = rest;
        }
        frames
    }
}

/// What stays pending of the bytes `rest` that a scan left over: all of them,
/// or nothing when they are more than `limit`.
pub open spec fn kept(rest: Seq<u8>, limit: nat) -> Seq<u8> {
    if rest.len() > limit {
        Seq::empty()
    } else {
        rest
    }
}

/// What stays pending after `data` was fed to an assembler that held
/// `pending`: nothing when the bytes together are more than `limit` and hold
/// no valid frame, else what is kept of the bytes that the scan left over.
pub open spec fn fed(pending: Seq<u8>, data: Seq<u8>, limit: nat) -> Seq<u8> {
    if scan(pending + data).0.len() == 0 && pending.len() + data.len() > limit {
        Seq::empty()
    } else {
        kept(scan(pending + data).1, limit)
    }
}

/// The overflow cap: when more bytes than the limit have piled up and no
/// valid frame has appeared among them, a feed leaves nothing pending. Bytes
/// without any start marker are such bytes. Whatever is fed, no more than
/// the limit stays pending.
pub proof fn lemma_flood_is_cleared(pending: Seq<u8>, data: Seq<u8>, limit: nat)
    ensures
        fed(pending, data, limit).len() <= limit,
        pending.len() + data.len() > limit && scan(pending + data).0.len() == 0 ==> fed(
            pending,
            data,
            limit,
        ) == Seq::<u8>::empty(),
        pending.len() + data.len() > limit && !has_marker(pending + data) ==> fed(
            pending,
            data,
            limit,
        ) == Seq::<u8>::empty(),
{
    if !has_marker(pending + data) {
        lemma_scan_without_marker(pending + data);
    }
}

/// Every emitted payload was carried by a frame of the stream: at some offset
/// of `buf` stand the marker, a length byte equal to the payload's length,
/// the payload itself and its XOR, `payload.len() + 4` bytes in all.
pub proof fn lemma_emitted_payloads_were_framed(buf: Seq<u8>, k: int)
    requires
        0 <= k < scan(buf).0.len(),
    ensures
        exists|at: int|
            0 <= at <= buf.len() && front_valid(#[trigger] buf.skip(at)) && front_payload(
                buf.skip(at),
            ) == scan(buf).0[k] && declared_len(buf.skip(at)) == scan(buf).0[k].len() + 4
                && xor_all(scan(buf).0[k]) == buf[at + declared_len(buf.skip(at)) - 1],
    decreases buf.len(),
{
    if buf.len() < MIN_FRAME_LEN {
    } else if marker_at(buf, 0) {
        if buf.len() >= declared_len(buf) {
            if front_valid(buf) && k == 0 {
                assert(buf.skip(0) =~= buf);
            } else {
                let step = declared_len(buf);
                let later = buf.skip(step);
                let k2 = if front_valid(buf) {
                    k - 1
                } else {
                    k
                };
                lemma_emitted_payloads_were_framed(later, k2);
                let at = choose|at: int|
                    0 <= at <= later.len() && front_valid(#[trigger] later.skip(at))
                        && front_payload(later.skip(at)) == scan(later).0[k2] && declared_len(
                        later.skip(at),
                    ) == scan(later).0[k2].len() + 4 && xor_all(scan(later).0[k2]) == later[at
                        + declared_len(later.skip(at)) - 1];
                assert(later.skip(at) =~= buf.skip(step + at));
            }
        }
    } else {
        lemma_resync_len_bounds(buf);
        let step = resync_len(buf);
        let later = buf.skip(step);
        lemma_emitted_payloads_were_framed(later, k);
        let at = choose|at: int|
            0 <= at <= later.len() && front_valid(#[trigger] later.skip(at)) && front_payload(
                later.skip(at),
            ) == scan(later).0[k] && declared_len(later.skip(at)) == scan(later).0[k].len() + 4
                && xor_all(scan(later).0[k]) == later[at + declared_len(later.skip(at)) - 1];
        assert(later.skip(at) =~= buf.skip(step + at));
    }
}

/// The bytes that a scan keeps are the tail of what it was given: the stream
/// is consumed from the front and nothing is reordered.
pub proof fn lemma_scan_keeps_a_suffix(buf: Seq<u8>)
    ensures
        scan(buf).1.len() <= buf.len(),
        scan(buf).1 == buf.skip(buf.len() - scan(buf).1.len()),
    decreases buf.len(),
{
    if buf.len() < MIN_FRAME_LEN || (marker_at(buf, 0) && buf.len() < declared_len(buf)) {
        assert(buf.skip(0) =~= buf);
    } else {
        let step = if marker_at(buf, 0) {
            declared_len(buf)
        } else {
            resync_len(buf)
        };
        if !marker_at(buf, 0) {
            lemma_resync_len_bounds(buf);
        }
        let later = buf.skip(step);
        lemma_scan_keeps_a_suffix(later);
        assert(later.skip(later.len() - scan(later).1.len()) =~= buf.skip(
            buf.len() - scan(later).1.len(),
        ));
    }
}

/// A well-formed frame at the front of a stream is consumed whole and its
/// payload is emitted first; the scan then goes on with what follows.
pub proof fn lemma_scan_framed(payload: Seq<u8>, tail: Seq<u8>)
    requires
        payload.len() <= u8::MAX,
    ensures
        scan(framed(payload) + tail).0 == seq![payload] + scan(tail).0,
        scan(framed(payload) + tail).1 == scan(tail).1,
{
    let buf = framed(payload) + tail;
    assert(marker_at(buf, 0));
    assert(declared_len(buf) == payload.len() + 4);
    assert(front_payload(buf) =~= payload);
    assert(buf.skip(declared_len(buf)) =~= tail);
}

/// A stream that is exactly one well-formed frame yields exactly its payload
/// and leaves nothing behind.
pub proof fn lemma_scan_single_frame(payload: Seq<u8>)
    requires
        payload.len() <= u8::MAX,
    ensures
        scan(framed(payload)) == (seq![payload], Seq::<u8>::empty()),
{
    lemma_scan_framed(payload, Seq::empty());
    assert(framed(payload) + Seq::<u8>::empty() =~= framed(payload));
    assert(seq![payload] + Seq::<Seq<u8>>::empty() =~= seq![payload]);
}

/// Two well-formed frames back to back yield their two payloads in arrival
/// order and leave nothing behind.
pub proof fn lemma_scan_two_frames(first: Seq<u8>, second: Seq<u8>)
    requires
        first.len() <= u8::MAX,
        second.len() <= u8::MAX,
    ensures
        scan(framed(first) + framed(second)) == (seq![first, second], Seq::<u8>::empty()),
{
    lemma_scan_framed(first, framed(second));
    lemma_scan_single_frame(second);
    assert(seq![first] + seq![second] =~= seq![first, second]);
}

/// A complete frame whose checksum byte is wrong is consumed whole without
/// emitting anything; the scan goes on with what follows it.
pub proof fn lemma_scan_bad_checksum(payload: Seq<u8>, check: u8, tail: Seq<u8>)
    requires
        payload.len() <= u8::MAX,
        check != xor_all(payload),
    ensures
        scan(
            seq![MARKER_HEAD, MARKER_TAIL, payload.len() as u8] + payload + seq![check] + tail,
        ) == scan(tail),
{
    let buf = seq![MARKER_HEAD, MARKER_TAIL, payload.len() as u8] + payload + seq![check] + tail;
    assert(marker_at(buf, 0));
    assert(declared_len(buf) == payload.len() + 4);
    assert(front_payload(buf) =~= payload);
    assert(buf[declared_len(buf) - 1] == check);
    assert(buf.skip(declared_len(buf)) =~= tail);
}

/// After a run of at least `MIN_FRAME_LEN` bytes without a marker, only
/// its last three bytes matter for what follows.
pub proof fn lemma_scan_after_noise(noise: Seq<u8>, more: Seq<u8>)
    requires
        !has_marker(noise),
        noise.len() >= MIN_FRAME_LEN,
    ensures
        scan(noise + more).0 == scan(noise.skip(noise.len() - 3) + more).0,
        scan(noise + more).1 == scan(noise.skip(noise.len() - 3) + more).1,
{
    let off = noise.len() - 3;
    let tail = noise.skip(off);
    let whole = noise + more;
    let short = tail + more;
    assert forall|j: int| marker_at(short, j) implies marker_at(whole, j + off) by {}
    assert forall|j: int| marker_at(whole, j) implies j >= noise.len() - 1 by {
        if j < noise.len() - 1 {
            assert(marker_at(noise, j));
        }
    }
    if more.len() == 0 {
        assert(whole =~= noise);
        assert(short =~= tail);
        lemma_scan_without_marker(noise);
    } else if has_marker(whole) {
        lemma_first_marker(whole);
        let m = first_marker(whole);
        assert(marker_at(short, m - off));
        assert(is_first_marker(short, m - off));
        lemma_first_marker_unique(short, m - off);
        assert(!marker_at(whole, 0));
        assert(!marker_at(short, 0));
        assert(whole.skip(m) =~= short.skip(m - off));
    } else {
        assert(!has_marker(short)) by {
            if has_marker(short) {
                let j = choose|j: int| marker_at(short, j);
                assert(marker_at(whole, j + off));
            }
        }
        lemma_scan_without_marker(whole);
        lemma_scan_without_marker(short);
        assert(whole.skip(whole.len() - 3) =~= short.skip(short.len() - 3));
    }
}

/// Feeding a stream in two pieces gives what feeding it whole gives: the
/// payloads of the first piece, then those that the bytes it left over and
/// the second piece yield together, and the same bytes are left in the end.
/// (This is about `scan` alone: the overflow cap, which `fed` adds, is not
/// part of it.)
pub proof fn lemma_scan_in_pieces(first: Seq<u8>, second: Seq<u8>)
    ensures
        scan(first + second).0 == scan(first).0 + scan(scan(first).1 + second).0,
        scan(first + second).1 == scan(scan(first).1 + second).1,
    decreases first.len(),
{
    let whole = first + second;
    if first.len() < MIN_FRAME_LEN || (marker_at(first, 0) && first.len() < declared_len(first)) {
        assert(Seq::<Seq<u8>>::empty() + scan(whole).0 =~= scan(whole).0);
    } else if marker_at(first, 0) {
        let total = declared_len(first);
        let later = first.skip(total);
        assert(marker_at(whole, 0));
        assert(declared_len(whole) == total);
        assert(whole.skip(total) =~= later + second);
        assert(front_payload(whole) =~= front_payload(first));
        assert(front_valid(whole) == front_valid(first));
        lemma_scan_in_pieces(later, second);
        let next = scan(scan(later).1 + second).0;
        if front_valid(first) {
            assert((seq![front_payload(first)] + scan(later).0) + next =~= seq![
                front_payload(first),
            ] + (scan(later).0 + next));
        }
    } else if has_marker(first) {
        lemma_first_marker(first);
        let k = first_marker(first);
        assert(marker_at(whole, k));
        assert forall|j: int| 0 <= j < k implies !marker_at(whole, j) by {
            if marker_at(whole, j) {
                assert(marker_at(first, j));
            }
        }
        lemma_first_marker_unique(whole, k);
        assert(!marker_at(whole, 0));
        assert(whole.skip(k) =~= first.skip(k) + second);
        lemma_scan_in_pieces(first.skip(k), second);
    } else {
        lemma_scan_without_marker(first);
        lemma_scan_after_noise(first, second);
        let next = scan(first.skip(first.len() - 3) + second).0;
        assert(Seq::<Seq<u8>>::empty() + next =~= next);
    }
}

} // verus!
