//! The mathematical model of an edited file.
//!
//! A file under edit is a sequence of *slots*, one per offset of the backing
//! file plus the slots appended behind it. A slot without an overlay record
//! holds the backing byte found at its offset. A slot with a record holds the
//! record's run of bytes, or nothing at all once it carries a tombstone. The
//! logical content is the concatenation of all slots in ascending order.
use vstd::prelude::*;

verus! {

/// A pending change to one slot.
#[derive(Debug, PartialEq)]
pub enum Changes {
    /// The slot holds these bytes in place of its backing byte.
    Insertion(Vec<u8>),
    /// The slot's byte has been removed.
    Deleted,
}

impl Changes {
    /// The bytes the slot contributes to the logical content.
    pub open spec fn bytes(self) -> Seq<u8> {
        match self {
            Changes::Insertion(run) => run@,
            Changes::Deleted => Seq::empty(),
        }
    }

    /// A run is never empty: an exhausted run becomes a tombstone.
    pub open spec fn wf(self) -> bool {
        self matches Changes::Insertion(run) ==> run@.len() >= 1
    }
}

/// The position a logical address translates to.
#[derive(Clone, Copy, Debug, PartialEq, Eq, Structural)]
pub enum Addr {
    /// The byte lives unmodified in the backing file at this offset.
    FileAddress(u64),
    /// The byte lives inside the run stored under `run_key`.
    InsertedAddress { run_key: u64, offset_in_run: u64 },
}

/// The largest content the editor takes on: each of its bytes has two
/// nibbles, and the address of every nibble fits 64 bits.
pub const MAX_SIZE: u64 = 0x7fff_ffff_ffff_ffff;

/// One past the largest slot number.
pub open spec fn slot_limit() -> int {
    0x1_0000_0000_0000_0000
}

/// The bytes that slot `slot` contributes to the logical content.
pub open spec fn slot_bytes(file: Seq<u8>, overlay: Map<u64, Changes>, slot: int) -> Seq<u8> {
    if 0 <= slot < slot_limit() && overlay.contains_key(slot as u64) {
        overlay[slot as u64].bytes()
    } else if 0 <= slot < file.len() {
        seq![file[slot]]
    } else {
        Seq::empty()
    }
}

/// The logical bytes contributed by the slots below `slot`.
pub open spec fn content_before(file: Seq<u8>, overlay: Map<u64, Changes>, slot: int) -> Seq<u8>
    decreases slot,
{
    if slot <= 0 {
        Seq::empty()
    } else {
        content_before(file, overlay, slot - 1) + slot_bytes(file, overlay, slot - 1)
    }
}

/// The logical address at which slot `slot` begins.
pub open spec fn offset_of(file: Seq<u8>, overlay: Map<u64, Changes>, slot: int) -> int {
    content_before(file, overlay, slot).len() as int
}

/// The whole logical content.
pub open spec fn content(file: Seq<u8>, overlay: Map<u64, Changes>) -> Seq<u8> {
    content_before(file, overlay, slot_limit())
}

/// The backing file is no larger than `MAX_SIZE`, every record is well formed, the
/// slots appended behind the backing file are contiguous, and the last slot
/// number stays free.
pub open spec fn overlay_wf(file: Seq<u8>, overlay: Map<u64, Changes>) -> bool {
    &&& file.len() <= MAX_SIZE
    &&& forall|k: u64| #[trigger] overlay.contains_key(k) ==> overlay[k].wf() && k < u64::MAX
    &&& forall|k: u64, s: u64|
        #![trigger overlay.contains_key(k), overlay.contains_key(s)]
        overlay.contains_key(k) && file.len() <= s < k ==> overlay.contains_key(s)
}

/// `addr` is the position of logical address `a`: an untouched backing byte,
/// a byte of a run, or, for the address one past the end, the first free slot
/// behind everything.
pub open spec fn locates(file: Seq<u8>, overlay: Map<u64, Changes>, addr: Addr, a: int) -> bool {
    match addr {
        Addr::FileAddress(f) => {
            &&& !overlay.contains_key(f)
            &&& offset_of(file, overlay, f as int) == a
            &&& forall|s: u64| file.len() <= s < f ==> #[trigger] overlay.contains_key(s)
        },
        Addr::InsertedAddress { run_key, offset_in_run } => {
            &&& overlay.contains_key(run_key)
            &&& overlay[run_key] is Insertion
            &&& offset_in_run < overlay[run_key].bytes().len()
            &&& offset_of(file, overlay, run_key as int) + offset_in_run == a
        },
    }
}

/// The slot a position lies in.
pub open spec fn slot_of(addr: Addr) -> int {
    match addr {
        Addr::FileAddress(f) => f as int,
        Addr::InsertedAddress { run_key, .. } => run_key as int,
    }
}

/// The index of a position inside its slot.
pub open spec fn index_in_slot(addr: Addr) -> int {
    match addr {
        Addr::FileAddress(_) => 0,
        Addr::InsertedAddress { offset_in_run, .. } => offset_in_run as int,
    }
}

/// Slots begin at ascending logical addresses, each one where the previous ends.
pub proof fn lemma_content_before_grows(
    file: Seq<u8>,
    overlay: Map<u64, Changes>,
    lo: int,
    hi: int,
)
    requires
        lo <= hi,
    ensures
        offset_of(file, overlay, lo) <= offset_of(file, overlay, hi),
        content_before(file, overlay, lo) == content_before(file, overlay, hi).subrange(
            0,
            offset_of(file, overlay, lo),
        ),
    decreases hi - lo,
{
    if lo < hi && 0 < hi {
        lemma_content_before_grows(file, overlay, lo, hi - 1);
        let prev = content_before(file, overlay, hi - 1);
        let cur = content_before(file, overlay, hi);
        assert(cur == prev + slot_bytes(file, overlay, hi - 1));
        assert(content_before(file, overlay, lo) =~= cur.subrange(
            0,
            offset_of(file, overlay, lo),
        ));
    } else {
        assert(content_before(file, overlay, lo) =~= content_before(file, overlay, hi).subrange(
            0,
            offset_of(file, overlay, lo),
        ));
    }
}

/// The bytes of a slot appear in the content of every longer prefix, at the
/// slot's offset.
pub proof fn lemma_slot_in_content(
    file: Seq<u8>,
    overlay: Map<u64, Changes>,
    slot: int,
    hi: int,
    j: int,
)
    requires
        0 <= slot < hi,
        0 <= j < slot_bytes(file, overlay, slot).len(),
    ensures
        offset_of(file, overlay, slot) + j < offset_of(file, overlay, hi),
        content_before(file, overlay, hi)[offset_of(file, overlay, slot) + j] == slot_bytes(
            file,
            overlay,
            slot,
        )[j],
{
    lemma_content_before_grows(file, overlay, slot + 1, hi);
    let next = content_before(file, overlay, slot + 1);
    assert(next == content_before(file, overlay, slot) + slot_bytes(file, overlay, slot));
    assert(next[offset_of(file, overlay, slot) + j] == slot_bytes(file, overlay, slot)[j]);
}

/// Across a stretch of untouched backing bytes, logical addresses and file
/// offsets advance together.
pub proof fn lemma_untouched_stretch(
    file: Seq<u8>,
    overlay: Map<u64, Changes>,
    lo: int,
    hi: int,
)
    requires
        0 <= lo <= hi <= file.len(),
        hi <= slot_limit(),
        forall|s: u64| lo <= s < hi ==> !#[trigger] overlay.contains_key(s),
    ensures
        offset_of(file, overlay, hi) == offset_of(file, overlay, lo) + (hi - lo),
        content_before(file, overlay, hi) == content_before(file, overlay, lo) + file.subrange(
            lo,
            hi,
        ),
    decreases hi - lo,
{
    if lo < hi {
        lemma_untouched_stretch(file, overlay, lo, hi - 1);
        assert(!overlay.contains_key((hi - 1) as u64));
        assert(slot_bytes(file, overlay, hi - 1) == seq![file[hi - 1]]);
        assert(content_before(file, overlay, hi) =~= content_before(file, overlay, lo)
            + file.subrange(lo, hi));
    } else {
        assert(content_before(file, overlay, hi) =~= content_before(file, overlay, lo)
            + file.subrange(lo, hi));
    }
}

/// Slots behind the backing file that carry no record contribute nothing.
pub proof fn lemma_empty_stretch(file: Seq<u8>, overlay: Map<u64, Changes>, lo: int, hi: int)
    requires
        file.len() <= lo <= hi,
        forall|s: u64| lo <= s < hi ==> !#[trigger] overlay.contains_key(s),
    ensures
        content_before(file, overlay, hi) == content_before(file, overlay, lo),
    decreases hi - lo,
{
    if lo < hi {
        lemma_empty_stretch(file, overlay, lo, hi - 1);
        if hi - 1 < slot_limit() {
            assert(!overlay.contains_key((hi - 1) as u64));
        }
        assert(slot_bytes(file, overlay, hi - 1) =~= Seq::<u8>::empty());
        assert(content_before(file, overlay, hi) =~= content_before(file, overlay, lo));
    }
}

/// The two overlays hold the same records, but for the record of slot `k`.
pub open spec fn differ_only_at(a: Map<u64, Changes>, b: Map<u64, Changes>, k: u64) -> bool {
    forall|s: u64|
        #![trigger a.contains_key(s)]
        #![trigger b.contains_key(s)]
        s != k ==> (a.contains_key(s) <==> b.contains_key(s)) && (a.contains_key(s) ==> a[s]
            == b[s])
}

/// A change to the record of slot `k` leaves the content below `k` as it was.
pub proof fn lemma_prefix_unchanged(
    file: Seq<u8>,
    a: Map<u64, Changes>,
    b: Map<u64, Changes>,
    k: u64,
    hi: int,
)
    requires
        differ_only_at(a, b, k),
        hi <= k,
    ensures
        content_before(file, b, hi) == content_before(file, a, hi),
    decreases hi,
{
    if hi > 0 {
        lemma_prefix_unchanged(file, a, b, k, hi - 1);
        assert(a.contains_key((hi - 1) as u64) <==> b.contains_key((hi - 1) as u64));
        assert(slot_bytes(file, b, hi - 1) == slot_bytes(file, a, hi - 1));
    }
}

/// A change to the record of slot `k` replaces the bytes of that slot and
/// leaves the bytes on both sides of it as they were.
pub proof fn lemma_replace_slot(
    file: Seq<u8>,
    a: Map<u64, Changes>,
    b: Map<u64, Changes>,
    k: u64,
    hi: int,
)
    requires
        differ_only_at(a, b, k),
        k < hi,
    ensures
        offset_of(file, a, k + 1) <= offset_of(file, a, hi),
        content_before(file, b, hi) == content_before(file, a, k as int) + slot_bytes(
            file,
            b,
            k as int,
        ) + content_before(file, a, hi).subrange(
            offset_of(file, a, k + 1),
            offset_of(file, a, hi),
        ),
    decreases hi,
{
    let head = content_before(file, a, k as int);
    lemma_prefix_unchanged(file, a, b, k, k as int);
    lemma_content_before_grows(file, a, k + 1, hi);
    if hi == k + 1 {
        assert(content_before(file, b, hi) =~= head + slot_bytes(file, b, k as int)
            + content_before(file, a, hi).subrange(
            offset_of(file, a, k + 1),
            offset_of(file, a, hi),
        ));
    } else {
        lemma_replace_slot(file, a, b, k, hi - 1);
        lemma_content_before_grows(file, a, hi - 1, hi);
        if hi - 1 < slot_limit() {
            assert(a.contains_key((hi - 1) as u64) <==> b.contains_key((hi - 1) as u64));
        }
        assert(slot_bytes(file, b, hi - 1) == slot_bytes(file, a, hi - 1));
        assert(content_before(file, b, hi) =~= head + slot_bytes(file, b, k as int)
            + content_before(file, a, hi).subrange(
            offset_of(file, a, k + 1),
            offset_of(file, a, hi),
        ));
    }
}

/// The content after a change to the record of slot `k`: the old content with
/// the old bytes of the slot cut out and the new ones put in their place.
pub proof fn lemma_content_replace(
    file: Seq<u8>,
    a: Map<u64, Changes>,
    b: Map<u64, Changes>,
    k: u64,
)
    requires
        differ_only_at(a, b, k),
    ensures
        0 <= offset_of(file, a, k as int),
        offset_of(file, a, k as int) + slot_bytes(file, a, k as int).len() <= content(
            file,
            a,
        ).len(),
        content(file, a).subrange(
            offset_of(file, a, k as int),
            offset_of(file, a, k as int) + slot_bytes(file, a, k as int).len(),
        ) == slot_bytes(file, a, k as int),
        content(file, b) == content(file, a).subrange(0, offset_of(file, a, k as int))
            + slot_bytes(file, b, k as int) + content(file, a).subrange(
            offset_of(file, a, k as int) + slot_bytes(file, a, k as int).len(),
            content(file, a).len() as int,
        ),
{
    lemma_replace_slot(file, a, b, k, slot_limit());
    lemma_content_before_grows(file, a, k as int, slot_limit());
    lemma_content_before_grows(file, a, k + 1, slot_limit());
    assert(content_before(file, a, k + 1) == content_before(file, a, k as int) + slot_bytes(
        file,
        a,
        k as int,
    ));
    let whole = content(file, a);
    let next = content_before(file, a, k + 1);
    let start = offset_of(file, a, k as int);
    let bytes = slot_bytes(file, a, k as int);
    assert(next == whole.subrange(0, offset_of(file, a, k + 1)));
    assert forall|i: int| 0 <= i < bytes.len() implies whole[start + i] == bytes[i] by {
        assert(next[start + i] == bytes[i]);
        assert(whole.subrange(0, offset_of(file, a, k + 1))[start + i] == whole[start + i]);
    }
    assert(whole.subrange(start, start + bytes.len()) =~= bytes);
}

/// Behind a free slot that follows the backing file and every appended slot,
/// nothing is left: the content ends where that slot begins.
pub proof fn lemma_end_slot(file: Seq<u8>, overlay: Map<u64, Changes>, f: u64)
    requires
        overlay_wf(file, overlay),
        file.len() <= f,
        !overlay.contains_key(f),
    ensures
        content(file, overlay).len() == offset_of(file, overlay, f as int),
        forall|s: u64| f <= s ==> !#[trigger] overlay.contains_key(s),
{
    assert forall|s: u64| f <= s implies !#[trigger] overlay.contains_key(s) by {
        if overlay.contains_key(s) && s > f {
            assert(overlay.contains_key(s) && overlay.contains_key(f));
        }
    }
    lemma_empty_stretch(file, overlay, f as int, slot_limit());
}

/// A position found for an address inside the content holds the byte at that
/// address.
pub proof fn lemma_locates_byte(file: Seq<u8>, overlay: Map<u64, Changes>, addr: Addr, a: int)
    requires
        overlay_wf(file, overlay),
        locates(file, overlay, addr, a),
    ensures
        0 <= a <= content(file, overlay).len(),
        match addr {
            Addr::FileAddress(f) => if a < content(file, overlay).len() {
                f < file.len() && content(file, overlay)[a] == file[f as int]
            } else {
                file.len() <= f
            },
            Addr::InsertedAddress { run_key, offset_in_run } => a < content(file, overlay).len()
                && content(file, overlay)[a] == overlay[run_key].bytes()[offset_in_run as int],
        },
{
    match addr {
        Addr::FileAddress(f) => {
            lemma_content_before_grows(file, overlay, f as int, slot_limit());
            if f < file.len() {
                lemma_slot_in_content(file, overlay, f as int, slot_limit(), 0);
            } else {
                lemma_end_slot(file, overlay, f);
            }
        },
        Addr::InsertedAddress { run_key, offset_in_run } => {
            lemma_slot_in_content(file, overlay, run_key as int, slot_limit(), offset_in_run as int);
        },
    }
}

/// An address has at most one position.
pub proof fn lemma_locates_unique(
    file: Seq<u8>,
    overlay: Map<u64, Changes>,
    first: Addr,
    second: Addr,
    a: int,
)
    requires
        overlay_wf(file, overlay),
        locates(file, overlay, first, a),
        locates(file, overlay, second, a),
    ensures
        first == second,
{
    lemma_locates_byte(file, overlay, first, a);
    lemma_locates_byte(file, overlay, second, a);
    let s1 = slot_of(first);
    let s2 = slot_of(second);
    if s1 < s2 {
        lemma_positions_ordered(file, overlay, first, second, a, a);
    } else if s2 < s1 {
        lemma_positions_ordered(file, overlay, second, first, a, a);
    }
}

/// Of two positions in different slots, the one in the lower slot has the
/// lower address.
pub proof fn lemma_positions_ordered(
    file: Seq<u8>,
    overlay: Map<u64, Changes>,
    low: Addr,
    high: Addr,
    a: int,
    b: int,
)
    requires
        overlay_wf(file, overlay),
        locates(file, overlay, low, a),
        locates(file, overlay, high, b),
        slot_of(low) < slot_of(high),
    ensures
        a < b,
{
    let s1 = slot_of(low);
    let s2 = slot_of(high);
    lemma_locates_byte(file, overlay, low, a);
    lemma_content_before_grows(file, overlay, s1 + 1, s2);
    assert(content_before(file, overlay, s1 + 1) == content_before(file, overlay, s1)
        + slot_bytes(file, overlay, s1));
    match low {
        Addr::FileAddress(f) => {
            if f >= file.len() {
                lemma_end_slot(file, overlay, f);
                match high {
                    Addr::FileAddress(g) => {
                        assert(overlay.contains_key(f));
                    },
                    Addr::InsertedAddress { run_key, .. } => {},
                }
            }
        },
        Addr::InsertedAddress { .. } => {},
    }
}

/// Setting one byte of the bytes a slot holds sets that byte of the content.
pub proof fn lemma_slot_update(
    file: Seq<u8>,
    a: Map<u64, Changes>,
    b: Map<u64, Changes>,
    k: u64,
    j: int,
    value: u8,
)
    requires
        differ_only_at(a, b, k),
        0 <= j < slot_bytes(file, a, k as int).len(),
        slot_bytes(file, b, k as int) == slot_bytes(file, a, k as int).update(j, value),
    ensures
        content(file, b) == content(file, a).update(offset_of(file, a, k as int) + j, value),
{
    lemma_content_replace(file, a, b, k);
    let whole = content(file, a);
    let start = offset_of(file, a, k as int);
    let bytes = slot_bytes(file, a, k as int);
    assert forall|i: int| 0 <= i < bytes.len() implies whole[start + i] == bytes[i] by {
        assert(whole.subrange(start, start + bytes.len())[i] == whole[start + i]);
    }
    assert(content(file, b) =~= whole.update(start + j, value));
}

/// Putting a byte into the bytes a slot holds puts it into the content.
pub proof fn lemma_slot_insert(
    file: Seq<u8>,
    a: Map<u64, Changes>,
    b: Map<u64, Changes>,
    k: u64,
    j: int,
    value: u8,
)
    requires
        differ_only_at(a, b, k),
        0 <= j <= slot_bytes(file, a, k as int).len(),
        slot_bytes(file, b, k as int) == slot_bytes(file, a, k as int).insert(j, value),
    ensures
        content(file, b) == content(file, a).insert(offset_of(file, a, k as int) + j, value),
{
    lemma_content_replace(file, a, b, k);
    let whole = content(file, a);
    let start = offset_of(file, a, k as int);
    let bytes = slot_bytes(file, a, k as int);
    assert forall|i: int| 0 <= i < bytes.len() implies whole[start + i] == bytes[i] by {
        assert(whole.subrange(start, start + bytes.len())[i] == whole[start + i]);
    }
    assert(content(file, b) =~= whole.insert(start + j, value));
}

/// Taking a byte out of the bytes a slot holds takes it out of the content.
pub proof fn lemma_slot_remove(
    file: Seq<u8>,
    a: Map<u64, Changes>,
    b: Map<u64, Changes>,
    k: u64,
    j: int,
)
    requires
        differ_only_at(a, b, k),
        0 <= j < slot_bytes(file, a, k as int).len(),
        slot_bytes(file, b, k as int) == slot_bytes(file, a, k as int).remove(j),
    ensures
        content(file, b) == content(file, a).remove(offset_of(file, a, k as int) + j),
{
    lemma_content_replace(file, a, b, k);
    let whole = content(file, a);
    let start = offset_of(file, a, k as int);
    let bytes = slot_bytes(file, a, k as int);
    assert forall|i: int| 0 <= i < bytes.len() implies whole[start + i] == bytes[i] by {
        assert(whole.subrange(start, start + bytes.len())[i] == whole[start + i]);
    }
    assert(content(file, b) =~= whole.remove(start + j));
}

/// A well-formed record put under a slot that continues the appended slots,
/// or lies inside the backing file, keeps the overlay well formed.
pub proof fn lemma_put_keeps_wf(
    file: Seq<u8>,
    a: Map<u64, Changes>,
    k: u64,
    record: Changes,
)
    requires
        overlay_wf(file, a),
        record.wf(),
        k < u64::MAX,
        forall|s: u64| file.len() <= s < k ==> #[trigger] a.contains_key(s),
    ensures
        overlay_wf(file, a.insert(k, record)),
        differ_only_at(a, a.insert(k, record), k),
{
    let b = a.insert(k, record);
    assert forall|q: u64, s: u64|
        #![trigger b.contains_key(q), b.contains_key(s)]
        b.contains_key(q) && file.len() <= s < q implies b.contains_key(s) by {
        if q != k {
            assert(a.contains_key(q) && a.contains_key(s));
        }
    }
}

/// Between two slots that begin at the same logical address, no slot holds a
/// byte.
pub proof fn lemma_equal_offsets_empty(
    file: Seq<u8>,
    overlay: Map<u64, Changes>,
    lo: int,
    hi: int,
    s: int,
)
    requires
        0 <= lo <= s < hi,
        offset_of(file, overlay, lo) == offset_of(file, overlay, hi),
    ensures
        slot_bytes(file, overlay, s).len() == 0,
{
    lemma_content_before_grows(file, overlay, lo, s);
    lemma_content_before_grows(file, overlay, s + 1, hi);
    assert(content_before(file, overlay, s + 1) == content_before(file, overlay, s) + slot_bytes(
        file,
        overlay,
        s,
    ));
}

/// The position behind `first` is `second`: the next byte of the same run,
/// or the first byte of a later slot, with nothing but empty slots between.
pub open spec fn follows(
    file: Seq<u8>,
    overlay: Map<u64, Changes>,
    first: Addr,
    second: Addr,
) -> bool {
    ||| slot_of(first) == slot_of(second) && index_in_slot(second) == index_in_slot(first) + 1
    ||| {
        &&& slot_of(first) < slot_of(second)
        &&& index_in_slot(second) == 0
        &&& index_in_slot(first) + 1 == slot_bytes(file, overlay, slot_of(first)).len()
        &&& forall|s: int|
            slot_of(first) < s < slot_of(second) ==> (#[trigger] slot_bytes(file, overlay, s)).len()
                == 0
    }
}

/// Translation preserves order: the lower of two addresses has the lower
/// slot, or the lower index in the slot they share.
pub proof fn lemma_translation_preserves_order(
    file: Seq<u8>,
    overlay: Map<u64, Changes>,
    a: int,
    b: int,
    at_a: Addr,
    at_b: Addr,
)
    requires
        overlay_wf(file, overlay),
        locates(file, overlay, at_a, a),
        locates(file, overlay, at_b, b),
        a < b,
    ensures
        slot_of(at_a) < slot_of(at_b) || (slot_of(at_a) == slot_of(at_b) && index_in_slot(at_a)
            < index_in_slot(at_b)),
{
    if slot_of(at_b) < slot_of(at_a) {
        lemma_positions_ordered(file, overlay, at_b, at_a, b, a);
    }
}

/// Translation maps consecutive addresses to consecutive positions.
pub proof fn lemma_translation_consecutive(
    file: Seq<u8>,
    overlay: Map<u64, Changes>,
    a: int,
    at_a: Addr,
    at_next: Addr,
)
    requires
        overlay_wf(file, overlay),
        locates(file, overlay, at_a, a),
        locates(file, overlay, at_next, a + 1),
    ensures
        follows(file, overlay, at_a, at_next),
{
    let s1 = slot_of(at_a);
    let s2 = slot_of(at_next);
    lemma_translation_preserves_order(file, overlay, a, a + 1, at_a, at_next);
    lemma_locates_byte(file, overlay, at_a, a);
    lemma_locates_byte(file, overlay, at_next, a + 1);
    if s1 < s2 {
        lemma_content_before_grows(file, overlay, s1 + 1, s2);
        assert(content_before(file, overlay, s1 + 1) == content_before(file, overlay, s1)
            + slot_bytes(file, overlay, s1));
        assert forall|s: int| s1 < s < s2 implies (#[trigger] slot_bytes(file, overlay, s)).len()
            == 0 by {
            lemma_equal_offsets_empty(file, overlay, s1 + 1, s2, s);
        }
    }
}

/// The overlay `after` is `before` with the record of `slot` replaced by a
/// well-formed record that holds `bytes`.
pub open spec fn slot_set(
    before: Map<u64, Changes>,
    after: Map<u64, Changes>,
    slot: u64,
    bytes: Seq<u8>,
) -> bool {
    &&& differ_only_at(before, after, slot)
    &&& after.contains_key(slot)
    &&& after[slot].wf()
    &&& after[slot].bytes() == bytes
}

/// The slot that takes a byte put in at position `addr`: the slot of the
/// position or, where no slot number is left behind the last slot, the last
/// slot.
pub open spec fn receiving_slot(addr: Addr) -> u64 {
    if slot_of(addr) < u64::MAX {
        slot_of(addr) as u64
    } else {
        (u64::MAX - 1) as u64
    }
}

/// A file with no pending change shows its own bytes.
pub proof fn lemma_fresh_content(file: Seq<u8>)
    requires
        file.len() <= MAX_SIZE,
    ensures
        content(file, Map::<u64, Changes>::empty()) == file,
{
    let none = Map::<u64, Changes>::empty();
    lemma_untouched_stretch(file, none, 0, file.len() as int);
    lemma_empty_stretch(file, none, file.len() as int, slot_limit());
    assert(content(file, none) =~= file);
}

/// A file that holds the logical content of an edited file shows, once it
/// is opened again, the bytes that the edited file showed.
pub proof fn lemma_saved_file_reopens(file: Seq<u8>, overlay: Map<u64, Changes>, saved: Seq<u8>)
    requires
        saved == content(file, overlay),
        saved.len() <= MAX_SIZE,
    ensures
        content(saved, Map::<u64, Changes>::empty()) == content(file, overlay),
{
    lemma_fresh_content(saved);
}

/// From slot `slot` on, some slot holds the byte at address `a`.
proof fn lemma_byte_has_position(file: Seq<u8>, overlay: Map<u64, Changes>, a: int, slot: int)
    requires
        overlay_wf(file, overlay),
        0 <= slot <= slot_limit(),
        offset_of(file, overlay, slot) <= a < content(file, overlay).len(),
    ensures
        exists|p: Addr| locates(file, overlay, p, a),
    decreases slot_limit() - slot,
{
    if slot < slot_limit() {
        assert(content_before(file, overlay, slot + 1) == content_before(file, overlay, slot)
            + slot_bytes(file, overlay, slot));
        if a >= offset_of(file, overlay, slot + 1) {
            lemma_byte_has_position(file, overlay, a, slot + 1);
        } else if overlay.contains_key(slot as u64) {
            match overlay[slot as u64] {
                Changes::Insertion(run) => {
                    assert(run.len() == run@.len());
                },
                Changes::Deleted => {},
            }
            let p = Addr::InsertedAddress {
                run_key: slot as u64,
                offset_in_run: (a - offset_of(file, overlay, slot)) as u64,
            };
            assert(locates(file, overlay, p, a));
        } else {
            assert(locates(file, overlay, Addr::FileAddress(slot as u64), a));
        }
    }
}

/// From slot `slot` on, some slot is free, with a record in every slot
/// between.
proof fn lemma_end_has_position(file: Seq<u8>, overlay: Map<u64, Changes>, slot: u64)
    requires
        overlay_wf(file, overlay),
        file.len() <= slot,
        forall|s: u64| file.len() <= s < slot ==> #[trigger] overlay.contains_key(s),
    ensures
        exists|p: Addr| locates(file, overlay, p, content(file, overlay).len() as int),
    decreases u64::MAX - slot,
{
    if overlay.contains_key(slot) {
        lemma_end_has_position(file, overlay, (slot + 1) as u64);
    } else {
        lemma_end_slot(file, overlay, slot);
        assert(locates(
            file,
            overlay,
            Addr::FileAddress(slot),
            content(file, overlay).len() as int,
        ));
    }
}

/// Translation is total: every address of the content, and the address
/// behind its last byte, has a position.
pub proof fn lemma_position_exists(file: Seq<u8>, overlay: Map<u64, Changes>, a: int)
    requires
        overlay_wf(file, overlay),
        0 <= a <= content(file, overlay).len(),
    ensures
        exists|p: Addr| locates(file, overlay, p, a),
{
    if a < content(file, overlay).len() {
        lemma_byte_has_position(file, overlay, a, 0);
    } else {
        lemma_end_has_position(file, overlay, file.len() as u64);
    }
}

} // verus!
