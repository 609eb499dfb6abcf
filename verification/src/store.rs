//! The byte store: the backing bytes of a file and the overlay of pending
//! changes, read and edited through logical addresses.
use crate::overlay::{
    content, content_before, differ_only_at, index_in_slot, lemma_empty_stretch,
    lemma_locates_byte, lemma_locates_unique, lemma_prefix_unchanged, lemma_put_keeps_wf,
    lemma_slot_insert, lemma_slot_remove, lemma_slot_update, lemma_untouched_stretch, locates,
    offset_of, overlay_wf, receiving_slot, slot_bytes, slot_limit, slot_of, slot_set, Addr,
    Changes, MAX_SIZE,
};
use std::collections::btree_map::Iter;
use std::collections::BTreeMap;
use vstd::laws_cmp::obeys_cmp;
use vstd::prelude::*;
use vstd::std_specs::btree::{increasing_seq, spec_btree_map_iter};
use vstd::std_specs::cmp::OrdSpec;
use vstd::std_specs::iter::IteratorSpec;

verus! {

/// Editing mode: whether a write replaces a byte or shifts the bytes behind it.
#[derive(Clone, Copy, Debug, PartialEq, Eq, Structural)]
pub enum Mode {
    Overwrite,
    Insert,
}

/// Why the store refused an operation.
#[derive(Clone, Copy, Debug, PartialEq, Eq, Structural)]
pub enum StoreError {
    /// The address lies behind the last byte.
    NotFound,
    /// The store cannot hold another byte.
    Full,
}

/// What a walk over the overlay yields: every record once, in ascending key
/// order.
pub open spec fn ordered_entries(
    entries: Seq<(&u64, &Changes)>,
    overlay: Map<u64, Changes>,
) -> bool {
    &&& forall|i: int, j: int|
        0 <= i < j < entries.len() ==> *(#[trigger] entries[i]).0 < *(#[trigger] entries[j]).0
    &&& forall|i: int|
        0 <= i < entries.len() ==> overlay.contains_key(*(#[trigger] entries[i]).0)
            && overlay[*entries[i].0] == *entries[i].1
    &&& forall|k: u64| #[trigger]
        overlay.contains_key(k) ==> exists|i: int|
            0 <= i < entries.len() && *(#[trigger] entries[i]).0 == k
}

/// The iterator of a `BTreeMap` keyed by `u64` yields its records in
/// ascending key order.
proof fn lemma_iter_ordered(m: &BTreeMap<u64, Changes>, it: Iter<u64, Changes>)
    requires
        it == spec_btree_map_iter(m),
        increasing_seq(it.remaining().map_values(|kv: (&u64, &Changes)| *kv.0)),
    ensures
        ordered_entries(it.remaining(), m@),
{
    let entries = it.remaining();
    let keys = entries.map_values(|kv: (&u64, &Changes)| *kv.0);
    assert(obeys_cmp::<u64>());
    assert forall|i: int, j: int| 0 <= i < j < entries.len() implies *(#[trigger] entries[i]).0
        < *(#[trigger] entries[j]).0 by {
        assert(keys[i] == *entries[i].0);
        assert(keys[j] == *entries[j].0);
        assert(keys[i].cmp_spec(&keys[j]) is Less);
    }
    assert forall|k: u64| #[trigger] m@.contains_key(k) implies exists|i: int|
        0 <= i < entries.len() && *(#[trigger] entries[i]).0 == k by {
        assert(entries.contains((&k, &m@[k])));
    }
}

/// The slot behind the records already walked: every key found so far lies
/// below it.
pub open spec fn walked_base(entries: Seq<(&u64, &Changes)>, idx: int) -> int {
    if idx <= 0 {
        0
    } else {
        *entries[idx - 1].0 + 1
    }
}

/// Between the records already walked and the next one, no slot carries a
/// record, and all of them hold backing bytes.
proof fn lemma_walk_gap(
    file: Seq<u8>,
    overlay: Map<u64, Changes>,
    entries: Seq<(&u64, &Changes)>,
    idx: int,
)
    requires
        overlay_wf(file, overlay),
        ordered_entries(entries, overlay),
        0 <= idx <= entries.len(),
    ensures
        idx < entries.len() ==> walked_base(entries, idx) <= *entries[idx].0,
        idx < entries.len() && walked_base(entries, idx) < *entries[idx].0 ==> *entries[idx].0
            <= file.len(),
        forall|s: u64|
            walked_base(entries, idx) <= s && (idx < entries.len() ==> s < *entries[idx].0)
                ==> !#[trigger] overlay.contains_key(s),
        forall|s: u64| file.len() <= s < walked_base(entries, idx) ==> overlay.contains_key(s),
{
    assert forall|s: u64|
        walked_base(entries, idx) <= s && (idx < entries.len() ==> s < *entries[idx].0)
            && #[trigger] overlay.contains_key(s) implies false by {
        let j = choose|j: int| 0 <= j < entries.len() && *(#[trigger] entries[j]).0 == s;
        if j < idx {
            if j < idx - 1 {
                assert(*entries[j].0 < *entries[idx - 1].0);
            }
        } else if j > idx {
            assert(*entries[idx].0 < *entries[j].0);
        }
    }
    if idx < entries.len() {
        let k = *entries[idx].0;
        assert(overlay.contains_key(k));
        if idx > 0 {
            assert(*entries[idx - 1].0 < *entries[idx].0);
        }
        if walked_base(entries, idx) < k && k > file.len() {
            let s = (k - 1) as u64;
            assert(overlay.contains_key(k) && overlay.contains_key(s));
            assert(false);
        }
    }
    if idx > 0 {
        let k = *entries[idx - 1].0;
        assert(overlay.contains_key(k));
        assert forall|s: u64| file.len() <= s < walked_base(entries, idx) implies overlay.contains_key(
            s,
        ) by {
            if s < k {
                assert(overlay.contains_key(k) && overlay.contains_key(s));
            }
        }
    }
}

/// Appends the bytes `src[from..to]` to `out`.
fn append_range(out: &mut Vec<u8>, src: &Vec<u8>, from: usize, to: usize)
    requires
        from <= to <= src@.len(),
    ensures
        final(out)@ == old(out)@ + src@.subrange(from as int, to as int),
{
    let mut i: usize = from;
    while i < to
        invariant
            from <= i <= to <= src@.len(),
            out@ == old(out)@ + src@.subrange(from as int, i as int),
        decreases to - i,
    {
        out.push(src[i]);
        i = i + 1;
        assert(out@ =~= old(out)@ + src@.subrange(from as int, i as int));
    }
    assert(out@ =~= old(out)@ + src@.subrange(from as int, to as int));
}

/// A file after one byte has been written at `offset`: a write inside the
/// file replaces a byte, a write at its end extends it, and a write beyond
/// its end fills the gap with zeros.
pub open spec fn written_at(file: Seq<u8>, offset: int, value: u8) -> Seq<u8> {
    if 0 <= offset < file.len() {
        file.update(offset, value)
    } else {
        file + Seq::new((offset - file.len()) as nat, |i: int| 0u8) + seq![value]
    }
}

/// A file after the writes of `patches`, made in order.
pub open spec fn patched(file: Seq<u8>, patches: Seq<(u64, u8)>) -> Seq<u8>
    decreases patches.len(),
{
    if patches.len() == 0 {
        file
    } else {
        written_at(
            patched(file, patches.drop_last()),
            patches.last().0 as int,
            patches.last().1,
        )
    }
}

/// What has to reach the disk for the file to hold the logical content.
#[derive(Debug, PartialEq)]
pub enum SavePlan {
    /// Every change replaces one byte by one byte: write each at its offset.
    InPlace(Vec<(u64, u8)>),
    /// The size or the order of the bytes changed: replace the file by these.
    Rewrite(Vec<u8>),
}

impl SavePlan {
    /// The bytes of the file once the plan has been carried out on `file`.
    pub open spec fn applied_to(self, file: Seq<u8>) -> Seq<u8> {
        match self {
            SavePlan::InPlace(patches) => patched(file, patches@),
            SavePlan::Rewrite(bytes) => bytes@,
        }
    }
}

/// The patches name every record once, in ascending order of the slots, each
/// with the one byte it holds.
pub open spec fn patches_of(patches: Seq<(u64, u8)>, overlay: Map<u64, Changes>) -> bool {
    &&& patches.len() == overlay.len()
    &&& forall|i: int, j: int|
        0 <= i < j < patches.len() ==> (#[trigger] patches[i]).0 < (#[trigger] patches[j]).0
    &&& forall|i: int|
        0 <= i < patches.len() ==> overlay.contains_key((#[trigger] patches[i]).0)
            && overlay[patches[i].0].bytes() == seq![patches[i].1]
}

/// Every record replaces the byte of its slot by exactly one byte.
pub open spec fn only_overwrites(overlay: Map<u64, Changes>) -> bool {
    forall|k: u64| #[trigger] overlay.contains_key(k) ==> overlay[k].bytes().len() == 1
}

/// The records of the first `idx` entries of a walk.
pub open spec fn walked_records(
    overlay: Map<u64, Changes>,
    entries: Seq<(&u64, &Changes)>,
    idx: int,
) -> Map<u64, Changes> {
    overlay.restrict(Set::new(|k: u64| k < walked_base(entries, idx)))
}

/// Where every record replaces one byte by one byte, writing the byte of each
/// record at its slot's offset, in ascending order, yields the logical
/// content.
proof fn lemma_in_place(
    file: Seq<u8>,
    overlay: Map<u64, Changes>,
    entries: Seq<(&u64, &Changes)>,
    patches: Seq<(u64, u8)>,
    idx: int,
)
    requires
        overlay_wf(file, overlay),
        ordered_entries(entries, overlay),
        only_overwrites(overlay),
        0 <= idx <= entries.len() == patches.len(),
        forall|i: int|
            0 <= i < entries.len() ==> (#[trigger] patches[i]).0 == *entries[i].0 && patches[i].1
                == entries[i].1.bytes()[0],
    ensures
        overlay_wf(file, walked_records(overlay, entries, idx)),
        patched(file, patches.take(idx)) == content(
            file,
            walked_records(overlay, entries, idx),
        ),
        offset_of(file, walked_records(overlay, entries, idx), walked_base(entries, idx))
            == walked_base(entries, idx),
        content(file, walked_records(overlay, entries, idx)).len() == if walked_base(
            entries,
            idx,
        ) < file.len() {
            file.len() as int
        } else {
            walked_base(entries, idx)
        },
    decreases idx,
{
    let now = walked_records(overlay, entries, idx);
    let base = walked_base(entries, idx);
    if idx == 0 {
        assert(now =~= Map::<u64, Changes>::empty());
        lemma_untouched_stretch(file, now, 0, file.len() as int);
        lemma_empty_stretch(file, now, file.len() as int, slot_limit());
        assert(patches.take(0) =~= Seq::<(u64, u8)>::empty());
        assert(content(file, now) =~= file);
    } else {
        let prev = walked_records(overlay, entries, idx - 1);
        let prev_base = walked_base(entries, idx - 1);
        let key = *entries[idx - 1].0;
        let record = *entries[idx - 1].1;
        lemma_in_place(file, overlay, entries, patches, idx - 1);
        lemma_walk_gap(file, overlay, entries, idx - 1);
        assert(overlay.contains_key(key));
        assert(now =~= prev.insert(key, record));
        assert forall|s: u64| file.len() <= s < key implies #[trigger] prev.contains_key(s) by {
            assert(overlay.contains_key(key) && overlay.contains_key(s));
        }
        lemma_put_keeps_wf(file, prev, key, record);
        if prev_base < key {
            lemma_untouched_stretch(file, prev, prev_base, key as int);
        }
        assert(offset_of(file, prev, key as int) == key);
        assert(patches.take(idx).drop_last() =~= patches.take(idx - 1));
        assert(patches.take(idx).last() == patches[idx - 1]);
        let value = record.bytes()[0];
        assert(record.bytes() =~= seq![value]);
        if key < file.len() {
            assert(slot_bytes(file, now, key as int) =~= slot_bytes(file, prev, key as int).update(
                0,
                value,
            ));
            lemma_slot_update(file, prev, now, key, 0, value);
        } else {
            assert(slot_bytes(file, now, key as int) =~= slot_bytes(file, prev, key as int).insert(
                0,
                value,
            ));
            lemma_slot_insert(file, prev, now, key, 0, value);
            let before = content(file, prev);
            assert(before.insert(key as int, value) =~= written_at(before, key as int, value));
        }
        assert(content_before(file, now, key + 1) == content_before(file, now, key as int)
            + slot_bytes(file, now, key as int));
        lemma_prefix_unchanged(file, prev, now, key, key as int);
    }
}

/// A walk yields as many entries as the overlay has records.
proof fn lemma_entries_count(overlay: Map<u64, Changes>, entries: Seq<(&u64, &Changes)>)
    requires
        ordered_entries(entries, overlay),
        overlay.dom().finite(),
    ensures
        entries.len() == overlay.len(),
{
    let keys = entries.map_values(|e: (&u64, &Changes)| *e.0);
    assert forall|i: int, j: int| 0 <= i < keys.len() && 0 <= j < keys.len() && i != j implies keys[i]
        != keys[j] by {
        if i < j {
            assert(*entries[i].0 < *entries[j].0);
        } else {
            assert(*entries[j].0 < *entries[i].0);
        }
    }
    keys.unique_seq_to_set();
    assert(keys.to_set() =~= overlay.dom()) by {
        assert forall|k: u64| overlay.dom().contains(k) implies keys.to_set().contains(k) by {
            let i = choose|i: int| 0 <= i < entries.len() && *(#[trigger] entries[i]).0 == k;
            assert(keys[i] == k);
        }
        assert forall|k: u64| keys.to_set().contains(k) implies overlay.dom().contains(k) by {
            let i = choose|i: int| 0 <= i < keys.len() && keys[i] == k;
            assert(overlay.contains_key(*entries[i].0));
        }
    }
}

/// What a write of `value` at a position does to the records: the slot of
/// the position holds its bytes with `value` written over one of them or,
/// in `Insert` mode, put in among them. A byte appended to the content goes
/// behind the bytes of the slot that receives it.
pub open spec fn written_records(
    file: Seq<u8>,
    before: Map<u64, Changes>,
    after: Map<u64, Changes>,
    position: Addr,
    value: u8,
    mode: Mode,
    appended: bool,
) -> bool {
    let held = slot_bytes(file, before, slot_of(position));
    match mode {
        Mode::Overwrite => slot_set(
            before,
            after,
            slot_of(position) as u64,
            held.update(index_in_slot(position), value),
        ),
        Mode::Insert => if appended {
            slot_set(
                before,
                after,
                receiving_slot(position),
                slot_bytes(file, before, receiving_slot(position) as int).push(value),
            )
        } else {
            slot_set(
                before,
                after,
                slot_of(position) as u64,
                held.insert(index_in_slot(position), value),
            )
        },
    }
}

/// What the removal of the byte at a position does to the records: the slot
/// of the position holds its bytes without that byte, and a tombstone where
/// none is left.
pub open spec fn deleted_records(
    file: Seq<u8>,
    before: Map<u64, Changes>,
    after: Map<u64, Changes>,
    position: Addr,
) -> bool {
    slot_set(
        before,
        after,
        slot_of(position) as u64,
        slot_bytes(file, before, slot_of(position)).remove(index_in_slot(position)),
    )
}

/// The backing bytes of a file together with the pending changes to them.
pub struct ByteStore {
    original: Vec<u8>,
    overlay: BTreeMap<u64, Changes>,
    logical_size: u64,
}

impl View for ByteStore {
    type V = Seq<u8>;

    /// The bytes of the file as the editor presents them.
    open spec fn view(&self) -> Seq<u8> {
        content(self.file(), self.records())
    }
}

impl ByteStore {
    /// The bytes of the backing file.
    pub closed spec fn file(&self) -> Seq<u8> {
        self.original@
    }

    /// The pending changes, keyed by slot.
    pub closed spec fn records(&self) -> Map<u64, Changes> {
        self.overlay@
    }

    /// The size the store keeps count of.
    pub closed spec fn counted_size(&self) -> u64 {
        self.logical_size
    }

    /// The overlay is well formed, and the counted size is the length of the
    /// logical content and no larger than `MAX_SIZE`.
    pub open spec fn wf(&self) -> bool {
        &&& overlay_wf(self.file(), self.records())
        &&& self.records().dom().finite()
        &&& self.counted_size() == self@.len()
        &&& self@.len() <= MAX_SIZE
    }

    /// `addr` is the position of logical address `a`.
    pub open spec fn locates(&self, addr: Addr, a: int) -> bool {
        locates(self.file(), self.records(), addr, a)
    }

    /// The content has reached the largest size: no byte can be put in.
    pub open spec fn full(&self) -> bool {
        self@.len() >= MAX_SIZE
    }

    /// A store over the bytes of a file, with no pending change. A file
    /// larger than `MAX_SIZE` is refused.
    pub fn new(original: Vec<u8>) -> (r: Result<Self, StoreError>)
        ensures
            original@.len() > MAX_SIZE ==> r is Err && r->Err_0 == StoreError::Full,
            original@.len() <= MAX_SIZE ==> r is Ok && r->Ok_0.wf() && r->Ok_0.file()
                == original@ && r->Ok_0.records() == Map::<u64, Changes>::empty() && r->Ok_0@
                == original@,
    {
        if original.len() as u64 > MAX_SIZE {
            return Err(StoreError::Full);
        }
        let logical_size = original.len() as u64;
        let store = ByteStore { original, overlay: BTreeMap::new(), logical_size };
        proof {
            let file = store.original@;
            let ov = store.overlay@;
            lemma_untouched_stretch(file, ov, 0, file.len() as int);
            lemma_empty_stretch(file, ov, file.len() as int, slot_limit());
            assert(content(file, ov) =~= file);
        }
        Ok(store)
    }

    /// The number of bytes in the logical content.
    pub fn len(&self) -> (n: u64)
        requires
            self.wf(),
        ensures
            n == self@.len(),
    {
        self.logical_size
    }

    /// The number of bytes in the backing file.
    pub fn original_size(&self) -> (n: u64)
        ensures
            n == self.file().len(),
    {
        self.original.len() as u64
    }

    /// The bytes of the backing file.
    pub fn original_bytes(&self) -> (bytes: &Vec<u8>)
        ensures
            bytes@ == self.file(),
    {
        &self.original
    }

    /// Whether any change is pending.
    pub fn is_modified(&self) -> (b: bool)
        ensures
            b == !self.records().is_empty(),
    {
        !self.overlay.is_empty()
    }

    /// Reads a byte of the backing file, whatever the overlay holds.
    pub fn read_file_byte(&self, address: u64) -> (r: Result<u8, StoreError>)
        ensures
            address < self.file().len() ==> r == Ok::<u8, StoreError>(self.file()[address as int]),
            address >= self.file().len() ==> r == Err::<u8, StoreError>(StoreError::NotFound),
    {
        if address < self.original.len() as u64 {
            Ok(self.original[address as usize])
        } else {
            Err(StoreError::NotFound)
        }
    }

    /// Reads the byte at a logical address.
    pub fn read_byte(&self, address: u64) -> (r: Result<u8, StoreError>)
        requires
            self.wf(),
        ensures
            address < self@.len() ==> r == Ok::<u8, StoreError>(self@[address as int]),
            address >= self@.len() ==> r == Err::<u8, StoreError>(StoreError::NotFound),
    {
        if address >= self.logical_size {
            return Err(StoreError::NotFound);
        }
        let addr = self.get_real_address(address);
        proof {
            lemma_locates_byte(self.original@, self.overlay@, addr, address as int);
            assert(self.original.len() == self.original@.len());
        }
        match addr {
            Addr::FileAddress(f) => Ok(self.original[f as usize]),
            Addr::InsertedAddress { run_key, offset_in_run } => {
                match self.overlay.get(&run_key) {
                    Some(Changes::Insertion(run)) => {
                        assert(run.len() == run@.len());
                        Ok(run[offset_in_run as usize])
                    },
                    _ => unreached(),
                }
            },
        }
    }

    /// Puts `record` under `key`, in place of what was there.
    fn put(&mut self, key: u64, record: Changes)
        ensures
            final(self).original == old(self).original,
            final(self).logical_size == old(self).logical_size,
            final(self).overlay@ == old(self).overlay@.insert(key, record),
            differ_only_at(old(self).overlay@, final(self).overlay@, key),
            old(self).overlay@.dom().finite() ==> final(self).overlay@.dom().finite(),
    {
        self.overlay.insert(key, record);
    }

    /// Writes `value` at a logical address: over the byte found there, or in
    /// front of it.
    ///
    /// In `Overwrite` mode the address must hold a byte. In `Insert` mode an
    /// address at or behind the end appends.
    pub fn write_byte(&mut self, address: u64, value: u8, mode: Mode) -> (r: Result<(), StoreError>)
        requires
            old(self).wf(),
        ensures
            final(self).wf(),
            final(self).file() == old(self).file(),
            r is Err ==> final(self).records() == old(self).records(),
            mode == Mode::Overwrite ==> if address < old(self)@.len() {
                r is Ok && final(self)@ == old(self)@.update(address as int, value)
            } else {
                r == Err::<(), StoreError>(StoreError::NotFound)
            },
            mode == Mode::Insert ==> if old(self).full() {
                r == Err::<(), StoreError>(StoreError::Full)
            } else if address < old(self)@.len() {
                r is Ok && final(self)@ == old(self)@.insert(address as int, value)
            } else {
                r is Ok && final(self)@ == old(self)@.push(value)
            },
            r is Ok && address < old(self)@.len() ==> forall|p: Addr| #[trigger]
                old(self).locates(p, address as int) ==> written_records(
                    old(self).file(),
                    old(self).records(),
                    final(self).records(),
                    p,
                    value,
                    mode,
                    false,
                ),
            r is Ok && address >= old(self)@.len() ==> forall|p: Addr| #[trigger]
                old(self).locates(p, old(self)@.len() as int) ==> written_records(
                    old(self).file(),
                    old(self).records(),
                    final(self).records(),
                    p,
                    value,
                    mode,
                    true,
                ),
    {
        let ghost file = self.original@;
        let ghost before = self.overlay@;
        let ghost shown = self@;
        assert(self.original.len() == file.len());
        match mode {
            Mode::Overwrite => {
                if address >= self.logical_size {
                    return Err(StoreError::NotFound);
                }
                let addr = self.get_real_address(address);
                proof {
                    lemma_locates_byte(file, before, addr, address as int);
                }
                match addr {
                    Addr::FileAddress(f) => {
                        self.put(f, Changes::Insertion(vec![value]));
                        proof {
                            lemma_put_keeps_wf(file, before, f, self.overlay@[f]);
                            assert(slot_bytes(file, self.overlay@, f as int) =~= slot_bytes(
                                file,
                                before,
                                f as int,
                            ).update(0, value));
                            lemma_slot_update(file, before, self.overlay@, f, 0, value);
                        }
                    },
                    Addr::InsertedAddress { run_key, offset_in_run } => {
                        match self.overlay.remove(&run_key) {
                            Some(Changes::Insertion(mut run)) => {
                                assert(run.len() == run@.len());
                                run[offset_in_run as usize] = value;
                                self.put(run_key, Changes::Insertion(run));
                                proof {
                                    lemma_put_keeps_wf(
                                        file,
                                        before,
                                        run_key,
                                        Changes::Insertion(run),
                                    );
                                    assert(self.overlay@ =~= before.insert(
                                        run_key,
                                        Changes::Insertion(run),
                                    ));
                                    lemma_slot_update(
                                        file,
                                        before,
                                        self.overlay@,
                                        run_key,
                                        offset_in_run as int,
                                        value,
                                    );
                                }
                            },
                            _ => unreached(),
                        }
                    },
                }
                proof {
                    assert forall|p: Addr| #[trigger]
                        locates(file, before, p, address as int) implies slot_set(
                        before,
                        self.overlay@,
                        slot_of(p) as u64,
                        slot_bytes(file, before, slot_of(p)).update(index_in_slot(p), value),
                    ) by {
                        lemma_locates_unique(file, before, p, addr, address as int);
                    }
                }
                Ok(())
            },
            Mode::Insert => {
                if self.logical_size >= MAX_SIZE {
                    return Err(StoreError::Full);
                }
                let target = if address < self.logical_size {
                    address
                } else {
                    self.logical_size
                };
                let addr = self.get_real_address(target);
                proof {
                    lemma_locates_byte(file, before, addr, target as int);
                }
                match addr {
                    Addr::FileAddress(f) => {
                        if address >= self.logical_size {
                            if f < u64::MAX {
                                self.put(f, Changes::Insertion(vec![value]));
                                proof {
                                    lemma_put_keeps_wf(file, before, f, self.overlay@[f]);
                                    assert(slot_bytes(file, self.overlay@, f as int)
                                        =~= slot_bytes(file, before, f as int).insert(0, value));
                                    lemma_slot_insert(file, before, self.overlay@, f, 0, value);
                                    assert(shown.insert(shown.len() as int, value)
                                        =~= shown.push(value));
                                    assert(slot_bytes(file, before, f as int).insert(0, value)
                                        =~= slot_bytes(file, before, f as int).push(value));
                                    assert(slot_set(
                                        before,
                                        self.overlay@,
                                        f,
                                        slot_bytes(file, before, f as int).push(value),
                                    ));
                                }
                            } else {
                                let last: u64 = u64::MAX - 1;
                                let ghost held = slot_bytes(file, before, last as int);
                                assert(before.contains_key(last));
                                let record = match self.overlay.remove(&last) {
                                    Some(Changes::Insertion(mut run)) => {
                                        run.push(value);
                                        Changes::Insertion(run)
                                    },
                                    _ => Changes::Insertion(vec![value]),
                                };
                                self.put(last, record);
                                proof {
                                    assert(self.overlay@ =~= before.insert(last, record));
                                    lemma_put_keeps_wf(file, before, last, record);
                                    assert(record.bytes() =~= held.insert(
                                        held.len() as int,
                                        value,
                                    ));
                                    assert(content_before(file, before, f as int)
                                        == content_before(file, before, last as int) + held);
                                    lemma_slot_insert(
                                        file,
                                        before,
                                        self.overlay@,
                                        last,
                                        held.len() as int,
                                        value,
                                    );
                                    assert(shown.insert(shown.len() as int, value)
                                        =~= shown.push(value));
                                    assert(held.insert(held.len() as int, value) =~= held.push(
                                        value,
                                    ));
                                    assert(slot_set(before, self.overlay@, last, held.push(value)));
                                }
                            }
                        } else {
                            let kept = self.original[f as usize];
                            let mut run: Vec<u8> = Vec::new();
                            run.push(value);
                            run.push(kept);
                            self.put(f, Changes::Insertion(run));
                            proof {
                                lemma_put_keeps_wf(file, before, f, Changes::Insertion(run));
                                assert(slot_bytes(file, self.overlay@, f as int) =~= slot_bytes(
                                    file,
                                    before,
                                    f as int,
                                ).insert(0, value));
                                lemma_slot_insert(file, before, self.overlay@, f, 0, value);
                                assert(slot_set(
                                    before,
                                    self.overlay@,
                                    f,
                                    slot_bytes(file, before, f as int).insert(0, value),
                                ));
                            }
                        }
                    },
                    Addr::InsertedAddress { run_key, offset_in_run } => {
                        match self.overlay.remove(&run_key) {
                            Some(Changes::Insertion(mut run)) => {
                                assert(run.len() == run@.len());
                                run.insert(offset_in_run as usize, value);
                                self.put(run_key, Changes::Insertion(run));
                                proof {
                                    lemma_put_keeps_wf(
                                        file,
                                        before,
                                        run_key,
                                        Changes::Insertion(run),
                                    );
                                    assert(self.overlay@ =~= before.insert(
                                        run_key,
                                        Changes::Insertion(run),
                                    ));
                                    lemma_slot_insert(
                                        file,
                                        before,
                                        self.overlay@,
                                        run_key,
                                        offset_in_run as int,
                                        value,
                                    );
                                    assert(slot_set(
                                        before,
                                        self.overlay@,
                                        run_key,
                                        slot_bytes(file, before, run_key as int).insert(
                                            offset_in_run as int,
                                            value,
                                        ),
                                    ));
                                }
                            },
                            _ => unreached(),
                        }
                    },
                }
                proof {
                    assert forall|p: Addr| #[trigger]
                        locates(file, before, p, target as int) implies ({
                        let slot = if address < shown.len() {
                            slot_of(p) as u64
                        } else {
                            receiving_slot(p)
                        };
                        slot_set(
                            before,
                            self.overlay@,
                            slot,
                            if address < shown.len() {
                                slot_bytes(file, before, slot as int).insert(
                                    index_in_slot(p),
                                    value,
                                )
                            } else {
                                slot_bytes(file, before, slot as int).push(value)
                            },
                        )
                    }) by {
                        lemma_locates_unique(file, before, p, addr, target as int);
                    }
                }
                self.logical_size = self.logical_size + 1;
                Ok(())
            },
        }
    }

    /// Whether the content has reached the largest size.
    pub fn is_full(&self) -> (b: bool)
        requires
            self.wf(),
        ensures
            b == self.full(),
    {
        self.logical_size >= MAX_SIZE
    }

    /// The logical content, byte by byte: the backing bytes between the
    /// records, and the bytes of each run in place of the byte of its slot.
    pub fn to_bytes(&self) -> (bytes: Vec<u8>)
        requires
            self.wf(),
        ensures
            bytes@ == self@,
    {
        let mut out: Vec<u8> = Vec::new();
        let mut next: usize = 0;
        let ghost file = self.original@;
        let ghost ov = self.overlay@;
        let ghost mut base: int = 0;
        let size = self.original.len();
        let iter = self.overlay.iter();
        let ghost entries = iter.remaining();
        proof {
            lemma_iter_ordered(&self.overlay, iter);
        }
        for entry in it: iter
            invariant
                it.seq() == entries,
                file == self.original@,
                ov == self.overlay@,
                size == file.len(),
                ordered_entries(entries, ov),
                overlay_wf(file, ov),
                base == walked_base(entries, it.index()),
                next == if base < size {
                    base
                } else {
                    size as int
                },
                out@ == content_before(file, ov, base),
        {
            let key: u64 = *entry.0;
            proof {
                lemma_walk_gap(file, ov, entries, it.index());
                if base < key {
                    lemma_untouched_stretch(file, ov, base, key as int);
                }
            }
            if next < size && (next as u64) < key {
                append_range(&mut out, &self.original, next, key as usize);
            }
            match entry.1 {
                Changes::Deleted => {},
                Changes::Insertion(run) => {
                    append_range(&mut out, run, 0, run.len());
                    assert(run@.subrange(0, run@.len() as int) =~= run@);
                },
            }
            if key < size as u64 {
                next = key as usize + 1;
            } else {
                next = size;
            }
            proof {
                assert(content_before(file, ov, key + 1) == content_before(file, ov, key as int)
                    + slot_bytes(file, ov, key as int));
                base = key + 1;
            }
        }
        proof {
            lemma_walk_gap(file, ov, entries, entries.len() as int);
            if base < size {
                lemma_untouched_stretch(file, ov, base, size as int);
                lemma_empty_stretch(file, ov, size as int, slot_limit());
            } else {
                lemma_empty_stretch(file, ov, base, slot_limit());
            }
        }
        if next < size {
            append_range(&mut out, &self.original, next, size);
        }
        out
    }

    /// Works out what a save has to write: the changed bytes alone where
    /// every record replaces one byte by one byte, the whole content
    /// otherwise. Carried out on the backing file, the plan leaves the
    /// logical content on disk.
    pub fn save_plan(&self) -> (plan: SavePlan)
        requires
            self.wf(),
        ensures
            plan.applied_to(self.file()) == self@,
            plan is InPlace <==> only_overwrites(self.records()),
            plan matches SavePlan::InPlace(patches) ==> patches_of(patches@, self.records()),
    {
        let mut patches: Vec<(u64, u8)> = Vec::new();
        let ghost file = self.original@;
        let ghost ov = self.overlay@;
        let iter = self.overlay.iter();
        let ghost entries = iter.remaining();
        proof {
            lemma_iter_ordered(&self.overlay, iter);
        }
        for entry in it: iter
            invariant
                it.seq() == entries,
                file == self.original@,
                ov == self.overlay@,
                self.wf(),
                ordered_entries(entries, ov),
                patches@.len() == it.index(),
                forall|i: int|
                    0 <= i < it.index() ==> (#[trigger] patches@[i]).0 == *entries[i].0
                        && patches@[i].1 == entries[i].1.bytes()[0] && entries[i].1.bytes().len()
                        == 1,
        {
            let single = match entry.1 {
                Changes::Deleted => None,
                Changes::Insertion(run) => if run.len() == 1 {
                    Some(run[0])
                } else {
                    None
                },
            };
            match single {
                Some(value) => {
                    patches.push((*entry.0, value));
                },
                None => {
                    assert(ov.contains_key(*entry.0) && ov[*entry.0].bytes().len() != 1);
                    return SavePlan::Rewrite(self.to_bytes());
                },
            }
        }
        proof {
            assert forall|k: u64| #[trigger] ov.contains_key(k) implies ov[k].bytes().len()
                == 1 by {
                let i = choose|i: int| 0 <= i < entries.len() && *(#[trigger] entries[i]).0 == k;
                assert(patches@[i].0 == k);
            }
            lemma_in_place(file, ov, entries, patches@, entries.len() as int);
            lemma_walk_gap(file, ov, entries, entries.len() as int);
            assert(walked_records(ov, entries, entries.len() as int) =~= ov);
            assert(patches@.take(entries.len() as int) =~= patches@);
            lemma_entries_count(ov, entries);
            assert forall|i: int, j: int| 0 <= i < j < patches@.len() implies (
            #[trigger] patches@[i]).0 < (#[trigger] patches@[j]).0 by {
                assert(*entries[i].0 < *entries[j].0);
            }
            assert forall|i: int| 0 <= i < patches@.len() implies ov.contains_key(
                (#[trigger] patches@[i]).0,
            ) && ov[patches@[i].0].bytes() == seq![patches@[i].1] by {
                assert(ov.contains_key(*entries[i].0) && ov[*entries[i].0] == *entries[i].1);
                assert(entries[i].1.bytes() =~= seq![patches@[i].1]);
            }
        }
        SavePlan::InPlace(patches)
    }

    /// Takes the logical content for the backing file and drops the records:
    /// the state of the store once a save has reached the disk.
    pub fn mark_saved(&mut self)
        requires
            old(self).wf(),
        ensures
            final(self).wf(),
            final(self).file() == old(self)@,
            final(self).records() == Map::<u64, Changes>::empty(),
            final(self)@ == old(self)@,
    {
        let bytes = self.to_bytes();
        self.original = bytes;
        self.overlay.clear();
        proof {
            let file = self.original@;
            let ov = self.overlay@;
            assert(self.original.len() == file.len());
            lemma_untouched_stretch(file, ov, 0, file.len() as int);
            lemma_empty_stretch(file, ov, file.len() as int, slot_limit());
            assert(content(file, ov) =~= file);
        }
    }

    /// Removes the byte at a logical address.
    pub fn delete_byte(&mut self, address: u64) -> (r: Result<(), StoreError>)
        requires
            old(self).wf(),
        ensures
            final(self).wf(),
            final(self).file() == old(self).file(),
            if address < old(self)@.len() {
                r is Ok && final(self)@ == old(self)@.remove(address as int)
            } else {
                &&& r == Err::<(), StoreError>(StoreError::NotFound)
                &&& final(self).records() == old(self).records()
            },
            r is Ok ==> forall|p: Addr| #[trigger]
                old(self).locates(p, address as int) ==> deleted_records(
                    old(self).file(),
                    old(self).records(),
                    final(self).records(),
                    p,
                ),
    {
        let ghost file = self.original@;
        let ghost before = self.overlay@;
        let ghost shown = self@;
        assert(self.original.len() == file.len());
        if address >= self.logical_size {
            return Err(StoreError::NotFound);
        }
        let addr = self.get_real_address(address);
        proof {
            lemma_locates_byte(file, before, addr, address as int);
        }
        match addr {
            Addr::FileAddress(f) => {
                self.put(f, Changes::Deleted);
                proof {
                    lemma_put_keeps_wf(file, before, f, Changes::Deleted);
                    assert(slot_bytes(file, self.overlay@, f as int) =~= slot_bytes(
                        file,
                        before,
                        f as int,
                    ).remove(0));
                    lemma_slot_remove(file, before, self.overlay@, f, 0);
                }
            },
            Addr::InsertedAddress { run_key, offset_in_run } => {
                match self.overlay.remove(&run_key) {
                    Some(Changes::Insertion(mut run)) => {
                        assert(run.len() == run@.len());
                        run.remove(offset_in_run as usize);
                        let ghost rest = run@;
                        let record = if run.len() == 0 {
                            Changes::Deleted
                        } else {
                            Changes::Insertion(run)
                        };
                        self.put(run_key, record);
                        proof {
                            lemma_put_keeps_wf(file, before, run_key, record);
                            assert(self.overlay@ =~= before.insert(run_key, record));
                            assert(record.bytes() =~= rest);
                            lemma_slot_remove(
                                file,
                                before,
                                self.overlay@,
                                run_key,
                                offset_in_run as int,
                            );
                        }
                    },
                    _ => unreached(),
                }
            },
        }
        proof {
            assert forall|p: Addr| #[trigger]
                locates(file, before, p, address as int) implies slot_set(
                before,
                self.overlay@,
                slot_of(p) as u64,
                slot_bytes(file, before, slot_of(p)).remove(index_in_slot(p)),
            ) by {
                lemma_locates_unique(file, before, p, addr, address as int);
            }
        }
        self.logical_size = self.logical_size - 1;
        Ok(())
    }

    /// Walks the overlay in ascending key order and translates a logical
    /// address to the place where its byte is kept.
    ///
    /// The running address starts as `address`, drops by the surplus of each
    /// run passed and rises by one for each tombstone passed. It is kept in
    /// 128 bits: behind many tombstones it may leave the range of `u64`
    /// before the runs further on bring it back.
    pub fn get_real_address(&self, address: u64) -> (r: Addr)
        requires
            self.wf(),
            address <= self@.len(),
        ensures
            self.locates(r, address as int),
    {
        let mut running: u128 = address as u128;
        let ghost file = self.original@;
        let ghost ov = self.overlay@;
        let ghost mut base: int = 0;
        let iter = self.overlay.iter();
        let ghost entries = iter.remaining();
        proof {
            lemma_iter_ordered(&self.overlay, iter);
            assert(file.len() == self.original.len());
        }
        for entry in it: iter
            invariant
                it.seq() == entries,
                file == self.original@,
                ov == self.overlay@,
                ordered_entries(entries, ov),
                overlay_wf(file, ov),
                file.len() <= u64::MAX,
                base == walked_base(entries, it.index()),
                base <= running <= address + base,
                offset_of(file, ov, base) + (running - base) == address,
        {
            let key: u128 = *entry.0 as u128;
            proof {
                lemma_walk_gap(file, ov, entries, it.index());
                if base < key {
                    lemma_untouched_stretch(file, ov, base, key as int);
                }
            }
            if running < key {
                proof {
                    lemma_untouched_stretch(file, ov, base, running as int);
                }
                return Addr::FileAddress(running as u64);
            }
            match entry.1 {
                Changes::Deleted => {
                    running = running + 1;
                },
                Changes::Insertion(run) => {
                    let surplus: u128 = (run.len() - 1) as u128;
                    if running <= key + surplus {
                        return Addr::InsertedAddress {
                            run_key: *entry.0,
                            offset_in_run: (running - key) as u64,
                        };
                    }
                    running = running - surplus;
                },
            }
            proof {
                base = key + 1;
            }
        }
        proof {
            lemma_walk_gap(file, ov, entries, entries.len() as int);
            let end = if base < file.len() {
                file.len() as int
            } else {
                base
            };
            if base < file.len() {
                lemma_untouched_stretch(file, ov, base, end);
            }
            lemma_empty_stretch(file, ov, end, slot_limit());
            if running <= file.len() {
                lemma_untouched_stretch(file, ov, base, running as int);
            }
        }
        Addr::FileAddress(running as u64)
    }
}

} // verus!
