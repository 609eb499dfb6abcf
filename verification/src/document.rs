//! A file under edit: the byte store together with the history of the edits
//! made to it. Every edit goes through the history, so that the undo stack
//! always leads from the content back to the bytes of the backing file.
use crate::history::{
    applies, kept_for_redo, lemma_record_then_undo, reapplies, recorded, redone, replayable,
    rewound, undone, HistoryEntry, Kind,
};
use crate::overlay::{
    content, index_in_slot, lemma_locates_byte, lemma_position_exists, lemma_prefix_unchanged,
    locates, overlay_wf, slot_bytes, slot_limit, slot_of, Addr, Changes, MAX_SIZE,
};
use crate::store::{
    deleted_records, only_overwrites, patches_of, written_records, ByteStore, Mode, SavePlan,
    StoreError,
};
use vstd::prelude::*;

verus! {

/// What an edit does to the records: the slot at the position of its address
/// takes the byte written or put in, or gives up the byte taken out.
pub open spec fn records_edited(
    file: Seq<u8>,
    before: Map<u64, Changes>,
    after: Map<u64, Changes>,
    size: int,
    edit: HistoryEntry,
) -> bool {
    forall|p: Addr| #[trigger]
        locates(file, before, p, edit.1 as int) ==> match edit.0 {
            Kind::Modification => written_records(
                file,
                before,
                after,
                p,
                edit.2->0,
                Mode::Overwrite,
                false,
            ),
            Kind::Insertion => written_records(
                file,
                before,
                after,
                p,
                edit.2->0,
                Mode::Insert,
                edit.1 >= size,
            ),
            Kind::Deletion => deleted_records(file, before, after, p),
        }
}

/// The edit that takes back the edit recorded in `entry`.
pub open spec fn reversal(entry: HistoryEntry) -> HistoryEntry {
    match entry.0 {
        Kind::Modification => entry,
        Kind::Insertion => (Kind::Deletion, entry.1, None),
        Kind::Deletion => (Kind::Insertion, entry.1, entry.2),
    }
}

/// A modification that is taken back and made again leaves every slot with
/// the bytes it held: the records `first` become `second` when the byte at
/// address `a` is given the value `prior`, and `third` when it is given back
/// the value it had.
pub proof fn lemma_modification_round_trip(
    file: Seq<u8>,
    first: Map<u64, Changes>,
    second: Map<u64, Changes>,
    third: Map<u64, Changes>,
    a: u64,
    prior: u8,
)
    requires
        overlay_wf(file, first),
        a < content(file, first).len(),
        records_edited(
            file,
            first,
            second,
            content(file, first).len() as int,
            (Kind::Modification, a, Some(prior)),
        ),
        records_edited(
            file,
            second,
            third,
            content(file, first).len() as int,
            (Kind::Modification, a, Some(content(file, first)[a as int])),
        ),
    ensures
        forall|s: int| 0 <= s < slot_limit() ==> #[trigger] slot_bytes(file, third, s) == slot_bytes(
            file,
            first,
            s,
        ),
{
    lemma_position_exists(file, first, a as int);
    let p = choose|p: Addr| locates(file, first, p, a as int);
    lemma_locates_byte(file, first, p, a as int);
    let slot = slot_of(p) as u64;
    let index = index_in_slot(p);
    let held = slot_bytes(file, first, slot as int);
    let back = Addr::InsertedAddress { run_key: slot, offset_in_run: index as u64 };
    let undo: HistoryEntry = (Kind::Modification, a, Some(prior));
    let redo: HistoryEntry = (Kind::Modification, a, Some(content(file, first)[a as int]));
    assert(locates(file, first, p, undo.1 as int));
    assert(written_records(file, first, second, p, prior, Mode::Overwrite, false));
    lemma_prefix_unchanged(file, first, second, slot, slot as int);
    assert(held.update(index, prior).len() == held.len());
    assert(locates(file, second, back, redo.1 as int));
    assert(written_records(file, second, third, back, held[index], Mode::Overwrite, false));
    assert(held.update(index, prior).update(index, held[index]) =~= held);
    assert forall|s: int| 0 <= s < slot_limit() implies #[trigger] slot_bytes(file, third, s)
        == slot_bytes(file, first, s) by {
        if s != slot {
            assert(first.contains_key(s as u64) <==> second.contains_key(s as u64));
            assert(second.contains_key(s as u64) <==> third.contains_key(s as u64));
        }
    }
}

/// A byte store and the two stacks of its history.
pub struct Document {
    store: ByteStore,
    history: Vec<HistoryEntry>,
    history_redo: Vec<HistoryEntry>,
}

impl View for Document {
    type V = Seq<u8>;

    /// The logical content.
    closed spec fn view(&self) -> Seq<u8> {
        self.store@
    }
}

impl Document {
    /// The bytes of the backing file.
    pub closed spec fn file(&self) -> Seq<u8> {
        self.store.file()
    }

    /// The pending changes, keyed by slot.
    pub closed spec fn records(&self) -> Map<u64, Changes> {
        self.store.records()
    }

    /// The edits that can be taken back, the last one on top.
    pub closed spec fn undo_stack(&self) -> Seq<HistoryEntry> {
        self.history@
    }

    /// The edits that were taken back, the last one on top.
    pub closed spec fn redo_stack(&self) -> Seq<HistoryEntry> {
        self.history_redo@
    }

    /// The byte store is well formed.
    pub closed spec fn store_wf(&self) -> bool {
        self.store.wf()
    }

    /// The store is well formed, and the undo stack leads from the content
    /// back to the backing file: every edit on it can be taken back, and
    /// taking all of them back leaves the bytes of the file.
    pub open spec fn wf(&self) -> bool {
        &&& self.store_wf()
        &&& self@.len() <= MAX_SIZE
        &&& replayable(self@, self.undo_stack())
        &&& rewound(self@, self.undo_stack()) == self.file()
    }

    /// A document over the bytes of a file, with no change made yet. A file
    /// larger than `MAX_SIZE` is refused.
    pub fn new(bytes: Vec<u8>) -> (r: Result<Document, StoreError>)
        ensures
            bytes@.len() > MAX_SIZE ==> r is Err && r->Err_0 == StoreError::Full,
            bytes@.len() <= MAX_SIZE ==> r is Ok && r->Ok_0.wf() && r->Ok_0@ == bytes@
                && r->Ok_0.file() == bytes@ && r->Ok_0.records() == Map::<u64, Changes>::empty()
                && r->Ok_0.undo_stack().len() == 0 && r->Ok_0.redo_stack().len() == 0,
    {
        match ByteStore::new(bytes) {
            Ok(store) => Ok(Document { store, history: Vec::new(), history_redo: Vec::new() }),
            Err(e) => Err(e),
        }
    }

    /// The number of bytes in the logical content.
    pub fn len(&self) -> (n: u64)
        requires
            self.wf(),
        ensures
            n == self@.len(),
            n <= MAX_SIZE,
    {
        self.store.len()
    }

    /// Whether any change is pending.
    pub fn is_modified(&self) -> (b: bool)
        ensures
            b == !self.records().is_empty(),
    {
        self.store.is_modified()
    }

    /// The bytes of the backing file.
    pub fn file_bytes(&self) -> (bytes: &Vec<u8>)
        ensures
            bytes@ == self.file(),
    {
        self.store.original_bytes()
    }

    /// Reads the byte at a logical address.
    pub fn read_byte(&self, address: u64) -> (r: Result<u8, StoreError>)
        requires
            self.wf(),
        ensures
            address < self@.len() ==> r == Ok::<u8, StoreError>(self@[address as int]),
            address >= self@.len() ==> r == Err::<u8, StoreError>(StoreError::NotFound),
    {
        self.store.read_byte(address)
    }

    /// Reads a byte of the backing file, whatever changes are pending.
    pub fn read_file_byte(&self, address: u64) -> (r: Result<u8, StoreError>)
        ensures
            address < self.file().len() ==> r == Ok::<u8, StoreError>(self.file()[address as int]),
            address >= self.file().len() ==> r == Err::<u8, StoreError>(StoreError::NotFound),
    {
        self.store.read_file_byte(address)
    }

    /// The last edit that can be taken back.
    pub fn last_edit(&self) -> (r: Option<HistoryEntry>)
        ensures
            self.undo_stack().len() == 0 ==> r is None,
            self.undo_stack().len() > 0 ==> r == Some(self.undo_stack().last()),
    {
        if self.history.len() == 0 {
            None
        } else {
            Some(self.history[self.history.len() - 1])
        }
    }

    /// The number of edits that can be taken back.
    pub fn undo_depth(&self) -> (n: usize)
        ensures
            n == self.undo_stack().len(),
    {
        self.history.len()
    }

    /// Makes an edit, where it can be made, and records it on the undo stack.
    fn perform(&mut self, edit: HistoryEntry) -> (done: bool)
        requires
            old(self).wf(),
        ensures
            final(self).wf(),
            final(self).file() == old(self).file(),
            final(self).redo_stack() == old(self).redo_stack(),
            done == reapplies(old(self)@, edit),
            final(self)@ == redone(old(self)@, edit),
            done ==> final(self).undo_stack() == old(self).undo_stack().push(
                recorded(old(self)@, edit),
            ),
            done ==> records_edited(
                old(self).file(),
                old(self).records(),
                final(self).records(),
                old(self)@.len() as int,
                edit,
            ),
            !done ==> final(self).undo_stack() == old(self).undo_stack() && final(self).records()
                == old(self).records(),
    {
        let ghost store = self.store;
        let (kind, address, value) = edit;
        let size = self.store.len();
        let ghost before = self@;
        let ghost stack = self.history@;
        let done = match kind {
            Kind::Modification => match value {
                Some(byte) => if address < size {
                    let prior = match self.store.read_byte(address) {
                        Ok(prior) => prior,
                        Err(_) => unreached(),
                    };
                    let _ = self.store.write_byte(address, byte, Mode::Overwrite);
                    self.history.push((Kind::Modification, address, Some(prior)));
                    true
                } else {
                    false
                },
                None => false,
            },
            Kind::Insertion => match value {
                Some(byte) => if address <= size && size < MAX_SIZE {
                    let _ = self.store.write_byte(address, byte, Mode::Insert);
                    self.history.push((Kind::Insertion, address, None));
                    proof {
                        assert(before.insert(before.len() as int, byte) =~= before.push(byte));
                    }
                    true
                } else {
                    false
                },
                None => false,
            },
            Kind::Deletion => if address < size {
                let prior = match self.store.read_byte(address) {
                    Ok(prior) => prior,
                    Err(_) => unreached(),
                };
                let _ = self.store.delete_byte(address);
                self.history.push((Kind::Deletion, address, Some(prior)));
                true
            } else {
                false
            },
        };
        proof {
            if done {
                lemma_record_then_undo(before, edit);
                assert(self.history@.last() == recorded(before, edit));
                assert(self.history@.drop_last() =~= stack);
                assert forall|p: Addr| #[trigger]
                    locates(store.file(), store.records(), p, edit.1 as int) implies match edit.0 {
                    Kind::Modification => written_records(
                        store.file(),
                        store.records(),
                        self.store.records(),
                        p,
                        edit.2->0,
                        Mode::Overwrite,
                        false,
                    ),
                    Kind::Insertion => written_records(
                        store.file(),
                        store.records(),
                        self.store.records(),
                        p,
                        edit.2->0,
                        Mode::Insert,
                        edit.1 >= before.len(),
                    ),
                    Kind::Deletion => deleted_records(
                        store.file(),
                        store.records(),
                        self.store.records(),
                        p,
                    ),
                } by {
                    assert(store.locates(p, edit.1 as int));
                }
            }
        }
        done
    }

    /// Makes an edit, where it can be made, records it on the undo stack and
    /// empties the redo stack. The edit names its kind, its address and, but
    /// for a deletion, the value it gives the address.
    pub fn edit(&mut self, edit: HistoryEntry) -> (done: bool)
        requires
            old(self).wf(),
        ensures
            final(self).wf(),
            final(self).file() == old(self).file(),
            done == reapplies(old(self)@, edit),
            final(self)@ == redone(old(self)@, edit),
            done ==> final(self).undo_stack() == old(self).undo_stack().push(
                recorded(old(self)@, edit),
            ) && final(self).redo_stack().len() == 0 && records_edited(
                old(self).file(),
                old(self).records(),
                final(self).records(),
                old(self)@.len() as int,
                edit,
            ),
            !done ==> ({
                &&& final(self).undo_stack() == old(self).undo_stack()
                &&& final(self).redo_stack() == old(self).redo_stack()
                &&& final(self).records() == old(self).records()
            }),
    {
        let done = self.perform(edit);
        if done {
            self.history_redo = Vec::new();
        }
        done
    }

    /// Takes back the last edit and keeps it for a redo. Returns the edit
    /// taken back and the edit kept, or nothing where the undo stack is
    /// empty.
    pub fn undo(&mut self) -> (r: Option<(HistoryEntry, HistoryEntry)>)
        requires
            old(self).wf(),
        ensures
            final(self).wf(),
            final(self).file() == old(self).file(),
            old(self).undo_stack().len() == 0 ==> ({
                &&& r is None
                &&& final(self)@ == old(self)@
                &&& final(self).undo_stack() == old(self).undo_stack()
                &&& final(self).redo_stack() == old(self).redo_stack()
                &&& final(self).records() == old(self).records()
            }),
            old(self).undo_stack().len() > 0 ==> ({
                let entry = old(self).undo_stack().last();
                &&& applies(old(self)@, entry)
                &&& r == Some((entry, kept_for_redo(old(self)@, entry)))
                &&& final(self)@ == undone(old(self)@, entry)
                &&& final(self).undo_stack() == old(self).undo_stack().drop_last()
                &&& final(self).redo_stack() == old(self).redo_stack().push(
                    kept_for_redo(old(self)@, entry),
                )
                &&& records_edited(
                    old(self).file(),
                    old(self).records(),
                    final(self).records(),
                    old(self)@.len() as int,
                    reversal(entry),
                )
            }),
    {
        let ghost before = self@;
        let ghost store = self.store;
        let entry = match self.history.pop() {
            None => {
                return None;
            },
            Some(entry) => entry,
        };
        let (kind, address, prior) = entry;
        let kept = match kind {
            Kind::Modification => {
                let current = match self.store.read_byte(address) {
                    Ok(current) => current,
                    Err(_) => unreached(),
                };
                let value = match prior {
                    Some(value) => value,
                    None => unreached(),
                };
                let _ = self.store.write_byte(address, value, Mode::Overwrite);
                (Kind::Modification, address, Some(current))
            },
            Kind::Insertion => {
                let current = match self.store.read_byte(address) {
                    Ok(current) => current,
                    Err(_) => unreached(),
                };
                let _ = self.store.delete_byte(address);
                (Kind::Insertion, address, Some(current))
            },
            Kind::Deletion => {
                let value = match prior {
                    Some(value) => value,
                    None => unreached(),
                };
                let _ = self.store.write_byte(address, value, Mode::Insert);
                proof {
                    assert(before.insert(before.len() as int, value) =~= before.push(value));
                }
                entry
            },
        };
        self.history_redo.push(kept);
        proof {
            let back = reversal(entry);
            assert forall|p: Addr| #[trigger]
                locates(store.file(), store.records(), p, back.1 as int) implies match back.0 {
                Kind::Modification => written_records(
                    store.file(),
                    store.records(),
                    self.store.records(),
                    p,
                    back.2->0,
                    Mode::Overwrite,
                    false,
                ),
                Kind::Insertion => written_records(
                    store.file(),
                    store.records(),
                    self.store.records(),
                    p,
                    back.2->0,
                    Mode::Insert,
                    back.1 >= before.len(),
                ),
                Kind::Deletion => deleted_records(
                    store.file(),
                    store.records(),
                    self.store.records(),
                    p,
                ),
            } by {
                assert(store.locates(p, back.1 as int));
            }
        }
        Some((entry, kept))
    }

    /// Makes the edit taken back last again, where it can still be made, and
    /// records it anew. Returns the edit and whether it was made, or nothing
    /// where the redo stack is empty.
    pub fn redo(&mut self) -> (r: Option<(HistoryEntry, bool)>)
        requires
            old(self).wf(),
        ensures
            final(self).wf(),
            final(self).file() == old(self).file(),
            old(self).redo_stack().len() == 0 ==> ({
                &&& r is None
                &&& final(self)@ == old(self)@
                &&& final(self).undo_stack() == old(self).undo_stack()
                &&& final(self).redo_stack() == old(self).redo_stack()
                &&& final(self).records() == old(self).records()
            }),
            old(self).redo_stack().len() > 0 ==> ({
                let entry = old(self).redo_stack().last();
                &&& r == Some((entry, reapplies(old(self)@, entry)))
                &&& final(self)@ == redone(old(self)@, entry)
                &&& final(self).redo_stack() == old(self).redo_stack().drop_last()
                &&& final(self).undo_stack() == if reapplies(old(self)@, entry) {
                    old(self).undo_stack().push(recorded(old(self)@, entry))
                } else {
                    old(self).undo_stack()
                }
                &&& if reapplies(old(self)@, entry) {
                    records_edited(
                        old(self).file(),
                        old(self).records(),
                        final(self).records(),
                        old(self)@.len() as int,
                        entry,
                    )
                } else {
                    final(self).records() == old(self).records()
                }
            }),
    {
        let entry = match self.history_redo.pop() {
            None => {
                return None;
            },
            Some(entry) => entry,
        };
        let done = self.perform(entry);
        Some((entry, done))
    }

    /// Works out what a save has to write: the changed bytes alone where
    /// every pending change replaces one byte by one byte, the whole content
    /// otherwise. Carried out on the backing file, the plan leaves the
    /// logical content on disk.
    pub fn save_plan(&self) -> (plan: SavePlan)
        requires
            self.wf(),
        ensures
            plan.applied_to(self.file()) == self@,
            plan is InPlace <==> only_overwrites(self.records()),
            plan matches SavePlan::InPlace(patches) ==> patches_of(patches@, self.records()),
    {
        self.store.save_plan()
    }

    /// Takes the logical content for the backing file and forgets the
    /// pending changes and the history: the state of the document once a
    /// save has reached the disk.
    pub fn mark_saved(&mut self)
        requires
            old(self).wf(),
        ensures
            final(self).wf(),
            final(self).file() == old(self)@,
            final(self)@ == old(self)@,
            final(self).records() == Map::<u64, Changes>::empty(),
            final(self).undo_stack().len() == 0,
            final(self).redo_stack().len() == 0,
    {
        self.store.mark_saved();
        self.history = Vec::new();
        self.history_redo = Vec::new();
    }
}

} // verus!
