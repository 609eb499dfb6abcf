use hextazy::overlay::Addr;
use hextazy::store::{ByteStore, Mode, SavePlan, StoreError};

fn open(bytes: &[u8]) -> ByteStore {
    ByteStore::new(bytes.to_vec()).unwrap()
}

fn carry_out(plan: &SavePlan, file: &[u8]) -> Vec<u8> {
    match plan {
        SavePlan::InPlace(patches) => {
            let mut disk = file.to_vec();
            for (offset, value) in patches {
                let offset = *offset as usize;
                if offset < disk.len() {
                    disk[offset] = *value;
                } else {
                    disk.resize(offset, 0);
                    disk.push(*value);
                }
            }
            disk
        }
        SavePlan::Rewrite(bytes) => bytes.clone(),
    }
}

#[test]
fn a_fresh_store_shows_the_file() {
    let store = open(&[0xDE, 0xAD, 0xBE, 0xEF]);
    assert_eq!(store.len(), 4);
    assert_eq!(store.original_size(), 4);
    assert!(!store.is_modified());
    assert_eq!(store.to_bytes(), vec![0xDE, 0xAD, 0xBE, 0xEF]);
    assert_eq!(store.read_byte(0), Ok(0xDE));
    assert_eq!(store.read_byte(3), Ok(0xEF));
    assert_eq!(store.read_byte(4), Err(StoreError::NotFound));
    assert_eq!(store.read_file_byte(4), Err(StoreError::NotFound));
}

#[test]
fn overwrite_keeps_the_size_and_saves_in_place() {
    let mut store = open(&[0xDE, 0xAD, 0xBE, 0xEF]);
    assert_eq!(store.write_byte(0, 0xCE, Mode::Overwrite), Ok(()));
    assert_eq!(store.len(), 4);
    assert_eq!(store.read_byte(0), Ok(0xCE));
    assert_eq!(store.read_file_byte(0), Ok(0xDE));
    let plan = store.save_plan();
    match &plan {
        SavePlan::InPlace(patches) => assert_eq!(patches, &vec![(0u64, 0xCEu8)]),
        SavePlan::Rewrite(_) => panic!("an overwrite alone is saved in place"),
    }
    assert_eq!(carry_out(&plan, &[0xDE, 0xAD, 0xBE, 0xEF]), vec![0xCE, 0xAD, 0xBE, 0xEF]);
}

#[test]
fn overwrite_behind_the_end_is_refused() {
    let mut store = open(&[1, 2, 3]);
    assert_eq!(store.write_byte(3, 9, Mode::Overwrite), Err(StoreError::NotFound));
    assert_eq!(store.to_bytes(), vec![1, 2, 3]);
    assert!(!store.is_modified());
}

#[test]
fn insert_shifts_the_bytes_behind() {
    let mut store = open(&[0xDE, 0xAD, 0xBE, 0xEF]);
    assert_eq!(store.write_byte(2, 0xFF, Mode::Insert), Ok(()));
    assert_eq!(store.read_byte(2), Ok(0xFF));
    assert_eq!(store.read_byte(3), Ok(0xBE));
    assert_eq!(store.len(), 5);
    assert_eq!(store.to_bytes(), vec![0xDE, 0xAD, 0xFF, 0xBE, 0xEF]);
    assert_eq!(store.read_byte(5), Err(StoreError::NotFound));
    let plan = store.save_plan();
    match &plan {
        SavePlan::Rewrite(bytes) => assert_eq!(bytes, &vec![0xDE, 0xAD, 0xFF, 0xBE, 0xEF]),
        SavePlan::InPlace(_) => panic!("an insertion is saved by a rewrite"),
    }
}

#[test]
fn insert_at_the_end_appends() {
    let mut store = open(&[1, 2]);
    assert_eq!(store.write_byte(2, 3, Mode::Insert), Ok(()));
    assert_eq!(store.write_byte(9, 4, Mode::Insert), Ok(()));
    assert_eq!(store.to_bytes(), vec![1, 2, 3, 4]);
    assert_eq!(store.write_byte(2, 7, Mode::Insert), Ok(()));
    assert_eq!(store.to_bytes(), vec![1, 2, 7, 3, 4]);
}

#[test]
fn insert_into_an_empty_file() {
    let mut store = open(&[]);
    assert_eq!(store.len(), 0);
    assert_eq!(store.write_byte(0, 0xAA, Mode::Insert), Ok(()));
    assert_eq!(store.write_byte(0, 0xBB, Mode::Insert), Ok(()));
    assert_eq!(store.to_bytes(), vec![0xBB, 0xAA]);
}

#[test]
fn delete_leaves_a_tombstone_that_reads_skip() {
    let mut store = open(&[0xDE, 0xAD, 0xBE, 0xEF]);
    assert_eq!(store.delete_byte(1), Ok(()));
    assert_eq!(store.len(), 3);
    assert_eq!(store.read_byte(1), Ok(0xBE));
    assert_eq!(store.get_real_address(1), Addr::FileAddress(2));
    assert_eq!(store.to_bytes(), vec![0xDE, 0xBE, 0xEF]);
    assert_eq!(store.delete_byte(3), Err(StoreError::NotFound));
}

#[test]
fn delete_in_an_empty_content_is_refused() {
    let mut store = open(&[]);
    assert_eq!(store.delete_byte(0), Err(StoreError::NotFound));
    let mut one = open(&[5]);
    assert_eq!(one.delete_byte(0), Ok(()));
    assert_eq!(one.delete_byte(0), Err(StoreError::NotFound));
    assert_eq!(one.len(), 0);
}

#[test]
fn a_run_that_loses_its_last_byte_becomes_a_tombstone() {
    let mut store = open(&[1, 2, 3]);
    assert_eq!(store.write_byte(1, 9, Mode::Overwrite), Ok(()));
    assert_eq!(store.get_real_address(1), Addr::InsertedAddress { run_key: 1, offset_in_run: 0 });
    assert_eq!(store.delete_byte(1), Ok(()));
    assert_eq!(store.to_bytes(), vec![1, 3]);
    assert_eq!(store.get_real_address(1), Addr::FileAddress(2));
    assert_eq!(store.write_byte(1, 7, Mode::Insert), Ok(()));
    assert_eq!(store.to_bytes(), vec![1, 7, 3]);
}

#[test]
fn translation_walks_runs_and_tombstones() {
    let mut store = open(&[10, 11, 12, 13, 14, 15]);
    assert_eq!(store.write_byte(1, 0xA0, Mode::Insert), Ok(()));
    assert_eq!(store.write_byte(2, 0xA1, Mode::Insert), Ok(()));
    assert_eq!(store.delete_byte(5), Ok(()));
    assert_eq!(store.to_bytes(), vec![10, 0xA0, 0xA1, 11, 12, 14, 15]);
    assert_eq!(store.get_real_address(0), Addr::FileAddress(0));
    assert_eq!(store.get_real_address(1), Addr::InsertedAddress { run_key: 1, offset_in_run: 0 });
    assert_eq!(store.get_real_address(2), Addr::InsertedAddress { run_key: 1, offset_in_run: 1 });
    assert_eq!(store.get_real_address(3), Addr::InsertedAddress { run_key: 1, offset_in_run: 2 });
    assert_eq!(store.get_real_address(4), Addr::FileAddress(2));
    assert_eq!(store.get_real_address(5), Addr::FileAddress(4));
    assert_eq!(store.get_real_address(6), Addr::FileAddress(5));
    assert_eq!(store.get_real_address(7), Addr::FileAddress(6));
}

#[test]
fn translation_preserves_the_order_of_addresses() {
    let mut store = open(&[0, 1, 2, 3, 4, 5, 6, 7]);
    store.write_byte(3, 0x30, Mode::Insert).unwrap();
    store.write_byte(3, 0x31, Mode::Insert).unwrap();
    store.delete_byte(0).unwrap();
    store.delete_byte(6).unwrap();
    store.write_byte(8, 0x80, Mode::Insert).unwrap();
    let place = |addr: Addr| match addr {
        Addr::FileAddress(f) => (f, 0),
        Addr::InsertedAddress { run_key, offset_in_run } => (run_key, offset_in_run),
    };
    let content = store.to_bytes();
    for address in 0..store.len() {
        assert_eq!(store.read_byte(address), Ok(content[address as usize]));
        if address + 1 < store.len() {
            assert!(
                place(store.get_real_address(address)) < place(store.get_real_address(address + 1))
            );
        }
    }
}

#[test]
fn appended_single_bytes_are_saved_in_place() {
    let mut store = open(&[1, 2]);
    store.write_byte(2, 3, Mode::Insert).unwrap();
    store.write_byte(3, 4, Mode::Insert).unwrap();
    store.write_byte(0, 9, Mode::Overwrite).unwrap();
    let plan = store.save_plan();
    match &plan {
        SavePlan::InPlace(patches) => assert_eq!(patches, &vec![(0u64, 9u8), (2, 3), (3, 4)]),
        SavePlan::Rewrite(_) => panic!("single bytes are saved in place"),
    }
    assert_eq!(carry_out(&plan, &[1, 2]), vec![9, 2, 3, 4]);
    assert_eq!(store.to_bytes(), vec![9, 2, 3, 4]);
}

#[test]
fn a_save_and_a_reopening_show_the_same_bytes() {
    let file = vec![0x10, 0x20, 0x30, 0x40, 0x50, 0x60, 0x70, 0x80, 0x90];
    let mut store = open(&file);
    store.write_byte(4, 0xAA, Mode::Overwrite).unwrap();
    store.write_byte(2, 0xBB, Mode::Insert).unwrap();
    store.delete_byte(7).unwrap();
    store.delete_byte(0).unwrap();
    store.write_byte(100, 0xCC, Mode::Insert).unwrap();
    store.write_byte(1, 0xDD, Mode::Overwrite).unwrap();
    let shown = store.to_bytes();
    assert_eq!(shown, vec![0x20, 0xDD, 0x30, 0x40, 0xAA, 0x60, 0x80, 0x90, 0xCC]);
    let disk = carry_out(&store.save_plan(), &file);
    assert_eq!(disk, shown);
    let reopened = open(&disk);
    assert_eq!(reopened.len(), shown.len() as u64);
    for (address, value) in shown.iter().enumerate() {
        assert_eq!(reopened.read_byte(address as u64), Ok(*value));
    }
}

#[test]
fn marking_a_save_clears_the_overlay() {
    let mut store = open(&[1, 2, 3]);
    store.write_byte(1, 8, Mode::Insert).unwrap();
    store.delete_byte(0).unwrap();
    assert!(store.is_modified());
    store.mark_saved();
    assert!(!store.is_modified());
    assert_eq!(store.original_size(), 3);
    assert_eq!(store.read_file_byte(0), Ok(8));
    assert_eq!(store.to_bytes(), vec![8, 2, 3]);
    assert!(!store.is_full());
}

#[test]
fn edits_in_any_order_read_back_as_the_content() {
    let mut store = open(&[0, 1, 2, 3, 4, 5, 6, 7, 8, 9]);
    let mut model: Vec<u8> = (0..10).collect();
    let steps: [(u8, u64, u8); 14] = [
        (0, 3, 0x30),
        (1, 3, 0x31),
        (2, 0, 0),
        (1, 0, 0x32),
        (2, 9, 0),
        (1, 10, 0x33),
        (1, 50, 0x34),
        (2, 11, 0),
        (2, 10, 0),
        (1, 10, 0x35),
        (0, 10, 0x36),
        (2, 4, 0),
        (0, 4, 0x37),
        (1, 5, 0x38),
    ];
    for (kind, address, value) in steps {
        match kind {
            0 => {
                assert_eq!(store.write_byte(address, value, Mode::Overwrite), Ok(()));
                model[address as usize] = value;
            }
            1 => {
                assert_eq!(store.write_byte(address, value, Mode::Insert), Ok(()));
                let at = (address as usize).min(model.len());
                model.insert(at, value);
            }
            _ => {
                assert_eq!(store.delete_byte(address), Ok(()));
                model.remove(address as usize);
            }
        }
        assert_eq!(store.len(), model.len() as u64);
        assert_eq!(store.to_bytes(), model);
        for (at, byte) in model.iter().enumerate() {
            assert_eq!(store.read_byte(at as u64), Ok(*byte));
        }
        assert_eq!(carry_out(&store.save_plan(), &[0, 1, 2, 3, 4, 5, 6, 7, 8, 9]), model);
    }
}
