use rholang::hot_store::{HistoryReaderBase, HotStoreAction, HotStoreInstances, HotStoreState, InMemHotStore, InsertAction};

/// A history with fixed contents: channel 1 has data [10, 11] and joins
/// [[1, 2]]; the channel list [1] has continuations [100].
struct FixedHistory;

impl HistoryReaderBase for FixedHistory {
    fn get_continuations(&self, channels: &Vec<u64>) -> Vec<u64> {
        if *channels == vec![1] { vec![100] } else { vec![] }
    }
    fn get_data(&self, channel: u64) -> Vec<u64> {
        if channel == 1 { vec![10, 11] } else { vec![] }
    }
    fn get_joins(&self, channel: u64) -> Vec<Vec<u64>> {
        if channel == 1 { vec![vec![1, 2]] } else { vec![] }
    }
}

fn store() -> InMemHotStore<FixedHistory> {
    HotStoreInstances::create_from_hr(FixedHistory)
}

#[test]
fn data_not_in_the_hot_store_is_read_from_the_history() {
    let mut s = store();
    assert_eq!(s.get_data(1), vec![10, 11]);
    assert_eq!(s.get_data(2), Vec::<u64>::new());
}

#[test]
fn put_datum_then_get_data_reads_it_back_first() {
    let mut s = store();
    s.put_datum(1, 5);
    assert_eq!(s.get_data(1), vec![5, 10, 11]);
    s.put_datum(3, 7);
    s.put_datum(3, 8);
    assert_eq!(s.get_data(3), vec![8, 7]);
}

#[test]
fn remove_datum_undoes_put_datum() {
    let mut s = store();
    s.put_datum(1, 5);
    assert_eq!(s.remove_datum(1, 0), Some(()));
    assert_eq!(s.get_data(1), vec![10, 11]);
}

#[test]
fn remove_datum_out_of_range_is_refused() {
    let mut s = store();
    assert_eq!(s.remove_datum(1, 2), None);
    assert_eq!(s.remove_datum(1, -1), None);
    assert_eq!(s.get_data(1), vec![10, 11]);
    assert_eq!(s.remove_datum(1, 1), Some(()));
    assert_eq!(s.get_data(1), vec![10]);
}

#[test]
fn continuations_put_and_installed() {
    let mut s = store();
    let chans = vec![1];
    assert_eq!(s.get_continuations(&chans), vec![100]);
    s.put_continuation(&chans, 200);
    assert_eq!(s.get_continuations(&chans), vec![200, 100]);
    s.install_continuation(&chans, 300);
    assert_eq!(s.get_continuations(&chans), vec![300, 200, 100]);
}

#[test]
fn the_installed_continuation_cannot_be_removed() {
    let mut s = store();
    let chans = vec![4];
    s.install_continuation(&chans, 300);
    s.put_continuation(&chans, 200);
    assert_eq!(s.remove_continuation(&chans, 0), None);
    assert_eq!(s.remove_continuation(&chans, 2), None);
    assert_eq!(s.remove_continuation(&chans, 1), Some(()));
    assert_eq!(s.get_continuations(&chans), vec![300]);
}

#[test]
fn joins_put_once_and_installed_first() {
    let mut s = store();
    assert_eq!(s.get_joins(1), vec![vec![1, 2]]);
    s.put_join(1, &vec![1, 3]);
    s.put_join(1, &vec![1, 3]);
    assert_eq!(s.get_joins(1), vec![vec![1, 3], vec![1, 2]]);
    s.install_join(1, &vec![1, 4]);
    s.install_join(1, &vec![1, 4]);
    assert_eq!(s.get_joins(1), vec![vec![1, 4], vec![1, 3], vec![1, 2]]);
}

#[test]
fn remove_join_keeps_a_join_that_continuations_wait_on() {
    let mut s = store();
    // the join [1] has a continuation in the history
    s.put_join(1, &vec![1]);
    assert_eq!(s.remove_join(1, &vec![1]), Some(()));
    assert_eq!(s.get_joins(1), vec![vec![1], vec![1, 2]]);
    // the join [1, 2] has none
    assert_eq!(s.remove_join(1, &vec![1, 2]), Some(()));
    assert_eq!(s.get_joins(1), vec![vec![1]]);
}

#[test]
fn changes_list_inserts_and_deletes() {
    let mut s = store();
    s.put_datum(5, 9);
    s.put_datum(6, 1);
    assert_eq!(s.remove_datum(6, 0), Some(()));
    let changes = s.changes();
    assert_eq!(changes.len(), 2);
    let mut inserts = 0;
    for c in &changes {
        match c {
            HotStoreAction::Insert(InsertAction::InsertData(d)) => {
                assert_eq!(d.channel, 5);
                assert_eq!(d.data, vec![9]);
                inserts += 1;
            },
            HotStoreAction::Delete(_) => {},
            _ => panic!("unexpected change"),
        }
    }
    assert_eq!(inserts, 1);
    assert!(!s.is_empty());
}

#[test]
fn clear_leaves_nothing_to_write() {
    let mut s = store();
    s.put_datum(5, 9);
    s.put_join(5, &vec![5]);
    assert!(!s.is_empty());
    s.clear();
    assert!(s.is_empty());
    assert!(s.changes().is_empty());
}

#[test]
fn a_fresh_store_is_empty() {
    let s = store();
    assert!(s.is_empty());
    assert!(s.to_map().is_empty());
}

#[test]
fn to_map_gives_rows_of_single_channels() {
    let mut s = store();
    s.put_datum(7, 70);
    s.put_continuation(&vec![7], 700);
    s.put_continuation(&vec![7, 8], 780);
    let rows = s.to_map();
    assert_eq!(rows.len(), 1);
    assert_eq!(rows[0].0, vec![7]);
    assert_eq!(rows[0].1.data, vec![70]);
    assert_eq!(rows[0].1.wks, vec![700]);
}

#[test]
fn snapshot_and_store_from_state_agree() {
    let mut s = store();
    s.put_datum(2, 20);
    let snap = s.snapshot();
    let mut t = HotStoreInstances::create_from_hs_and_hr(snap, FixedHistory);
    assert_eq!(t.get_data(2), vec![20]);
    let mut u = HotStoreInstances::create_from_mhs_and_hr(HotStoreState::new(), FixedHistory);
    assert_eq!(u.get_data(2), Vec::<u64>::new());
}

#[test]
fn a_removal_that_misses_its_join_is_reported() {
    let mut s = store();
    // [1, 2] is a join of channel 1 in the history, and nothing waits on it
    assert!(!s.removal_misses_join(1, &vec![1, 2]));
    // [3] is not a join of channel 1, and nothing waits on it
    assert!(s.removal_misses_join(1, &vec![3]));
    // [1] is not a join of channel 1 either, but a continuation waits on it
    assert!(!s.removal_misses_join(1, &vec![1]));
    assert!(s.changes().is_empty());
}

#[test]
fn a_random_state_lists_one_entry_per_map() {
    let st = HotStoreState::random_state();
    let conts = st.continuation_entries();
    assert_eq!(conts.len(), 1);
    assert!(conts[0].0.iter().all(|c| *c == 0) && conts[0].0.len() <= 10);
    let installed = st.installed_continuation_entries();
    assert_eq!(installed, vec![(conts[0].0.clone(), 0)]);
    let data = st.data_entries();
    assert_eq!(data.len(), 1);
    assert_eq!(data[0].0, 0);
    assert_eq!(st.join_entries().len(), 1);
    assert_eq!(st.installed_join_entries()[0].0, 0);
    let empty = HotStoreState::new();
    assert!(empty.continuation_entries().is_empty() && empty.data_entries().is_empty());
}
