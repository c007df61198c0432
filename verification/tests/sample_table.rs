use video_gallery::sample_table::{
    parameter_sets_payload, start_sample_id, target_sample_id, TimeToSampleEntry,
};

fn entry(sample_count: u32, sample_delta: u32) -> TimeToSampleEntry {
    TimeToSampleEntry { sample_count, sample_delta }
}

#[test]
fn uniform_table_counts_whole_samples() {
    // 30 samples of 512 ticks; tick 60*512 = 30720 lies past the last sample's end
    let table = vec![entry(30, 512)];
    assert_eq!(target_sample_id(&table, 0), Some(1));
    assert_eq!(target_sample_id(&table, 511), Some(1));
    assert_eq!(target_sample_id(&table, 512), Some(2));
    assert_eq!(target_sample_id(&table, 1500), Some(3));
    assert_eq!(target_sample_id(&table, 30720), Some(31));
}

#[test]
fn a_run_that_overshoots_does_not_stop_later_runs() {
    let table = vec![entry(2, 10), entry(3, 1)];
    assert_eq!(target_sample_id(&table, 5), Some(4));
}

#[test]
fn runs_are_walked_in_order() {
    let table = vec![entry(2, 100), entry(4, 50)];
    // 100 + 100 + 50 = 250 <= 260
    assert_eq!(target_sample_id(&table, 260), Some(4));
    // the first run stops at 200 > 199, the second still counts its 50-tick sample
    assert_eq!(target_sample_id(&table, 199), Some(3));
}

#[test]
fn zero_length_samples_are_all_counted() {
    let table = vec![entry(5, 0)];
    assert_eq!(target_sample_id(&table, 0), Some(6));
}

#[test]
fn empty_table_points_at_first_sample() {
    assert_eq!(target_sample_id(&Vec::new(), 1234), Some(1));
}

#[test]
fn start_without_sync_table_is_first_sample() {
    assert_eq!(start_sample_id(&None, 40), 1);
}

#[test]
fn start_is_last_sync_sample_not_after_target() {
    let sync = Some(vec![1u32, 30, 60, 90]);
    assert_eq!(start_sample_id(&sync, 45), 30);
    assert_eq!(start_sample_id(&sync, 60), 60);
    assert_eq!(start_sample_id(&sync, 200), 90);
    assert_eq!(start_sample_id(&sync, 1), 1);
}

#[test]
fn start_stays_first_sample_when_first_sync_is_later() {
    let sync = Some(vec![5u32, 10]);
    assert_eq!(start_sample_id(&sync, 3), 1);
    assert_eq!(start_sample_id(&Some(Vec::new()), 7), 1);
}

#[test]
fn start_walk_stops_at_first_later_entry() {
    // unsorted table: the walk stops at 50 even though 20 comes after it
    let sync = Some(vec![10u32, 50, 20]);
    assert_eq!(start_sample_id(&sync, 30), 10);
}

#[test]
fn parameter_sets_are_prefixed_in_order() {
    let sps = vec![vec![0x67u8, 1, 2]];
    let pps = vec![vec![0x68u8], vec![0x68u8, 9]];
    assert_eq!(
        parameter_sets_payload(&sps, &pps),
        vec![0, 0, 0, 1, 0x67, 1, 2, 0, 0, 0, 1, 0x68, 0, 0, 0, 1, 0x68, 9]
    );
    assert_eq!(parameter_sets_payload(&Vec::new(), &Vec::new()), Vec::<u8>::new());
}

#[test]
fn decode_range_is_never_empty() {
    let tables = [vec![entry(10, 100)], vec![entry(2, 10), entry(3, 1)], vec![]];
    let syncs = [None, Some(vec![1u32, 4, 8]), Some(vec![3u32]), Some(vec![])];
    for table in &tables {
        for tick in [0u64, 5, 150, 10_000] {
            let target = target_sample_id(table, tick).unwrap();
            assert!(target >= 1);
            for sync in &syncs {
                assert!(start_sample_id(sync, target) <= target);
            }
        }
    }
}
