use databend_core::mutation_status::MutationStatus;

fn status(insert_rows: u64, deleted_rows: u64, update_rows: u64) -> MutationStatus {
    MutationStatus { insert_rows, deleted_rows, update_rows }
}

fn counts(status: &MutationStatus) -> (u64, u64, u64) {
    (status.insert_rows, status.deleted_rows, status.update_rows)
}

#[test]
fn merge_adds_each_count() {
    let mut merged = status(1, 20, 300);
    merged.merge_mutation_status(status(4, 50, 600));
    assert_eq!(counts(&merged), (5, 70, 900));
}

#[test]
fn merge_reaches_the_largest_count() {
    let mut merged = status(u64::MAX - 1, 0, u64::MAX);
    merged.merge_mutation_status(status(1, u64::MAX, 0));
    assert_eq!(counts(&merged), (u64::MAX, u64::MAX, u64::MAX));
}

#[test]
fn the_default_is_neutral() {
    assert_eq!(counts(&MutationStatus::default()), (0, 0, 0));
    let mut merged = MutationStatus::default();
    merged.merge_mutation_status(status(1, 2, 3));
    assert_eq!(counts(&merged), (1, 2, 3));
    merged.merge_mutation_status(MutationStatus::default());
    assert_eq!(counts(&merged), (1, 2, 3));
}

#[test]
fn merging_order_does_not_matter() {
    let parts = [status(1, 2, 3), status(40, 50, 60), status(700, 800, 900)];
    let mut forward = MutationStatus::default();
    for part in parts.iter() {
        forward.merge_mutation_status(part.clone());
    }
    let mut backward = MutationStatus::default();
    for part in parts.iter().rev() {
        backward.merge_mutation_status(part.clone());
    }
    assert_eq!(counts(&forward), (741, 852, 963));
    assert_eq!(counts(&backward), counts(&forward));
}

#[test]
fn totals_of_batches_merge() {
    let mut left = status(1, 2, 3);
    left.merge_mutation_status(status(10, 20, 30));
    let mut right = status(100, 200, 300);
    right.merge_mutation_status(status(1000, 2000, 3000));
    left.merge_mutation_status(right);
    assert_eq!(counts(&left), (1111, 2222, 3333));
}
