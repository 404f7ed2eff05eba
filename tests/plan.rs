use shrinkcat::{plan_chunks, plan_into_realization, ShrinkError, OPERATION_LIMIT};

#[test]
fn test_plan_chunks_1() {
    let chunk_size = 10;
    let file_size = 100;
    let plan = plan_chunks(chunk_size, file_size).unwrap();

    assert_eq!(plan.start_chunks, 5);
    assert_eq!(plan.middle_left_size, 0);
    assert_eq!(plan.middle_right_size, 0);
    assert_eq!(plan.chunk_size, 10);
    assert_eq!(plan.file_size, 100);
}

#[test]
fn test_plan_chunks_2() {
    let chunk_size = 1;
    let file_size = 1;
    let plan = plan_chunks(chunk_size, file_size).unwrap();

    assert_eq!(plan.start_chunks, 0);
    assert_eq!(plan.middle_left_size, 1);
    assert_eq!(plan.middle_right_size, 0);
    assert_eq!(plan.chunk_size, 1);
    assert_eq!(plan.file_size, 1);
}

#[test]
fn test_plan_chunks_3() {
    let chunk_size = 1;
    let file_size = 2;
    let plan = plan_chunks(chunk_size, file_size).unwrap();

    assert_eq!(plan.start_chunks, 1);
    assert_eq!(plan.middle_left_size, 0);
    assert_eq!(plan.middle_right_size, 0);
}

#[test]
fn test_plan_chunks_4() {
    let chunk_size = 1;
    let file_size = 11;
    let plan = plan_chunks(chunk_size, file_size).unwrap();

    assert_eq!(plan.start_chunks, 5);
    assert_eq!(plan.middle_left_size, 1);
    assert_eq!(plan.middle_right_size, 0);
}

#[test]
fn test_plan_chunks_5() {
    let chunk_size = 5;
    let file_size = 19;
    let plan = plan_chunks(chunk_size, file_size).unwrap();

    assert_eq!(plan.start_chunks, 1);
    assert_eq!(plan.middle_left_size, 5);
    assert_eq!(plan.middle_right_size, 4);
}

#[test]
fn test_plan_chunks_6() {
    let chunk_size = 100;
    let file_size = 1001;
    let plan = plan_chunks(chunk_size, file_size).unwrap();

    assert_eq!(plan.start_chunks, 5);
    assert_eq!(plan.middle_left_size, 1);
    assert_eq!(plan.middle_right_size, 0);
}

#[test]
fn plan_of_empty_file_fails() {
    assert_eq!(plan_chunks(1, 0), Err(ShrinkError::FileSizeZero));
    assert_eq!(plan_chunks(4096, 0), Err(ShrinkError::FileSizeZero));
    assert_eq!(plan_chunks(0, 0), Err(ShrinkError::FileSizeZero));
}

#[test]
fn plan_zones_cover_the_file() {
    for c in 1u64..12 {
        for n in 1u64..80 {
            let p = plan_chunks(c, n).unwrap();
            assert_eq!(2 * p.start_chunks * c + p.middle_left_size + p.middle_right_size, n);
            assert!(p.middle_left_size >= p.middle_right_size);
            assert!(p.middle_left_size - p.middle_right_size <= 1);
            assert!(p.middle_left_size + p.middle_right_size < 2 * c);
        }
    }
}

#[test]
fn chunk_larger_than_half_makes_all_middle() {
    let p = plan_chunks(7, 13).unwrap();
    assert_eq!(p.start_chunks, 0);
    assert_eq!(p.middle_left_size, 7);
    assert_eq!(p.middle_right_size, 6);
}

#[test]
fn plan_of_largest_file() {
    let p = plan_chunks(1, u64::MAX).unwrap();
    assert_eq!(p.start_chunks, u64::MAX / 2);
    assert_eq!(p.middle_left_size, 1);
    assert_eq!(p.middle_right_size, 0);
    assert_eq!(plan_into_realization(p), Err(ShrinkError::OperationLimitExceeded));
}

#[test]
fn realization_at_the_operation_limit() {
    let p = plan_chunks(1, 1_000_000).unwrap();
    let ops = plan_into_realization(p).unwrap();
    assert_eq!(ops.len() as u64, OPERATION_LIMIT);
    let p = plan_chunks(1, 1_000_001).unwrap();
    assert_eq!(plan_into_realization(p), Err(ShrinkError::OperationLimitExceeded));
}
