use shrinkcat::{
    commit_plan, copy_chunk, output_chunk, plan_chunks, plan_into_realization, truncate_file,
    Action, Operation, ShrinkError, TruncateAction,
};

fn fill(n: u64) -> Vec<u8> {
    (0..n).map(|i| (i % 256) as u8).collect()
}

fn realize(c: u64, n: u64) -> Vec<Operation> {
    plan_into_realization(plan_chunks(c, n).unwrap()).unwrap()
}

/// Runs the steps of the realization on an in-memory file through the
/// library's primitives; returns the sink, the file lengths after each
/// operation, and whether the file was removed at the end.
fn execute(c: u64, n: u64) -> (Vec<u8>, Vec<u64>, bool) {
    let ops = realize(c, n);
    let steps = commit_plan(&ops);
    let mut file = fill(n);
    let mut removed = false;
    let mut sink = Vec::new();
    let mut lengths = Vec::new();
    for step in steps {
        assert!(!removed);
        match step.action {
            Action::Emit(r) => {
                for (a, b) in output_chunk(file.len() as u64, r).unwrap() {
                    sink.extend_from_slice(&file[a as usize..b as usize]);
                }
            }
            Action::Copy { src, dst } => {
                for t in copy_chunk(file.len() as u64, src, dst).unwrap() {
                    let bytes = file[t.from as usize..(t.from + t.len) as usize].to_vec();
                    file[t.to as usize..(t.to + t.len) as usize].copy_from_slice(&bytes);
                }
            }
            Action::Truncate(len) => {
                match truncate_file(file.len() as u64, len).unwrap() {
                    TruncateAction::Remove => {
                        file.clear();
                        removed = true;
                    }
                    TruncateAction::Keep => {}
                    TruncateAction::SetLen(l) => file.truncate(l as usize),
                }
                lengths.push(file.len() as u64);
            }
        }
    }
    (sink, lengths, removed)
}

#[test]
fn scenario_ten_by_ten() {
    let ops = realize(10, 100);
    assert_eq!(ops.len(), 10);
    let (sink, _, removed) = execute(10, 100);
    assert_eq!(sink, fill(100));
    assert!(removed);
}

#[test]
fn scenario_single_byte() {
    let ops = realize(1, 1);
    assert_eq!(ops.len(), 1);
    assert_eq!(
        ops[0],
        Operation {
            chunk_no: 0,
            src_chunk: None,
            data_chunk: (0, 1),
            truncate_to: 0,
            is_middle: true,
        }
    );
    let (sink, _, removed) = execute(1, 1);
    assert_eq!(sink, vec![0u8]);
    assert!(removed);
}

#[test]
fn scenario_two_bytes() {
    let ops = realize(1, 2);
    assert_eq!(
        ops,
        vec![
            Operation {
                chunk_no: 0,
                src_chunk: Some((1, 2)),
                data_chunk: (0, 1),
                truncate_to: 1,
                is_middle: false,
            },
            Operation {
                chunk_no: 1,
                src_chunk: None,
                data_chunk: (0, 1),
                truncate_to: 0,
                is_middle: false,
            },
        ]
    );
    let (sink, _, removed) = execute(1, 2);
    assert_eq!(sink, vec![0u8, 1u8]);
    assert!(removed);
}

#[test]
fn scenario_eleven_by_two() {
    let ops = realize(2, 11);
    assert_eq!(ops.len(), 6);
    let expected = vec![
        (Some((9, 11)), (0, 2), 9, false),
        (Some((7, 9)), (2, 4), 7, false),
        (Some((6, 7)), (4, 6), 5, true),
        (None, (4, 5), 4, true),
        (None, (2, 4), 2, false),
        (None, (0, 2), 0, false),
    ];
    for (i, (op, e)) in ops.iter().zip(expected).enumerate() {
        assert_eq!(op.chunk_no, i as u64);
        assert_eq!((op.src_chunk, op.data_chunk, op.truncate_to, op.is_middle), e);
    }
    let (sink, _, removed) = execute(2, 11);
    assert_eq!(sink, fill(11));
    assert!(removed);
}

#[test]
fn scenario_nineteen_by_five() {
    let ops = realize(5, 19);
    assert_eq!(ops.len(), 4);
    let (sink, lengths, removed) = execute(5, 19);
    assert_eq!(sink, fill(19));
    assert_eq!(lengths, vec![14, 9, 5, 0]);
    assert!(removed);
}

#[test]
fn scenario_thousand_and_one_by_hundred() {
    let ops = realize(100, 1001);
    assert_eq!(ops.len(), 11);
    assert_eq!(ops[10].truncate_to, 0);
    let (sink, _, removed) = execute(100, 1001);
    assert_eq!(sink, fill(1001));
    assert!(removed);
}

#[test]
fn realization_laws_on_many_plans() {
    for c in 1u64..9 {
        for n in 1u64..70 {
            let ops = realize(c, n);
            let mut before = n;
            for (k, op) in ops.iter().enumerate() {
                assert_eq!(op.chunk_no, k as u64);
                assert!(op.truncate_to <= before);
                assert!(op.data_chunk.0 < op.data_chunk.1);
                assert!(op.data_chunk.1 <= before);
                if let Some(src) = op.src_chunk {
                    assert!(op.data_chunk.1 <= src.0);
                    assert!(src.1 <= before);
                }
                before = op.truncate_to;
            }
            assert_eq!(before, 0);
            let (sink, _, removed) = execute(c, n);
            assert_eq!(sink, fill(n));
            assert!(removed);
        }
    }
}

#[test]
fn commit_numbers_three_steps_per_operation() {
    let ops = realize(2, 11);
    let steps = commit_plan(&ops);
    let numbers: Vec<u64> = steps.iter().map(|s| s.step_no).collect();
    assert_eq!(numbers, vec![0, 1, 2, 3, 4, 5, 6, 7, 8, 9, 11, 12, 14, 15, 17]);
    assert_eq!(steps[0].action, Action::Emit((0, 2)));
    assert_eq!(steps[1].action, Action::Copy { src: (9, 11), dst: (0, 2) });
    assert_eq!(steps[7].action, Action::Copy { src: (6, 7), dst: (4, 5) });
    assert_eq!(steps[8].action, Action::Truncate(5));
}

#[test]
fn commit_carries_chunk_and_middle_flag() {
    let ops = realize(2, 11);
    let steps = commit_plan(&ops);
    assert_eq!(steps[6].chunk_no, 2);
    assert!(steps[6].is_middle);
    assert!(steps[7].is_middle);
    assert_eq!(steps[0].chunk_no, 0);
    assert!(!steps[0].is_middle);
}

#[test]
fn commit_shrinks_only_a_middle_slot_one_byte_longer() {
    let op = |src: (u64, u64), data: (u64, u64), is_middle: bool| Operation {
        chunk_no: 0,
        src_chunk: Some(src),
        data_chunk: data,
        truncate_to: 0,
        is_middle,
    };
    let copy_of = |o: Operation| commit_plan(&[o])[1].action;
    assert_eq!(
        copy_of(op((5, 5), (0, 1), true)),
        Action::Copy { src: (5, 5), dst: (0, 0) }
    );
    assert_eq!(
        copy_of(op((10, 12), (0, 5), false)),
        Action::Copy { src: (10, 12), dst: (0, 5) }
    );
    assert_eq!(copy_chunk(20, (10, 12), (0, 5)), Err(ShrinkError::SizeMismatch));
    assert_eq!(
        copy_of(op((10, 12), (0, 3), false)),
        Action::Copy { src: (10, 12), dst: (0, 3) }
    );
    assert_eq!(
        copy_of(op((10, 12), (0, 3), true)),
        Action::Copy { src: (10, 12), dst: (0, 2) }
    );
    assert_eq!(
        copy_of(op((10, 12), (0, 5), true)),
        Action::Copy { src: (10, 12), dst: (0, 5) }
    );
}
