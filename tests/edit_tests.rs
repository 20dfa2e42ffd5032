use fe_edit::edit::{merge_edit_sets, EditConflict, EditSet, TextEdit};

fn te(start: usize, end: usize, replacement: &str, label: &str, priority: i32) -> TextEdit {
    TextEdit {
        start,
        end,
        replacement: replacement.to_string(),
        label: label.to_string(),
        priority,
    }
}

#[test]
fn test_single_edit() {
    let source = "hello world";
    let edits = vec![te(6, 11, "rust", "replace world", 0)];
    let edit_set = EditSet::new(edits, source.len()).unwrap();
    assert_eq!(edit_set.apply(source), "hello rust");
}

#[test]
fn test_multiple_non_overlapping_edits() {
    let source = "aaa bbb ccc";
    let edits = vec![te(0, 3, "xxx", "first", 0), te(8, 11, "zzz", "third", 0)];
    let edit_set = EditSet::new(edits, source.len()).unwrap();
    assert_eq!(edit_set.apply(source), "xxx bbb zzz");
}

#[test]
fn test_insertion_at_same_point() {
    let source = "ab";
    let edits = vec![te(1, 1, "X", "insert1", 0), te(1, 1, "Y", "insert2", 1)];
    let edit_set = EditSet::new(edits, source.len()).unwrap();
    let result = edit_set.apply(source);
    assert_eq!(result, "aYXb");
}

#[test]
fn test_overlapping_edits_rejected() {
    let source = "hello world";
    let edits = vec![te(3, 8, "X", "edit1", 0), te(5, 10, "Y", "edit2", 0)];
    let result = EditSet::new(edits, source.len());
    assert!(result.is_err());
    match result.unwrap_err() {
        EditConflict::Overlapping { .. } => {}
        other => panic!("Expected Overlapping, got {:?}", other),
    }
}

#[test]
fn test_out_of_bounds_rejected() {
    let source = "hello";
    let edits = vec![te(3, 10, "X", "oob", 0)];
    let result = EditSet::new(edits, source.len());
    assert!(result.is_err());
    match result.unwrap_err() {
        EditConflict::OutOfBounds { .. } => {}
        other => panic!("Expected OutOfBounds, got {:?}", other),
    }
}

#[test]
fn test_empty_edit_set() {
    let source = "unchanged";
    let edit_set = EditSet::new(vec![], source.len()).unwrap();
    assert_eq!(edit_set.apply(source), "unchanged");
    assert!(edit_set.is_empty());
}

#[test]
fn test_deletion() {
    let source = "hello cruel world";
    let edits = vec![te(5, 11, "", "delete", 0)];
    let edit_set = EditSet::new(edits, source.len()).unwrap();
    assert_eq!(edit_set.apply(source), "hello world");
}

#[test]
fn test_merge_edit_sets() {
    let source = "aaa bbb ccc";
    let set1 = EditSet::new(vec![te(0, 3, "xxx", "a", 0)], source.len()).unwrap();
    let set2 = EditSet::new(vec![te(8, 11, "zzz", "b", 0)], source.len()).unwrap();
    let merged = merge_edit_sets(vec![set1, set2], source.len()).unwrap();
    assert_eq!(merged.apply(source), "xxx bbb zzz");
}

#[test]
fn test_reverse_order_correctness() {
    let source = "ab cd ef";
    let edits = vec![
        te(0, 2, "LONGER", "grow first", 0),
        te(3, 5, "X", "shrink middle", 0),
        te(6, 8, "YYY", "grow last", 0),
    ];
    let edit_set = EditSet::new(edits, source.len()).unwrap();
    assert_eq!(edit_set.apply(source), "LONGER X YYY");
}

#[test]
fn non_overlap_guard_names_both_edits() {
    let source = "hello world";
    let edits = vec![te(3, 8, "X", "first", 0), te(5, 10, "Y", "second", 0)];
    match EditSet::new(edits, source.len()).unwrap_err() {
        EditConflict::Overlapping { a_label, a_start, a_end, b_label, b_start, b_end } => {
            assert_eq!((a_label.as_str(), a_start, a_end), ("first", 3, 8));
            assert_eq!((b_label.as_str(), b_start, b_end), ("second", 5, 10));
        }
        other => panic!("Expected Overlapping, got {:?}", other),
    }
}

#[test]
fn out_of_bounds_reports_the_edit() {
    match EditSet::new(vec![te(4, 2, "X", "inverted", 0)], 10).unwrap_err() {
        EditConflict::OutOfBounds { label, start, end, source_len } => {
            assert_eq!((label.as_str(), start, end, source_len), ("inverted", 4, 2, 10));
        }
        other => panic!("Expected OutOfBounds, got {:?}", other),
    }
}

#[test]
fn overlap_by_one_byte_rejected_touching_accepted() {
    assert!(EditSet::new(vec![te(0, 3, "a", "l", 0), te(2, 5, "b", "r", 0)], 5).is_err());
    assert!(EditSet::new(vec![te(0, 3, "a", "l", 0), te(3, 5, "b", "r", 0)], 5).is_ok());
}

#[test]
fn insertion_inside_replacement_rejected() {
    assert!(EditSet::new(vec![te(1, 4, "a", "r", 0), te(2, 2, "b", "i", 0)], 5).is_err());
}

#[test]
fn length_law_on_concrete_edits() {
    let source = "ab cd ef";
    let set = EditSet::new(
        vec![te(0, 2, "LONGER", "a", 0), te(3, 5, "X", "b", 0), te(6, 8, "YYY", "c", 0)],
        source.len(),
    )
    .unwrap();
    let out = set.apply(source);
    assert_eq!(out.len() as i64, 8 + (6 - 2) + (1 - 2) + (3 - 2));
}

#[test]
fn uncovered_bytes_kept_at_shifted_positions() {
    let source = "ab cd ef";
    let set = EditSet::new(vec![te(0, 2, "LONGER", "a", 0)], source.len()).unwrap();
    let out = set.apply(source);
    assert_eq!(&out.as_bytes()[2 + 4..], &source.as_bytes()[2..]);
}

#[test]
fn edits_come_out_sorted() {
    let set = EditSet::new(vec![te(6, 8, "c", "c", 0), te(0, 2, "a", "a", 0), te(3, 5, "b", "b", 0)], 8).unwrap();
    let starts: Vec<usize> = set.iter().iter().map(|e| e.start).collect();
    assert_eq!(starts, vec![0, 3, 6]);
    assert_eq!(set.len(), 3);
}

#[test]
fn equal_priority_insertions_written_in_reverse() {
    let set = EditSet::new(vec![te(1, 1, "P", "p", 0), te(1, 1, "Q", "q", 0)], 2).unwrap();
    assert_eq!(set.apply("ab"), "aQPb");
}

#[test]
fn edits_on_multibyte_text() {
    let source = "é = 1";
    let set = EditSet::new(vec![te(0, 2, "x", "name", 0)], source.len()).unwrap();
    assert_eq!(set.apply(source), "x = 1");
}

#[test]
fn first_fault_in_sorted_order() {
    match EditSet::new(vec![te(6, 20, "x", "late", 0), te(2, 30, "y", "early", 0)], 10).unwrap_err() {
        EditConflict::OutOfBounds { label, .. } => assert_eq!(label, "early"),
        other => panic!("unexpected {:?}", other),
    }
    match EditSet::new(vec![te(6, 9, "x", "c", 0), te(4, 7, "y", "b", 0), te(0, 5, "z", "a", 0)], 10).unwrap_err() {
        EditConflict::Overlapping { a_label, b_label, .. } => assert_eq!((a_label.as_str(), b_label.as_str()), ("a", "b")),
        other => panic!("unexpected {:?}", other),
    }
}

#[test]
fn set_keeps_priority_ascending_and_every_edit() {
    let set = EditSet::new(vec![te(1, 1, "Y", "i2", 1), te(1, 1, "X", "i1", 0)], 2).unwrap();
    assert_eq!(set.len(), 2);
    assert_eq!(set.iter()[0].priority, 0);
    assert_eq!(set.apply("ab"), "aYXb");
}
