use zoomerjoin::em_link::{next_step, AgreeBundle, EMLinker, LinkError, LinkStep};

#[test]
fn rows_are_grouped_by_pattern_in_order_of_first_row() {
    let rows = vec![vec![0, 1], vec![1, 0], vec![0, 1], vec![1, 1], vec![1, 0], vec![0, 1]];
    let linker = EMLinker::new(&rows).unwrap();
    assert_eq!(linker.n_rows(), 6);
    assert_eq!(linker.levels(), &vec![2, 2]);
    let bundles = linker.bundles();
    assert_eq!(bundles.len(), 3);
    assert_eq!(bundles[0].pattern, vec![0, 1]);
    assert_eq!(bundles[0].ids, vec![0, 2, 5]);
    assert_eq!(bundles[0].count(), 3);
    assert_eq!(bundles[1].pattern, vec![1, 0]);
    assert_eq!(bundles[1].ids, vec![1, 4]);
    assert_eq!(bundles[2].pattern, vec![1, 1]);
    assert_eq!(bundles[2].ids, vec![3]);
    let places: Vec<usize> = (0..6).map(|row| linker.bundle_of(row)).collect();
    assert_eq!(places, vec![0, 1, 0, 2, 1, 0]);
}

#[test]
fn bundles_cover_every_row_once() {
    let rows = vec![vec![2, 0], vec![1, 1], vec![0, 0], vec![2, 0], vec![1, 1], vec![0, 1]];
    let linker = EMLinker::new(&rows).unwrap();
    let mut seen: Vec<usize> = Vec::new();
    for bundle in linker.bundles() {
        for id in &bundle.ids {
            assert_eq!(&rows[*id], &bundle.pattern);
            seen.push(*id);
        }
    }
    seen.sort();
    assert_eq!(seen, vec![0, 1, 2, 3, 4, 5]);
    let total: usize = linker.bundles().iter().map(|bundle| bundle.count()).sum();
    assert_eq!(total, linker.n_rows());
}

#[test]
fn tables_have_one_place_for_each_distinct_level() {
    let rows = vec![vec![0, 2, 0], vec![1, 0, 0], vec![0, 1, 0], vec![1, 2, 0]];
    let linker = EMLinker::new(&rows).unwrap();
    assert_eq!(linker.levels(), &vec![2, 3, 1]);
    for bundle in linker.bundles() {
        for (field, level) in bundle.pattern.iter().enumerate() {
            assert!(*level < linker.levels()[field]);
        }
    }
}

#[test]
fn expand_hands_each_row_the_value_of_its_bundle() {
    let rows = vec![vec![0, 1], vec![1, 0], vec![0, 1], vec![1, 1]];
    let linker = EMLinker::new(&rows).unwrap();
    let out = linker.expand(&vec![0.25f64, 0.5, 0.75]);
    assert_eq!(out, vec![0.25, 0.5, 0.25, 0.75]);
    let names = linker.expand(&vec!['a', 'b', 'c']);
    assert_eq!(names, vec!['a', 'b', 'a', 'c']);
}

#[test]
fn identical_rows_make_one_bundle_and_get_one_value() {
    let rows = vec![vec![1, 0, 1]; 7];
    let linker = EMLinker::new(&rows);
    assert_eq!(linker.as_ref().err(), Some(&LinkError::LevelOutOfRange));
    let rows = vec![vec![0, 0, 0]; 7];
    let linker = EMLinker::new(&rows).unwrap();
    assert_eq!(linker.bundles().len(), 1);
    assert_eq!(linker.bundles()[0].ids, vec![0, 1, 2, 3, 4, 5, 6]);
    assert_eq!(linker.levels(), &vec![1, 1, 1]);
    let out = linker.expand(&vec![0.125f64]);
    assert_eq!(out, vec![0.125; 7]);
}

#[test]
fn matrix_without_rows_is_refused() {
    let rows: Vec<Vec<usize>> = Vec::new();
    assert_eq!(EMLinker::new(&rows).err(), Some(LinkError::NoRows));
}

#[test]
fn ragged_matrix_is_refused() {
    let rows = vec![vec![0, 1], vec![1], vec![0, 1]];
    assert_eq!(EMLinker::new(&rows).err(), Some(LinkError::RaggedRow));
    let longer = vec![vec![0], vec![0, 0]];
    assert_eq!(EMLinker::new(&longer).err(), Some(LinkError::RaggedRow));
}

#[test]
fn level_without_a_place_in_its_table_is_refused() {
    let rows = vec![vec![0, 0], vec![2, 1]];
    assert_eq!(EMLinker::new(&rows).err(), Some(LinkError::LevelOutOfRange));
    let fits = vec![vec![0, 0], vec![1, 1]];
    assert!(EMLinker::new(&fits).is_ok());
}

#[test]
fn matrix_without_fields_has_one_bundle() {
    let rows: Vec<Vec<usize>> = vec![Vec::new(), Vec::new()];
    let linker = EMLinker::new(&rows).unwrap();
    assert_eq!(linker.bundles().len(), 1);
    assert!(linker.levels().is_empty());
    assert_eq!(linker.expand(&vec![9u8]), vec![9, 9]);
}

#[test]
fn bundle_grows_by_one_row_at_a_time() {
    let mut bundle = AgreeBundle::new(&vec![1, 0, 2], 4);
    assert_eq!(bundle.pattern, vec![1, 0, 2]);
    assert_eq!(bundle.ids, vec![4]);
    assert_eq!(bundle.count(), 1);
    bundle.add(9);
    bundle.add(11);
    assert_eq!(bundle.pattern, vec![1, 0, 2]);
    assert_eq!(bundle.ids, vec![4, 9, 11]);
    assert_eq!(bundle.count(), 3);
}

#[test]
fn estimator_stops_when_settled_or_out_of_steps() {
    assert_eq!(next_step(0, 10, false), (LinkStep::Iterate, 1));
    assert_eq!(next_step(9, 10, false), (LinkStep::Iterate, 10));
    assert_eq!(next_step(10, 10, false), (LinkStep::Exhausted, 10));
    assert_eq!(next_step(3, 10, true), (LinkStep::Converged, 3));
    assert_eq!(next_step(10, 10, true), (LinkStep::Converged, 10));
    assert_eq!(next_step(0, 0, false), (LinkStep::Exhausted, 0));
    assert_eq!(next_step(0, -1, false), (LinkStep::Exhausted, 0));
    assert_eq!(next_step(i32::MAX, i32::MAX, false), (LinkStep::Exhausted, i32::MAX));
    assert_eq!(next_step(i32::MAX - 1, i32::MAX, false), (LinkStep::Iterate, i32::MAX));
}

#[test]
fn link_errors_say_what_went_wrong() {
    assert_eq!(LinkError::NoRows.describe(), "the agreement matrix has no rows");
    assert_eq!(LinkError::RaggedRow.describe(), "the rows of the agreement matrix differ in length");
    assert_eq!(
        LinkError::LevelOutOfRange.describe(),
        "the levels of a field must be 0, 1, 2 and so on without gaps"
    );
}

#[test]
fn many_rows_are_grouped_like_a_row_by_row_search() {
    let mut state: u64 = 12345;
    let mut draw = |bound: u64| {
        state = state.wrapping_mul(6364136223846793005).wrapping_add(1442695040888963407);
        ((state >> 33) % bound) as usize
    };
    let mut rows: Vec<Vec<usize>> = vec![vec![0, 0, 0, 0], vec![1, 2, 3, 0]];
    for _ in 0..2000 {
        rows.push(vec![draw(2), draw(3), draw(4), 0]);
    }
    let linker = EMLinker::new(&rows).unwrap();
    assert_eq!(linker.levels(), &vec![2, 3, 4, 1]);
    let mut patterns: Vec<Vec<usize>> = Vec::new();
    let mut places: Vec<usize> = Vec::new();
    for row in &rows {
        match patterns.iter().position(|seen| seen == row) {
            Some(place) => places.push(place),
            None => {
                places.push(patterns.len());
                patterns.push(row.clone());
            }
        }
    }
    assert_eq!(linker.bundles().len(), patterns.len());
    assert_eq!(patterns.len(), 24);
    for (place, bundle) in linker.bundles().iter().enumerate() {
        assert_eq!(bundle.pattern, patterns[place]);
        let ids: Vec<usize> = (0..rows.len()).filter(|row| places[*row] == place).collect();
        assert_eq!(bundle.ids, ids);
    }
    for row in 0..rows.len() {
        assert_eq!(linker.bundle_of(row), places[row]);
    }
}
