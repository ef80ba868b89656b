//! Value reconstruction and histogram aggregation.

use pyd4::histogram_of;
use pyd4::reconstruct;
use pyd4::ChromEntry;
use pyd4::D4Error;
use pyd4::D4File;
use pyd4::DecodeOutcome;
use pyd4::PartInfo;
use pyd4::RegionSpec;

fn entry(name: &str, size: usize) -> ChromEntry {
    ChromEntry { name: name.to_string(), size }
}

fn part(chrom: &str, begin: u32, end: u32) -> PartInfo {
    PartInfo { chrom: chrom.to_string(), begin, end }
}

fn small_file() -> D4File {
    D4File::new(
        vec![entry("chr1", 10), entry("chr2", 5)],
        vec![part("chr1", 0, 4), part("chr1", 4, 10), part("chr2", 0, 5)],
    )
    .unwrap()
}

#[test]
fn reconstruct_definite_ignores_secondary_table() {
    assert_eq!(reconstruct(DecodeOutcome::Definite(5), None), 5);
    assert_eq!(reconstruct(DecodeOutcome::Definite(5), Some(99)), 5);
}

#[test]
fn reconstruct_tentative_without_exception_keeps_fallback() {
    assert_eq!(reconstruct(DecodeOutcome::Tentative(3), None), 3);
}

#[test]
fn reconstruct_tentative_with_exception_is_overridden() {
    assert_eq!(reconstruct(DecodeOutcome::Tentative(3), Some(1000)), 1000);
}

#[test]
fn histogram_of_single_region_scenario() {
    let row = histogram_of(&vec![0, 1, 1, 4, 7], 0, 5);
    assert_eq!(row.0, vec![(0, 1), (1, 2), (2, 0), (3, 0), (4, 1)]);
    assert_eq!(row.1, 0);
    assert_eq!(row.2, 1);
}

#[test]
fn histogram_of_counts_underflow_and_overflow() {
    let row = histogram_of(&vec![-3, -1, 2, 9, 9], 0, 5);
    assert_eq!(row.0, vec![(0, 0), (1, 0), (2, 1), (3, 0), (4, 0)]);
    assert_eq!(row.1, 2);
    assert_eq!(row.2, 2);
}

#[test]
fn histogram_of_empty_region_is_all_zero() {
    let row = histogram_of(&vec![], 0, 3);
    assert_eq!(row.0, vec![(0, 0), (1, 0), (2, 0)]);
    assert_eq!(row.1, 0);
    assert_eq!(row.2, 0);
}

#[test]
fn histogram_of_negative_labels() {
    let row = histogram_of(&vec![-2, -1, -1], -2, 0);
    assert_eq!(row.0, vec![(-2, 1), (-1, 2)]);
    assert_eq!(row.1, 0);
    assert_eq!(row.2, 0);
}

#[test]
fn histogram_of_empty_value_range() {
    let row = histogram_of(&vec![-1, 0, 1], 0, 0);
    assert_eq!(row.0, vec![]);
    assert_eq!(row.1, 1);
    assert_eq!(row.2, 2);
}

#[test]
fn histogram_batch_one_row_per_region_in_order() {
    let f = small_file();
    let regions = vec![
        RegionSpec::Span("chr1".to_string(), 0, 2),
        RegionSpec::Whole("chr2".to_string()),
    ];
    let values = vec![vec![0, 9], vec![7, -1, 2]];
    let rows = f.histogram(&regions, &values, 0, 5).unwrap();
    assert_eq!(rows.len(), 2);
    assert_eq!(rows[0].0, vec![(0, 1), (1, 0), (2, 0), (3, 0), (4, 0)]);
    assert_eq!((rows[0].1, rows[0].2), (0, 1));
    assert_eq!(rows[1].0, vec![(0, 0), (1, 0), (2, 1), (3, 0), (4, 0)]);
    assert_eq!((rows[1].1, rows[1].2), (1, 1));
}

#[test]
fn histogram_unknown_chromosome_fails_the_whole_batch() {
    let f = small_file();
    let regions = vec![
        RegionSpec::Whole("chr1".to_string()),
        RegionSpec::Whole("chrX".to_string()),
    ];
    let values = vec![vec![1, 2], vec![]];
    match f.histogram(&regions, &values, 0, 5) {
        Err(D4Error::NotFound(name)) => assert_eq!(name, "chrX".to_string()),
        _ => panic!("expected NotFound for the whole batch"),
    }
}

#[test]
fn histogram_regions_do_not_contaminate_each_other() {
    let f = small_file();
    let a = vec![-5, 0, 3, 12];
    let b = vec![7, 7, -2, 1];
    let mut combined = a.clone();
    combined.extend_from_slice(&b);
    let regions = vec![
        RegionSpec::Span("chr1".to_string(), 0, 4),
        RegionSpec::Span("chr1".to_string(), 4, 8),
    ];
    let rows = f.histogram(&regions, &vec![a, b], 0, 5).unwrap();
    let whole = histogram_of(&combined, 0, 5);
    assert_eq!(rows[0].1 + rows[1].1, whole.1);
    assert_eq!(rows[0].2 + rows[1].2, whole.2);
    for j in 0..5 {
        assert_eq!(rows[0].0[j].1 + rows[1].0[j].1, whole.0[j].1);
    }
}
