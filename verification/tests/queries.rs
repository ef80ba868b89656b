//! Queries against a small file model: the catalog, the point-query
//! cursor, and region resolution.

use pyd4::ChromEntry;
use pyd4::D4Error;
use pyd4::D4File;
use pyd4::PartInfo;
use pyd4::RegionSpec;
use pyd4::resolve;

fn entry(name: &str, size: usize) -> ChromEntry {
    ChromEntry { name: name.to_string(), size }
}

fn part(chrom: &str, begin: u32, end: u32) -> PartInfo {
    PartInfo { chrom: chrom.to_string(), begin, end }
}

fn small_file() -> D4File {
    D4File::new(
        vec![entry("chr1", 10), entry("chr2", 5)],
        vec![part("chr1", 0, 4), part("chr1", 4, 10), part("chr2", 0, 5)],
    )
    .unwrap()
}

#[test]
fn new_accepts_tiled_layout() {
    assert!(
        D4File::new(
            vec![entry("chr1", 10)],
            vec![part("chr1", 0, 4), part("chr1", 4, 10)],
        )
        .is_ok()
    );
}

#[test]
fn new_rejects_duplicate_chromosome_names() {
    let r = D4File::new(
        vec![entry("chr1", 10), entry("chr1", 5)],
        vec![part("chr1", 0, 10)],
    );
    assert!(matches!(r, Err(D4Error::Io(_))));
}

#[test]
fn new_rejects_gap_in_partitions() {
    let r = D4File::new(
        vec![entry("chr1", 10)],
        vec![part("chr1", 0, 4), part("chr1", 5, 10)],
    );
    assert!(matches!(r, Err(D4Error::Io(_))));
}

#[test]
fn new_rejects_partition_on_unlisted_chromosome() {
    let r = D4File::new(
        vec![entry("chr1", 10)],
        vec![part("chr1", 0, 10), part("chrX", 0, 3)],
    );
    assert!(matches!(r, Err(D4Error::Io(_))));
}

#[test]
fn new_rejects_partitions_out_of_order() {
    let r = D4File::new(
        vec![entry("chr1", 10)],
        vec![part("chr1", 4, 10), part("chr1", 0, 4)],
    );
    assert!(matches!(r, Err(D4Error::Io(_))));
}

#[test]
fn new_rejects_incomplete_tiling() {
    let r = D4File::new(vec![entry("chr1", 10)], vec![part("chr1", 0, 9)]);
    assert!(matches!(r, Err(D4Error::Io(_))));
}

#[test]
fn chroms_reports_the_catalog() {
    let f = small_file();
    let c = f.chroms();
    assert_eq!(c, vec![("chr1".to_string(), 10), ("chr2".to_string(), 5)]);
}

#[test]
fn chroms_is_idempotent() {
    let f = small_file();
    let first = f.chroms();
    let second = f.chroms();
    assert_eq!(first, second);
    let third = f.chroms();
    assert_eq!(first, third);
}

#[test]
fn value_iter_visits_every_position_in_order() {
    let f = small_file();
    let mut it = f.value_iter("chr1", 2, 8);
    let mut got: Vec<u32> = Vec::new();
    while let Some((_, pos)) = it.next() {
        got.push(pos);
    }
    assert_eq!(got, vec![2, 3, 4, 5, 6, 7]);
}

#[test]
fn value_iter_names_the_covering_partition() {
    let f = small_file();
    let mut it = f.value_iter("chr1", 2, 8);
    let mut got: Vec<(usize, u32)> = Vec::new();
    while let Some(step) = it.next() {
        got.push(step);
    }
    assert_eq!(got, vec![(0, 2), (0, 3), (1, 4), (1, 5), (1, 6), (1, 7)]);
}

#[test]
fn value_iter_counts_whole_chromosome() {
    let f = small_file();
    let mut it = f.value_iter("chr2", 0, 5);
    let mut n = 0u32;
    while let Some((j, _)) = it.next() {
        assert_eq!(j, 2);
        n += 1;
    }
    assert_eq!(n, 5);
}

#[test]
fn value_iter_unknown_chromosome_is_empty_not_an_error() {
    let f = small_file();
    let mut it = f.value_iter("chrX", 0, 100);
    assert_eq!(it.next(), None);
    assert_eq!(it.next(), None);
}

#[test]
fn value_iter_empty_range_is_empty() {
    let f = small_file();
    let mut it = f.value_iter("chr1", 3, 3);
    assert_eq!(it.next(), None);
}

#[test]
fn value_iter_clips_past_chromosome_end() {
    let f = small_file();
    let mut it = f.value_iter("chr2", 3, 50);
    let mut got: Vec<u32> = Vec::new();
    while let Some((_, pos)) = it.next() {
        got.push(pos);
    }
    assert_eq!(got, vec![3, 4]);
}

#[test]
fn resolve_bare_name_takes_whole_chromosome() {
    let f = small_file();
    let r = resolve(&RegionSpec::Whole("chr1".to_string()), &f.catalog).unwrap();
    assert_eq!(r.chrom, "chr1".to_string());
    assert_eq!(r.begin, 0);
    assert_eq!(r.end, 10);
}

#[test]
fn resolve_defaults_missing_end_to_chromosome_length() {
    let f = small_file();
    let r = resolve(&RegionSpec::From("chr2".to_string(), 3), &f.catalog).unwrap();
    assert_eq!((r.begin, r.end), (3, 5));
}

#[test]
fn resolve_keeps_explicit_bounds() {
    let f = small_file();
    let r = resolve(&RegionSpec::Span("chr1".to_string(), 2, 7), &f.catalog).unwrap();
    assert_eq!((r.begin, r.end), (2, 7));
}

#[test]
fn resolve_unknown_chromosome_reports_the_name() {
    let f = small_file();
    let r = resolve(&RegionSpec::Whole("chrX".to_string()), &f.catalog);
    match r {
        Err(D4Error::NotFound(name)) => assert_eq!(name, "chrX".to_string()),
        _ => panic!("expected NotFound"),
    }
}

#[test]
fn error_descriptions() {
    assert_eq!(
        D4Error::NotFound("chrX".to_string()).describe(),
        "chromosome not found".to_string()
    );
    assert_eq!(
        D4Error::InvalidRegionSpec.describe(),
        "invalid range spec".to_string()
    );
    assert_eq!(
        D4Error::Io("x".to_string()).describe(),
        "i/o failure".to_string()
    );
}

#[test]
fn value_iter_cursors_are_independent() {
    let f = small_file();
    let mut first = f.value_iter("chr2", 0, 5);
    let mut second = f.value_iter("chr2", 0, 5);
    let mut a: Vec<u32> = Vec::new();
    while let Some((_, pos)) = first.next() {
        a.push(pos);
    }
    let mut b: Vec<u32> = Vec::new();
    while let Some((_, pos)) = second.next() {
        b.push(pos);
    }
    assert_eq!(a, b);
    assert_eq!(a, vec![0, 1, 2, 3, 4]);
}

#[test]
fn value_iter_inverted_range_is_empty() {
    let f = small_file();
    let mut it = f.value_iter("chr1", 7, 2);
    assert_eq!(it.next(), None);
}
