//! The rules of a check that two parse results agree.

use ezpdb::api_compat::{
    compare_api, offset_mismatch_count, run_passed, ApiDifference, ApiNote, ApiSummary,
};
use ezpdb::compare::Difference;

fn summary() -> ApiSummary {
    ApiSummary {
        path: "a.pdb".to_string(),
        age: 1,
        guid: "g".to_string(),
        timestamp: 5,
        machine_type: "Some(Amd64)".to_string(),
        version: "V70".to_string(),
        public_symbols: (0..12).map(|i| (format!("s{}", i), Some(i as u64))).collect(),
        procedures: 3,
        global_data: 4,
        debug_modules: 2,
        types: 10,
        ipi_types: None,
    }
}

#[test]
fn identical_summaries_agree() {
    let r = compare_api(&summary(), &summary());
    assert!(r.differences.is_empty());
    assert!(r.notes.is_empty());
}

#[test]
fn identical_summaries_with_ipi_types_note_only_the_separation() {
    let mut s = summary();
    s.ipi_types = Some(3);
    let r = compare_api(&s, &s);
    assert!(r.differences.is_empty());
    assert_eq!(r.notes, vec![ApiNote::TypeSeparation(13, 10, 3, 13)]);
}

#[test]
fn header_differences_come_first() {
    let old = summary();
    let mut new = summary();
    new.age = 2;
    new.path = "b.pdb".to_string();
    new.machine_type = "None".to_string();
    let r = compare_api(&old, &new);
    assert_eq!(
        r.differences,
        vec![
            ApiDifference::Path("a.pdb".to_string(), "b.pdb".to_string()),
            ApiDifference::Age(1, 2),
            ApiDifference::MachineType("Some(Amd64)".to_string(), "None".to_string()),
        ]
    );
}

#[test]
fn only_the_first_ten_public_symbols_are_sampled() {
    let old = summary();
    let mut new = summary();
    new.public_symbols[0].1 = Some(99);
    new.public_symbols[3].0 = "x".to_string();
    new.public_symbols[11].1 = None;
    let r = compare_api(&old, &new);
    assert_eq!(r.differences, vec![ApiDifference::PublicSymbolContent { checked: 10, mismatches: 2 }]);

    new.public_symbols.pop();
    let r = compare_api(&old, &new);
    assert_eq!(r.differences, vec![ApiDifference::PublicSymbolCount(12, 11)]);
}

#[test]
fn more_is_an_improvement_and_fewer_a_regression() {
    let old = summary();
    let mut new = summary();
    new.global_data = 6;
    new.types = 8;
    new.ipi_types = Some(5);
    new.version = "V110".to_string();
    let r = compare_api(&old, &new);
    assert!(r.differences.is_empty());
    assert_eq!(
        r.notes,
        vec![
            ApiNote::VersionDiffers("V70".to_string(), "V110".to_string()),
            ApiNote::MoreGlobalData(2, 4, 6),
            ApiNote::TypeSeparation(10, 8, 5, 13),
            ApiNote::MoreTypes(3),
        ]
    );

    new.global_data = 1;
    new.ipi_types = Some(0);
    let r = compare_api(&old, &new);
    assert_eq!(
        r.differences,
        vec![ApiDifference::GlobalDataRegression(4, 1), ApiDifference::TypeRegression(10, 8)]
    );
    assert_eq!(r.notes, vec![ApiNote::VersionDiffers("V70".to_string(), "V110".to_string())]);
}

#[test]
fn offset_and_address_mismatches_are_counted() {
    let ds = vec![
        Difference::new("symbols", "Public symbol 'f' offset mismatch", None, None),
        Difference::new("symbols", "Procedure 'g' length mismatch", None, None),
        Difference::new("symbols", "entry address mismatch here", None, None),
        Difference::new("types", "Type 3 kind mismatch", None, None),
    ];
    assert_eq!(offset_mismatch_count(&ds), 2);
    assert_eq!(offset_mismatch_count(&vec![]), 0);
}

#[test]
fn a_run_passes_only_when_every_pdb_parsed_without_offset_mismatches() {
    assert!(run_passed(0, 3, 3));
    assert!(!run_passed(1, 3, 3));
    assert!(!run_passed(0, 2, 3));
}
