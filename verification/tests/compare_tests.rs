//! Comparing two reports of one PDB.

use ezpdb::compare::{
    compare_headers, compare_modules, compare_pdbs, compare_symbol_counts, compare_symbols,
    compare_type_counts, compare_types, Difference,
};
use ezpdb::new_pdb::{self, NewPdbData};
use ezpdb::old_pdb::{self, OldPdbData};

fn old_type(index: u32, kind: &str, name: Option<&str>, size: Option<u64>) -> old_pdb::TypeInfo {
    old_pdb::TypeInfo { index, kind: kind.to_string(), name: name.map(String::from), size }
}

fn new_type(index: u32, kind: &str, name: Option<&str>, size: Option<u64>) -> new_pdb::TypeInfo {
    new_pdb::TypeInfo {
        index,
        kind: kind.to_string(),
        name: name.map(String::from),
        size,
        fields: vec![],
        variants: vec![],
        base_classes: vec![],
    }
}

fn old_data() -> OldPdbData {
    OldPdbData {
        header: old_pdb::HeaderInfo { age: 1, guid: "g".to_string() },
        types: vec![old_type(0x1000, "Class", Some("A"), Some(8)), old_type(0x1001, "Pointer", None, None)],
        symbols: old_pdb::SymbolData {
            public_symbols: vec![old_pdb::PublicSymbol {
                name: "f".to_string(),
                offset: Some(0x10),
                is_function: true,
            }],
            procedures: vec![old_pdb::ProcedureSymbol { name: "main".to_string(), offset: Some(0x20), len: 4 }],
            data_symbols: vec![old_pdb::DataSymbol { name: "d".to_string(), offset: None }],
        },
        modules: vec![old_pdb::ModuleInfo { name: "m".to_string(), object_file: "m.obj".to_string() }],
    }
}

fn new_data() -> NewPdbData {
    NewPdbData {
        header: new_pdb::HeaderInfo { age: 1, guid: "g".to_string() },
        types: vec![new_type(0x1000, "Class", Some("A"), Some(8)), new_type(0x1001, "Pointer", None, None)],
        symbols: new_pdb::SymbolData {
            public_symbols: vec![new_pdb::PublicSymbol {
                name: "f".to_string(),
                offset: Some(0x10),
                is_function: true,
            }],
            procedures: vec![new_pdb::ProcedureSymbol { name: "main".to_string(), offset: Some(0x20), len: 4 }],
            data_symbols: vec![new_pdb::DataSymbol { name: "d".to_string(), offset: None }],
        },
        modules: vec![new_pdb::ModuleInfo { name: "m".to_string(), object_file: "m.obj".to_string() }],
    }
}

fn texts(d: &Difference) -> (String, String, Option<String>, Option<String>) {
    (d.category.clone(), d.description.clone(), d.old_value.clone(), d.new_value.clone())
}

fn diff(c: &str, desc: &str, o: Option<&str>, n: Option<&str>) -> (String, String, Option<String>, Option<String>) {
    (c.to_string(), desc.to_string(), o.map(String::from), n.map(String::from))
}

#[test]
fn identical_reports_have_no_differences() {
    let result = compare_pdbs(&old_data(), &new_data());
    assert_eq!(result.summary.total_differences, 0);
    assert!(result.differences.is_empty());
    assert!(result.summary.header_matches);
    assert!(result.summary.type_count_matches);
    assert!(result.summary.symbol_count_matches);
    assert!(result.summary.module_count_matches);
}

#[test]
fn difference_new_keeps_its_arguments() {
    let d = Difference::new("types", "Type 5 kind mismatch", Some("a".to_string()), None);
    assert_eq!(texts(&d), diff("types", "Type 5 kind mismatch", Some("a"), None));
}

#[test]
fn header_differences_are_age_then_guid() {
    let mut old = old_data();
    old.header.age = 2;
    old.header.guid = "h".to_string();
    let mut differences = Vec::new();
    let matches = compare_headers(&old.header, &new_data().header, &mut differences);
    assert!(!matches);
    let got: Vec<_> = differences.iter().map(texts).collect();
    assert_eq!(
        got,
        vec![
            diff("header", "Age mismatch", Some("2"), Some("1")),
            diff("header", "GUID mismatch", Some("h"), Some("g")),
        ]
    );
}

#[test]
fn count_differences_give_both_counts() {
    let mut new = new_data();
    new.types.push(new_type(0x1002, "Array", None, None));
    new.symbols.procedures.clear();
    let mut differences = Vec::new();
    assert!(!compare_type_counts(&old_data(), &new, &mut differences));
    assert!(!compare_symbol_counts(&old_data(), &new, &mut differences));
    let got: Vec<_> = differences.iter().map(texts).collect();
    assert_eq!(
        got,
        vec![
            diff("types", "Type count mismatch", Some("2"), Some("3")),
            diff("symbols", "Procedure count mismatch", Some("1"), Some("0")),
        ]
    );
}

#[test]
fn types_are_matched_by_index() {
    let mut old = old_data();
    old.types[1] = old_type(0x1001, "Modifier", Some("p"), Some(4));
    old.types.push(old_type(0x2000, "Union", Some("U"), Some(4)));
    let mut new = new_data();
    new.types.push(new_type(0x3000, "Bitfield", None, None));
    let mut differences = Vec::new();
    compare_types(&old, &new, &mut differences);
    let got: Vec<_> = differences.iter().map(texts).collect();
    let missing = format!("{:?}", old.types[2]);
    let only = format!("{:?}", new.types[2]);
    assert_eq!(
        got,
        vec![
            diff("types", "Type 4097 kind mismatch", Some("Modifier"), Some("Pointer")),
            diff("types", "Type 4097 name mismatch", Some("Some(\"p\")"), Some("None")),
            diff("types", "Type 4097 size mismatch", Some("Some(4)"), Some("None")),
            diff("types", "Type 8192 missing in new parser", Some(&missing), None),
            diff("types", "Type 12288 only in new parser", None, Some(&only)),
        ]
    );
}

#[test]
fn symbols_are_matched_by_name() {
    let mut old = old_data();
    old.symbols.public_symbols[0].offset = Some(0x11);
    old.symbols.public_symbols[0].is_function = false;
    old.symbols.procedures[0].len = 5;
    old.symbols.data_symbols.push(old_pdb::DataSymbol { name: "gone".to_string(), offset: Some(1) });
    let mut new = new_data();
    new.symbols.data_symbols[0].offset = Some(3);
    new.symbols.public_symbols.push(new_pdb::PublicSymbol {
        name: "g".to_string(),
        offset: None,
        is_function: false,
    });
    let mut differences = Vec::new();
    compare_symbols(&old, &new, &mut differences);
    let got: Vec<_> = differences.iter().map(texts).collect();
    let gone = format!("{:?}", old.symbols.data_symbols[1]);
    let only = format!("{:?}", new.symbols.public_symbols[1]);
    assert_eq!(
        got,
        vec![
            diff("symbols", "Public symbol 'f' offset mismatch", Some("Some(17)"), Some("Some(16)")),
            diff("symbols", "Public symbol 'f' is_function mismatch", Some("false"), Some("true")),
            diff("symbols", "Public symbol 'g' only in new parser", None, Some(&only)),
            diff("symbols", "Procedure 'main' length mismatch", Some("5"), Some("4")),
            diff("symbols", "Data symbol 'd' offset mismatch", Some("None"), Some("Some(3)")),
            diff("symbols", "Data symbol 'gone' missing in new parser", Some(&gone), None),
        ]
    );
}

#[test]
fn the_last_record_of_a_name_stands_for_all() {
    let mut old = old_data();
    old.symbols.procedures.push(old_pdb::ProcedureSymbol { name: "main".to_string(), offset: Some(0x20), len: 9 });
    let mut differences = Vec::new();
    compare_symbols(&old, &new_data(), &mut differences);
    let got: Vec<_> = differences.iter().map(texts).collect();
    assert_eq!(got, vec![diff("symbols", "Procedure 'main' length mismatch", Some("9"), Some("4"))]);
}

#[test]
fn modules_are_matched_by_name() {
    let mut old = old_data();
    old.modules[0].object_file = "other.obj".to_string();
    old.modules.push(old_pdb::ModuleInfo { name: "x".to_string(), object_file: "x.obj".to_string() });
    let mut differences = Vec::new();
    compare_modules(&old, &new_data(), &mut differences);
    let got: Vec<_> = differences.iter().map(texts).collect();
    let missing = format!("{:?}", old.modules[1]);
    assert_eq!(
        got,
        vec![
            diff("modules", "Module 'm' object file mismatch", Some("other.obj"), Some("m.obj")),
            diff("modules", "Module 'x' missing in new parser", Some(&missing), None),
        ]
    );
}

#[test]
fn the_summary_counts_every_difference() {
    let mut old = old_data();
    old.header.age = 7;
    old.modules.clear();
    let result = compare_pdbs(&old, &new_data());
    assert_eq!(result.summary.total_differences, result.differences.len());
    assert!(!result.summary.header_matches);
    assert!(!result.summary.module_count_matches);
    assert!(result.summary.type_count_matches);
    assert_eq!(result.differences[0].description, "Age mismatch");
    assert_eq!(result.differences[1].description, "Module count mismatch");
    assert_eq!(result.differences[2].description, "Module 'm' only in new parser");
}

#[test]
fn old_records_render_as_debug_does() {
    let old = old_data();
    assert_eq!(old.types[0].debug_text(), format!("{:?}", old.types[0]));
    assert_eq!(old.types[1].debug_text(), format!("{:?}", old.types[1]));
    assert_eq!(old.symbols.public_symbols[0].debug_text(), format!("{:?}", old.symbols.public_symbols[0]));
    assert_eq!(old.symbols.procedures[0].debug_text(), format!("{:?}", old.symbols.procedures[0]));
    assert_eq!(old.symbols.data_symbols[0].debug_text(), format!("{:?}", old.symbols.data_symbols[0]));
    assert_eq!(old.modules[0].debug_text(), format!("{:?}", old.modules[0]));
}

#[test]
fn new_type_records_with_members_render_as_debug_does() {
    let mut t = new_type(1, "Class", Some("q\"uote"), Some(16));
    t.fields.push(new_pdb::FieldInfo {
        name: "a".to_string(),
        offset: Some(0),
        type_index: None,
        type_kind: Some("Bitfield".to_string()),
        bitfield_length: Some(3),
        bitfield_position: Some(1),
    });
    t.fields.push(new_pdb::FieldInfo {
        name: "b".to_string(),
        offset: Some(8),
        type_index: Some(7),
        type_kind: None,
        bitfield_length: None,
        bitfield_position: None,
    });
    t.variants.push(new_pdb::VariantInfo { name: "V".to_string(), value: -5 });
    t.base_classes.push(new_pdb::BaseClassInfo { name: None, offset: 0, type_index: None });
    assert_eq!(t.debug_text(), format!("{:?}", t));
}

#[test]
fn the_same_names_in_another_order_give_no_difference() {
    let mut old = old_data();
    old.symbols.public_symbols.push(old_pdb::PublicSymbol { name: "g".to_string(), offset: Some(1), is_function: false });
    old.types.reverse();
    let mut new = new_data();
    new.symbols.public_symbols.insert(
        0,
        new_pdb::PublicSymbol { name: "g".to_string(), offset: Some(1), is_function: false },
    );
    let mut differences = Vec::new();
    compare_symbols(&old, &new, &mut differences);
    compare_types(&old, &new, &mut differences);
    assert!(differences.is_empty());
}

#[test]
fn a_missing_name_is_reported_once_however_often_it_occurs() {
    let mut old = old_data();
    old.symbols.public_symbols.push(old_pdb::PublicSymbol { name: "g".to_string(), offset: Some(1), is_function: false });
    old.symbols.public_symbols.push(old_pdb::PublicSymbol { name: "g".to_string(), offset: Some(2), is_function: false });
    let mut new = new_data();
    new.symbols.data_symbols.push(new_pdb::DataSymbol { name: "e".to_string(), offset: Some(3) });
    new.symbols.data_symbols.push(new_pdb::DataSymbol { name: "e".to_string(), offset: Some(4) });
    let mut differences = Vec::new();
    compare_symbols(&old, &new, &mut differences);
    let missing: Vec<_> = differences.iter().filter(|d| d.new_value.is_none()).collect();
    assert_eq!(missing.len(), 1);
    assert_eq!(missing[0].description, "Public symbol 'g' missing in new parser");
    let only: Vec<_> = differences.iter().filter(|d| d.old_value.is_none()).collect();
    assert_eq!(only.len(), 1);
    assert_eq!(only[0].description, "Data symbol 'e' only in new parser");
    assert_eq!(differences.len(), 2);
}
