use warehouse::text::{split_on_space, trim};
use warehouse::warehouse::{BinFormatError, StockReport, StorageBin};

fn validate(command: &str) -> Result<StorageBin, BinFormatError> {
    StorageBin::try_validate_storage_bin(command).expect("the location patterns compile")
}

fn bin_at(location: &str, barcode: Option<u64>) -> StorageBin {
    StorageBin {
        barcode,
        location: location.to_string(),
        description: None,
        material_number: None,
        quantity: None,
    }
}

#[test]
fn trim_removes_white_space_at_both_ends() {
    assert_eq!(trim("  abc \t\n"), "abc");
    assert_eq!(trim("a b"), "a b");
    assert_eq!(trim(""), "");
    assert_eq!(trim(" \t "), "");
    assert_eq!(trim("\u{3000}x\u{a0}"), "x");
}

#[test]
fn split_keeps_empty_pieces() {
    assert_eq!(split_on_space("aa 01  s1"), vec!["aa", "01", "", "s1"]);
    assert_eq!(split_on_space("abc"), vec!["abc"]);
    assert_eq!(split_on_space(" "), vec!["", ""]);
    assert_eq!(split_on_space(""), vec![""]);
}

#[test]
fn packed_ground_location_is_spaced_out() {
    assert_eq!(StorageBin::storage_bin_entry_format("aa01s101"), "AA 01 S1 01");
    assert_eq!(StorageBin::storage_bin_entry_format("AA02S101"), "AA 02 S1 01");
}

#[test]
fn packed_upper_location_is_spaced_out() {
    assert_eq!(StorageBin::storage_bin_entry_format("aa01a01"), "AA 01 A 01");
    assert_eq!(StorageBin::storage_bin_entry_format("AA02G01"), "AA 02 G 01");
}

#[test]
fn spaced_location_is_upper_cased() {
    assert_eq!(StorageBin::storage_bin_entry_format("aa 01 s1 01"), "AA 01 S1 01");
    assert_eq!(StorageBin::storage_bin_entry_format("AA 02 G 01"), "AA 02 G 01");
    assert_eq!(StorageBin::storage_bin_entry_format("aa 02 g 01"), "AA 02 G 01");
}

#[test]
fn spaced_piece_matching_two_patterns_is_repeated() {
    assert_eq!(StorageBin::storage_bin_entry_format("as1 01"), "AS1 AS1 01");
}

#[test]
fn spaced_piece_matching_no_pattern_is_dropped() {
    assert_eq!(StorageBin::storage_bin_entry_format("aa xyz 01"), "AA 01");
}

#[test]
fn packed_output_without_spaces_is_the_upper_cased_input() {
    let out = StorageBin::storage_bin_entry_format("ab12cd34ef");
    let without: String = out.chars().filter(|c| *c != ' ').collect();
    assert_eq!(without, "AB12CD34EF");
    assert!(!out.starts_with(' ') && !out.ends_with(' '));
}

#[test]
fn valid_location_gives_an_empty_bin() {
    let bin = validate("aa01s101").unwrap();
    assert_eq!(bin, bin_at("AA 01 S1 01", None));
    let bin = validate("aa 02 g 01").unwrap();
    assert_eq!(bin.location, "AA 02 G 01");
}

#[test]
fn location_found_inside_longer_text_is_accepted() {
    let bin = validate("xxaa01s101yy").unwrap();
    assert_eq!(bin.location, "XX AA 0 1S101YY");
}

#[test]
fn invalid_location_is_refused() {
    let err = validate("hello").unwrap_err();
    assert_eq!(err, BinFormatError::InvalidFormat);
    assert_eq!(err.message(), "Invalid storage bin format.");
    assert!(validate("aa01s301").is_err());
    assert!(validate("").is_err());
}

#[test]
fn new_bin_is_empty() {
    let bin = StorageBin::new("AA 01 S1 01".to_string());
    assert_eq!(bin, bin_at("AA 01 S1 01", None));
}

#[test]
fn product_changes_leave_the_bin_as_it_is() {
    let mut bin = bin_at("AA 01 S1 01", Some(5));
    bin.add_product(1, 2);
    bin.remove_product(1, 2);
    bin.move_product(1, 2);
    assert_eq!(bin, bin_at("AA 01 S1 01", Some(5)));
}

#[test]
fn products_are_rows_with_a_barcode() {
    let rows = vec![bin_at("A", Some(1)), bin_at("A", None), bin_at("A", Some(3))];
    assert_eq!(StorageBin::product_count(&rows), 2);
    assert_eq!(StorageBin::product_count(&vec![]), 0);
}

#[test]
fn stock_report_lists_rows_only_when_a_product_is_there() {
    assert_eq!(StorageBin::stock_report(None), StockReport::Missing);
    let empty = vec![bin_at("AA 01 S1 01", None)];
    assert_eq!(
        StorageBin::stock_report(Some(empty)),
        StockReport::Found { count: 0, shown: vec![] }
    );
    let stocked = vec![bin_at("AA 01 S1 01", None), bin_at("AA 01 S1 01", Some(7))];
    assert_eq!(
        StorageBin::stock_report(Some(stocked)),
        StockReport::Found {
            count: 1,
            shown: vec![bin_at("AA 01 S1 01", None), bin_at("AA 01 S1 01", Some(7))]
        }
    );
}

#[test]
fn trimming_twice_is_trimming_once() {
    for s in ["  a b  ", "\t\n", "x", " \u{2003}y\u{2028}"] {
        assert_eq!(trim(&trim(s)), trim(s));
    }
}

#[test]
fn split_pieces_join_back() {
    for s in ["aa 01  s1", "", " ", "abc", " a b "] {
        let pieces = split_on_space(s);
        assert!(pieces.iter().all(|p| !p.contains(' ')));
        assert_eq!(pieces.join(" "), s);
    }
}

#[test]
fn packed_forms_give_the_spaced_layout() {
    assert_eq!(StorageBin::storage_bin_entry_format("Ab02s201"), "AB 02 S2 01");
    assert_eq!(StorageBin::storage_bin_entry_format("ab01c02"), "AB 01 C 02");
    assert!(StorageBin::storage_bin_entry_format("aa01s101").len() <= 11);
}

#[test]
fn ascii_location_has_no_lower_case_letters() {
    for command in ["xyz abc", "aa 01 s1 01", "as1 01", "aa01a01", "q"] {
        let out = StorageBin::storage_bin_entry_format(command);
        assert!(out.chars().all(|c| c.is_ascii() && !c.is_ascii_lowercase()));
    }
}

#[test]
fn normalised_location_formats_to_itself() {
    for command in ["aa01s101", "AA 02 G 01", "aa 02 s1 02", "Ab01c02"] {
        let once = StorageBin::storage_bin_entry_format(command);
        assert_eq!(StorageBin::storage_bin_entry_format(&once), once);
        let bin = validate(command).unwrap();
        assert_eq!(bin.location, once);
        assert_eq!(validate(&bin.location).unwrap().location, once);
    }
}

#[test]
fn spaced_ascii_parts_are_upper_cased() {
    assert_eq!(StorageBin::storage_bin_entry_format("aa 01 a 01"), "AA 01 A 01");
    let bin = validate("aa 02 s1 01").unwrap();
    assert_eq!(bin, bin_at("AA 02 S1 01", None));
}
