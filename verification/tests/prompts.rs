use warehouse::menu::{
    search_query, start_menu_choice, storage_bin_insertion, warehouse_menu_choice, BinInsertion,
    StartChoice, WarehouseChoice,
};
use warehouse::numbers::{
    barcode_from_input, count_digits, material_from_input, parse_u64, power_of_ten_u64,
    NumberInput,
};

#[test]
fn start_menu_entries() {
    assert_eq!(start_menu_choice("1\n"), StartChoice::Login);
    assert_eq!(start_menu_choice(" 2 "), StartChoice::Register);
    assert_eq!(start_menu_choice("3"), StartChoice::Unknown);
    assert_eq!(start_menu_choice(""), StartChoice::Unknown);
}

#[test]
fn warehouse_menu_entries() {
    assert_eq!(warehouse_menu_choice("1"), WarehouseChoice::SearchStorageBin);
    assert_eq!(warehouse_menu_choice("2\n"), WarehouseChoice::AddOrMoveStock);
    assert_eq!(warehouse_menu_choice(" 3"), WarehouseChoice::AddNewStorageBin);
    assert_eq!(warehouse_menu_choice("12"), WarehouseChoice::Unknown);
}

#[test]
fn stock_search_query() {
    assert_eq!(search_query("Location"), "SELECT * FROM Warehouse_Stock WHERE Location = ?");
}

#[test]
fn new_location_that_exists_is_not_inserted() {
    assert_eq!(storage_bin_insertion(true, true), BinInsertion::AlreadyExists);
    assert_eq!(storage_bin_insertion(true, false), BinInsertion::Insert);
    assert_eq!(storage_bin_insertion(false, true), BinInsertion::Insert);
    assert_eq!(storage_bin_insertion(false, false), BinInsertion::Insert);
}

#[test]
fn parse_reads_unsigned_numbers() {
    assert_eq!(parse_u64("123"), Some(123));
    assert_eq!(parse_u64("+5"), Some(5));
    assert_eq!(parse_u64("007"), Some(7));
    assert_eq!(parse_u64(""), None);
    assert_eq!(parse_u64("+"), None);
    assert_eq!(parse_u64("-1"), None);
    assert_eq!(parse_u64("12a"), None);
    assert_eq!(parse_u64(" 1"), None);
    assert_eq!(parse_u64("18446744073709551615"), Some(u64::MAX));
    assert_eq!(parse_u64("18446744073709551616"), None);
    assert_eq!(parse_u64("99999999999999999999x"), None);
}

#[test]
fn digit_counts_and_powers() {
    assert_eq!(count_digits(0), 1);
    assert_eq!(count_digits(9), 1);
    assert_eq!(count_digits(10), 2);
    assert_eq!(count_digits(2748), 4);
    assert_eq!(count_digits(u64::MAX), 20);
    assert_eq!(power_of_ten_u64(0), 1);
    assert_eq!(power_of_ten_u64(4), 10_000);
    assert_eq!(power_of_ten_u64(19), 10_000_000_000_000_000_000);
}

#[test]
fn barcode_of_thirteen_digits_is_taken() {
    assert_eq!(barcode_from_input("5056242707712"), NumberInput::Accepted(5056242707712));
    assert_eq!(barcode_from_input(" 5056242707712 \n"), NumberInput::Accepted(5056242707712));
    assert_eq!(barcode_from_input("0000000000042"), NumberInput::Accepted(42));
}

#[test]
fn signed_barcode_is_not_a_barcode() {
    assert_eq!(barcode_from_input("+505624270771"), NumberInput::NotANumber);
    assert_eq!(barcode_from_input("-505624270771"), NumberInput::NotANumber);
    assert_eq!(barcode_from_input("50562427 7712"), NumberInput::NotANumber);
}

#[test]
fn barcode_of_another_length_is_asked_again() {
    assert_eq!(barcode_from_input("505624270771"), NumberInput::WrongLength);
    assert_eq!(barcode_from_input("50562427077123"), NumberInput::WrongLength);
    assert_eq!(barcode_from_input("abc"), NumberInput::NotANumber);
    assert_eq!(barcode_from_input(""), NumberInput::NotANumber);
}

#[test]
fn full_material_number_is_taken_as_it_is() {
    assert_eq!(material_from_input("1000000002734"), NumberInput::Accepted(1000000002734));
    assert_eq!(material_from_input("0000000000001"), NumberInput::Accepted(1));
}

#[test]
fn short_material_number_is_completed() {
    assert_eq!(material_from_input("2748"), NumberInput::Accepted(1000000002748));
    assert_eq!(material_from_input(" 2748\n"), NumberInput::Accepted(1000000002748));
    assert_eq!(material_from_input("0027"), NumberInput::Accepted(1000000000027));
    assert_eq!(material_from_input("0"), NumberInput::Accepted(1000000000000));
    assert_eq!(material_from_input("999999999999"), NumberInput::Accepted(1999999999999));
    assert_eq!(material_from_input("+12"), NumberInput::Accepted(1000000000012));
    assert_eq!(material_from_input("+100000000273"), NumberInput::Accepted(100000000273));
}

#[test]
fn other_material_input_is_asked_again() {
    assert_eq!(material_from_input("12345678901234"), NumberInput::WrongLength);
    assert_eq!(material_from_input("x"), NumberInput::NotANumber);
    assert_eq!(material_from_input("-5"), NumberInput::NotANumber);
    assert_eq!(material_from_input("+"), NumberInput::NotANumber);
    assert_eq!(material_from_input(""), NumberInput::NotANumber);
}
