//! The decisions of the menus and of the stock table: which menu entry a
//! typed command picks, which query searches the stock, and whether a new
//! storage bin is inserted.
use vstd::prelude::*;
use vstd::string::*;

use crate::text::{lemma_trimmed_idempotent, same_text, trim, trimmed};
use crate::user::{is_granted, user_command, LoginOutcome};

verus! {

/// An entry of the start menu.
#[derive(Debug, Clone, Copy, PartialEq, Eq)]
pub enum StartChoice {
    Login,
    Register,
    Unknown,
}

/// An entry of the warehouse menu.
#[derive(Debug, Clone, Copy, PartialEq, Eq)]
pub enum WarehouseChoice {
    SearchStorageBin,
    AddOrMoveStock,
    AddNewStorageBin,
    Unknown,
}

/// What adding a storage bin location comes to.
#[derive(Debug, Clone, Copy, PartialEq, Eq)]
pub enum BinInsertion {
    /// A new location was asked for, and it exists already: nothing is inserted.
    AlreadyExists,
    /// An empty row is inserted at the location.
    Insert,
}

/// The entry of the warehouse menu that a typed line picks.
pub open spec fn warehouse_choice_of(line: Seq<char>) -> WarehouseChoice {
    if trimmed(line) == seq!['1'] {
        WarehouseChoice::SearchStorageBin
    } else if trimmed(line) == seq!['2'] {
        WarehouseChoice::AddOrMoveStock
    } else if trimmed(line) == seq!['3'] {
        WarehouseChoice::AddNewStorageBin
    } else {
        WarehouseChoice::Unknown
    }
}

/// Whether adding a storage bin inserts a row.
pub open spec fn insertion_decision(row_exists: bool, new_location: bool) -> BinInsertion {
    if row_exists && new_location {
        BinInsertion::AlreadyExists
    } else {
        BinInsertion::Insert
    }
}

/// The locations of the stock table after adding `location`, where the
/// search for it finds a row exactly when the location is present.
pub open spec fn locations_after(
    locations: Seq<Seq<char>>,
    location: Seq<char>,
    new_location: bool,
) -> Seq<Seq<char>> {
    match insertion_decision(locations.contains(location), new_location) {
        BinInsertion::AlreadyExists => locations,
        BinInsertion::Insert => locations.push(location),
    }
}

/// Adding new storage bin locations keeps locations unique: a location
/// already present is not added again, so adding the same location twice
/// leaves the table as adding it once does.
pub proof fn new_locations_stay_unique(locations: Seq<Seq<char>>, location: Seq<char>)
    requires
        locations.no_duplicates(),
    ensures
        locations_after(locations, location, true).no_duplicates(),
        locations_after(locations_after(locations, location, true), location, true)
            == locations_after(locations, location, true),
        locations_after(locations, location, true).contains(location),
{
    let after = locations_after(locations, location, true);
    if !locations.contains(location) {
        assert forall|i: int, j: int|
            0 <= i < after.len() && 0 <= j < after.len() && i != j implies after[i] != after[j] by {
            if i == locations.len() {
                assert(locations[j] == after[j]);
            } else if j == locations.len() {
                assert(locations[i] == after[i]);
            }
        }
        assert(after[after.len() - 1] == location);
    }
    assert(after.contains(location));
}

/// The warehouse menu entry depends only on the trimmed line: `1`, `2` and
/// `3` (with any white space around them) pick the search, the stock and the
/// new-bin entries, and every other line picks none of them.
pub proof fn warehouse_choice_reads_trimmed_line(line: Seq<char>)
    ensures
        trimmed(line) == seq!['1'] <==> warehouse_choice_of(line) == WarehouseChoice::SearchStorageBin,
        trimmed(line) == seq!['2'] <==> warehouse_choice_of(line) == WarehouseChoice::AddOrMoveStock,
        trimmed(line) == seq!['3'] <==> warehouse_choice_of(line)
            == WarehouseChoice::AddNewStorageBin,
        forall|other: Seq<char>|
            trimmed(other) == trimmed(line) ==> #[trigger] warehouse_choice_of(other)
                == warehouse_choice_of(line),
{
    lemma_menu_digits_differ();
}

/// The one-character lines `1`, `2` and `3` are distinct.
proof fn lemma_menu_digits_differ()
    ensures
        seq!['1'] != seq!['2'],
        seq!['1'] != seq!['3'],
        seq!['2'] != seq!['3'],
{
    assert(seq!['1'][0] != seq!['2'][0]);
    assert(seq!['1'][0] != seq!['3'][0]);
    assert(seq!['2'][0] != seq!['3'][0]);
}

/// Only the third warehouse menu entry adds storage bins: a line that does
/// not read as `3` picks another entry.
pub proof fn only_entry_three_adds_bins(line: Seq<char>)
    requires
        trimmed(line) != seq!['3'],
    ensures
        warehouse_choice_of(line) != WarehouseChoice::AddNewStorageBin,
{
}

/// Whether the warehouse menu opens: only after the login entry of the start
/// menu, and only when the login grants entry.
pub fn opens_warehouse(choice: StartChoice, outcome: &LoginOutcome) -> (r: bool)
    ensures
        r == (choice == StartChoice::Login && is_granted(*outcome)),
{
    match choice {
        StartChoice::Login => outcome.granted(),
        _ => false,
    }
}

/// The text of the stock search on `column_name`.
pub open spec fn search_query_text(column_name: Seq<char>) -> Seq<char> {
    "SELECT * FROM Warehouse_Stock WHERE "@ + column_name + " = ?"@
}

/// The entry of the start menu that a typed line picks: `1` logs in, `2`
/// registers.
pub fn start_menu_choice(line: &str) -> (r: StartChoice)
    ensures
        r == (if trimmed(line@) == seq!['1'] {
            StartChoice::Login
        } else if trimmed(line@) == seq!['2'] {
            StartChoice::Register
        } else {
            StartChoice::Unknown
        }),
{
    let cmd = menu_command(line);
    proof {
        reveal_strlit("1");
        reveal_strlit("2");
        assert("1"@ =~= seq!['1']);
        assert("2"@ =~= seq!['2']);
    }
    if same_text(cmd.as_str(), "1") {
        StartChoice::Login
    } else if same_text(cmd.as_str(), "2") {
        StartChoice::Register
    } else {
        StartChoice::Unknown
    }
}

/// The entry of the warehouse menu that a typed line picks: `1` searches a
/// storage bin, `2` adds or moves stock, `3` adds a new storage bin.
pub fn warehouse_menu_choice(line: &str) -> (r: WarehouseChoice)
    ensures
        r == warehouse_choice_of(line@),
        trimmed(line@) == seq!['1'] <==> r == WarehouseChoice::SearchStorageBin,
        trimmed(line@) == seq!['2'] <==> r == WarehouseChoice::AddOrMoveStock,
        trimmed(line@) == seq!['3'] <==> r == WarehouseChoice::AddNewStorageBin,
{
    let cmd = menu_command(line);
    proof {
        reveal_strlit("1");
        reveal_strlit("2");
        reveal_strlit("3");
        assert("1"@ =~= seq!['1']);
        assert("2"@ =~= seq!['2']);
        assert("3"@ =~= seq!['3']);
        lemma_menu_digits_differ();
    }
    if same_text(cmd.as_str(), "1") {
        WarehouseChoice::SearchStorageBin
    } else if same_text(cmd.as_str(), "2") {
        WarehouseChoice::AddOrMoveStock
    } else if same_text(cmd.as_str(), "3") {
        WarehouseChoice::AddNewStorageBin
    } else {
        WarehouseChoice::Unknown
    }
}

/// A menu command: the line as an optional answer, trimmed once more.
fn menu_command(line: &str) -> (r: String)
    ensures
        r@ == trimmed(line@),
{
    let answer = match user_command(line, false) {
        Ok(s) => s,
        Err(e) => e.message(),
    };
    proof {
        lemma_trimmed_idempotent(line@);
    }
    trim(answer.as_str())
}

/// The query that searches the stock table on `column_name`, with the
/// searched value as its parameter.
pub fn search_query(column_name: &str) -> (r: String)
    ensures
        r@ == search_query_text(column_name@),
{
    let mut q = String::from_str("SELECT * FROM Warehouse_Stock WHERE ");
    q.append(column_name);
    q.append(" = ?");
    q
}

/// Whether adding a storage bin inserts a row: not when a new location was
/// asked for and the location exists already.
pub fn storage_bin_insertion(row_exists: bool, new_location: bool) -> (r: BinInsertion)
    ensures
        r == insertion_decision(row_exists, new_location),
{
    if row_exists && new_location {
        BinInsertion::AlreadyExists
    } else {
        BinInsertion::Insert
    }
}

} // verus!
