//! Storage bins: validating and normalising bin locations, and summarising
//! the stock found at a location.
use vstd::prelude::*;
use vstd::string::*;
use vstd::utf8::{encode_utf8, is_ascii_chars, is_ascii_chars_encode_utf8};

use crate::pattern::{find_pattern, regex_compiles, regex_finds};
use crate::text::{
    ascii_upper, chars_of, char_upper_first, has_space, is_white_space, join_spaces,
    lemma_split_chars, lemma_split_rejoins, lemma_trimmed_chars, lemma_trimmed_edges,
    lemma_trimmed_fixed, lemma_trimmed_push_space, lemma_trimmed_without_spaces, push_char, split_on_space, split_spaces, str_upper, trim,
    trimmed, upper_first, upper_string, views, without_spaces,
};

verus! {

/// Ground location written with spaces, e.g. `AA 02 S1 01`.
pub const GROUND_SPACED: &'static str = "[Aa]+[A-zZ]\\s[0-9]+\\s[Ss][12]\\s0[12]";

/// Ground location written without spaces, e.g. `AA02S101`.
pub const GROUND_PACKED: &'static str = "[Aa]+[A-zZ][0-9]+[Ss][12]0[12]";

/// Location above the ground level written with spaces, e.g. `AA 02 G 01`.
pub const UPPER_SPACED: &'static str = "[Aa]+[A-zZ]\\s[0-9]+\\s[A-zZ]\\s0[12]";

/// Location above the ground level written without spaces, e.g. `AA02G01`.
pub const UPPER_PACKED: &'static str = "[Aa]+[A-zZ][0-9]+[A-zZ]0[12]";

/// An aisle piece of a spaced location, e.g. `aa`.
pub const AISLE_PIECE: &'static str = "[Aa]+[A-zZ]";

/// A numbered piece of a spaced location, e.g. `01`.
pub const NUMBER_PIECE: &'static str = "0+[0-9]";

/// A shelf piece of a spaced location, e.g. `s1`.
pub const SHELF_PIECE: &'static str = "[Ss]+[0-3]";

/// A single-letter level piece of a spaced location, e.g. `g`.
pub const LETTER_PIECE: &'static str = "^[A-zZ]$";

/// The message of a rejected storage bin location.
pub const INVALID_BIN_FORMAT: &'static str = "Invalid storage bin format.";

/// All the patterns that storage bin validation and formatting use compile.
pub open spec fn patterns_compile() -> bool {
    &&& regex_compiles(GROUND_SPACED@)
    &&& regex_compiles(GROUND_PACKED@)
    &&& regex_compiles(UPPER_SPACED@)
    &&& regex_compiles(UPPER_PACKED@)
    &&& regex_compiles(AISLE_PIECE@)
    &&& regex_compiles(NUMBER_PIECE@)
    &&& regex_compiles(SHELF_PIECE@)
    &&& regex_compiles(LETTER_PIECE@)
}

/// Whether `command` holds a storage bin location in one of the four
/// accepted forms (anywhere in it).
pub open spec fn is_storage_bin_format(command: Seq<char>) -> bool {
    ||| regex_finds(GROUND_SPACED@, command)
    ||| regex_finds(GROUND_PACKED@, command)
    ||| regex_finds(UPPER_SPACED@, command)
    ||| regex_finds(UPPER_PACKED@, command)
}

/// One step of formatting a location typed without spaces: the `i`-th
/// character `c` is appended upper-cased. When the fifth character is not an
/// `s`, a space follows it and the location counts as above ground level
/// from then on; otherwise, while the location counts as ground level, a
/// space follows every second character except the last (counted against
/// the byte length `nbytes`).
pub open spec fn packed_step(out: Seq<char>, upper: bool, c: char, i: int, nbytes: int) -> (
    Seq<char>,
    bool,
) {
    let out = out.push(char_upper_first(c));
    if i == 4 && c != 's' && c != 'S' {
        (out.push(' '), true)
    } else if (i + 1) % 2 == 0 && i + 1 != nbytes && !upper {
        (out.push(' '), upper)
    } else {
        (out, upper)
    }
}

/// The output, and the above-ground flag, after the first `n` characters of
/// `command` have been formatted.
pub open spec fn packed_prefix(command: Seq<char>, nbytes: int, n: nat) -> (Seq<char>, bool)
    decreases n,
{
    if n == 0 {
        (seq![], false)
    } else {
        let prev = packed_prefix(command, nbytes, (n - 1) as nat);
        packed_step(prev.0, prev.1, command[n - 1], n - 1, nbytes)
    }
}

/// The byte length of `command` in UTF-8, as `str::len` returns it.
pub open spec fn byte_len(command: Seq<char>) -> int {
    (encode_utf8(command).len() as usize) as int
}

/// A location typed without spaces, before trimming.
pub open spec fn packed_entry(command: Seq<char>) -> Seq<char> {
    packed_prefix(command, byte_len(command), command.len()).0
}

/// The upper-cased piece followed by a space, if `pattern` is found in it.
pub open spec fn piece_entry(piece: Seq<char>, pattern: Seq<char>) -> Seq<char> {
    if regex_finds(pattern, piece) {
        str_upper(piece).push(' ')
    } else {
        seq![]
    }
}

/// What one piece of a spaced location contributes: once for every piece
/// pattern found in it.
pub open spec fn piece_entries(piece: Seq<char>) -> Seq<char> {
    piece_entry(piece, AISLE_PIECE@) + piece_entry(piece, NUMBER_PIECE@) + piece_entry(
        piece,
        SHELF_PIECE@,
    ) + piece_entry(piece, LETTER_PIECE@)
}

/// What a sequence of pieces contributes, in order.
pub open spec fn pieces_entries(pieces: Seq<Seq<char>>) -> Seq<char>
    decreases pieces.len(),
{
    if pieces.len() == 0 {
        seq![]
    } else {
        pieces_entries(pieces.drop_last()) + piece_entries(pieces.last())
    }
}

/// The ASCII upper-cased piece followed by a space, if `pattern` is found in
/// it.
pub open spec fn ascii_piece_entry(piece: Seq<char>, pattern: Seq<char>) -> Seq<char> {
    if regex_finds(pattern, piece) {
        piece.map_values(|c: char| ascii_upper(c)).push(' ')
    } else {
        seq![]
    }
}

/// What one ASCII piece of a spaced location contributes.
pub open spec fn ascii_piece_entries(piece: Seq<char>) -> Seq<char> {
    ascii_piece_entry(piece, AISLE_PIECE@) + ascii_piece_entry(piece, NUMBER_PIECE@)
        + ascii_piece_entry(piece, SHELF_PIECE@) + ascii_piece_entry(piece, LETTER_PIECE@)
}

/// What a sequence of ASCII pieces contributes, in order.
pub open spec fn ascii_pieces_entries(pieces: Seq<Seq<char>>) -> Seq<char>
    decreases pieces.len(),
{
    if pieces.len() == 0 {
        seq![]
    } else {
        ascii_pieces_entries(pieces.drop_last()) + ascii_piece_entries(pieces.last())
    }
}

/// The normalised form of a typed location.
pub open spec fn entry_format(command: Seq<char>) -> Seq<char> {
    if command.contains(' ') {
        trimmed(pieces_entries(split_spaces(command)))
    } else {
        trimmed(packed_entry(command))
    }
}

/// An ASCII letter or digit.
pub open spec fn is_ascii_alphanumeric(c: char) -> bool {
    ('0' <= c && c <= '9') || ('a' <= c && c <= 'z') || ('A' <= c && c <= 'Z')
}

/// A location typed without spaces, in ASCII letters and digits only.
pub open spec fn is_plain_packed(command: Seq<char>) -> bool {
    &&& !command.contains(' ')
    &&& forall|k: int| 0 <= k < command.len() ==> is_ascii_alphanumeric(#[trigger] command[k])
}

/// The upper-case mapping agrees with the ASCII one on the ASCII characters
/// among the first `n` of `command`.
pub open spec fn upper_agrees(command: Seq<char>, n: int) -> bool {
    forall|k: int|
        0 <= k < n && (command[k] as u32) < 128 ==> #[trigger] char_upper_first(command[k])
            == ascii_upper(command[k])
}

/// An ASCII character that is not a lower-case letter.
pub open spec fn upper_ascii_char(c: char) -> bool {
    '\0' <= c && c <= '\u{7f}' && !('a' <= c && c <= 'z')
}

/// Whether some piece pattern is found in `piece`.
pub open spec fn some_piece_pattern(piece: Seq<char>) -> bool {
    ||| regex_finds(AISLE_PIECE@, piece)
    ||| regex_finds(NUMBER_PIECE@, piece)
    ||| regex_finds(SHELF_PIECE@, piece)
    ||| regex_finds(LETTER_PIECE@, piece)
}

/// Whether exactly one piece pattern is found in `piece`.
pub open spec fn one_piece_pattern(piece: Seq<char>) -> bool {
    (if regex_finds(AISLE_PIECE@, piece) { 1int } else { 0int }) + (if regex_finds(
        NUMBER_PIECE@,
        piece,
    ) {
        1int
    } else {
        0int
    }) + (if regex_finds(SHELF_PIECE@, piece) { 1int } else { 0int }) + (if regex_finds(
        LETTER_PIECE@,
        piece,
    ) {
        1int
    } else {
        0int
    }) == 1
}

/// A location in normalised form: parts separated by spaces, no white
/// space at either end, ASCII without lower-case letters, and each part
/// found by exactly one of the part patterns.
pub open spec fn is_normalised_location(location: Seq<char>) -> bool {
    &&& location.contains(' ')
    &&& trimmed(location) == location
    &&& forall|i: int| 0 <= i < location.len() ==> upper_ascii_char(#[trigger] location[i])
    &&& forall|k: int| 0 <= k < split_spaces(location).len() ==> one_piece_pattern(
        #[trigger] split_spaces(location)[k],
    )
}

/// The upper-case mapping of `piece` is the ASCII one, as far as it was
/// computed: when some piece pattern is found in an ASCII piece.
pub open spec fn piece_upper_known(piece: Seq<char>) -> bool {
    some_piece_pattern(piece) && is_ascii_chars(piece) ==> str_upper(piece) == piece.map_values(
        |c: char| ascii_upper(c),
    )
}

/// The number of rows that carry a barcode.
pub open spec fn barcode_count(rows: Seq<StorageBin>) -> nat
    decreases rows.len(),
{
    if rows.len() == 0 {
        0
    } else {
        barcode_count(rows.drop_last()) + if rows.last().barcode is Some {
            1nat
        } else {
            0nat
        }
    }
}

/// A storage bin, or a row of stock at a storage bin location.
#[derive(Debug, PartialEq, Eq)]
pub struct StorageBin {
    pub barcode: Option<u64>,
    pub location: String,
    pub description: Option<String>,
    pub material_number: Option<u64>,
    pub quantity: Option<u64>,
}

/// Why a typed storage bin location was refused.
#[derive(Debug, Clone, Copy, PartialEq, Eq)]
pub enum BinFormatError {
    /// The text matches none of the accepted location forms.
    InvalidFormat,
}

impl BinFormatError {
    /// The message shown for this error.
    pub fn message(&self) -> (r: String)
        ensures
            r@ == INVALID_BIN_FORMAT@,
    {
        INVALID_BIN_FORMAT.to_string()
    }
}

/// What a location search shows.
#[derive(Debug, PartialEq, Eq)]
pub enum StockReport {
    /// The location does not exist.
    Missing,
    /// The location exists; `count` of its rows carry a barcode, and the rows
    /// in `shown` are listed (all of them when there is a product, none
    /// otherwise).
    Found { count: usize, shown: Vec<StorageBin> },
}

/// The outcome of validating `command`: an empty bin at the normalised
/// location when it holds one of the accepted forms, the format error
/// otherwise. A location already in normalised form is kept as it is.
pub open spec fn validated(command: Seq<char>, r: Result<StorageBin, BinFormatError>) -> bool {
    &&& is_storage_bin_format(command) <==> r is Ok
    &&& r matches Ok(b) ==> {
        &&& b.location@ == entry_format(command)
        &&& b.barcode is None
        &&& b.description is None
        &&& b.material_number is None
        &&& b.quantity is None
    }
    &&& r matches Err(e) ==> e == BinFormatError::InvalidFormat
    &&& r matches Ok(b) ==> (is_normalised_location(command) ==> b.location@ == command)
}

/// Whether `pattern` compiles.
fn compiles(pattern: &str) -> (r: bool)
    ensures
        r == regex_compiles(pattern@),
{
    find_pattern(pattern, "").is_some()
}

/// Whether `pattern` is found in `text`.
fn pattern_found(pattern: &str, text: &str) -> (r: bool)
    requires
        regex_compiles(pattern@),
    ensures
        r == regex_finds(pattern@, text@),
{
    match find_pattern(pattern, text) {
        Some(b) => b,
        None => false,
    }
}

/// Appends the upper-cased piece and a space to `out` if `pattern` is found
/// in the piece.
fn append_if_found(out: &mut String, piece: &str, pattern: &str)
    requires
        regex_compiles(pattern@),
    ensures
        final(out)@ == old(out)@ + piece_entry(piece@, pattern@),
        regex_finds(pattern@, piece@) && is_ascii_chars(piece@) ==> str_upper(piece@)
            == piece@.map_values(|c: char| ascii_upper(c)),
        is_ascii_chars(piece@) && (forall|i: int|
            0 <= i < old(out)@.len() ==> upper_ascii_char(#[trigger] old(out)@[i])) ==> forall|
            i: int,
        |
            0 <= i < final(out)@.len() ==> upper_ascii_char(#[trigger] final(out)@[i]),
{
    if pattern_found(pattern, piece) {
        let up = upper_string(piece);
        let ghost before = out@;
        out.append(up.as_str());
        push_char(out, ' ');
        assert(out@ =~= before + str_upper(piece@).push(' '));
        proof {
            if is_ascii_chars(piece@) {
                assert forall|i: int| 0 <= i < up@.len() implies upper_ascii_char(
                    #[trigger] up@[i],
                ) by {
                    assert(up@[i] == ascii_upper(piece@[i]));
                }
                if forall|i: int| 0 <= i < before.len() ==> upper_ascii_char(#[trigger] before[i]) {
                    assert forall|i: int| 0 <= i < out@.len() implies upper_ascii_char(
                        #[trigger] out@[i],
                    ) by {
                        if i < before.len() {
                            assert(out@[i] == before[i]);
                        } else if i < before.len() + up@.len() {
                            assert(out@[i] == up@[i - before.len()]);
                        }
                    }
                }
            }
        }
    } else {
        assert(old(out)@ + piece_entry(piece@, pattern@) =~= old(out)@);
    }
}

/// In a plain location, every character's upper-case form is an ASCII letter
/// or digit, so neither a space nor white space.
proof fn lemma_plain_upper(command: Seq<char>)
    requires
        is_plain_packed(command),
        upper_agrees(command, command.len() as int),
    ensures
        forall|k: int|
            0 <= k < command.len() ==> #[trigger] char_upper_first(command[k]) == ascii_upper(
                command[k],
            ) && !is_white_space(ascii_upper(command[k])) && ascii_upper(command[k]) != ' ',
{
    assert forall|k: int| 0 <= k < command.len() implies #[trigger] char_upper_first(command[k])
        == ascii_upper(command[k]) && !is_white_space(ascii_upper(command[k])) && ascii_upper(
        command[k],
    ) != ' ' by {
        let c = command[k];
        assert(is_ascii_alphanumeric(c));
        assert((c as u32) < 128);
    }
}

/// Formatting a plain location only upper-cases its characters and puts
/// spaces between them; white space in the output is only those spaces.
proof fn lemma_packed_prefix_shape(command: Seq<char>, nbytes: int, n: nat)
    requires
        n <= command.len(),
        forall|k: int|
            0 <= k < command.len() ==> !is_white_space(#[trigger] char_upper_first(command[k]))
                && char_upper_first(command[k]) != ' ',
    ensures
        without_spaces(packed_prefix(command, nbytes, n).0) == command.take(n as int).map_values(
            |c: char| char_upper_first(c),
        ),
        forall|i: int|
            0 <= i < packed_prefix(command, nbytes, n).0.len() && is_white_space(
                #[trigger] packed_prefix(command, nbytes, n).0[i],
            ) ==> packed_prefix(command, nbytes, n).0[i] == ' ',
    decreases n,
{
    if n > 0 {
        let m = (n - 1) as nat;
        lemma_packed_prefix_shape(command, nbytes, m);
        let prev = packed_prefix(command, nbytes, m);
        let c = command[m as int];
        let u = char_upper_first(c);
        let out = prev.0.push(u);
        assert(out.drop_last() =~= prev.0);
        assert(without_spaces(out) == without_spaces(prev.0).push(u));
        assert(out.push(' ').drop_last() =~= out);
        assert(without_spaces(out.push(' ')) == without_spaces(out));
        assert(command.take(n as int).map_values(|c: char| char_upper_first(c)) =~= command.take(
            m as int,
        ).map_values(|c: char| char_upper_first(c)).push(u));
        let cur = packed_prefix(command, nbytes, n).0;
        assert forall|i: int| 0 <= i < cur.len() && is_white_space(#[trigger] cur[i]) implies cur[i]
            == ' ' by {
            if i < prev.0.len() {
                assert(cur[i] == prev.0[i]);
            } else if i == prev.0.len() {
                assert(cur[i] == u);
            }
        }
    }
}

/// A location typed without spaces in ASCII letters and digits comes out as
/// the same characters, upper-cased, with only spaces put between them.
proof fn lemma_plain_packed_without_spaces(command: Seq<char>, nbytes: int)
    requires
        is_plain_packed(command),
        upper_agrees(command, command.len() as int),
        nbytes == byte_len(command),
    ensures
        without_spaces(trimmed(packed_entry(command))) == command.map_values(
            |c: char| ascii_upper(c),
        ),
{
    lemma_plain_upper(command);
    lemma_packed_prefix_shape(command, nbytes, command.len());
    let out = packed_entry(command);
    lemma_trimmed_without_spaces(out);
    assert(command.take(command.len() as int) =~= command);
    assert(command.map_values(|c: char| char_upper_first(c)) =~= command.map_values(
        |c: char| ascii_upper(c),
    ));
}

/// A normalised location neither starts nor ends with white space.
pub proof fn lemma_entry_format_edges(command: Seq<char>)
    ensures
        entry_format(command).len() > 0 ==> !is_white_space(entry_format(command)[0])
            && !is_white_space(entry_format(command).last()),
{
    if command.contains(' ') {
        lemma_trimmed_edges(pieces_entries(split_spaces(command)));
    } else {
        lemma_trimmed_edges(packed_entry(command));
    }
}


/// In an ASCII location typed without spaces, every character of the output
/// is ASCII and not a lower-case letter.
proof fn lemma_ascii_packed_chars(command: Seq<char>, nbytes: int)
    requires
        is_ascii_chars(command),
        upper_agrees(command, command.len() as int),
    ensures
        forall|i: int|
            0 <= i < trimmed(packed_entry(command)).len() ==> upper_ascii_char(
                #[trigger] trimmed(packed_entry(command))[i],
            ),
{
    assert forall|k: int| 0 <= k < command.len() implies upper_ascii_char(
        #[trigger] char_upper_first(command[k]),
    ) by {
        assert('\0' <= command[k] && command[k] <= '\u{7f}');
        assert(char_upper_first(command[k]) == ascii_upper(command[k]));
    }
    lemma_packed_chars(command, byte_len(command), command.len());
    lemma_trimmed_chars(packed_entry(command), |c: char| upper_ascii_char(c));
}

/// Every character of a packed output is a space or the upper-case form of
/// an input character; so a property of those holds of the whole output.
proof fn lemma_packed_chars(command: Seq<char>, nbytes: int, n: nat)
    requires
        n <= command.len(),
        forall|k: int| 0 <= k < command.len() ==> upper_ascii_char(
            #[trigger] char_upper_first(command[k]),
        ),
    ensures
        forall|i: int|
            0 <= i < packed_prefix(command, nbytes, n).0.len() ==> upper_ascii_char(
                #[trigger] packed_prefix(command, nbytes, n).0[i],
            ),
    decreases n,
{
    if n > 0 {
        let m = (n - 1) as nat;
        lemma_packed_chars(command, nbytes, m);
        let prev = packed_prefix(command, nbytes, m).0;
        let cur = packed_prefix(command, nbytes, n).0;
        let u = char_upper_first(command[m as int]);
        assert(upper_ascii_char(u));
        assert forall|i: int| 0 <= i < cur.len() implies upper_ascii_char(#[trigger] cur[i]) by {
            if i < prev.len() {
                assert(cur[i] == prev[i]);
            } else if i == prev.len() {
                assert(cur[i] == u);
            } else {
                assert(cur[i] == ' ');
            }
        }
    }
}

/// The two packed forms of a location: eight characters with an `s` fifth
/// (ground level) come out as `XX NN SN NN`; seven characters with another
/// fifth character (above ground) come out as `XX NN L NN`.
proof fn lemma_plain_packed_forms(command: Seq<char>, nbytes: int)
    requires
        is_plain_packed(command),
        upper_agrees(command, command.len() as int),
        nbytes == byte_len(command),
    ensures
        command.len() == 8 && (command[4] == 's' || command[4] == 'S') ==> trimmed(
            packed_entry(command),
        ) == seq![
            ascii_upper(command[0]),
            ascii_upper(command[1]),
            ' ',
            ascii_upper(command[2]),
            ascii_upper(command[3]),
            ' ',
            ascii_upper(command[4]),
            ascii_upper(command[5]),
            ' ',
            ascii_upper(command[6]),
            ascii_upper(command[7]),
        ],
        command.len() == 7 && command[4] != 's' && command[4] != 'S' ==> trimmed(
            packed_entry(command),
        ) == seq![
            ascii_upper(command[0]),
            ascii_upper(command[1]),
            ' ',
            ascii_upper(command[2]),
            ascii_upper(command[3]),
            ' ',
            ascii_upper(command[4]),
            ' ',
            ascii_upper(command[5]),
            ascii_upper(command[6]),
        ],
{
    lemma_plain_upper(command);
    assert(is_ascii_chars(command)) by {
        assert forall|i: int| 0 <= i < command.len() implies '\0' <= #[trigger] command[i]
            && command[i] <= '\u{7f}' by {
            assert(is_ascii_alphanumeric(command[i]));
        }
    }
    is_ascii_chars_encode_utf8(command);
    let u = |k: int| char_upper_first(command[k]);
    let p1 = packed_prefix(command, nbytes, 1).0;
    let p2 = packed_prefix(command, nbytes, 2).0;
    let p3 = packed_prefix(command, nbytes, 3).0;
    let p4 = packed_prefix(command, nbytes, 4).0;
    let p5 = packed_prefix(command, nbytes, 5);
    let p6 = packed_prefix(command, nbytes, 6).0;
    let p7 = packed_prefix(command, nbytes, 7).0;
    assert(packed_prefix(command, nbytes, 0) == (Seq::<char>::empty(), false));
    assert(p1 == seq![u(0)]);
    if command.len() == 8 && (command[4] == 's' || command[4] == 'S') {
        assert(nbytes == 8);
        assert(p2 == seq![u(0), u(1), ' ']);
        assert(p3 == seq![u(0), u(1), ' ', u(2)]);
        assert(p4 == seq![u(0), u(1), ' ', u(2), u(3), ' ']);
        assert(p5 == (seq![u(0), u(1), ' ', u(2), u(3), ' ', u(4)], false));
        assert(p6 == seq![u(0), u(1), ' ', u(2), u(3), ' ', u(4), u(5), ' ']);
        assert(p7 == seq![u(0), u(1), ' ', u(2), u(3), ' ', u(4), u(5), ' ', u(6)]);
        let out = packed_entry(command);
        assert(out == seq![u(0), u(1), ' ', u(2), u(3), ' ', u(4), u(5), ' ', u(6), u(7)]);
        lemma_trimmed_fixed(out);
    }
    if command.len() == 7 && command[4] != 's' && command[4] != 'S' {
        assert(nbytes == 7);
        assert(p2 == seq![u(0), u(1), ' ']);
        assert(p3 == seq![u(0), u(1), ' ', u(2)]);
        assert(p4 == seq![u(0), u(1), ' ', u(2), u(3), ' ']);
        assert(p5 == (seq![u(0), u(1), ' ', u(2), u(3), ' ', u(4), ' '], true));
        assert(p6 == seq![u(0), u(1), ' ', u(2), u(3), ' ', u(4), ' ', u(5)]);
        let out = packed_entry(command);
        assert(out == seq![u(0), u(1), ' ', u(2), u(3), ' ', u(4), ' ', u(5), u(6)]);
        lemma_trimmed_fixed(out);
    }
}

/// When every piece contributes itself and a space, the pieces contribute
/// their join followed by a space.
proof fn lemma_pieces_entries_join(pieces: Seq<Seq<char>>)
    requires
        pieces.len() >= 1,
        forall|k: int| 0 <= k < pieces.len() ==> piece_entries(#[trigger] pieces[k]) == pieces[k].push(
            ' ',
        ),
    ensures
        pieces_entries(pieces) == join_spaces(pieces).push(' '),
    decreases pieces.len(),
{
    let last = pieces.last();
    assert(piece_entries(pieces[pieces.len() - 1]) == last.push(' '));
    assert(pieces_entries(pieces) == pieces_entries(pieces.drop_last()) + piece_entries(last));
    if pieces.len() == 1 {
        assert(pieces.drop_last() =~= Seq::<Seq<char>>::empty());
        assert(pieces_entries(pieces.drop_last()) == Seq::<char>::empty());
        assert(Seq::<char>::empty() + last.push(' ') =~= last.push(' '));
        assert(join_spaces(pieces) == pieces[0]);
    } else {
        assert(join_spaces(pieces) == join_spaces(pieces.drop_last()) + seq![' '] + last);
        let front = pieces.drop_last();
        assert forall|k: int| 0 <= k < front.len() implies piece_entries(#[trigger] front[k])
            == front[k].push(' ') by {
            assert(front[k] == pieces[k]);
        }
        lemma_pieces_entries_join(front);
        assert(join_spaces(front).push(' ') + last.push(' ') =~= (join_spaces(front) + seq![' ']
            + last).push(' '));
    }
}

/// A location in normalised form is formatted to itself, once the upper-case
/// mapping of its pieces is known to be the ASCII one.
proof fn lemma_normalised_entries(location: Seq<char>)
    requires
        is_normalised_location(location),
        forall|j: int| 0 <= j < split_spaces(location).len() ==> piece_upper_known(
            #[trigger] split_spaces(location)[j],
        ),
    ensures
        trimmed(pieces_entries(split_spaces(location))) == location,
{
    let pieces = split_spaces(location);
    lemma_split_rejoins(location);
    lemma_split_chars(location, |c: char| upper_ascii_char(c));
    assert forall|k: int| 0 <= k < pieces.len() implies piece_entries(#[trigger] pieces[k])
        == pieces[k].push(' ') by {
        let p = pieces[k];
        assert(one_piece_pattern(p));
        assert(piece_upper_known(p));
        assert(is_ascii_chars(p)) by {
            assert forall|j: int| 0 <= j < p.len() implies '\0' <= #[trigger] p[j] && p[j]
                <= '\u{7f}' by {
                assert(upper_ascii_char(pieces[k][j]));
            }
        }
        assert(str_upper(p) =~= p) by {
            assert forall|j: int| 0 <= j < p.len() implies #[trigger] str_upper(p)[j] == p[j] by {
                assert(upper_ascii_char(pieces[k][j]));
            }
        }
        assert(piece_entries(p) =~= p.push(' '));
    }
    lemma_pieces_entries_join(pieces);
    assert(location.len() > 0);
    lemma_trimmed_push_space(location);
}


/// Where the upper-case mapping of ASCII pieces is known to be the ASCII
/// one, the pieces contribute their ASCII upper-cased forms.
proof fn lemma_ascii_pieces_entries(pieces: Seq<Seq<char>>)
    requires
        forall|k: int| 0 <= k < pieces.len() ==> is_ascii_chars(#[trigger] pieces[k]),
        forall|k: int| 0 <= k < pieces.len() ==> piece_upper_known(#[trigger] pieces[k]),
    ensures
        pieces_entries(pieces) == ascii_pieces_entries(pieces),
    decreases pieces.len(),
{
    if pieces.len() > 0 {
        let front = pieces.drop_last();
        assert forall|k: int| 0 <= k < front.len() implies is_ascii_chars(#[trigger] front[k])
            && piece_upper_known(front[k]) by {
            assert(front[k] == pieces[k]);
        }
        lemma_ascii_pieces_entries(front);
        let p = pieces.last();
        assert(is_ascii_chars(pieces[pieces.len() - 1]));
        assert(piece_upper_known(pieces[pieces.len() - 1]));
        assert(piece_entries(p) == ascii_piece_entries(p));
    }
}


/// Counting products counts exactly the rows that carry a barcode: no rows
/// make no product, and one more row adds one product exactly when it has a
/// barcode, whatever its other fields hold.
pub proof fn product_count_adds_rows_with_barcodes(rows: Seq<StorageBin>, row: StorageBin)
    ensures
        barcode_count(Seq::<StorageBin>::empty()) == 0,
        barcode_count(rows.push(row)) == barcode_count(rows) + (if row.barcode is Some {
            1int
        } else {
            0int
        }),
        barcode_count(rows) <= rows.len(),
{
    assert(rows.push(row).drop_last() =~= rows);
    lemma_barcode_count_filter(rows);
}

/// The number of rows with a barcode is the length of the rows filtered on
/// having one.
proof fn lemma_barcode_count_filter(rows: Seq<StorageBin>)
    ensures
        barcode_count(rows) == rows.filter(|row: StorageBin| row.barcode is Some).len(),
        barcode_count(rows) <= rows.len(),
    decreases rows.len(),
{
    reveal(Seq::filter);
    if rows.len() > 0 {
        lemma_barcode_count_filter(rows.drop_last());
    }
}

/// The four location forms are these patterns, letter for letter.
pub proof fn location_patterns_are_fixed()
    ensures
        GROUND_SPACED@ == "[Aa]+[A-zZ]\\s[0-9]+\\s[Ss][12]\\s0[12]"@,
        GROUND_PACKED@ == "[Aa]+[A-zZ][0-9]+[Ss][12]0[12]"@,
        UPPER_SPACED@ == "[Aa]+[A-zZ]\\s[0-9]+\\s[A-zZ]\\s0[12]"@,
        UPPER_PACKED@ == "[Aa]+[A-zZ][0-9]+[A-zZ]0[12]"@,
        AISLE_PIECE@ == "[Aa]+[A-zZ]"@,
        NUMBER_PIECE@ == "0+[0-9]"@,
        SHELF_PIECE@ == "[Ss]+[0-3]"@,
        LETTER_PIECE@ == "^[A-zZ]$"@,
{
}

/// A text is a storage bin location exactly when one of the four location
/// patterns is found in it.
pub proof fn storage_bin_format_is_any_location_pattern(command: Seq<char>)
    ensures
        is_storage_bin_format(command) <==> regex_finds(GROUND_SPACED@, command) || regex_finds(
            GROUND_PACKED@,
            command,
        ) || regex_finds(UPPER_SPACED@, command) || regex_finds(UPPER_PACKED@, command),
{
}

impl StorageBin {
    /// An empty storage bin at `bin_location`.
    pub fn new(bin_location: String) -> (b: StorageBin)
        ensures
            b.location@ == bin_location@,
            b.barcode is None,
            b.description is None,
            b.material_number is None,
            b.quantity is None,
    {
        StorageBin {
            barcode: None,
            location: bin_location,
            description: None,
            material_number: None,
            quantity: None,
        }
    }

    /// Adding a product to a bin is not implemented: the bin is left as it is.
    pub fn add_product(&mut self, barcode: u64, quantity: i32)
        ensures
            *final(self) == *old(self),
    {
    }

    /// Removing a product from a bin is not implemented: the bin is left as it is.
    pub fn remove_product(&mut self, barcode: u64, quantity: i32)
        ensures
            *final(self) == *old(self),
    {
    }

    /// Moving a product between bins is not implemented: the bin is left as it is.
    pub fn move_product(&mut self, barcode: u64, quantity: i32)
        ensures
            *final(self) == *old(self),
    {
    }

    /// Checks a typed storage bin location and, when it holds one of the
    /// accepted forms, gives an empty bin at its normalised location.
    pub fn validate_storage_bin(command: &str) -> (r: Result<StorageBin, BinFormatError>)
        requires
            patterns_compile(),
        ensures
            validated(command@, r),
            regex_finds(GROUND_SPACED@, command@) || regex_finds(GROUND_PACKED@, command@)
                || regex_finds(UPPER_SPACED@, command@) || regex_finds(UPPER_PACKED@, command@)
                <==> r is Ok,
            r matches Ok(b) ==> b.location@ == entry_format(command@) && b.barcode is None
                && b.description is None && b.material_number is None && b.quantity is None,
    {
        if pattern_found(GROUND_SPACED, command) || pattern_found(GROUND_PACKED, command)
            || pattern_found(UPPER_SPACED, command) || pattern_found(UPPER_PACKED, command) {
            Ok(StorageBin::new(StorageBin::storage_bin_entry_format(command)))
        } else {
            Err(BinFormatError::InvalidFormat)
        }
    }

    /// Checks a typed storage bin location like `validate_storage_bin`, after
    /// checking that the location patterns compile; `None` when one does not.
    pub fn try_validate_storage_bin(command: &str) -> (r: Option<Result<StorageBin, BinFormatError>>)
        ensures
            r is None <==> !patterns_compile(),
            r matches Some(res) ==> validated(command@, res),
            r matches Some(res) ==> (regex_finds(GROUND_SPACED@, command@) || regex_finds(
                GROUND_PACKED@,
                command@,
            ) || regex_finds(UPPER_SPACED@, command@) || regex_finds(UPPER_PACKED@, command@)
                <==> res is Ok),
    {
        if compiles(GROUND_SPACED) && compiles(GROUND_PACKED) && compiles(UPPER_SPACED) && compiles(
            UPPER_PACKED,
        ) && compiles(AISLE_PIECE) && compiles(NUMBER_PIECE) && compiles(SHELF_PIECE) && compiles(
            LETTER_PIECE,
        ) {
            Some(StorageBin::validate_storage_bin(command))
        } else {
            None
        }
    }

    /// Normalises a typed storage bin location: upper case, with its parts
    /// separated by single spaces.
    pub fn storage_bin_entry_format(command: &str) -> (r: String)
        requires
            patterns_compile(),
        ensures
            r@ == entry_format(command@),
            is_plain_packed(command@) ==> without_spaces(r@) == command@.map_values(
                |c: char| ascii_upper(c),
            ),
            is_ascii_chars(command@) ==> forall|i: int|
                0 <= i < r@.len() ==> upper_ascii_char(#[trigger] r@[i]),
            is_plain_packed(command@) && command@.len() == 8 && (command@[4] == 's'
                || command@[4] == 'S') ==> r@ == seq![
                ascii_upper(command@[0]),
                ascii_upper(command@[1]),
                ' ',
                ascii_upper(command@[2]),
                ascii_upper(command@[3]),
                ' ',
                ascii_upper(command@[4]),
                ascii_upper(command@[5]),
                ' ',
                ascii_upper(command@[6]),
                ascii_upper(command@[7]),
            ],
            is_plain_packed(command@) && command@.len() == 7 && command@[4] != 's'
                && command@[4] != 'S' ==> r@ == seq![
                ascii_upper(command@[0]),
                ascii_upper(command@[1]),
                ' ',
                ascii_upper(command@[2]),
                ascii_upper(command@[3]),
                ' ',
                ascii_upper(command@[4]),
                ' ',
                ascii_upper(command@[5]),
                ascii_upper(command@[6]),
            ],
            is_normalised_location(command@) ==> r@ == command@,
            command@.contains(' ') && is_ascii_chars(command@) ==> r@ == trimmed(
                ascii_pieces_entries(split_spaces(command@)),
            ),
    {
        let v = chars_of(command);
        if !has_space(&v) {
            let nbytes = command.len();
            let mut out = String::new();
            let mut upper = false;
            let mut i: usize = 0;
            while i < v.len()
                invariant
                    v@ == command@,
                    nbytes as int == byte_len(command@),
                    i <= v@.len(),
                    (out@, upper) == packed_prefix(command@, nbytes as int, i as nat),
                    upper_agrees(command@, i as int),
                decreases v@.len() - i,
            {
                let c = v[i];
                let u = upper_first(c);
                assert(upper_agrees(command@, i + 1)) by {
                    assert(command@[i as int] == c);
                }
                push_char(&mut out, u);
                if i == 4 && c != 's' && c != 'S' {
                    push_char(&mut out, ' ');
                    upper = true;
                } else if (i + 1) % 2 == 0 && i + 1 != nbytes && !upper {
                    push_char(&mut out, ' ');
                }
                i = i + 1;
            }
            proof {
                if is_plain_packed(command@) {
                    lemma_plain_packed_without_spaces(command@, nbytes as int);
                    lemma_plain_packed_forms(command@, nbytes as int);
                }
                if is_ascii_chars(command@) {
                    lemma_ascii_packed_chars(command@, nbytes as int);
                }
                assert(!is_normalised_location(command@));
            }
            trim(out.as_str())
        } else {
            let pieces = split_on_space(command);
            proof {
                if is_ascii_chars(command@) {
                    lemma_split_chars(command@, |c: char| '\0' <= c && c <= '\u{7f}');
                }
            }
            let mut out = String::new();
            let mut k: usize = 0;
            while k < pieces.len()
                invariant
                    patterns_compile(),
                    k <= pieces@.len(),
                    views(pieces@) == split_spaces(command@),
                    out@ == pieces_entries(views(pieces@).take(k as int)),
                    is_ascii_chars(command@) ==> forall|j: int|
                        0 <= j < pieces@.len() ==> is_ascii_chars(#[trigger] views(pieces@)[j]),
                    is_ascii_chars(command@) ==> forall|i: int|
                        0 <= i < out@.len() ==> upper_ascii_char(#[trigger] out@[i]),
                    forall|j: int| 0 <= j < k ==> piece_upper_known(#[trigger] views(pieces@)[j]),
                decreases pieces@.len() - k,
            {
                let piece = pieces[k].as_str();
                proof {
                    if is_ascii_chars(command@) {
                        assert(is_ascii_chars(views(pieces@)[k as int]));
                    }
                }
                append_if_found(&mut out, piece, AISLE_PIECE);
                append_if_found(&mut out, piece, NUMBER_PIECE);
                append_if_found(&mut out, piece, SHELF_PIECE);
                append_if_found(&mut out, piece, LETTER_PIECE);
                assert(views(pieces@).take(k + 1).drop_last() =~= views(pieces@).take(k as int));
                assert(views(pieces@)[k as int] == pieces@[k as int]@);
                assert(piece_upper_known(views(pieces@)[k as int]));
                k = k + 1;
            }
            assert(views(pieces@).take(pieces@.len() as int) =~= views(pieces@));
            proof {
                if is_ascii_chars(command@) {
                    lemma_trimmed_chars(out@, |c: char| upper_ascii_char(c));
                }
                if is_normalised_location(command@) {
                    lemma_normalised_entries(command@);
                }
                if is_ascii_chars(command@) {
                    lemma_ascii_pieces_entries(split_spaces(command@));
                }
            }
            trim(out.as_str())
        }
    }

    /// The number of rows that carry a barcode.
    pub fn product_count(rows: &Vec<StorageBin>) -> (n: usize)
        ensures
            n == barcode_count(rows@),
            n == rows@.filter(|row: StorageBin| row.barcode is Some).len(),
    {
        let mut n: usize = 0;
        let mut i: usize = 0;
        while i < rows.len()
            invariant
                i <= rows@.len(),
                n == barcode_count(rows@.take(i as int)),
                n <= i,
            decreases rows@.len() - i,
        {
            assert(rows@.take(i + 1).drop_last() =~= rows@.take(i as int));
            if rows[i].barcode.is_some() {
                n = n + 1;
            }
            i = i + 1;
        }
        assert(rows@.take(rows@.len() as int) =~= rows@);
        proof {
            lemma_barcode_count_filter(rows@);
        }
        n
    }

    /// What a search of a location shows: nothing found, or the number of
    /// products there and the rows to list.
    pub fn stock_report(found: Option<Vec<StorageBin>>) -> (r: StockReport)
        ensures
            found is None ==> r == StockReport::Missing,
            found matches Some(rows) ==> r matches StockReport::Found { count, shown } && count
                == barcode_count(rows@) && count == rows@.filter(
                |row: StorageBin| row.barcode is Some,
            ).len() && shown@ == (if count >= 1 {
                rows@
            } else {
                Seq::<StorageBin>::empty()
            }),
    {
        match found {
            None => StockReport::Missing,
            Some(rows) => {
                let count = StorageBin::product_count(&rows);
                if count >= 1 {
                    StockReport::Found { count, shown: rows }
                } else {
                    StockReport::Found { count, shown: Vec::new() }
                }
            },
        }
    }
}

} // verus!
