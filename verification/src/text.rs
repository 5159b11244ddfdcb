//! Character-level text handling: whitespace trimming, splitting on spaces,
//! and the Unicode upper-case mappings that the storage-bin formatter uses.
use vstd::prelude::*;
use vstd::string::*;
use vstd::utf8::is_ascii_chars;

verus! {

/// The characters with the Unicode `White_Space` property, which is what
/// `char::is_whitespace` (and therefore `str::trim`) tests for.
pub open spec fn is_white_space(c: char) -> bool {
    let u = c as u32;
    ||| 0x09 <= u <= 0x0D
    ||| u == 0x20
    ||| u == 0x85
    ||| u == 0xA0
    ||| u == 0x1680
    ||| 0x2000 <= u <= 0x200A
    ||| u == 0x2028
    ||| u == 0x2029
    ||| u == 0x202F
    ||| u == 0x205F
    ||| u == 0x3000
}

/// `s` without its leading white space.
pub open spec fn trim_start(s: Seq<char>) -> Seq<char>
    decreases s.len(),
{
    if s.len() > 0 && is_white_space(s[0]) {
        trim_start(s.drop_first())
    } else {
        s
    }
}

/// `s` without its trailing white space.
pub open spec fn trim_end(s: Seq<char>) -> Seq<char>
    decreases s.len(),
{
    if s.len() > 0 && is_white_space(s.last()) {
        trim_end(s.drop_last())
    } else {
        s
    }
}

/// `s` without leading and trailing white space, as `str::trim` gives it.
pub open spec fn trimmed(s: Seq<char>) -> Seq<char> {
    trim_end(trim_start(s))
}

/// Splitting `s` at every `' '`, where `cur` is the piece gathered so far.
pub open spec fn split_from(s: Seq<char>, cur: Seq<char>) -> Seq<Seq<char>>
    decreases s.len(),
{
    if s.len() == 0 {
        seq![cur]
    } else if s[0] == ' ' {
        seq![cur] + split_from(s.drop_first(), seq![])
    } else {
        split_from(s.drop_first(), cur.push(s[0]))
    }
}

/// The pieces of `s` between its `' '` characters, empty pieces included,
/// as `str::split(" ")` yields them.
pub open spec fn split_spaces(s: Seq<char>) -> Seq<Seq<char>> {
    split_from(s, seq![])
}

/// The views of a sequence of strings.
pub open spec fn views(v: Seq<String>) -> Seq<Seq<char>> {
    v.map_values(|p: String| p@)
}

/// ASCII upper case: `a`..=`z` to `A`..=`Z`, every other character unchanged.
pub open spec fn ascii_upper(c: char) -> char {
    if 'a' <= c && c <= 'z' {
        ((c as u32) - 32) as char
    } else {
        c
    }
}

/// The first character of the Unicode upper-case mapping of `c`.
pub uninterp spec fn char_upper_first(c: char) -> char;

/// The Unicode upper-case form of a string.
pub uninterp spec fn str_upper(s: Seq<char>) -> Seq<char>;

/// Calls `char::to_uppercase` and takes the first character that the
/// iterator yields (it always yields at least one). The contract names that
/// character and claims only the ASCII part of the mapping, which the Unicode
/// tables fix: `a`..=`z` become `A`..=`Z`, other ASCII characters stay as
/// they are.
#[verifier::external_body]
pub(crate) fn upper_first(c: char) -> (r: char)
    ensures
        r == char_upper_first(c),
        (c as u32) < 128 ==> r == ascii_upper(c),
{
    c.to_uppercase().next().unwrap()
}

/// Calls `str::to_uppercase`. The contract names the result and claims only
/// that an ASCII string is upper-cased character by character in the ASCII
/// way; the mapping of other characters is left to the name.
#[verifier::external_body]
pub(crate) fn upper_string(s: &str) -> (r: String)
    ensures
        r@ == str_upper(s@),
        is_ascii_chars(s@) ==> r@ == s@.map_values(|c: char| ascii_upper(c)),
{
    s.to_uppercase()
}

/// Calls `String::push`: appends one character.
#[verifier::external_body]
pub(crate) fn push_char(s: &mut String, c: char)
    ensures
        final(s)@ == old(s)@.push(c),
{
    s.push(c);
}

/// Whether `c` is white space.
pub fn is_whitespace(c: char) -> (r: bool)
    ensures
        r == is_white_space(c),
{
    let u: u32 = c as u32;
    (0x09 <= u && u <= 0x0D) || u == 0x20 || u == 0x85 || u == 0xA0 || u == 0x1680 || (0x2000
        <= u && u <= 0x200A) || u == 0x2028 || u == 0x2029 || u == 0x202F || u == 0x205F || u
        == 0x3000
}

/// The characters of a string slice, in order.
pub fn chars_of(s: &str) -> (v: Vec<char>)
    ensures
        v@ == s@,
{
    let n = s.unicode_len();
    let mut v: Vec<char> = Vec::new();
    let mut i: usize = 0;
    while i < n
        invariant
            n == s@.len(),
            i <= n,
            v@ == s@.take(i as int),
        decreases n - i,
    {
        let c = s.get_char(i);
        v.push(c);
        i = i + 1;
        assert(v@ =~= s@.take(i as int));
    }
    assert(v@ =~= s@);
    v
}

/// The string made of `v[from..to]`.
pub fn string_of(v: &Vec<char>, from: usize, to: usize) -> (r: String)
    requires
        from <= to <= v@.len(),
    ensures
        r@ == v@.subrange(from as int, to as int),
{
    let mut r = String::new();
    let mut i = from;
    while i < to
        invariant
            from <= i <= to <= v@.len(),
            r@ == v@.subrange(from as int, i as int),
        decreases to - i,
    {
        push_char(&mut r, v[i]);
        i = i + 1;
        assert(r@ =~= v@.subrange(from as int, i as int));
    }
    r
}

/// Whether `s` holds a `' '`.
pub fn has_space(s: &Vec<char>) -> (r: bool)
    ensures
        r == s@.contains(' '),
{
    let mut i: usize = 0;
    while i < s.len()
        invariant
            i <= s@.len(),
            forall|k: int| 0 <= k < i ==> s@[k] != ' ',
        decreases s@.len() - i,
    {
        if s[i] == ' ' {
            assert(s@[i as int] == ' ');
            return true;
        }
        i = i + 1;
    }
    false
}

/// `s` with leading and trailing white space removed.
pub fn trim(s: &str) -> (r: String)
    ensures
        r@ == trimmed(s@),
{
    let v = chars_of(s);
    let n = v.len();
    let mut i: usize = 0;
    assert(v@.skip(0) =~= v@);
    while i < n && is_whitespace(v[i])
        invariant
            i <= n == v@.len(),
            trim_start(v@) == trim_start(v@.skip(i as int)),
        decreases n - i,
    {
        assert(v@.skip(i as int).drop_first() =~= v@.skip(i + 1));
        i = i + 1;
    }
    assert(trim_start(v@) == v@.skip(i as int));
    let mut j: usize = n;
    assert(v@.skip(i as int) =~= v@.subrange(i as int, j as int));
    while j > i && is_whitespace(v[j - 1])
        invariant
            i <= j <= n == v@.len(),
            trim_end(v@.skip(i as int)) == trim_end(v@.subrange(i as int, j as int)),
        decreases j,
    {
        assert(v@.subrange(i as int, j as int).drop_last() =~= v@.subrange(i as int, j - 1));
        j = j - 1;
    }
    string_of(&v, i, j)
}

/// The pieces of `s` between its `' '` characters, as `str::split(" ")`
/// yields them.
pub fn split_on_space(s: &str) -> (pieces: Vec<String>)
    ensures
        views(pieces@) == split_spaces(s@),
{
    let v = chars_of(s);
    let n = v.len();
    let mut pieces: Vec<String> = Vec::new();
    let mut cur = String::new();
    let mut i: usize = 0;
    assert(v@.skip(0) =~= v@);
    assert(views(pieces@) =~= Seq::<Seq<char>>::empty());
    while i < n
        invariant
            i <= n == v@.len(),
            v@ == s@,
            views(pieces@) + split_from(v@.skip(i as int), cur@) == split_spaces(s@),
        decreases n - i,
    {
        let c = v[i];
        let ghost rest = v@.skip(i as int);
        assert(rest.drop_first() =~= v@.skip(i + 1));
        if c == ' ' {
            let ghost old_pieces = views(pieces@);
            let piece = cur;
            pieces.push(piece);
            cur = String::new();
            assert(views(pieces@) =~= old_pieces + seq![piece@]);
            assert(cur@ =~= Seq::<char>::empty());
        } else {
            push_char(&mut cur, c);
        }
        i = i + 1;
    }
    let ghost old_pieces = views(pieces@);
    let last = cur;
    pieces.push(last);
    assert(views(pieces@) =~= old_pieces + seq![last@]);
    pieces
}


/// Whether two strings hold the same characters.
pub fn same_text(a: &str, b: &str) -> (r: bool)
    ensures
        r == (a@ == b@),
{
    let va = chars_of(a);
    let vb = chars_of(b);
    if va.len() != vb.len() {
        return false;
    }
    let mut i: usize = 0;
    while i < va.len()
        invariant
            va@ == a@,
            vb@ == b@,
            va@.len() == vb@.len(),
            i <= va@.len(),
            forall|k: int| 0 <= k < i ==> va@[k] == vb@[k],
        decreases va@.len() - i,
    {
        if va[i] != vb[i] {
            return false;
        }
        i = i + 1;
    }
    assert(va@ =~= vb@);
    true
}

/// Trimming a trimmed text changes nothing.
pub proof fn lemma_trimmed_idempotent(s: Seq<char>)
    ensures
        trimmed(trimmed(s)) == trimmed(s),
{
    let y = trim_start(s);
    lemma_trim_start_first(s);
    lemma_trim_end_prefix(y);
    lemma_trim_end_last(y);
    lemma_trim_end_last(trimmed(s));
    let t = trim_end(y);
    if t.len() > 0 {
        assert(t[0] == y[0]);
        assert(trim_start(t) == t);
    }
    lemma_trim_end_fixed(t);
}

/// After `trim_start`, the text is empty or starts with a character that is
/// not white space.
pub proof fn lemma_trim_start_first(s: Seq<char>)
    ensures
        trim_start(s).len() > 0 ==> !is_white_space(trim_start(s)[0]),
    decreases s.len(),
{
    if s.len() > 0 && is_white_space(s[0]) {
        lemma_trim_start_first(s.drop_first());
    }
}

/// After `trim_end`, the text is empty or ends with a character that is not
/// white space.
pub proof fn lemma_trim_end_last(s: Seq<char>)
    ensures
        trim_end(s).len() > 0 ==> !is_white_space(trim_end(s).last()),
    decreases s.len(),
{
    if s.len() > 0 && is_white_space(s.last()) {
        lemma_trim_end_last(s.drop_last());
    }
}

/// `trim_end` keeps a prefix of the text.
pub proof fn lemma_trim_end_prefix(s: Seq<char>)
    ensures
        trim_end(s).len() <= s.len(),
        trim_end(s) == s.take(trim_end(s).len() as int),
    decreases s.len(),
{
    if s.len() > 0 && is_white_space(s.last()) {
        lemma_trim_end_prefix(s.drop_last());
        assert(s.drop_last().take(trim_end(s).len() as int) =~= s.take(trim_end(s).len() as int));
    } else {
        assert(s.take(s.len() as int) =~= s);
    }
}

/// A text that does not end in white space is its own `trim_end`.
proof fn lemma_trim_end_fixed(t: Seq<char>)
    requires
        t.len() > 0 ==> !is_white_space(t.last()),
    ensures
        trim_end(t) == t,
{
}


/// `s` with its `' '` characters taken out.
pub open spec fn without_spaces(s: Seq<char>) -> Seq<char>
    decreases s.len(),
{
    if s.len() == 0 {
        seq![]
    } else if s.last() == ' ' {
        without_spaces(s.drop_last())
    } else {
        without_spaces(s.drop_last()).push(s.last())
    }
}

/// Taking spaces out of a concatenation takes them out of each part.
pub proof fn lemma_without_spaces_concat(a: Seq<char>, b: Seq<char>)
    ensures
        without_spaces(a + b) == without_spaces(a) + without_spaces(b),
    decreases b.len(),
{
    if b.len() == 0 {
        assert(a + b =~= a);
        assert(without_spaces(a) + without_spaces(b) =~= without_spaces(a));
    } else {
        lemma_without_spaces_concat(a, b.drop_last());
        assert((a + b).drop_last() =~= a + b.drop_last());
        assert((a + b).last() == b.last());
        if b.last() != ' ' {
            assert(without_spaces(a) + without_spaces(b.drop_last()).push(b.last()) =~= (
            without_spaces(a) + without_spaces(b.drop_last())).push(b.last()));
        }
    }
}

/// A text made only of spaces has nothing left once they are taken out.
pub proof fn lemma_without_spaces_blank(s: Seq<char>)
    requires
        forall|i: int| 0 <= i < s.len() ==> s[i] == ' ',
    ensures
        without_spaces(s) == Seq::<char>::empty(),
    decreases s.len(),
{
    if s.len() > 0 {
        lemma_without_spaces_blank(s.drop_last());
    }
}

/// `trim_start` drops a prefix of white space.
pub proof fn lemma_trim_start_suffix(s: Seq<char>)
    ensures
        trim_start(s).len() <= s.len(),
        trim_start(s) == s.skip(s.len() - trim_start(s).len()),
        forall|i: int| 0 <= i < s.len() - trim_start(s).len() ==> is_white_space(#[trigger] s[i]),
    decreases s.len(),
{
    if s.len() > 0 && is_white_space(s[0]) {
        lemma_trim_start_suffix(s.drop_first());
        let t = trim_start(s);
        assert(s.drop_first().skip(s.drop_first().len() - t.len()) =~= s.skip(s.len() - t.len()));
        assert forall|i: int| 0 <= i < s.len() - t.len() implies is_white_space(#[trigger] s[i]) by {
            if i > 0 {
                assert(s[i] == s.drop_first()[i - 1]);
            }
        }
    } else {
        assert(s.skip(0) =~= s);
    }
}

/// `trim_end` drops a suffix of white space.
pub proof fn lemma_trim_end_dropped(s: Seq<char>)
    ensures
        forall|i: int| trim_end(s).len() <= i < s.len() ==> is_white_space(#[trigger] s[i]),
    decreases s.len(),
{
    lemma_trim_end_prefix(s);
    if s.len() > 0 && is_white_space(s.last()) {
        lemma_trim_end_dropped(s.drop_last());
        lemma_trim_end_prefix(s.drop_last());
        assert forall|i: int| trim_end(s).len() <= i < s.len() implies is_white_space(
            #[trigger] s[i],
        ) by {
            if i < s.len() - 1 {
                assert(s[i] == s.drop_last()[i]);
            }
        }
    }
}

/// When the only white space in a text is `' '`, trimming it takes out no
/// other character: the text without spaces stays the same.
pub proof fn lemma_trimmed_without_spaces(s: Seq<char>)
    requires
        forall|i: int| 0 <= i < s.len() && is_white_space(#[trigger] s[i]) ==> s[i] == ' ',
    ensures
        without_spaces(trimmed(s)) == without_spaces(s),
{
    let y = trim_start(s);
    lemma_trim_start_suffix(s);
    let j = s.len() - y.len();
    assert(s =~= s.take(j) + y);
    lemma_without_spaces_concat(s.take(j), y);
    lemma_without_spaces_blank(s.take(j));
    assert(without_spaces(s.take(j)) + without_spaces(y) =~= without_spaces(y));
    let t = trim_end(y);
    lemma_trim_end_prefix(y);
    lemma_trim_end_dropped(y);
    assert(y =~= t + y.skip(t.len() as int));
    lemma_without_spaces_concat(t, y.skip(t.len() as int));
    assert forall|i: int| 0 <= i < y.skip(t.len() as int).len() implies y.skip(
        t.len() as int,
    )[i] == ' ' by {
        assert(y.skip(t.len() as int)[i] == y[i + t.len()]);
        assert(y[i + t.len()] == s[i + t.len() + j]);
    }
    lemma_without_spaces_blank(y.skip(t.len() as int));
    assert(without_spaces(t) + without_spaces(y.skip(t.len() as int)) =~= without_spaces(t));
}

/// A trimmed text neither starts nor ends with white space.
pub proof fn lemma_trimmed_edges(s: Seq<char>)
    ensures
        trimmed(s).len() > 0 ==> !is_white_space(trimmed(s)[0]) && !is_white_space(
            trimmed(s).last(),
        ),
{
    let y = trim_start(s);
    lemma_trim_start_first(s);
    lemma_trim_end_prefix(y);
    lemma_trim_end_last(y);
    if trimmed(s).len() > 0 {
        assert(trimmed(s)[0] == y[0]);
    }
}


/// Pieces joined back together with a `' '` between each two.
pub open spec fn join_spaces(pieces: Seq<Seq<char>>) -> Seq<char>
    decreases pieces.len(),
{
    if pieces.len() == 0 {
        seq![]
    } else if pieces.len() == 1 {
        pieces[0]
    } else {
        join_spaces(pieces.drop_last()) + seq![' '] + pieces.last()
    }
}

/// Joining a piece in front of other pieces puts a space after it.
proof fn lemma_join_prepend(a: Seq<char>, rest: Seq<Seq<char>>)
    requires
        rest.len() >= 1,
    ensures
        join_spaces(seq![a] + rest) == a + seq![' '] + join_spaces(rest),
    decreases rest.len(),
{
    let all = seq![a] + rest;
    if rest.len() == 1 {
        assert(all.drop_last() =~= seq![a]);
        assert(all.last() == rest[0]);
        assert(join_spaces(seq![a]) == a);
        assert(join_spaces(rest) == rest[0]);
        assert(join_spaces(all) == join_spaces(all.drop_last()) + seq![' '] + all.last());
    } else {
        lemma_join_prepend(a, rest.drop_last());
        assert(all.drop_last() =~= seq![a] + rest.drop_last());
        assert(all.last() == rest.last());
        assert(join_spaces(all) == join_spaces(all.drop_last()) + seq![' '] + all.last());
        assert(join_spaces(rest) == join_spaces(rest.drop_last()) + seq![' '] + rest.last());
        assert(a + seq![' '] + join_spaces(rest.drop_last()) + seq![' '] + rest.last() =~= a
            + seq![' '] + (join_spaces(rest.drop_last()) + seq![' '] + rest.last()));
    }
}

/// Splitting from a piece `cur` gathered so far yields at least one piece,
/// none holding a space, and joins back to `cur` followed by the rest.
proof fn lemma_split_from_rejoins(s: Seq<char>, cur: Seq<char>)
    requires
        !cur.contains(' '),
    ensures
        split_from(s, cur).len() >= 1,
        join_spaces(split_from(s, cur)) == cur + s,
        forall|i: int| 0 <= i < split_from(s, cur).len() ==> !(#[trigger] split_from(s, cur)[i]).contains(' '),
    decreases s.len(),
{
    if s.len() == 0 {
        assert(cur + s =~= cur);
    } else if s[0] == ' ' {
        let rest = split_from(s.drop_first(), seq![]);
        assert(!Seq::<char>::empty().contains(' '));
        lemma_split_from_rejoins(s.drop_first(), seq![]);
        lemma_join_prepend(cur, rest);
        assert(Seq::<char>::empty() + s.drop_first() =~= s.drop_first());
        assert(cur + seq![' '] + s.drop_first() =~= cur + s);
        let all = seq![cur] + rest;
        assert forall|i: int| 0 <= i < all.len() implies !(#[trigger] all[i]).contains(' ') by {
            if i > 0 {
                assert(all[i] == rest[i - 1]);
            }
        }
    } else {
        let next = cur.push(s[0]);
        assert(!next.contains(' ')) by {
            if next.contains(' ') {
                let k = choose|k: int| 0 <= k < next.len() && next[k] == ' ';
                if k < cur.len() {
                    assert(cur[k] == ' ');
                }
            }
        }
        lemma_split_from_rejoins(s.drop_first(), next);
        assert(next + s.drop_first() =~= cur + s);
    }
}

/// Splitting at spaces loses nothing: the pieces, none of which holds a
/// space, join back with single spaces into the text they came from.
pub proof fn lemma_split_rejoins(s: Seq<char>)
    ensures
        split_spaces(s).len() >= 1,
        join_spaces(split_spaces(s)) == s,
        forall|i: int| 0 <= i < split_spaces(s).len() ==> !(#[trigger] split_spaces(s)[i]).contains(' '),
{
    assert(!Seq::<char>::empty().contains(' '));
    lemma_split_from_rejoins(s, seq![]);
    assert(Seq::<char>::empty() + s =~= s);
}


/// A character property that holds of every character of a text holds of
/// every character of its pieces, from the piece `cur` gathered so far on.
proof fn lemma_split_from_chars(s: Seq<char>, cur: Seq<char>, p: spec_fn(char) -> bool)
    requires
        forall|i: int| 0 <= i < s.len() ==> p(#[trigger] s[i]),
        forall|i: int| 0 <= i < cur.len() ==> p(#[trigger] cur[i]),
    ensures
        forall|k: int, j: int|
            0 <= k < split_from(s, cur).len() && 0 <= j < split_from(s, cur)[k].len() ==> p(
                #[trigger] split_from(s, cur)[k][j],
            ),
    decreases s.len(),
{
    if s.len() == 0 {
        let all = split_from(s, cur);
        assert(all =~= seq![cur]);
        assert forall|k: int, j: int| 0 <= k < all.len() && 0 <= j < all[k].len() implies p(
            #[trigger] all[k][j],
        ) by {
            assert(all[k] == cur);
        }
    } else {
        let rest = s.drop_first();
        assert forall|i: int| 0 <= i < rest.len() implies p(#[trigger] rest[i]) by {
            assert(rest[i] == s[i + 1]);
        }
        if s[0] == ' ' {
            lemma_split_from_chars(rest, seq![], p);
            let all = seq![cur] + split_from(rest, seq![]);
            assert(split_from(s, cur) == all);
            assert forall|k: int, j: int| 0 <= k < all.len() && 0 <= j < all[k].len() implies p(
                #[trigger] all[k][j],
            ) by {
                if k > 0 {
                    assert(all[k] == split_from(rest, seq![])[k - 1]);
                } else {
                    assert(all[k] == cur);
                }
            }
        } else {
            let next = cur.push(s[0]);
            assert forall|i: int| 0 <= i < next.len() implies p(#[trigger] next[i]) by {
                if i < cur.len() {
                    assert(next[i] == cur[i]);
                }
            }
            lemma_split_from_chars(rest, next, p);
            assert(split_from(s, cur) == split_from(rest, next));
        }
    }
}

/// A character property that holds of every character of a text holds of
/// every character of each of its pieces.
pub proof fn lemma_split_chars(s: Seq<char>, p: spec_fn(char) -> bool)
    requires
        forall|i: int| 0 <= i < s.len() ==> p(#[trigger] s[i]),
    ensures
        forall|k: int, j: int|
            0 <= k < split_spaces(s).len() && 0 <= j < split_spaces(s)[k].len() ==> p(
                #[trigger] split_spaces(s)[k][j],
            ),
{
    lemma_split_from_chars(s, seq![], p);
}

/// A character property that holds of every character of a text holds of
/// every character of the trimmed text.
pub proof fn lemma_trimmed_chars(s: Seq<char>, p: spec_fn(char) -> bool)
    requires
        forall|i: int| 0 <= i < s.len() ==> p(#[trigger] s[i]),
    ensures
        forall|i: int| 0 <= i < trimmed(s).len() ==> p(#[trigger] trimmed(s)[i]),
{
    let y = trim_start(s);
    lemma_trim_start_suffix(s);
    lemma_trim_end_prefix(y);
    let j = s.len() - y.len();
    assert forall|i: int| 0 <= i < trimmed(s).len() implies p(#[trigger] trimmed(s)[i]) by {
        assert(trimmed(s)[i] == y[i]);
        assert(y[i] == s[i + j]);
    }
}

/// A text that neither starts nor ends with white space is its own trimmed
/// form.
pub proof fn lemma_trimmed_fixed(s: Seq<char>)
    requires
        s.len() > 0,
        !is_white_space(s[0]),
        !is_white_space(s.last()),
    ensures
        trimmed(s) == s,
{
}

/// A text that is its own trimmed form keeps that form when a space is
/// appended and then trimmed away.
pub proof fn lemma_trimmed_push_space(s: Seq<char>)
    requires
        s.len() > 0,
        trimmed(s) == s,
    ensures
        trimmed(s.push(' ')) == s,
{
    lemma_trimmed_edges(s);
    let t = s.push(' ');
    assert(t[0] == s[0]);
    assert(trim_start(t) == t);
    assert(t.drop_last() =~= s);
    assert(trim_end(t) == trim_end(s));
}

} // verus!
