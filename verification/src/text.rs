//! Text operations on `str`, stated over the sequence of characters of a string.

use vstd::prelude::*;
use vstd::string::StrSliceExecFns;
use vstd::string::StringExecFns;

verus! {

// ---------------------------------------------------------------------------
// The mathematical operations.
// ---------------------------------------------------------------------------

/// The characters with the Unicode property `White_Space`.
pub open spec fn is_white(c: char) -> bool {
    ||| '\u{9}' <= c <= '\u{d}'
    ||| c == ' '
    ||| c == '\u{85}'
    ||| c == '\u{a0}'
    ||| c == '\u{1680}'
    ||| '\u{2000}' <= c <= '\u{200a}'
    ||| c == '\u{2028}'
    ||| c == '\u{2029}'
    ||| c == '\u{202f}'
    ||| c == '\u{205f}'
    ||| c == '\u{3000}'
}

/// `s` without the white space at its front.
pub open spec fn trim_front(s: Seq<char>) -> Seq<char>
    decreases s.len(),
{
    if s.len() > 0 && is_white(s.first()) {
        trim_front(s.drop_first())
    } else {
        s
    }
}

/// `s` without the white space at its back.
pub open spec fn trim_back(s: Seq<char>) -> Seq<char>
    decreases s.len(),
{
    if s.len() > 0 && is_white(s.last()) {
        trim_back(s.drop_last())
    } else {
        s
    }
}

/// `s` without the white space at both ends.
pub open spec fn trimmed(s: Seq<char>) -> Seq<char> {
    trim_back(trim_front(s))
}

/// The pieces of `s` between the separators; always at least one piece.
pub open spec fn split(s: Seq<char>, sep: char) -> Seq<Seq<char>>
    decreases s.len(),
{
    if s.len() == 0 {
        seq![s]
    } else {
        let parts = split(s.drop_last(), sep);
        if s.last() == sep {
            parts.push(Seq::empty())
        } else {
            parts.drop_last().push(parts.last().push(s.last()))
        }
    }
}

/// The pieces one after the other, with `sep` between each two.
pub open spec fn join(parts: Seq<Seq<char>>, sep: Seq<char>) -> Seq<char>
    decreases parts.len(),
{
    if parts.len() == 0 {
        Seq::empty()
    } else if parts.len() == 1 {
        parts[0]
    } else {
        join(parts.drop_last(), sep) + sep + parts.last()
    }
}

/// `pat` stands in `s` at position `i`.
pub open spec fn stands_at(s: Seq<char>, pat: Seq<char>, i: int) -> bool {
    &&& 0 <= i
    &&& i + pat.len() <= s.len()
    &&& s.subrange(i, i + pat.len()) == pat
}

/// `pat` stands somewhere in `s`.
pub open spec fn holds_text(s: Seq<char>, pat: Seq<char>) -> bool {
    exists|i: int| stands_at(s, pat, i)
}

/// `s` begins with `pat`.
pub open spec fn begins_with(s: Seq<char>, pat: Seq<char>) -> bool {
    stands_at(s, pat, 0)
}

/// The first position of `c` in `s`, or -1.
pub open spec fn first_index(s: Seq<char>, c: char) -> int
    decreases s.len(),
{
    if s.len() == 0 {
        -1
    } else {
        let before = first_index(s.drop_last(), c);
        if before >= 0 {
            before
        } else if s.last() == c {
            s.len() - 1
        } else {
            -1
        }
    }
}

/// The last position of `c` in `s`, or -1.
pub open spec fn last_index(s: Seq<char>, c: char) -> int
    decreases s.len(),
{
    if s.len() == 0 {
        -1
    } else if s.last() == c {
        s.len() - 1
    } else {
        last_index(s.drop_last(), c)
    }
}

/// The lower case of an ASCII letter; any other character is its own.
pub open spec fn ascii_lower(c: char) -> char {
    if 'A' <= c <= 'Z' {
        ((c as u8 - 'A' as u8 + 'a' as u8) as u8) as char
    } else {
        c
    }
}

/// `s` with every ASCII letter in lower case.
pub open spec fn ascii_lowered(s: Seq<char>) -> Seq<char> {
    s.map_values(|c: char| ascii_lower(c))
}

/// Every character is below U+0080.
pub open spec fn all_ascii(s: Seq<char>) -> bool {
    forall|i: int| 0 <= i < s.len() ==> (#[trigger] s[i]) < '\u{80}'
}

pub open spec fn is_digit(c: char) -> bool {
    '0' <= c <= '9'
}

pub open spec fn digit_value(c: char) -> int {
    c as int - '0' as int
}

pub open spec fn digit_char(d: int) -> char {
    (('0' as int + d) as u8) as char
}

/// The number in decimal notation, without leading zeros.
pub open spec fn decimal(n: nat) -> Seq<char>
    decreases n,
{
    if n < 10 {
        seq![digit_char(n as int)]
    } else {
        decimal(n / 10).push(digit_char((n % 10) as int))
    }
}

/// The number that a run of digits stands for.
pub open spec fn digits_value(s: Seq<char>) -> int
    decreases s.len(),
{
    if s.len() == 0 {
        0
    } else {
        digits_value(s.drop_last()) * 10 + digit_value(s.last())
    }
}

pub open spec fn all_digits(s: Seq<char>) -> bool {
    forall|i: int| 0 <= i < s.len() ==> is_digit(#[trigger] s[i])
}

/// `s` without one leading plus sign.
pub open spec fn without_plus(s: Seq<char>) -> Seq<char> {
    if s.len() > 0 && s[0] == '+' {
        s.drop_first()
    } else {
        s
    }
}

/// The number that an integer literal of an unsigned type stands for: an optional plus
/// sign and one or more digits, of a value of at most `max`.
pub open spec fn unsigned_value(s: Seq<char>, max: int) -> Option<int> {
    let digits = without_plus(s);
    if digits.len() > 0 && all_digits(digits) && digits_value(digits) <= max {
        Some(digits_value(digits))
    } else {
        None
    }
}

/// `s` with every `c` replaced by `with`.
pub open spec fn replaced(s: Seq<char>, c: char, with: Seq<char>) -> Seq<char>
    decreases s.len(),
{
    if s.len() == 0 {
        s
    } else {
        replaced(s.drop_last(), c, with) + (if s.last() == c {
            with
        } else {
            seq![s.last()]
        })
    }
}

/// The pieces without the white space round them, those of white space alone left out.
pub open spec fn items(pieces: Seq<Seq<char>>) -> Seq<Seq<char>>
    decreases pieces.len(),
{
    if pieces.len() == 0 {
        Seq::empty()
    } else {
        let before = items(pieces.drop_last());
        if trimmed(pieces.last()).len() == 0 {
            before
        } else {
            before.push(trimmed(pieces.last()))
        }
    }
}

/// The characters of each string of a list.
pub open spec fn texts(list: Seq<String>) -> Seq<Seq<char>> {
    list.map_values(|s: String| s@)
}

/// The characters of each string slice of a list.
pub open spec fn slice_texts(list: Seq<&str>) -> Seq<Seq<char>> {
    list.map_values(|s: &str| s@)
}

/// The characters of a string, where there is one.
pub open spec fn opt_text(s: Option<String>) -> Option<Seq<char>> {
    match s {
        Some(s) => Some(s@),
        None => None,
    }
}

// ---------------------------------------------------------------------------
// Functions of the standard library.
// ---------------------------------------------------------------------------

/// `String::push`: appends the character to the end of the string.
pub assume_specification[ String::push ](s: &mut String, c: char)
    ensures
        final(s)@ == old(s)@.push(c),
;

/// What `str::to_lowercase` makes of a text.
pub uninterp spec fn lowered(s: Seq<char>) -> Seq<char>;

/// `str::to_lowercase`: the lower case of the text by the rules of Unicode. Of a text in
/// ASCII it is the text with its ASCII letters in lower case.
#[verifier::external_body]
pub(crate) fn to_lower(s: &str) -> (r: String)
    ensures
        r@ == lowered(s@),
        all_ascii(s@) ==> r@ == ascii_lowered(s@),
{
    s.to_lowercase()
}

/// The `Debug` form of a character.
pub uninterp spec fn char_debug(c: char) -> Seq<char>;

/// The `Debug` implementation of `char`, through `format!`: the character in single
/// quotes, with escapes where it does not print.
#[verifier::external_body]
pub(crate) fn debug_char(c: char) -> (r: String)
    ensures
        r@ == char_debug(c),
{
    format!("{c:?}")
}

/// The `Debug` form of a text.
pub uninterp spec fn text_debug(s: Seq<char>) -> Seq<char>;

/// The `Debug` implementation of `str`, through `format!`: the text in double quotes, with
/// escapes where a character does not print.
#[verifier::external_body]
pub(crate) fn debug_text(s: &str) -> (r: String)
    ensures
        r@ == text_debug(s@),
{
    format!("{s:?}")
}

// ---------------------------------------------------------------------------
// The executable operations.
// ---------------------------------------------------------------------------

/// The characters of a string.
pub fn chars_of(s: &str) -> (r: Vec<char>)
    ensures
        r@ == s@,
{
    let mut r: Vec<char> = Vec::new();
    for c in it: s.chars()
        invariant
            r@ == s@.take(it.index() as int),
            it.seq() == s@,
    {
        proof {
            assert(s@.take(it.index() + 1) =~= s@.take(it.index() as int).push(c));
        }
        r.push(c);
    }
    proof {
        assert(s@.take(s@.len() as int) =~= s@);
    }
    r
}

/// Whether the character has the Unicode property `White_Space`.
pub fn white(c: char) -> (r: bool)
    ensures
        r == is_white(c),
{
    ('\u{9}' <= c && c <= '\u{d}') || c == ' ' || c == '\u{85}' || c == '\u{a0}' || c
        == '\u{1680}' || ('\u{2000}' <= c && c <= '\u{200a}') || c == '\u{2028}' || c
        == '\u{2029}' || c == '\u{202f}' || c == '\u{205f}' || c == '\u{3000}'
}

/// Whether two texts are the same.
pub fn same(a: &str, b: &str) -> (r: bool)
    ensures
        r == (a@ == b@),
{
    let x = chars_of(a);
    let y = chars_of(b);
    if x.len() != y.len() {
        return false;
    }
    let mut i: usize = 0;
    while i < x.len()
        invariant
            x@ == a@,
            y@ == b@,
            x@.len() == y@.len(),
            i <= x@.len(),
            forall|j: int| 0 <= j < i ==> x@[j] == y@[j],
        decreases x@.len() - i,
    {
        if x[i] != y[i] {
            return false;
        }
        i = i + 1;
    }
    proof {
        assert(a@ =~= b@);
    }
    true
}

/// The text without the white space at both ends.
pub fn trim(s: &str) -> (r: &str)
    ensures
        r@ == trimmed(s@),
{
    let c = chars_of(s);
    let n: usize = c.len();
    let mut from: usize = 0;
    proof {
        assert(s@.subrange(0, n as int) =~= s@);
    }
    while from < n && white(c[from])
        invariant
            c@ == s@,
            n == c@.len(),
            from <= n,
            trim_front(s@) == trim_front(s@.subrange(from as int, n as int)),
        decreases n - from,
    {
        proof {
            assert(s@.subrange(from as int, n as int).drop_first() =~= s@.subrange(
                from + 1,
                n as int,
            ));
        }
        from = from + 1;
    }
    proof {
        assert(trim_front(s@) == s@.subrange(from as int, n as int));
    }
    let mut to: usize = n;
    while to > from && white(c[to - 1])
        invariant
            c@ == s@,
            n == c@.len(),
            from <= to <= n,
            trim_back(s@.subrange(from as int, n as int)) == trim_back(
                s@.subrange(from as int, to as int),
            ),
        decreases to,
    {
        proof {
            assert(s@.subrange(from as int, to as int).drop_last() =~= s@.subrange(
                from as int,
                to - 1,
            ));
        }
        to = to - 1;
    }
    s.substring_char(from, to)
}

/// The pieces of the text between the separators.
pub fn split_text(s: &str, sep: char) -> (r: Vec<&str>)
    ensures
        slice_texts(r@) == split(s@, sep),
{
    let c = chars_of(s);
    let mut r: Vec<&str> = Vec::new();
    let mut start: usize = 0;
    let mut i: usize = 0;
    proof {
        assert(s@.take(0) =~= s@.subrange(0, 0));
        assert(slice_texts(r@).push(s@.subrange(0, 0)) =~= split(s@.take(0), sep));
    }
    while i < c.len()
        invariant
            c@ == s@,
            start <= i <= c@.len(),
            split(s@.take(i as int), sep) == slice_texts(r@).push(
                s@.subrange(start as int, i as int),
            ),
        decreases c@.len() - i,
    {
        let ghost before = slice_texts(r@);
        proof {
            assert(s@.take(i + 1).drop_last() =~= s@.take(i as int));
            assert(s@.take(i + 1).last() == s@[i as int]);
            assert(before.push(s@.subrange(start as int, i as int)).drop_last() =~= before);
        }
        if c[i] == sep {
            let piece: &str = s.substring_char(start, i);
            r.push(piece);
            start = i + 1;
            proof {
                assert(slice_texts(r@) =~= before.push(piece@));
                assert(s@.subrange(start as int, i + 1) =~= Seq::<char>::empty());
            }
        } else {
            proof {
                assert(s@.subrange(start as int, i as int).push(s@[i as int]) =~= s@.subrange(
                    start as int,
                    i + 1,
                ));
            }
        }
        i = i + 1;
    }
    let ghost before = slice_texts(r@);
    let piece: &str = s.substring_char(start, c.len());
    r.push(piece);
    proof {
        assert(s@.take(s@.len() as int) =~= s@);
        assert(slice_texts(r@) =~= before.push(piece@));
    }
    r
}

/// Whether the characters of `pat` stand in `s` at position `at`.
fn matches_at(s: &Vec<char>, pat: &Vec<char>, at: usize) -> (r: bool)
    requires
        at <= s@.len(),
    ensures
        r == stands_at(s@, pat@, at as int),
{
    if pat.len() > s.len() - at {
        return false;
    }
    let mut i: usize = 0;
    while i < pat.len()
        invariant
            at + pat@.len() <= s@.len() <= usize::MAX,
            i <= pat@.len(),
            forall|j: int| 0 <= j < i ==> s@[at + j] == pat@[j],
        decreases pat@.len() - i,
    {
        if s[at + i] != pat[i] {
            proof {
                assert(s@.subrange(at as int, at + pat@.len())[i as int] != pat@[i as int]);
            }
            return false;
        }
        i = i + 1;
    }
    proof {
        assert(s@.subrange(at as int, at + pat@.len()) =~= pat@);
    }
    true
}

/// The items of a list: the pieces between the separators without the white space round them,
/// those of white space alone left out.
pub fn list_items(s: &str, sep: char) -> (r: Vec<&str>)
    ensures
        slice_texts(r@) == items(split(s@, sep)),
{
    let pieces = split_text(s, sep);
    let ghost all = slice_texts(pieces@);
    let mut r: Vec<&str> = Vec::new();
    let mut i: usize = 0;
    proof {
        assert(all.take(0) =~= Seq::<Seq<char>>::empty());
        assert(slice_texts(r@) =~= Seq::<Seq<char>>::empty());
    }
    while i < pieces.len()
        invariant
            all == slice_texts(pieces@),
            i <= all.len(),
            slice_texts(r@) == items(all.take(i as int)),
        decreases all.len() - i,
    {
        let piece = trim(pieces[i]);
        proof {
            assert(all.take(i + 1).drop_last() =~= all.take(i as int));
            assert(all.take(i + 1).last() == pieces@[i as int]@);
            assert(slice_texts(r@.push(piece)) =~= slice_texts(r@).push(piece@));
        }
        if !same(piece, "") {
            r.push(piece);
        }
        proof {
            reveal_strlit("");
            if piece@.len() == 0 {
                assert(piece@ =~= ""@);
            }
        }
        i = i + 1;
    }
    proof {
        assert(all.take(all.len() as int) =~= all);
    }
    r
}

/// Whether `pat` stands somewhere in `s`.
pub fn contains_text(s: &str, pat: &str) -> (r: bool)
    ensures
        r == holds_text(s@, pat@),
{
    let c = chars_of(s);
    let p = chars_of(pat);
    let mut i: usize = 0;
    while i < c.len()
        invariant
            c@ == s@,
            p@ == pat@,
            i <= c@.len(),
            forall|j: int| 0 <= j < i ==> !stands_at(s@, pat@, j),
        decreases c@.len() - i,
    {
        if matches_at(&c, &p, i) {
            return true;
        }
        i = i + 1;
    }
    matches_at(&c, &p, i)
}

/// Whether `s` begins with `pat`.
pub fn starts_with(s: &str, pat: &str) -> (r: bool)
    ensures
        r == begins_with(s@, pat@),
{
    let c = chars_of(s);
    let p = chars_of(pat);
    matches_at(&c, &p, 0)
}

/// The first position of a character, counted in characters.
pub fn find_first(s: &str, c: char) -> (r: Option<usize>)
    ensures
        match r {
            Some(i) => i == first_index(s@, c),
            None => first_index(s@, c) == -1,
        },
{
    let chars = chars_of(s);
    let mut i: usize = 0;
    proof {
        assert(s@.take(0) =~= Seq::<char>::empty());
    }
    while i < chars.len()
        invariant
            chars@ == s@,
            i <= chars@.len(),
            first_index(s@.take(i as int), c) == -1,
        decreases chars@.len() - i,
    {
        proof {
            assert(s@.take(i + 1).drop_last() =~= s@.take(i as int));
        }
        if chars[i] == c {
            proof {
                lemma_first_index_prefix(s@, c, i + 1);
            }
            return Some(i);
        }
        i = i + 1;
    }
    proof {
        assert(s@.take(s@.len() as int) =~= s@);
    }
    None
}

/// A position that a prefix gives is the position in the whole text.
pub proof fn lemma_first_index_prefix(s: Seq<char>, c: char, n: int)
    requires
        0 <= n <= s.len(),
        first_index(s.take(n), c) >= 0,
    ensures
        first_index(s, c) == first_index(s.take(n), c),
    decreases s.len(),
{
    if n == s.len() {
        assert(s.take(n) =~= s);
    } else {
        assert(s.drop_last().take(n) =~= s.take(n));
        lemma_first_index_prefix(s.drop_last(), c, n);
    }
}

/// The last position of a character, counted in characters.
pub fn find_last(s: &str, c: char) -> (r: Option<usize>)
    ensures
        match r {
            Some(i) => i == last_index(s@, c),
            None => last_index(s@, c) == -1,
        },
{
    let chars = chars_of(s);
    let mut i: usize = chars.len();
    proof {
        assert(s@.take(s@.len() as int) =~= s@);
    }
    while i > 0
        invariant
            chars@ == s@,
            i <= chars@.len(),
            last_index(s@, c) == last_index(s@.take(i as int), c),
        decreases i,
    {
        proof {
            assert(s@.take(i as int).drop_last() =~= s@.take(i - 1));
        }
        if chars[i - 1] == c {
            return Some(i - 1);
        }
        i = i - 1;
    }
    None
}

/// The positions that `first_index` and `last_index` give lie in the text, and hold the
/// character.
pub proof fn lemma_index_bounds(s: Seq<char>, c: char)
    ensures
        -1 <= first_index(s, c) < s.len(),
        -1 <= last_index(s, c) < s.len(),
        first_index(s, c) >= 0 ==> s[first_index(s, c)] == c,
        last_index(s, c) >= 0 ==> s[last_index(s, c)] == c,
    decreases s.len(),
{
    if s.len() > 0 {
        lemma_index_bounds(s.drop_last(), c);
    }
}

/// The prefix that ends with the first `c` has it at the same position.
pub proof fn lemma_first_index_take(s: Seq<char>, c: char)
    requires
        first_index(s, c) >= 0,
    ensures
        first_index(s.take(first_index(s, c) + 1), c) == first_index(s, c),
    decreases s.len(),
{
    lemma_index_bounds(s, c);
    let k = first_index(s, c);
    if first_index(s.drop_last(), c) >= 0 {
        lemma_first_index_take(s.drop_last(), c);
        lemma_index_bounds(s.drop_last(), c);
        assert(s.drop_last().take(k + 1) =~= s.take(k + 1));
    } else {
        assert(s.take(k + 1) =~= s);
    }
}

/// The last `c` of a text is the one with no other behind it.
pub proof fn lemma_last_index_between(front: Seq<char>, c: char, back: Seq<char>)
    requires
        !back.contains(c),
    ensures
        last_index(front + seq![c] + back, c) == front.len(),
    decreases back.len(),
{
    let s = front + seq![c] + back;
    if back.len() == 0 {
        assert(s.last() == c);
    } else {
        assert(back[back.len() - 1] != c);
        assert(!back.drop_last().contains(c)) by {
            if back.drop_last().contains(c) {
                let i = choose|i: int| 0 <= i < back.len() - 1 && back.drop_last()[i] == c;
                assert(back[i] == c);
            }
        }
        assert(s.drop_last() =~= front + seq![c] + back.drop_last());
        lemma_last_index_between(front, c, back.drop_last());
    }
}

proof fn lemma_trim_back_prefix(s: Seq<char>)
    ensures
        trim_back(s).len() <= s.len(),
        trim_back(s) == s.take(trim_back(s).len() as int),
        trim_back(s).len() > 0 ==> !is_white(trim_back(s).last()),
    decreases s.len(),
{
    if s.len() > 0 && is_white(s.last()) {
        lemma_trim_back_prefix(s.drop_last());
        let n = trim_back(s).len() as int;
        assert(s.drop_last().take(n) =~= s.take(n));
    } else {
        assert(s.take(s.len() as int) =~= s);
    }
}

proof fn lemma_trim_front_end(s: Seq<char>)
    ensures
        trim_front(s).len() > 0 ==> !is_white(trim_front(s).first()),
    decreases s.len(),
{
    if s.len() > 0 && is_white(s.first()) {
        lemma_trim_front_end(s.drop_first());
    }
}

/// What is left after trimming has no white space at its ends.
pub proof fn lemma_trimmed_ends(s: Seq<char>)
    ensures
        trimmed(s).len() > 0 ==> !is_white(trimmed(s).first()) && !is_white(trimmed(s).last()),
{
    lemma_trim_front_end(s);
    lemma_trim_back_prefix(trim_front(s));
}

/// A text without white space at its ends is left as it is.
pub proof fn lemma_trimmed_id(s: Seq<char>)
    requires
        s.len() > 0 ==> !is_white(s.first()) && !is_white(s.last()),
    ensures
        trimmed(s) == s,
{
}

/// The text with its ASCII letters in lower case.
pub fn to_ascii_lower(s: &str) -> (r: String)
    ensures
        r@ == ascii_lowered(s@),
{
    let chars = chars_of(s);
    let mut r = String::new();
    let mut i: usize = 0;
    while i < chars.len()
        invariant
            chars@ == s@,
            i <= chars@.len(),
            r@ == ascii_lowered(s@).take(i as int),
        decreases chars@.len() - i,
    {
        let c: char = chars[i];
        let low: char = if 'A' <= c && c <= 'Z' {
            (c as u8 - 'A' as u8 + 'a' as u8) as char
        } else {
            c
        };
        proof {
            assert(ascii_lowered(s@).take(i + 1) =~= ascii_lowered(s@).take(i as int).push(low));
        }
        r.push(low);
        i = i + 1;
    }
    proof {
        assert(ascii_lowered(s@).take(s@.len() as int) =~= ascii_lowered(s@));
    }
    r
}

/// The number in decimal notation.
pub fn decimal_text(n: u64) -> (r: String)
    ensures
        r@ == decimal(n as nat),
    decreases n,
{
    let last: char = ('0' as u8 + (n % 10) as u8) as char;
    let mut r: String = if n < 10 {
        String::new()
    } else {
        decimal_text(n / 10)
    };
    r.push(last);
    proof {
        assert(n < 10 ==> r@ =~= seq![digit_char(n as int)]);
    }
    r
}

/// A run of digits stands for at least what each of its prefixes stands for.
pub proof fn lemma_digits_value_grows(s: Seq<char>, n: int)
    requires
        0 <= n <= s.len(),
        all_digits(s),
    ensures
        0 <= digits_value(s.take(n)) <= digits_value(s),
    decreases s.len(),
{
    if n == s.len() {
        assert(s.take(n) =~= s);
        if n > 0 {
            assert(is_digit(s[n - 1]));
            assert(all_digits(s.drop_last())) by {
                assert forall|i: int| 0 <= i < s.len() - 1 implies is_digit(
                    #[trigger] s.drop_last()[i],
                ) by {
                    assert(is_digit(s[i]));
                }
            }
            lemma_digits_value_grows(s.drop_last(), n - 1);
            assert(s.drop_last().take(n - 1) =~= s.drop_last());
        }
    } else {
        assert(s.drop_last().take(n) =~= s.take(n));
        assert(all_digits(s.drop_last())) by {
            assert forall|i: int| 0 <= i < s.len() - 1 implies is_digit(
                #[trigger] s.drop_last()[i],
            ) by {
                assert(is_digit(s[i]));
            }
        }
        assert(is_digit(s[s.len() - 1]));
        lemma_digits_value_grows(s.drop_last(), n);
    }
}

/// The number that the text stands for as an unsigned integer of at most `max`.
pub fn parse_unsigned(s: &str, max: u32) -> (r: Option<u32>)
    ensures
        match r {
            Some(n) => unsigned_value(s@, max as int) == Some(n as int),
            None => unsigned_value(s@, max as int) is None,
        },
{
    let chars = chars_of(s);
    let from: usize = if chars.len() > 0 && chars[0] == '+' {
        1
    } else {
        0
    };
    let ghost digits = without_plus(s@);
    proof {
        assert(digits =~= s@.subrange(from as int, s@.len() as int));
    }
    if chars.len() == from {
        return None;
    }
    let mut i: usize = from;
    let mut n: u64 = 0;
    proof {
        assert(digits.take(0) =~= Seq::<char>::empty());
    }
    while i < chars.len()
        invariant
            chars@ == s@,
            digits == without_plus(s@),
            digits == s@.subrange(from as int, s@.len() as int),
            from <= i <= chars@.len(),
            from <= 1,
            forall|j: int| 0 <= j < i - from ==> is_digit(#[trigger] digits[j]),
            n == digits_value(digits.take(i - from)),
            n <= max,
        decreases chars@.len() - i,
    {
        let c: char = chars[i];
        proof {
            assert(digits[i - from] == c);
        }
        if !('0' <= c && c <= '9') {
            proof {
                assert(!is_digit(digits[i - from]));
            }
            return None;
        }
        proof {
            assert(digits.take(i - from + 1).drop_last() =~= digits.take(i - from));
        }
        n = n * 10 + (c as u64 - '0' as u64);
        if n > max as u64 {
            proof {
                if all_digits(digits) {
                    lemma_digits_value_grows(digits, i - from + 1);
                }
            }
            return None;
        }
        i = i + 1;
    }
    proof {
        assert(digits.take(digits.len() as int) =~= digits);
    }
    Some(n as u32)
}

/// The text with every `c` replaced by `with`.
pub fn replace_char(s: &str, c: char, with: &str) -> (r: String)
    ensures
        r@ == replaced(s@, c, with@),
{
    let chars = chars_of(s);
    let mut r = String::new();
    let mut i: usize = 0;
    proof {
        assert(s@.take(0) =~= Seq::<char>::empty());
    }
    while i < chars.len()
        invariant
            chars@ == s@,
            i <= chars@.len(),
            r@ == replaced(s@.take(i as int), c, with@),
        decreases chars@.len() - i,
    {
        proof {
            assert(s@.take(i + 1).drop_last() =~= s@.take(i as int));
        }
        let ghost before = r@;
        if chars[i] == c {
            r.append(with);
        } else {
            r.push(chars[i]);
            proof {
                assert(r@ =~= before + seq![s@[i as int]]);
            }
        }
        i = i + 1;
    }
    proof {
        assert(s@.take(s@.len() as int) =~= s@);
    }
    r
}

/// The texts one after the other, with `sep` between each two.
pub fn join_texts(parts: &[String], sep: &str) -> (r: String)
    ensures
        r@ == join(texts(parts@), sep@),
{
    let ghost all = texts(parts@);
    let mut r = String::new();
    let mut i: usize = 0;
    proof {
        assert(all.take(0) =~= Seq::<Seq<char>>::empty());
    }
    while i < parts.len()
        invariant
            all == texts(parts@),
            i <= parts@.len(),
            r@ == join(all.take(i as int), sep@),
        decreases parts@.len() - i,
    {
        proof {
            assert(all.take(i + 1).drop_last() =~= all.take(i as int));
            assert(all.take(i + 1).last() == parts@[i as int]@);
        }
        if i > 0 {
            r.append(sep);
        }
        r.append(parts[i].as_str());
        proof {
            if i == 0 {
                assert(r@ =~= parts@[0]@);
            }
        }
        i = i + 1;
    }
    proof {
        assert(all.take(all.len() as int) =~= all);
    }
    r
}

/// Whether a list of strings holds a text.
pub fn list_contains(list: &[String], s: &str) -> (r: bool)
    ensures
        r == texts(list@).contains(s@),
{
    let mut i: usize = 0;
    while i < list.len()
        invariant
            i <= list@.len(),
            forall|j: int| 0 <= j < i ==> texts(list@)[j] != s@,
        decreases list@.len() - i,
    {
        if same(list[i].as_str(), s) {
            proof {
                assert(texts(list@)[i as int] == s@);
            }
            return true;
        }
        i = i + 1;
    }
    false
}

/// A string put at the end of a list.
pub broadcast proof fn lemma_texts_push(list: Seq<String>, s: String)
    ensures
        #[trigger] texts(list.push(s)) == texts(list).push(s@),
{
    assert(texts(list.push(s)) =~= texts(list).push(s@));
}

/// A copy of an optional string.
pub fn copy_opt(s: &Option<String>) -> (r: Option<String>)
    ensures
        opt_text(r) == opt_text(*s),
{
    match s {
        Some(s) => Some(s.clone()),
        None => None,
    }
}

/// Two texts one after the other.
pub fn concat2(a: &str, b: &str) -> (r: String)
    ensures
        r@ == a@ + b@,
{
    let mut r = a.to_owned();
    r.append(b);
    r
}

/// Three texts one after the other.
pub fn concat3(a: &str, b: &str, c: &str) -> (r: String)
    ensures
        r@ == a@ + b@ + c@,
{
    let mut r = a.to_owned();
    r.append(b);
    r.append(c);
    r
}

// ---------------------------------------------------------------------------
// Laws.
// ---------------------------------------------------------------------------

/// White space is what Unicode lists as such, and nothing else.
pub proof fn white_space_is_what_unicode_lists(c: char)
    ensures
        is_white(c) <==> {
            let code = c as int;
            ||| 0x9 <= code <= 0xd
            ||| code == 0x20
            ||| code == 0x85
            ||| code == 0xa0
            ||| code == 0x1680
            ||| 0x2000 <= code <= 0x200a
            ||| code == 0x2028
            ||| code == 0x2029
            ||| code == 0x202f
            ||| code == 0x205f
            ||| code == 0x3000
        },
{
}

proof fn lemma_trim_front_suffix(s: Seq<char>) -> (n: int)
    ensures
        0 <= n <= s.len(),
        trim_front(s) == s.skip(n),
        forall|i: int| 0 <= i < n ==> is_white(#[trigger] s[i]),
    decreases s.len(),
{
    if s.len() > 0 && is_white(s.first()) {
        let n = lemma_trim_front_suffix(s.drop_first());
        assert(s.drop_first().skip(n) =~= s.skip(n + 1));
        assert forall|i: int| 0 <= i < n + 1 implies is_white(#[trigger] s[i]) by {
            if i > 0 {
                assert(is_white(s.drop_first()[i - 1]));
            }
        }
        n + 1
    } else {
        assert(s.skip(0) =~= s);
        0
    }
}

proof fn lemma_trim_back_rest(s: Seq<char>)
    ensures
        forall|i: int| trim_back(s).len() <= i < s.len() ==> is_white(#[trigger] s[i]),
    decreases s.len(),
{
    if s.len() > 0 && is_white(s.last()) {
        lemma_trim_back_rest(s.drop_last());
        assert forall|i: int| trim_back(s).len() <= i < s.len() implies is_white(
            #[trigger] s[i],
        ) by {
            if i < s.len() - 1 {
                assert(is_white(s.drop_last()[i]));
            }
        }
    }
}

/// Trimming takes white space from the two ends of a text, all of it, and nothing else. The
/// result says where what is left begins.
pub proof fn trimming_takes_the_white_ends_alone(s: Seq<char>) -> (from: int)
    ensures
        ({
            let to = from + trimmed(s).len();
            &&& 0 <= from <= to <= s.len()
            &&& trimmed(s) == s.subrange(from, to)
            &&& forall|i: int| 0 <= i < from ==> is_white(#[trigger] s[i])
            &&& forall|i: int| to <= i < s.len() ==> is_white(#[trigger] s[i])
            &&& from < to ==> !is_white(s[from]) && !is_white(s[to - 1])
        }),
{
    let front = trim_front(s);
    let n = lemma_trim_front_suffix(s);
    lemma_trim_back_prefix(front);
    lemma_trim_back_rest(front);
    lemma_trimmed_ends(s);
    let to = n + trimmed(s).len();
    assert(trimmed(s) =~= s.subrange(n, to));
    assert forall|i: int| to <= i < s.len() implies is_white(#[trigger] s[i]) by {
        assert(is_white(front[i - n]));
    }
    n
}

proof fn lemma_join_push(parts: Seq<Seq<char>>, sep: Seq<char>, last: Seq<char>)
    ensures
        parts.len() > 0 ==> join(parts.push(last), sep) == join(parts, sep) + sep + last,
        parts.len() == 0 ==> join(parts.push(last), sep) == last,
{
    assert(parts.push(last).drop_last() =~= parts);
}

/// Texts are joined in order with the separator between each two: a list that is put behind
/// another adds the separator and its own.
pub proof fn joining_puts_the_separator_between(
    a: Seq<Seq<char>>,
    b: Seq<Seq<char>>,
    one: Seq<char>,
    sep: Seq<char>,
)
    ensures
        join(Seq::empty(), sep).len() == 0,
        join(seq![one], sep) == one,
        a.len() > 0 && b.len() > 0 ==> join(a + b, sep) == join(a, sep) + sep + join(b, sep),
    decreases b.len(),
{
    if a.len() > 0 && b.len() > 0 {
        let front = b.drop_last();
        assert(a + b =~= (a + front).push(b.last()));
        assert(b =~= front.push(b.last()));
        lemma_join_push(a + front, sep, b.last());
        lemma_join_push(front, sep, b.last());
        if front.len() > 0 {
            joining_puts_the_separator_between(a, front, one, sep);
            assert(join(a, sep) + sep + join(front, sep) + sep + b.last() =~= join(a, sep) + sep + (
            join(front, sep) + sep + b.last()));
        } else {
            assert(a + front =~= a);
        }
    }
}

/// The pieces of a text hold no separator, and joined by it they are the text again.
pub proof fn a_split_text_joins_back(s: Seq<char>, sep: char)
    ensures
        split(s, sep).len() >= 1,
        join(split(s, sep), seq![sep]) == s,
        forall|i: int| 0 <= i < split(s, sep).len() ==> !(#[trigger] split(s, sep)[i]).contains(sep),
    decreases s.len(),
{
    if s.len() > 0 {
        let front = s.drop_last();
        let parts = split(front, sep);
        a_split_text_joins_back(front, sep);
        assert(s =~= front.push(s.last()));
        if s.last() == sep {
            lemma_join_push(parts, seq![sep], Seq::empty());
            assert(front + seq![sep] + Seq::<char>::empty() =~= s);
        } else {
            let less = parts.drop_last();
            let piece = parts.last();
            let longer = piece.push(s.last());
            assert(parts =~= less.push(piece));
            lemma_join_push(less, seq![sep], piece);
            lemma_join_push(less, seq![sep], longer);
            if less.len() > 0 {
                assert(join(less, seq![sep]) + seq![sep] + longer =~= (join(less, seq![sep])
                    + seq![sep] + piece).push(s.last()));
            }
            assert(!parts[parts.len() - 1].contains(sep));
            assert(!longer.contains(sep)) by {
                if longer.contains(sep) {
                    let k = choose|k: int| 0 <= k < longer.len() && longer[k] == sep;
                    assert(piece[k] == sep);
                }
            }
            assert forall|i: int| 0 <= i < split(s, sep).len() implies !(
            #[trigger] split(s, sep)[i]).contains(sep) by {
                if i < less.len() {
                    assert(split(s, sep)[i] == parts[i]);
                }
            }
        }
    } else {
        lemma_join_push(Seq::empty(), seq![sep], s);
        assert(Seq::<Seq<char>>::empty().push(s) =~= seq![s]);
    }
}

/// Replacing a character puts the new text where the character splits the old one.
pub proof fn replacing_joins_the_pieces(s: Seq<char>, c: char, with: Seq<char>)
    ensures
        replaced(s, c, with) == join(split(s, c), with),
    decreases s.len(),
{
    if s.len() > 0 {
        let front = s.drop_last();
        let parts = split(front, c);
        replacing_joins_the_pieces(front, c, with);
        a_split_text_joins_back(front, c);
        if s.last() == c {
            lemma_join_push(parts, with, Seq::empty());
            assert(join(parts, with) + with + Seq::<char>::empty() =~= join(parts, with) + with);
        } else {
            let less = parts.drop_last();
            let piece = parts.last();
            let longer = piece.push(s.last());
            assert(parts =~= less.push(piece));
            lemma_join_push(less, with, piece);
            lemma_join_push(less, with, longer);
            if less.len() > 0 {
                assert(join(less, with) + with + longer =~= join(less, with) + with + piece
                    + seq![s.last()]);
            } else {
                assert(longer =~= piece + seq![s.last()]);
            }
        }
    } else {
        lemma_join_push(Seq::empty(), with, s);
        assert(Seq::<Seq<char>>::empty().push(s) =~= seq![s]);
    }
}

/// The items of a list are its pieces without the white space round them, in order; only those
/// of which nothing is left are left out.
pub proof fn items_are_the_pieces_that_say_something(pieces: Seq<Seq<char>>)
    ensures
        items(pieces) == pieces.map_values(|piece: Seq<char>| trimmed(piece)).filter(
            |item: Seq<char>| item.len() > 0,
        ),
    decreases pieces.len(),
{
    reveal(Seq::filter);
    let trim_piece = |piece: Seq<char>| trimmed(piece);
    if pieces.len() > 0 {
        items_are_the_pieces_that_say_something(pieces.drop_last());
        assert(pieces.map_values(trim_piece).drop_last() =~= pieces.drop_last().map_values(
            trim_piece,
        ));
    }
}

/// A text stands in another where each of its characters does, one behind the other.
pub proof fn a_text_stands_where_its_characters_do(s: Seq<char>, pat: Seq<char>, i: int)
    ensures
        stands_at(s, pat, i) <==> {
            &&& 0 <= i <= s.len() - pat.len()
            &&& forall|k: int| 0 <= k < pat.len() ==> s[i + k] == #[trigger] pat[k]
        },
        begins_with(s, pat) <==> stands_at(s, pat, 0),
        stands_at(s, pat, i) ==> holds_text(s, pat),
        begins_with(s, pat) <==> s.len() >= pat.len() && s.take(pat.len() as int) == pat,
        holds_text(s, pat) <==> exists|front: Seq<char>, back: Seq<char>|
            s == #[trigger] (front + pat + back),
{
    if stands_at(s, pat, i) {
        assert forall|k: int| 0 <= k < pat.len() implies s[i + k] == #[trigger] pat[k] by {
            assert(s.subrange(i, i + pat.len())[k] == pat[k]);
        }
    }
    if 0 <= i <= s.len() - pat.len() && forall|k: int|
        0 <= k < pat.len() ==> s[i + k] == #[trigger] pat[k] {
        assert(s.subrange(i, i + pat.len()) =~= pat);
    }
    if s.len() >= pat.len() {
        assert(s.subrange(0, pat.len() as int) =~= s.take(pat.len() as int));
    }
    if holds_text(s, pat) {
        let k = choose|k: int| stands_at(s, pat, k);
        assert(s =~= s.take(k) + pat + s.skip(k + pat.len())) by {
            assert(s.subrange(k, k + pat.len()) == pat);
            assert forall|n: int| 0 <= n < pat.len() implies s[k + n] == #[trigger] pat[n] by {
                assert(s.subrange(k, k + pat.len())[n] == pat[n]);
            }
        }
    }
    if exists|front: Seq<char>, back: Seq<char>| s == #[trigger] (front + pat + back) {
        let (front, back) = choose|front: Seq<char>, back: Seq<char>|
            s == #[trigger] (front + pat + back);
        assert(s.subrange(front.len() as int, front.len() as int + pat.len()) =~= pat);
        assert(stands_at(s, pat, front.len() as int));
    }
}

/// Before its first position and behind its last one a text has no such character, and -1 says
/// that it has none at all.
pub proof fn positions_are_the_outermost(s: Seq<char>, c: char)
    ensures
        first_index(s, c) == -1 <==> !s.contains(c),
        last_index(s, c) == -1 <==> !s.contains(c),
        s.contains(c) ==> {
            let first = first_index(s, c);
            let last = last_index(s, c);
            &&& 0 <= first <= last < s.len()
            &&& s[first] == c && s[last] == c
            &&& forall|i: int| 0 <= i < first ==> #[trigger] s[i] != c
            &&& forall|i: int| last < i < s.len() ==> #[trigger] s[i] != c
        },
    decreases s.len(),
{
    lemma_index_bounds(s, c);
    if s.len() > 0 {
        let front = s.drop_last();
        positions_are_the_outermost(front, c);
        if s.contains(c) {
            let k = choose|k: int| 0 <= k < s.len() && s[k] == c;
            if k < front.len() {
                assert(front[k] == c);
            }
        }
        if front.contains(c) {
            let k = choose|k: int| 0 <= k < front.len() && front[k] == c;
            assert(s[k] == c);
        }
        assert(s[s.len() - 1] == s.last());
        assert forall|i: int| 0 <= i < first_index(s, c) implies #[trigger] s[i] != c by {
            assert(front[i] == s[i]);
            assert(s[i] == c ==> front.contains(front[i]));
        }
        assert forall|i: int| 0 <= last_index(s, c) < i < s.len() implies #[trigger] s[i] != c by {
            if i < front.len() {
                assert(front[i] == s[i]);
            }
        }
    }
}

/// Lower case is a matter of the letters A to Z alone, and leaves every other character and the
/// length as they are.
pub proof fn lower_case_moves_the_letters_alone(s: Seq<char>)
    ensures
        ascii_lowered(s).len() == s.len(),
        forall|i: int| 0 <= i < s.len() ==> (#[trigger] ascii_lowered(s)[i]) as int == (if 65
            <= s[i] as int <= 90 {
            s[i] as int + 32
        } else {
            s[i] as int
        }),
{
}

/// A number and its decimal notation belong to each other: the notation is of digits alone, it
/// stands for the number, and it has no leading zero.
pub proof fn decimal_notation_stands_for_its_number(n: nat)
    ensures
        all_digits(decimal(n)),
        digits_value(decimal(n)) == n,
        decimal(n).len() >= 1,
        decimal(n)[0] == '0' ==> n == 0,
        n == 0 ==> decimal(n).len() == 1,
    decreases n,
{
    if n < 10 {
        let s = decimal(n);
        assert(s.drop_last() =~= Seq::<char>::empty());
        assert(digits_value(s.drop_last()) == 0);
    } else {
        decimal_notation_stands_for_its_number(n / 10);
        let front = decimal(n / 10);
        let s = decimal(n);
        assert(s.drop_last() =~= front);
        assert forall|i: int| 0 <= i < s.len() implies is_digit(#[trigger] s[i]) by {
            if i < front.len() {
                assert(is_digit(front[i]));
            }
        }
    }
}

/// A run of digits counts in tens from the left.
pub proof fn digits_count_in_tens(s: Seq<char>, c: char)
    ensures
        digits_value(Seq::empty()) == 0,
        digits_value(s.push(c)) == digits_value(s) * 10 + (c as int - 48),
{
    assert(s.push(c).drop_last() =~= s);
}

/// A number is read from one or more digits, with a plus sign before them or without, and from
/// nothing else; it is refused where it is above the bound.
pub proof fn numbers_are_digits_with_one_plus_at_most(s: Seq<char>, max: int)
    ensures
        unsigned_value(s, max) is Some <==> {
            ||| s.len() >= 1 && (forall|i: int|
                0 <= i < s.len() ==> 48 <= (#[trigger] s[i]) as int <= 57) && digits_value(s) <= max
            ||| s.len() >= 2 && s[0] == '+' && (forall|i: int|
                1 <= i < s.len() ==> 48 <= (#[trigger] s[i]) as int <= 57) && digits_value(
                s.skip(1),
            ) <= max
        },
        unsigned_value(s, max) matches Some(n) ==> {
            &&& n <= max
            &&& s[0] == '+' ==> n == digits_value(s.skip(1))
            &&& s[0] != '+' ==> n == digits_value(s)
        },
{
    let digits = without_plus(s);
    assert(s.len() > 0 ==> s.drop_first() =~= s.skip(1));
    if s.len() > 0 && s[0] == '+' {
        assert(forall|i: int| 0 <= i < digits.len() ==> #[trigger] digits[i] == s[i + 1]);
        if all_digits(digits) {
            assert forall|i: int| 1 <= i < s.len() implies 48 <= (#[trigger] s[i]) as int <= 57 by {
                assert(is_digit(digits[i - 1]));
            }
        }
        if forall|i: int| 1 <= i < s.len() ==> 48 <= (#[trigger] s[i]) as int <= 57 {
            assert forall|i: int| 0 <= i < digits.len() implies is_digit(#[trigger] digits[i]) by {
                assert(48 <= s[i + 1] as int <= 57);
            }
        }
    } else {
        if all_digits(s) {
            assert forall|i: int| 0 <= i < s.len() implies 48 <= (#[trigger] s[i]) as int <= 57 by {
                assert(is_digit(s[i]));
            }
        }
    }
}

/// A text that is made of pieces without the separator splits into those pieces.
pub proof fn a_joined_text_splits_back(parts: Seq<Seq<char>>, sep: char)
    requires
        parts.len() > 0,
        forall|i: int| 0 <= i < parts.len() ==> !(#[trigger] parts[i]).contains(sep),
    ensures
        split(join(parts, seq![sep]), sep) == parts,
    decreases parts.len(),
{
    let front = parts.drop_last();
    let last = parts.last();
    assert(!parts[parts.len() - 1].contains(sep));
    if front.len() == 0 {
        assert(parts =~= seq![last]);
        lemma_split_one(last, sep);
    } else {
        assert forall|i: int| 0 <= i < front.len() implies !(#[trigger] front[i]).contains(sep) by {
            assert(front[i] == parts[i]);
        }
        a_joined_text_splits_back(front, sep);
        lemma_split_behind(join(front, seq![sep]), last, sep);
        assert(front.push(last) =~= parts);
    }
}

proof fn lemma_split_one(s: Seq<char>, sep: char)
    requires
        !s.contains(sep),
    ensures
        split(s, sep) == seq![s],
    decreases s.len(),
{
    if s.len() > 0 {
        let front = s.drop_last();
        assert(s[s.len() - 1] != sep);
        assert(!front.contains(sep)) by {
            if front.contains(sep) {
                let i = choose|i: int| 0 <= i < front.len() && front[i] == sep;
                assert(s[i] == sep);
            }
        }
        lemma_split_one(front, sep);
        assert(front.push(s.last()) =~= s);
        assert(split(s, sep) =~= seq![s]);
    }
}

proof fn lemma_split_behind(front: Seq<char>, last: Seq<char>, sep: char)
    requires
        !last.contains(sep),
    ensures
        split(front + seq![sep] + last, sep) == split(front, sep).push(last),
    decreases last.len(),
{
    let s = front + seq![sep] + last;
    if last.len() == 0 {
        assert(s.drop_last() =~= front);
        assert(s.last() == sep);
        assert(last =~= Seq::<char>::empty());
    } else {
        let less = last.drop_last();
        assert(last[last.len() - 1] != sep);
        assert(!less.contains(sep)) by {
            if less.contains(sep) {
                let i = choose|i: int| 0 <= i < less.len() && less[i] == sep;
                assert(last[i] == sep);
            }
        }
        lemma_split_behind(front, less, sep);
        assert(s.drop_last() =~= front + seq![sep] + less);
        assert(s.last() == last.last());
        let parts = split(front, sep);
        assert(parts.push(less).drop_last() =~= parts);
        assert(less.push(last.last()) =~= last);
    }
}

/// Digits without a leading zero are the decimal notation of the number that they stand for.
pub proof fn digits_are_the_notation_of_their_number(s: Seq<char>)
    requires
        s.len() >= 1,
        all_digits(s),
        s[0] == '0' ==> s.len() == 1,
    ensures
        digits_value(s) >= 0,
        decimal(digits_value(s) as nat) == s,
    decreases s.len(),
{
    let front = s.drop_last();
    let d = digit_value(s.last());
    assert(is_digit(s[s.len() - 1]));
    assert(0 <= d <= 9);
    assert(digit_char(d) == s.last());
    if front.len() == 0 {
        assert(digits_value(front) == 0);
        assert(s =~= seq![digit_char(d)]);
    } else {
        assert(front[0] == s[0]);
        assert forall|i: int| 0 <= i < front.len() implies is_digit(#[trigger] front[i]) by {
            assert(is_digit(s[i]));
        }
        digits_are_the_notation_of_their_number(front);
        let n = digits_value(front);
        assert(n > 0) by {
            if n == 0 {
                assert(decimal(0) == front);
                assert(decimal(0) =~= seq!['0']);
                assert(front[0] == '0');
            }
        }
        assert((n * 10 + d) / 10 == n && (n * 10 + d) % 10 == d) by (nonlinear_arith)
            requires
                0 <= d <= 9,
                n > 0,
        ;
        assert(front.push(digit_char(d)) =~= s);
    }
}

} // verus!
