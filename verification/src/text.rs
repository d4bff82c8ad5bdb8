//! Text handling over character sequences: decimal numbers, ASCII case
//! folding, splitting, trimming and searching.

use vstd::prelude::*;
use vstd::string::*;

verus! {

/// `String::push` appends the character at the end of the string.
pub assume_specification[ String::push ](s: &mut String, c: char)
    ensures
        final(s)@ == old(s)@.push(c),
;

/// What the `Debug` formatting of a string slice yields: the text in double
/// quotes with control characters and quotes escaped.
pub uninterp spec fn str_debug(s: Seq<char>) -> Seq<char>;

/// Formats with `{:?}`, the `Debug` implementation of `str`. The result is a
/// function of the text alone and is known by name only.
#[verifier::external_body]
pub(crate) fn debug_str(s: &str) -> (r: String)
    ensures
        r@ == str_debug(s@),
{
    format!("{s:?}")
}

/// What the `Debug` formatting of a character yields: the character in single
/// quotes, escaped where it is not printable.
pub uninterp spec fn char_debug(c: char) -> Seq<char>;

/// Formats with `{:?}`, the `Debug` implementation of `char`. The result is a
/// function of the character alone and is known by name only.
#[verifier::external_body]
pub(crate) fn debug_char(c: char) -> (r: String)
    ensures
        r@ == char_debug(c),
{
    format!("{c:?}")
}

/// The characters of a string as a vector.
pub fn chars_of(s: &str) -> (r: Vec<char>)
    ensures
        r@ == s@,
{
    let mut out: Vec<char> = Vec::new();
    for c in it: s.chars()
        invariant
            out@ == it.seq().take(it.index()),
            it.seq() == s@,
    {
        out.push(c);
    }
    out
}

/// The string made of the given characters.
pub fn text_of(chars: &[char]) -> (r: String)
    ensures
        r@ == chars@,
{
    let mut out = String::new();
    for i in 0..chars.len()
        invariant
            out@ == chars@.take(i as int),
    {
        out.push(chars[i]);
    }
    assert(chars@.take(chars@.len() as int) == chars@);
    out
}

/// Whether two texts are equal.
pub fn same(a: &str, b: &str) -> (r: bool)
    ensures
        r == (a@ == b@),
{
    a.to_owned() == b.to_owned()
}

/// The decimal digit with value `d`.
pub open spec fn digit(d: int) -> char {
    ('0' as int + d) as char
}

/// Decimal notation without leading zeros.
pub open spec fn decimal(n: nat) -> Seq<char>
    decreases n,
{
    if n < 10 {
        seq![digit(n as int)]
    } else {
        decimal(n / 10).push(digit(n as int % 10))
    }
}

/// Decimal notation of an integer, with a leading minus sign if negative.
pub open spec fn decimal_int(n: int) -> Seq<char> {
    if n < 0 {
        seq!['-'] + decimal((-n) as nat)
    } else {
        decimal(n as nat)
    }
}

fn digit_char(d: u64) -> (r: char)
    requires
        d < 10,
    ensures
        r == digit(d as int),
{
    (('0' as u8) + (d as u8)) as char
}

/// Writes an unsigned number in decimal.
pub fn decimal_u64(n: u64) -> (r: String)
    ensures
        r@ == decimal(n as nat),
    decreases n,
{
    if n < 10 {
        let mut out = String::new();
        out.push(digit_char(n));
        assert(out@ == seq![digit(n as int)]);
        out
    } else {
        let mut out = decimal_u64(n / 10);
        out.push(digit_char(n % 10));
        out
    }
}

/// Writes a signed number in decimal.
pub fn decimal_i32(n: i32) -> (r: String)
    ensures
        r@ == decimal_int(n as int),
{
    if n < 0 {
        let magnitude: u64 = (-(n as i64)) as u64;
        let mut out = "-".to_owned();
        out.append(&decimal_u64(magnitude));
        proof {
            reveal_strlit("-");
            assert("-"@ == seq!['-']);
        }
        out
    } else {
        decimal_u64(n as u64)
    }
}

/// ASCII lower case of one character; all others are kept.
pub open spec fn lower_char(c: char) -> char {
    if 'A' <= c <= 'Z' {
        (c as int + 32) as char
    } else {
        c
    }
}

/// ASCII lower case of a text.
pub open spec fn lower(s: Seq<char>) -> Seq<char> {
    s.map_values(|c: char| lower_char(c))
}

/// Converts `A` to `Z` to lower case and keeps every other character.
pub fn to_lower(s: &str) -> (r: String)
    ensures
        r@ == lower(s@),
{
    let chars = chars_of(s);
    let mut out = String::new();
    for i in 0..chars.len()
        invariant
            chars@ == s@,
            out@ == lower(s@.take(i as int)),
    {
        let c = chars[i];
        let l = if 'A' <= c && c <= 'Z' {
            ((c as u8) + 32) as char
        } else {
            c
        };
        out.push(l);
        assert(out@ == lower(s@.take(i + 1)));
    }
    assert(s@.take(s@.len() as int) == s@);
    out
}

/// Whether `needle` stands in `hay` starting at position `at`.
pub open spec fn occurs_at(hay: Seq<char>, needle: Seq<char>, at: int) -> bool {
    &&& 0 <= at
    &&& at + needle.len() <= hay.len()
    &&& hay.subrange(at, at + needle.len()) == needle
}

/// Whether `needle` occurs in `hay`.
pub open spec fn occurs(hay: Seq<char>, needle: Seq<char>) -> bool {
    exists|at: int| occurs_at(hay, needle, at)
}

fn occurs_here(hay: &Vec<char>, needle: &Vec<char>, at: usize) -> (r: bool)
    requires
        at + needle@.len() <= hay@.len(),
    ensures
        r == occurs_at(hay@, needle@, at as int),
{
    let room = hay.len() - needle.len();
    for i in 0..needle.len()
        invariant
            at <= room,
            room + needle@.len() == hay@.len(),
            hay@.len() <= usize::MAX,
            forall|j: int| 0 <= j < i ==> hay@[at + j] == #[trigger] needle@[j],
    {
        if hay[at + i] != needle[i] {
            assert(hay@.subrange(at as int, at + needle@.len())[i as int] != needle@[i as int]);
            return false;
        }
    }
    assert(hay@.subrange(at as int, at + needle@.len()) =~= needle@);
    true
}

/// Whether `needle` occurs in `hay`.
pub fn contains(hay: &str, needle: &str) -> (r: bool)
    ensures
        r == occurs(hay@, needle@),
{
    let h = chars_of(hay);
    let n = chars_of(needle);
    if n.len() > h.len() {
        return false;
    }
    let last = h.len() - n.len();
    for at in 0..last
        invariant
            h@ == hay@,
            n@ == needle@,
            last == h@.len() - n@.len(),
            forall|k: int| 0 <= k < at ==> !occurs_at(hay@, needle@, k),
    {
        if occurs_here(&h, &n, at) {
            return true;
        }
    }
    occurs_here(&h, &n, last)
}

/// Unicode `White_Space`, the characters that trimming removes.
pub open spec fn is_space(c: char) -> bool {
    ||| '\u{9}' <= c <= '\u{d}'
    ||| c == ' '
    ||| c == '\u{85}'
    ||| c == '\u{a0}'
    ||| c == '\u{1680}'
    ||| '\u{2000}' <= c <= '\u{200a}'
    ||| c == '\u{2028}'
    ||| c == '\u{2029}'
    ||| c == '\u{202f}'
    ||| c == '\u{205f}'
    ||| c == '\u{3000}'
}

fn space(c: char) -> (r: bool)
    ensures
        r == is_space(c),
{
    ('\u{9}' <= c && c <= '\u{d}') || c == ' ' || c == '\u{85}' || c == '\u{a0}' || c
        == '\u{1680}' || ('\u{2000}' <= c && c <= '\u{200a}') || c == '\u{2028}' || c
        == '\u{2029}' || c == '\u{202f}' || c == '\u{205f}' || c == '\u{3000}'
}

/// The text without leading white space.
pub open spec fn trim_start(s: Seq<char>) -> Seq<char>
    decreases s.len(),
{
    if s.len() > 0 && is_space(s[0]) {
        trim_start(s.drop_first())
    } else {
        s
    }
}

/// The text without trailing white space.
pub open spec fn trim_end(s: Seq<char>) -> Seq<char>
    decreases s.len(),
{
    if s.len() > 0 && is_space(s.last()) {
        trim_end(s.drop_last())
    } else {
        s
    }
}

/// The text without leading and trailing white space.
pub open spec fn trimmed(s: Seq<char>) -> Seq<char> {
    trim_end(trim_start(s))
}

/// Removes leading and trailing white space.
pub fn trim(s: &str) -> (r: String)
    ensures
        r@ == trimmed(s@),
{
    let chars = chars_of(s);
    let mut from: usize = 0;
    assert(s@.skip(0) == s@);
    while from < chars.len() && space(chars[from])
        invariant
            chars@ == s@,
            from <= chars@.len(),
            trim_start(s@) == trim_start(s@.skip(from as int)),
        decreases chars@.len() - from,
    {
        assert(s@.skip(from as int).drop_first() == s@.skip(from + 1));
        from = from + 1;
    }
    assert(trim_start(s@) == s@.skip(from as int));
    let mut to: usize = chars.len();
    assert(s@.subrange(from as int, to as int) == s@.skip(from as int));
    while from < to && space(chars[to - 1])
        invariant
            chars@ == s@,
            from <= to <= chars@.len(),
            trimmed(s@) == trim_end(s@.subrange(from as int, to as int)),
        decreases to,
    {
        assert(s@.subrange(from as int, to as int).drop_last() == s@.subrange(
            from as int,
            to - 1,
        ));
        to = to - 1;
    }
    assert(trimmed(s@) == s@.subrange(from as int, to as int));
    text_of(vstd::slice::slice_subrange(chars.as_slice(), from, to))
}

/// The pieces of a text between separators: one more piece than there are
/// separators, so an empty text has one empty piece.
pub open spec fn pieces(s: Seq<char>, sep: char) -> Seq<Seq<char>>
    decreases s.len(),
{
    if s.len() == 0 {
        seq![Seq::empty()]
    } else {
        let before = pieces(s.drop_last(), sep);
        if s.last() == sep {
            before.push(Seq::empty())
        } else {
            before.drop_last().push(before.last().push(s.last()))
        }
    }
}

/// The views of a vector of strings.
pub open spec fn texts(v: Seq<String>) -> Seq<Seq<char>> {
    v.map_values(|s: String| s@)
}

/// How often a character stands in a text.
pub open spec fn occurrences(s: Seq<char>, c: char) -> nat
    decreases s.len(),
{
    if s.len() == 0 {
        0
    } else if s.last() == c {
        occurrences(s.drop_last(), c) + 1
    } else {
        occurrences(s.drop_last(), c)
    }
}

pub proof fn lemma_piece_count(s: Seq<char>, sep: char)
    ensures
        pieces(s, sep).len() == occurrences(s, sep) + 1,
    decreases s.len(),
{
    if s.len() > 0 {
        lemma_piece_count(s.drop_last(), sep);
    }
}

/// Splits a text at every separator.
pub fn split(s: &str, sep: char) -> (r: Vec<String>)
    ensures
        texts(r@) == pieces(s@, sep),
        r@.len() >= 1,
{
    let chars = chars_of(s);
    let mut out: Vec<String> = Vec::new();
    let mut piece = String::new();
    assert(texts(out@).push(piece@) == pieces(s@.take(0), sep));
    for i in 0..chars.len()
        invariant
            chars@ == s@,
            texts(out@).push(piece@) == pieces(s@.take(i as int), sep),
    {
        let c = chars[i];
        let ghost before = pieces(s@.take(i as int), sep);
        assert(s@.take(i + 1).drop_last() == s@.take(i as int));
        assert(before.drop_last() == texts(out@));
        if c == sep {
            let done = piece;
            piece = String::new();
            let ghost old_out = out@;
            out.push(done);
            assert(texts(out@) == texts(old_out).push(done@));
        } else {
            piece.push(c);
        }
        assert(texts(out@).push(piece@) == pieces(s@.take(i + 1), sep));
    }
    assert(s@.take(s@.len() as int) == s@);
    let ghost old_out = out@;
    out.push(piece);
    assert(texts(out@) == texts(old_out).push(piece@));
    out
}

/// The number that decimal digits stand for.
pub open spec fn number(digits: Seq<char>) -> int
    decreases digits.len(),
{
    if digits.len() == 0 {
        0
    } else {
        10 * number(digits.drop_last()) + (digits.last() as int - '0' as int)
    }
}

/// Law: decimal notation consists of digits, reads back as the number, and has
/// no leading zero but that of zero itself. A minus sign stands in front of
/// exactly the negative numbers.
pub proof fn law_decimals_read_back(n: nat, k: int, signed: int)
    ensures
        number(decimal(n)) == n,
        decimal(n).len() >= 1,
        0 <= k < decimal(n).len() ==> '0' <= decimal(n)[k] <= '9',
        decimal(n)[0] == '0' ==> decimal(n).len() == 1,
        signed >= 0 ==> decimal_int(signed) == decimal(signed as nat),
        signed < 0 ==> decimal_int(signed) == seq!['-'] + decimal((-signed) as nat),
    decreases n,
{
    if n < 10 {
        let one = seq![digit(n as int)];
        assert(one.drop_last() =~= Seq::<char>::empty());
        assert(number(one.drop_last()) == 0);
    } else {
        law_decimals_read_back(n / 10, k, signed);
        law_decimals_read_back(n / 10, 0, signed);
        let all = decimal(n);
        assert(all.drop_last() =~= decimal(n / 10));
        if decimal(n / 10)[0] == '0' {
            assert(decimal(n / 10).len() == 1);
            let one = decimal(n / 10);
            assert(one.drop_last() =~= Seq::<char>::empty());
            assert(number(one.drop_last()) == 0);
            assert(number(one) == 0);
        }
    }
}

/// Law: lower case changes the 26 capital letters into the small ones, place by
/// place, and no other character.
pub proof fn law_lower_case_changes_capitals_only(s: Seq<char>, k: int)
    requires
        0 <= k < s.len(),
    ensures
        lower(s).len() == s.len(),
        'A' <= s[k] <= 'Z' ==> lower(s)[k] as int - 'a' as int == s[k] as int - 'A' as int,
        !('A' <= s[k] <= 'Z') ==> lower(s)[k] == s[k],
{
}

/// Law: a text occurs in another exactly if it stands there from some place on,
/// character by character.
pub proof fn law_occurring_is_standing_somewhere(hay: Seq<char>, needle: Seq<char>)
    ensures
        occurs(hay, needle) <==> exists|before: Seq<char>, after: Seq<char>|
            hay == #[trigger] (before + needle + after),
{
    if occurs(hay, needle) {
        let at = choose|at: int| occurs_at(hay, needle, at);
        let before = hay.take(at);
        let after = hay.skip(at + needle.len());
        assert(hay.subrange(at, at + needle.len()) =~= needle);
        assert(hay =~= before + needle + after);
    }
    if exists|before: Seq<char>, after: Seq<char>| hay == #[trigger] (before + needle + after) {
        let (before, after) = choose|before: Seq<char>, after: Seq<char>|
            hay == #[trigger] (before + needle + after);
        let at = before.len() as int;
        assert(hay.subrange(at, at + needle.len()) =~= needle);
        assert(occurs_at(hay, needle, at));
    }
}

/// Law: white space is what Unicode calls so.
pub proof fn law_white_space_is_that_of_unicode(c: char)
    ensures
        is_space(c) <==> {
            let n = c as int;
            ||| 0x9 <= n <= 0xd
            ||| n == 0x20
            ||| n == 0x85
            ||| n == 0xa0
            ||| n == 0x1680
            ||| 0x2000 <= n <= 0x200a
            ||| n == 0x2028
            ||| n == 0x2029
            ||| n == 0x202f
            ||| n == 0x205f
            ||| n == 0x3000
        },
{
}

proof fn lemma_trim_start(s: Seq<char>) -> (n: int)
    ensures
        0 <= n <= s.len(),
        trim_start(s) == s.skip(n),
        forall|k: int| 0 <= k < n ==> is_space(#[trigger] s[k]),
        n < s.len() ==> !is_space(s[n]),
    decreases s.len(),
{
    if s.len() > 0 && is_space(s[0]) {
        let rest = s.drop_first();
        let m = lemma_trim_start(rest);
        assert(rest.skip(m) =~= s.skip(m + 1));
        assert forall|k: int| 0 <= k < m + 1 implies is_space(#[trigger] s[k]) by {
            if k > 0 {
                assert(is_space(rest[k - 1]));
            }
        }
        if m < rest.len() {
            assert(rest[m] == s[m + 1]);
        }
        m + 1
    } else {
        assert(s.skip(0) =~= s);
        0
    }
}

proof fn lemma_trim_end(s: Seq<char>) -> (n: int)
    ensures
        0 <= n <= s.len(),
        trim_end(s) == s.take(n),
        forall|k: int| n <= k < s.len() ==> is_space(#[trigger] s[k]),
        n > 0 ==> !is_space(s[n - 1]),
    decreases s.len(),
{
    if s.len() > 0 && is_space(s.last()) {
        let rest = s.drop_last();
        let m = lemma_trim_end(rest);
        assert(rest.take(m) =~= s.take(m));
        assert forall|k: int| m <= k < s.len() implies is_space(#[trigger] s[k]) by {
            if k < s.len() - 1 {
                assert(is_space(rest[k]));
            }
        }
        if m > 0 {
            assert(rest[m - 1] == s[m - 1]);
        }
        m
    } else {
        assert(s.take(s.len() as int) =~= s);
        s.len() as int
    }
}

/// Law: trimming cuts white space off both ends and nothing else: what is left
/// is the part from the first to the last character that is none.
pub proof fn law_trimming_cuts_white_space_off_the_ends(s: Seq<char>) -> (cut: (int, int))
    ensures
        0 <= cut.0 <= cut.1 <= s.len(),
        trimmed(s) == s.subrange(cut.0, cut.1),
        forall|k: int| 0 <= k < cut.0 ==> is_space(#[trigger] s[k]),
        forall|k: int| cut.1 <= k < s.len() ==> is_space(#[trigger] s[k]),
        cut.0 < cut.1 ==> !is_space(s[cut.0]) && !is_space(s[cut.1 - 1]),
{
    let a = lemma_trim_start(s);
    let rest = s.skip(a);
    let b = lemma_trim_end(rest);
    assert(rest.take(b) =~= s.subrange(a, a + b));
    assert forall|k: int| a + b <= k < s.len() implies is_space(#[trigger] s[k]) by {
        assert(is_space(rest[k - a]));
    }
    if b > 0 {
        assert(rest[b - 1] == s[a + b - 1]);
        assert(a < s.len());
    }
    (a, a + b)
}

/// Law: a text without the separator is one piece, and a separator ends a piece:
/// the pieces of two texts with a separator between them are those of the first
/// and those of the second.
pub proof fn law_pieces_lie_between_separators(a: Seq<char>, b: Seq<char>, sep: char)
    ensures
        !a.contains(sep) ==> pieces(a, sep) == seq![a],
        pieces(a.push(sep) + b, sep) == pieces(a, sep) + pieces(b, sep),
        pieces(a, sep).len() >= 1,
    decreases a.len() + b.len(),
{
    if a.len() > 0 {
        let front = a.drop_last();
        law_pieces_lie_between_separators(front, Seq::empty(), sep);
        if !a.contains(sep) {
            assert(!front.contains(sep)) by {
                if front.contains(sep) {
                    let i = front.index_of(sep);
                    assert(a[i] == sep);
                }
            }
            assert(a[a.len() - 1] == a.last());
            let before = pieces(front, sep);
            assert(before.last().push(a.last()) =~= a);
            assert(pieces(a, sep) =~= seq![a]);
        }
    } else {
        assert(a =~= Seq::<char>::empty());
    }
    if b.len() == 0 {
        assert((a.push(sep) + b).drop_last() =~= a);
        assert((a.push(sep) + b).last() == sep);
        assert(pieces(a.push(sep) + b, sep) =~= pieces(a, sep) + pieces(b, sep));
    } else {
        let rest = b.drop_last();
        law_pieces_lie_between_separators(a, rest, sep);
        law_pieces_lie_between_separators(rest, Seq::empty(), sep);
        assert((a.push(sep) + b).drop_last() =~= a.push(sep) + rest);
        assert((a.push(sep) + b).last() == b.last());
        assert(pieces(a.push(sep) + b, sep) =~= pieces(a, sep) + pieces(b, sep));
    }
}

/// Law: the texts of strings are those of the strings, in their order.
pub proof fn law_texts_are_those_of_the_strings(v: Seq<String>, k: int)
    ensures
        texts(v).len() == v.len(),
        0 <= k < v.len() ==> texts(v)[k] == v[k]@,
{
}

} // verus!
