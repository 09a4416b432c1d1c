//! Characters and display widths: the bridge to `unicode-width` and the
//! few `String` operations that the library needs.

use vstd::prelude::*;

use unicode_width::UnicodeWidthChar;

verus! {

/// What `unicode_width::UnicodeWidthChar::width` returns for `c`: the
/// number of columns the character occupies, or `None` for a control
/// character.
pub uninterp spec fn unicode_width_of(c: char) -> Option<usize>;

/// The ranges of the glyphs this library draws that the width tables of
/// `unicode_width` mark one column wide: Latin-1 and Latin Extended letters
/// and signs (`U+00A0..U+02FF` but the soft hyphen `U+00AD`), dashes,
/// quotes and `…` (`U+2010..U+2029`), super- and subscripts
/// (`U+2070..U+209F`), arrows and mathematical operators
/// (`U+2190..U+22FF`), box drawing, block elements and geometric shapes
/// (`U+2500..U+25FC`), the first miscellaneous symbols and ballot boxes
/// (`U+2600..U+2613`), braille (`U+2800..U+28FF`) and the private-use
/// areas used by icon fonts (`U+E000..U+F8FF`, `U+F0000..U+FFFFD`).
pub open spec fn narrow_glyph(u: u32) -> bool {
    ||| (0xA0 <= u <= 0xAC)
    ||| (0xAE <= u <= 0x2FF)
    ||| (0x2010 <= u <= 0x2029)
    ||| (0x2070 <= u <= 0x209F)
    ||| (0x2190 <= u <= 0x22FF)
    ||| (0x2500 <= u <= 0x25FC)
    ||| (0x2600 <= u <= 0x2613)
    ||| (0x2800 <= u <= 0x28FF)
    ||| (0xE000 <= u <= 0xF8FF)
    ||| (0xF0000 <= u <= 0xFFFFD)
}

/// Calls `unicode_width::UnicodeWidthChar::width`. Claimed here, as the
/// crate's source (`lookup::single_char_width` and the tables it reads)
/// shows: the result is the named `unicode_width_of(c)`; printable ASCII
/// (`U+0020..U+007E`) is one column; the C0 controls and
/// `U+007F..U+009F` have no width (`None`); the ranges of `narrow_glyph`
/// are one column (their two-bit table entries are 1, read from
/// `WIDTH_ROOT`, `WIDTH_MIDDLE` and `WIDTH_LEAVES`); no character is wider
/// than three columns (two-bit table entries, one exception of width 3).
#[verifier::external_body]
fn unicode_width(c: char) -> (r: Option<usize>)
    ensures
        r == unicode_width_of(c),
        0x20 <= (c as u32) < 0x7F ==> r == Some(1usize),
        narrow_glyph(c as u32) ==> r == Some(1usize),
        ((c as u32) < 0x20 || (0x7F <= (c as u32) && (c as u32) < 0xA0)) ==> r is None,
        r matches Some(w) ==> w <= 3,
{
    UnicodeWidthChar::width(c)
}

/// Columns a character occupies on the grid (control characters: 0).
pub open spec fn cell_width(c: char) -> int {
    match unicode_width_of(c) {
        Some(w) => w as int,
        None => 0,
    }
}

/// Display width of `c` in columns (`0` for control characters).
pub fn char_width(c: char) -> (r: u16)
    ensures
        r == cell_width(c),
        r <= 3,
        0x20 <= (c as u32) < 0x7F ==> r == 1,
        narrow_glyph(c as u32) ==> r == 1,
{
    match unicode_width(c) {
        Some(w) => w as u16,
        None => 0,
    }
}

/// Total display width of `s`, saturated at `u16::MAX` step by step.
pub open spec fn seq_width(s: Seq<char>) -> int
    decreases s.len(),
{
    if s.len() == 0 {
        0
    } else {
        let rest = seq_width(s.drop_last());
        let w = cell_width(s.last());
        if rest + w > u16::MAX { u16::MAX as int } else { rest + w }
    }
}

pub proof fn lemma_seq_width_bounds(s: Seq<char>)
    ensures
        0 <= seq_width(s) <= u16::MAX,
    decreases s.len(),
{
    if s.len() > 0 {
        lemma_seq_width_bounds(s.drop_last());
    }
}

/// Whether `c` has the Unicode `White_Space` property.
pub open spec fn is_white_space(c: char) -> bool {
    let u = c as u32;
    (0x09 <= u && u <= 0x0D) || u == 0x20 || u == 0x85 || u == 0xA0 || u == 0x1680 || (0x2000 <= u
        && u <= 0x200A) || u == 0x2028 || u == 0x2029 || u == 0x202F || u == 0x205F || u == 0x3000
}

/// Whether `c` has the Unicode `White_Space` property (what
/// `char::is_whitespace` tests).
pub(crate) fn char_is_whitespace(c: char) -> (r: bool)
    ensures
        r == is_white_space(c),
{
    ('\u{09}' <= c && c <= '\u{0D}') || c == ' ' || c == '\u{85}' || c == '\u{A0}' || c == '\u{1680}' || (
    '\u{2000}' <= c && c <= '\u{200A}') || c == '\u{2028}' || c == '\u{2029}' || c == '\u{202F}' || c
        == '\u{205F}' || c == '\u{3000}'
}

/// What `char::is_alphabetic` returns for `c` (the Unicode `Alphabetic`
/// property).
pub uninterp spec fn alphabetic(c: char) -> bool;

/// Calls `char::is_alphabetic`. Claimed: the result is the named
/// `alphabetic(c)`; the ASCII letters have the property and the ASCII
/// digits, space, `&` and `.` do not, as its documentation states of the
/// `Alphabetic` property.
#[verifier::external_body]
pub(crate) fn char_is_alphabetic(c: char) -> (r: bool)
    ensures
        r == alphabetic(c),
        ('a' <= c && c <= 'z') || ('A' <= c && c <= 'Z') ==> r,
        ('0' <= c && c <= '9') || c == ' ' || c == '&' || c == '.' ==> !r,
{
    c.is_alphabetic()
}

/// Whether `c` is in the Unicode general category `Cc` (control codes).
pub open spec fn is_control_char(c: char) -> bool {
    let u = c as u32;
    u <= 0x1F || (0x7F <= u && u <= 0x9F)
}

/// Whether `c` is a control code (general category `Cc`, what
/// `char::is_control` tests).
pub(crate) fn char_is_control(c: char) -> (r: bool)
    ensures
        r == is_control_char(c),
{
    c <= '\u{1F}' || ('\u{7F}' <= c && c <= '\u{9F}')
}

/// `c` with an ASCII capital letter mapped to its small letter.
pub open spec fn ascii_lower(c: char) -> char {
    if 'A' <= c && c <= 'Z' {
        ((c as u32) + 32) as char
    } else {
        c
    }
}

/// `c` with an ASCII capital letter made small (what
/// `char::to_ascii_lowercase` does).
pub(crate) fn to_ascii_lower(c: char) -> (r: char)
    ensures
        r == ascii_lower(c),
{
    if 'A' <= c && c <= 'Z' {
        let b: u8 = c as u8;
        ((b + 32) as char)
    } else {
        c
    }
}

/// `c` with an ASCII small letter mapped to its capital letter.
pub open spec fn ascii_upper(c: char) -> char {
    if 'a' <= c && c <= 'z' {
        ((c as u32) - 32) as char
    } else {
        c
    }
}

/// `c` with an ASCII small letter made capital (what
/// `char::to_ascii_uppercase` does).
pub(crate) fn to_ascii_upper(c: char) -> (r: char)
    ensures
        r == ascii_upper(c),
{
    if 'a' <= c && c <= 'z' {
        let b: u8 = c as u8;
        ((b - 32) as char)
    } else {
        c
    }
}

/// `'0'..='9'`.
pub fn is_ascii_digit(c: char) -> (r: bool)
    ensures
        r == ('0' <= c && c <= '9'),
{
    c >= '0' && c <= '9'
}

/// The characters of `s`, in order.
pub fn chars_of(s: &str) -> (r: Vec<char>)
    ensures
        r@ == s@,
{
    let n = s.unicode_len();
    let mut out: Vec<char> = Vec::new();
    let mut i: usize = 0;
    while i < n
        invariant
            n == s@.len(),
            i <= n,
            out@ == s@.subrange(0, i as int),
        decreases n - i,
    {
        let c = s.get_char(i);
        out.push(c);
        i += 1;
        assert(out@ =~= s@.subrange(0, i as int));
    }
    assert(out@ =~= s@);
    out
}

/// Calls `String::push`: appends `c` at the end of `s`.
#[verifier::external_body]
pub(crate) fn string_push(s: &mut String, c: char)
    ensures
        final(s)@ == old(s)@.push(c),
{
    s.push(c);
}

/// A `String` holding exactly the characters `cs`.
pub fn string_from_chars(cs: &Vec<char>) -> (r: String)
    ensures
        r@ == cs@,
{
    let mut out = String::new();
    let mut i: usize = 0;
    while i < cs.len()
        invariant
            i <= cs.len(),
            out@ == cs@.subrange(0, i as int),
        decreases cs.len() - i,
    {
        string_push(&mut out, cs[i]);
        i += 1;
        assert(out@ =~= cs@.subrange(0, i as int));
    }
    assert(out@ =~= cs@);
    out
}


/// The decimal digit character of `d` (for `0 <= d <= 9`).
pub open spec fn digit_char(d: int) -> char {
    if d <= 0 {
        '0'
    } else if d == 1 {
        '1'
    } else if d == 2 {
        '2'
    } else if d == 3 {
        '3'
    } else if d == 4 {
        '4'
    } else if d == 5 {
        '5'
    } else if d == 6 {
        '6'
    } else if d == 7 {
        '7'
    } else if d == 8 {
        '8'
    } else {
        '9'
    }
}

/// The decimal numeral of `n`, most significant digit first, as `{}`
/// formats an unsigned integer.
pub open spec fn decimal(n: nat) -> Seq<char>
    decreases n,
{
    if n < 10 {
        seq![digit_char(n as int)]
    } else {
        decimal(n / 10).push(digit_char((n % 10) as int))
    }
}

/// The character of one decimal digit.
pub fn digit_of(d: u64) -> (c: char)
    requires
        d < 10,
    ensures
        c == digit_char(d as int),
{
    if d == 0 {
        '0'
    } else if d == 1 {
        '1'
    } else if d == 2 {
        '2'
    } else if d == 3 {
        '3'
    } else if d == 4 {
        '4'
    } else if d == 5 {
        '5'
    } else if d == 6 {
        '6'
    } else if d == 7 {
        '7'
    } else if d == 8 {
        '8'
    } else {
        '9'
    }
}

/// The decimal numeral of `n`.
pub fn decimal_chars(n: u64) -> (r: Vec<char>)
    ensures
        r@ == decimal(n as nat),
    decreases n,
{
    if n < 10 {
        let mut v: Vec<char> = Vec::new();
        v.push(digit_of(n));
        assert(v@ =~= decimal(n as nat));
        v
    } else {
        let mut v = decimal_chars(n / 10);
        v.push(digit_of(n % 10));
        v
    }
}

/// Whether `code` is a Unicode scalar value (a code point that is not a
/// surrogate).
pub open spec fn is_scalar(code: int) -> bool {
    (0 <= code < 0xD800) || (0xE000 <= code <= 0x10FFFF)
}

/// Calls `char::from_u32`, documented to return the character of `code`
/// when it is a Unicode scalar value and `None` otherwise.
#[verifier::external_body]
pub(crate) fn char_from_u32(code: u32) -> (r: Option<char>)
    ensures
        is_scalar(code as int) ==> r == Some(code as char),
        !is_scalar(code as int) ==> r is None,
{
    char::from_u32(code)
}

/// Number of characters of `s`.
pub fn str_len(s: &str) -> (r: usize)
    ensures
        r == s@.len(),
{
    s.unicode_len()
}

/// The characters `a..b` of `s`.
pub fn str_slice(s: &str, a: usize, b: usize) -> (r: String)
    requires
        a <= b <= s@.len(),
    ensures
        r@ == s@.subrange(a as int, b as int),
{
    let cs = chars_of(s);
    let mut out: Vec<char> = Vec::new();
    let mut i: usize = a;
    while i < b
        invariant
            a <= i <= b,
            b <= cs@.len(),
            cs@ == s@,
            out@ == s@.subrange(a as int, i as int),
        decreases b - i,
    {
        out.push(cs[i]);
        i += 1;
        assert(out@ =~= s@.subrange(a as int, i as int));
    }
    string_from_chars(&out)
}

/// `a` followed by `b`.
pub fn str_concat(a: &str, b: &str) -> (r: String)
    ensures
        r@ == a@ + b@,
{
    let mut out = chars_of(a);
    let mut tail = chars_of(b);
    out.append(&mut tail);
    string_from_chars(&out)
}

/// `s` with `c` inserted before character `i`.
pub fn str_insert(s: &str, i: usize, c: char) -> (r: String)
    requires
        i <= s@.len(),
    ensures
        r@ == s@.insert(i as int, c),
{
    let mut cs = chars_of(s);
    cs.insert(i, c);
    string_from_chars(&cs)
}

/// `s` without its character `i`.
pub fn str_remove(s: &str, i: usize) -> (r: String)
    requires
        i < s@.len(),
    ensures
        r@ == s@.remove(i as int),
{
    let mut cs = chars_of(s);
    cs.remove(i);
    string_from_chars(&cs)
}

/// Lexicographic order of character sequences (by code point), the order
/// of `String`s.
pub open spec fn char_seq_le(a: Seq<char>, b: Seq<char>) -> bool
    decreases a.len(),
{
    if a.len() == 0 {
        true
    } else if b.len() == 0 {
        false
    } else if (a[0] as int) < (b[0] as int) {
        true
    } else if (a[0] as int) > (b[0] as int) {
        false
    } else {
        char_seq_le(a.drop_first(), b.drop_first())
    }
}

proof fn lemma_char_seq_le_refl(a: Seq<char>)
    ensures
        char_seq_le(a, a),
    decreases a.len(),
{
    if a.len() > 0 {
        lemma_char_seq_le_refl(a.drop_first());
    }
}

proof fn lemma_char_seq_le_antisym(a: Seq<char>, b: Seq<char>)
    requires
        char_seq_le(a, b),
        char_seq_le(b, a),
    ensures
        a == b,
    decreases a.len(),
{
    if a.len() == 0 || b.len() == 0 {
        assert(a.len() == 0 && b.len() == 0);
        assert(a =~= b);
    } else {
        assert(a[0] == b[0]);
        lemma_char_seq_le_antisym(a.drop_first(), b.drop_first());
        assert(a =~= seq![a[0]] + a.drop_first());
        assert(b =~= seq![b[0]] + b.drop_first());
    }
}

proof fn lemma_char_seq_le_trans(a: Seq<char>, b: Seq<char>, c: Seq<char>)
    requires
        char_seq_le(a, b),
        char_seq_le(b, c),
    ensures
        char_seq_le(a, c),
    decreases a.len(),
{
    if a.len() > 0 && b.len() > 0 && c.len() > 0 {
        if a[0] == b[0] && b[0] == c[0] {
            lemma_char_seq_le_trans(a.drop_first(), b.drop_first(), c.drop_first());
        }
    } else if a.len() > 0 && b.len() > 0 {
        assert(c.len() == 0);
    }
}

proof fn lemma_char_seq_le_total(a: Seq<char>, b: Seq<char>)
    ensures
        char_seq_le(a, b) || char_seq_le(b, a),
    decreases a.len(),
{
    if a.len() > 0 && b.len() > 0 {
        lemma_char_seq_le_total(a.drop_first(), b.drop_first());
    }
}

/// The order as a relation.
pub open spec fn char_seq_leq() -> spec_fn(Seq<char>, Seq<char>) -> bool {
    |a: Seq<char>, b: Seq<char>| char_seq_le(a, b)
}

/// The lexicographic order is a total order.
pub proof fn lemma_char_seq_total_ordering()
    ensures
        vstd::relations::total_ordering(char_seq_leq()),
{
    assert forall|a: Seq<char>| #[trigger] char_seq_leq()(a, a) by {
        lemma_char_seq_le_refl(a);
    }
    assert forall|a: Seq<char>, b: Seq<char>| #[trigger] char_seq_leq()(a, b) && #[trigger] char_seq_leq()(b, a) implies a == b by {
        lemma_char_seq_le_antisym(a, b);
    }
    assert forall|a: Seq<char>, b: Seq<char>, c: Seq<char>|
        #[trigger] char_seq_leq()(a, b) && #[trigger] char_seq_leq()(b, c) implies char_seq_leq()(a, c) by {
        lemma_char_seq_le_trans(a, b, c);
    }
    assert forall|a: Seq<char>, b: Seq<char>| #[trigger] char_seq_leq()(a, b) || #[trigger] char_seq_leq()(b, a) by {
        lemma_char_seq_le_total(a, b);
    }
}

/// Whether `a` comes before or equals `b`.
pub fn str_le(a: &str, b: &str) -> (r: bool)
    ensures
        r == char_seq_le(a@, b@),
{
    let ca = chars_of(a);
    let cb = chars_of(b);
    let mut i: usize = 0;
    assert(a@.skip(0) =~= a@);
    assert(b@.skip(0) =~= b@);
    while i < ca.len() && i < cb.len() && ca[i] == cb[i]
        invariant
            i <= ca@.len(),
            i <= cb@.len(),
            ca@ == a@,
            cb@ == b@,
            char_seq_le(a@, b@) == char_seq_le(a@.skip(i as int), b@.skip(i as int)),
        decreases ca.len() - i,
    {
        assert(a@.skip(i as int).drop_first() =~= a@.skip(i + 1));
        assert(b@.skip(i as int).drop_first() =~= b@.skip(i + 1));
        i += 1;
    }
    if i == ca.len() {
        assert(a@.skip(i as int).len() == 0);
        true
    } else if i == cb.len() {
        assert(b@.skip(i as int).len() == 0);
        false
    } else {
        assert(a@.skip(i as int)[0] == ca@[i as int]);
        assert(b@.skip(i as int)[0] == cb@[i as int]);
        assert(ca@[i as int] != cb@[i as int]);
        ca[i] < cb[i]
    }
}

/// The characters of each string.
pub open spec fn strs_view(v: Seq<String>) -> Seq<Seq<char>> {
    Seq::new(v.len(), |i: int| v[i]@)
}

/// `v` sorted in ascending order.
pub fn sort_strings(v: Vec<String>) -> (r: Vec<String>)
    ensures
        strs_view(r@) == strs_view(v@).sort_by(char_seq_leq()),
{
    broadcast use vstd::seq_lib::to_multiset_insert;
    proof {
        lemma_char_seq_total_ordering();
    }
    let mut out: Vec<String> = Vec::new();
    let mut i: usize = 0;
    let ghost src = strs_view(v@);
    assert(strs_view(out@) =~= src.take(0));
    while i < v.len()
        invariant
            i <= v@.len(),
            src == strs_view(v@),
            vstd::relations::sorted_by(strs_view(out@), char_seq_leq()),
            strs_view(out@).to_multiset() == src.take(i as int).to_multiset(),
            vstd::relations::total_ordering(char_seq_leq()),
        decreases v.len() - i,
    {
        let x = &v[i];
        let mut p: usize = 0;
        while p < out.len() && str_le(out[p].as_str(), x.as_str())
            invariant
                p <= out@.len(),
                forall|k: int| 0 <= k < p ==> char_seq_le(#[trigger] out@[k]@, x@),
            decreases out.len() - p,
        {
            p += 1;
        }
        let ghost before = strs_view(out@);
        proof {
            if p < out@.len() {
                lemma_char_seq_le_total(out@[p as int]@, x@);
            }
        }
        let xc = x.clone();
        assert(xc@ == x@);
        assert(x@ == src[i as int]);
        out.insert(p, xc);
        proof {
            assert(strs_view(out@) =~= before.insert(p as int, x@));
            assert(src.take(i + 1) =~= src.take(i as int).push(x@));
            vstd::seq_lib::to_multiset_build(src.take(i as int), x@);
            vstd::seq_lib::to_multiset_insert(before, p as int, x@);
            assert(strs_view(out@).to_multiset() == before.to_multiset().insert(x@));
            assert(strs_view(out@).to_multiset() == src.take(i + 1).to_multiset());
            assert forall|a: int, b: int| 0 <= a < b < strs_view(out@).len() implies #[trigger] char_seq_leq()(
                strs_view(out@)[a],
                strs_view(out@)[b],
            ) by {
                let s = strs_view(out@);
                if a < p && b == p {
                } else if a == p && b > p {
                    if b - 1 > p {
                        assert(char_seq_leq()(before[p as int], before[b - 1]));
                        lemma_char_seq_le_trans(x@, before[p as int], before[b - 1]);
                    }
                } else if a < p && b > p {
                    assert(char_seq_leq()(before[a], before[b - 1]));
                } else if b < p {
                    assert(char_seq_leq()(before[a], before[b]));
                } else {
                    assert(char_seq_leq()(before[a - 1], before[b - 1]));
                }
            }
        }
        i += 1;
    }
    proof {
        assert(src.take(i as int) =~= src);
        src.lemma_sort_by_ensures(char_seq_leq());
        vstd::seq_lib::lemma_sorted_unique(strs_view(out@), src.sort_by(char_seq_leq()), char_seq_leq());
    }
    out
}

/// The value of a decimal digit character (`0` for any other character).
pub open spec fn digit_value(c: char) -> int {
    if c == '1' {
        1
    } else if c == '2' {
        2
    } else if c == '3' {
        3
    } else if c == '4' {
        4
    } else if c == '5' {
        5
    } else if c == '6' {
        6
    } else if c == '7' {
        7
    } else if c == '8' {
        8
    } else if c == '9' {
        9
    } else {
        0
    }
}

/// The number that a string of decimal digits denotes, read left to right.
pub open spec fn numeral_value(s: Seq<char>) -> int
    decreases s.len(),
{
    if s.len() == 0 {
        0
    } else {
        numeral_value(s.drop_last()) * 10 + digit_value(s.last())
    }
}

/// The numeral of `n` is made of decimal digits, reads back as `n`, and
/// has no leading zero.
pub proof fn lemma_decimal_reads_back(n: nat)
    ensures
        numeral_value(decimal(n)) == n,
        decimal(n).len() >= 1,
        forall|i: int| 0 <= i < decimal(n).len() ==> #[trigger] decimal(n)[i] == digit_char(digit_value(decimal(n)[i])),
        n > 0 ==> decimal(n)[0] != '0',
    decreases n,
{
    assert(forall|k: int| 0 <= k <= 9 ==> #[trigger] digit_value(digit_char(k)) == k);
    if n < 10 {
        let d = decimal(n);
        assert(d.drop_last() =~= Seq::<char>::empty());
        assert(numeral_value(d) == numeral_value(d.drop_last()) * 10 + digit_value(d.last()));
        assert(digit_value(digit_char(n as int)) == n);
    } else {
        lemma_decimal_reads_back(n / 10);
        let d = decimal(n);
        assert(d.drop_last() =~= decimal(n / 10));
        vstd::arithmetic::div_mod::lemma_fundamental_div_mod(n as int, 10);
        assert(digit_value(digit_char((n % 10) as int)) == n % 10);
        assert(numeral_value(d) == numeral_value(d.drop_last()) * 10 + digit_value(d.last()));
        assert(forall|i: int| 0 <= i < d.len() - 1 ==> d[i] == decimal(n / 10)[i]);
    }
}

} // verus!
