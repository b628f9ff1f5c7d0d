//! Text as sequences of characters: trimming, case, picking out letters and
//! digits.
//!
//! Case mapping and the classes of letters and numbers come from the
//! standard library, which follows the Unicode tables. Those tables do not
//! fit in a contract, so outside ASCII the contracts speak of them by name;
//! on ASCII text they say exactly what comes out.

use vstd::prelude::*;
use vstd::string::StrSliceExecFns;

verus! {

/// The character is one of the first 128.
pub open spec fn is_ascii_char(c: char) -> bool {
    (c as u32) < 128
}

/// Every character is one of the first 128.
pub open spec fn is_ascii_text(s: Seq<char>) -> bool {
    forall|i: int| 0 <= i < s.len() ==> is_ascii_char(#[trigger] s[i])
}

/// One of `a` to `z` or `A` to `Z`.
pub open spec fn is_ascii_letter(c: char) -> bool {
    ('a' <= c && c <= 'z') || ('A' <= c && c <= 'Z')
}

/// One of `0` to `9`.
pub open spec fn is_ascii_digit(c: char) -> bool {
    '0' <= c && c <= '9'
}

/// `A` to `Z` become `a` to `z`; every other character stays.
pub open spec fn ascii_lower(c: char) -> char {
    if 'A' <= c && c <= 'Z' {
        ((c as u8) + 32) as char
    } else {
        c
    }
}

/// `a` to `z` become `A` to `Z`; every other character stays.
pub open spec fn ascii_upper(c: char) -> char {
    if 'a' <= c && c <= 'z' {
        ((c as u8) - 32) as char
    } else {
        c
    }
}

/// The text with `ascii_lower` applied to each character.
pub open spec fn lower_ascii(s: Seq<char>) -> Seq<char> {
    Seq::new(s.len(), |i: int| ascii_lower(s[i]))
}

/// The text with `ascii_upper` applied to each character.
pub open spec fn upper_ascii(s: Seq<char>) -> Seq<char> {
    Seq::new(s.len(), |i: int| ascii_upper(s[i]))
}

/// The characters with the Unicode property White_Space.
pub open spec fn is_white_space(c: char) -> bool {
    let n = c as u32;
    (0x09 <= n && n <= 0x0D) || n == 0x20 || n == 0x85 || n == 0xA0 || n == 0x1680 || (0x2000 <= n
        && n <= 0x200A) || n == 0x2028 || n == 0x2029 || n == 0x202F || n == 0x205F || n == 0x3000
}

/// What the standard library's `str::to_lowercase` gives for a text.
pub uninterp spec fn unicode_lowercase(text: Seq<char>) -> Seq<char>;

/// What the standard library's `str::to_uppercase` gives for a text.
pub uninterp spec fn unicode_uppercase(text: Seq<char>) -> Seq<char>;

/// What the standard library's `char::is_alphabetic` gives for a character.
pub uninterp spec fn unicode_alphabetic(c: char) -> bool;

/// What the standard library's `char::is_numeric` gives for a character.
pub uninterp spec fn unicode_numeric(c: char) -> bool;

/// The text in lower case: letter by letter on ASCII text, by the Unicode
/// tables on any other.
pub open spec fn lowercase(s: Seq<char>) -> Seq<char> {
    if is_ascii_text(s) {
        lower_ascii(s)
    } else {
        unicode_lowercase(s)
    }
}

/// The text in upper case: letter by letter on ASCII text, by the Unicode
/// tables on any other.
pub open spec fn uppercase(s: Seq<char>) -> Seq<char> {
    if is_ascii_text(s) {
        upper_ascii(s)
    } else {
        unicode_uppercase(s)
    }
}

/// The character is a letter: `a` to `z` and `A` to `Z` among the ASCII
/// characters, by the Unicode tables beyond them.
pub open spec fn is_alphabetic(c: char) -> bool {
    if is_ascii_char(c) {
        is_ascii_letter(c)
    } else {
        unicode_alphabetic(c)
    }
}

/// The character is a number: `0` to `9` among the ASCII characters, by the
/// Unicode tables beyond them.
pub open spec fn is_numeric(c: char) -> bool {
    if is_ascii_char(c) {
        is_ascii_digit(c)
    } else {
        unicode_numeric(c)
    }
}

/// The predicate "the character is a letter".
pub open spec fn alphabetic() -> spec_fn(char) -> bool {
    |c: char| is_alphabetic(c)
}

/// The predicate "the character is a number".
pub open spec fn numeric() -> spec_fn(char) -> bool {
    |c: char| is_numeric(c)
}

/// The characters of `s` that satisfy `keep`, in their order.
pub open spec fn kept(s: Seq<char>, keep: spec_fn(char) -> bool) -> Seq<char>
    decreases s.len(),
{
    if s.len() == 0 {
        Seq::empty()
    } else if keep(s.last()) {
        kept(s.drop_last(), keep).push(s.last())
    } else {
        kept(s.drop_last(), keep)
    }
}

/// The text without the white space at its start.
pub open spec fn trim_front(s: Seq<char>) -> Seq<char>
    decreases s.len(),
{
    if s.len() > 0 && is_white_space(s[0]) {
        trim_front(s.drop_first())
    } else {
        s
    }
}

/// The text without the white space at its end.
pub open spec fn trim_back(s: Seq<char>) -> Seq<char>
    decreases s.len(),
{
    if s.len() > 0 && is_white_space(s.last()) {
        trim_back(s.drop_last())
    } else {
        s
    }
}

/// The text without the white space at its start and at its end.
pub open spec fn trimmed(s: Seq<char>) -> Seq<char> {
    trim_back(trim_front(s))
}

/// `s` begins with `prefix`.
pub open spec fn is_prefix(prefix: Seq<char>, s: Seq<char>) -> bool {
    prefix.len() <= s.len() && s.take(prefix.len() as int) == prefix
}

/// The text after its first `n` characters; nothing where it is shorter.
pub open spec fn after_first(s: Seq<char>, n: nat) -> Seq<char> {
    if n <= s.len() {
        s.skip(n as int)
    } else {
        Seq::empty()
    }
}

/// The number of bytes that UTF-8 takes for a character.
pub open spec fn utf8_width(c: char) -> nat {
    let n = c as u32;
    if n < 0x80 {
        1
    } else if n < 0x800 {
        2
    } else if n < 0x10000 {
        3
    } else {
        4
    }
}

/// The number of bytes that UTF-8 takes for a text.
pub open spec fn utf8_length(s: Seq<char>) -> nat
    decreases s.len(),
{
    if s.len() == 0 {
        0
    } else {
        utf8_length(s.drop_last()) + utf8_width(s.last())
    }
}

/// Calls `char::is_alphabetic`.
///
/// Believed, not proved: the result depends on the character alone, and
/// among the ASCII characters it is true exactly for the letters.
#[verifier::external_body]
pub(crate) fn char_is_alphabetic(c: char) -> (r: bool)
    ensures
        r == unicode_alphabetic(c),
        is_ascii_char(c) ==> r == is_ascii_letter(c),
{
    c.is_alphabetic()
}

/// Calls `char::is_numeric`.
///
/// Believed, not proved: the result depends on the character alone, and
/// among the ASCII characters it is true exactly for the digits.
#[verifier::external_body]
pub(crate) fn char_is_numeric(c: char) -> (r: bool)
    ensures
        r == unicode_numeric(c),
        is_ascii_char(c) ==> r == is_ascii_digit(c),
{
    c.is_numeric()
}

/// Calls `str::to_lowercase`.
///
/// Believed, not proved: the result depends on the text alone, and on ASCII
/// text it maps `A` to `Z` to `a` to `z` and keeps every other character.
#[verifier::external_body]
pub(crate) fn str_to_lowercase(s: &str) -> (r: String)
    ensures
        r@ == unicode_lowercase(s@),
        is_ascii_text(s@) ==> r@ == lower_ascii(s@),
{
    s.to_lowercase()
}

/// Calls `str::to_uppercase`.
///
/// Believed, not proved: the result depends on the text alone, and on ASCII
/// text it maps `a` to `z` to `A` to `Z` and keeps every other character.
#[verifier::external_body]
pub(crate) fn str_to_uppercase(s: &str) -> (r: String)
    ensures
        r@ == unicode_uppercase(s@),
        is_ascii_text(s@) ==> r@ == upper_ascii(s@),
{
    s.to_uppercase()
}

/// Calls `String::push`.
///
/// Believed, not proved: the character is appended at the end.
#[verifier::external_body]
pub(crate) fn string_push(s: &mut String, c: char)
    ensures
        final(s)@ == old(s)@.push(c),
{
    s.push(c)
}

/// Tells whether the character is white space.
pub fn is_blank(c: char) -> (r: bool)
    ensures
        r == is_white_space(c),
{
    let n: u32 = c as u32;
    (0x09 <= n && n <= 0x0D) || n == 0x20 || n == 0x85 || n == 0xA0 || n == 0x1680 || (0x2000 <= n
        && n <= 0x200A) || n == 0x2028 || n == 0x2029 || n == 0x202F || n == 0x205F || n == 0x3000
}

/// Tells whether the character is a letter.
pub fn is_letter(c: char) -> (r: bool)
    ensures
        r == is_alphabetic(c),
{
    char_is_alphabetic(c)
}

/// Tells whether the character is a number.
pub fn is_number(c: char) -> (r: bool)
    ensures
        r == is_numeric(c),
{
    char_is_numeric(c)
}

/// Returns the text in lower case.
pub fn to_lowercase(s: &str) -> (r: String)
    ensures
        r@ == lowercase(s@),
{
    str_to_lowercase(s)
}

/// Returns the text in upper case.
pub fn to_uppercase(s: &str) -> (r: String)
    ensures
        r@ == uppercase(s@),
{
    str_to_uppercase(s)
}

/// Returns the characters of a text.
pub fn chars_of(s: &str) -> (v: Vec<char>)
    ensures
        v@ == s@,
{
    let mut v: Vec<char> = Vec::new();
    for c in it: s.chars()
        invariant
            it.seq() == s@,
            v@ == s@.take(it.index() as int),
    {
        v.push(c);
        assert(s@.take(it.index() + 1) =~= s@.take(it.index() as int).push(c));
    }
    assert(s@.take(s@.len() as int) =~= s@);
    v
}

/// White space at the start may be dropped before trimming the start.
proof fn lemma_trim_front_skip(s: Seq<char>, i: int)
    requires
        0 <= i <= s.len(),
        forall|k: int| 0 <= k < i ==> is_white_space(#[trigger] s[k]),
    ensures
        trim_front(s) == trim_front(s.skip(i)),
    decreases i,
{
    if i > 0 {
        let rest = s.drop_first();
        assert forall|k: int| 0 <= k < i - 1 implies is_white_space(#[trigger] rest[k]) by {
            assert(rest[k] == s[k + 1]);
        }
        lemma_trim_front_skip(rest, i - 1);
        assert(rest.skip(i - 1) =~= s.skip(i));
        assert(is_white_space(s[0]));
    } else {
        assert(s.skip(0) =~= s);
    }
}

/// White space at the end may be dropped before trimming the end.
proof fn lemma_trim_back_take(s: Seq<char>, j: int)
    requires
        0 <= j <= s.len(),
        forall|k: int| j <= k < s.len() ==> is_white_space(#[trigger] s[k]),
    ensures
        trim_back(s) == trim_back(s.take(j)),
    decreases s.len() - j,
{
    if j < s.len() {
        let rest = s.drop_last();
        assert forall|k: int| j <= k < rest.len() implies is_white_space(#[trigger] rest[k]) by {
            assert(rest[k] == s[k]);
        }
        lemma_trim_back_take(rest, j);
        assert(rest.take(j) =~= s.take(j));
        assert(is_white_space(s[s.len() - 1]));
    } else {
        assert(s.take(j) =~= s);
    }
}

/// Returns the text without the white space at its start and at its end.
pub fn trim(s: &str) -> (r: &str)
    ensures
        r@ == trimmed(s@),
{
    let chars = chars_of(s);
    let n = chars.len();
    let mut from: usize = 0;
    while from < n && is_blank(chars[from])
        invariant
            from <= n,
            n == chars@.len(),
            forall|k: int| 0 <= k < from ==> is_white_space(#[trigger] chars@[k]),
        decreases n - from,
    {
        from += 1;
    }
    let mut to: usize = n;
    while to > from && is_blank(chars[to - 1])
        invariant
            from <= to <= n,
            n == chars@.len(),
            forall|k: int| to <= k < n ==> is_white_space(#[trigger] chars@[k]),
        decreases to,
    {
        to -= 1;
    }
    proof {
        let front = s@.skip(from as int);
        lemma_trim_front_skip(s@, from as int);
        if from < n {
            assert(front[0] == s@[from as int]);
        }
        assert(trim_front(s@) == front);
        assert forall|k: int| to - from <= k < front.len() implies is_white_space(
            #[trigger] front[k],
        ) by {
            assert(front[k] == s@[k + from]);
        }
        lemma_trim_back_take(front, to - from);
        let middle = front.take(to - from);
        if to > from {
            assert(middle.last() == s@[to - 1]);
        }
        assert(trim_back(middle) == middle);
        assert(middle =~= s@.subrange(from as int, to as int));
    }
    s.substring_char(from, to)
}

/// Tells whether `s` begins with `prefix`.
pub fn starts_with(s: &[char], prefix: &str) -> (r: bool)
    ensures
        r == is_prefix(prefix@, s@),
{
    let want = chars_of(prefix);
    if want.len() > s.len() {
        return false;
    }
    let mut i: usize = 0;
    while i < want.len()
        invariant
            i <= want.len() <= s.len(),
            want@ == prefix@,
            forall|k: int| 0 <= k < i ==> s@[k] == want@[k],
        decreases want.len() - i,
    {
        if s[i] != want[i] {
            assert(s@.take(prefix@.len() as int)[i as int] != prefix@[i as int]);
            return false;
        }
        i += 1;
    }
    assert(s@.take(prefix@.len() as int) =~= prefix@);
    true
}

/// Tells whether `s` and `word` are the same text.
pub fn text_is(s: &[char], word: &str) -> (r: bool)
    ensures
        r == (s@ == word@),
{
    let want = chars_of(word);
    if want.len() != s.len() {
        return false;
    }
    let mut i: usize = 0;
    while i < want.len()
        invariant
            i <= want.len(),
            want.len() == s.len(),
            want@ == word@,
            forall|k: int| 0 <= k < i ==> s@[k] == want@[k],
        decreases want.len() - i,
    {
        if s[i] != want[i] {
            return false;
        }
        i += 1;
    }
    assert(s@ =~= word@);
    true
}

/// Returns the letters of a text, in their order.
pub fn letters_of(s: &str) -> (r: String)
    ensures
        r@ == kept(s@, alphabetic()),
{
    let chars = chars_of(s);
    let mut out = String::new();
    let mut i: usize = 0;
    while i < chars.len()
        invariant
            i <= chars.len(),
            chars@ == s@,
            out@ == kept(s@.take(i as int), alphabetic()),
        decreases chars.len() - i,
    {
        proof {
            assert(s@.take(i + 1).drop_last() =~= s@.take(i as int));
        }
        if is_letter(chars[i]) {
            string_push(&mut out, chars[i]);
        }
        i += 1;
    }
    assert(s@.take(i as int) =~= s@);
    out
}

/// Returns the numbers of a text, in their order.
pub fn numbers_of(s: &str) -> (r: String)
    ensures
        r@ == kept(s@, numeric()),
{
    let chars = chars_of(s);
    let mut out = String::new();
    let mut i: usize = 0;
    while i < chars.len()
        invariant
            i <= chars.len(),
            chars@ == s@,
            out@ == kept(s@.take(i as int), numeric()),
        decreases chars.len() - i,
    {
        proof {
            assert(s@.take(i + 1).drop_last() =~= s@.take(i as int));
        }
        if is_number(chars[i]) {
            string_push(&mut out, chars[i]);
        }
        i += 1;
    }
    assert(s@.take(i as int) =~= s@);
    out
}

/// Returns the text after its first `n` characters, or an empty text where
/// it has fewer.
pub fn skip_chars(s: &str, n: usize) -> (r: &str)
    ensures
        r@ == after_first(s@, n as nat),
{
    let len = s.unicode_len();
    if n <= len {
        s.substring_char(n, len)
    } else {
        s.substring_char(len, len)
    }
}

/// A text takes at least as many bytes as it has characters, and at most
/// four times as many.
pub proof fn lemma_utf8_length_bounds(s: Seq<char>)
    ensures
        s.len() <= utf8_length(s) <= 4 * s.len(),
        is_ascii_text(s) ==> utf8_length(s) == s.len(),
    decreases s.len(),
{
    if s.len() > 0 {
        lemma_utf8_length_bounds(s.drop_last());
        if is_ascii_text(s) {
            assert(is_ascii_char(s[s.len() - 1]));
            assert forall|i: int| 0 <= i < s.drop_last().len() implies is_ascii_char(
                #[trigger] s.drop_last()[i],
            ) by {
                assert(s.drop_last()[i] == s[i]);
            }
        }
    }
}

/// Tells whether UTF-8 takes more than `limit` bytes for the text.
pub fn utf8_longer_than(s: &[char], limit: usize) -> (r: bool)
    ensures
        r == (utf8_length(s@) > limit),
{
    let mut bytes: usize = 0;
    let mut i: usize = 0;
    while i < s.len()
        invariant
            i <= s.len(),
            bytes == utf8_length(s@.take(i as int)),
            bytes <= limit,
        decreases s.len() - i,
    {
        proof {
            assert(s@.take(i + 1).drop_last() =~= s@.take(i as int));
            lemma_utf8_length_prefix(s@, i + 1);
        }
        let code: u32 = s[i] as u32;
        let width: usize = if code < 0x80 {
            1
        } else if code < 0x800 {
            2
        } else if code < 0x10000 {
            3
        } else {
            4
        };
        if width > limit - bytes {
            return true;
        }
        bytes += width;
        i += 1;
    }
    assert(s@.take(i as int) =~= s@);
    false
}

/// A text takes at least as many bytes as any of its beginnings.
pub proof fn lemma_utf8_length_prefix(s: Seq<char>, i: int)
    requires
        0 <= i <= s.len(),
    ensures
        utf8_length(s.take(i)) <= utf8_length(s),
    decreases s.len() - i,
{
    if i < s.len() {
        assert(s.take(i + 1).drop_last() =~= s.take(i));
        lemma_utf8_length_prefix(s, i + 1);
    } else {
        assert(s.take(i) =~= s);
    }
}

} // verus!
