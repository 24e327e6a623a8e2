//! Text helpers: the few standard-library string operations the crate relies
//! on, decimal rendering, whitespace splitting and JSON string quoting.

use vstd::prelude::*;
use vstd::string::*;

verus! {

/// The characters with the Unicode `White_Space` property.
pub open spec fn spec_is_white_space(c: char) -> bool {
    let v = c as u32;
    ||| 9 <= v <= 13
    ||| v == 32
    ||| v == 0x85
    ||| v == 0xA0
    ||| v == 0x1680
    ||| 0x2000 <= v <= 0x200A
    ||| v == 0x2028
    ||| v == 0x2029
    ||| v == 0x202F
    ||| v == 0x205F
    ||| v == 0x3000
}

/// ASCII lower-casing of one character: `'A'..='Z'` become `'a'..='z'`,
/// every other character is kept.
pub open spec fn spec_ascii_lower(c: char) -> char {
    if 'A' <= c && c <= 'Z' {
        ((c as u32) + 32) as char
    } else {
        c
    }
}

pub open spec fn spec_lowercase(s: Seq<char>) -> Seq<char> {
    s.map_values(|c: char| spec_ascii_lower(c))
}

pub open spec fn is_digit_char(c: char) -> bool {
    '0' <= c && c <= '9'
}

/// Every character is an ASCII decimal digit.
pub open spec fn is_digit_string(s: Seq<char>) -> bool {
    forall|i: int| 0 <= i < s.len() ==> is_digit_char(#[trigger] s[i])
}

/// Some character is neither a digit nor a sign.
pub open spec fn has_foreign_char(s: Seq<char>) -> bool {
    exists|i: int| 0 <= i < s.len() && !is_digit_char(#[trigger] s[i]) && s[i] != '+' && s[i] != '-'
}

/// The number that a string of decimal digits denotes.
pub open spec fn digits_value(s: Seq<char>) -> nat
    decreases s.len(),
{
    if s.len() == 0 {
        0
    } else {
        digits_value(s.drop_last()) * 10 + ((s.last() as u32) - 48) as nat
    }
}

/// A non-empty string of digits whose value fits a `usize`.
pub open spec fn is_number_word(s: Seq<char>) -> bool {
    is_digit_string(s) && s.len() > 0 && digits_value(s) <= usize::MAX
}

pub open spec fn digit_char(d: nat) -> char {
    ((d + 48) as u32) as char
}

/// The decimal rendering of a number, without sign or leading zeros.
pub open spec fn spec_decimal(n: nat) -> Seq<char>
    decreases n,
{
    if n < 10 {
        seq![digit_char(n)]
    } else {
        spec_decimal(n / 10).push(digit_char(n % 10))
    }
}

pub open spec fn view_strings(v: Seq<String>) -> Seq<Seq<char>> {
    v.map_values(|s: String| s@)
}

/// End of the run of non-whitespace characters that starts at `i`.
pub open spec fn word_end(s: Seq<char>, i: int) -> int
    decreases s.len() - i,
{
    if 0 <= i < s.len() && !spec_is_white_space(s[i]) {
        word_end(s, i + 1)
    } else {
        i
    }
}

pub proof fn lemma_word_end_bounds(s: Seq<char>, i: int)
    requires
        0 <= i <= s.len(),
    ensures
        i <= word_end(s, i) <= s.len(),
        forall|k: int| i <= k < word_end(s, i) ==> !spec_is_white_space(#[trigger] s[k]),
        word_end(s, i) < s.len() ==> spec_is_white_space(s[word_end(s, i)]),
    decreases s.len() - i,
{
    if i < s.len() && !spec_is_white_space(s[i]) {
        lemma_word_end_bounds(s, i + 1);
    }
}

/// The maximal runs of non-whitespace characters of `s` from index `i` on, in order.
pub open spec fn words_from(s: Seq<char>, i: int) -> Seq<Seq<char>>
    decreases s.len() - i,
{
    if i < 0 || i >= s.len() {
        seq![]
    } else if spec_is_white_space(s[i]) {
        words_from(s, i + 1)
    } else {
        let e = word_end(s, i);
        proof {
            lemma_word_end_bounds(s, i);
        }
        seq![s.subrange(i, e)] + words_from(s, e)
    }
}

/// The whitespace-separated words of `s`.
pub open spec fn spec_words(s: Seq<char>) -> Seq<Seq<char>> {
    words_from(s, 0)
}

/// No character of `s` is whitespace.
pub open spec fn has_no_white_space(s: Seq<char>) -> bool {
    forall|k: int| 0 <= k < s.len() ==> !spec_is_white_space(#[trigger] s[k])
}

/// `s` is empty or ends with whitespace.
pub open spec fn ends_open(s: Seq<char>) -> bool {
    s.len() == 0 || spec_is_white_space(s.last())
}

proof fn lemma_word_end_shift(x: Seq<char>, y: Seq<char>, j: int)
    requires
        0 <= j <= y.len(),
    ensures
        word_end(x + y, x.len() + j) == x.len() + word_end(y, j),
    decreases y.len() - j,
{
    let s = x + y;
    if j < y.len() {
        assert(s[x.len() + j] == y[j]);
        if !spec_is_white_space(y[j]) {
            lemma_word_end_shift(x, y, j + 1);
        }
    }
}

/// Words are read alike after a prefix.
proof fn lemma_words_shift(x: Seq<char>, y: Seq<char>, j: int)
    requires
        0 <= j <= y.len(),
    ensures
        words_from(x + y, x.len() + j) == words_from(y, j),
    decreases y.len() - j,
{
    let s = x + y;
    if j < y.len() {
        assert(s[x.len() + j] == y[j]);
        if spec_is_white_space(y[j]) {
            lemma_words_shift(x, y, j + 1);
        } else {
            lemma_word_end_shift(x, y, j);
            lemma_word_end_bounds(y, j);
            let e = word_end(y, j);
            assert(s.subrange(x.len() + j, x.len() + e) =~= y.subrange(j, e));
            lemma_words_shift(x, y, e);
        }
    }
}

proof fn lemma_word_end_prefix(x: Seq<char>, y: Seq<char>, i: int)
    requires
        0 <= i < x.len(),
        ends_open(x),
    ensures
        word_end(x + y, i) == word_end(x, i),
        word_end(x, i) < x.len(),
    decreases x.len() - i,
{
    let s = x + y;
    assert(s[i] == x[i]);
    if !spec_is_white_space(x[i]) {
        if i + 1 < x.len() {
            lemma_word_end_prefix(x, y, i + 1);
        } else {
            assert(x[i] == x.last());
        }
    }
}

proof fn lemma_words_concat_from(x: Seq<char>, y: Seq<char>, i: int)
    requires
        0 <= i <= x.len(),
        ends_open(x),
    ensures
        words_from(x + y, i) == words_from(x, i) + words_from(y, 0),
    decreases x.len() - i,
{
    let s = x + y;
    if i == x.len() {
        lemma_words_shift(x, y, 0);
        assert(words_from(x, i) =~= Seq::<Seq<char>>::empty());
        assert(words_from(x, i) + words_from(y, 0) =~= words_from(y, 0));
    } else {
        assert(s[i] == x[i]);
        if spec_is_white_space(x[i]) {
            lemma_words_concat_from(x, y, i + 1);
        } else {
            lemma_word_end_prefix(x, y, i);
            lemma_word_end_bounds(x, i);
            let e = word_end(x, i);
            assert(s.subrange(i, e) =~= x.subrange(i, e));
            lemma_words_concat_from(x, y, e);
            assert(words_from(x + y, i) =~= seq![x.subrange(i, e)] + (words_from(x, e) + words_from(y, 0)));
        }
    }
}

/// The words of a concatenation, when the first part does not end inside a word.
pub proof fn lemma_words_concat(x: Seq<char>, y: Seq<char>)
    requires
        ends_open(x),
    ensures
        spec_words(x + y) == spec_words(x) + spec_words(y),
{
    lemma_words_concat_from(x, y, 0);
}

/// A word followed by a space is that one word.
pub proof fn lemma_words_of_word(a: Seq<char>)
    requires
        a.len() > 0,
        has_no_white_space(a),
    ensures
        spec_words(a + seq![' ']) == seq![a],
{
    let s = a + seq![' '];
    assert forall|k: int| 0 <= k < a.len() implies s[k] == a[k] by {}
    lemma_word_end_concat_full(a, 0);
    assert(s.subrange(0, a.len() as int) =~= a);
    assert(s[a.len() as int] == ' ');
    assert(words_from(s, a.len() + 1int) =~= Seq::<Seq<char>>::empty());
    assert(!spec_is_white_space(s[0]));
    assert(spec_is_white_space(' '));
    assert(words_from(s, a.len() as int) == words_from(s, a.len() + 1int));
    assert(spec_words(s) == seq![s.subrange(0, a.len() as int)] + words_from(s, a.len() as int));
    assert(spec_words(s) =~= seq![a]);
}

proof fn lemma_word_end_concat_full(a: Seq<char>, k: int)
    requires
        0 <= k <= a.len(),
        has_no_white_space(a),
    ensures
        word_end(a + seq![' '], k) == a.len(),
    decreases a.len() - k,
{
    let s = a + seq![' '];
    if k < a.len() {
        assert(s[k] == a[k]);
        lemma_word_end_concat_full(a, k + 1);
    } else {
        assert(s[k] == ' ');
    }
}

/// What `str::parse::<usize>` gives for a string: the number, or the text of
/// the error.
pub uninterp spec fn spec_parse_usize(s: Seq<char>) -> Result<usize, Seq<char>>;

/// Calls `str::parse::<usize>`; an error is rendered by its `Display`.
/// Stated of it: the result is `spec_parse_usize` of the text; an empty
/// string, or one holding a character other than a digit, `+` or `-`, is
/// refused; a string of digits is accepted exactly when its value fits a
/// `usize`, and then gives that value. What a sign does, and the wording of
/// an error, are left to the name.
#[verifier::external_body]
pub(crate) fn parse_usize(s: &str) -> (r: Result<usize, String>)
    ensures
        r matches Ok(n) ==> (spec_parse_usize(s@) matches Ok(m) && m == n),
        r matches Err(e) ==> (spec_parse_usize(s@) matches Err(m) && m == e@),
        is_digit_string(s@) && s@.len() > 0 ==> (r is Ok <==> digits_value(s@) <= usize::MAX),
        is_digit_string(s@) ==> (r matches Ok(n) ==> n == digits_value(s@)),
        s@.len() == 0 ==> r is Err,
        has_foreign_char(s@) ==> r is Err,
{
    match s.parse::<usize>() {
        Ok(n) => Ok(n),
        Err(e) => Err(e.to_string()),
    }
}

/// What `serde_json::to_string` gives for a string: its JSON text, or the
/// text of its error.
pub uninterp spec fn spec_json_string(s: Seq<char>) -> Seq<char>;

/// What `serde_json::to_string_pretty` gives for a list of strings: its
/// JSON text, or the text of its error.
pub uninterp spec fn spec_json_pretty_strings(v: Seq<Seq<char>>) -> Seq<char>;

/// Calls `serde_json::to_string` on a string. Stated of it: the result is
/// `spec_json_string` of the text. (Serializing a string into memory does
/// not fail; should it, the text of the error is given.)
#[verifier::external_body]
pub(crate) fn json_string(s: &str) -> (r: String)
    ensures
        r@ == spec_json_string(s@),
{
    match serde_json::to_string(s) {
        Ok(t) => t,
        Err(e) => e.to_string(),
    }
}

/// Calls `serde_json::to_string_pretty` on a list of strings. Stated of it:
/// the result is `spec_json_pretty_strings` of the strings. (Serializing
/// strings into memory does not fail; should it, the text of the error is
/// given.)
#[verifier::external_body]
pub(crate) fn json_pretty_strings(v: &Vec<String>) -> (r: String)
    ensures
        r@ == spec_json_pretty_strings(view_strings(v@)),
{
    match serde_json::to_string_pretty(v) {
        Ok(t) => t,
        Err(e) => e.to_string(),
    }
}

/// Calls `String::push`: appends one character.
#[verifier::external_body]
pub(crate) fn push_char(s: &mut String, c: char)
    ensures
        final(s)@ == old(s)@.push(c),
{
    s.push(c);
}

/// Calls `<str as PartialEq>::eq`: equal exactly when the characters are.
#[verifier::external_body]
pub(crate) fn str_eq(a: &str, b: &str) -> (r: bool)
    ensures
        r == (a@ == b@),
{
    a == b
}

/// Calls `str::to_ascii_lowercase`: a copy in which `'A'..='Z'` are mapped
/// to `'a'..='z'` and every other character is kept.
#[verifier::external_body]
pub(crate) fn ascii_lowercase(s: &str) -> (r: String)
    ensures
        r@ == spec_lowercase(s@),
{
    s.to_ascii_lowercase()
}

/// Calls `char::is_whitespace`: true exactly for the characters with the
/// Unicode `White_Space` property.
#[verifier::external_body]
pub(crate) fn is_white_space(c: char) -> (r: bool)
    ensures
        r == spec_is_white_space(c),
{
    c.is_whitespace()
}

/// The characters of `s`, in order.
pub fn chars_of(s: &str) -> (r: Vec<char>)
    ensures
        r@ == s@,
{
    let mut r: Vec<char> = Vec::new();
    for c in it: s.chars()
        invariant
            r@ == it.seq().take(it.index() as int),
            it.seq() == s@,
    {
        r.push(c);
    }
    r
}

/// The decimal rendering of `n`.
pub fn decimal_string(n: usize) -> (r: String)
    ensures
        r@ == spec_decimal(n as nat),
    decreases n,
{
    let d: u8 = (n % 10) as u8;
    let c: char = (d + 48) as char;
    assert(c == digit_char((n % 10) as nat));
    if n < 10 {
        let mut r = String::new();
        push_char(&mut r, c);
        r
    } else {
        let mut r = decimal_string(n / 10);
        push_char(&mut r, c);
        r
    }
}

/// The whitespace-separated words of `s`.
pub fn split_words(s: &str) -> (r: Vec<String>)
    ensures
        view_strings(r@) == spec_words(s@),
{
    let chars = chars_of(s);
    let n = chars.len();
    let mut r: Vec<String> = Vec::new();
    let mut i: usize = 0;
    while i < n
        invariant
            chars@ == s@,
            n == chars@.len(),
            i <= n,
            spec_words(s@) == view_strings(r@) + words_from(s@, i as int),
        decreases n - i,
    {
        if is_white_space(chars[i]) {
            i = i + 1;
        } else {
            let start = i;
            let mut word = String::new();
            while i < n && !is_white_space(chars[i])
                invariant
                    chars@ == s@,
                    n == chars@.len(),
                    start <= i <= n,
                    word@ == s@.subrange(start as int, i as int),
                    word_end(s@, start as int) == word_end(s@, i as int),
                decreases n - i,
            {
                push_char(&mut word, chars[i]);
                i = i + 1;
            }
            proof {
                lemma_word_end_bounds(s@, start as int);
                assert(word_end(s@, i as int) == i);
            }
            let ghost old_r = view_strings(r@);
            r.push(word);
            assert(view_strings(r@) == old_r.push(s@.subrange(start as int, i as int)));
        }
    }
    proof {
        assert(words_from(s@, i as int) == Seq::<Seq<char>>::empty());
    }
    r
}

/// An owned copy of a string slice.
pub fn from_literal(s: &str) -> (r: String)
    ensures
        r@ == s@,
{
    s.to_owned()
}

} // verus!
