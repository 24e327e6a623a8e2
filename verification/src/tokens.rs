//! The tokenizer: turns the bytes of a statement into identifiers, numbers,
//! comparison operators and punctuation.

use vstd::prelude::*;
use vstd::utf8::encode_utf8;
use vstd::std_specs::cmp::PartialEqSpecImpl;
use crate::text::{push_char, view_strings};
use crate::error::{DbError, DbErrorView, result_view};
use crate::get_res;

verus! {

/// The kinds of token.
#[derive(Clone, Copy, Debug, PartialEq, Eq, Structural)]
pub enum TokenT {
    Eq,
    NotEq,
    Greater,
    Less,
    GreaterEq,
    LessEq,
    Comma,
    Dot,
    Num,
    Ident,
    Whitespace,
    Error,
}

/// A token: its kind, and the text of an identifier or a number (empty for
/// the other kinds).
#[derive(Debug)]
pub struct Token {
    pub token_t: TokenT,
    pub val: String,
}

impl View for Token {
    type V = (TokenT, Seq<char>);

    open spec fn view(&self) -> (TokenT, Seq<char>) {
        (self.token_t, self.val@)
    }
}

impl PartialEq for Token {
    fn eq(&self, other: &Token) -> (r: bool) {
        self.token_t == other.token_t && self.val == other.val
    }
}

impl PartialEqSpecImpl for Token {
    open spec fn obeys_eq_spec() -> bool {
        true
    }

    open spec fn eq_spec(&self, other: &Token) -> bool {
        self@ == other@
    }
}

pub open spec fn view_tokens(v: Seq<Token>) -> Seq<(TokenT, Seq<char>)> {
    v.map_values(|t: Token| t@)
}

pub open spec fn is_alphabetic_byte(b: u8) -> bool {
    (65 <= b <= 90) || (97 <= b <= 122)
}

pub open spec fn is_digit_byte(b: u8) -> bool {
    48 <= b <= 57
}

pub open spec fn is_alphanumeric_byte(b: u8) -> bool {
    is_alphabetic_byte(b) || is_digit_byte(b)
}

/// ASCII whitespace: space, tab, line feed, form feed, carriage return.
pub open spec fn is_whitespace_byte(b: u8) -> bool {
    b == 32 || b == 9 || b == 10 || b == 12 || b == 13
}

/// A byte that may continue an identifier.
pub open spec fn is_ident_byte(b: u8) -> bool {
    is_alphanumeric_byte(b) || b == 95
}

/// `u8::is_ascii_alphabetic`.
pub fn byte_is_alphabetic(b: u8) -> (r: bool)
    ensures
        r == is_alphabetic_byte(b),
{
    (65 <= b && b <= 90) || (97 <= b && b <= 122)
}

/// `u8::is_ascii_digit`.
pub fn byte_is_digit(b: u8) -> (r: bool)
    ensures
        r == is_digit_byte(b),
{
    48 <= b && b <= 57
}

/// `u8::is_ascii_whitespace`.
pub fn byte_is_whitespace(b: u8) -> (r: bool)
    ensures
        r == is_whitespace_byte(b),
{
    b == 32 || b == 9 || b == 10 || b == 12 || b == 13
}

/// The characters of the bytes `s[i..j]`, each byte taken as one character.
pub open spec fn text_of(s: Seq<u8>, i: int, j: int) -> Seq<char> {
    Seq::new((j - i) as nat, |k: int| s[i + k] as char)
}

/// End of the run of identifier bytes that starts at `i`.
pub open spec fn ident_end(s: Seq<u8>, i: int) -> int
    decreases s.len() - i,
{
    if 0 <= i < s.len() && is_ident_byte(s[i]) {
        ident_end(s, i + 1)
    } else {
        i
    }
}

/// End of the number that starts at `i`, having already read `dots` dots:
/// digits, and at most one dot; a second dot ends it.
pub open spec fn num_end(s: Seq<u8>, i: int, dots: int) -> int
    decreases s.len() - i,
{
    if 0 <= i < s.len() {
        if is_digit_byte(s[i]) {
            num_end(s, i + 1, dots)
        } else if s[i] == 46 {
            if dots >= 1 {
                i
            } else {
                num_end(s, i + 1, dots + 1)
            }
        } else {
            i
        }
    } else {
        i
    }
}

pub proof fn lemma_ident_end(s: Seq<u8>, i: int)
    requires
        0 <= i <= s.len(),
    ensures
        i <= ident_end(s, i) <= s.len(),
        forall|k: int| i <= k < ident_end(s, i) ==> is_ident_byte(#[trigger] s[k]),
    decreases s.len() - i,
{
    if i < s.len() && is_ident_byte(s[i]) {
        lemma_ident_end(s, i + 1);
    }
}

pub proof fn lemma_num_end(s: Seq<u8>, i: int, dots: int)
    requires
        0 <= i <= s.len(),
    ensures
        i <= num_end(s, i, dots) <= s.len(),
    decreases s.len() - i,
{
    if i < s.len() {
        if is_digit_byte(s[i]) {
            lemma_num_end(s, i + 1, dots);
        } else if s[i] == 46 && dots < 1 {
            lemma_num_end(s, i + 1, dots + 1);
        }
    }
}

/// The token that starts at `i`, with the index just past it. A `>` or `<`
/// is always a token of its own.
pub open spec fn spec_select(s: Seq<u8>, i: int) -> (TokenT, Seq<char>, int) {
    if i < 0 || i >= s.len() {
        (TokenT::Error, seq![], i)
    } else {
        let c = s[i];
        if is_whitespace_byte(c) {
            (TokenT::Whitespace, seq![], i + 1)
        } else if c == 61 {
            (TokenT::Eq, seq![], i + 1)
        } else if c == 62 {
            (TokenT::Greater, seq![], i + 1)
        } else if c == 60 {
            (TokenT::Less, seq![], i + 1)
        } else if c == 44 {
            (TokenT::Comma, seq![], i + 1)
        } else if c == 46 {
            (TokenT::Dot, seq![], i + 1)
        } else if is_digit_byte(c) {
            let e = num_end(s, i, 0);
            (TokenT::Num, text_of(s, i, e), e)
        } else if is_alphabetic_byte(c) {
            let e = ident_end(s, i);
            (TokenT::Ident, text_of(s, i, e), e)
        } else {
            (TokenT::Error, seq![], i + 1)
        }
    }
}

pub proof fn lemma_select_advances(s: Seq<u8>, i: int)
    requires
        0 <= i < s.len(),
    ensures
        i < spec_select(s, i).2 <= s.len(),
{
    lemma_num_end(s, i, 0);
    lemma_ident_end(s, i);
    if is_digit_byte(s[i]) {
        lemma_num_end(s, i + 1, 0);
    }
    if is_alphabetic_byte(s[i]) {
        lemma_ident_end(s, i + 1);
    }
}

/// The tokens of `s` from index `i` on; whitespace and unknown bytes are
/// skipped.
pub open spec fn tokens_from(s: Seq<u8>, i: int) -> Seq<(TokenT, Seq<char>)>
    decreases s.len() - i,
{
    if i < 0 || i >= s.len() {
        seq![]
    } else {
        let (t, v, j) = spec_select(s, i);
        proof {
            lemma_select_advances(s, i);
        }
        if t == TokenT::Whitespace || t == TokenT::Error {
            tokens_from(s, j)
        } else {
            seq![(t, v)] + tokens_from(s, j)
        }
    }
}

/// The tokens of the bytes `s`.
pub open spec fn spec_tokenize(s: Seq<u8>) -> Seq<(TokenT, Seq<char>)> {
    tokens_from(s, 0)
}

/// Whether `s` is one of the strings of `v`.
pub fn contains_string(v: &Vec<String>, s: &String) -> (r: bool)
    ensures
        r == view_strings(v@).contains(s@),
{
    let mut i: usize = 0;
    while i < v.len()
        invariant
            i <= v@.len(),
            forall|k: int| 0 <= k < i ==> #[trigger] v@[k]@ != s@,
        decreases v@.len() - i,
    {
        if v[i] == *s {
            assert(view_strings(v@)[i as int] == s@);
            return true;
        }
        i += 1;
    }
    proof {
        if view_strings(v@).contains(s@) {
            let k = choose|k: int| 0 <= k < view_strings(v@).len() && view_strings(v@)[k] == s@;
            assert(v@[k]@ == s@);
        }
    }
    false
}

/// Whether `t` is one of `v`.
pub fn contains_token_t(v: &Vec<TokenT>, t: TokenT) -> (r: bool)
    ensures
        r == v@.contains(t),
{
    let mut i: usize = 0;
    while i < v.len()
        invariant
            i <= v@.len(),
            forall|k: int| 0 <= k < i ==> #[trigger] v@[k] != t,
        decreases v@.len() - i,
    {
        if v[i] == t {
            assert(v@[i as int] == t);
            return true;
        }
        i += 1;
    }
    false
}

/// `t` stands in `s` at `i`.
pub open spec fn stands_at(s: Seq<u8>, i: int, t: Seq<u8>) -> bool {
    t.len() == 0 || (0 <= i && i + t.len() <= s.len() && s.subrange(i, i + t.len()) == t)
}

/// Comparing `t` with `s` from `i` on would read past the end of `s`: the
/// bytes of `s` from `i` on all match, and `t` is longer.
pub open spec fn runs_off(s: Seq<u8>, i: int, t: Seq<u8>) -> bool {
    t.len() > 0 && (i > s.len() || (i + t.len() > s.len() && s.subrange(i, s.len() as int)
        == t.subrange(0, s.len() - i)))
}

/// No two characters of `v` are dots.
pub open spec fn at_most_one_dot(v: Seq<char>) -> bool {
    forall|a: int, b: int| 0 <= a < b < v.len() && #[trigger] v[a] == '.' ==> #[trigger] v[b] != '.'
}

proof fn lemma_ident_end_shift(p: Seq<u8>, y: Seq<u8>, j: int)
    requires
        0 <= j <= y.len(),
    ensures
        ident_end(p + y, p.len() + j) == p.len() + ident_end(y, j),
    decreases y.len() - j,
{
    if j < y.len() {
        assert((p + y)[p.len() + j] == y[j]);
        if is_ident_byte(y[j]) {
            lemma_ident_end_shift(p, y, j + 1);
        }
    }
}

proof fn lemma_num_end_shift(p: Seq<u8>, y: Seq<u8>, j: int, dots: int)
    requires
        0 <= j <= y.len(),
    ensures
        num_end(p + y, p.len() + j, dots) == p.len() + num_end(y, j, dots),
    decreases y.len() - j,
{
    if j < y.len() {
        assert((p + y)[p.len() + j] == y[j]);
        if is_digit_byte(y[j]) {
            lemma_num_end_shift(p, y, j + 1, dots);
        } else if y[j] == 46 && dots < 1 {
            lemma_num_end_shift(p, y, j + 1, dots + 1);
        }
    }
}

/// Reading a token is alike after a prefix.
proof fn lemma_select_shift(p: Seq<u8>, y: Seq<u8>, j: int)
    requires
        0 <= j <= y.len(),
    ensures
        spec_select(p + y, p.len() + j) == (spec_select(y, j).0, spec_select(y, j).1, p.len() + spec_select(y, j).2),
{
    let s = p + y;
    if j < y.len() {
        assert(s[p.len() + j] == y[j]);
        lemma_num_end_shift(p, y, j, 0);
        lemma_ident_end_shift(p, y, j);
        lemma_num_end(y, j, 0);
        lemma_ident_end(y, j);
        let e1 = num_end(y, j, 0);
        let e2 = ident_end(y, j);
        assert(text_of(s, p.len() + j, p.len() + e1) =~= text_of(y, j, e1));
        assert(text_of(s, p.len() + j, p.len() + e2) =~= text_of(y, j, e2));
    }
}

/// The tokens are alike after a prefix.
pub proof fn lemma_tokens_shift(p: Seq<u8>, y: Seq<u8>, j: int)
    requires
        0 <= j <= y.len(),
    ensures
        tokens_from(p + y, p.len() + j) == tokens_from(y, j),
    decreases y.len() - j,
{
    if j < y.len() {
        lemma_select_shift(p, y, j);
        lemma_select_advances(y, j);
        lemma_tokens_shift(p, y, spec_select(y, j).2);
    }
}

proof fn lemma_ident_end_prefix(x: Seq<u8>, z: Seq<u8>, i: int)
    requires
        0 <= i <= x.len(),
        z.len() > 0,
        !is_ident_byte(z[0]),
    ensures
        ident_end(x + z, i) == ident_end(x, i),
    decreases x.len() - i,
{
    let s = x + z;
    if i < x.len() {
        assert(s[i] == x[i]);
        if is_ident_byte(x[i]) {
            lemma_ident_end_prefix(x, z, i + 1);
        }
    } else {
        assert(s[i] == z[0]);
    }
}

proof fn lemma_num_end_prefix(x: Seq<u8>, z: Seq<u8>, i: int, dots: int)
    requires
        0 <= i <= x.len(),
        z.len() > 0,
        !is_digit_byte(z[0]),
        z[0] != 46,
    ensures
        num_end(x + z, i, dots) == num_end(x, i, dots),
    decreases x.len() - i,
{
    let s = x + z;
    if i < x.len() {
        assert(s[i] == x[i]);
        if is_digit_byte(x[i]) {
            lemma_num_end_prefix(x, z, i + 1, dots);
        } else if x[i] == 46 && dots < 1 {
            lemma_num_end_prefix(x, z, i + 1, dots + 1);
        }
    } else {
        assert(s[i] == z[0]);
    }
}

/// A token inside `x` is read alike when a blank and more bytes follow.
proof fn lemma_select_prefix(x: Seq<u8>, y: Seq<u8>, i: int)
    requires
        0 <= i < x.len(),
    ensures
        spec_select(x + (seq![32u8] + y), i) == spec_select(x, i),
        spec_select(x, i).2 <= x.len(),
{
    let z = seq![32u8] + y;
    let s = x + z;
    assert(z[0] == 32u8);
    assert(s[i] == x[i]);
    lemma_num_end_prefix(x, z, i, 0);
    lemma_ident_end_prefix(x, z, i);
    lemma_num_end(x, i, 0);
    lemma_ident_end(x, i);
    lemma_select_advances(x, i);
    let e1 = num_end(x, i, 0);
    let e2 = ident_end(x, i);
    assert(text_of(s, i, e1) =~= text_of(x, i, e1));
    assert(text_of(s, i, e2) =~= text_of(x, i, e2));
}

proof fn lemma_tokens_blank_from(x: Seq<u8>, y: Seq<u8>, i: int)
    requires
        0 <= i <= x.len(),
    ensures
        tokens_from(x + (seq![32u8] + y), i) == tokens_from(x, i) + tokens_from(y, 0),
    decreases x.len() - i,
{
    let z = seq![32u8] + y;
    let s = x + z;
    if i == x.len() {
        assert(s[i] == 32u8);
        assert(s =~= (x + seq![32u8]) + y);
        lemma_tokens_shift(x + seq![32u8], y, 0);
        assert(tokens_from(x, i) + tokens_from(y, 0) =~= tokens_from(y, 0));
    } else {
        lemma_select_prefix(x, y, i);
        lemma_select_advances(x, i);
        let (t, v, j) = spec_select(x, i);
        lemma_tokens_blank_from(x, y, j);
        if !(t == TokenT::Whitespace || t == TokenT::Error) {
            assert(tokens_from(s, i) =~= seq![(t, v)] + (tokens_from(x, j) + tokens_from(y, 0)));
        }
    }
}

/// The tokens of two byte strings joined by a blank are the tokens of each.
pub proof fn lemma_tokens_blank(x: Seq<u8>, y: Seq<u8>)
    ensures
        spec_tokenize(x + (seq![32u8] + y)) == spec_tokenize(x) + spec_tokenize(y),
{
    lemma_tokens_blank_from(x, y, 0);
}

pub open spec fn is_letter_char(c: char) -> bool {
    ('a' <= c && c <= 'z') || ('A' <= c && c <= 'Z')
}

pub open spec fn is_ident_char(c: char) -> bool {
    is_letter_char(c) || ('0' <= c && c <= '9') || c == '_'
}

/// The shape of the tokens the tokenizer gives: an identifier is a letter
/// followed by letters, digits and underscores; a number is a digit followed
/// by digits and at most one dot; `=`, `>`, `<`, `,` and `.` carry no text; no other
/// kind of token is given.
pub open spec fn token_well_formed(t: (TokenT, Seq<char>)) -> bool {
    match t.0 {
        TokenT::Ident => t.1.len() > 0 && is_letter_char(t.1[0]) && forall|k: int|
            0 <= k < t.1.len() ==> is_ident_char(#[trigger] t.1[k]),
        TokenT::Num => t.1.len() > 0 && ('0' <= t.1[0] && t.1[0] <= '9') && (forall|k: int|
            0 <= k < t.1.len() ==> ('0' <= #[trigger] t.1[k] && t.1[k] <= '9') || t.1[k] == '.')
            && at_most_one_dot(t.1),
        TokenT::Eq | TokenT::Greater | TokenT::Less | TokenT::Comma | TokenT::Dot => t.1.len() == 0,
        _ => false,
    }
}

pub proof fn lemma_num_end_bytes(s: Seq<u8>, i: int, dots: int)
    requires
        0 <= i <= s.len(),
    ensures
        forall|k: int| i <= k < num_end(s, i, dots) ==> is_digit_byte(#[trigger] s[k]) || s[k] == 46,
    decreases s.len() - i,
{
    if i < s.len() {
        if is_digit_byte(s[i]) {
            lemma_num_end_bytes(s, i + 1, dots);
        } else if s[i] == 46 && dots < 1 {
            lemma_num_end_bytes(s, i + 1, dots + 1);
        }
    }
}

/// A number holds at most one dot, and none once a dot was read.
pub proof fn lemma_num_end_dots(s: Seq<u8>, i: int, dots: int)
    requires
        0 <= i <= s.len(),
        0 <= dots,
    ensures
        dots >= 1 ==> forall|k: int| i <= k < num_end(s, i, dots) ==> #[trigger] s[k] != 46,
        forall|a: int, b: int|
            i <= a < b < num_end(s, i, dots) && #[trigger] s[a] == 46 ==> #[trigger] s[b] != 46,
    decreases s.len() - i,
{
    if i < s.len() {
        if is_digit_byte(s[i]) {
            lemma_num_end_dots(s, i + 1, dots);
        } else if s[i] == 46 && dots < 1 {
            lemma_num_end_dots(s, i + 1, dots + 1);
        }
    }
}

/// A number ends where no digit, and no first dot, can continue it.
pub proof fn lemma_num_end_maximal(s: Seq<u8>, i: int, dots: int)
    requires
        0 <= i <= s.len(),
        0 <= dots,
    ensures
        num_end(s, i, dots) == s.len() || (!is_digit_byte(s[num_end(s, i, dots)]) && (s[num_end(
            s,
            i,
            dots,
        )] == 46 ==> (dots >= 1 || exists|k: int| i <= k < num_end(s, i, dots) && #[trigger] s[k] == 46))),
    decreases s.len() - i,
{
    if i < s.len() {
        if is_digit_byte(s[i]) {
            lemma_num_end_maximal(s, i + 1, dots);
            let e = num_end(s, i, dots);
            if e < s.len() && s[e] == 46 && dots < 1 {
                let k = choose|k: int| i + 1 <= k < e && #[trigger] s[k] == 46;
                assert(i <= k < e && s[k] == 46);
            }
        } else if s[i] == 46 && dots < 1 {
            lemma_num_end_maximal(s, i + 1, dots + 1);
            lemma_num_end(s, i + 1, dots + 1);
            let e = num_end(s, i, dots);
            if e < s.len() && s[e] == 46 {
                assert(i <= i < e && s[i] == 46);
            }
        }
    }
}

proof fn lemma_select_well_formed(s: Seq<u8>, i: int)
    requires
        0 <= i < s.len(),
        spec_select(s, i).0 != TokenT::Whitespace,
        spec_select(s, i).0 != TokenT::Error,
    ensures
        token_well_formed((spec_select(s, i).0, spec_select(s, i).1)),
{
    lemma_select_advances(s, i);
    let c = s[i];
    if is_digit_byte(c) {
        lemma_num_end_bytes(s, i, 0);
        lemma_num_end_dots(s, i, 0);
        lemma_num_end(s, i + 1, 0);
        let v = spec_select(s, i).1;
        assert forall|a: int, b: int| 0 <= a < b < v.len() && #[trigger] v[a] == '.' implies #[trigger] v[b] != '.' by {
            assert(v[a] == s[i + a] as char);
            assert(v[b] == s[i + b] as char);
        }
        assert forall|k: int| 0 <= k < v.len() implies ('0' <= #[trigger] v[k] && v[k] <= '9') || v[k] == '.' by {
            assert(v[k] == s[i + k] as char);
        }
    } else if is_alphabetic_byte(c) {
        lemma_ident_end(s, i);
        lemma_ident_end(s, i + 1);
        let v = spec_select(s, i).1;
        assert forall|k: int| 0 <= k < v.len() implies is_ident_char(#[trigger] v[k]) by {
            assert(v[k] == s[i + k] as char);
            assert(is_ident_byte(s[i + k]));
        }
    }
}

/// Every token from index `i` on is well formed.
pub proof fn lemma_tokens_from_well_formed(s: Seq<u8>, i: int)
    ensures
        forall|k: int| 0 <= k < tokens_from(s, i).len() ==> token_well_formed(#[trigger] tokens_from(s, i)[k]),
    decreases s.len() - i,
{
    if 0 <= i < s.len() {
        lemma_select_advances(s, i);
        let (t, v, j) = spec_select(s, i);
        lemma_tokens_from_well_formed(s, j);
        if !(t == TokenT::Whitespace || t == TokenT::Error) {
            lemma_select_well_formed(s, i);
            let r = tokens_from(s, i);
            assert(r == seq![(t, v)] + tokens_from(s, j));
            assert forall|k: int| 0 <= k < r.len() implies token_well_formed(#[trigger] r[k]) by {
                if k > 0 {
                    assert(r[k] == tokens_from(s, j)[k - 1]);
                }
            }
        }
    }
}

/// A token list together with the bytes it was read from and the name of
/// the replica that reads it.
#[derive(Debug)]
pub struct Tokens {
    pub token_list: Vec<Token>,
    pub stream: Vec<u8>,
    pub me: String,
}

impl Tokens {
    pub open spec fn tokens_view(&self) -> Seq<(TokenT, Seq<char>)> {
        view_tokens(self.token_list@)
    }

    /// Two token lists are equal when they hold the same tokens in the same
    /// order; the bytes and the name are not compared.
    pub fn eq(&self, other: &Tokens) -> (r: Result<bool, DbError>)
        ensures
            r matches Ok(b) && b == (self.tokens_view() == other.tokens_view()),
    {
        let mut is_eq = true;
        if self.token_list.len() != other.token_list.len() {
            is_eq = false;
            assert(self.tokens_view().len() != other.tokens_view().len());
        }
        let mut i: usize = 0;
        while i < self.token_list.len() && is_eq
            invariant
                i <= self.token_list.len(),
                is_eq ==> self.token_list.len() == other.token_list.len(),
                is_eq ==> forall|k: int| 0 <= k < i ==> #[trigger] self.token_list@[k]@ == other.token_list@[k]@,
                !is_eq ==> self.tokens_view() != other.tokens_view(),
            decreases self.token_list.len() - i,
        {
            let a = get_res(self.token_list.as_slice(), i)?;
            let b = get_res(other.token_list.as_slice(), i)?;
            if !(a == b) {
                is_eq = false;
                assert(self.tokens_view()[i as int] != other.tokens_view()[i as int]);
            }
            i += 1;
        }
        if is_eq {
            assert(self.tokens_view() =~= other.tokens_view());
        }
        Ok(is_eq)
    }

    /// Fails unless `token` holds the text `expecting`.
    pub fn expect_val(&self, token: &Token, expecting: &String) -> (r: Result<(), DbError>)
        ensures
            result_view(r) == if token.val@ == expecting@ {
                Ok(())
            } else {
                Err(DbErrorView::UnexpectedValue { me: self.me@, expected: expecting@, found: token.val@ })
            },
    {
        let mut result = Ok(());
        if !(token.val == *expecting) {
            result = Err(DbError::UnexpectedValue {
                me: self.me.clone(),
                expected: expecting.clone(),
                found: token.val.clone(),
            });
        }
        result
    }

    /// Fails unless `token` holds one of `keyword_strings`.
    pub fn expect_keyword(&self, token: &Token, keyword_strings: &Vec<String>) -> (r: Result<(), DbError>)
        ensures
            result_view(r) == if view_strings(keyword_strings@).contains(token.val@) {
                Ok(())
            } else {
                Err(DbErrorView::ExpectedKeyword { me: self.me@, found: token.val@ })
            },
    {
        let mut result = Ok(());
        if !contains_string(keyword_strings, &token.val) {
            result = Err(DbError::ExpectedKeyword { me: self.me.clone(), found: token.val.clone() });
        }
        result
    }

    /// Fails unless `token_t` is one of `targets`.
    pub fn expect_token_t(&self, token_t: &TokenT, targets: Vec<TokenT>) -> (r: Result<(), DbError>)
        ensures
            result_view(r) == if targets@.contains(*token_t) {
                Ok(())
            } else {
                Err(DbErrorView::UnexpectedTokenType { me: self.me@, expected: targets@, found: *token_t })
            },
    {
        let mut result = Ok(());
        if !contains_token_t(&targets, *token_t) {
            result = Err(DbError::UnexpectedTokenType {
                me: self.me.clone(),
                expected: targets,
                found: *token_t,
            });
        }
        result
    }

    /// Whether `target` stands in the stream at `*index`; if so, `*index`
    /// moves past it.
    fn next_eq(&self, index: &mut usize, target: &[u8]) -> (r: Result<bool, DbError>)
        requires
            !runs_off(self.stream@, *old(index) as int, target@),
        ensures
            r matches Ok(b) && b == stands_at(self.stream@, *old(index) as int, target@),
            *final(index) == if stands_at(self.stream@, *old(index) as int, target@) {
                *old(index) + target@.len()
            } else {
                *old(index) as int
            },
    {
        let ghost s = self.stream@;
        let ghost start = *index as int;
        let mut is_eq = true;
        let mut i: usize = 0;
        let mut new_index: usize = *index;
        while i < target.len() && is_eq
            invariant
                s == self.stream@,
                start == *index,
                !runs_off(s, start, target@),
                i <= target@.len(),
                new_index == start + i,
                is_eq && i > 0 ==> start + i <= s.len(),
                is_eq && i > 0 ==> s.subrange(start, start + i) =~= target@.subrange(0, i as int),
                !is_eq ==> !stands_at(s, start, target@),
            decreases target@.len() - i,
        {
            if new_index >= self.stream.len() {
                assert(s.subrange(start, s.len() as int) =~= target@.subrange(0, s.len() - start));
            }
            if self.stream[new_index] != target[i] {
                is_eq = false;
                proof {
                    if start + target@.len() <= s.len() {
                        assert(s.subrange(start, start + target@.len())[i as int] != target@[i as int]);
                    }
                }
            }
            i += 1;
            new_index += 1;
        }
        if is_eq {
            assert(target@.subrange(0, target@.len() as int) =~= target@);
            *index = new_index;
        }
        Ok(is_eq)
    }

    /// Reads the identifier bytes from `*index` on into `word`.
    fn read_ident(&self, index: &mut usize, word: &mut String) -> (r: Result<(), DbError>)
        ensures
            r is Ok,
            *final(index) == ident_end(self.stream@, *old(index) as int),
            final(word)@ == old(word)@ + text_of(self.stream@, *old(index) as int, *final(index) as int),
    {
        let ghost s = self.stream@;
        let ghost start = *index as int;
        let ghost w0 = word@;
        let mut is_alnum = true;
        while *index < self.stream.len() && is_alnum
            invariant
                s == self.stream@,
                start <= *index,
                *index <= s.len() || *index == start,
                is_alnum ==> ident_end(s, start) == ident_end(s, *index as int),
                !is_alnum ==> ident_end(s, start) == *index,
                word@ == w0 + text_of(s, start, *index as int),
            decreases s.len() - *index + (if is_alnum { 1int } else { 0int }),
        {
            let cur = get_res(self.stream.as_slice(), *index)?;
            if byte_is_alphabetic(*cur) || byte_is_digit(*cur) || *cur == 95 {
                push_char(word, *cur as char);
                assert(text_of(s, start, *index + 1) =~= text_of(s, start, *index as int).push(
                    s[*index as int] as char,
                ));
                *index += 1;
            } else {
                is_alnum = false;
            }
        }
        Ok(())
    }

    /// Reads an identifier when `cur` is a letter.
    fn try_read_ident(&self, index: &mut usize, cur: &u8, word: &mut String) -> (r: Result<bool, DbError>)
        ensures
            r matches Ok(b) && b == is_alphabetic_byte(*cur),
            is_alphabetic_byte(*cur) ==> *final(index) == ident_end(self.stream@, *old(index) as int)
                && final(word)@ == old(word)@ + text_of(self.stream@, *old(index) as int, *final(index) as int),
            !is_alphabetic_byte(*cur) ==> *final(index) == *old(index) && final(word)@ == old(word)@,
    {
        let mut is_word = false;
        if byte_is_alphabetic(*cur) {
            is_word = true;
            self.read_ident(index, word)?;
        }
        Ok(is_word)
    }

    /// Reads the digits of a number, with at most one dot, from `*index` on
    /// into `num`.
    fn read_num(&self, index: &mut usize, num: &mut String) -> (r: Result<(), DbError>)
        ensures
            r is Ok,
            *final(index) == num_end(self.stream@, *old(index) as int, 0),
            final(num)@ == old(num)@ + text_of(self.stream@, *old(index) as int, *final(index) as int),
    {
        let ghost s = self.stream@;
        let ghost start = *index as int;
        let ghost w0 = num@;
        let mut is_digit = true;
        let mut dot_count: u32 = 0;
        let mut has_two_dots = false;
        while *index < self.stream.len() && is_digit && !has_two_dots
            invariant
                s == self.stream@,
                start <= *index,
                *index <= s.len() || *index == start,
                dot_count <= 2,
                !has_two_dots ==> dot_count <= 1,
                is_digit && !has_two_dots ==> num_end(s, start, 0) == num_end(s, *index as int, dot_count as int),
                !(is_digit && !has_two_dots) ==> num_end(s, start, 0) == *index,
                num@ == w0 + text_of(s, start, *index as int),
            decreases s.len() - *index + (if is_digit && !has_two_dots { 1int } else { 0int }),
        {
            let cur = get_res(self.stream.as_slice(), *index)?;
            if byte_is_digit(*cur) {
                push_char(num, *cur as char);
                assert(text_of(s, start, *index + 1) =~= text_of(s, start, *index as int).push(
                    s[*index as int] as char,
                ));
                *index += 1;
            } else if *cur == 46 {
                dot_count += 1;
                if dot_count == 2 {
                    has_two_dots = true;
                } else {
                    push_char(num, '.');
                    assert(text_of(s, start, *index + 1) =~= text_of(s, start, *index as int).push(
                        s[*index as int] as char,
                    ));
                    *index += 1;
                }
            } else {
                is_digit = false;
            }
        }
        Ok(())
    }

    /// Reads a number when `cur` is a digit.
    fn try_read_num(&self, index: &mut usize, cur: &u8, num: &mut String) -> (r: Result<bool, DbError>)
        ensures
            r matches Ok(b) && b == is_digit_byte(*cur),
            is_digit_byte(*cur) ==> *final(index) == num_end(self.stream@, *old(index) as int, 0)
                && final(num)@ == old(num)@ + text_of(self.stream@, *old(index) as int, *final(index) as int),
            !is_digit_byte(*cur) ==> *final(index) == *old(index) && final(num)@ == old(num)@,
    {
        let mut is_num = false;
        if byte_is_digit(*cur) {
            is_num = true;
            self.read_num(index, num)?;
        }
        Ok(is_num)
    }

    /// Reads the token at `*index` and moves `*index` past it; at or past the
    /// end of the stream it gives an `Error` token and leaves `*index`.
    pub fn select_token(&self, index: &mut usize) -> (r: Result<Token, DbError>)
        ensures
            r matches Ok(t) && t@ == (spec_select(self.stream@, *old(index) as int).0, spec_select(
                self.stream@,
                *old(index) as int,
            ).1),
            *final(index) == spec_select(self.stream@, *old(index) as int).2,
    {
        let ghost s = self.stream@;
        let ghost start = *index as int;
        let mut token_t = TokenT::Error;
        let mut val = String::new();
        if *index < self.stream.len() {
            let cur = get_res(self.stream.as_slice(), *index)?;
            let eq_sign: [u8; 1] = [61];
            let greater_sign: [u8; 1] = [62];
            val = String::new();
            proof {
                lemma_num_end(s, start, 0);
                lemma_ident_end(s, start);
            }
            token_t = if byte_is_whitespace(*cur) {
                TokenT::Whitespace
            } else if *cur == 61 {
                TokenT::Eq
            } else if *cur == 62 {
                if self.next_eq(index, &eq_sign)? {
                    TokenT::GreaterEq
                } else {
                    TokenT::Greater
                }
            } else if *cur == 60 {
                if self.next_eq(index, &greater_sign)? {
                    TokenT::NotEq
                } else if self.next_eq(index, &eq_sign)? {
                    TokenT::LessEq
                } else {
                    TokenT::Less
                }
            } else if *cur == 44 {
                TokenT::Comma
            } else if *cur == 46 {
                TokenT::Dot
            } else if self.try_read_num(index, cur, &mut val)? {
                proof {
                    lemma_num_end(s, start + 1, 0);
                }
                *index -= 1;
                TokenT::Num
            } else if self.try_read_ident(index, cur, &mut val)? {
                proof {
                    lemma_ident_end(s, start + 1);
                }
                *index -= 1;
                TokenT::Ident
            } else {
                TokenT::Error
            };
            *index += 1;
            assert(val@ =~= spec_select(s, start).1);
        }
        Ok(Token { token_t, val })
    }

    /// Splits a statement into tokens.
    pub fn tokenize(statement_str: &String, me: &String) -> (r: Result<Tokens, DbError>)
        ensures
            r matches Ok(t) && t.stream@ == encode_utf8(statement_str@) && t.me@ == me@
                && t.tokens_view() == spec_tokenize(t.stream@),
    {
        let mut tokens = Tokens {
            token_list: Vec::new(),
            stream: vstd::slice::slice_to_vec(statement_str.as_str().as_bytes()),
            me: me.clone(),
        };
        let ghost s = tokens.stream@;
        let mut i: usize = 0;
        while i < tokens.stream.len()
            invariant
                s == tokens.stream@,
                tokens.me@ == me@,
                i <= s.len(),
                spec_tokenize(s) == tokens.tokens_view() + tokens_from(s, i as int),
            decreases s.len() - i,
        {
            let mut token: Token = Token { token_t: TokenT::Error, val: String::new() };
            let ghost i0 = i as int;
            loop
                invariant_except_break
                    spec_tokenize(s) == tokens.tokens_view() + tokens_from(s, i as int),
                invariant
                    s == tokens.stream@,
                    i0 < s.len(),
                    i0 <= i <= s.len(),
                ensures
                    i0 < i <= s.len(),
                    token.token_t != TokenT::Whitespace,
                    spec_tokenize(s) == tokens.tokens_view() + (if token.token_t == TokenT::Error {
                        seq![]
                    } else {
                        seq![token@]
                    }) + tokens_from(s, i as int),
                decreases s.len() - i,
            {
                let ghost before = i as int;
                token = tokens.select_token(&mut i)?;
                proof {
                    if before < s.len() {
                        lemma_select_advances(s, before);
                        assert(tokens_from(s, before) == (if token.token_t == TokenT::Whitespace
                            || token.token_t == TokenT::Error {
                            tokens_from(s, i as int)
                        } else {
                            seq![token@] + tokens_from(s, i as int)
                        }));
                    }
                }
                if token.token_t != TokenT::Whitespace {
                    assert(tokens.tokens_view() + (if token.token_t == TokenT::Error {
                        seq![]
                    } else {
                        seq![token@]
                    }) + tokens_from(s, i as int) =~= tokens.tokens_view() + tokens_from(s, before));
                    break;
                }
            }
            if token.token_t != TokenT::Error {
                let ghost old_view = tokens.tokens_view();
                tokens.token_list.push(token);
                assert(tokens.tokens_view() =~= old_view.push(token@));
            }
        }
        Ok(tokens)
    }
}

} // verus!
