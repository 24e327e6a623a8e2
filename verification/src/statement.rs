//! The statement parser: reads the kind of a statement and, for `select`,
//! its columns, table and predicate.

use vstd::prelude::*;
use vstd::utf8::encode_utf8;
use crate::error::{DbError, DbErrorView};
use crate::get_res;
use crate::keyword::{Keyword, keyword_strings};
use crate::text::{ascii_lowercase, from_literal, spec_lowercase, str_eq, view_strings};
use crate::tokens::{TokenT, Tokens, spec_tokenize};

verus! {

/// The kinds of statement.
#[derive(Clone, Copy, Debug, PartialEq, Eq, Structural)]
pub enum StatementT {
    Insert,
    Select,
    Update,
    Error,
}

/// One comparison of a predicate: a column, an operator and a number.
#[derive(Debug)]
pub struct Comparison {
    pub column_name: String,
    pub operator: TokenT,
    pub number: String,
}

pub struct ComparisonView {
    pub column_name: Seq<char>,
    pub operator: TokenT,
    pub number: Seq<char>,
}

impl View for Comparison {
    type V = ComparisonView;

    open spec fn view(&self) -> ComparisonView {
        ComparisonView { column_name: self.column_name@, operator: self.operator, number: self.number@ }
    }
}

/// The comparisons of a `where` clause.
#[derive(Debug)]
pub struct Predicate {
    pub comparisons: Vec<Comparison>,
}

/// Where the parser stands: the index of the next token and what it has read.
pub struct ParseState {
    pub idx: int,
    pub statement_t: StatementT,
    pub columns: Seq<Seq<char>>,
    pub table_name: Seq<char>,
    pub comparisons: Seq<ComparisonView>,
}

pub type TokenSeq = Seq<(TokenT, Seq<char>)>;

pub open spec fn initial_state() -> ParseState {
    ParseState {
        idx: 0,
        statement_t: StatementT::Error,
        columns: seq![],
        table_name: seq![],
        comparisons: seq![],
    }
}

pub open spec fn type_error(me: Seq<char>, expected: Seq<TokenT>, found: TokenT) -> DbErrorView {
    DbErrorView::UnexpectedTokenType { me, expected, found }
}

pub open spec fn comparison_operators() -> Seq<TokenT> {
    seq![TokenT::Greater, TokenT::GreaterEq, TokenT::Less, TokenT::LessEq, TokenT::Eq]
}

/// Where a parsing step leaves the parser, and the error it fails with, if any.
pub struct Step {
    pub state: ParseState,
    pub error: Option<DbErrorView>,
}

pub open spec fn done(st: ParseState) -> Step {
    Step { state: st, error: None }
}

pub open spec fn failed(st: ParseState, e: DbErrorView) -> Step {
    Step { state: st, error: Some(e) }
}

/// Reads the kind of statement: `insert into`, `select` or `update`. An
/// unknown word sets the kind to `Error` and is consumed; a token that is not
/// an identifier, or an `insert` at the end, changes nothing.
pub open spec fn spec_parse_type(tv: TokenSeq, me: Seq<char>, st: ParseState) -> Step {
    if 0 <= st.idx < tv.len() {
        let t = tv[st.idx];
        if t.0 != TokenT::Ident {
            failed(st, type_error(me, seq![TokenT::Ident], t.0))
        } else if t.1 == "insert"@ && st.idx + 1 >= tv.len() {
            failed(st, DbErrorView::IndexOutOfBounds)
        } else if t.1 == "insert"@ && tv[st.idx + 1].1 == "into"@ {
            done(ParseState { idx: st.idx + 1, statement_t: StatementT::Insert, ..st })
        } else if t.1 == "select"@ {
            done(ParseState { idx: st.idx + 1, statement_t: StatementT::Select, ..st })
        } else if t.1 == "update"@ {
            done(ParseState { idx: st.idx + 1, statement_t: StatementT::Update, ..st })
        } else {
            failed(
                ParseState { idx: st.idx + 1, statement_t: StatementT::Error, ..st },
                DbErrorView::UnknownStatement { me, found: t.1 },
            )
        }
    } else {
        done(st)
    }
}

/// Reads columns separated by commas, up to a keyword (which is left for the
/// next step) or the end; `must_be_ident` tells whether a column comes next.
pub open spec fn spec_select_columns(
    tv: TokenSeq,
    kw: Seq<Seq<char>>,
    me: Seq<char>,
    st: ParseState,
    must_be_ident: bool,
) -> Step
    decreases tv.len() - st.idx,
{
    if 0 <= st.idx < tv.len() {
        let t = tv[st.idx];
        if t.0 == TokenT::Ident && kw.contains(t.1) {
            done(st)
        } else if must_be_ident {
            if t.0 != TokenT::Ident {
                failed(st, type_error(me, seq![TokenT::Ident], t.0))
            } else {
                spec_select_columns(
                    tv,
                    kw,
                    me,
                    ParseState { idx: st.idx + 1, columns: st.columns.push(t.1), ..st },
                    false,
                )
            }
        } else {
            if t.0 != TokenT::Comma {
                failed(st, type_error(me, seq![TokenT::Comma], t.0))
            } else {
                spec_select_columns(tv, kw, me, ParseState { idx: st.idx + 1, ..st }, true)
            }
        }
    } else {
        done(st)
    }
}

/// Reads the identifier `word`, if any token is left.
pub open spec fn spec_parse_word(tv: TokenSeq, me: Seq<char>, st: ParseState, word: Seq<char>) -> Step {
    if 0 <= st.idx < tv.len() {
        let t = tv[st.idx];
        if t.0 != TokenT::Ident {
            failed(st, type_error(me, seq![TokenT::Ident], t.0))
        } else if t.1 != word {
            failed(st, DbErrorView::UnexpectedValue { me, expected: word, found: t.1 })
        } else {
            done(ParseState { idx: st.idx + 1, ..st })
        }
    } else {
        done(st)
    }
}

/// A token left after the table name must be a keyword; it is not consumed.
pub open spec fn spec_keyword_follows(tv: TokenSeq, kw: Seq<Seq<char>>, me: Seq<char>, st: ParseState) -> Step {
    if 0 <= st.idx < tv.len() && !kw.contains(tv[st.idx].1) {
        failed(st, DbErrorView::ExpectedKeyword { me, found: tv[st.idx].1 })
    } else {
        done(st)
    }
}

/// Reads the table name, if any token is left, then checks that a keyword
/// follows, if anything does.
pub open spec fn spec_parse_table_name(
    tv: TokenSeq,
    kw: Seq<Seq<char>>,
    me: Seq<char>,
    st: ParseState,
) -> Step {
    if 0 <= st.idx < tv.len() {
        let t = tv[st.idx];
        if t.0 != TokenT::Ident {
            failed(st, type_error(me, seq![TokenT::Ident], t.0))
        } else {
            spec_keyword_follows(tv, kw, me, ParseState { idx: st.idx + 1, table_name: t.1, ..st })
        }
    } else {
        spec_keyword_follows(tv, kw, me, st)
    }
}

/// Reads a comparison `column operator number`, as far as tokens are left;
/// it is recorded only when its number is read.
pub open spec fn spec_parse_comparison(tv: TokenSeq, me: Seq<char>, st: ParseState) -> Step {
    let i = st.idx;
    if !(0 <= i < tv.len()) {
        done(st)
    } else if tv[i].0 != TokenT::Ident {
        failed(st, type_error(me, seq![TokenT::Ident], tv[i].0))
    } else if i + 1 >= tv.len() {
        done(ParseState { idx: i + 1, ..st })
    } else if !comparison_operators().contains(tv[i + 1].0) {
        failed(ParseState { idx: i + 1, ..st }, type_error(me, comparison_operators(), tv[i + 1].0))
    } else if i + 2 >= tv.len() {
        done(ParseState { idx: i + 2, ..st })
    } else if tv[i + 2].0 != TokenT::Num {
        failed(ParseState { idx: i + 2, ..st }, type_error(me, seq![TokenT::Num], tv[i + 2].0))
    } else {
        done(
            ParseState {
                idx: i + 3,
                comparisons: st.comparisons.push(
                    ComparisonView { column_name: tv[i].1, operator: tv[i + 1].0, number: tv[i + 2].1 },
                ),
                ..st
            },
        )
    }
}

/// Reads the rest of a `select`: columns, `from`, the table, `where` and a
/// comparison, stopping at the first step that fails.
pub open spec fn spec_parse_select(tv: TokenSeq, kw: Seq<Seq<char>>, me: Seq<char>, st: ParseState) -> Step {
    let s1 = spec_select_columns(tv, kw, me, st, true);
    if s1.error is Some {
        s1
    } else {
        let s2 = spec_parse_word(tv, me, s1.state, "from"@);
        if s2.error is Some {
            s2
        } else {
            let s3 = spec_parse_table_name(tv, kw, me, s2.state);
            if s3.error is Some {
                s3
            } else {
                let s4 = spec_parse_word(tv, me, s3.state, "where"@);
                if s4.error is Some {
                    s4
                } else {
                    spec_parse_comparison(tv, me, s4.state)
                }
            }
        }
    }
}

/// Parses a token list with the keywords `kw`: the kind of statement, the
/// rest of a `select`, and no token left over.
pub open spec fn spec_parse_tokens(tv: TokenSeq, kw: Seq<Seq<char>>, me: Seq<char>) -> Result<
    ParseState,
    DbErrorView,
> {
    let s1 = spec_parse_type(tv, me, initial_state());
    match s1.error {
        Some(e) => Err(e),
        None => {
            let s2 = if s1.state.statement_t == StatementT::Select {
                spec_parse_select(tv, kw, me, s1.state)
            } else {
                s1
            };
            match s2.error {
                Some(e) => Err(e),
                None => if s2.state.idx == tv.len() {
                    Ok(s2.state)
                } else {
                    Err(DbErrorView::TrailingTokens { me })
                },
            }
        },
    }
}

/// The bytes a statement is tokenized from: the statement in ASCII lower case.
pub open spec fn statement_bytes(text: Seq<char>) -> Seq<u8> {
    encode_utf8(spec_lowercase(text))
}

/// The outcome of parsing the statement `text` on the replica named `me`.
pub open spec fn spec_parse(text: Seq<char>, me: Seq<char>) -> Result<ParseState, DbErrorView> {
    spec_parse_tokens(spec_tokenize(statement_bytes(text)), keyword_strings(), me)
}

/// A parsing step came out as `spec` says: the parser stands at `post`,
/// and the result is the step's error, if any.
pub open spec fn step_ok(r: Result<(), DbError>, spec: Step, post: ParseState) -> bool {
    &&& post == spec.state
    &&& match spec.error {
        None => r is Ok,
        Some(e) => r matches Err(x) && x@ == e,
    }
}

/// A parsed statement, with the tokens and keywords it was parsed with.
#[derive(Debug)]
pub struct Statement {
    pub statement_t: StatementT,
    pub columns: Vec<String>,
    pub table_name: String,
    pub predicate: Predicate,
    pub me: String,
    pub tokens: Tokens,
    pub keywords: Vec<String>,
}

impl Statement {
    pub open spec fn state(&self, idx: int) -> ParseState {
        ParseState {
            idx,
            statement_t: self.statement_t,
            columns: view_strings(self.columns@),
            table_name: self.table_name@,
            comparisons: self.predicate.comparisons@.map_values(|c: Comparison| c@),
        }
    }

    pub open spec fn tv(&self) -> TokenSeq {
        self.tokens.tokens_view()
    }

    pub open spec fn kw(&self) -> Seq<Seq<char>> {
        view_strings(self.keywords@)
    }

    /// The tokens, keywords and name stay as they were.
    pub open spec fn same_input(&self, other: &Statement) -> bool {
        &&& self.tokens == other.tokens
        &&& self.keywords == other.keywords
        &&& self.me == other.me
    }

    fn parse_type(&mut self, token_index: &mut usize) -> (r: Result<(), DbError>)
        requires
            old(self).tokens.me@ == old(self).me@,
        ensures
            final(self).same_input(old(self)),
            step_ok(
                r,
                spec_parse_type(old(self).tv(), old(self).me@, old(self).state(*old(token_index) as int)),
                final(self).state(*final(token_index) as int),
            ),
    {
        let mut result = Ok(());
        if *token_index < self.tokens.token_list.len() {
            let first_token = get_res(self.tokens.token_list.as_slice(), *token_index)?;
            let targets = vec![TokenT::Ident];
            assert(targets@ =~= seq![TokenT::Ident]);
            assert(first_token@ == self.tv()[*token_index as int]);
            self.tokens.expect_token_t(&first_token.token_t, targets)?;
            let val = &first_token.val;
            self.statement_t = if str_eq(val.as_str(), "insert") && str_eq(
                get_res(self.tokens.token_list.as_slice(), *token_index + 1)?.val.as_str(),
                "into",
            ) {
                StatementT::Insert
            } else if str_eq(val.as_str(), "select") {
                StatementT::Select
            } else if str_eq(val.as_str(), "update") {
                StatementT::Update
            } else {
                result = Err(DbError::UnknownStatement { me: self.me.clone(), found: val.clone() });
                StatementT::Error
            };
            *token_index += 1;
        }
        result
    }

    /// An `insert` reads nothing more.
    fn parse_insert(&mut self, token_index: &mut usize) -> (r: Result<(), DbError>)
        ensures
            r is Ok,
            *final(self) == *old(self),
            *final(token_index) == *old(token_index),
    {
        let result = Ok(());
        result
    }

    /// An `update` reads nothing more.
    fn parse_update(&mut self, token_index: &mut usize) -> (r: Result<(), DbError>)
        ensures
            r is Ok,
            *final(self) == *old(self),
            *final(token_index) == *old(token_index),
    {
        let result = Ok(());
        result
    }

    fn parse_select_columns(&mut self, token_index: &mut usize) -> (r: Result<(), DbError>)
        requires
            old(self).tokens.me@ == old(self).me@,
        ensures
            final(self).same_input(old(self)),
            step_ok(
                r,
                spec_select_columns(
                    old(self).tv(),
                    old(self).kw(),
                    old(self).me@,
                    old(self).state(*old(token_index) as int),
                    true,
                ),
                final(self).state(*final(token_index) as int),
            ),
    {
        let ghost tv = self.tv();
        let ghost kw = self.kw();
        let ghost me = self.me@;
        let ghost goal = spec_select_columns(tv, kw, me, self.state(*token_index as int), true);
        let result = Ok(());
        let mut must_be_ident = true;
        let mut reached_keyword = false;
        while *token_index < self.tokens.token_list.len() && !reached_keyword
            invariant
                self.same_input(old(self)),
                goal == spec_select_columns(
                    old(self).tv(),
                    old(self).kw(),
                    old(self).me@,
                    old(self).state(*old(token_index) as int),
                    true,
                ),
                tv == self.tv(),
                kw == self.kw(),
                me == self.me@,
                self.tokens.me@ == me,
                *token_index <= tv.len() || !reached_keyword,
                !reached_keyword ==> goal == spec_select_columns(tv, kw, me, self.state(*token_index as int), must_be_ident),
                reached_keyword ==> goal == done(self.state(*token_index as int)),
            decreases tv.len() - *token_index + (if reached_keyword { 0int } else { 1int }),
        {
            let token = get_res(self.tokens.token_list.as_slice(), *token_index)?;
            let token_t = &token.token_t;
            assert(token@ == tv[*token_index as int]);
            if *token_t == TokenT::Ident && crate::tokens::contains_string(&self.keywords, &token.val) {
                reached_keyword = true;
            } else {
                if must_be_ident {
                    let targets = vec![TokenT::Ident];
                    assert(targets@ =~= seq![TokenT::Ident]);
                    self.tokens.expect_token_t(token_t, targets)?;
                    let ghost before = view_strings(self.columns@);
                    self.columns.push(token.val.clone());
                    assert(view_strings(self.columns@) =~= before.push(token.val@));
                } else {
                    let targets = vec![TokenT::Comma];
                    assert(targets@ =~= seq![TokenT::Comma]);
                    self.tokens.expect_token_t(token_t, targets)?;
                }
                must_be_ident = !must_be_ident;
                *token_index += 1;
            }
        }
        result
    }

    fn parse_word(&self, token_index: &mut usize, word: &String) -> (r: Result<(), DbError>)
        requires
            self.tokens.me@ == self.me@,
        ensures
            step_ok(
                r,
                spec_parse_word(self.tv(), self.me@, self.state(*old(token_index) as int), word@),
                self.state(*final(token_index) as int),
            ),
    {
        let result = Ok(());
        if *token_index < self.tokens.token_list.len() {
            let token = get_res(self.tokens.token_list.as_slice(), *token_index)?;
            assert(token@ == self.tv()[*token_index as int]);
            let targets = vec![TokenT::Ident];
            assert(targets@ =~= seq![TokenT::Ident]);
            self.tokens.expect_token_t(&token.token_t, targets)?;
            self.tokens.expect_val(token, word)?;
            *token_index += 1;
        }
        result
    }

    fn parse_table_name(&mut self, token_index: &mut usize) -> (r: Result<(), DbError>)
        requires
            old(self).tokens.me@ == old(self).me@,
        ensures
            final(self).same_input(old(self)),
            step_ok(
                r,
                spec_parse_table_name(
                    old(self).tv(),
                    old(self).kw(),
                    old(self).me@,
                    old(self).state(*old(token_index) as int),
                ),
                final(self).state(*final(token_index) as int),
            ),
    {
        let result = Ok(());
        if *token_index < self.tokens.token_list.len() {
            let token = get_res(self.tokens.token_list.as_slice(), *token_index)?;
            assert(token@ == self.tv()[*token_index as int]);
            let targets = vec![TokenT::Ident];
            assert(targets@ =~= seq![TokenT::Ident]);
            self.tokens.expect_token_t(&token.token_t, targets)?;
            self.table_name = token.val.clone();
            *token_index += 1;
        }
        if *token_index < self.tokens.token_list.len() {
            let token = get_res(self.tokens.token_list.as_slice(), *token_index)?;
            assert(token@ == self.tv()[*token_index as int]);
            self.tokens.expect_keyword(token, &self.keywords)?;
        }
        result
    }

    fn parse_comparison(&mut self, token_index: &mut usize) -> (r: Result<(), DbError>)
        requires
            old(self).tokens.me@ == old(self).me@,
        ensures
            final(self).same_input(old(self)),
            step_ok(
                r,
                spec_parse_comparison(old(self).tv(), old(self).me@, old(self).state(*old(token_index) as int)),
                final(self).state(*final(token_index) as int),
            ),
    {
        let ghost start = *token_index as int;
        let result = Ok(());
        let mut operator = TokenT::Error;
        let mut column_name = String::new();
        if *token_index < self.tokens.token_list.len() {
            let cur_token = get_res(self.tokens.token_list.as_slice(), *token_index)?;
            assert(cur_token@ == self.tv()[*token_index as int]);
            let targets = vec![TokenT::Ident];
            assert(targets@ =~= seq![TokenT::Ident]);
            self.tokens.expect_token_t(&cur_token.token_t, targets)?;
            column_name = cur_token.val.clone();
            *token_index += 1;
        }
        if *token_index < self.tokens.token_list.len() {
            let cur_token = get_res(self.tokens.token_list.as_slice(), *token_index)?;
            assert(cur_token@ == self.tv()[*token_index as int]);
            let targets = vec![TokenT::Greater, TokenT::GreaterEq, TokenT::Less, TokenT::LessEq, TokenT::Eq];
            assert(targets@ =~= comparison_operators());
            self.tokens.expect_token_t(&cur_token.token_t, targets)?;
            operator = cur_token.token_t;
            *token_index += 1;
        }
        if *token_index < self.tokens.token_list.len() {
            let cur_token = get_res(self.tokens.token_list.as_slice(), *token_index)?;
            assert(cur_token@ == self.tv()[*token_index as int]);
            let targets = vec![TokenT::Num];
            assert(targets@ =~= seq![TokenT::Num]);
            self.tokens.expect_token_t(&cur_token.token_t, targets)?;
            let number = cur_token.val.clone();
            let ghost before = self.predicate.comparisons@.map_values(|c: Comparison| c@);
            self.predicate.comparisons.push(Comparison { column_name, operator, number });
            assert(self.predicate.comparisons@.map_values(|c: Comparison| c@) =~= before.push(
                ComparisonView {
                    column_name: self.tv()[start].1,
                    operator: self.tv()[start + 1].0,
                    number: self.tv()[start + 2].1,
                },
            ));
            *token_index += 1;
        }
        result
    }

    /// A predicate is one comparison.
    fn parse_predicate(&mut self, token_index: &mut usize) -> (r: Result<(), DbError>)
        requires
            old(self).tokens.me@ == old(self).me@,
        ensures
            final(self).same_input(old(self)),
            step_ok(
                r,
                spec_parse_comparison(old(self).tv(), old(self).me@, old(self).state(*old(token_index) as int)),
                final(self).state(*final(token_index) as int),
            ),
    {
        let result = Ok(());
        self.parse_comparison(token_index)?;
        result
    }

    fn parse_select(&mut self, token_index: &mut usize) -> (r: Result<(), DbError>)
        requires
            old(self).tokens.me@ == old(self).me@,
        ensures
            final(self).same_input(old(self)),
            step_ok(
                r,
                spec_parse_select(
                    old(self).tv(),
                    old(self).kw(),
                    old(self).me@,
                    old(self).state(*old(token_index) as int),
                ),
                final(self).state(*final(token_index) as int),
            ),
    {
        let result = Ok(());
        self.parse_select_columns(token_index)?;
        let from_word = crate::text::from_literal("from");
        self.parse_word(token_index, &from_word)?;
        self.parse_table_name(token_index)?;
        let where_word = crate::text::from_literal("where");
        self.parse_word(token_index, &where_word)?;
        self.parse_predicate(token_index)?;
        result
    }

    /// Records the words of all keywords.
    fn init_keyword_strings(&mut self) -> (r: Result<(), DbError>)
        ensures
            r is Ok,
            final(self).kw() == old(self).kw() + keyword_strings(),
            final(self).tokens == old(self).tokens,
            final(self).me == old(self).me,
            final(self).state(0) == old(self).state(0),
    {
        let all = Keyword::iter();
        let mut i: usize = 0;
        let ghost k0 = self.kw();
        let ghost s0 = *self;
        while i < all.len()
            invariant
                all@ == crate::keyword::keyword_list(),
                i <= all@.len(),
                self.kw() == k0 + keyword_strings().take(i as int),
                self.tokens == s0.tokens,
                self.me == s0.me,
                self.state(0) == s0.state(0),
            decreases all@.len() - i,
        {
            let variant = all[i];
            let ghost before = self.kw();
            self.keywords.push(from_literal(variant.word()));
            assert(self.kw() =~= before.push(keyword_strings()[i as int]));
            assert(keyword_strings().take(i + 1) =~= keyword_strings().take(i as int).push(
                keyword_strings()[i as int],
            ));
            i += 1;
        }
        assert(keyword_strings().take(all@.len() as int) =~= keyword_strings());
        Ok(())
    }

    /// Fails unless every token was read.
    fn expect_end(&self, index: usize) -> (r: Result<(), DbError>)
        ensures
            crate::error::result_view(r) == if index == self.tv().len() {
                Ok(())
            } else {
                Err(DbErrorView::TrailingTokens { me: self.me@ })
            },
    {
        let mut res = Ok(());
        if index != self.tokens.token_list.len() {
            res = Err(DbError::TrailingTokens { me: self.me.clone() });
        }
        res
    }

    /// Parses a statement, read in ASCII lower case, on the replica `me`.
    pub fn parse(statement_str: &String, me: &String) -> (r: Result<Statement, DbError>)
        ensures
            r matches Ok(st) ==> spec_parse(statement_str@, me@) == Ok::<ParseState, DbErrorView>(
                st.state(st.tv().len() as int),
            ),
            r matches Ok(st) ==> st.me@ == me@ && st.tokens.me@ == me@ && st.kw() == keyword_strings() && st.tokens.stream@
                == statement_bytes(statement_str@) && st.tv() == spec_tokenize(st.tokens.stream@),
            r matches Err(e) ==> spec_parse(statement_str@, me@) == Err::<ParseState, DbErrorView>(e@),
    {
        let lowered = ascii_lowercase(statement_str.as_str());
        let tokens = Tokens::tokenize(&lowered, me)?;
        let mut statement = Statement {
            statement_t: StatementT::Error,
            columns: Vec::new(),
            table_name: String::new(),
            predicate: Predicate { comparisons: Vec::new() },
            me: me.clone(),
            tokens,
            keywords: Vec::new(),
        };
        assert(view_strings(statement.columns@) =~= Seq::<Seq<char>>::empty());
        assert(statement.predicate.comparisons@.map_values(|c: Comparison| c@) =~= Seq::<ComparisonView>::empty());
        assert(statement.state(0) == initial_state());
        statement.init_keyword_strings()?;
        assert(statement.kw() =~= keyword_strings());
        let mut token_index: usize = 0;
        statement.parse_type(&mut token_index)?;
        if statement.statement_t == StatementT::Insert {
            statement.parse_insert(&mut token_index)?;
        } else if statement.statement_t == StatementT::Select {
            statement.parse_select(&mut token_index)?;
        } else if statement.statement_t == StatementT::Update {
            statement.parse_update(&mut token_index)?;
        }
        statement.expect_end(token_index)?;
        Ok(statement)
    }
}

} // verus!
