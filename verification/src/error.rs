//! The errors of the crate, and the text each one is reported with.

use vstd::prelude::*;
use vstd::string::*;
use crate::tokens::TokenT;
use crate::text::{
    from_literal, json_pretty_strings, json_string, spec_json_pretty_strings, spec_json_string,
    view_strings,
};

verus! {

/// What went wrong. The variants that name a replica carry its name in `me`.
#[derive(Debug)]
pub enum DbError {
    /// An index past the end of a list.
    IndexOutOfBounds,
    /// A replica was configured without peers.
    MissingPeers,
    /// A replica was configured with a single peer.
    SingleReplica,
    /// A replica was configured with an even number of peers.
    EvenPeerCount,
    /// A word of a replica's configuration is not a number; `reason` is the
    /// text of the parse error.
    InvalidNumber { reason: String },
    /// A token holds another text than the one the grammar expects.
    UnexpectedValue { me: String, expected: String, found: String },
    /// A keyword was expected after a table name.
    ExpectedKeyword { me: String, found: String },
    /// A token is of another kind than the ones the grammar allows there.
    UnexpectedTokenType { me: String, expected: Vec<TokenT>, found: TokenT },
    /// A statement does not start with `insert into`, `select` or `update`.
    UnknownStatement { me: String, found: String },
    /// Tokens are left over after a statement.
    TrailingTokens { me: String },
    /// The servers cannot be split into shards of an odd number (at least
    /// three) of replicas each.
    InvalidClientConfig,
}

/// The mathematical value of a `DbError`.
pub enum DbErrorView {
    IndexOutOfBounds,
    MissingPeers,
    SingleReplica,
    EvenPeerCount,
    InvalidNumber { reason: Seq<char> },
    UnexpectedValue { me: Seq<char>, expected: Seq<char>, found: Seq<char> },
    ExpectedKeyword { me: Seq<char>, found: Seq<char> },
    UnexpectedTokenType { me: Seq<char>, expected: Seq<TokenT>, found: TokenT },
    UnknownStatement { me: Seq<char>, found: Seq<char> },
    TrailingTokens { me: Seq<char> },
    InvalidClientConfig,
}

impl View for DbError {
    type V = DbErrorView;

    open spec fn view(&self) -> DbErrorView {
        match self {
            DbError::IndexOutOfBounds => DbErrorView::IndexOutOfBounds,
            DbError::MissingPeers => DbErrorView::MissingPeers,
            DbError::SingleReplica => DbErrorView::SingleReplica,
            DbError::EvenPeerCount => DbErrorView::EvenPeerCount,
            DbError::InvalidNumber { reason } => DbErrorView::InvalidNumber { reason: reason@ },
            DbError::UnexpectedValue { me, expected, found } => DbErrorView::UnexpectedValue {
                me: me@,
                expected: expected@,
                found: found@,
            },
            DbError::ExpectedKeyword { me, found } => DbErrorView::ExpectedKeyword {
                me: me@,
                found: found@,
            },
            DbError::UnexpectedTokenType { me, expected, found } =>
                DbErrorView::UnexpectedTokenType { me: me@, expected: expected@, found: *found },
            DbError::UnknownStatement { me, found } => DbErrorView::UnknownStatement {
                me: me@,
                found: found@,
            },
            DbError::TrailingTokens { me } => DbErrorView::TrailingTokens { me: me@ },
            DbError::InvalidClientConfig => DbErrorView::InvalidClientConfig,
        }
    }
}

/// A `Result` with its error taken by its view.
pub open spec fn result_view<T>(r: Result<T, DbError>) -> Result<T, DbErrorView> {
    match r {
        Ok(v) => Ok(v),
        Err(e) => Err(e@),
    }
}

/// The name of a token kind, as its variant is written.
pub open spec fn token_t_name(t: TokenT) -> Seq<char> {
    match t {
        TokenT::Eq => "Eq"@,
        TokenT::NotEq => "NotEq"@,
        TokenT::Greater => "Greater"@,
        TokenT::Less => "Less"@,
        TokenT::GreaterEq => "GreaterEq"@,
        TokenT::LessEq => "LessEq"@,
        TokenT::Comma => "Comma"@,
        TokenT::Dot => "Dot"@,
        TokenT::Num => "Num"@,
        TokenT::Ident => "Ident"@,
        TokenT::Whitespace => "Whitespace"@,
        TokenT::Error => "Error"@,
    }
}

pub fn token_t_name_str(t: TokenT) -> (r: &'static str)
    ensures
        r@ == token_t_name(t),
{
    match t {
        TokenT::Eq => "Eq",
        TokenT::NotEq => "NotEq",
        TokenT::Greater => "Greater",
        TokenT::Less => "Less",
        TokenT::GreaterEq => "GreaterEq",
        TokenT::LessEq => "LessEq",
        TokenT::Comma => "Comma",
        TokenT::Dot => "Dot",
        TokenT::Num => "Num",
        TokenT::Ident => "Ident",
        TokenT::Whitespace => "Whitespace",
        TokenT::Error => "Error",
    }
}

/// The names of token kinds, in order.
pub open spec fn token_t_names(ts: Seq<TokenT>) -> Seq<Seq<char>> {
    ts.map_values(|t: TokenT| token_t_name(t))
}

/// The text an error is reported with.
pub open spec fn error_message(e: DbErrorView) -> Seq<char> {
    match e {
        DbErrorView::IndexOutOfBounds => "index out of bounds"@,
        DbErrorView::MissingPeers => "dianadb::ServerConfig::validate: peer addresses are missing"@,
        DbErrorView::SingleReplica => "dianadb::ServerConfig::validate: single replica not allowed"@,
        DbErrorView::EvenPeerCount => "dianadb::ServerConfig::validate: peer count must be odd"@,
        DbErrorView::InvalidNumber { reason } => reason,
        DbErrorView::UnexpectedValue { me, expected, found } => me
            + ": dianadb::Tokens::expect_val: expected "@ + expected + " as token value, found: "@
            + found,
        DbErrorView::ExpectedKeyword { me, found } => me
            + ": dianadb::Tokens::expect_keyword: expected keyword, found: "@ + found,
        DbErrorView::UnexpectedTokenType { me, expected, found } => me
            + ": dianadb::Tokens::expect_token_t: expected one of "@
            + spec_json_pretty_strings(token_t_names(expected)) + ", found: "@ + spec_json_string(
            token_t_name(found),
        ),
        DbErrorView::UnknownStatement { me, found } => me
            + ": dianadb::Statement::parse_type: did not expect "@ + found
            + " as statement type string"@,
        DbErrorView::TrailingTokens { me } => me
            + ": dianadb::Statement::expect_end: expected token index to be equal to length of tokens"@,
        DbErrorView::InvalidClientConfig => "dianadb::ClientConfig::validate: invalid conf"@,
    }
}

/// The names of token kinds, in order.
pub fn token_t_name_list(ts: &Vec<TokenT>) -> (r: Vec<String>)
    ensures
        view_strings(r@) == token_t_names(ts@),
{
    let mut r: Vec<String> = Vec::new();
    let mut i: usize = 0;
    while i < ts.len()
        invariant
            i <= ts@.len(),
            view_strings(r@) == token_t_names(ts@).take(i as int),
        decreases ts@.len() - i,
    {
        let ghost before = view_strings(r@);
        r.push(from_literal(token_t_name_str(ts[i])));
        assert(view_strings(r@) =~= before.push(token_t_name(ts@[i as int])));
        assert(token_t_names(ts@).take(i + 1) =~= token_t_names(ts@).take(i as int).push(
            token_t_name(ts@[i as int]),
        ));
        i += 1;
    }
    assert(token_t_names(ts@).take(ts@.len() as int) =~= token_t_names(ts@));
    r
}

impl DbError {
    /// The text this error is reported with.
    pub fn message(&self) -> (r: String)
        ensures
            r@ == error_message(self@),
    {
        let mut r = String::new();
        match self {
            DbError::IndexOutOfBounds => {
                r.append("index out of bounds");
            },
            DbError::MissingPeers => {
                r.append("dianadb::ServerConfig::validate: peer addresses are missing");
            },
            DbError::SingleReplica => {
                r.append("dianadb::ServerConfig::validate: single replica not allowed");
            },
            DbError::EvenPeerCount => {
                r.append("dianadb::ServerConfig::validate: peer count must be odd");
            },
            DbError::InvalidNumber { reason } => {
                r.append(reason.as_str());
            },
            DbError::UnexpectedValue { me, expected, found } => {
                r.append(me.as_str());
                r.append(": dianadb::Tokens::expect_val: expected ");
                r.append(expected.as_str());
                r.append(" as token value, found: ");
                r.append(found.as_str());
            },
            DbError::ExpectedKeyword { me, found } => {
                r.append(me.as_str());
                r.append(": dianadb::Tokens::expect_keyword: expected keyword, found: ");
                r.append(found.as_str());
            },
            DbError::UnexpectedTokenType { me, expected, found } => {
                r.append(me.as_str());
                r.append(": dianadb::Tokens::expect_token_t: expected one of ");
                let names = token_t_name_list(expected);
                let list = json_pretty_strings(&names);
                r.append(list.as_str());
                r.append(", found: ");
                let one = json_string(token_t_name_str(*found));
                r.append(one.as_str());
            },
            DbError::UnknownStatement { me, found } => {
                r.append(me.as_str());
                r.append(": dianadb::Statement::parse_type: did not expect ");
                r.append(found.as_str());
                r.append(" as statement type string");
            },
            DbError::TrailingTokens { me } => {
                r.append(me.as_str());
                r.append(
                    ": dianadb::Statement::expect_end: expected token index to be equal to length of tokens",
                );
            },
            DbError::InvalidClientConfig => {
                r.append("dianadb::ClientConfig::validate: invalid conf");
            },
        }
        r
    }
}

} // verus!
