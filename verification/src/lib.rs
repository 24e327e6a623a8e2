//! A small sharded SQL front end: a tokenizer and statement parser for a
//! subset of SQL, the configuration handshake between a client and the
//! replicas of its shards, and the request handling of a replica.

use vstd::prelude::*;

pub mod config;
pub mod error;
pub mod keyword;
pub mod laws;
pub mod server;
pub mod statement;
pub mod text;
pub mod tokens;

pub use crate::config::{ClientConfig, ServerConfig};
pub use crate::error::DbError;
pub use crate::server::{Client, Database, Row, Server, Table};
pub use crate::statement::{Statement, StatementT};
pub use crate::tokens::{Token, TokenT, Tokens};

verus! {

/// The element at `index`, or `IndexOutOfBounds`.
pub fn get_res<T>(iterable: &[T], index: usize) -> (res: Result<&T, DbError>)
    ensures
        index < iterable@.len() ==> (res matches Ok(r) && *r == iterable@[index as int]),
        index >= iterable@.len() ==> (res matches Err(e) && e is IndexOutOfBounds),
{
    if index < iterable.len() {
        Ok(&iterable[index])
    } else {
        Err(DbError::IndexOutOfBounds)
    }
}

/// The element at `index`, for writing, or `IndexOutOfBounds`.
pub fn get_res_mut<T>(iterable: &mut [T], index: usize) -> (res: Result<&mut T, DbError>)
    ensures
        index < old(iterable)@.len() ==> (res matches Ok(r) && *r == old(iterable)@[index as int]
            && final(iterable)@ == old(iterable)@.update(index as int, *final(r))),
        index >= old(iterable)@.len() ==> (res matches Err(e) && e is IndexOutOfBounds
            && final(iterable)@ == old(iterable)@),
{
    if index < iterable.len() {
        Ok(&mut iterable[index])
    } else {
        Err(DbError::IndexOutOfBounds)
    }
}

} // verus!
