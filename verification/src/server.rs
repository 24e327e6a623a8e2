//! A replica's database and request handling, and the client side.

use vstd::prelude::*;
use crate::config::{ClientConfig, ServerConfig, spec_init_effect, spec_server_init, spec_client_conf_valid, spec_pool_of, spec_pools_in_range, spec_pool_string, spec_config_message};
use crate::error::{DbError, DbErrorView, error_message, result_view};
use crate::statement::{Statement, spec_parse};
use crate::text::view_strings;

verus! {

/// A row of a result table.
#[derive(Debug)]
pub struct Row {}

/// A result table.
#[derive(Debug)]
pub struct Table {
    pub rows: Vec<Row>,
}

impl Table {
    /// Printing a table shows nothing.
    pub fn print(&self) {
    }
}

/// The database of one replica.
#[derive(Debug)]
pub struct Database {
    pub me: String,
}

/// What a replica answers to a statement: an empty text when it parses,
/// else the parse error.
pub open spec fn spec_run_statement(text: Seq<char>, me: Seq<char>) -> Result<Seq<char>, DbErrorView> {
    match spec_parse(text, me) {
        Ok(_) => Ok(seq![]),
        Err(e) => Err(e),
    }
}

impl Database {
    /// Names the database after its replica.
    pub fn init(&mut self, me: &String) -> (r: Result<(), DbError>)
        ensures
            r is Ok,
            final(self).me@ == me@,
    {
        self.me = me.clone();
        Ok(())
    }

    /// Parses a statement; nothing is executed, and a statement that parses
    /// is answered with an empty text.
    pub fn run_statement(&mut self, statement_str: &String) -> (r: Result<String, DbError>)
        ensures
            final(self).me == old(self).me,
            r matches Ok(v) ==> spec_run_statement(statement_str@, old(self).me@) == Ok::<
                Seq<char>,
                DbErrorView,
            >(v@),
            r matches Err(e) ==> spec_run_statement(statement_str@, old(self).me@) == Err::<
                Seq<char>,
                DbErrorView,
            >(e@),
    {
        let mut result = Ok(String::new());
        let parse_res = Statement::parse(statement_str, &self.me);
        match parse_res {
            Ok(_v) => {
                let _resp = String::new();
            },
            Err(e) => {
                result = Err(e);
            },
        }
        result
    }
}

/// A replica: its configuration and its database.
#[derive(Debug)]
pub struct Server {
    pub conf: ServerConfig,
    pub database: Database,
}

impl Server {
    /// A replica not configured yet.
    pub fn new() -> (r: Server)
        ensures
            r.conf.pool_id == 0,
            r.conf.global_id == 0,
            r.conf.peers@.len() == 0,
            r.conf.me@.len() == 0,
            r.database.me@.len() == 0,
    {
        Server { conf: ServerConfig::new(), database: Database { me: String::new() } }
    }

    /// Reads the configuration message `payload` and names the database
    /// after the replica.
    pub fn init(&mut self, payload: &String) -> (r: Result<(), DbError>)
        ensures
            result_view(r) == spec_server_init(payload@),
            spec_init_effect(old(self).conf, final(self).conf, payload@),
            r is Ok ==> final(self).database.me@ == final(self).conf.me@,
            r is Err ==> final(self).database == old(self).database,
    {
        self.conf.init(payload)?;
        self.database.init(&self.conf.me)?;
        Ok(())
    }

    /// Runs a statement on the database.
    pub fn apply(&mut self, statement_str: &String) -> (r: Result<String, DbError>)
        ensures
            final(self).database.me == old(self).database.me,
            final(self).conf == old(self).conf,
            r matches Ok(v) ==> spec_run_statement(statement_str@, old(self).database.me@) == Ok::<
                Seq<char>,
                DbErrorView,
            >(v@),
            r matches Err(e) ==> spec_run_statement(statement_str@, old(self).database.me@) == Err::<
                Seq<char>,
                DbErrorView,
            >(e@),
    {
        let mut result = Ok(String::new());
        let statement_result = self.database.run_statement(statement_str);
        match statement_result {
            Ok(v) => {
                result = Ok(v);
            },
            Err(e) => {
                result = Err(e);
            },
        }
        result
    }

    /// The text a replica sends back for a statement: the answer, or the
    /// text of the error.
    pub fn respond(&mut self, statement_str: &String) -> (r: String)
        ensures
            final(self).database.me == old(self).database.me,
            final(self).conf == old(self).conf,
            r@ == match spec_run_statement(statement_str@, old(self).database.me@) {
                Ok(v) => v,
                Err(e) => error_message(e),
            },
    {
        let apply_result = self.apply(statement_str);
        match apply_result {
            Ok(v) => v,
            Err(e) => e.message(),
        }
    }
}

/// A client of a sharded database.
#[derive(Debug)]
pub struct Client {
    pub conf: ClientConfig,
}

impl Client {
    /// Runs a statement; the answer is always an empty table.
    pub fn run_statement(&self, statement: &String) -> (r: Result<Table, DbError>)
        ensures
            r matches Ok(t) && t.rows@.len() == 0,
    {
        Ok(Table { rows: Vec::new() })
    }

    /// Splits the servers at `addresses` into `shard_count` shards and
    /// checks the split.
    pub fn configure(shard_count: usize, addresses: &Vec<String>) -> (r: Result<Client, DbError>)
        requires
            shard_count > 0,
        ensures
            r is Ok <==> spec_client_conf_valid(addresses@.len() as int, shard_count as int),
            r matches Err(e) ==> e@ == DbErrorView::InvalidClientConfig,
            r matches Ok(c) ==> {
                &&& c.conf.shard_count == shard_count
                &&& view_strings(c.conf.addresses@) == view_strings(addresses@)
                &&& c.conf.pools@.len() == addresses@.len()
                &&& forall|i: int|
                    0 <= i < addresses@.len() ==> #[trigger] c.conf.pools@[i] == spec_pool_of(
                        i,
                        (addresses@.len() / shard_count as nat) as int,
                    )
            },
    {
        let mut copy: Vec<String> = Vec::new();
        let mut i: usize = 0;
        while i < addresses.len()
            invariant
                i <= addresses@.len(),
                view_strings(copy@) == view_strings(addresses@).take(i as int),
            decreases addresses@.len() - i,
        {
            let ghost before = view_strings(copy@);
            copy.push(addresses[i].clone());
            assert(view_strings(copy@) =~= before.push(addresses@[i as int]@));
            assert(view_strings(addresses@).take(i + 1) =~= view_strings(addresses@).take(i as int).push(
                addresses@[i as int]@,
            ));
            i += 1;
        }
        assert(view_strings(addresses@).take(addresses@.len() as int) =~= view_strings(addresses@));
        let conf = ClientConfig {
            shard_count,
            addresses: copy,
            pools: ClientConfig::init_pools(shard_count, addresses),
        };
        conf.validate()?;
        Ok(Client { conf })
    }

    /// What is sent to each server: its address and its configuration message.
    pub fn config_messages(&self) -> (r: Result<Vec<(String, String)>, DbError>)
        ensures
            !spec_pools_in_range(self.conf.pools@, self.conf.addresses@.len() as int, self.conf.shard_count as int)
                ==> (r matches Err(e) && e@ == DbErrorView::IndexOutOfBounds),
            spec_pools_in_range(self.conf.pools@, self.conf.addresses@.len() as int, self.conf.shard_count as int)
                ==> (r matches Ok(v) && v@.len() == self.conf.addresses@.len() && forall|i: int|
                0 <= i < v@.len() ==> (#[trigger] v@[i]).0@ == self.conf.addresses@[i]@ && v@[i].1@
                    == spec_config_message(
                    self.conf.pools@[i] as nat,
                    i as nat,
                    spec_pool_string(
                        view_strings(self.conf.addresses@),
                        self.conf.pools@,
                        self.conf.pools@[i] as int,
                        self.conf.addresses@.len() as int,
                    ),
                )),
    {
        self.conf.config_messages()
    }
}

} // verus!
