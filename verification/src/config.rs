//! The configuration handshake: a client splits its servers into shards of
//! replicas and tells each server its pool, its number and its peers; a
//! replica reads that message and checks it.

use vstd::prelude::*;
use vstd::string::*;
use crate::error::{DbError, DbErrorView, result_view};
use crate::get_res;
use crate::get_res_mut;
use crate::text::{
    decimal_string, digits_value, from_literal, is_number_word, parse_usize, spec_decimal, spec_parse_usize, spec_words,
    split_words, view_strings,
};

verus! {

/// The configuration of a replica.
#[derive(Debug)]
pub struct ServerConfig {
    pub pool_id: usize,
    pub peers: Vec<String>,
    pub global_id: usize,
    pub me: String,
}

/// A replica needs an odd number of peers, at least three; of several
/// faults the last one checked is reported.
pub open spec fn spec_validate_peers(peer_count: nat) -> Result<(), DbErrorView> {
    if peer_count % 2 == 0 {
        Err(DbErrorView::EvenPeerCount)
    } else if peer_count < 2 {
        Err(DbErrorView::SingleReplica)
    } else {
        Ok(())
    }
}

/// The number in word `i` of `words`.
pub open spec fn spec_extract_usize(words: Seq<Seq<char>>, i: int) -> Result<usize, DbErrorView> {
    if 0 <= i < words.len() {
        match spec_parse_usize(words[i]) {
            Ok(n) => Ok(n),
            Err(m) => Err(DbErrorView::InvalidNumber { reason: m }),
        }
    } else {
        Err(DbErrorView::IndexOutOfBounds)
    }
}

/// The name of the replica with global number `id`.
pub open spec fn spec_replica_name(id: nat) -> Seq<char> {
    seq!['S'] + spec_decimal(id)
}

/// How reading the configuration message `payload` comes out.
pub open spec fn spec_server_init(payload: Seq<char>) -> Result<(), DbErrorView> {
    let w = spec_words(payload);
    match spec_extract_usize(w, 0) {
        Err(e) => Err(e),
        Ok(_) => match spec_extract_usize(w, 1) {
            Err(e) => Err(e),
            Ok(_) => spec_validate_peers((w.len() - 2) as nat),
        },
    }
}

/// What reading the configuration message `payload` does to a
/// configuration: the pool, then the global number, the peers and the name
/// are set as far as the words could be read.
pub open spec fn spec_init_effect(before: ServerConfig, after: ServerConfig, payload: Seq<char>) -> bool {
    let w = spec_words(payload);
    &&& spec_extract_usize(w, 0) is Err ==> after == before
    &&& spec_extract_usize(w, 0) matches Ok(p) ==> after.pool_id == p
    &&& spec_extract_usize(w, 0) is Ok && spec_extract_usize(w, 1) is Err ==> {
        &&& after.global_id == before.global_id
        &&& after.peers == before.peers
        &&& after.me == before.me
    }
    &&& spec_extract_usize(w, 0) is Ok ==> (spec_extract_usize(w, 1) matches Ok(g) ==> {
        &&& after.global_id == g
        &&& view_strings(after.peers@) == w.skip(2)
        &&& after.me@ == spec_replica_name(g as nat)
    })
}

impl ServerConfig {
    /// A configuration with no pool, number, peers or name yet.
    pub fn new() -> (r: ServerConfig)
        ensures
            r.pool_id == 0,
            r.global_id == 0,
            r.peers@.len() == 0,
            r.me@.len() == 0,
    {
        ServerConfig { pool_id: 0, peers: Vec::new(), global_id: 0, me: String::new() }
    }

    /// Checks the number of peers.
    pub fn validate(&self) -> (r: Result<(), DbError>)
        ensures
            result_view(r) == spec_validate_peers(self.peers@.len()),
    {
        let mut res = Ok(());
        let peer_count = self.peers.len();
        if peer_count < 1 {
            res = Err(DbError::MissingPeers);
        }
        if peer_count < 2 {
            res = Err(DbError::SingleReplica);
        }
        if peer_count % 2 == 0 {
            res = Err(DbError::EvenPeerCount);
        }
        res
    }

    /// The number in word `index` of `words`.
    pub fn extract_usize(words: &Vec<String>, index: usize) -> (r: Result<usize, DbError>)
        ensures
            result_view(r) == spec_extract_usize(view_strings(words@), index as int),
            index < words@.len() && is_number_word(words@[index as int]@) ==> result_view(r) == Ok::<
                usize,
                DbErrorView,
            >(digits_value(words@[index as int]@) as usize),
    {
        let word = get_res(words.as_slice(), index)?;
        match parse_usize(word.as_str()) {
            Ok(n) => Ok(n),
            Err(reason) => Err(DbError::InvalidNumber { reason }),
        }
    }

    /// Reads the configuration message `payload`: the pool, the global
    /// number, then the peers, separated by whitespace. The replica is named
    /// `S` and its number. The fields are set as far as the words could be
    /// read, and then the number of peers is checked.
    pub fn init(&mut self, payload: &String) -> (r: Result<(), DbError>)
        ensures
            result_view(r) == spec_server_init(payload@),
            spec_init_effect(*old(self), *final(self), payload@),
            ({
                let w = spec_words(payload@);
                &&& w.len() > 0 && is_number_word(w[0]) ==> spec_extract_usize(w, 0) == Ok::<
                    usize,
                    DbErrorView,
                >(digits_value(w[0]) as usize)
                &&& w.len() > 1 && is_number_word(w[0]) && is_number_word(w[1])
                    ==> spec_extract_usize(w, 1) == Ok::<usize, DbErrorView>(
                    digits_value(w[1]) as usize,
                )
            }),
    {
        let splitted = split_words(payload.as_str());
        let ghost w = view_strings(splitted@);
        proof {
            assert(w == spec_words(payload@));
        }
        self.pool_id = ServerConfig::extract_usize(&splitted, 0)?;
        self.global_id = ServerConfig::extract_usize(&splitted, 1)?;
        let mut peers: Vec<String> = Vec::new();
        let mut i: usize = 2;
        while i < splitted.len()
            invariant
                2 <= i <= splitted@.len(),
                w == view_strings(splitted@),
                view_strings(peers@) == w.subrange(2, i as int),
            decreases splitted@.len() - i,
        {
            let ghost before = view_strings(peers@);
            peers.push(splitted[i].clone());
            assert(view_strings(peers@) =~= before.push(w[i as int]));
            assert(w.subrange(2, i + 1) =~= w.subrange(2, i as int).push(w[i as int]));
            i += 1;
        }
        assert(w.subrange(2, w.len() as int) =~= w.skip(2));
        self.peers = peers;
        let mut me = from_literal("S");
        proof {
            reveal_strlit("S");
        }
        let number = decimal_string(self.global_id);
        me.append(number.as_str());
        self.me = me;
        assert(self.me@ =~= spec_replica_name(self.global_id as nat));
        assert(view_strings(self.peers@) == w.skip(2));
        assert(spec_extract_usize(w, 0) == Ok::<usize, DbErrorView>(self.pool_id));
        assert(spec_extract_usize(w, 1) == Ok::<usize, DbErrorView>(self.global_id));
        assert(spec_init_effect(*old(self), *self, payload@));
        self.validate()?;
        Ok(())
    }
}

/// The pool of server `i` when each pool has `replicas` servers; with none,
/// every server is in pool one.
pub open spec fn spec_pool_of(i: int, replicas: int) -> int {
    if replicas == 0 {
        1
    } else {
        i / replicas
    }
}

/// `n` servers split into `shard_count` shards: the shards have the same
/// number of replicas, odd and at least three.
pub open spec fn spec_client_conf_valid(n: int, shard_count: int) -> bool {
    &&& n % shard_count == 0
    &&& n / shard_count > 1
    &&& (n / shard_count) % 2 == 1
}

/// The addresses, each followed by a space, of the first `k` servers that
/// are in pool `p`.
pub open spec fn spec_pool_string(addresses: Seq<Seq<char>>, pools: Seq<usize>, p: int, k: int) -> Seq<char>
    decreases k,
{
    if k <= 0 {
        seq![]
    } else {
        spec_pool_string(addresses, pools, p, k - 1) + if pools[k - 1] == p {
            addresses[k - 1] + seq![' ']
        } else {
            seq![]
        }
    }
}

/// The addresses of the first `k` servers that are in pool `p`, in order.
pub open spec fn spec_pool_members(addresses: Seq<Seq<char>>, pools: Seq<usize>, p: int, k: int) -> Seq<
    Seq<char>,
>
    decreases k,
{
    if k <= 0 {
        seq![]
    } else {
        spec_pool_members(addresses, pools, p, k - 1) + if pools[k - 1] == p {
            seq![addresses[k - 1]]
        } else {
            seq![]
        }
    }
}

/// Every one of the `n` servers has a pool below `shard_count`.
pub open spec fn spec_pools_in_range(pools: Seq<usize>, n: int, shard_count: int) -> bool {
    forall|i: int| #![trigger pools[i]] 0 <= i < n ==> i < pools.len() && pools[i] < shard_count
}

proof fn lemma_pool_in_range(pools: Seq<usize>, n: int, shard_count: int, i: int)
    requires
        spec_pools_in_range(pools, n, shard_count),
        0 <= i < n,
    ensures
        i < pools.len(),
        pools[i] < shard_count,
{
    assert(pools[i] < shard_count);
}

/// The message that tells a server its pool, its global number and its peers.
pub open spec fn spec_config_message(pool: nat, global_id: nat, peers: Seq<char>) -> Seq<char> {
    spec_decimal(pool) + seq![' '] + spec_decimal(global_id) + seq![' '] + peers
}

/// The message that tells a server its pool, its global number and its peers.
pub fn config_message(pool: usize, global_id: usize, peers: &String) -> (r: String)
    ensures
        r@ == spec_config_message(pool as nat, global_id as nat, peers@),
{
    let mut r = decimal_string(pool);
    crate::text::push_char(&mut r, ' ');
    let id = decimal_string(global_id);
    r.append(id.as_str());
    crate::text::push_char(&mut r, ' ');
    r.append(peers.as_str());
    r
}

/// The configuration of a client: how many shards, the addresses of the
/// servers, and the pool of each server.
#[derive(Debug)]
pub struct ClientConfig {
    pub shard_count: usize,
    pub addresses: Vec<String>,
    pub pools: Vec<usize>,
}

impl ClientConfig {
    /// Checks that the servers split into shards of an odd number, at least
    /// three, of replicas.
    pub fn validate(&self) -> (r: Result<(), DbError>)
        requires
            self.shard_count > 0,
        ensures
            result_view(r) == if spec_client_conf_valid(self.addresses@.len() as int, self.shard_count as int) {
                Ok(())
            } else {
                Err(DbErrorView::InvalidClientConfig)
            },
    {
        let mut result = Ok(());
        let mut is_valid = true;
        let server_count = self.addresses.len();
        let replica_count = server_count / self.shard_count;
        if server_count % self.shard_count != 0 {
            is_valid = false;
        }
        if replica_count <= 1 || replica_count % 2 == 0 {
            is_valid = false;
        }
        if !is_valid {
            result = Err(DbError::InvalidClientConfig);
        }
        result
    }

    /// The pool of each server: consecutive runs of `addresses.len() /
    /// shard_count` servers share a pool.
    pub fn init_pools(shard_count: usize, addresses: &Vec<String>) -> (r: Vec<usize>)
        requires
            shard_count > 0,
        ensures
            r@.len() == addresses@.len(),
            forall|i: int|
                0 <= i < r@.len() ==> #[trigger] r@[i] == spec_pool_of(
                    i,
                    (addresses@.len() / shard_count as nat) as int,
                ),
    {
        let mut current_pool: usize = 0;
        let mut j: usize = 0;
        let server_count = addresses.len();
        let replica_count = server_count / shard_count;
        let mut pools: Vec<usize> = Vec::new();
        let mut k: usize = 0;
        while k < server_count
            invariant
                server_count == addresses@.len(),
                replica_count == server_count / shard_count,
                shard_count > 0,
                k <= server_count,
                pools@.len() == k,
                j <= k,
                replica_count > 0 ==> j <= replica_count,
                replica_count > 0 ==> current_pool * replica_count + j == k,
                replica_count > 0 ==> (j == 0 <==> k == 0),
                replica_count == 0 ==> j == k,
                replica_count == 0 ==> current_pool == (if k == 0 { 0usize } else { 1usize }),
                forall|i: int| 0 <= i < k ==> #[trigger] pools@[i] == spec_pool_of(i, replica_count as int),
            decreases server_count - k,
        {
            if j == replica_count {
                proof {
                    if replica_count > 0 {
                        assert((current_pool + 1) * replica_count == current_pool * replica_count
                            + replica_count) by (nonlinear_arith);
                        assert(current_pool <= current_pool * replica_count) by (nonlinear_arith)
                            requires
                                replica_count >= 1,
                        ;
                    }
                }
                current_pool += 1;
                j = 0;
            }
            proof {
                if replica_count > 0 {
                    assert(current_pool * replica_count + j == k);
                    assert(j < replica_count);
                    vstd::arithmetic::div_mod::lemma_fundamental_div_mod_converse(
                        k as int,
                        replica_count as int,
                        current_pool as int,
                        j as int,
                    );
                }
            }
            pools.push(current_pool);
            j += 1;
            k += 1;
        }
        pools
    }

    /// The peer list of each pool: the addresses of its servers, each
    /// followed by a space. Fails when a server has no pool in range.
    pub fn merge_by_pools(&self) -> (r: Result<Vec<String>, DbError>)
        ensures
            spec_pools_in_range(self.pools@, self.addresses@.len() as int, self.shard_count as int)
                ==> (r matches Ok(v) && v@.len() == self.shard_count && forall|p: int|
                0 <= p < self.shard_count ==> #[trigger] v@[p]@ == spec_pool_string(
                    view_strings(self.addresses@),
                    self.pools@,
                    p,
                    self.addresses@.len() as int,
                )),
            !spec_pools_in_range(self.pools@, self.addresses@.len() as int, self.shard_count as int)
                ==> (r matches Err(e) && e@ == DbErrorView::IndexOutOfBounds),
    {
        let ghost a = view_strings(self.addresses@);
        let mut pool_addresses: Vec<String> = Vec::new();
        let mut k: usize = 0;
        while k < self.shard_count
            invariant
                k <= self.shard_count,
                pool_addresses@.len() == k,
                forall|p: int| 0 <= p < k ==> #[trigger] pool_addresses@[p]@ == Seq::<char>::empty(),
            decreases self.shard_count - k,
        {
            pool_addresses.push(from_literal(""));
            proof {
                reveal_strlit("");
            }
            k += 1;
        }
        let mut i: usize = 0;
        while i < self.addresses.len()
            invariant
                a == view_strings(self.addresses@),
                i <= self.addresses@.len(),
                pool_addresses@.len() == self.shard_count,
                spec_pools_in_range(self.pools@, i as int, self.shard_count as int),
                forall|p: int|
                    0 <= p < self.shard_count ==> #[trigger] pool_addresses@[p]@ == spec_pool_string(
                        a,
                        self.pools@,
                        p,
                        i as int,
                    ),
            decreases self.addresses@.len() - i,
        {
            proof {
                if spec_pools_in_range(self.pools@, self.addresses@.len() as int, self.shard_count as int) {
                    lemma_pool_in_range(self.pools@, self.addresses@.len() as int, self.shard_count as int, i as int);
                }
            }
            let pool = *get_res(self.pools.as_slice(), i)?;
            let ghost before = pool_addresses@;
            let target = get_res_mut(pool_addresses.as_mut_slice(), pool)?;
            let mut entry = get_res(self.addresses.as_slice(), i)?.clone();
            crate::text::push_char(&mut entry, ' ');
            target.append(entry.as_str());
            assert forall|p: int| 0 <= p < self.shard_count implies #[trigger] pool_addresses@[p]@
                == spec_pool_string(a, self.pools@, p, i + 1) by {
                if p != pool {
                    assert(pool_addresses@[p] == before[p]);
                }
            }
            i += 1;
        }
        Ok(pool_addresses)
    }

    /// What is sent to each server, in order: its address and the message
    /// with its pool, its number and the peer list of its pool. Fails, before
    /// anything is sent, when a server has no pool in range.
    pub fn config_messages(&self) -> (r: Result<Vec<(String, String)>, DbError>)
        ensures
            !spec_pools_in_range(self.pools@, self.addresses@.len() as int, self.shard_count as int)
                ==> (r matches Err(e) && e@ == DbErrorView::IndexOutOfBounds),
            spec_pools_in_range(self.pools@, self.addresses@.len() as int, self.shard_count as int)
                ==> (r matches Ok(v) && v@.len() == self.addresses@.len() && forall|i: int|
                0 <= i < v@.len() ==> (#[trigger] v@[i]).0@ == self.addresses@[i]@ && v@[i].1@
                    == spec_config_message(
                    self.pools@[i] as nat,
                    i as nat,
                    spec_pool_string(
                        view_strings(self.addresses@),
                        self.pools@,
                        self.pools@[i] as int,
                        self.addresses@.len() as int,
                    ),
                )),
    {
        let pool_addresses = self.merge_by_pools()?;
        let mut out: Vec<(String, String)> = Vec::new();
        let n = self.addresses.len();
        let mut i: usize = 0;
        while i < n
            invariant
                n == self.addresses@.len(),
                i <= n,
                spec_pools_in_range(self.pools@, n as int, self.shard_count as int),
                pool_addresses@.len() == self.shard_count,
                forall|p: int|
                    0 <= p < self.shard_count ==> #[trigger] pool_addresses@[p]@ == spec_pool_string(
                        view_strings(self.addresses@),
                        self.pools@,
                        p,
                        n as int,
                    ),
                out@.len() == i,
                forall|k: int|
                    0 <= k < i ==> (#[trigger] out@[k]).0@ == self.addresses@[k]@ && out@[k].1@
                        == spec_config_message(
                        self.pools@[k] as nat,
                        k as nat,
                        spec_pool_string(
                            view_strings(self.addresses@),
                            self.pools@,
                            self.pools@[k] as int,
                            n as int,
                        ),
                    ),
            decreases n - i,
        {
            proof {
                lemma_pool_in_range(self.pools@, n as int, self.shard_count as int, i as int);
            }
            let address = get_res(self.addresses.as_slice(), i)?;
            let pool = get_res(self.pools.as_slice(), i)?;
            let peers = get_res(pool_addresses.as_slice(), *pool)?;
            let message = config_message(*pool, i, peers);
            out.push((address.clone(), message));
            i += 1;
        }
        Ok(out)
    }
}

} // verus!
