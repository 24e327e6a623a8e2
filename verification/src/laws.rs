//! Properties of the library as a whole, each proved over the specifications
//! that the functions' contracts use.

use vstd::prelude::*;
use crate::config::{spec_client_conf_valid, spec_validate_peers, spec_pool_members, spec_config_message, spec_pool_of, spec_pool_string, spec_pools_in_range};
use crate::keyword::keyword_strings;
use crate::error::DbErrorView;
use crate::statement::{
    ComparisonView, ParseState, StatementT, TokenSeq, comparison_operators, done, spec_parse,
    spec_parse_comparison, spec_parse_select,
    spec_parse_type, spec_select_columns,
    statement_bytes, initial_state,
};
use vstd::utf8::encode_utf8;
use crate::tokens::{TokenT, spec_select, lemma_select_advances, lemma_num_end_bytes, lemma_num_end_dots, lemma_num_end_maximal, lemma_tokens_blank, lemma_tokens_from_well_formed, spec_tokenize, token_well_formed};
use crate::text::{spec_lowercase,
    digit_char, digits_value, ends_open, has_no_white_space, is_digit_char, is_digit_string,
    is_number_word, lemma_words_concat, lemma_words_of_word, spec_decimal, spec_is_white_space,
    spec_words,
};

verus! {

/// The decimal rendering of a number is a non-empty string of digits that
/// denotes that number.
pub proof fn lemma_decimal(n: nat)
    ensures
        spec_decimal(n).len() > 0,
        is_digit_string(spec_decimal(n)),
        has_no_white_space(spec_decimal(n)),
        digits_value(spec_decimal(n)) == n,
    decreases n,
{
    let d = spec_decimal(n);
    if n < 10 {
        assert(d.drop_last() =~= Seq::<char>::empty());
        assert(digit_char(n) as u32 == n + 48);
        assert(d.last() == digit_char(n));
        assert(digits_value(d) == digits_value(d.drop_last()) * 10 + ((d.last() as u32) - 48) as nat);
    } else {
        lemma_decimal(n / 10);
        let x = spec_decimal(n / 10);
        let c = digit_char(n % 10);
        assert(d.drop_last() =~= x);
        assert(c as u32 == (n % 10) + 48);
        assert(d.last() == c);
        assert(digits_value(d) == digits_value(x) * 10 + (n % 10));
        assert(n == (n / 10) * 10 + n % 10);
        assert(!spec_is_white_space(c));
        assert forall|k: int| 0 <= k < d.len() implies is_digit_char(#[trigger] d[k]) && !spec_is_white_space(d[k]) by {
            if k < x.len() {
                assert(d[k] == x[k]);
            }
        }
    }
}

/// The handshake round trip: the words of the message a client sends to a
/// server are the server's pool and global number, each a number word that
/// denotes exactly that value, followed by the words of the peer list.
pub proof fn law_config_message_roundtrip(pool: usize, global_id: usize, peers: Seq<char>)
    ensures
        ({
            let w = spec_words(spec_config_message(pool as nat, global_id as nat, peers));
            &&& w.len() >= 2
            &&& is_number_word(w[0])
            &&& digits_value(w[0]) == pool
            &&& is_number_word(w[1])
            &&& digits_value(w[1]) == global_id
            &&& w.skip(2) == spec_words(peers)
        }),
{
    let a = spec_decimal(pool as nat);
    let b = spec_decimal(global_id as nat);
    lemma_decimal(pool as nat);
    lemma_decimal(global_id as nat);
    let x1 = a + seq![' '];
    let x2 = b + seq![' '];
    assert(spec_is_white_space(' '));
    assert(spec_config_message(pool as nat, global_id as nat, peers) =~= x1 + (x2 + peers));
    lemma_words_of_word(a);
    lemma_words_of_word(b);
    lemma_words_concat(x1, x2 + peers);
    lemma_words_concat(x2, peers);
    let w = spec_words(spec_config_message(pool as nat, global_id as nat, peers));
    assert(w =~= seq![a, b] + spec_words(peers));
    assert(w.skip(2) =~= spec_words(peers));
}

/// When the split of `n` servers into `shard_count` shards is valid, the
/// pool of every server is a shard: the client can build every server's
/// configuration message.
pub proof fn law_valid_split_has_pools_in_range(pools: Seq<usize>, n: int, shard_count: int)
    requires
        shard_count > 0,
        n >= 0,
        spec_client_conf_valid(n, shard_count),
        pools.len() == n,
        forall|i: int| 0 <= i < n ==> #[trigger] pools[i] == spec_pool_of(i, n / shard_count),
    ensures
        spec_pools_in_range(pools, n, shard_count),
{
    let rc = n / shard_count;
    assert(n == shard_count * rc) by {
        vstd::arithmetic::div_mod::lemma_fundamental_div_mod(n, shard_count);
    }
    assert forall|i: int| #![trigger pools[i]] 0 <= i < n implies i < pools.len() && pools[i] < shard_count by {
        assert(i / rc < shard_count) by (nonlinear_arith)
            requires
                0 <= i < n,
                n == shard_count * rc,
                rc > 1,
        {
            if i / rc >= shard_count {
                assert(i >= rc * (i / rc)) by {
                    vstd::arithmetic::div_mod::lemma_fundamental_div_mod(i, rc);
                }
                assert(rc * (i / rc) >= rc * shard_count);
            }
        }
    }
}

proof fn lemma_pool_string_open(addresses: Seq<Seq<char>>, pools: Seq<usize>, p: int, k: int)
    ensures
        ends_open(spec_pool_string(addresses, pools, p, k)),
    decreases k,
{
    if k > 0 {
        lemma_pool_string_open(addresses, pools, p, k - 1);
        let prev = spec_pool_string(addresses, pools, p, k - 1);
        if pools[k - 1] == p {
            let piece = addresses[k - 1] + seq![' '];
            assert(spec_pool_string(addresses, pools, p, k) == prev + piece);
            assert((prev + piece).last() == ' ');
            assert(spec_is_white_space(' '));
        } else {
            assert(spec_pool_string(addresses, pools, p, k) =~= prev);
        }
    }
}

/// The peers a server reads from the peer list of its pool are the
/// addresses of the servers of that pool, in order, when no address is
/// empty or holds whitespace.
pub proof fn law_pool_peer_words(addresses: Seq<Seq<char>>, pools: Seq<usize>, p: int, n: int)
    requires
        0 <= n <= addresses.len(),
        n <= pools.len(),
        forall|i: int|
            0 <= i < n ==> (#[trigger] addresses[i]).len() > 0 && has_no_white_space(addresses[i]),
    ensures
        spec_words(spec_pool_string(addresses, pools, p, n)) == spec_pool_members(addresses, pools, p, n),
    decreases n,
{
    if n == 0 {
        assert(spec_words(Seq::<char>::empty()) =~= Seq::<Seq<char>>::empty());
    } else {
        law_pool_peer_words(addresses, pools, p, n - 1);
        lemma_pool_string_open(addresses, pools, p, n - 1);
        let prev = spec_pool_string(addresses, pools, p, n - 1);
        if pools[n - 1] == p {
            let piece = addresses[n - 1] + seq![' '];
            lemma_words_concat(prev, piece);
            lemma_words_of_word(addresses[n - 1]);
        } else {
            assert(spec_pool_string(addresses, pools, p, n) =~= prev);
            assert(spec_pool_members(addresses, pools, p, n) =~= spec_pool_members(addresses, pools, p, n - 1));
        }
    }
}

/// Every token the tokenizer gives is well formed: an identifier, a number,
/// `=`, `>`, `<`, `,` or `.`; in particular `>=`, `<=` and `<>` come out as
/// two tokens each, and whitespace and unknown bytes never come out.
pub proof fn law_tokens_well_formed(s: Seq<u8>)
    ensures
        forall|k: int| 0 <= k < spec_tokenize(s).len() ==> token_well_formed(#[trigger] spec_tokenize(s)[k]),
{
    lemma_tokens_from_well_formed(s, 0);
}

/// Parsing reads a statement in ASCII lower case: a statement and its
/// lower-case form parse alike.
pub proof fn law_parse_ignores_ascii_case(text: Seq<char>, me: Seq<char>)
    ensures
        spec_parse(text, me) == spec_parse(spec_lowercase(text), me),
{
    assert(spec_lowercase(spec_lowercase(text)) =~= spec_lowercase(text));
}

/// An `insert into` statement never parses: nothing after `insert` is
/// read, so tokens are always left over.
pub proof fn law_insert_never_parses(text: Seq<char>, me: Seq<char>)
    ensures
        !(spec_parse(text, me) matches Ok(st) && st.statement_t == StatementT::Insert),
{
    let tv = spec_tokenize(statement_bytes(text));
    let kw = keyword_strings();
    let s1 = spec_parse_type(tv, me, initial_state());
    if s1.error is None && s1.state.statement_t == StatementT::Select {
        lemma_select_keeps_kind(tv, kw, me, s1.state);
    }
}

proof fn lemma_select_keeps_kind(tv: TokenSeq, kw: Seq<Seq<char>>, me: Seq<char>, st: ParseState)
    ensures
        spec_parse_select(tv, kw, me, st).state.statement_t == st.statement_t,
{
    lemma_columns_keep_kind(tv, kw, me, st, true);
}

proof fn lemma_columns_keep_kind(tv: TokenSeq, kw: Seq<Seq<char>>, me: Seq<char>, st: ParseState, must: bool)
    ensures
        spec_select_columns(tv, kw, me, st, must).state.statement_t == st.statement_t,
    decreases tv.len() - st.idx,
{
    if 0 <= st.idx < tv.len() {
        let t = tv[st.idx];
        if !(t.0 == TokenT::Ident && kw.contains(t.1)) {
            if must {
                if t.0 == TokenT::Ident {
                    lemma_columns_keep_kind(
                        tv,
                        kw,
                        me,
                        ParseState { idx: st.idx + 1, columns: st.columns.push(t.1), ..st },
                        false,
                    );
                }
            } else if t.0 == TokenT::Comma {
                lemma_columns_keep_kind(tv, kw, me, ParseState { idx: st.idx + 1, ..st }, true);
            }
        }
    }
}

/// UTF-8 encoding of a concatenation is the concatenation of the encodings.
pub proof fn lemma_encode_utf8_concat(a: Seq<char>, b: Seq<char>)
    ensures
        encode_utf8(a + b) == encode_utf8(a) + encode_utf8(b),
    decreases a.len(),
{
    if a.len() == 0 {
        assert(a + b =~= b);
        assert(encode_utf8(a) + encode_utf8(b) =~= encode_utf8(b));
    } else {
        assert((a + b).drop_first() =~= a.drop_first() + b);
        assert((a + b)[0] == a[0]);
        lemma_encode_utf8_concat(a.drop_first(), b);
        assert(encode_utf8(a + b) =~= encode_utf8(a) + encode_utf8(b));
    }
}

/// A blank splits a statement's tokens: the tokens of `a`, a space and `b`
/// are the tokens of `a` followed by those of `b`.
pub proof fn law_blank_splits_tokens(a: Seq<char>, b: Seq<char>)
    ensures
        spec_tokenize(encode_utf8(a + seq![' '] + b)) == spec_tokenize(encode_utf8(a)) + spec_tokenize(
            encode_utf8(b),
        ),
{
    lemma_encode_utf8_concat(a + seq![' '], b);
    lemma_encode_utf8_concat(a, seq![' ']);
    let sp = seq![' '];
    assert(sp.drop_first() =~= Seq::<char>::empty());
    assert(encode_utf8(sp) =~= seq![32u8]) by {
        assert(encode_utf8(sp.drop_first()) =~= Seq::<u8>::empty());
        assert((' ' as u32) == 32);
        assert(((32u32 & 0x7F) as u8) == 32u8) by (bit_vector);
        assert(vstd::utf8::encode_scalar(32u32) =~= seq![32u8]);
    }
    assert(encode_utf8(a) + seq![32u8] + encode_utf8(b) =~= encode_utf8(a) + (seq![32u8] + encode_utf8(b)));
    lemma_tokens_blank(encode_utf8(a), encode_utf8(b));
}

/// A comparison `column operator number` is read and recorded whatever
/// its operator among `>`, `>=`, `<`, `<=` and `=`: the parser moves past
/// the three tokens and appends exactly that comparison.
pub proof fn law_comparison_records_each_operator(
    tv: TokenSeq,
    me: Seq<char>,
    st: ParseState,
    column: Seq<char>,
    op: TokenT,
    number: Seq<char>,
)
    requires
        0 <= st.idx,
        st.idx + 3 <= tv.len(),
        tv[st.idx] == (TokenT::Ident, column),
        tv[st.idx + 1].0 == op,
        tv[st.idx + 2] == (TokenT::Num, number),
        op == TokenT::Greater || op == TokenT::GreaterEq || op == TokenT::Less || op == TokenT::LessEq
            || op == TokenT::Eq,
    ensures
        spec_parse_comparison(tv, me, st).error is None,
        spec_parse_comparison(tv, me, st).state == (ParseState {
            idx: st.idx + 3,
            comparisons: st.comparisons.push(ComparisonView { column_name: column, operator: op, number }),
            ..st
        }),
{
    assert(comparison_operators().contains(op)) by {
        if op == TokenT::Greater {
            assert(comparison_operators()[0] == op);
        } else if op == TokenT::GreaterEq {
            assert(comparison_operators()[1] == op);
        } else if op == TokenT::Less {
            assert(comparison_operators()[2] == op);
        } else if op == TokenT::LessEq {
            assert(comparison_operators()[3] == op);
        } else {
            assert(comparison_operators()[4] == op);
        }
    }
}

/// A column list `c1 , c2 , ... , ck` (no column a keyword), ending at the
/// end of the statement or at a keyword, is read as exactly those columns,
/// in order and with repetitions, and the parser stops at its end.
pub proof fn law_columns_read_in_order(
    tv: TokenSeq,
    kw: Seq<Seq<char>>,
    me: Seq<char>,
    st: ParseState,
    cols: Seq<Seq<char>>,
)
    requires
        0 <= st.idx,
        cols.len() >= 1,
        st.idx + 2 * cols.len() - 1 <= tv.len(),
        forall|k: int| 0 <= k < cols.len() ==> tv[st.idx + 2 * k] == (TokenT::Ident, #[trigger] cols[k]),
        forall|k: int| 0 <= k < cols.len() ==> !kw.contains(#[trigger] cols[k]),
        forall|k: int| 0 <= k < cols.len() - 1 ==> (#[trigger] tv[st.idx + 2 * k + 1]).0 == TokenT::Comma,
        ({
            let e = st.idx + 2 * cols.len() - 1;
            e == tv.len() || (tv[e].0 == TokenT::Ident && kw.contains(tv[e].1))
        }),
    ensures
        spec_select_columns(tv, kw, me, st, true).error is None,
        spec_select_columns(tv, kw, me, st, true).state == (ParseState {
            idx: st.idx + 2 * cols.len() - 1,
            columns: st.columns + cols,
            ..st
        }),
    decreases cols.len(),
{
    let c0 = cols[0];
    assert(tv[st.idx + 2 * 0] == (TokenT::Ident, cols[0]));
    assert(!kw.contains(cols[0]));
    let st1 = ParseState { idx: st.idx + 1, columns: st.columns.push(c0), ..st };
    if cols.len() == 1 {
        assert(st.columns.push(c0) =~= st.columns + cols);
        assert(spec_select_columns(tv, kw, me, st1, false) == done(st1));
    } else {
        assert(tv[st.idx + 2 * 0 + 1].0 == TokenT::Comma);
        let st2 = ParseState { idx: st.idx + 2, ..st1 };
        assert(spec_select_columns(tv, kw, me, st1, false) == spec_select_columns(tv, kw, me, st2, true));
        let rest = cols.drop_first();
        assert forall|k: int| 0 <= k < rest.len() implies tv[st2.idx + 2 * k] == (TokenT::Ident, #[trigger] rest[k]) by {
            assert(rest[k] == cols[k + 1]);
            assert(tv[st.idx + 2 * (k + 1)] == (TokenT::Ident, cols[k + 1]));
        }
        assert forall|k: int| 0 <= k < rest.len() implies !kw.contains(#[trigger] rest[k]) by {
            assert(rest[k] == cols[k + 1]);
        }
        assert forall|k: int| 0 <= k < rest.len() - 1 implies (#[trigger] tv[st2.idx + 2 * k + 1]).0 == TokenT::Comma by {
            assert(tv[st.idx + 2 * (k + 1) + 1].0 == TokenT::Comma);
        }
        law_columns_read_in_order(tv, kw, me, st2, rest);
        assert(st1.columns + rest =~= st.columns + cols);
    }
}

/// A replica accepts its peer count exactly when it is an odd number of at
/// least three; one peer alone is refused as a single replica, and any even
/// count as even.
pub proof fn law_peer_count_accepted(n: nat)
    ensures
        spec_validate_peers(n) is Ok <==> n % 2 == 1 && n >= 3,
        n == 1 ==> spec_validate_peers(n) == Err::<(), DbErrorView>(DbErrorView::SingleReplica),
        n % 2 == 0 ==> spec_validate_peers(n) == Err::<(), DbErrorView>(DbErrorView::EvenPeerCount),
{
}

/// A client accepts a split of `n` servers into `shard_count` shards exactly
/// when every shard gets the same odd number, at least three, of replicas.
pub proof fn law_split_is_odd_replicas(n: int, shard_count: int)
    requires
        n >= 0,
        shard_count > 0,
    ensures
        spec_client_conf_valid(n, shard_count) <==> exists|r: int|
            r >= 3 && r % 2 == 1 && n == #[trigger] (r * shard_count),
{
    if spec_client_conf_valid(n, shard_count) {
        let r = n / shard_count;
        vstd::arithmetic::div_mod::lemma_fundamental_div_mod(n, shard_count);
        assert(n == r * shard_count) by (nonlinear_arith)
            requires
                n == shard_count * r + n % shard_count,
                n % shard_count == 0,
        ;
    }
    if exists|r: int| r >= 3 && r % 2 == 1 && n == #[trigger] (r * shard_count) {
        let r = choose|r: int| r >= 3 && r % 2 == 1 && n == #[trigger] (r * shard_count);
        vstd::arithmetic::div_mod::lemma_mod_multiples_basic(r, shard_count);
        vstd::arithmetic::div_mod::lemma_div_multiples_vanish(r, shard_count);
        assert(shard_count * r == r * shard_count) by (nonlinear_arith);
    }
}

/// A number token is the longest run of digits with at most one dot that
/// starts at a digit: it holds the bytes it covers, and the byte after it
/// (if any) is neither a digit nor a first dot.
pub proof fn law_number_token_is_maximal(s: Seq<u8>, i: int)
    requires
        0 <= i < s.len(),
        48 <= s[i] <= 57,
    ensures
        ({
            let (t, v, e) = spec_select(s, i);
            &&& t == TokenT::Num
            &&& i < e <= s.len()
            &&& v == Seq::new((e - i) as nat, |k: int| s[i + k] as char)
            &&& forall|k: int| i <= k < e ==> (48 <= #[trigger] s[k] <= 57 || s[k] == 46)
            &&& forall|a: int, b: int| i <= a < b < e && #[trigger] s[a] == 46 ==> #[trigger] s[b] != 46
            &&& e == s.len() || !(48 <= s[e] <= 57)
            &&& e < s.len() && s[e] == 46 ==> exists|k: int| i <= k < e && #[trigger] s[k] == 46
        }),
{
    lemma_select_advances(s, i);
    lemma_num_end_bytes(s, i, 0);
    lemma_num_end_dots(s, i, 0);
    lemma_num_end_maximal(s, i, 0);
}

} // verus!
