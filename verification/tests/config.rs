use dianadb::config::{config_message, ClientConfig, ServerConfig};
use dianadb::error::DbError;
use dianadb::Client;

fn strings(v: &[&str]) -> Vec<String> {
    v.iter().map(|s| s.to_string()).collect()
}

fn server_with_peers(n: usize) -> ServerConfig {
    let mut c = ServerConfig::new();
    for i in 0..n {
        c.peers.push(format!("p{}", i));
    }
    c
}

#[test]
fn replica_needs_odd_peer_count_of_three_or_more() {
    assert!(matches!(server_with_peers(0).validate(), Err(DbError::EvenPeerCount)));
    assert!(matches!(server_with_peers(1).validate(), Err(DbError::SingleReplica)));
    assert!(matches!(server_with_peers(2).validate(), Err(DbError::EvenPeerCount)));
    assert!(server_with_peers(3).validate().is_ok());
    assert!(matches!(server_with_peers(4).validate(), Err(DbError::EvenPeerCount)));
    assert!(server_with_peers(5).validate().is_ok());
    assert_eq!(DbError::MissingPeers.message(), "dianadb::ServerConfig::validate: peer addresses are missing");
    assert_eq!(DbError::SingleReplica.message(), "dianadb::ServerConfig::validate: single replica not allowed");
    assert_eq!(DbError::EvenPeerCount.message(), "dianadb::ServerConfig::validate: peer count must be odd");
}

#[test]
fn server_reads_its_configuration() {
    let mut c = ServerConfig::new();
    c.init(&"2 17 a:1 b:2  c:3\n".to_string()).unwrap();
    assert_eq!(c.pool_id, 2);
    assert_eq!(c.global_id, 17);
    assert_eq!(c.peers, strings(&["a:1", "b:2", "c:3"]));
    assert_eq!(c.me, "S17");
}

#[test]
fn server_configuration_errors() {
    let mut c = ServerConfig::new();
    let err = c.init(&"x 1 a b c".to_string()).unwrap_err();
    match &err {
        DbError::InvalidNumber { reason } => assert_eq!(reason, "invalid digit found in string"),
        _ => panic!("unexpected error {:?}", err),
    }
    assert_eq!(err.message(), "invalid digit found in string");
    assert_eq!(c.pool_id, 0);

    let mut c = ServerConfig::new();
    let err = c.init(&"4".to_string()).unwrap_err();
    assert!(matches!(err, DbError::IndexOutOfBounds));
    assert_eq!(c.pool_id, 4);

    let mut c = ServerConfig::new();
    let err = c.init(&"0 3 a b".to_string()).unwrap_err();
    assert!(matches!(err, DbError::EvenPeerCount));
    assert_eq!(c.me, "S3");
    assert_eq!(c.peers, strings(&["a", "b"]));

    let mut c = ServerConfig::new();
    assert!(c.init(&"".to_string()).is_err());
    assert!(ServerConfig::extract_usize(&strings(&["99999999999999999999999"]), 0).is_err());
    assert_eq!(ServerConfig::extract_usize(&strings(&["7", "08"]), 1).unwrap(), 8);
}

#[test]
fn pools_group_consecutive_servers() {
    let six = strings(&["a", "b", "c", "d", "e", "f"]);
    assert_eq!(ClientConfig::init_pools(2, &six), vec![0, 0, 0, 1, 1, 1]);
    assert_eq!(ClientConfig::init_pools(3, &six), vec![0, 0, 1, 1, 2, 2]);
    assert_eq!(ClientConfig::init_pools(1, &six), vec![0, 0, 0, 0, 0, 0]);
    let one = strings(&["a"]);
    assert_eq!(ClientConfig::init_pools(2, &one), vec![1]);
    assert_eq!(ClientConfig::init_pools(4, &strings(&["a", "b", "c"])), vec![1, 1, 1]);
}

#[test]
fn client_split_must_be_odd_replicas() {
    let conf = |n: usize, shards: usize| ClientConfig {
        shard_count: shards,
        addresses: (0..n).map(|i| i.to_string()).collect(),
        pools: Vec::new(),
    };
    assert!(conf(6, 2).validate().is_ok());
    assert!(conf(3, 1).validate().is_ok());
    assert!(matches!(conf(4, 2).validate(), Err(DbError::InvalidClientConfig)));
    assert!(matches!(conf(7, 2).validate(), Err(DbError::InvalidClientConfig)));
    assert!(matches!(conf(2, 2).validate(), Err(DbError::InvalidClientConfig)));
    assert_eq!(DbError::InvalidClientConfig.message(), "dianadb::ClientConfig::validate: invalid conf");
}

#[test]
fn merge_builds_peer_lists() {
    let conf = ClientConfig {
        shard_count: 2,
        addresses: strings(&["a", "b", "c", "d", "e", "f"]),
        pools: vec![0, 0, 0, 1, 1, 1],
    };
    assert_eq!(conf.merge_by_pools().unwrap(), strings(&["a b c ", "d e f "]));
    let bad = ClientConfig { shard_count: 1, addresses: strings(&["a", "b"]), pools: vec![0, 1] };
    assert!(matches!(bad.merge_by_pools(), Err(DbError::IndexOutOfBounds)));
    let short = ClientConfig { shard_count: 1, addresses: strings(&["a", "b"]), pools: vec![0] };
    assert!(matches!(short.merge_by_pools(), Err(DbError::IndexOutOfBounds)));
    assert!(matches!(short.config_messages(), Err(DbError::IndexOutOfBounds)));
}

#[test]
fn config_message_layout() {
    assert_eq!(config_message(3, 12, &"a b ".to_string()), "3 12 a b ");
    assert_eq!(config_message(0, 0, &String::new()), "0 0 ");
}

#[test]
fn handshake_round_trip() {
    let addresses = strings(&["h0:1", "h1:1", "h2:1", "h3:1", "h4:1", "h5:1"]);
    let client = Client::configure(2, &addresses).unwrap();
    let messages = client.config_messages().unwrap();
    assert_eq!(messages.len(), 6);
    assert_eq!(messages[4].0, "h4:1");
    assert_eq!(messages[4].1, "1 4 h3:1 h4:1 h5:1 ");
    for (i, (_, message)) in messages.iter().enumerate() {
        let mut server = ServerConfig::new();
        server.init(message).unwrap();
        assert_eq!(server.pool_id, i / 3);
        assert_eq!(server.global_id, i);
        assert_eq!(server.me, format!("S{}", i));
        assert_eq!(server.peers, addresses[(i / 3) * 3..(i / 3) * 3 + 3].to_vec());
    }
}

#[test]
fn client_configuration_errors() {
    assert!(matches!(Client::configure(2, &strings(&["a", "b"])), Err(DbError::InvalidClientConfig)));
    let client = Client::configure(1, &strings(&["a", "b", "c"])).unwrap();
    assert_eq!(client.conf.pools, vec![0, 0, 0]);
    let table = client.run_statement(&"select a".to_string()).unwrap();
    assert_eq!(table.rows.len(), 0);
    table.print();
}
