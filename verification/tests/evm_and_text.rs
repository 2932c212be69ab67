use bsc_node::node::evm::factory::{is_trace_database, BscEvmFactory, NoOpInspector};
use bsc_node::node::miner::mining_key_report;
use bsc_node::text::{contains_part, join, push_decimal, same_text, strip_prefix};

#[test]
fn machine_without_inspector_traces_on_a_cache() {
    let factory = BscEvmFactory::default();
    let evm = factory.create_evm("db", 5, "revm::db::CacheDB<alloc::string::String>");
    assert_eq!((evm.db, evm.env, evm.inspect, evm.trace), ("db", 5, false, true));
    assert_eq!(evm.inspector, NoOpInspector);
    let evm = factory.create_evm("db", 5, "revm::db::State<alloc::string::String>");
    assert_eq!((evm.inspect, evm.trace), (false, false));
}

#[test]
fn machine_with_inspector_inspects_and_traces() {
    let evm = BscEvmFactory::default().create_evm_with_inspector("db", 5, "eye");
    assert_eq!((evm.db, evm.env, evm.inspector), ("db", 5, "eye"));
    assert!(evm.inspect && evm.trace);
}

#[test]
fn database_is_known_by_its_name() {
    assert!(is_trace_database("CacheDB"));
    assert!(is_trace_database("a::CacheDBx"));
    assert!(!is_trace_database("CacheD"));
    assert!(!is_trace_database("cachedb"));
    assert!(!is_trace_database(""));
}

#[test]
fn text_is_compared_by_characters() {
    assert!(contains_part("grün", "ü"));
    assert!(contains_part("abc", ""));
    assert!(contains_part("", ""));
    assert!(!contains_part("abc", "abcd"));
    assert!(contains_part("aab", "ab"));
    assert_eq!(strip_prefix("über alles", "über "), Some("alles"));
    assert_eq!(strip_prefix("abc", "abcd"), None);
    assert_eq!(strip_prefix("abc", ""), Some("abc"));
    assert!(same_text("rawTx", "rawTx"));
    assert!(!same_text("rawTx", "rawTX"));
    assert!(!same_text("rawTx", "rawTxs"));
    assert_eq!(join("a", "b"), "ab");
}

#[test]
fn numbers_are_written_in_decimal() {
    for n in [0, 9, 10, 99, 100, 12345, u64::MAX] {
        let mut out = String::from("n=");
        push_decimal(&mut out, n);
        assert_eq!(out, format!("n={n}"));
    }
}

#[test]
fn mining_keys_are_reported() {
    let lines = mining_key_report(Some("0xaa"), Some("0xbb")).unwrap();
    assert_eq!(lines.len(), 14);
    assert_eq!(lines[2], "📍 Validator Address: 0xaa");
    assert_eq!(lines[3], "🔐 Private Key: 0xbb");
    assert_eq!(lines[7], "export BSC_PRIVATE_KEY=0xbb");
    assert_eq!(
        mining_key_report(Some("0xaa"), None),
        Err("❌ Failed to generate keys".to_string())
    );
    assert_eq!(
        mining_key_report(None, Some("0xbb")),
        Err("❌ Failed to generate keys".to_string())
    );
}
