use cow_solver::chains::{ChainId, SupportedChain};

#[test]
fn test_chain_id_conversion() {
    assert_eq!(ChainId::from_u64(1), Some(ChainId::Ethereum));
    assert_eq!(ChainId::from_u64(137), Some(ChainId::Polygon));
    assert_eq!(ChainId::from_u64(999), None);
}

#[test]
fn test_chain_properties() {
    assert_eq!(ChainId::Ethereum.name(), "Ethereum");
    assert_eq!(ChainId::Ethereum.native_token(), "ETH");
    assert_eq!(ChainId::Polygon.native_token(), "MATIC");
    assert!(ChainId::Ethereum.is_evm());
}

#[test]
fn test_block_times() {
    assert_eq!(ChainId::Ethereum.block_time(), 12);
    assert_eq!(ChainId::Arbitrum.block_time(), 1);
}

#[test]
fn chainid_as_u64_and_from_u64_roundtrip_all_variants() {
    let all = [
        ChainId::Ethereum,
        ChainId::Optimism,
        ChainId::BinanceSmartChain,
        ChainId::Polygon,
        ChainId::Base,
        ChainId::Arbitrum,
        ChainId::Avalanche,
    ];
    for &c in &all {
        let id = c.as_u64();
        let from = ChainId::from_u64(id);
        assert_eq!(from, Some(c));
    }
}

#[test]
fn chain_native_token_and_name_consistency() {
    assert_eq!(ChainId::Ethereum.native_token(), "ETH");
    assert_eq!(ChainId::Ethereum.name(), "Ethereum");
    assert_eq!(ChainId::Avalanche.native_token(), "AVAX");
}

#[test]
fn supported_chain_new_and_fields() {
    let sc = SupportedChain::new(
        ChainId::Base,
        "https://rpc.base".to_string(),
        "https://explorer.base".to_string(),
        Some("0xsettle".to_string()),
    );
    assert_eq!(sc.chain_id, ChainId::Base);
    assert_eq!(sc.rpc_url, "https://rpc.base");
    assert_eq!(sc.explorer_url, "https://explorer.base");
    assert_eq!(sc.cow_settlement_address.as_deref(), Some("0xsettle"));
}
