use portfolio_explorer::adapter_factory::Adapter;
use portfolio_explorer::adapter_factory::ConfigError;
use portfolio_explorer::adapter_factory::build_registry;
use portfolio_explorer::adapter_factory::create_adapter;
use portfolio_explorer::adapters::base::Value;
use portfolio_explorer::adapters::base::ValueType;
use portfolio_explorer::config::AdapterParams;
use portfolio_explorer::config::MetricConfig;
use portfolio_explorer::config::QueryObject;
use portfolio_explorer::config::RawRule;
use portfolio_explorer::store::MetricStore;

fn params() -> AdapterParams {
    AdapterParams::empty()
}

fn cfg(adapter: &str, p: AdapterParams) -> MetricConfig {
    MetricConfig {
        enabled: true,
        adapter: String::from(adapter),
        config: p,
    }
}

fn int_value(store: &MetricStore, k: &str) -> i64 {
    match store.get(&String::from(k)) {
        Some(Value::Int(v)) => *v,
        _ => panic!("expected an integer gauge under {}", k),
    }
}

#[test]
fn builds_a_plain_balance_source() {
    let mut store = MetricStore::new();
    let mut p = params();
    p.addresses = Some(vec![String::from("a1"), String::from("a2")]);
    let adapter = create_adapter("btc", &mut store, &cfg("btc", p)).expect("built");
    match &adapter {
        Adapter::Btc(_) => {}
        _ => panic!("expected the plain-balance variant"),
    }
    assert_eq!(adapter.get_name(), "btc");
    assert_eq!(int_value(&store, "btc_balance_a1"), 0);
    assert_eq!(int_value(&store, "btc_balance_a2"), 0);
}

#[test]
fn reports_missing_addresses() {
    let mut store = MetricStore::new();
    let r = create_adapter("btc", &mut store, &cfg("btc", params()));
    assert!(matches!(r, Err(ConfigError::MissingAddresses)));
    assert_eq!(store.len(), 0);
}

#[test]
fn reports_an_unknown_source_type() {
    let mut store = MetricStore::new();
    let r = create_adapter("x", &mut store, &cfg("dogecoin", params()));
    assert!(matches!(r, Err(ConfigError::UnknownAdapter)));
}

#[test]
fn reports_a_missing_token_and_missing_decimals() {
    let mut store = MetricStore::new();
    let mut p = params();
    p.addresses = Some(vec![String::from("0xa1")]);
    let r = create_adapter("eth1", &mut store, &cfg("eth", p));
    assert!(matches!(r, Err(ConfigError::MissingInfuraToken)));

    let mut p = params();
    p.addresses = Some(vec![String::from("0xa1")]);
    p.infura_token = Some(String::from("tok"));
    let r = create_adapter("eth1", &mut store, &cfg("eth", p));
    assert!(matches!(r, Err(ConfigError::MissingDecimals)));
}

#[test]
fn reports_decimals_outside_the_scaling_range() {
    let mut store = MetricStore::new();
    let mut p = params();
    p.addresses = Some(vec![String::from("0xa1")]);
    p.infura_token = Some(String::from("tok"));
    p.decimals = Some(1);
    let r = create_adapter("eth1", &mut store, &cfg("eth", p));
    assert!(matches!(r, Err(ConfigError::DecimalsOutOfRange)));
}

#[test]
fn the_configured_decimals_are_reduced_by_the_offset() {
    let mut store = MetricStore::new();
    let mut p = params();
    p.addresses = Some(vec![String::from("0xa1")]);
    p.infura_token = Some(String::from("tok"));
    p.decimals = Some(4);
    let adapter = create_adapter("eth1", &mut store, &cfg("eth", p)).expect("built");
    let eth = match adapter {
        Adapter::Eth(a) => a,
        _ => panic!("expected the RPC-balance variant"),
    };
    // configured 4, used 2: 0x2710 = 10000 scales to 100
    let responses = vec![br#"{"result":"0x2710"}"#.to_vec()];
    eth.update_params(&mut store, &responses).expect("refresh succeeds");
    assert_eq!(int_value(&store, "eth1_balance_0xa1"), 100);
}

#[test]
fn a_token_source_requires_its_contract() {
    let mut store = MetricStore::new();
    let mut p = params();
    p.addresses = Some(vec![String::from("0xa1")]);
    p.infura_token = Some(String::from("tok"));
    p.decimals = Some(2);
    let r = create_adapter("t", &mut store, &cfg("erc20", p));
    assert!(matches!(r, Err(ConfigError::MissingContract)));
}

#[test]
fn an_invalid_endpoint_is_a_construction_error() {
    let mut store = MetricStore::new();
    let mut p = params();
    p.addresses = Some(vec![String::from("cosmos1abc")]);
    p.denoms = Some(vec![String::from("utia")]);
    p.rpc = Some(String::from("not a url"));
    let r = create_adapter("bank", &mut store, &cfg("cosmos_bank", p));
    assert!(matches!(r, Err(ConfigError::InvalidEndpoint)));
    // checked before registration: no key of this source exists
    assert_eq!(store.len(), 0);
    assert_eq!(ConfigError::InvalidEndpoint.message(), "invalid endpoint url");
}

#[test]
fn builds_an_account_balances_source() {
    let mut store = MetricStore::new();
    let mut p = params();
    p.addresses = Some(vec![String::from("cosmos1abc")]);
    p.denoms = Some(vec![String::from("utia")]);
    p.rpc = Some(String::from("http://localhost:26657"));
    let adapter = create_adapter("bank", &mut store, &cfg("cosmos_bank", p)).expect("built");
    assert!(matches!(adapter, Adapter::CosmosBank(_)));
    assert_eq!(int_value(&store, "bank_balance_cosmos1abc_utia"), 0);
}

#[test]
fn reports_missing_bank_fields_in_order() {
    let mut store = MetricStore::new();
    let mut p = params();
    p.addresses = Some(vec![String::from("cosmos1abc")]);
    let r = create_adapter("bank", &mut store, &cfg("cosmos_bank", p));
    assert!(matches!(r, Err(ConfigError::MissingDenoms)));

    let mut p = params();
    p.addresses = Some(vec![String::from("cosmos1abc")]);
    p.denoms = Some(vec![String::from("utia")]);
    let r = create_adapter("bank", &mut store, &cfg("cosmos_bank", p));
    assert!(matches!(r, Err(ConfigError::MissingRpc)));
}

fn smart_params(ty: &str) -> AdapterParams {
    let mut p = params();
    p.contract = Some(String::from("wasm1contract"));
    p.rpc = Some(String::from("http://localhost:26657"));
    p.objects = Some(vec![QueryObject {
        query: String::from(r#"{"state":{}}"#),
        keys: vec![RawRule {
            key: String::from("count"),
            path: String::from(".data.count"),
            value_type: String::from(ty),
        }],
    }]);
    p
}

#[test]
fn builds_a_smart_query_source() {
    let mut store = MetricStore::new();
    let adapter =
        create_adapter("sq", &mut store, &cfg("cosmwasm_smart_query", smart_params("int")))
            .expect("built");
    assert!(matches!(adapter, Adapter::CosmWasmSmartQuery(_)));
    assert_eq!(int_value(&store, "sq_count"), 0);
}

#[test]
fn a_smart_query_source_requires_its_objects() {
    let mut store = MetricStore::new();
    let mut p = params();
    p.contract = Some(String::from("wasm1contract"));
    p.rpc = Some(String::from("http://localhost:26657"));
    let r = create_adapter("sq", &mut store, &cfg("cosmwasm_smart_query", p));
    assert!(matches!(r, Err(ConfigError::MissingObjects)));
}

#[test]
fn reports_an_unknown_value_type_tag() {
    let mut store = MetricStore::new();
    let r = create_adapter("sq", &mut store, &cfg("cosmwasm_smart_query", smart_params("bool")));
    assert!(matches!(r, Err(ConfigError::UnknownValueType)));
    assert_eq!(store.len(), 0);
}

#[test]
fn a_key_collision_is_a_construction_error() {
    let mut store = MetricStore::new();
    // a float gauge already sits where the new source wants an integer one
    assert!(store
        .register(String::from("btc_balance_a1"), ValueType::Float)
        .is_ok());
    let mut p = params();
    p.addresses = Some(vec![String::from("a1")]);
    let r = create_adapter("btc", &mut store, &cfg("btc", p));
    assert!(matches!(r, Err(ConfigError::Store(_))));
}

#[test]
fn one_bad_source_does_not_block_the_others() {
    let mut store = MetricStore::new();
    let mut good = params();
    good.addresses = Some(vec![String::from("a1")]);
    let configs = vec![
        (String::from("broken"), cfg("dogecoin", params())),
        (String::from("btc"), cfg("btc", good)),
        (
            String::from("off"),
            MetricConfig {
                enabled: false,
                adapter: String::from("btc"),
                config: params(),
            },
        ),
    ];
    let built = build_registry(&mut store, &configs);
    // one entry per enabled source, in order; the disabled one is skipped
    assert_eq!(built.len(), 2);
    assert_eq!(built[0].0, "broken");
    assert!(matches!(built[0].1, Err(ConfigError::UnknownAdapter)));
    assert_eq!(built[1].0, "btc");
    assert!(built[1].1.is_ok());
    assert_eq!(int_value(&store, "btc_balance_a1"), 0);
}

#[test]
fn register_param_registers_under_the_adapter_name() {
    let mut store = MetricStore::new();
    let mut p = params();
    p.addresses = Some(vec![String::from("a1")]);
    let adapter = create_adapter("btc", &mut store, &cfg("btc", p)).expect("built");
    adapter
        .register_param(&mut store, "height", ValueType::Int)
        .expect("registered");
    assert_eq!(adapter.get_key("height"), "btc_height");
    assert!(store.get(&String::from("btc_height")).is_some());
}

#[test]
fn config_error_messages_name_the_field() {
    assert_eq!(ConfigError::MissingAddresses.message(), "Missing addresses");
    assert_eq!(ConfigError::MissingRpc.message(), "Missing rpc");
    assert_eq!(ConfigError::UnknownAdapter.message(), "Unknown adapter");
}
