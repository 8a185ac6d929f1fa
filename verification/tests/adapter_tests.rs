use cosmos_sdk_proto::cosmos::bank::v1beta1::QueryAllBalancesRequest;
use cosmos_sdk_proto::cosmos::bank::v1beta1::QueryAllBalancesResponse;
use cosmos_sdk_proto::cosmos::base::v1beta1::Coin;
use cosmos_sdk_proto::cosmwasm::wasm::v1::QuerySmartContractStateRequest;
use cosmos_sdk_proto::cosmwasm::wasm::v1::QuerySmartContractStateResponse;
use cosmos_sdk_proto::traits::Message;
use portfolio_explorer::adapters::base::RefreshError;
use portfolio_explorer::adapters::base::Value;
use portfolio_explorer::adapters::base::ValueType;
use portfolio_explorer::adapters::btc::BTCAdapter;
use portfolio_explorer::adapters::cosmos_bank::CosmosBankAdapter;
use portfolio_explorer::adapters::cosmwasm_smart_query::CosmWasmSmartQueryAdapter;
use portfolio_explorer::adapters::cosmwasm_smart_query::ExtractionRule;
use portfolio_explorer::adapters::cosmwasm_smart_query::QueryDef;
use portfolio_explorer::adapters::eth::ETHAdapter;
use portfolio_explorer::store::MetricStore;

const GENESIS: &str = "1A1zP1eP5QGefi2DMPTfTL5SLmv7DivfNa";

fn key(s: &str) -> String {
    String::from(s)
}

fn int_value(store: &MetricStore, k: &str) -> i64 {
    match store.get(&key(k)) {
        Some(Value::Int(v)) => *v,
        _ => panic!("expected an integer gauge under {}", k),
    }
}

// ----------------------------- plain balance -----------------------------

#[test]
fn plain_balance_sets_the_parsed_integer() {
    let mut store = MetricStore::new();
    let adapter = BTCAdapter::new("btc", &mut store, vec![String::from(GENESIS)])
        .expect("construction succeeds");
    let responses = vec![String::from("12345\n")];
    adapter
        .update_params(&mut store, &responses)
        .expect("refresh succeeds");
    let k = format!("btc_balance_{}", GENESIS);
    assert_eq!(int_value(&store, &k), 12345);
}

#[test]
fn plain_balance_refresh_is_all_or_nothing() {
    let mut store = MetricStore::new();
    let adapter = BTCAdapter::new(
        "btc",
        &mut store,
        vec![String::from("addr1"), String::from("addr2")],
    )
    .expect("construction succeeds");
    let good = vec![String::from("7"), String::from("8")];
    adapter
        .update_params(&mut store, &good)
        .expect("refresh succeeds");
    assert_eq!(int_value(&store, "btc_balance_addr1"), 7);
    assert_eq!(int_value(&store, "btc_balance_addr2"), 8);
    // the second response fails to parse: neither key moves
    let bad = vec![String::from("9"), String::from("not a number")];
    assert_eq!(
        adapter.update_params(&mut store, &bad),
        Err(RefreshError::Parse)
    );
    assert_eq!(int_value(&store, "btc_balance_addr1"), 7);
    assert_eq!(int_value(&store, "btc_balance_addr2"), 8);
}

#[test]
fn plain_balance_rejects_a_balance_beyond_the_gauge() {
    let mut store = MetricStore::new();
    let adapter = BTCAdapter::new("btc", &mut store, vec![String::from("a1")])
        .expect("construction succeeds");
    let responses = vec![String::from("18446744073709551615")];
    assert_eq!(
        adapter.update_params(&mut store, &responses),
        Err(RefreshError::Overflow)
    );
    assert_eq!(int_value(&store, "btc_balance_a1"), 0);
}

#[test]
fn plain_balance_builds_its_endpoint_urls() {
    let mut store = MetricStore::new();
    let adapter = BTCAdapter::new("btc", &mut store, vec![String::from(GENESIS)])
        .expect("construction succeeds");
    assert_eq!(
        adapter.balance_url(0),
        format!("https://blockchain.info/q/addressbalance/{}", GENESIS)
    );
    assert_eq!(adapter.address_count(), 1);
    assert_eq!(adapter.get_name(), "btc");
    assert_eq!(adapter.get_key("balance_x"), "btc_balance_x");
}

// ------------------------------ RPC balance ------------------------------

#[test]
fn rpc_balance_scales_the_hex_result() {
    let mut store = MetricStore::new();
    let adapter = ETHAdapter::new(
        "eth1",
        &mut store,
        vec![String::from("0xabc0000000000000000000000000000000000001")],
        "token",
        2,
        None,
    )
    .expect("construction succeeds");
    // 0x2710 = 10000; scaled by 10^2 -> 100
    let responses = vec![br#"{"jsonrpc":"2.0","id":1,"result":"0x2710"}"#.to_vec()];
    adapter
        .update_params(&mut store, &responses)
        .expect("refresh succeeds");
    assert_eq!(
        int_value(
            &store,
            "eth1_balance_0xabc0000000000000000000000000000000000001"
        ),
        100
    );
}

#[test]
fn rpc_balance_reports_a_missing_result_field() {
    let mut store = MetricStore::new();
    let adapter = ETHAdapter::new(
        "eth1",
        &mut store,
        vec![String::from("0xa1")],
        "token",
        0,
        None,
    )
    .expect("construction succeeds");
    let responses = vec![br#"{"jsonrpc":"2.0","id":1,"error":"boom"}"#.to_vec()];
    assert_eq!(
        adapter.update_params(&mut store, &responses),
        Err(RefreshError::Field)
    );
    assert_eq!(int_value(&store, "eth1_balance_0xa1"), 0);
}

#[test]
fn rpc_balance_reports_a_malformed_quantity() {
    let mut store = MetricStore::new();
    let adapter = ETHAdapter::new(
        "eth1",
        &mut store,
        vec![String::from("0xa1")],
        "token",
        0,
        None,
    )
    .expect("construction succeeds");
    let responses = vec![br#"{"result":"99"}"#.to_vec()];
    assert_eq!(
        adapter.update_params(&mut store, &responses),
        Err(RefreshError::Parse)
    );
}

#[test]
fn rpc_balance_builds_a_native_request_body() {
    let mut store = MetricStore::new();
    let adapter = ETHAdapter::new(
        "eth1",
        &mut store,
        vec![String::from("0xa1")],
        "tok",
        0,
        None,
    )
    .expect("construction succeeds");
    assert_eq!(adapter.endpoint_url(), "https://mainnet.infura.io/v3/tok");
    assert_eq!(
        adapter.request_body(0),
        r#"{"jsonrpc":"2.0","id":1,"method":"eth_getBalance","params":["0xa1","latest"]}"#
    );
}

#[test]
fn rpc_balance_builds_a_token_call_body() {
    let mut store = MetricStore::new();
    let adapter = ETHAdapter::new(
        "tok1",
        &mut store,
        vec![String::from("0xabcd")],
        "tok",
        0,
        Some(String::from("0xc0ffee")),
    )
    .expect("construction succeeds");
    assert_eq!(
        adapter.request_body(0),
        r#"{"jsonrpc":"2.0","id":1,"method":"eth_call","params":[{"to":"0xc0ffee","data":"0x70a08231000000000000000000000000abcd"},"latest"]}"#
    );
}

// ---------------------------- account balances ---------------------------

fn bank_response(coins: Vec<(&str, &str)>) -> Vec<u8> {
    let resp = QueryAllBalancesResponse {
        balances: coins
            .into_iter()
            .map(|(d, a)| Coin {
                denom: String::from(d),
                amount: String::from(a),
            })
            .collect(),
        pagination: None,
    };
    resp.encode_to_vec()
}

#[test]
fn account_balances_keeps_only_allowed_denoms() {
    let mut store = MetricStore::new();
    let adapter = CosmosBankAdapter::new(
        "bank",
        &mut store,
        vec![String::from("cosmos1abc")],
        "http://localhost:26657",
        vec![String::from("utia")],
    )
    .expect("construction succeeds");
    let responses = vec![bank_response(vec![("utia", "500"), ("uusd", "10")])];
    adapter
        .update_params(&mut store, &responses)
        .expect("refresh succeeds");
    assert_eq!(int_value(&store, "bank_balance_cosmos1abc_utia"), 500);
    // nothing was created for the denomination outside the allow-list
    assert!(store.get(&key("bank_balance_cosmos1abc_uusd")).is_none());
}

#[test]
fn account_balances_reports_an_unparseable_amount() {
    let mut store = MetricStore::new();
    let adapter = CosmosBankAdapter::new(
        "bank",
        &mut store,
        vec![String::from("cosmos1abc")],
        "http://localhost:26657",
        vec![String::from("utia")],
    )
    .expect("construction succeeds");
    let responses = vec![bank_response(vec![("utia", "half")])];
    assert_eq!(
        adapter.update_params(&mut store, &responses),
        Err(RefreshError::Parse)
    );
    assert_eq!(int_value(&store, "bank_balance_cosmos1abc_utia"), 0);
}

#[test]
fn account_balances_reports_undecodable_bytes() {
    let mut store = MetricStore::new();
    let adapter = CosmosBankAdapter::new(
        "bank",
        &mut store,
        vec![String::from("cosmos1abc")],
        "http://localhost:26657",
        vec![String::from("utia")],
    )
    .expect("construction succeeds");
    let responses = vec![vec![0xffu8, 0xff, 0xff]];
    assert_eq!(
        adapter.update_params(&mut store, &responses),
        Err(RefreshError::Decode)
    );
}

#[test]
fn account_balances_encodes_the_ledger_request() {
    let mut store = MetricStore::new();
    let adapter = CosmosBankAdapter::new(
        "bank",
        &mut store,
        vec![String::from("cosmos1abc")],
        "http://localhost:26657",
        vec![String::from("utia")],
    )
    .expect("construction succeeds");
    let bytes = adapter.balance_request(0);
    let req = QueryAllBalancesRequest::decode(bytes.as_slice()).expect("round trip");
    assert_eq!(req.address, "cosmos1abc");
    let page = req.pagination.expect("first-page pagination");
    assert_eq!(page.limit, 1000);
    assert_eq!(CosmosBankAdapter::query_path(), "/cosmos.bank.v1beta1.Query/AllBalances");
    assert_eq!(adapter.rpc_endpoint(), "http://localhost:26657");
}

// ------------------------------- smart query ------------------------------

fn smart_adapter(
    store: &mut MetricStore,
    path: &str,
    ty: ValueType,
) -> CosmWasmSmartQueryAdapter {
    let rules = vec![ExtractionRule {
        key: String::from("count"),
        path: String::from(path),
        value_type: ty,
    }];
    let queries = vec![QueryDef {
        query: String::from(r#"{"state":{}}"#),
        rules,
    }];
    CosmWasmSmartQueryAdapter::new("sq", "wasm1contract", store, queries, "http://localhost:26657")
        .expect("construction succeeds")
}

fn smart_response(json: &[u8]) -> Vec<u8> {
    QuerySmartContractStateResponse { data: json.to_vec() }.encode_to_vec()
}

#[test]
fn smart_query_extracts_an_integer() {
    let mut store = MetricStore::new();
    let adapter = smart_adapter(&mut store, ".data.count", ValueType::Int);
    let responses = vec![smart_response(br#"{"data":{"count":7}}"#)];
    adapter
        .update_params(&mut store, &responses)
        .expect("refresh succeeds");
    assert_eq!(int_value(&store, "sq_count"), 7);
}

#[test]
fn smart_query_failure_leaves_the_gauge_unchanged() {
    let mut store = MetricStore::new();
    let adapter = smart_adapter(&mut store, ".data.count", ValueType::Int);
    let good = vec![smart_response(br#"{"data":{"count":7}}"#)];
    adapter
        .update_params(&mut store, &good)
        .expect("refresh succeeds");
    // the document lacks .data.count: the refresh reports a failure and the
    // gauge keeps its prior value
    let lacking = vec![smart_response(br#"{"data":{}}"#)];
    assert!(adapter.update_params(&mut store, &lacking).is_err());
    assert_eq!(int_value(&store, "sq_count"), 7);
}

#[test]
fn smart_query_reports_an_empty_extraction() {
    let mut store = MetricStore::new();
    let adapter = smart_adapter(&mut store, ".data.items[]", ValueType::Int);
    let responses = vec![smart_response(br#"{"data":{"items":[]}}"#)];
    assert_eq!(
        adapter.update_params(&mut store, &responses),
        Err(RefreshError::Extraction)
    );
}

#[test]
fn smart_query_extracts_a_float() {
    let mut store = MetricStore::new();
    let adapter = smart_adapter(&mut store, ".data.ratio", ValueType::Float);
    let responses = vec![smart_response(br#"{"data":{"ratio":2.5}}"#)];
    adapter
        .update_params(&mut store, &responses)
        .expect("refresh succeeds");
    match store.get(&key("sq_count")) {
        Some(Value::Float(t)) => assert_eq!(t.as_string(), "2.5"),
        _ => panic!("expected a float gauge"),
    }
}

#[test]
fn smart_query_survives_a_numeric_literal_path() {
    let mut store = MetricStore::new();
    // `1e999` lexes as a number beyond every finite float; the engine must
    // hand its text back rather than fall over, and the integer coercion
    // then rejects it
    let adapter = smart_adapter(&mut store, "1e999", ValueType::Int);
    let responses = vec![smart_response(br#"{"data":{"count":7}}"#)];
    assert_eq!(
        adapter.update_params(&mut store, &responses),
        Err(RefreshError::Parse)
    );
}

#[test]
fn smart_query_rejects_a_path_with_definitions() {
    let mut store = MetricStore::new();
    // a recursive definition would never return; the engine refuses paths
    // that carry their own definitions
    let adapter = smart_adapter(&mut store, "def f: f; f", ValueType::Int);
    let responses = vec![smart_response(br#"{"data":{"count":7}}"#)];
    assert_eq!(
        adapter.update_params(&mut store, &responses),
        Err(RefreshError::Extraction)
    );
}

#[test]
fn smart_query_rejects_an_undefined_filter_name() {
    let mut store = MetricStore::new();
    // the engine installs no named filters; an undefined name must fail the
    // extraction, not silently yield the whole document
    let adapter = smart_adapter(&mut store, "length", ValueType::Int);
    let responses = vec![smart_response(br#"{"data":{"count":7}}"#)];
    assert_eq!(
        adapter.update_params(&mut store, &responses),
        Err(RefreshError::Extraction)
    );
}

#[test]
fn smart_query_reports_a_non_json_payload() {
    let mut store = MetricStore::new();
    let adapter = smart_adapter(&mut store, ".data.count", ValueType::Int);
    let responses = vec![smart_response(b"this is not json")];
    assert_eq!(
        adapter.update_params(&mut store, &responses),
        Err(RefreshError::Json)
    );
}

#[test]
fn smart_query_reports_undecodable_bytes() {
    let mut store = MetricStore::new();
    let adapter = smart_adapter(&mut store, ".data.count", ValueType::Int);
    let responses = vec![vec![0xffu8, 0xff]];
    assert_eq!(
        adapter.update_params(&mut store, &responses),
        Err(RefreshError::Decode)
    );
}

#[test]
fn smart_query_encodes_the_state_request() {
    let mut store = MetricStore::new();
    let adapter = smart_adapter(&mut store, ".data.count", ValueType::Int);
    let bytes = adapter.state_request(0);
    let req = QuerySmartContractStateRequest::decode(bytes.as_slice()).expect("round trip");
    assert_eq!(req.address, "wasm1contract");
    assert_eq!(req.query_data, br#"{"state":{}}"#.to_vec());
    assert_eq!(
        CosmWasmSmartQueryAdapter::query_path(),
        "/cosmwasm.wasm.v1.Query/SmartContractState"
    );
}

#[test]
fn a_colliding_source_fails_and_leaves_the_first_intact() {
    let mut store = MetricStore::new();
    let first = BTCAdapter::new("btc", &mut store, vec![String::from("a1")])
        .expect("construction succeeds");
    let responses = vec![String::from("7")];
    first
        .update_params(&mut store, &responses)
        .expect("refresh succeeds");
    // a second source over the same name and address collides on the key:
    // detected at construction, and the live gauge keeps its value
    let second = BTCAdapter::new("btc", &mut store, vec![String::from("a1")]);
    assert!(matches!(
        second,
        Err(portfolio_explorer::adapters::base::StoreError::DuplicateKey)
    ));
    assert_eq!(int_value(&store, "btc_balance_a1"), 7);
}

#[test]
fn an_invalid_endpoint_fails_before_any_key_is_registered() {
    let mut store = MetricStore::new();
    let bank = CosmosBankAdapter::new(
        "bank",
        &mut store,
        vec![String::from("cosmos1abc")],
        "not a url",
        vec![String::from("utia")],
    );
    assert!(matches!(
        bank,
        Err(portfolio_explorer::adapters::base::BuildError::InvalidEndpoint)
    ));
    assert_eq!(store.len(), 0);

    let rules = vec![ExtractionRule {
        key: String::from("count"),
        path: String::from(".data.count"),
        value_type: ValueType::Int,
    }];
    let queries = vec![QueryDef {
        query: String::from(r#"{"state":{}}"#),
        rules,
    }];
    let sq = CosmWasmSmartQueryAdapter::new("sq", "wasm1contract", &mut store, queries, "::: nope");
    assert!(matches!(
        sq,
        Err(portfolio_explorer::adapters::base::BuildError::InvalidEndpoint)
    ));
    assert_eq!(store.len(), 0);
}

#[test]
fn a_refresh_against_missing_keys_is_a_store_error() {
    let mut registration_store = MetricStore::new();
    let adapter = BTCAdapter::new("btc", &mut registration_store, vec![String::from("a1")])
        .expect("construction succeeds");
    // a store that never saw the registration: the write discipline reports
    // a programming error, distinct from any network failure
    let mut other_store = MetricStore::new();
    let responses = vec![String::from("7")];
    assert_eq!(
        adapter.update_params(&mut other_store, &responses),
        Err(RefreshError::Store(
            portfolio_explorer::adapters::base::StoreError::UnknownKey
        ))
    );
}

// ------------------------- cross-adapter isolation ------------------------

#[test]
fn a_refresh_touches_only_its_own_adapters_keys() {
    let mut store = MetricStore::new();
    let first = BTCAdapter::new("first", &mut store, vec![String::from("a1")])
        .expect("construction succeeds");
    let second = BTCAdapter::new("second", &mut store, vec![String::from("a1")])
        .expect("construction succeeds");
    let responses = vec![String::from("11")];
    first
        .update_params(&mut store, &responses)
        .expect("refresh succeeds");
    let responses = vec![String::from("22")];
    second
        .update_params(&mut store, &responses)
        .expect("refresh succeeds");
    // refresh the first again; the second's key is observably unchanged
    let responses = vec![String::from("33")];
    first
        .update_params(&mut store, &responses)
        .expect("refresh succeeds");
    assert_eq!(int_value(&store, "first_balance_a1"), 33);
    assert_eq!(int_value(&store, "second_balance_a1"), 22);
}
