use loopback_oauth::registry::{register_oauth_provider, unregister_oauth_provider, ProviderRegistry};
use tokio::sync::oneshot;

#[test]
fn unregister_twice_is_a_no_op() {
    let mut reg = ProviderRegistry::new();
    let (tx, _rx) = oneshot::channel::<String>();
    register_oauth_provider(&mut reg, "f1".to_string(), "/callback".to_string(), tx, "p".to_string());
    unregister_oauth_provider(&mut reg, "f1", "/callback");
    unregister_oauth_provider(&mut reg, "f1", "/callback");
    unregister_oauth_provider(&mut reg, "never", "/nowhere");
    assert_eq!(reg.pending_count(), 0);
    assert!(reg.match_path("/callback?x=1").is_none());
    assert!(reg.take_sender("f1").is_none());
}

#[test]
fn unregister_leaves_other_flows() {
    let mut reg = ProviderRegistry::new();
    let (tx_a, _ra) = oneshot::channel::<String>();
    let (tx_b, _rb) = oneshot::channel::<String>();
    register_oauth_provider(&mut reg, "a".to_string(), "/a".to_string(), tx_a, "A".to_string());
    register_oauth_provider(&mut reg, "b".to_string(), "/b".to_string(), tx_b, "B".to_string());
    unregister_oauth_provider(&mut reg, "a", "/a");
    assert_eq!(reg.pending_count(), 1);
    assert_eq!(reg.match_path("/b?q").unwrap(), "B");
    assert!(reg.match_path("/a?q").is_none());
    assert!(reg.take_sender("b").is_some());
    assert_eq!(reg.pending_count(), 0);
}

#[test]
fn register_again_replaces_page_and_cell() {
    let mut reg = ProviderRegistry::new();
    let (tx1, mut rx1) = oneshot::channel::<String>();
    let (tx2, mut rx2) = oneshot::channel::<String>();
    reg.register("g".to_string(), "/cb".to_string(), tx1, "old".to_string());
    reg.register("g".to_string(), "/cb".to_string(), tx2, "new".to_string());
    assert_eq!(reg.pending_count(), 1);
    assert_eq!(reg.match_path("/cb").unwrap(), "new");
    assert!(rx1.try_recv().is_err());
    let tx = reg.take_oldest().unwrap();
    tx.send("v".to_string()).unwrap();
    assert_eq!(rx2.try_recv().unwrap(), "v");
    assert!(reg.take_oldest().is_none());
}

#[test]
fn registering_a_second_flow_keeps_the_first_sender() {
    let mut reg = ProviderRegistry::new();
    let (tx_a, mut rx_a) = oneshot::channel::<String>();
    let (tx_b, mut rx_b) = oneshot::channel::<String>();
    register_oauth_provider(&mut reg, "a".to_string(), "/a".to_string(), tx_a, "A".to_string());
    register_oauth_provider(&mut reg, "b".to_string(), "/b".to_string(), tx_b, "B".to_string());
    assert_eq!(reg.match_path("/a").unwrap(), "A");
    reg.take_oldest().unwrap().send("first".to_string()).unwrap();
    assert_eq!(rx_a.try_recv().unwrap(), "first");
    assert!(rx_b.try_recv().is_err());
    reg.take_oldest().unwrap().send("second".to_string()).unwrap();
    assert_eq!(rx_b.try_recv().unwrap(), "second");
}
