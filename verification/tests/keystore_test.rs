use sol_rpc_router::keystore::MockKeyStore;

#[test]
fn test_validate_key_valid() {
    let mut store = MockKeyStore::new();
    store.add_key(&"valid-key".to_string(), &"owner1".to_string(), 100);

    let result = store.validate_key(&"valid-key".to_string());
    assert!(result.is_ok());
    let info = result.unwrap().unwrap();
    assert_eq!(info.owner, "owner1");
    assert_eq!(info.rate_limit, 100);
}

#[test]
fn test_validate_key_invalid() {
    let mut store = MockKeyStore::new();
    let result = store.validate_key(&"invalid-key".to_string());
    assert!(result.is_ok()); // Returns Ok(None)
    assert!(result.unwrap().is_none());
}

#[test]
fn test_validate_key_inactive() {
    let mut store = MockKeyStore::new();
    store.add_key(&"inactive-key".to_string(), &"owner2".to_string(), 100);
    store.set_inactive(&"inactive-key".to_string());

    let result = store.validate_key(&"inactive-key".to_string());
    assert!(result.is_ok());
    assert!(result.unwrap().is_none());
}

#[test]
fn test_validate_key_rate_limit() {
    let mut store = MockKeyStore::new();
    store.add_key(&"limited-key".to_string(), &"owner3".to_string(), 10);

    // Simulate a rate limit hit by adding the key to the restricted list
    store.rate_limited_keys.push("limited-key".to_string());

    let result = store.validate_key(&"limited-key".to_string());
    assert!(result.is_err());
    assert_eq!(result.err().unwrap(), "Rate limit exceeded");
}

#[test]
fn test_validate_key_call_count() {
    let mut store = MockKeyStore::new();
    store.add_key(&"count-key".to_string(), &"owner".to_string(), 100);

    store.validate_key(&"count-key".to_string()).unwrap();
    store.validate_key(&"count-key".to_string()).unwrap();
    store.validate_key(&"count-key".to_string()).unwrap();

    assert_eq!(store.get_call_count(&"count-key".to_string()), 3);
}

#[test]
fn test_validate_key_custom_error() {
    let mut store = MockKeyStore::new();
    store.add_key(&"err-key".to_string(), &"owner".to_string(), 100);
    store.set_error(&"err-key".to_string(), &"Redis connection failed".to_string());

    let result = store.validate_key(&"err-key".to_string());
    assert!(result.is_err());
    assert_eq!(result.err().unwrap(), "Redis connection failed");
}

#[test]
fn test_validate_key_counts_unknown_keys_too() {
    let mut store = MockKeyStore::new();
    store.validate_key(&"ghost".to_string()).unwrap();
    store.validate_key(&"ghost".to_string()).unwrap();
    assert_eq!(store.get_call_count(&"ghost".to_string()), 2);
    assert_eq!(store.get_call_count(&"other".to_string()), 0);
}

#[test]
fn test_validate_key_fault_takes_precedence() {
    let mut store = MockKeyStore::new();
    store.add_key(&"k".to_string(), &"o".to_string(), 5);
    store.set_inactive(&"k".to_string());
    store.set_error(&"k".to_string(), &"store down".to_string());
    let result = store.validate_key(&"k".to_string());
    assert_eq!(result.err().unwrap(), "store down");
}
