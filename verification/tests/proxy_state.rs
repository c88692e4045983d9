use crucible::proxy::{ProxyError, ProxyState};

const ADMIN: &str = "GADMIN";

#[test]
fn test_proxy_initialization_and_access() {
    let mut proxy = ProxyState::new();
    let impl_hash = [1u8; 32];
    proxy.initialize(ADMIN, impl_hash).unwrap();
    assert_eq!(proxy.get_admin(), Ok(ADMIN.to_string()));
    assert_eq!(proxy.get_implementation(), Ok(impl_hash));
}

#[test]
fn test_double_initialization_panics() {
    let mut proxy = ProxyState::new();
    let impl_hash = [1u8; 32];
    proxy.initialize(ADMIN, impl_hash).unwrap();
    assert_eq!(
        proxy.initialize(ADMIN, impl_hash),
        Err(ProxyError::AlreadyInitialized)
    );
}

#[test]
fn test_set_implementation() {
    let mut proxy = ProxyState::new();
    let impl_hash_v1 = [1u8; 32];
    let impl_hash_v2 = [2u8; 32];
    proxy.initialize(ADMIN, impl_hash_v1).unwrap();
    proxy.set_implementation(impl_hash_v2).unwrap();
    assert_eq!(proxy.get_implementation(), Ok(impl_hash_v2));
}

#[test]
fn an_uninitialized_proxy_refuses_every_call() {
    let mut proxy = ProxyState::new();
    assert_eq!(proxy.get_admin(), Err(ProxyError::NotInitialized));
    assert_eq!(proxy.get_implementation(), Err(ProxyError::NotInitialized));
    assert_eq!(proxy.set_implementation([3u8; 32]), Err(ProxyError::NotInitialized));
    assert_eq!(proxy.upgrade([3u8; 32]), Err(ProxyError::NotInitialized));
    assert_eq!(proxy.set_admin("GOTHER"), Err(ProxyError::NotInitialized));
}

#[test]
fn upgrades_and_admin_changes_are_recorded() {
    let mut proxy = ProxyState::new();
    proxy.initialize(ADMIN, [1u8; 32]).unwrap();
    proxy.upgrade([9u8; 32]).unwrap();
    assert_eq!(proxy.get_implementation(), Ok([9u8; 32]));
    proxy.set_admin("GNEXT").unwrap();
    assert_eq!(proxy.get_admin(), Ok("GNEXT".to_string()));
    assert_eq!(proxy.get_implementation(), Ok([9u8; 32]));
}
