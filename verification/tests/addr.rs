use libbacnet::stack::addr::BacnetAddr;
use std::collections::HashMap;


#[test]
fn test_bacnet_addr_equality() {
    let a = BacnetAddr::new([192, 168, 1, 1], 47808);
    let b = BacnetAddr::new([192, 168, 1, 1], 47808);
    let c = BacnetAddr::new([192, 168, 1, 2], 47808);
    assert_eq!(a, b);
    assert_ne!(a, c);
}

#[test]
fn test_bacnet_addr_display() {
    let a = BacnetAddr::new([10, 0, 0, 1], 47808);
    assert_eq!(a.to_string(), "10.0.0.1:47808");
}

#[test]
fn test_bacnet_addr_hash() {
    let mut map = HashMap::new();
    let addr = BacnetAddr::new([1, 2, 3, 4], 47808);
    map.insert(addr, 42u8);
    assert_eq!(map[&addr], 42);
}
