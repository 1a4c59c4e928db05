use libbacnet::services::who_is::{encode_who_is, encode_who_is_router_to_network};


#[test]
fn test_who_is_no_range() {
    let buf = encode_who_is(None);
    assert!(buf.is_empty());
}

#[test]
fn test_who_is_with_range() {
    // range 0..=4194302
    let buf = encode_who_is(Some((0, 4_194_302)));
    // context[0] low=0: tag=0x09 (tag0, ctx, len1), 0x00
    assert_eq!(buf[0], 0x09);
    assert_eq!(buf[1], 0x00);
    // context[1] high=4194302: tag1, ctx, len 3 bytes (0x3F FFFE)
    assert_eq!(buf[2], 0x1B); // tag1, context, len3
    assert_eq!(buf[3], 0x3F);
    assert_eq!(buf[4], 0xFF);
    assert_eq!(buf[5], 0xFE);
}

#[test]
fn test_who_is_with_small_range() {
    let buf = encode_who_is(Some((10, 20)));
    assert_eq!(buf[0], 0x09); // tag0, ctx, len1
    assert_eq!(buf[1], 10);
    assert_eq!(buf[2], 0x19); // tag1, ctx, len1
    assert_eq!(buf[3], 20);
}

#[test]
fn test_who_is_router_to_network_all() {
    let buf = encode_who_is_router_to_network(None);
    assert_eq!(buf, [0x00]);
}

#[test]
fn test_who_is_router_to_network_specific() {
    let buf = encode_who_is_router_to_network(Some(5));
    assert_eq!(buf, [0x00, 0x00, 0x05]);
}

#[test]
fn test_who_is_router_to_network_large() {
    let buf = encode_who_is_router_to_network(Some(0xABCD));
    assert_eq!(buf, [0x00, 0xAB, 0xCD]);
}
