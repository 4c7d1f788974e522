use op_cache::order::{compare_bytes, compare_keys, Order};

#[test]
fn keys_compare_as_str_does() {
    let keys = ["", "a", "ab", "b", "Z", "é", "\u{1f}", "zz", "z"];
    for a in keys {
        for b in keys {
            let expected = match a.cmp(b) {
                std::cmp::Ordering::Less => Order::Less,
                std::cmp::Ordering::Equal => Order::Equal,
                std::cmp::Ordering::Greater => Order::Greater,
            };
            assert_eq!(compare_keys(a, b), expected, "{a:?} {b:?}");
        }
    }
    assert_eq!(compare_bytes(b"ab", b"abc"), Order::Less);
    assert_eq!(compare_bytes(b"b", b"abc"), Order::Greater);
}
