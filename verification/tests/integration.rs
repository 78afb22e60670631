use ip2asn::{Builder, Error, IpAddr, IpAsnMap, IpNetwork, ParseErrorKind, Warning};
use std::sync::atomic::{AtomicUsize, Ordering};
use std::sync::Arc;

const TEST_DATA: &str = r#"
1.0.0.0	1.0.0.255	13335	US	CLOUDFLARENET
1.0.1.0	1.0.3.255	38040	AU	GTELECOM
1.0.4.0	1.0.5.255	56203	CN	CNNIC
# Add a duplicate organization to test the interner
8.8.8.0	8.8.8.255	15169	US	GTELECOM
"#;

fn ip(a: u8, b: u8, c: u8, d: u8) -> IpAddr {
    IpAddr::V4(u32::from_be_bytes([a, b, c, d]))
}

fn net(a: u8, b: u8, c: u8, d: u8, prefix: u8) -> IpNetwork {
    IpNetwork::new(ip(a, b, c, d), prefix).unwrap()
}

#[test]
fn test_builder_and_lookup() {
    let map: IpAsnMap = Builder::new()
        .with_source(TEST_DATA.as_bytes().to_vec())
        .unwrap()
        .build()
        .unwrap();

    // IP in the middle of a range
    let result1 = map.lookup(ip(1, 0, 0, 100)).unwrap();
    assert_eq!(result1.network, net(1, 0, 0, 0, 24));
    assert_eq!(result1.asn, 13335);
    assert_eq!(result1.country_code, "US");
    assert_eq!(result1.organization, "CLOUDFLARENET");

    // IP at the start of a range
    let result2 = map.lookup(ip(1, 0, 1, 0)).unwrap();
    assert_eq!(result2.network, net(1, 0, 1, 0, 24));
    assert_eq!(result2.asn, 38040);
    assert_eq!(result2.country_code, "AU");
    assert_eq!(result2.organization, "GTELECOM");

    // IP at the end of a range
    let result3 = map.lookup(ip(1, 0, 3, 255)).unwrap();
    assert_eq!(result3.network, net(1, 0, 2, 0, 23));
    assert_eq!(result3.asn, 38040);
    assert_eq!(result3.country_code, "AU");
    assert_eq!(result3.organization, "GTELECOM");

    // IP not in any range
    let result4 = map.lookup(ip(127, 0, 0, 1));
    assert!(result4.is_none());

    // Check interned string
    let result5 = map.lookup(ip(8, 8, 8, 8)).unwrap();
    assert_eq!(result5.network, net(8, 8, 8, 0, 24));
    assert_eq!(result5.asn, 15169);
    assert_eq!(result5.country_code, "US");
    assert_eq!(result5.organization, "GTELECOM");
    // Check that the organization string is the same instance as result2
    assert_eq!(result2.organization, result5.organization);
    assert!(std::ptr::eq(result2.organization, result5.organization));
}

const MALFORMED_DATA: &str = r#"
# This line is a comment and should be skipped
1.0.0.0	1.0.0.255	13335	US	CLOUDFLARENET
1.0.1.0	1.0.3.255	38040	AU	GTELECOM
invalid line format
1.0.4.0	1.0.5.255	not-a-number	CN	CNNIC
# Another comment
8.8.8.0	8.8.8.255	15169	US	GTELECOM
"#;

#[test]
fn test_builder_strict_mode() {
    let result = Builder::new()
        .with_source(MALFORMED_DATA.as_bytes().to_vec())
        .unwrap()
        .strict()
        .build();

    assert!(result.is_err());
    match result {
        Err(Error::Parse {
            line_number,
            line_content,
            kind,
        }) => {
            assert_eq!(line_number, 5);
            assert_eq!(line_content, "invalid line format");
            assert_eq!(
                kind,
                ParseErrorKind::IncorrectColumnCount {
                    expected: 5,
                    found: 1
                }
            );
        }
        _ => panic!("Expected a Parse error"),
    }
}

#[test]
fn test_builder_warning_callback() {
    let warning_count = Arc::new(AtomicUsize::new(0));
    let warning_count_clone = warning_count.clone();

    let callback = move |warning: Warning| {
        println!("Warning received: {:?}", warning);
        warning_count_clone.fetch_add(1, Ordering::SeqCst);
    };

    let map = Builder::new()
        .with_source(MALFORMED_DATA.as_bytes().to_vec())
        .unwrap()
        .on_warning(callback)
        .build()
        .unwrap();

    // Check that the valid data was still loaded
    let result = map.lookup(ip(1, 0, 0, 100)).unwrap();
    assert_eq!(result.asn, 13335);

    // Check that the correct number of warnings were issued
    assert_eq!(warning_count.load(Ordering::SeqCst), 2);
}

#[test]
fn test_new_empty_map() {
    let map = IpAsnMap::new();

    // Assert that a lookup for any IP address returns None.
    let ip = ip(192, 0, 2, 1);
    assert!(map.lookup(ip).is_none());

    // Verify the Debug representation is reasonable.
    let debug_repr = map.describe();
    assert_eq!(debug_repr, "IpAsnMap { organizations: 0, .. }");
}

#[test]
fn test_lookup_owned() {
    let map: IpAsnMap = Builder::new()
        .with_source(TEST_DATA.as_bytes().to_vec())
        .unwrap()
        .build()
        .unwrap();

    let result = map.lookup_owned(ip(1, 0, 2, 10)).unwrap();
    assert_eq!(result.network, net(1, 0, 2, 0, 23));
    assert_eq!(result.asn, 38040);
    assert_eq!(result.country_code, "AU");
    assert_eq!(result.organization, "GTELECOM");

    // Test a miss
    assert!(map.lookup_owned(ip(127, 0, 0, 1)).is_none());
}
