use ip2asn::ingest::{build_unpacked, ingest};
use ip2asn::source::{find_line_end, line_between, looks_gzipped};
use ip2asn::{Builder, Error, IoErrorKind, IpAddr, IpAsnMap, IpNetwork, ParseErrorKind, Warning};
use std::cell::RefCell;
use std::io::Write;

fn v4(a: u8, b: u8, c: u8, d: u8) -> IpAddr {
    IpAddr::V4(u32::from_be_bytes([a, b, c, d]))
}

fn block(a: u8, b: u8, c: u8, d: u8, prefix: u8) -> IpNetwork {
    IpNetwork::new(v4(a, b, c, d), prefix).unwrap()
}

fn build_plain(data: &str) -> IpAsnMap {
    Builder::new().with_source(data.as_bytes().to_vec()).unwrap().build().unwrap()
}

fn gzip(data: &[u8]) -> Vec<u8> {
    let mut encoder = flate2::write::GzEncoder::new(Vec::new(), flate2::Compression::default());
    encoder.write_all(data).unwrap();
    encoder.finish().unwrap()
}

fn collect_warnings(data: &[u8]) -> Vec<Warning> {
    let seen = RefCell::new(Vec::new());
    let map = Builder::new()
        .with_source(data.to_vec())
        .unwrap()
        .on_warning(|warning: Warning| seen.borrow_mut().push(warning))
        .build();
    assert!(map.is_ok());
    seen.into_inner()
}

#[test]
fn end_to_end_single_line() {
    let map = build_plain("1.0.0.0\t1.0.0.255\t13335\tUS\tCLOUDFLARENET");
    let info = map.lookup(v4(1, 0, 0, 100)).unwrap();
    assert_eq!(info.network, block(1, 0, 0, 0, 24));
    assert_eq!(info.asn, 13335);
    assert_eq!(info.country_code, "US");
    assert_eq!(info.organization, "CLOUDFLARENET");
    assert!(map.lookup(v4(1, 0, 1, 0)).is_none());
    assert!(map.lookup(v4(0, 255, 255, 255)).is_none());
    assert!(map.lookup(IpAddr::V6(0x0100_0064)).is_none());
}

#[test]
fn end_to_end_unknown_country() {
    let map = build_plain("1.0.0.0\t1.0.0.255\t13335\tNone\tCLOUDFLARENET");
    assert_eq!(map.lookup(v4(1, 0, 0, 1)).unwrap().country_code, "ZZ");
    let map = build_plain("1.0.0.0\t1.0.0.255\t13335\t\tCLOUDFLARENET");
    assert_eq!(map.lookup(v4(1, 0, 0, 1)).unwrap().country_code, "ZZ");
    let map = build_plain("1.0.0.0\t1.0.0.255\t13335\tUnknown\tCLOUDFLARENET");
    assert_eq!(map.lookup(v4(1, 0, 0, 1)).unwrap().country_code, "ZZ");
}

#[test]
fn longest_prefix_wins() {
    let data = "10.0.0.0\t10.255.255.255\t1\tUS\tWIDE\n10.1.0.0\t10.1.255.255\t2\tDE\tNARROW\n";
    let map = build_plain(data);
    let inner = map.lookup(v4(10, 1, 2, 3)).unwrap();
    assert_eq!(inner.network, block(10, 1, 0, 0, 16));
    assert_eq!(inner.asn, 2);
    assert_eq!(inner.organization, "NARROW");
    let outer = map.lookup(v4(10, 2, 0, 0)).unwrap();
    assert_eq!(outer.network, block(10, 0, 0, 0, 8));
    assert_eq!(outer.asn, 1);
    // the order of the lines does not matter
    let data = "10.1.0.0\t10.1.255.255\t2\tDE\tNARROW\n10.0.0.0\t10.255.255.255\t1\tUS\tWIDE\n";
    let map = build_plain(data);
    assert_eq!(map.lookup(v4(10, 1, 2, 3)).unwrap().asn, 2);
    assert_eq!(map.lookup(v4(10, 2, 0, 0)).unwrap().asn, 1);
}

#[test]
fn later_line_replaces_the_same_block() {
    let data = "8.8.8.0\t8.8.8.255\t1\tUS\tFIRST\n8.8.8.0\t8.8.8.255\t2\tDE\tSECOND\n";
    let map = build_plain(data);
    let info = map.lookup(v4(8, 8, 8, 8)).unwrap();
    assert_eq!(info.asn, 2);
    assert_eq!(info.country_code, "DE");
    assert_eq!(info.organization, "SECOND");
}

#[test]
fn ipv6_records_are_found() {
    let data = "2001:67c:2309::\t2001:67c:2309:ffff:ffff:ffff:ffff:ffff\t0\tNone\tNot routed\n1.1.1.0\t1.1.1.255\t13335\tUS\tCLOUDFLARENET\n";
    let map = build_plain(data);
    let info = map.lookup(IpAddr::V6(0x2001_067c_2309_0000_0000_0000_0000_0001)).unwrap();
    assert_eq!(
        info.network,
        IpNetwork::new(IpAddr::V6(0x2001_067c_2309 << 80), 48).unwrap()
    );
    assert_eq!(info.asn, 0);
    assert_eq!(info.country_code, "ZZ");
    assert_eq!(info.organization, "Not routed");
    assert!(map.lookup(IpAddr::V6(0x2001_067c_230a << 80)).is_none());
    assert_eq!(map.lookup(v4(1, 1, 1, 1)).unwrap().asn, 13335);
}

#[test]
fn unaligned_range_is_found_in_each_of_its_blocks() {
    let map = build_plain("10.0.0.1\t10.0.0.10\t64500\tNL\tEXAMPLE");
    assert!(map.lookup(v4(10, 0, 0, 0)).is_none());
    assert_eq!(map.lookup(v4(10, 0, 0, 1)).unwrap().network, block(10, 0, 0, 1, 32));
    assert_eq!(map.lookup(v4(10, 0, 0, 3)).unwrap().network, block(10, 0, 0, 2, 31));
    assert_eq!(map.lookup(v4(10, 0, 0, 7)).unwrap().network, block(10, 0, 0, 4, 30));
    assert_eq!(map.lookup(v4(10, 0, 0, 9)).unwrap().network, block(10, 0, 0, 8, 31));
    assert_eq!(map.lookup(v4(10, 0, 0, 10)).unwrap().network, block(10, 0, 0, 10, 32));
    assert!(map.lookup(v4(10, 0, 0, 11)).is_none());
}

#[test]
fn missing_source_is_an_io_error() {
    match Builder::new().build() {
        Err(Error::Io(error)) => {
            assert_eq!(error.kind, IoErrorKind::NotFound);
            assert_eq!(error.message, "No data source provided");
        }
        _ => panic!("expected an I/O error"),
    }
    assert!(matches!(IpAsnMap::builder().strict().build(), Err(Error::Io(_))));
}

#[test]
fn gzip_data_is_unpacked() {
    let plain = "1.0.0.0\t1.0.0.255\t13335\tUS\tCLOUDFLARENET\n8.8.8.0\t8.8.8.255\t15169\tUS\tGOOGLE\n";
    let packed = gzip(plain.as_bytes());
    assert!(looks_gzipped(&packed));
    assert!(!looks_gzipped(plain.as_bytes()));
    assert!(!looks_gzipped(&[0x1f]));
    assert!(!looks_gzipped(&[]));
    let map = Builder::new().with_source(packed).unwrap().build().unwrap();
    let info = map.lookup(v4(8, 8, 8, 8)).unwrap();
    assert_eq!(info.asn, 15169);
    assert_eq!(info.organization, "GOOGLE");
    assert_eq!(map.lookup(v4(1, 0, 0, 7)).unwrap().asn, 13335);
}

#[test]
fn broken_gzip_data_is_an_io_error() {
    let mut packed = gzip(b"1.0.0.0\t1.0.0.255\t13335\tUS\tCLOUDFLARENET\n");
    packed.truncate(packed.len() / 2);
    match Builder::new().with_source(packed).unwrap().build() {
        Err(Error::Io(error)) => assert_eq!(error.kind, IoErrorKind::InvalidData),
        _ => panic!("expected an I/O error"),
    }
    match Builder::new().with_source(vec![0x1f, 0x8b, 0xff, 0xff]).unwrap().build() {
        Err(Error::Io(error)) => assert_eq!(error.kind, IoErrorKind::InvalidData),
        _ => panic!("expected an I/O error"),
    }
    let none: Option<fn(Warning)> = None;
    assert!(matches!(build_unpacked(None, true, &none), Err(Error::Io(_))));
    let map = build_unpacked(Some(b"9.9.9.9\t9.9.9.9\t19281\tUS\tQUAD9".to_vec()), true, &none).unwrap();
    assert_eq!(map.lookup(v4(9, 9, 9, 9)).unwrap().asn, 19281);
}

#[test]
fn lines_end_with_or_without_carriage_return() {
    let data = "1.0.0.0\t1.0.0.255\t1\tUS\tONE\r\n\r\n# comment\r\n2.0.0.0\t2.0.0.255\t2\tUS\tTWO";
    let map = Builder::new().with_source(data.as_bytes().to_vec()).unwrap().strict().build().unwrap();
    assert_eq!(map.lookup(v4(1, 0, 0, 1)).unwrap().organization, "ONE");
    assert_eq!(map.lookup(v4(2, 0, 0, 1)).unwrap().organization, "TWO");
    // a carriage return at the end of the data belongs to the last line
    let data = "2.0.0.0\t2.0.0.255\t2\tUS\tTWO\r";
    let map = build_plain(data);
    assert_eq!(map.lookup(v4(2, 0, 0, 1)).unwrap().organization, "TWO\r");
    let bytes = b"ab\r\ncd\n\nef";
    assert_eq!(find_line_end(bytes, 0), 3);
    assert_eq!(line_between(bytes, 0, 3), b"ab");
    assert_eq!(find_line_end(bytes, 4), 6);
    assert_eq!(line_between(bytes, 4, 6), b"cd");
    assert_eq!(find_line_end(bytes, 7), 7);
    assert_eq!(line_between(bytes, 7, 7), b"");
    assert_eq!(find_line_end(bytes, 8), 10);
    assert_eq!(line_between(bytes, 8, 10), b"ef");
}

#[test]
fn bytes_that_are_no_text_end_the_build() {
    let mut data = b"1.0.0.0\t1.0.0.255\t1\tUS\tONE\n".to_vec();
    data.extend_from_slice(&[0xff, 0xfe, b'\n']);
    data.extend_from_slice(b"2.0.0.0\t2.0.0.255\t2\tUS\tTWO\n");
    match Builder::new().with_source(data.clone()).unwrap().build() {
        Err(Error::Io(error)) => {
            assert_eq!(error.kind, IoErrorKind::InvalidData);
            assert_eq!(error.message, "stream did not contain valid UTF-8");
        }
        _ => panic!("expected an I/O error"),
    }
    // a line before it that cannot be read comes first in strict mode
    let mut data = b"broken\n".to_vec();
    data.extend_from_slice(&[0xff, b'\n']);
    match Builder::new().with_source(data).unwrap().strict().build() {
        Err(Error::Parse { line_number, .. }) => assert_eq!(line_number, 1),
        _ => panic!("expected a parse error"),
    }
}

#[test]
fn strict_mode_names_line_text_and_reason() {
    let data = "# header\n\n1.0.0.0\t1.0.0.255\t1\tUS\tONE\n1.0.0.0\t::1\t13335\tUS\tMIXED\n";
    match Builder::new().with_source(data.as_bytes().to_vec()).unwrap().strict().build() {
        Err(Error::Parse { line_number, line_content, kind }) => {
            assert_eq!(line_number, 4);
            assert_eq!(line_content, "1.0.0.0\t::1\t13335\tUS\tMIXED");
            assert_eq!(kind, ParseErrorKind::IpFamilyMismatch);
        }
        _ => panic!("expected a parse error"),
    }
}

#[test]
fn strict_mode_without_bad_lines_builds() {
    let data = "1.0.0.0\t1.0.0.255\t1\tUS\tONE\n";
    let map = Builder::new().with_source(data.as_bytes().to_vec()).unwrap().strict().build().unwrap();
    assert_eq!(map.lookup(v4(1, 0, 0, 0)).unwrap().asn, 1);
}

#[test]
fn warnings_tell_line_and_reason() {
    let data = "1.0.0.0\t1.0.0.255\t1\tUS\tONE\ninvalid line format\n# comment\n1.0.0.0\t::1\t2\tUS\tMIXED\n\n3.0.0.0\t3.0.0.255\tx\tUS\tTHREE\n";
    let warnings = collect_warnings(data.as_bytes());
    assert_eq!(warnings.len(), 3);
    match &warnings[0] {
        Warning::Parse { line_number, line_content, message } => {
            assert_eq!(*line_number, 2);
            assert_eq!(line_content, "invalid line format");
            assert_eq!(message, "expected 5 columns, but found 1");
        }
        _ => panic!("expected a parse warning"),
    }
    match &warnings[1] {
        Warning::IpFamilyMismatch { line_number, line_content } => {
            assert_eq!(*line_number, 4);
            assert_eq!(line_content, "1.0.0.0\t::1\t2\tUS\tMIXED");
        }
        _ => panic!("expected a family mismatch"),
    }
    match &warnings[2] {
        Warning::Parse { line_number, message, .. } => {
            assert_eq!(*line_number, 6);
            assert_eq!(message, "invalid ASN: x");
        }
        _ => panic!("expected a parse warning"),
    }
}

#[test]
fn resilient_mode_without_callback_skips_bad_lines() {
    let data = "garbage\n1.0.0.0\t1.0.0.255\t1\tUS\tONE\nmore garbage\n";
    let map = build_plain(data);
    assert_eq!(map.lookup(v4(1, 0, 0, 9)).unwrap().asn, 1);
    assert_eq!(map.describe(), "IpAsnMap { organizations: 1, .. }");
}

#[test]
fn strict_mode_sends_no_warning() {
    let seen = RefCell::new(0usize);
    let result = Builder::new()
        .with_source(b"garbage\n".to_vec())
        .unwrap()
        .on_warning(|_warning: Warning| *seen.borrow_mut() += 1)
        .strict()
        .build();
    assert!(result.is_err());
    assert_eq!(*seen.borrow(), 0);
}

#[test]
fn empty_data_builds_an_empty_map() {
    let map = build_plain("");
    assert!(map.lookup(v4(1, 1, 1, 1)).is_none());
    assert!(map.lookup(IpAddr::V6(1)).is_none());
    assert_eq!(map.describe(), "IpAsnMap { organizations: 0, .. }");
    let map = IpAsnMap::default();
    assert!(map.lookup(v4(0, 0, 0, 0)).is_none());
    assert!(map.lookup(IpAddr::V6(u128::MAX)).is_none());
    assert!(map.lookup_owned(v4(255, 255, 255, 255)).is_none());
}

#[test]
fn organizations_are_numbered_once() {
    let data = "1.0.0.0\t1.0.0.255\t1\tUS\tSAME\n2.0.0.0\t2.0.0.255\t2\tUS\tOTHER\n3.0.0.0\t3.0.0.255\t3\tUS\tSAME\n";
    let map = build_plain(data);
    assert_eq!(map.describe(), "IpAsnMap { organizations: 2, .. }");
    assert_eq!(map.lookup(v4(3, 0, 0, 1)).unwrap().organization, "SAME");
    assert_eq!(map.lookup(v4(2, 0, 0, 1)).unwrap().organization, "OTHER");
}

#[test]
fn ingest_reads_lines_directly() {
    let none: Option<fn(Warning)> = None;
    let map = ingest(b"1.0.0.0\t1.0.0.255\t1\tUS\tONE\nbad\n", false, &none).unwrap();
    assert_eq!(map.lookup(v4(1, 0, 0, 1)).unwrap().asn, 1);
    assert!(matches!(
        ingest(b"1.0.0.0\t1.0.0.255\t1\tUS\tONE\nbad\n", true, &none),
        Err(Error::Parse { line_number: 2, .. })
    ));
}

#[test]
fn full_range_line_answers_everywhere() {
    let map = build_plain("0.0.0.0\t255.255.255.255\t7\tUS\tALL");
    assert_eq!(map.lookup(v4(0, 0, 0, 0)).unwrap().network, block(0, 0, 0, 0, 1));
    assert_eq!(map.lookup(v4(127, 255, 255, 255)).unwrap().network, block(0, 0, 0, 0, 1));
    assert_eq!(map.lookup(v4(128, 0, 0, 0)).unwrap().network, block(128, 0, 0, 0, 1));
    assert_eq!(map.lookup(v4(255, 255, 255, 255)).unwrap().network, block(128, 0, 0, 0, 1));
}

#[test]
fn builder_in_a_few_words() {
    assert_eq!(
        Builder::new().describe(),
        "Builder { source: None, strict: false, on_warning: None }"
    );
    let builder = Builder::new()
        .with_source(Vec::new())
        .unwrap()
        .strict()
        .on_warning(|_warning: Warning| {});
    assert_eq!(
        builder.describe(),
        "Builder { source: Some(\"Some(...)\"), strict: true, on_warning: Some(\"Some(...)\") }"
    );
}
