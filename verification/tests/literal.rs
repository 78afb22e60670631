use ip2asn::literal::{read_ip, read_ipv4, read_ipv6};
use ip2asn::text::{read_number, read_u32, separators, to_chars};
use ip2asn::IpAddr;

fn chars(text: &str) -> Vec<char> {
    text.chars().collect()
}

fn expect4(text: &str) -> Option<u32> {
    if text.contains('/') {
        return None;
    }
    format!("{}/32", text)
        .parse::<ip_network::Ipv4Network>()
        .ok()
        .map(|net| u32::from(net.network_address()))
}

fn expect6(text: &str) -> Option<u128> {
    if text.contains('/') {
        return None;
    }
    format!("{}/128", text)
        .parse::<ip_network::Ipv6Network>()
        .ok()
        .map(|net| u128::from(net.network_address()))
}

const SAMPLES: &[&str] = &[
    "",
    " ",
    "0.0.0.0",
    "255.255.255.255",
    "1.2.3.4",
    "127.0.0.1",
    "10.0.0.1 ",
    " 10.0.0.1",
    "1.2.3",
    "1.2.3.4.5",
    "1.2.3.",
    ".1.2.3",
    "1..2.3",
    "256.0.0.0",
    "1.2.3.256",
    "01.2.3.4",
    "1.02.3.4",
    "1.2.3.04",
    "00.0.0.0",
    "0.0.0.00",
    "1.2.3.4a",
    "1.2.3.-4",
    "+1.2.3.4",
    "1.2.3.0x4",
    "1111.2.3.4",
    "1.2.3.1000",
    "999.999.999.999",
    "١.2.3.4",
    "::",
    "::1",
    "1::",
    ":::",
    "::::",
    ":",
    ":1",
    "1:",
    "1::2",
    "1:::2",
    "1::2::3",
    "::1:2:3:4:5:6:7",
    "::1:2:3:4:5:6:7:8",
    "1:2:3:4:5:6:7::",
    "1:2:3:4:5:6:7:8::",
    "1:2:3:4:5:6::8",
    "1:2:3:4:5:6:7:8",
    "1:2:3:4:5:6:7",
    "1:2:3:4:5:6:7:8:9",
    "2001:db8::1",
    "2001:DB8::A:b",
    "2001:0db8:0000:0000:0000:0000:0000:0001",
    "2001:db8:0:0:0:0:0:00001",
    "2001:db8::12345",
    "2001:db8::g",
    "2001:db8:: 1",
    "fe80::1%eth0",
    "[::1]",
    "::ffff:1.2.3.4",
    "::1.2.3.4",
    "::ffff:1.2.3.256",
    "::ffff:1.2.3",
    "::ffff:01.2.3.4",
    "::1.2.3.4:5",
    "1.2.3.4::",
    "1.2.3.4::1",
    "1:2:3:4:5:6:1.2.3.4",
    "1:2:3:4:5:6:7:1.2.3.4",
    "1:2:3:4:5:1.2.3.4",
    "1:2:3:4:5::1.2.3.4",
    "1:2:3:4:5:6::1.2.3.4",
    "1::2:3:4:5:1.2.3.4",
    "1::2:3:4:5:6:1.2.3.4",
    "::1:2:3:4:5:1.2.3.4",
    "::1:2:3:4:5:6:1.2.3.4",
    "::1.2.3.4.5",
    "1.2.3.4:1::",
    "ffff:ffff:ffff:ffff:ffff:ffff:ffff:ffff",
    "ffff:ffff:ffff:ffff:ffff:ffff:255.255.255.255",
    "0:0:0:0:0:0:0:0",
    "0::0",
    "::0",
    "a:b:c:d:e:f:0:1",
    "A:B:C:D:E:F:0:1",
    "1:2:3:4:5:6:7:",
    ":1:2:3:4:5:6:7",
    "1:2:3:4::5:6:7:8",
    "1:2:3::4:5:6:7",
    "::2:3:4:5:6:7:8",
    "1:2:3:4:5:6:7::8",
    "-1::",
    "+1::",
    "0x1::",
    "1::2.3.4",
    "::.1.2.3",
    "::1.2.3.",
    "2001:db8::/32",
    "1.2.3.4/24",
];

#[test]
fn ip_literals_agree_with_the_network_crate() {
    for text in SAMPLES {
        let text_chars = chars(text);
        assert_eq!(read_ipv4(&text_chars), expect4(text), "IPv4 {:?}", text);
        assert_eq!(read_ipv6(&text_chars), expect6(text), "IPv6 {:?}", text);
        let either = match (expect4(text), expect6(text)) {
            (Some(v), _) => Some(IpAddr::V4(v)),
            (None, Some(v)) => Some(IpAddr::V6(v)),
            (None, None) => None,
        };
        assert_eq!(read_ip(&text_chars), either, "{:?}", text);
    }
}

#[test]
fn ipv4_literal_values() {
    assert_eq!(read_ipv4(&chars("1.2.3.4")), Some(0x0102_0304));
    assert_eq!(read_ipv4(&chars("0.0.0.0")), Some(0));
    assert_eq!(read_ipv4(&chars("255.255.255.255")), Some(u32::MAX));
    assert_eq!(read_ipv4(&chars("192.168.1.10")), Some(0xc0a8_010a));
    assert_eq!(read_ipv4(&chars("192.168.01.10")), None);
    assert_eq!(read_ipv4(&chars("192.168.1")), None);
}

#[test]
fn ipv6_literal_values() {
    assert_eq!(read_ipv6(&chars("::")), Some(0));
    assert_eq!(read_ipv6(&chars("::1")), Some(1));
    assert_eq!(read_ipv6(&chars("1::")), Some(1 << 112));
    assert_eq!(
        read_ipv6(&chars("2001:db8::ff00:42:8329")),
        Some(0x2001_0db8_0000_0000_0000_ff00_0042_8329)
    );
    assert_eq!(
        read_ipv6(&chars("1:2:3:4:5:6:7:8")),
        Some(0x0001_0002_0003_0004_0005_0006_0007_0008)
    );
    assert_eq!(read_ipv6(&chars("::ffff:1.2.3.4")), Some(0xffff_0102_0304));
    assert_eq!(
        read_ipv6(&chars("1:2:3:4:5:6:7.8.9.10")),
        Some(0x0001_0002_0003_0004_0005_0006_0708_090a)
    );
    assert_eq!(read_ipv6(&chars("1:2:3:4:5:6:7")), None);
    assert_eq!(read_ipv6(&chars("1::2::3")), None);
}

#[test]
fn ip_literal_picks_the_family() {
    assert_eq!(read_ip(&chars("8.8.8.8")), Some(IpAddr::V4(0x0808_0808)));
    assert_eq!(read_ip(&chars("::8.8.8.8")), Some(IpAddr::V6(0x0808_0808)));
    assert_eq!(read_ip(&chars("not-an-ip")), None);
}

#[test]
fn numbers_are_read_digit_by_digit() {
    assert_eq!(read_number(&chars("255"), 10, 255), Some(255));
    assert_eq!(read_number(&chars("256"), 10, 255), None);
    assert_eq!(read_number(&chars("ff"), 16, 0xffff), Some(255));
    assert_eq!(read_number(&chars("FfFf"), 16, 0xffff), Some(0xffff));
    assert_eq!(read_number(&chars("ff"), 10, 0xffff), None);
    assert_eq!(read_number(&chars(""), 10, 0xffff), Some(0));
    assert_eq!(read_number(&chars("12g"), 16, 0xffff), None);
    assert_eq!(read_u32(&chars("4294967295")), Some(u32::MAX));
    assert_eq!(read_u32(&chars("4294967296")), None);
    assert_eq!(read_u32(&chars("+0")), Some(0));
    assert_eq!(read_u32(&chars("")), None);
}

#[test]
fn text_is_cut_at_each_separator() {
    let text = chars("a\t\tb\t");
    assert_eq!(separators(&text, '\t'), vec![1, 2, 4]);
    assert_eq!(separators(&chars(""), '\t'), Vec::<usize>::new());
    assert_eq!(to_chars("héllo"), vec!['h', 'é', 'l', 'l', 'o']);
    let cuts = separators(&text, '\t');
    let pieces: Vec<String> = (0..=cuts.len())
        .map(|k| ip2asn::text::piece(&text, '\t', &cuts, k).iter().collect())
        .collect();
    assert_eq!(pieces, vec!["a", "", "b", ""]);
}

struct Lcg(u64);

impl Lcg {
    fn next(&mut self) -> u64 {
        self.0 = self.0.wrapping_mul(6364136223846793005).wrapping_add(1442695040888963407);
        self.0 >> 11
    }

    fn below(&mut self, bound: u64) -> u64 {
        self.next() % bound
    }
}

fn agree(text: &str) {
    let text_chars = chars(text);
    assert_eq!(read_ipv4(&text_chars), expect4(text), "IPv4 {:?}", text);
    assert_eq!(read_ipv6(&text_chars), expect6(text), "IPv6 {:?}", text);
}

#[test]
fn random_texts_agree_with_the_network_crate() {
    let alphabet: Vec<char> = "0123456789abcdefABCDEF::::....g +x".chars().collect();
    let mut random = Lcg(0x1234_5678_9abc_def0);
    for _ in 0..40_000 {
        let len = random.below(24) as usize;
        let text: String =
            (0..len).map(|_| alphabet[random.below(alphabet.len() as u64) as usize]).collect();
        agree(&text);
    }
}

#[test]
fn random_address_shapes_agree_with_the_network_crate() {
    let mut random = Lcg(0x0fed_cba9_8765_4321);
    let group = |random: &mut Lcg| -> String {
        match random.below(12) {
            0 => String::new(),
            1 => "0".to_string(),
            2 => format!("{:05x}", random.below(0x10_0000)),
            3 => format!("{:04X}", random.below(0x1_0000)),
            4 => format!("0{:x}", random.below(0x1000)),
            5 => format!("{}.{}.{}.{}", random.below(300), random.below(256), random.below(256), random.below(256)),
            6 => format!("{}.{}.{}", random.below(256), random.below(256), random.below(256)),
            _ => format!("{:x}", random.below(0x1_0000)),
        }
    };
    for _ in 0..40_000 {
        let count = 1 + random.below(9) as usize;
        let mut text = String::new();
        for index in 0..count {
            if index > 0 {
                text.push_str(if random.below(6) == 0 { "::" } else { ":" });
            }
            text.push_str(&group(&mut random));
        }
        if random.below(8) == 0 {
            text.insert_str(0, "::");
        }
        if random.below(8) == 0 {
            text.push_str("::");
        }
        agree(&text);
    }
    for _ in 0..20_000 {
        let octet = |random: &mut Lcg| -> String {
            match random.below(10) {
                0 => String::new(),
                1 => format!("0{}", random.below(100)),
                2 => format!("{}", random.below(1000)),
                3 => format!("{:x}", random.below(256)),
                _ => format!("{}", random.below(256)),
            }
        };
        let count = 3 + random.below(3) as usize;
        let text: Vec<String> = (0..count).map(|_| octet(&mut random)).collect();
        agree(&text.join("."));
    }
}
