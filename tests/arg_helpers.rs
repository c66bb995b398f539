use humble_port_scanner::arg_helpers::prepare_subnets_and_port_ranges;
use humble_port_scanner::errors::AppErrors;
use humble_port_scanner::models::{Subnet, SubnetScanConfiguration};
use humble_port_scanner::port_range::{parse_port_ranges, PortRangeError};
use humble_port_scanner::subnet_helpers::parse_subnet;

fn strings(v: &[&str]) -> Vec<String> {
    v.iter().map(|s| String::from(*s)).collect()
}

#[test]
fn parse_port_ranges_test() {
    assert_eq!(
        (5000_u16, 8000_u16),
        parse_port_ranges(String::from("5000:8000")).unwrap()
    );

    assert_eq!(
        "Port ranges should be seperated in following format: [begin_port]:[end_port]",
        parse_port_ranges(String::from("garBage"))
            .err()
            .unwrap()
            .to_string()
    );

    assert_eq!(
        format!("Unable to parse the begining of port range: {}", "garBage"),
        parse_port_ranges(String::from("garBage:5000"))
            .err()
            .unwrap()
            .to_string()
    );

    assert_eq!(
        format!("Unable to parse the end of port range: {}", "garBage"),
        parse_port_ranges(String::from("5000:garBage"))
            .err()
            .unwrap()
            .to_string()
    );

    assert_eq!(
        format!("Begin port {} is bigger than the end port {}", 8000, 5000),
        parse_port_ranges(String::from("8000:5000"))
            .err()
            .unwrap()
            .to_string()
    );
}

#[test]
fn prepare_subnets_and_port_ranges_test() {
    let configs = prepare_subnets_and_port_ranges(
        strings(&["127.0.0.1/32", "10.0.0.0/30"]),
        strings(&["9000:9001", "22:25"]),
    )
    .unwrap();
    assert_eq!(
        configs,
        vec![
            SubnetScanConfiguration {
                subnet: Subnet { addr: 0x7f00_0001, prefix_len: 32 },
                begin_port: 9000,
                end_port: 9001,
            },
            SubnetScanConfiguration {
                subnet: Subnet { addr: 0x0a00_0000, prefix_len: 30 },
                begin_port: 22,
                end_port: 25,
            },
        ]
    );
}

#[test]
fn prepare_rejects_unequal_lists_before_reading_them() {
    let r = prepare_subnets_and_port_ranges(
        strings(&["127.0.0.1/32", "garBage"]),
        strings(&["9000:9001"]),
    );
    match r {
        Err(AppErrors::ArgumentCountMismatch { subnets, ports }) => {
            assert_eq!((subnets, ports), (2, 1));
        }
        _ => panic!("expected a count mismatch"),
    }
    assert_eq!(
        r.err().unwrap().to_string(),
        "Number of subnets and ports must be equal. subnets count was 2, ports count was: 1"
    );
}

#[test]
fn prepare_reports_the_first_failing_pair() {
    let r = prepare_subnets_and_port_ranges(
        strings(&["10.0.0.0/8", "garBage", "10.1.0.0/16"]),
        strings(&["1:2", "3:4", "9:8"]),
    );
    assert_eq!(r.err().unwrap().to_string(), "Unable to parse subnet: garBage");

    let r = prepare_subnets_and_port_ranges(
        strings(&["10.0.0.0/8", "10.1.0.0/16"]),
        strings(&["1:2", "9:8"]),
    );
    match r {
        Err(AppErrors::PortRangeParseError(PortRangeError::BeginAfterEnd { begin, end })) => {
            assert_eq!((begin, end), (9, 8));
        }
        _ => panic!("expected a port range error"),
    }
}

#[test]
fn prepare_of_empty_lists_is_empty() {
    assert_eq!(
        prepare_subnets_and_port_ranges(Vec::new(), Vec::new()).unwrap(),
        Vec::<SubnetScanConfiguration>::new()
    );
}

#[test]
fn port_range_edges() {
    assert_eq!(parse_port_ranges(String::from("0:65535")).unwrap(), (0, 65535));
    assert_eq!(parse_port_ranges(String::from("7:7")).unwrap(), (7, 7));
    assert_eq!(parse_port_ranges(String::from("+80:0081")).unwrap(), (80, 81));
    assert_eq!(parse_port_ranges(String::from("1:2:3")).err().unwrap().to_string(),
        "Unable to parse the end of port range: 2:3");
    assert!(matches!(
        parse_port_ranges(String::from("5000:65536")),
        Err(PortRangeError::InvalidEndPort { .. })
    ));
    assert!(matches!(
        parse_port_ranges(String::from("+:1")),
        Err(PortRangeError::InvalidBeginPort { .. })
    ));
    assert!(matches!(
        parse_port_ranges(String::from("-1:1")),
        Err(PortRangeError::InvalidBeginPort { .. })
    ));
}

#[test]
fn each_malformed_range_has_its_own_error() {
    assert!(matches!(parse_port_ranges(String::from("")), Err(PortRangeError::MissingSeparator)));
    assert_eq!(
        parse_port_ranges(String::from(":80")).err().unwrap().to_string(),
        "Empty port values given in the port range :80"
    );
    assert_eq!(
        parse_port_ranges(String::from("80:")).err().unwrap().to_string(),
        "Empty port values given in the port range 80:"
    );
    assert!(matches!(
        parse_port_ranges(String::from("a:80")),
        Err(PortRangeError::InvalidBeginPort { .. })
    ));
    assert!(matches!(
        parse_port_ranges(String::from("80:b")),
        Err(PortRangeError::InvalidEndPort { .. })
    ));
    assert!(matches!(
        parse_port_ranges(String::from("81:80")),
        Err(PortRangeError::BeginAfterEnd { begin: 81, end: 80 })
    ));
}

#[test]
fn well_formed_ranges_read_back() {
    for (b, e) in [(0u16, 0u16), (1, 10), (443, 8443), (9, 65535)] {
        assert_eq!(parse_port_ranges(format!("{}:{}", b, e)).unwrap(), (b, e));
    }
}

#[test]
fn parse_subnet_test() {
    assert_eq!(
        format!("Unable to parse subnet: {}", "garBage"),
        parse_subnet(String::from("garBage"))
            .err()
            .unwrap()
            .to_string()
    );

    assert_eq!(
        Subnet { addr: (172 << 24) | (16 << 16), prefix_len: 16 },
        parse_subnet(String::from("172.16.0.0/16")).unwrap()
    )
}

#[test]
fn subnet_parsing_keeps_host_bits_and_checks_prefix() {
    assert_eq!(
        parse_subnet(String::from("192.168.12.34/24")).unwrap(),
        Subnet { addr: 0xc0a8_0c22, prefix_len: 24 }
    );
    assert!(parse_subnet(String::from("10.0.0.0/33")).is_err());
    assert!(parse_subnet(String::from("10.0.0.0")).is_err());
    assert!(parse_subnet(String::from("10.0.0.256/8")).is_err());
}

#[test]
fn subnet_text() {
    assert_eq!(Subnet { addr: 0xac10_0000, prefix_len: 16 }.to_string(), "172.16.0.0/16");
    assert_eq!(Subnet { addr: 0xffff_ffff, prefix_len: 32 }.to_string(), "255.255.255.255/32");
    assert_eq!(Subnet { addr: 0, prefix_len: 0 }.to_string(), "0.0.0.0/0");
}

#[test]
fn app_error_messages() {
    assert_eq!(
        AppErrors::NoRuntimeProvidedError.to_string(),
        "A Tokio Runtime must be provided to setup the App"
    );
    assert_eq!(
        AppErrors::PortRangeParseError(PortRangeError::MissingSeparator).to_string(),
        "Port ranges should be seperated in following format: [begin_port]:[end_port]"
    );
}

#[test]
fn malformed_range_messages_differ() {
    let inputs = ["garBage", ":80", "x:80", "80:x", "81:80"];
    let messages: Vec<String> = inputs
        .iter()
        .map(|s| parse_port_ranges(String::from(*s)).err().unwrap().to_string())
        .collect();
    for i in 0..messages.len() {
        for j in (i + 1)..messages.len() {
            assert_ne!(messages[i], messages[j]);
        }
    }
}
