use vstd::prelude::*;

verus! {

/// An IPv4 network written in CIDR form: an address and the length of its
/// network prefix. The address is kept as given, host bits included, and
/// the pair is the identity of a subnet throughout a scan.
#[derive(Clone, Copy, Debug, PartialEq, Eq, Structural, Hash)]
pub struct Subnet {
    pub addr: u32,
    pub prefix_len: u8,
}

impl Subnet {
    /// A prefix length of at most 32 bits.
    pub open spec fn wf(self) -> bool {
        self.prefix_len <= 32
    }
}

/// The scan of one subnet over the ports `begin_port .. end_port`.
#[derive(Clone, Copy, Debug, PartialEq, Eq, Structural)]
pub struct SubnetScanConfiguration {
    pub subnet: Subnet,
    pub begin_port: u16,
    pub end_port: u16,
}

impl SubnetScanConfiguration {
    /// A valid subnet and a begin port not above the end port.
    pub open spec fn wf(self) -> bool {
        self.subnet.wf() && self.begin_port <= self.end_port
    }

    /// Whether the configuration is valid.
    pub fn is_valid(&self) -> (r: bool)
        ensures
            r == self.wf(),
    {
        self.subnet.prefix_len <= 32 && self.begin_port <= self.end_port
    }

    /// The number of ports probed on each host.
    pub open spec fn port_count(self) -> nat {
        (self.end_port - self.begin_port) as nat
    }
}

/// The outcome of one probe.
#[derive(Clone, Copy, Debug, PartialEq, Eq, Structural)]
pub enum PortState {
    /// A connection was made before the timeout.
    Open,
    /// The host refused the connection before the timeout.
    Closed,
    /// Nothing definite happened before the timeout.
    TimeOut,
}

/// The state of one port of one host.
#[derive(Clone, Copy, Debug, PartialEq, Eq, Structural)]
pub struct IpPortScanResult {
    pub ip: u32,
    pub port: u16,
    pub state: PortState,
}

/// The command line of a scan: subnets and port ranges, paired by position.
pub struct PortScannerArgs {
    pub subnets: Vec<String>,
    pub ports: Vec<String>,
}

/// The state that a connection attempt ends in: `None` when it timed out,
/// `Some(true)` when it connected, `Some(false)` when it was refused.
pub open spec fn port_state_spec(outcome: Option<bool>) -> PortState {
    match outcome {
        None => PortState::TimeOut,
        Some(true) => PortState::Open,
        Some(false) => PortState::Closed,
    }
}

/// The result of probing `port` on `ip`, from how the timed connection
/// attempt ended (see `port_state_spec`).
pub fn scan_result_from_probe(ip: u32, port: u16, outcome: Option<bool>) -> (r: IpPortScanResult)
    ensures
        r == (IpPortScanResult { ip, port, state: port_state_spec(outcome) }),
{
    let state = match outcome {
        None => PortState::TimeOut,
        Some(true) => PortState::Open,
        Some(false) => PortState::Closed,
    };
    IpPortScanResult { ip, port, state }
}

} // verus!
