use vstd::prelude::*;

use crate::models::Subnet;
use crate::port_range::{PortRangeError, PortRangeFault};
use crate::scan_worker::ChannelSendFailure;
use crate::subnet_helpers::{ipv4_text, push_ipv4};
use crate::text::{decimal_text, push_decimal};

verus! {

/// The errors of a scan run, as plain values.
pub enum AppFault {
    NoRuntimeProvided,
    ChannelSend(ChannelSendFailure),
    ArgumentCountMismatch(usize, usize),
    SubnetParse(Seq<char>),
    PortRangeParse(PortRangeFault),
}

/// The errors of a scan run.
#[derive(Debug)]
pub enum AppErrors {
    /// The app was built without a runtime to run on.
    NoRuntimeProvidedError,
    /// A worker could not hand a result to its queue; only its subnet's
    /// scan stopped.
    IpScanResultChannelSendError(ChannelSendFailure),
    /// The lists of subnets and port ranges differ in length.
    ArgumentCountMismatch { subnets: usize, ports: usize },
    /// A subnet text is no IPv4 network in CIDR form; holds that text.
    SubnetParseError { subnet: String },
    /// A port range text was rejected.
    PortRangeParseError(PortRangeError),
}

impl View for AppErrors {
    type V = AppFault;

    open spec fn view(&self) -> AppFault {
        match self {
            AppErrors::NoRuntimeProvidedError => AppFault::NoRuntimeProvided,
            AppErrors::IpScanResultChannelSendError(f) => AppFault::ChannelSend(*f),
            AppErrors::ArgumentCountMismatch { subnets, ports } => AppFault::ArgumentCountMismatch(
                *subnets,
                *ports,
            ),
            AppErrors::SubnetParseError { subnet } => AppFault::SubnetParse(subnet@),
            AppErrors::PortRangeParseError(e) => AppFault::PortRangeParse(e@),
        }
    }
}

impl AppFault {
    /// The message that describes the error.
    pub open spec fn message(self) -> Seq<char> {
        match self {
            AppFault::NoRuntimeProvided => "A Tokio Runtime must be provided to setup the App"@,
            AppFault::ChannelSend(f) => "Unable to send scan result "@ + ipv4_text(f.result.ip)
                + seq![':'] + decimal_text(f.result.port as nat) + " over the queue of subnet "@
                + f.subnet.text(),
            AppFault::ArgumentCountMismatch(s, p) =>
                "Number of subnets and ports must be equal. subnets count was "@ + decimal_text(
                s as nat,
            ) + ", ports count was: "@ + decimal_text(p as nat),
            AppFault::SubnetParse(s) => "Unable to parse subnet: "@ + s,
            AppFault::PortRangeParse(f) => f.message(),
        }
    }
}

impl AppErrors {
    /// The message that describes the error.
    pub fn to_string(&self) -> (r: String)
        ensures
            r@ == self@.message(),
    {
        match self {
            AppErrors::NoRuntimeProvidedError => String::from_str(
                "A Tokio Runtime must be provided to setup the App",
            ),
            AppErrors::IpScanResultChannelSendError(f) => {
                let mut m = String::from_str("Unable to send scan result ");
                push_ipv4(&mut m, f.result.ip);
                m.append(":");
                push_decimal(&mut m, f.result.port as u64);
                m.append(" over the queue of subnet ");
                let subnet: Subnet = f.subnet;
                let text = subnet.to_string();
                m.append(text.as_str());
                proof {
                    reveal_strlit(":");
                }
                m
            },
            AppErrors::ArgumentCountMismatch { subnets, ports } => {
                let mut m = String::from_str(
                    "Number of subnets and ports must be equal. subnets count was ",
                );
                push_decimal(&mut m, *subnets as u64);
                m.append(", ports count was: ");
                push_decimal(&mut m, *ports as u64);
                m
            },
            AppErrors::SubnetParseError { subnet } => {
                let mut m = String::from_str("Unable to parse subnet: ");
                m.append(subnet.as_str());
                m
            },
            AppErrors::PortRangeParseError(e) => e.to_string(),
        }
    }
}

} // verus!
