use vstd::prelude::*;

use crate::errors::{AppErrors, AppFault};
use crate::models::{Subnet, SubnetScanConfiguration};
use crate::port_range::{parse_port_ranges, port_range_spec, range_result_view};
use crate::subnet_helpers::{cidr_of, parse_subnet};

verus! {

/// The configuration read from one subnet text and one port range text,
/// or the first error met: the subnet is read first.
pub open spec fn pair_spec(subnet: Seq<char>, port_range: Seq<char>) -> Result<
    SubnetScanConfiguration,
    AppFault,
> {
    match cidr_of(subnet) {
        None => Err(AppFault::SubnetParse(subnet)),
        Some((addr, prefix_len)) => match port_range_spec(port_range) {
            Err(f) => Err(AppFault::PortRangeParse(f)),
            Ok((begin_port, end_port)) => Ok(
                SubnetScanConfiguration {
                    subnet: Subnet { addr, prefix_len },
                    begin_port,
                    end_port,
                },
            ),
        },
    }
}

/// The configurations read pair by pair from equally long lists, or the
/// error of the first pair that fails.
pub open spec fn pairs_spec(subnets: Seq<Seq<char>>, port_ranges: Seq<Seq<char>>) -> Result<
    Seq<SubnetScanConfiguration>,
    AppFault,
>
    decreases subnets.len(),
{
    if subnets.len() == 0 || port_ranges.len() == 0 {
        Ok(Seq::empty())
    } else {
        match pairs_spec(subnets.drop_last(), port_ranges.drop_last()) {
            Err(e) => Err(e),
            Ok(configs) => match pair_spec(subnets.last(), port_ranges.last()) {
                Err(e) => Err(e),
                Ok(c) => Ok(configs.push(c)),
            },
        }
    }
}

/// The texts of a list of strings.
pub open spec fn texts(v: Seq<String>) -> Seq<Seq<char>> {
    v.map_values(|s: String| s@)
}

/// What reading the command line gives: a count mismatch when the lists
/// differ in length, else the pairwise reading.
pub open spec fn prepare_spec(subnets: Seq<Seq<char>>, port_ranges: Seq<Seq<char>>) -> Result<
    Seq<SubnetScanConfiguration>,
    AppFault,
> {
    if subnets.len() != port_ranges.len() {
        Err(AppFault::ArgumentCountMismatch(subnets.len() as usize, port_ranges.len() as usize))
    } else {
        pairs_spec(subnets, port_ranges)
    }
}

/// The view of the result of reading the command line.
pub open spec fn prepare_result_view(r: Result<Vec<SubnetScanConfiguration>, AppErrors>) -> Result<
    Seq<SubnetScanConfiguration>,
    AppFault,
> {
    match r {
        Ok(v) => Ok(v@),
        Err(e) => Err(e@),
    }
}

/// Reads the subnets and the port ranges of the command line, paired by
/// position, into scan configurations.
pub fn prepare_subnets_and_port_ranges(subnets: Vec<String>, port_ranges: Vec<String>) -> (r: Result<
    Vec<SubnetScanConfiguration>,
    AppErrors,
>)
    ensures
        prepare_result_view(r) == prepare_spec(texts(subnets@), texts(port_ranges@)),
        r is Ok ==> forall|i: int| 0 <= i < r->Ok_0@.len() ==> (#[trigger] r->Ok_0@[i]).wf(),
{
    if subnets.len() != port_ranges.len() {
        return Err(
            AppErrors::ArgumentCountMismatch { subnets: subnets.len(), ports: port_ranges.len() },
        );
    }
    let ghost ss = texts(subnets@);
    let ghost ps = texts(port_ranges@);
    let mut configs: Vec<SubnetScanConfiguration> = Vec::new();
    let mut i: usize = 0;
    while i < subnets.len()
        invariant
            i <= subnets.len() == port_ranges.len(),
            ss == texts(subnets@),
            ps == texts(port_ranges@),
            pairs_spec(ss.take(i as int), ps.take(i as int)) == Ok::<_, AppFault>(configs@),
            forall|j: int| 0 <= j < configs@.len() ==> (#[trigger] configs@[j]).wf(),
        decreases subnets.len() - i,
    {
        let ghost prev = pairs_spec(ss.take(i as int), ps.take(i as int));
        assert(ss.take(i + 1).drop_last() =~= ss.take(i as int));
        assert(ps.take(i + 1).drop_last() =~= ps.take(i as int));
        assert(ss.take(i + 1).last() == subnets@[i as int]@);
        assert(ps.take(i + 1).last() == port_ranges@[i as int]@);
        let subnet = match parse_subnet(subnets[i].clone()) {
            Ok(net) => net,
            Err(e) => {
                proof {
                    lemma_pairs_prefix_error(ss, ps, i as int + 1);
                }
                return Err(e);
            },
        };
        let (begin_port, end_port) = match parse_port_ranges(port_ranges[i].clone()) {
            Ok(p) => p,
            Err(e) => {
                proof {
                    lemma_pairs_prefix_error(ss, ps, i as int + 1);
                }
                return Err(AppErrors::PortRangeParseError(e));
            },
        };
        configs.push(SubnetScanConfiguration { subnet, begin_port, end_port });
        i = i + 1;
    }
    assert(ss.take(i as int) =~= ss);
    assert(ps.take(i as int) =~= ps);
    Ok(configs)
}

proof fn lemma_pairs_prefix_error(ss: Seq<Seq<char>>, ps: Seq<Seq<char>>, n: int)
    requires
        0 < n <= ss.len() == ps.len(),
        pairs_spec(ss.take(n), ps.take(n)) is Err,
    ensures
        pairs_spec(ss, ps) == pairs_spec(ss.take(n), ps.take(n)),
    decreases ss.len() - n,
{
    if n < ss.len() {
        assert(ss.take(n + 1).drop_last() =~= ss.take(n));
        assert(ps.take(n + 1).drop_last() =~= ps.take(n));
        lemma_pairs_prefix_error(ss, ps, n + 1);
    } else {
        assert(ss.take(n) =~= ss);
        assert(ps.take(n) =~= ps);
    }
}

} // verus!
