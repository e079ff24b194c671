//! The result aggregator: what a set of results adds up to.

use crate::address::Target;
use crate::config::NetworkScanner;
use crate::probe::ScanResult;
use vstd::prelude::*;

verus! {

/// A summary of a set of results.
#[derive(Clone, Copy, Debug, PartialEq, Eq)]
pub struct ScanStats {
    pub total_hosts: usize,
    pub alive_hosts: usize,
    /// The share of the hosts that are alive, in hundredths of a percent and
    /// rounded down: 5000 is 50 %. It is 0 where there are no hosts at all.
    pub success_rate: u32,
    /// The mean round-trip time of the alive hosts, in nanoseconds and
    /// rounded down. There is none where no host is alive.
    pub average_rtt: Option<u64>,
}

/// How many of the results are alive.
pub open spec fn alive_count(results: Seq<ScanResult>) -> nat
    decreases results.len(),
{
    if results.len() == 0 {
        0
    } else {
        alive_count(results.drop_last()) + if results.last().alive {
            1nat
        } else {
            0nat
        }
    }
}

/// The round-trip time that a result adds to the mean: that of an alive host.
pub open spec fn rtt_of(result: ScanResult) -> nat {
    match result.rtt {
        Some(rtt) => if result.alive {
            rtt as nat
        } else {
            0
        },
        None => 0,
    }
}

/// The sum of the round-trip times of the alive hosts.
pub open spec fn rtt_total(results: Seq<ScanResult>) -> nat
    decreases results.len(),
{
    if results.len() == 0 {
        0
    } else {
        rtt_total(results.drop_last()) + rtt_of(results.last())
    }
}

/// The addresses of the alive hosts, in the order of the results.
pub open spec fn alive_targets(results: Seq<ScanResult>) -> Seq<Target>
    decreases results.len(),
{
    if results.len() == 0 {
        Seq::empty()
    } else if results.last().alive {
        alive_targets(results.drop_last()).push(results.last().ip)
    } else {
        alive_targets(results.drop_last())
    }
}

/// The share of `alive` in `total`, in hundredths of a percent.
pub open spec fn success_rate(alive: nat, total: nat) -> nat {
    if total == 0 {
        0
    } else {
        alive * 10000 / total
    }
}

/// The summary of `results`.
pub open spec fn stats_of(results: Seq<ScanResult>) -> ScanStats {
    let alive = alive_count(results);
    ScanStats {
        total_hosts: results.len() as usize,
        alive_hosts: alive as usize,
        success_rate: success_rate(alive, results.len()) as u32,
        average_rtt: if alive == 0 {
            None
        } else {
            Some((rtt_total(results) / alive) as u64)
        },
    }
}

/// The alive hosts are some of the hosts, and the sum of their round-trip
/// times is at most as many times the longest time that can be held.
pub proof fn lemma_totals_bounded(results: Seq<ScanResult>)
    ensures
        alive_count(results) <= results.len(),
        rtt_total(results) <= alive_count(results) * u64::MAX,
        alive_targets(results).len() == alive_count(results),
    decreases results.len(),
{
    if results.len() > 0 {
        lemma_totals_bounded(results.drop_last());
        assert((alive_count(results.drop_last()) + 1) * u64::MAX == alive_count(
            results.drop_last(),
        ) * u64::MAX + u64::MAX) by (nonlinear_arith);
    }
}

/// The numbers of a summary are in range: the rate is at most 100 %, and
/// the mean is a time that some host could have had.
pub proof fn lemma_stats_in_range(results: Seq<ScanResult>)
    ensures
        success_rate(alive_count(results), results.len()) <= 10000,
        alive_count(results) > 0 ==> rtt_total(results) / alive_count(results) <= u64::MAX,
{
    lemma_totals_bounded(results);
    let alive = alive_count(results);
    let total = results.len();
    if total > 0 {
        assert(alive * 10000 / total <= 10000) by (nonlinear_arith)
            requires
                alive <= total,
                total > 0,
        ;
    }
    if alive > 0 {
        let sum = rtt_total(results);
        assert(sum / alive <= u64::MAX) by (nonlinear_arith)
            requires
                sum <= alive * u64::MAX,
                alive > 0,
        ;
    }
}

/// The summary of no results at all: a success rate of 0 and no average
/// round-trip time.
pub proof fn lemma_stats_of_nothing()
    ensures
        stats_of(Seq::empty()) == (ScanStats {
            total_hosts: 0,
            alive_hosts: 0,
            success_rate: 0,
            average_rtt: None,
        }),
{
}

/// How many hosts a second had their result after `elapsed` nanoseconds,
/// rounded down and as far as the number can be held.
pub open spec fn throughput(completed: nat, elapsed: nat) -> nat {
    let rate = completed * 1_000_000_000 / elapsed;
    if rate <= u64::MAX {
        rate
    } else {
        u64::MAX as nat
    }
}

/// The throughput of a scan that has `completed` results after `elapsed`
/// nanoseconds; none where no time has passed.
pub fn hosts_per_second(completed: usize, elapsed: u64) -> (rate: Option<u64>)
    ensures
        elapsed == 0 ==> rate is None,
        elapsed > 0 ==> rate == Some(throughput(completed as nat, elapsed as nat) as u64),
{
    if elapsed == 0 {
        return None;
    }
    let scaled: u128 = (completed as u128) * 1_000_000_000u128;
    let rate: u128 = scaled / (elapsed as u128);
    if rate <= u64::MAX as u128 {
        Some(rate as u64)
    } else {
        Some(u64::MAX)
    }
}

impl NetworkScanner {
    /// The addresses of the alive hosts among `results`, in their order.
    pub fn alive_ips(results: &[ScanResult]) -> (ips: Vec<Target>)
        ensures
            ips@ == alive_targets(results@),
    {
        let mut ips: Vec<Target> = Vec::new();
        let mut i: usize = 0;
        while i < results.len()
            invariant
                0 <= i <= results.len(),
                ips@ == alive_targets(results@.take(i as int)),
            decreases results.len() - i,
        {
            proof {
                assert(results@.take(i + 1).drop_last() =~= results@.take(i as int));
            }
            if results[i].alive {
                ips.push(results[i].ip);
            }
            i = i + 1;
        }
        proof {
            assert(results@.take(results.len() as int) =~= results@);
        }
        ips
    }

    /// The summary of `results`. For no results at all the success rate is 0
    /// and there is no average round-trip time.
    pub fn get_stats(results: &[ScanResult]) -> (stats: ScanStats)
        ensures
            stats == stats_of(results@),
    {
        let total = results.len();
        let mut alive: usize = 0;
        let mut sum: u128 = 0;
        let mut i: usize = 0;
        while i < total
            invariant
                total == results.len(),
                0 <= i <= total,
                alive == alive_count(results@.take(i as int)),
                sum == rtt_total(results@.take(i as int)),
            decreases total - i,
        {
            proof {
                assert(results@.take(i + 1).drop_last() =~= results@.take(i as int));
                lemma_totals_bounded(results@.take(i as int));
                lemma_totals_bounded(results@.take(i + 1));
                let n = alive_count(results@.take(i + 1));
                assert(n * u64::MAX <= 0x1_0000_0000_0000_0000 * u64::MAX) by (nonlinear_arith)
                    requires
                        n <= 0x1_0000_0000_0000_0000,
                ;
            }
            if results[i].alive {
                alive = alive + 1;
                match results[i].rtt {
                    Some(rtt) => {
                        sum = sum + rtt as u128;
                    },
                    None => {},
                }
            }
            i = i + 1;
        }
        proof {
            assert(results@.take(total as int) =~= results@);
            lemma_totals_bounded(results@);
            lemma_stats_in_range(results@);
        }
        let success_rate: u32 = if total == 0 {
            0
        } else {
            ((alive as u128) * 10000 / (total as u128)) as u32
        };
        let average_rtt = if alive == 0 {
            None
        } else {
            Some((sum / (alive as u128)) as u64)
        };
        ScanStats { total_hosts: total, alive_hosts: alive, success_rate, average_rtt }
    }
}

} // verus!
