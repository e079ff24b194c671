//! What a scan is configured with, and the scanner that is built from it.

use crate::address::Target;
use crate::coordinator::{Coordinator, CoordinatorView};
use crate::enumerate::{
    enumerate_range, range_enumeration, sorted_unique, strictly_ascending, EnumerateError,
};
use crate::probe::{Probe, ProbeView};
use vstd::prelude::*;
use vstd::string::*;

verus! {

/// The per-host timeout that a scanner starts with: 500 ms, in nanoseconds.
pub const DEFAULT_TIMEOUT: u64 = 500_000_000;

/// After how many results a scan with progress has a progress line due.
pub const PROGRESS_INTERVAL: usize = 25;

/// The ports that a scanner starts with, in the order in which they are tried.
pub open spec fn default_ports() -> Seq<u16> {
    seq![22u16, 23u16, 53u16, 80u16, 135u16, 139u16, 443u16, 445u16, 993u16, 995u16]
}

/// The concurrency limit that a scanner starts with on a machine with `cpus`
/// logical processors: eight probes for each, as far as the number can be held.
pub open spec fn default_concurrency(cpus: nat) -> nat {
    if cpus * 8 <= usize::MAX {
        cpus * 8
    } else {
        usize::MAX as nat
    }
}

/// Scanner configuration. Times are in nanoseconds.
#[derive(Debug)]
pub struct Config {
    /// The first three octets of the network, written as `a.b.c`.
    pub subnet: String,
    /// The time that the probe of one host may take, over all its ports.
    pub timeout: u64,
    /// The most probes that may be in flight at once.
    pub max_concurrent: usize,
    /// The first host octet of the range.
    pub start_ip: u8,
    /// The last host octet of the range.
    pub end_ip: u8,
    /// The candidate ports, in the order in which they are tried.
    pub ports: Vec<u16>,
}

/// A configuration as a mathematical value.
pub struct ConfigView {
    pub subnet: Seq<char>,
    pub timeout: u64,
    pub max_concurrent: usize,
    pub start_ip: u8,
    pub end_ip: u8,
    pub ports: Seq<u16>,
}

impl ConfigView {
    /// What a scan needs of its configuration: a slot to run a probe in, a
    /// port to try and time to try it in.
    pub open spec fn valid(self) -> bool {
        &&& self.max_concurrent >= 1
        &&& self.ports.len() >= 1
        &&& self.timeout >= 1
    }
}

impl View for Config {
    type V = ConfigView;

    open spec fn view(&self) -> ConfigView {
        ConfigView {
            subnet: self.subnet@,
            timeout: self.timeout,
            max_concurrent: self.max_concurrent,
            start_ip: self.start_ip,
            end_ip: self.end_ip,
            ports: self.ports@,
        }
    }
}

/// Calls `num_cpus::get`: the number of logical processors that this process
/// may use. It differs from machine to machine, so nothing is said of it but
/// what the function documents of every machine: it is at least 1.
#[verifier::external_body]
fn logical_cpus() -> (n: usize)
    ensures
        n >= 1,
{
    num_cpus::get()
}

/// The concurrency limit for a machine with `cpus` logical processors.
pub fn concurrency_for(cpus: usize) -> (limit: usize)
    ensures
        limit == default_concurrency(cpus as nat),
{
    match cpus.checked_mul(8) {
        Some(limit) => limit,
        None => usize::MAX,
    }
}

impl Default for Config {
    /// The hosts 1 to 254 of 10.0.0, the default ports and timeout, and a
    /// concurrency limit that goes by the machine.
    fn default() -> (c: Config)
        ensures
            c@.subnet == "10.0.0"@,
            c@.timeout == DEFAULT_TIMEOUT,
            c@.start_ip == 1,
            c@.end_ip == 254,
            c@.ports == default_ports(),
            exists|cpus: nat| cpus >= 1 && c@.max_concurrent == default_concurrency(cpus),
            c@.valid(),
    {
        let cpus = logical_cpus();
        let ports: Vec<u16> = vec![22, 23, 53, 80, 135, 139, 443, 445, 993, 995];
        Config {
            subnet: "10.0.0".to_owned(),
            timeout: DEFAULT_TIMEOUT,
            max_concurrent: concurrency_for(cpus),
            start_ip: 1,
            end_ip: 254,
            ports,
        }
    }
}

impl Clone for Config {
    fn clone(&self) -> (c: Config)
        ensures
            c@ == self@,
    {
        let ports = self.ports.clone();
        Config {
            subnet: self.subnet.clone(),
            timeout: self.timeout,
            max_concurrent: self.max_concurrent,
            start_ip: self.start_ip,
            end_ip: self.end_ip,
            ports,
        }
    }
}

impl Config {
    /// Whether a scan can be made with this configuration.
    pub fn is_valid(&self) -> (r: bool)
        ensures
            r == self@.valid(),
    {
        self.max_concurrent >= 1 && self.ports.len() >= 1 && self.timeout >= 1
    }
}

/// Why a scan did not begin: its targets could not be enumerated.
#[derive(Clone, Copy, Debug, PartialEq, Eq, Structural)]
pub struct DispatchError {
    pub cause: EnumerateError,
}

impl DispatchError {
    /// What went wrong and how to put it right, for the user.
    pub fn message(&self) -> (m: String)
        ensures
            m@ == self.cause.message_text(),
    {
        self.cause.message()
    }
}

/// A scanner of the hosts of one network.
#[derive(Debug)]
pub struct NetworkScanner {
    config: Config,
}

impl View for NetworkScanner {
    type V = ConfigView;

    closed spec fn view(&self) -> ConfigView {
        self.config@
    }
}

impl Clone for NetworkScanner {
    fn clone(&self) -> (s: NetworkScanner)
        ensures
            s@ == self@,
    {
        NetworkScanner { config: self.config.clone() }
    }
}

impl NetworkScanner {
    /// A scanner of `subnet` with the default configuration.
    pub fn new(subnet: &str) -> (s: NetworkScanner)
        ensures
            s@.subnet == subnet@,
            s@.timeout == DEFAULT_TIMEOUT,
            s@.start_ip == 1,
            s@.end_ip == 254,
            s@.ports == default_ports(),
            exists|cpus: nat| cpus >= 1 && s@.max_concurrent == default_concurrency(cpus),
            s@.valid(),
    {
        let mut config = Config::default();
        config.subnet = subnet.to_owned();
        NetworkScanner { config }
    }

    /// A scanner with the given configuration.
    pub fn with_config(config: Config) -> (s: NetworkScanner)
        ensures
            s@ == config@,
    {
        NetworkScanner { config }
    }

    /// The configuration.
    pub fn config(&self) -> (c: &Config)
        ensures
            c@ == self@,
    {
        &self.config
    }

    /// Sets the most probes that may be in flight at once.
    pub fn max_concurrent(self, max: usize) -> (s: NetworkScanner)
        ensures
            s@ == (ConfigView { max_concurrent: max, ..self@ }),
    {
        let mut s = self;
        s.config.max_concurrent = max;
        s
    }

    /// Sets the time that the probe of one host may take, in nanoseconds.
    pub fn timeout(self, timeout: u64) -> (s: NetworkScanner)
        ensures
            s@ == (ConfigView { timeout, ..self@ }),
    {
        let mut s = self;
        s.config.timeout = timeout;
        s
    }

    /// Sets the first and the last host octet of the range.
    pub fn ip_range(self, start: u8, end: u8) -> (s: NetworkScanner)
        ensures
            s@ == (ConfigView { start_ip: start, end_ip: end, ..self@ }),
    {
        let mut s = self;
        s.config.start_ip = start;
        s.config.end_ip = end;
        s
    }

    /// Sets the candidate ports, in the order in which they are tried.
    pub fn ports(self, ports: Vec<u16>) -> (s: NetworkScanner)
        ensures
            s@ == (ConfigView { ports: ports@, ..self@ }),
    {
        let mut s = self;
        s.config.ports = ports;
        s
    }

    /// Begins the probe of one host: its ports are tried in the configured
    /// order, within the configured timeout for all of them together.
    pub fn test_host(&self, ip: Target) -> (p: Probe)
        requires
            self@.valid(),
        ensures
            p@ == ProbeView::begin(ip, self@.ports, self@.timeout),
            p@.wf(),
    {
        Probe::new(ip, self.config.ports.clone(), self.config.timeout)
    }

    /// Begins a scan of the configured range that reports progress: a
    /// progress line is due after every 25 results and after the last.
    pub fn scan_with_progress(&self) -> (r: Result<Coordinator, DispatchError>)
        requires
            self@.valid(),
        ensures
            match range_enumeration(self@.subnet, self@.start_ip, self@.end_ip) {
                Ok(targets) => r matches Ok(c) && c@ == CoordinatorView::begin(
                    targets,
                    self@.max_concurrent as nat,
                    PROGRESS_INTERVAL as nat,
                ) && c@.wf(),
                Err(e) => r matches Err(d) && d.cause == e,
            },
    {
        self.begin_scan(PROGRESS_INTERVAL)
    }

    /// Begins a scan of the configured range, without progress lines.
    pub fn scan(&self) -> (r: Result<Coordinator, DispatchError>)
        requires
            self@.valid(),
        ensures
            match range_enumeration(self@.subnet, self@.start_ip, self@.end_ip) {
                Ok(targets) => r matches Ok(c) && c@ == CoordinatorView::begin(
                    targets,
                    self@.max_concurrent as nat,
                    0,
                ) && c@.wf(),
                Err(e) => r matches Err(d) && d.cause == e,
            },
    {
        self.begin_scan(0)
    }

    fn begin_scan(&self, report_every: usize) -> (r: Result<Coordinator, DispatchError>)
        requires
            self@.valid(),
        ensures
            match range_enumeration(self@.subnet, self@.start_ip, self@.end_ip) {
                Ok(targets) => r matches Ok(c) && c@ == CoordinatorView::begin(
                    targets,
                    self@.max_concurrent as nat,
                    report_every as nat,
                ) && c@.wf(),
                Err(e) => r matches Err(d) && d.cause == e,
            },
    {
        match enumerate_range(
            self.config.subnet.as_str(),
            self.config.start_ip,
            self.config.end_ip,
        ) {
            Ok(targets) => Ok(Coordinator::new(targets, self.config.max_concurrent, report_every)),
            Err(cause) => Err(DispatchError { cause }),
        }
    }

    /// Begins a scan of the given hosts, without progress lines. The hosts are
    /// put in ascending order, and each is scanned once however often it is
    /// given. Nothing can go wrong in that.
    pub fn scan_hosts(&self, hosts: Vec<Target>) -> (r: Result<Coordinator, DispatchError>)
        requires
            self@.valid(),
        ensures
            r matches Ok(c) && c@.wf() && c@ == CoordinatorView::begin(
                c@.targets,
                self@.max_concurrent as nat,
                0,
            ) && strictly_ascending(c@.targets) && forall|x: Target|
                c@.targets.contains(x) <==> hosts@.contains(x),
    {
        let targets = sorted_unique(&hosts);
        Ok(Coordinator::new(targets, self.config.max_concurrent, 0))
    }
}

} // verus!
