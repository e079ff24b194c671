use network_scanner::address::Target;
use network_scanner::config::NetworkScanner;
use network_scanner::probe::ScanResult;
use network_scanner::stats::{hosts_per_second, ScanStats};

fn ip(d: u8) -> Target {
    Target::new(10, 0, 0, d)
}

fn dead(d: u8) -> ScanResult {
    ScanResult { ip: ip(d), alive: false, rtt: None, open_port: None }
}

fn alive(d: u8, port: u16, rtt: u64) -> ScanResult {
    ScanResult { ip: ip(d), alive: true, rtt: Some(rtt), open_port: Some(port) }
}

#[test]
fn stats_of_no_results_have_rate_zero_and_no_average() {
    let stats = NetworkScanner::get_stats(&[]);
    assert_eq!(
        stats,
        ScanStats { total_hosts: 0, alive_hosts: 0, success_rate: 0, average_rtt: None }
    );
}

#[test]
fn stats_of_two_alive_in_four() {
    let results = vec![alive(1, 443, 4_000_000), dead(2), alive(3, 443, 6_000_000), dead(4)];
    let stats = NetworkScanner::get_stats(&results);
    assert_eq!(stats.total_hosts, 4);
    assert_eq!(stats.alive_hosts, 2);
    assert_eq!(stats.success_rate, 5000);
    assert_eq!(stats.average_rtt, Some(5_000_000));
}

#[test]
fn success_rate_is_rounded_down_to_hundredths_of_a_percent() {
    let results = vec![alive(1, 80, 10), dead(2), dead(3)];
    assert_eq!(NetworkScanner::get_stats(&results).success_rate, 3333);
    let results =
        vec![alive(1, 80, 10), alive(2, 80, 10), alive(3, 80, 10), dead(4), dead(5), dead(6), dead(7)];
    assert_eq!(NetworkScanner::get_stats(&results).success_rate, 4285);
}

#[test]
fn all_alive_is_one_hundred_percent() {
    let results = vec![alive(1, 22, 7), alive(2, 22, 9)];
    let stats = NetworkScanner::get_stats(&results);
    assert_eq!(stats.success_rate, 10000);
    assert_eq!(stats.average_rtt, Some(8));
}

#[test]
fn none_alive_has_no_average() {
    let results = vec![dead(1), dead(2), dead(3)];
    let stats = NetworkScanner::get_stats(&results);
    assert_eq!(
        stats,
        ScanStats { total_hosts: 3, alive_hosts: 0, success_rate: 0, average_rtt: None }
    );
}

#[test]
fn average_is_over_the_alive_hosts_only_and_rounded_down() {
    let results = vec![alive(1, 80, 10), dead(2), alive(3, 80, 11), dead(4), alive(5, 80, 13)];
    let stats = NetworkScanner::get_stats(&results);
    assert_eq!(stats.alive_hosts, 3);
    assert_eq!(stats.average_rtt, Some(11));
    assert_eq!(stats.success_rate, 6000);
}

#[test]
fn a_time_on_a_host_that_is_not_alive_does_not_count() {
    let stray = ScanResult { ip: ip(2), alive: false, rtt: Some(1_000), open_port: None };
    let results = vec![alive(1, 80, 10), stray];
    let stats = NetworkScanner::get_stats(&results);
    assert_eq!(stats.alive_hosts, 1);
    assert_eq!(stats.average_rtt, Some(10));
}

#[test]
fn the_longest_times_do_not_overflow_the_average() {
    let results = vec![alive(1, 80, u64::MAX), alive(2, 80, u64::MAX), alive(3, 80, u64::MAX - 3)];
    let stats = NetworkScanner::get_stats(&results);
    assert_eq!(stats.average_rtt, Some(u64::MAX - 1));
}

#[test]
fn alive_ips_keeps_the_alive_hosts_in_order() {
    let results = vec![alive(1, 443, 4), dead(2), alive(3, 443, 6), dead(4), alive(9, 80, 1)];
    assert_eq!(NetworkScanner::alive_ips(&results), vec![ip(1), ip(3), ip(9)]);
}

#[test]
fn alive_ips_of_no_alive_hosts_is_empty() {
    assert_eq!(NetworkScanner::alive_ips(&[]), Vec::<Target>::new());
    assert_eq!(NetworkScanner::alive_ips(&[dead(1), dead(2)]), Vec::<Target>::new());
}

#[test]
fn throughput_is_hosts_per_second() {
    assert_eq!(hosts_per_second(254, 2_000_000_000), Some(127));
    assert_eq!(hosts_per_second(25, 100_000_000), Some(250));
    assert_eq!(hosts_per_second(1, 3_000_000_000), Some(0));
    assert_eq!(hosts_per_second(10, 3_000_000_000), Some(3));
    assert_eq!(hosts_per_second(0, 5), Some(0));
}

#[test]
fn throughput_without_elapsed_time_is_none() {
    assert_eq!(hosts_per_second(0, 0), None);
    assert_eq!(hosts_per_second(254, 0), None);
}

#[test]
fn throughput_is_held_at_the_largest_number() {
    assert_eq!(hosts_per_second(usize::MAX, 1), Some(u64::MAX));
    assert_eq!(hosts_per_second(1, 1), Some(1_000_000_000));
}
