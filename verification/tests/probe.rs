use network_scanner::address::Target;
use network_scanner::probe::{Attempt, Probe, ProbeAction, ScanResult};

const MS: u64 = 1_000_000;

fn host() -> Target {
    Target::new(10, 0, 0, 7)
}

fn dead(ip: Target) -> ScanResult {
    ScanResult { ip, alive: false, rtt: None, open_port: None }
}

fn alive(ip: Target, port: u16, rtt: u64) -> ScanResult {
    ScanResult { ip, alive: true, rtt: Some(rtt), open_port: Some(port) }
}

#[test]
fn first_attempt_gets_an_even_share_of_the_budget() {
    let probe = Probe::new(host(), vec![22, 80, 443], 300 * MS);
    assert_eq!(probe.next_action(), ProbeAction::Connect { port: 22, timeout: 100 * MS });
    assert_eq!(probe.result(), None);
}

#[test]
fn default_budget_over_ten_ports_is_50_ms_each() {
    let ports = vec![22, 23, 53, 80, 135, 139, 443, 445, 993, 995];
    let probe = Probe::new(host(), ports, 500 * MS);
    assert_eq!(probe.next_action(), ProbeAction::Connect { port: 22, timeout: 50 * MS });
}

#[test]
fn connection_on_the_first_port_ends_the_probe() {
    let mut probe = Probe::new(host(), vec![80, 443], 300 * MS);
    probe.record(Attempt::Connected, 3 * MS);
    assert_eq!(probe.result(), Some(alive(host(), 80, 3 * MS)));
    assert_eq!(probe.next_action(), ProbeAction::Done(alive(host(), 80, 3 * MS)));
}

#[test]
fn first_match_wins_over_a_later_listening_port() {
    let mut probe = Probe::new(host(), vec![22, 80, 443], 300 * MS);
    assert_eq!(probe.next_action(), ProbeAction::Connect { port: 22, timeout: 100 * MS });
    probe.record(Attempt::Failed, MS);
    assert_eq!(probe.next_action(), ProbeAction::Connect { port: 80, timeout: 149_500_000 });
    probe.record(Attempt::Connected, 2 * MS);
    let found = alive(host(), 80, 2 * MS);
    assert_eq!(probe.next_action(), ProbeAction::Done(found));
    probe.record(Attempt::Connected, 3 * MS);
    assert_eq!(probe.next_action(), ProbeAction::Done(found));
    assert_eq!(probe.result(), Some(found));
}

#[test]
fn every_port_closed_is_reported_dead() {
    let mut probe = Probe::new(host(), vec![80, 443], 300 * MS);
    assert_eq!(probe.next_action(), ProbeAction::Connect { port: 80, timeout: 150 * MS });
    probe.record(Attempt::Failed, 150 * MS);
    assert_eq!(probe.next_action(), ProbeAction::Connect { port: 443, timeout: 150 * MS });
    probe.record(Attempt::Failed, 300 * MS);
    let result = probe.result().unwrap();
    assert_eq!(result, dead(host()));
    assert!(!result.alive);
    assert_eq!(result.open_port, None);
    assert_eq!(result.rtt, None);
    assert_eq!(probe.next_action(), ProbeAction::Done(dead(host())));
}

#[test]
fn quick_refusals_leave_more_time_for_the_ports_that_follow() {
    let mut probe = Probe::new(host(), vec![1, 2, 3, 4], 400 * MS);
    assert_eq!(probe.next_action(), ProbeAction::Connect { port: 1, timeout: 100 * MS });
    probe.record(Attempt::Failed, 10 * MS);
    assert_eq!(probe.next_action(), ProbeAction::Connect { port: 2, timeout: 130 * MS });
    probe.record(Attempt::Failed, 20 * MS);
    assert_eq!(probe.next_action(), ProbeAction::Connect { port: 3, timeout: 190 * MS });
    probe.record(Attempt::Failed, 210 * MS);
    assert_eq!(probe.next_action(), ProbeAction::Connect { port: 4, timeout: 190 * MS });
}

#[test]
fn no_attempt_begins_once_the_budget_is_spent() {
    let mut probe = Probe::new(host(), vec![80, 443, 8080], 300 * MS);
    probe.record(Attempt::Failed, 300 * MS);
    assert_eq!(probe.next_action(), ProbeAction::Done(dead(host())));
    let mut late = Probe::new(host(), vec![80, 443, 8080], 300 * MS);
    late.record(Attempt::Failed, 100 * MS);
    late.record(Attempt::Failed, 450 * MS);
    assert_eq!(late.result(), Some(dead(host())));
}

#[test]
fn an_attempt_never_outlasts_the_budget() {
    let budget = 300 * MS;
    let mut probe = Probe::new(host(), vec![1, 2, 3, 4, 5, 6, 7], budget);
    let mut now = 0;
    let mut tried = Vec::new();
    loop {
        match probe.next_action() {
            ProbeAction::Connect { port, timeout } => {
                assert!(now < budget);
                assert!(now + timeout <= budget);
                tried.push(port);
                now += timeout;
                probe.record(Attempt::Failed, now);
            }
            ProbeAction::Done(result) => {
                assert_eq!(result, dead(host()));
                break;
            }
        }
    }
    assert!(now <= budget);
    assert_eq!(tried, vec![1, 2, 3, 4, 5, 6, 7]);
}

#[test]
fn a_late_connection_is_reported_with_its_own_time() {
    let mut probe = Probe::new(host(), vec![80], 100 * MS);
    assert_eq!(probe.next_action(), ProbeAction::Connect { port: 80, timeout: 100 * MS });
    probe.record(Attempt::Connected, 104 * MS);
    assert_eq!(probe.result(), Some(alive(host(), 80, 104 * MS)));
}

#[test]
fn a_finished_probe_takes_no_more_answers() {
    let mut probe = Probe::new(host(), vec![80], 100 * MS);
    probe.record(Attempt::Failed, 5 * MS);
    assert_eq!(probe.result(), Some(dead(host())));
    probe.record(Attempt::Connected, 6 * MS);
    assert_eq!(probe.result(), Some(dead(host())));
}

#[test]
fn a_budget_smaller_than_the_number_of_ports_gives_empty_shares() {
    let mut probe = Probe::new(host(), vec![1, 2, 3], 2);
    assert_eq!(probe.next_action(), ProbeAction::Connect { port: 1, timeout: 0 });
    probe.record(Attempt::Failed, 0);
    assert_eq!(probe.next_action(), ProbeAction::Connect { port: 2, timeout: 1 });
    probe.record(Attempt::Failed, 1);
    assert_eq!(probe.next_action(), ProbeAction::Connect { port: 3, timeout: 1 });
    probe.record(Attempt::Failed, 2);
    assert_eq!(probe.result(), Some(dead(host())));
}

#[test]
fn results_are_well_formed_when_port_and_time_go_with_alive() {
    assert!(alive(host(), 80, 1).is_well_formed());
    assert!(dead(host()).is_well_formed());
    assert!(!ScanResult { ip: host(), alive: true, rtt: None, open_port: Some(80) }.is_well_formed());
    assert!(!ScanResult { ip: host(), alive: true, rtt: Some(1), open_port: None }.is_well_formed());
    assert!(!ScanResult { ip: host(), alive: false, rtt: Some(1), open_port: None }.is_well_formed());
    assert!(!ScanResult { ip: host(), alive: false, rtt: None, open_port: Some(80) }.is_well_formed());
}
