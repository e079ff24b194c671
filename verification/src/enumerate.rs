//! The address enumerator: from a range or a list of hosts to the ordered,
//! duplicate-free sequence of targets that one scan probes.

use crate::address::{parse_prefix, parse_target, Target};
use vstd::prelude::*;
use vstd::string::*;

verus! {

/// Why no targets could be enumerated.
#[derive(Clone, Copy, Debug, PartialEq, Eq, Structural)]
pub enum EnumerateError {
    /// The first host octet is above the last, or one of them is not a host
    /// number of a /24 network (1 to 254).
    InvalidRange,
    /// Some text does not write an IPv4 address.
    InvalidAddress,
}

impl EnumerateError {
    pub open spec fn message_text(self) -> Seq<char> {
        match self {
            EnumerateError::InvalidRange => RANGE_MESSAGE@,
            EnumerateError::InvalidAddress => ADDRESS_MESSAGE@,
        }
    }

    /// What went wrong and how to put it right, for the user.
    pub fn message(&self) -> (m: String)
        ensures
            m@ == self.message_text(),
    {
        match self {
            EnumerateError::InvalidRange => RANGE_MESSAGE.to_owned(),
            EnumerateError::InvalidAddress => ADDRESS_MESSAGE.to_owned(),
        }
    }
}

pub const RANGE_MESSAGE: &'static str =
    "invalid range: the first and last host octets must satisfy 1 <= first <= last <= 254";

pub const ADDRESS_MESSAGE: &'static str =
    "invalid address: expected four decimal octets from 0 to 255 separated by dots";

/// Host octets that a range may hold.
pub open spec fn valid_range(start: u8, end: u8) -> bool {
    1 <= start <= end <= 254
}

/// The hosts `start` to `end` of the /24 network with the given first octets.
pub open spec fn range_targets(prefix: (u8, u8, u8), start: u8, end: u8) -> Seq<Target> {
    Seq::new(
        (end - start + 1) as nat,
        |i: int| Target { a: prefix.0, b: prefix.1, c: prefix.2, d: (start + i) as u8 },
    )
}

/// Every target comes before all that follow it, so none occurs twice.
pub open spec fn strictly_ascending(s: Seq<Target>) -> bool {
    forall|i: int, j: int| 0 <= i < j < s.len() ==> s[i].value() < s[j].value()
}

/// A range is enumerated from its lowest address to its highest.
pub proof fn lemma_range_ascending(prefix: (u8, u8, u8), start: u8, end: u8)
    requires
        valid_range(start, end),
    ensures
        strictly_ascending(range_targets(prefix, start, end)),
{
}

/// What a range enumerates: the range is looked at first, then the text of
/// the network.
pub open spec fn range_enumeration(subnet: Seq<char>, start: u8, end: u8) -> Result<
    Seq<Target>,
    EnumerateError,
> {
    if !valid_range(start, end) {
        Err(EnumerateError::InvalidRange)
    } else {
        match parse_prefix(subnet) {
            Some(prefix) => Ok(range_targets(prefix, start, end)),
            None => Err(EnumerateError::InvalidAddress),
        }
    }
}

/// The targets `start` to `end` of the network that `subnet` writes as
/// `a.b.c`, from the lowest to the highest.
pub fn enumerate_range(subnet: &str, start: u8, end: u8) -> (r: Result<
    Vec<Target>,
    EnumerateError,
>)
    ensures
        match range_enumeration(subnet@, start, end) {
            Ok(targets) => r matches Ok(v) && v@ == targets,
            Err(e) => r == Err::<Vec<Target>, _>(e),
        },
        r matches Ok(v) ==> strictly_ascending(v@),
{
    if start < 1 || end > 254 || start > end {
        return Err(EnumerateError::InvalidRange);
    }
    let prefix = match Target::parse_prefix(subnet) {
        Some(p) => p,
        None => {
            return Err(EnumerateError::InvalidAddress);
        },
    };
    let mut targets: Vec<Target> = Vec::new();
    let mut host: u8 = start;
    while host <= end
        invariant
            valid_range(start, end),
            start <= host <= end + 1,
            targets@ == range_targets(prefix, start, end).take(host - start),
        decreases end + 1 - host,
    {
        targets.push(Target { a: prefix.0, b: prefix.1, c: prefix.2, d: host });
        host = host + 1;
    }
    proof {
        lemma_range_ascending(prefix, start, end);
    }
    Ok(targets)
}

/// Adds `t` to an ascending sequence unless it is there already.
fn insert_unique(targets: &mut Vec<Target>, t: Target)
    requires
        strictly_ascending(old(targets)@),
    ensures
        strictly_ascending(final(targets)@),
        forall|x: Target| final(targets)@.contains(x) <==> (old(targets)@.contains(x) || x == t),
        old(targets)@.contains(t) ==> final(targets)@ == old(targets)@,
        !old(targets)@.contains(t) ==> final(targets)@.len() == old(targets)@.len() + 1,
{
    let ghost before = targets@;
    let mut pos: usize = 0;
    while pos < targets.len() && targets[pos].precedes(&t)
        invariant
            targets@ == before,
            0 <= pos <= targets.len(),
            forall|k: int| 0 <= k < pos ==> (#[trigger] before[k]).value() < t.value(),
        decreases targets.len() - pos,
    {
        pos = pos + 1;
    }
    if pos < targets.len() && targets[pos].to_u32() == t.to_u32() {
        proof {
            crate::address::lemma_value_injective(before[pos as int], t);
        }
        return ;
    }
    targets.insert(pos, t);
    proof {
        before.insert_ensures(pos as int, t);
        let after = targets@;
        assert(forall|k: int| pos <= k < before.len() ==> t.value() < (
        #[trigger] before[k]).value());
        assert(!before.contains(t));
        assert(strictly_ascending(after));
        assert forall|x: Target| after.contains(x) <==> (before.contains(x) || x == t) by {
            if before.contains(x) {
                let k = choose|k: int| 0 <= k < before.len() && before[k] == x;
                if k < pos {
                    assert(after[k] == x);
                }
            }
        }
    }
}

/// The given hosts in ascending order, each of them once.
pub fn sorted_unique(hosts: &Vec<Target>) -> (r: Vec<Target>)
    ensures
        strictly_ascending(r@),
        forall|x: Target| r@.contains(x) <==> hosts@.contains(x),
{
    let mut targets: Vec<Target> = Vec::new();
    let mut i: usize = 0;
    while i < hosts.len()
        invariant
            0 <= i <= hosts.len(),
            strictly_ascending(targets@),
            forall|x: Target| targets@.contains(x) <==> hosts@.take(i as int).contains(x),
        decreases hosts.len() - i,
    {
        insert_unique(&mut targets, hosts[i]);
        proof {
            let more = hosts@.take(i + 1);
            assert(more[i as int] == hosts@[i as int]);
            assert(forall|x: Target| targets@.contains(x) <==> more.contains(x));
        }
        i = i + 1;
    }
    proof {
        assert(hosts@.take(hosts.len() as int) == hosts@);
    }
    targets
}

/// The addresses that a list of texts writes.
pub open spec fn written_targets(entries: Seq<String>) -> Seq<Option<Target>> {
    Seq::new(entries.len(), |i: int| parse_target(entries[i]@))
}

/// The targets that `entries` write, in ascending order and each of them
/// once; no targets at all if one entry does not write an address.
pub fn enumerate_hosts(entries: &Vec<String>) -> (r: Result<Vec<Target>, EnumerateError>)
    ensures
        (exists|i: int| 0 <= i < entries.len() && parse_target(#[trigger] entries[i]@) is None)
            ==> r == Err::<Vec<Target>, _>(EnumerateError::InvalidAddress),
        (forall|i: int| 0 <= i < entries.len() ==> parse_target(#[trigger] entries[i]@) is Some)
            ==> (r matches Ok(v) && strictly_ascending(v@) && forall|x: Target|
            v@.contains(x) <==> written_targets(entries@).contains(Some(x))),
{
    let mut hosts: Vec<Target> = Vec::new();
    let mut i: usize = 0;
    while i < entries.len()
        invariant
            0 <= i <= entries.len(),
            hosts.len() == i,
            forall|k: int| 0 <= k < i ==> parse_target(#[trigger] entries[k]@) == Some(hosts[k]),
        decreases entries.len() - i,
    {
        match Target::parse(entries[i].as_str()) {
            Some(t) => {
                hosts.push(t);
            },
            None => {
                return Err(EnumerateError::InvalidAddress);
            },
        }
        i = i + 1;
    }
    let targets = sorted_unique(&hosts);
    proof {
        let w = written_targets(entries@);
        assert forall|x: Target| targets@.contains(x) <==> w.contains(Some(x)) by {
            if hosts@.contains(x) {
                let k = choose|k: int| 0 <= k < hosts.len() && hosts[k] == x;
                assert(w[k] == Some(x));
            }
        }
    }
    Ok(targets)
}

} // verus!
