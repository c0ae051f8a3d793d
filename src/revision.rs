//! Revisions of the objects that list a workload's endpoints, and the
//! extraction of the ready addresses they advertise.
use vstd::prelude::*;

use crate::address::{Address, AddressSet, IpAddress};
use crate::config::{Port, PortSpec};

verus! {

/// One endpoint of a revision: its addresses and its readiness.
#[derive(Clone, Debug)]
pub struct EndpointEntry {
    /// The addresses reported for the endpoint, each as the IP address it
    /// denotes, or `None` where the reported text is not an IP literal.
    pub addresses: Vec<Option<IpAddress>>,
    /// The readiness condition; an absent one means ready.
    pub ready: Option<bool>,
}

/// One row of a revision's port table.
#[derive(Clone, Debug)]
pub struct PortEntry {
    pub name: Option<String>,
    pub port: Option<i32>,
}

/// A snapshot of one object that lists endpoints of the workload.
#[derive(Clone, Debug)]
pub struct Revision {
    pub endpoints: Vec<EndpointEntry>,
    pub ports: Option<Vec<PortEntry>>,
}

pub struct EndpointEntryView {
    pub addresses: Seq<Option<IpAddress>>,
    pub ready: Option<bool>,
}

pub struct PortEntryView {
    pub name: Option<Seq<char>>,
    pub port: Option<i32>,
}

pub struct RevisionView {
    pub endpoints: Seq<EndpointEntryView>,
    pub ports: Option<Seq<PortEntryView>>,
}

impl View for EndpointEntry {
    type V = EndpointEntryView;

    open spec fn view(&self) -> EndpointEntryView {
        EndpointEntryView { addresses: self.addresses@, ready: self.ready }
    }
}

impl View for PortEntry {
    type V = PortEntryView;

    open spec fn view(&self) -> PortEntryView {
        PortEntryView {
            name: match self.name {
                Some(n) => Some(n@),
                None => None,
            },
            port: self.port,
        }
    }
}

impl View for Revision {
    type V = RevisionView;

    open spec fn view(&self) -> RevisionView {
        RevisionView {
            endpoints: self.endpoints@.map_values(|e: EndpointEntry| e@),
            ports: match self.ports {
                Some(ps) => Some(ps@.map_values(|p: PortEntry| p@)),
                None => None,
            },
        }
    }
}

/// An endpoint takes traffic unless its readiness is explicitly false.
pub open spec fn is_ready(e: EndpointEntryView) -> bool {
    e.ready != Some(false)
}

/// The number of the first row from `i` on named `name`, if that row holds a
/// number that is a valid port.
pub open spec fn named_port_from(ports: Seq<PortEntryView>, name: Seq<char>, i: int) -> Option<u16>
    decreases ports.len() - i,
{
    if i < 0 || i >= ports.len() {
        None
    } else if ports[i].name == Some(name) {
        match ports[i].port {
            Some(p) => if 0 <= p <= u16::MAX {
                Some(p as u16)
            } else {
                None
            },
            None => None,
        }
    } else {
        named_port_from(ports, name, i + 1)
    }
}

/// The port number that `port` denotes in `rev`, if any.
pub open spec fn resolve_port(rev: RevisionView, port: PortSpec) -> Option<u16> {
    match port {
        PortSpec::Number(n) => Some(n),
        PortSpec::Name(name) => match rev.ports {
            Some(ps) => named_port_from(ps, name, 0),
            None => None,
        },
    }
}

/// `ip` is listed by a ready endpoint of `rev`.
pub open spec fn advertises(rev: RevisionView, ip: IpAddress) -> bool {
    exists|i: int, j: int|
        0 <= i < rev.endpoints.len() && is_ready(rev.endpoints[i]) && 0 <= j
            < rev.endpoints[i].addresses.len() && #[trigger] rev.endpoints[i].addresses[j] == Some(ip)
}

/// The ready addresses that `rev` advertises on `port`.
pub open spec fn ready_addresses(rev: RevisionView, port: PortSpec) -> Set<Address> {
    match resolve_port(rev, port) {
        Some(p) => Set::new(|a: Address| a.port == p && advertises(rev, a.ip)),
        None => Set::empty(),
    }
}

/// The port number that `port` denotes in `rev`.
fn resolve(rev: &Revision, port: &Port) -> (r: Option<u16>)
    ensures
        r == resolve_port(rev@, port@),
{
    match port {
        Port::Number(n) => Some(*n),
        Port::Name(name) => match &rev.ports {
            None => None,
            Some(ports) => {
                let ghost ps = ports@.map_values(|p: PortEntry| p@);
                let mut i: usize = 0;
                while i < ports.len()
                    invariant
                        i <= ports@.len(),
                        ps == ports@.map_values(|p: PortEntry| p@),
                        rev@.ports == Some(ps),
                        port@ == PortSpec::Name(name@),
                        named_port_from(ps, name@, 0) == named_port_from(ps, name@, i as int),
                    decreases ports@.len() - i,
                {
                    let row = &ports[i];
                    let named = match &row.name {
                        Some(n) => *n == *name,
                        None => false,
                    };
                    if named {
                        return match row.port {
                            Some(p) => if 0 <= p && p <= 65535 {
                                Some(p as u16)
                            } else {
                                None
                            },
                            None => None,
                        };
                    }
                    i = i + 1;
                }
                None
            },
        },
    }
}

/// The set of ready addresses that `slice` advertises on `port`.
///
/// A named port that the revision's table lacks yields the empty set; entries
/// that are not IP literals are skipped.
pub fn extract_ready_endpoints(slice: &Revision, port: &Port) -> (r: AddressSet)
    ensures
        r.wf(),
        r@ == ready_addresses(slice@, port@),
{
    let mut addrs = AddressSet::new();
    let port_number = match resolve(slice, port) {
        Some(p) => p,
        None => {
            assert(addrs@ =~= ready_addresses(slice@, port@));
            return addrs;
        },
    };
    let ghost rev = slice@;
    let mut i: usize = 0;
    while i < slice.endpoints.len()
        invariant
            addrs.wf(),
            rev == slice@,
            resolve_port(rev, port@) == Some(port_number),
            i <= slice.endpoints@.len(),
            forall|a: Address|
                #[trigger] addrs@.contains(a) <==> a.port == port_number && exists|k: int, j: int|
                    0 <= k < i && is_ready(rev.endpoints[k]) && 0 <= j
                        < rev.endpoints[k].addresses.len() && #[trigger] rev.endpoints[k].addresses[j] == Some(
                        a.ip,
                    ),
        decreases slice.endpoints@.len() - i,
    {
        let ep = &slice.endpoints[i];
        let ready = match ep.ready {
            Some(b) => b,
            None => true,
        };
        if ready {
            let mut j: usize = 0;
            while j < ep.addresses.len()
                invariant
                    addrs.wf(),
                    rev == slice@,
                    i < slice.endpoints@.len(),
                    *ep == slice.endpoints@[i as int],
                    is_ready(rev.endpoints[i as int]),
                    j <= ep.addresses@.len(),
                    forall|a: Address|
                        #[trigger] addrs@.contains(a) <==> a.port == port_number && ((exists|
                            k: int,
                            jj: int,
                        |
                            0 <= k < i && is_ready(rev.endpoints[k]) && 0 <= jj
                                < rev.endpoints[k].addresses.len()
                                && #[trigger] rev.endpoints[k].addresses[jj] == Some(a.ip)) || exists|jj: int|
                            0 <= jj < j && #[trigger] ep.addresses@[jj] == Some(a.ip)),
                decreases ep.addresses@.len() - j,
            {
                if let Some(ip) = ep.addresses[j] {
                    addrs.insert(Address { ip, port: port_number });
                }
                j = j + 1;
            }
        }
        proof {
            let e = rev.endpoints[i as int];
            assert(e == slice.endpoints@[i as int]@);
            assert forall|a: Address| #[trigger]
                addrs@.contains(a) <==> a.port == port_number && exists|k: int, j: int|
                    0 <= k < i + 1 && is_ready(rev.endpoints[k]) && 0 <= j
                        < rev.endpoints[k].addresses.len()
                        && #[trigger] rev.endpoints[k].addresses[j] == Some(a.ip) by {
                if a.port == port_number && !is_ready(e) {
                    if exists|k: int, j: int|
                        0 <= k < i + 1 && is_ready(rev.endpoints[k]) && 0 <= j
                            < rev.endpoints[k].addresses.len()
                            && #[trigger] rev.endpoints[k].addresses[j] == Some(a.ip) {
                        let (k, j) = choose|k: int, j: int|
                            0 <= k < i + 1 && is_ready(rev.endpoints[k]) && 0 <= j
                                < rev.endpoints[k].addresses.len()
                                && #[trigger] rev.endpoints[k].addresses[j] == Some(a.ip);
                        assert(k < i);
                    }
                }
                if a.port == port_number && is_ready(e) {
                    if exists|jj: int| 0 <= jj < e.addresses.len() && e.addresses[jj] == Some(a.ip) {
                        let jj = choose|jj: int|
                            0 <= jj < e.addresses.len() && e.addresses[jj] == Some(a.ip);
                        assert(rev.endpoints[i as int].addresses[jj] == Some(a.ip));
                    }
                    if exists|k: int, j: int|
                        0 <= k < i + 1 && is_ready(rev.endpoints[k]) && 0 <= j
                            < rev.endpoints[k].addresses.len()
                            && #[trigger] rev.endpoints[k].addresses[j] == Some(a.ip) {
                        let (k, j) = choose|k: int, j: int|
                            0 <= k < i + 1 && is_ready(rev.endpoints[k]) && 0 <= j
                                < rev.endpoints[k].addresses.len()
                                && #[trigger] rev.endpoints[k].addresses[j] == Some(a.ip);
                        if k == i {
                            assert(slice.endpoints@[i as int].addresses@[j] == Some(a.ip));
                        }
                    }
                }
            }
        }
        i = i + 1;
    }
    assert(addrs@ =~= ready_addresses(slice@, port@));
    addrs
}

/// An endpoint without a readiness condition counts exactly as one whose
/// readiness is true.
pub proof fn lemma_readiness_default(rev: RevisionView, i: int, port: PortSpec)
    requires
        0 <= i < rev.endpoints.len(),
        rev.endpoints[i].ready is None,
    ensures
        ready_addresses(
            RevisionView {
                endpoints: rev.endpoints.update(
                    i,
                    EndpointEntryView { addresses: rev.endpoints[i].addresses, ready: Some(true) },
                ),
                ports: rev.ports,
            },
            port,
        ) == ready_addresses(rev, port),
{
    let marked = RevisionView {
        endpoints: rev.endpoints.update(
            i,
            EndpointEntryView { addresses: rev.endpoints[i].addresses, ready: Some(true) },
        ),
        ports: rev.ports,
    };
    assert forall|ip: IpAddress| advertises(marked, ip) == advertises(rev, ip) by {
        if advertises(rev, ip) {
            let (k, j) = choose|k: int, j: int|
                0 <= k < rev.endpoints.len() && is_ready(rev.endpoints[k]) && 0 <= j
                    < rev.endpoints[k].addresses.len() && #[trigger] rev.endpoints[k].addresses[j]
                    == Some(ip);
            assert(marked.endpoints[k].addresses[j] == Some(ip));
        }
        if advertises(marked, ip) {
            let (k, j) = choose|k: int, j: int|
                0 <= k < marked.endpoints.len() && is_ready(marked.endpoints[k]) && 0 <= j
                    < marked.endpoints[k].addresses.len()
                    && #[trigger] marked.endpoints[k].addresses[j] == Some(ip);
            assert(rev.endpoints[k].addresses[j] == Some(ip));
        }
    }
    assert(ready_addresses(marked, port) =~= ready_addresses(rev, port));
}

proof fn lemma_no_row_named(ports: Seq<PortEntryView>, name: Seq<char>, i: int)
    requires
        forall|k: int| 0 <= k < ports.len() ==> #[trigger] ports[k].name != Some(name),
    ensures
        named_port_from(ports, name, i) is None,
    decreases ports.len() - i,
{
    if 0 <= i < ports.len() {
        lemma_no_row_named(ports, name, i + 1);
    }
}

/// A named port that the revision's port table lacks, or a revision without a
/// table, yields no address at all.
pub proof fn lemma_named_port_miss(rev: RevisionView, name: Seq<char>)
    requires
        rev.ports matches Some(ps) ==> forall|k: int|
            0 <= k < ps.len() ==> #[trigger] ps[k].name != Some(name),
    ensures
        ready_addresses(rev, PortSpec::Name(name)) == Set::<Address>::empty(),
{
    if let Some(ps) = rev.ports {
        lemma_no_row_named(ps, name, 0);
    }
}

/// A ready endpoint listing one entry that is no IP literal and one that is
/// yields exactly the valid address, on the port the revision resolves.
pub proof fn lemma_invalid_address_skipped(rev: RevisionView, ip: IpAddress, port: PortSpec)
    requires
        rev.endpoints.len() == 1,
        is_ready(rev.endpoints[0]),
        rev.endpoints[0].addresses == seq![None, Some(ip)] || rev.endpoints[0].addresses == seq![
            Some(ip),
            None,
        ],
        resolve_port(rev, port) is Some,
    ensures
        ready_addresses(rev, port) == set![
            Address { ip, port: resolve_port(rev, port)->0 },
        ],
{
    let p = resolve_port(rev, port)->0;
    let e = rev.endpoints[0];
    assert forall|other: IpAddress| advertises(rev, other) <==> other == ip by {
        if other == ip {
            if e.addresses[0] == Some(ip) {
                assert(rev.endpoints[0].addresses[0] == Some(ip));
            } else {
                assert(rev.endpoints[0].addresses[1] == Some(ip));
            }
        }
    }
    assert(ready_addresses(rev, port) =~= set![Address { ip, port: p }]);
}

} // verus!
