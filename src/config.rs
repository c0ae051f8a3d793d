//! Watch configuration: which workload to follow and on which port.
use vstd::prelude::*;

verus! {

/// The port on which the workload serves, given by number or by name.
///
/// A named port is resolved separately in every revision, through the port
/// table that the revision carries.
#[derive(Clone, Debug, Eq)]
pub enum Port {
    /// A numeric port.
    Number(u16),
    /// A named port, looked up in each revision's port table.
    Name(String),
}

/// The mathematical value of a [`Port`].
pub enum PortSpec {
    Number(u16),
    Name(Seq<char>),
}

impl View for Port {
    type V = PortSpec;

    open spec fn view(&self) -> PortSpec {
        match self {
            Port::Number(n) => PortSpec::Number(*n),
            Port::Name(s) => PortSpec::Name(s@),
        }
    }
}

impl PartialEq for Port {
    fn eq(&self, other: &Port) -> (r: bool)
        ensures
            r == (self@ == other@),
    {
        match (self, other) {
            (Port::Number(a), Port::Number(b)) => *a == *b,
            (Port::Name(a), Port::Name(b)) => *a == *b,
            _ => false,
        }
    }
}

impl vstd::std_specs::cmp::PartialEqSpecImpl for Port {
    open spec fn obeys_eq_spec() -> bool {
        true
    }

    open spec fn eq_spec(&self, other: &Port) -> bool {
        self@ == other@
    }
}

impl From<u16> for Port {
    fn from(port: u16) -> (r: Port)
        ensures
            r@ == PortSpec::Number(port),
    {
        Port::Number(port)
    }
}

impl vstd::std_specs::convert::FromSpecImpl<u16> for Port {
    open spec fn obeys_from_spec() -> bool {
        true
    }

    open spec fn from_spec(port: u16) -> Port {
        Port::Number(port)
    }
}

impl From<String> for Port {
    fn from(name: String) -> (r: Port)
        ensures
            r@ == PortSpec::Name(name@),
    {
        Port::Name(name)
    }
}

impl vstd::std_specs::convert::FromSpecImpl<String> for Port {
    open spec fn obeys_from_spec() -> bool {
        true
    }

    open spec fn from_spec(name: String) -> Port {
        Port::Name(name)
    }
}

impl<'a> From<&'a str> for Port {
    fn from(name: &'a str) -> (r: Port)
        ensures
            r@ == PortSpec::Name(name@),
    {
        Port::Name(name.to_owned())
    }
}

// A spec function cannot build a `String`: the `ensures` of `from` above
// states the result instead.
impl<'a> vstd::std_specs::convert::FromSpecImpl<&'a str> for Port {
    open spec fn obeys_from_spec() -> bool {
        false
    }

    open spec fn from_spec(name: &'a str) -> Port {
        Port::Name(arbitrary())
    }
}

/// Configuration of one watch.
#[derive(Clone, Debug)]
pub struct DiscoveryConfig {
    /// Name of the workload whose endpoints are watched.
    pub service_name: String,
    /// Namespace of the workload; `None` means the client's own namespace.
    pub namespace: Option<String>,
    /// Port of the workload, by number or by name.
    pub port: Port,
}

impl DiscoveryConfig {
    /// A configuration for `service_name` on `port` (a number such as
    /// `50051` or a name such as `"grpc"`), in the client's own namespace.
    pub fn new<P: Into<Port>>(service_name: &str, port: P) -> (r: DiscoveryConfig)
        ensures
            r.service_name@ == service_name@,
            r.namespace is None,
            call_ensures(P::into, (port,), r.port),
    {
        DiscoveryConfig { service_name: service_name.to_owned(), namespace: None, port: port.into() }
    }

    /// The same configuration with an explicit namespace.
    pub fn namespace(self, namespace: &str) -> (r: DiscoveryConfig)
        ensures
            r.service_name == self.service_name,
            r.namespace matches Some(ns) && ns@ == namespace@,
            r.port == self.port,
    {
        DiscoveryConfig { namespace: Some(namespace.to_owned()), ..self }
    }
}

} // verus!
