//! The list of ports that a client can choose from.

use vstd::prelude::*;

use crate::protocol::{Port, PortId};

verus! {

/// Why the name of a port could not be had.
#[derive(Debug, Clone, Copy)]
pub enum PortInfoError {
    /// There is no port of that number any more.
    PortNumberOutOfRange,
    /// The port is not one of the driver's.
    InvalidPort,
    /// The port is there, its name is not to be had.
    CannotRetrievePortName,
}

/// A port as the driver shows it.
#[derive(Debug)]
pub struct FoundPort {
    pub id: String,
    pub name: Result<String, PortInfoError>,
}

/// A port as it is listed to a client.
pub struct PortView {
    pub id: Seq<char>,
    pub name: Option<Seq<char>>,
}

impl View for Port {
    type V = PortView;

    open spec fn view(&self) -> PortView {
        PortView {
            id: self.id.0@,
            name: match self.name {
                Some(name) => Some(name@),
                None => None,
            },
        }
    }
}

impl FoundPort {
    /// Whether the port is still there.
    pub open spec fn present(self) -> bool {
        match self.name {
            Ok(_) => true,
            Err(error) => error is CannotRetrievePortName,
        }
    }

    /// How the port is listed: without a name where the driver gives none.
    pub open spec fn listed(self) -> PortView {
        PortView {
            id: self.id@,
            name: match self.name {
                Ok(name) => Some(name@),
                Err(_) => None,
            },
        }
    }
}

/// The values of `ports`.
pub open spec fn port_views(ports: Seq<Port>) -> Seq<PortView> {
    ports.map_values(|port: Port| port@)
}

/// The ports that are listed to a client: those that are still there, in the driver's order.
pub open spec fn listing(found: Seq<FoundPort>) -> Seq<PortView> {
    found.filter(|port: FoundPort| port.present()).map_values(|port: FoundPort| port.listed())
}

/// A port that the driver names is listed with its id and name, one whose name alone is not to be
/// had with its id, and one that is gone is not listed.
pub proof fn law_port_listed(port: FoundPort)
    ensures
        port.name matches Ok(name) ==> listing(seq![port]) == seq![
            PortView { id: port.id@, name: Some(name@) },
        ],
        port.name == Err::<String, PortInfoError>(PortInfoError::CannotRetrievePortName) ==> listing(
            seq![port],
        ) == seq![PortView { id: port.id@, name: None }],
        port.name == Err::<String, PortInfoError>(PortInfoError::InvalidPort) ==> listing(
            seq![port],
        ).len() == 0,
        port.name == Err::<String, PortInfoError>(PortInfoError::PortNumberOutOfRange) ==> listing(
            seq![port],
        ).len() == 0,
{
    let found = seq![port];
    let present = |port: FoundPort| port.present();
    reveal_with_fuel(Seq::filter, 2);
    assert(found.drop_last() =~= Seq::<FoundPort>::empty());
    assert(found.filter(present) =~= if port.present() {
        found
    } else {
        Seq::empty()
    });
    if port.present() {
        assert(listing(found) =~= seq![port.listed()]);
    }
}

proof fn lemma_all_present(found: Seq<FoundPort>)
    requires
        forall|i: int| 0 <= i < found.len() ==> (#[trigger] found[i]).name is Ok,
    ensures
        listing(found) == found.map_values(|port: FoundPort| port.listed()),
    decreases found.len(),
{
    reveal(Seq::filter);
    let present = |port: FoundPort| port.present();
    if found.len() > 0 {
        let part = found.drop_last();
        lemma_all_present(part);
        assert(found.last() == found[found.len() - 1]);
        assert(found.filter(present) =~= part.filter(present).push(found.last()));
        assert(listing(found) =~= listing(part).push(found.last().listed()));
    }
    assert(listing(found) =~= found.map_values(|port: FoundPort| port.listed()));
}

/// Ports are listed one by one: however many there are, none is left out for the sake of others,
/// and the driver's order is kept.
pub proof fn law_every_port_listed(first: Seq<FoundPort>, second: Seq<FoundPort>)
    ensures
        listing(first + second) == listing(first) + listing(second),
{
    let present = |port: FoundPort| port.present();
    Seq::filter_distributes_over_add(first, second, present);
    assert(listing(first + second) =~= listing(first) + listing(second));
}

/// The values of ports are the id and name of each of them, none left out.
pub proof fn law_port_values(ports: Seq<Port>)
    ensures
        port_views(ports).len() == ports.len(),
        forall|i: int|
            #![trigger port_views(ports)[i]]
            0 <= i < ports.len() ==> {
                &&& port_views(ports)[i].id == ports[i].id.0@
                &&& ports[i].name matches Some(name) ==> port_views(ports)[i].name == Some(name@)
                &&& ports[i].name is None ==> port_views(ports)[i].name is None
            },
{
}

/// Lists the ports that the driver shows.
pub fn get_ports(found: &Vec<FoundPort>) -> (ports: Vec<Port>)
    ensures
        port_views(ports@) == listing(found@),
        ports@.len() == listing(found@).len(),
        (forall|i: int| 0 <= i < found@.len() ==> (#[trigger] found@[i]).name is Ok) ==> {
            &&& ports@.len() == found@.len()
            &&& forall|i: int|
                0 <= i < found@.len() ==> (#[trigger] ports@[i]).id.0@ == found@[i].id@
        },
{
    let mut ports: Vec<Port> = Vec::new();
    let mut next: usize = 0;
    proof {
        reveal(Seq::filter);
        assert(port_views(ports@) =~= listing(found@.take(0)));
    }
    while next < found.len()
        invariant
            next <= found@.len(),
            port_views(ports@) == listing(found@.take(next as int)),
        decreases found.len() - next,
    {
        let ghost before = ports@;
        let port = &found[next];
        match &port.name {
            Ok(name) => {
                ports.push(Port { id: PortId(port.id.clone()), name: Some(name.clone()) });
            },
            Err(PortInfoError::CannotRetrievePortName) => {
                ports.push(Port { id: PortId(port.id.clone()), name: None });
            },
            Err(_) => {},
        }
        proof {
            reveal(Seq::filter);
            assert(found@.take(next + 1).drop_last() =~= found@.take(next as int));
            if port.present() {
                assert(port_views(ports@) =~= port_views(before).push(port.listed()));
                assert(listing(found@.take(next + 1)) =~= listing(found@.take(next as int)).push(
                    port.listed(),
                ));
            }
        }
        next += 1;
    }
    assert(found@.take(next as int) =~= found@);
    assert(port_views(ports@).len() == ports@.len());
    proof {
        if forall|i: int| 0 <= i < found@.len() ==> (#[trigger] found@[i]).name is Ok {
            lemma_all_present(found@);
            assert forall|i: int| 0 <= i < found@.len() implies (#[trigger] ports@[i]).id.0@
                == found@[i].id@ by {
                assert(port_views(ports@)[i] == found@[i].listed());
            }
        }
    }
    ports
}

} // verus!
