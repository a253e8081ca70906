//! What a new-link message reports: the link's index, name and state.

use vstd::prelude::*;
use std::collections::HashMap;
use crate::model::status::NetworkLinkOperationalState;
use crate::platform::netlink::{LinkAttribute, LinkState, RouteMessage};
use crate::platform::netlink::processor::{last_device, last_state};

verus! {

broadcast use vstd::std_specs::hash::group_hash_axioms;

/// A link as a new-link message reports it.
#[derive(Debug, PartialEq, Eq)]
pub struct NetlinkRustyRouterLinkStatus {
    pub index: u64,
    pub name: String,
    pub state: NetworkLinkOperationalState,
}

/// What a message reports of a link: only a new-link message naming its
/// device reports one.
pub open spec fn new_link_report(message: RouteMessage) -> Option<(u64, Seq<char>, NetworkLinkOperationalState)> {
    match message {
        RouteMessage::NewLink(m) => match last_device(m.attributes@) {
            Some(name) => Some((m.index as u64, name, last_state(m.attributes@))),
            None => None,
        },
        _ => None,
    }
}

/// The links that the new-link messages among `messages` report, by index:
/// of several for one index, the last.
pub open spec fn links_by_index(messages: Seq<RouteMessage>) -> Map<u64, (Seq<char>, NetworkLinkOperationalState)>
    decreases messages.len(),
{
    if messages.len() == 0 {
        Map::empty()
    } else {
        let earlier = links_by_index(messages.drop_last());
        match new_link_report(messages.last()) {
            Some((index, name, state)) => earlier.insert(index, (name, state)),
            None => earlier,
        }
    }
}

/// Reads the links that netlink lists.
pub struct NetlinkRustyRouterLink {}

impl NetlinkRustyRouterLink {
    /// The link that a new-link message reports, if it names its device.
    pub fn process_link_message(message: RouteMessage) -> (r: Option<NetlinkRustyRouterLinkStatus>)
        ensures
            match r {
                Some(s) => new_link_report(message) == Some((s.index, s.name@, s.state)),
                None => new_link_report(message) is None,
            },
    {
        let msg = match message {
            RouteMessage::NewLink(msg) => msg,
            _ => {
                return None;
            },
        };
        let index = msg.index as u64;
        let mut name: Option<String> = None;
        let mut state = NetworkLinkOperationalState::Unknown;
        let mut i: usize = 0;
        while i < msg.attributes.len()
            invariant
                i <= msg.attributes@.len(),
                match name {
                    Some(n) => last_device(msg.attributes@.take(i as int)) == Some(n@),
                    None => last_device(msg.attributes@.take(i as int)) is None,
                },
                state == last_state(msg.attributes@.take(i as int)),
            decreases msg.attributes@.len() - i,
        {
            match &msg.attributes[i] {
                LinkAttribute::IfName(ifname) => {
                    name = Some(ifname.clone());
                },
                LinkAttribute::OperState(operational_state) => {
                    state = match operational_state {
                        LinkState::Up => NetworkLinkOperationalState::Up,
                        LinkState::Down => NetworkLinkOperationalState::Down,
                        LinkState::Other => NetworkLinkOperationalState::Unknown,
                    };
                },
                LinkAttribute::Other => {},
            }
            assert(msg.attributes@.take(i + 1).drop_last() =~= msg.attributes@.take(i as int));
            i = i + 1;
        }
        assert(msg.attributes@.take(msg.attributes@.len() as int) =~= msg.attributes@);
        match name {
            Some(name) => Some(NetlinkRustyRouterLinkStatus { index, name, state }),
            None => None,
        }
    }

    /// The links that the messages of a link dump report, by index.
    pub fn list_network_interfaces(messages: Vec<RouteMessage>) -> (r: HashMap<u64, NetlinkRustyRouterLinkStatus>)
        ensures
            r@.dom() == links_by_index(messages@).dom(),
            forall|i: u64| #[trigger] r@.contains_key(i) ==> r@[i].index == i && (r@[i].name@, r@[i].state)
                == links_by_index(messages@)[i],
    {
        let ghost all = messages@;
        let count = messages.len();
        let mut result: HashMap<u64, NetlinkRustyRouterLinkStatus> = HashMap::new();
        let mut rest = messages;
        let mut k: usize = 0;
        while rest.len() > 0
            invariant
                all.len() == count,
                k + rest@.len() == all.len(),
                rest@ == all.skip(k as int),
                result@.dom() == links_by_index(all.take(k as int)).dom(),
                forall|i: u64| #[trigger] result@.contains_key(i) ==> result@[i].index == i && (result@[i].name@, result@[i].state)
                    == links_by_index(all.take(k as int))[i],
            decreases rest@.len(),
        {
            let message = rest.remove(0);
            proof {
                assert(all.take(k + 1).drop_last() =~= all.take(k as int));
                assert(all.take(k + 1).last() == message);
            }
            match NetlinkRustyRouterLink::process_link_message(message) {
                Some(status) => {
                    result.insert(status.index, status);
                },
                None => {},
            }
            proof {
                assert(result@.dom() =~= links_by_index(all.take(k + 1)).dom());
                assert(rest@ =~= all.skip(k + 1));
            }
            k = k + 1;
        }
        assert(all.take(k as int) =~= all);
        result
    }
}

} // verus!
