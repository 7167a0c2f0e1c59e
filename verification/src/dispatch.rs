use vstd::prelude::*;

use crate::error::ApiError;
use crate::text::str_eq;
use crate::update::{Command, CommandView, Payload};

verus! {

/// One entry of the routing table: a device name, group name or topic, and
/// the broker client that owns it.
#[derive(Debug, PartialEq, Eq)]
pub struct Route {
    pub target: String,
    pub client: usize,
}

pub struct RouteView {
    pub target: Seq<char>,
    pub client: usize,
}

impl View for Route {
    type V = RouteView;

    open spec fn view(&self) -> RouteView {
        RouteView { target: self.target@, client: self.client }
    }
}

/// The content of a routing table.
pub struct RegistryView {
    /// The number of broker clients.
    pub clients: nat,
    pub routes: Seq<RouteView>,
}

impl RegistryView {
    /// Some client owns the target.
    pub open spec fn serves(self, target: Seq<char>) -> bool {
        exists|i: int| 0 <= i < self.routes.len() && (#[trigger] self.routes[i]).target == target
    }

    /// The place of the first route to the target.
    pub open spec fn first_route(self, target: Seq<char>) -> int {
        choose|i: int|
            0 <= i < self.routes.len() && (#[trigger] self.routes[i]).target == target && forall|
                j: int,
            | 0 <= j < i ==> (#[trigger] self.routes[j]).target != target
    }

    /// The client that owns the target: the one that claimed it first.
    pub open spec fn owner(self, target: Seq<char>) -> Option<usize> {
        if self.serves(target) {
            Some(self.routes[self.first_route(target)].client)
        } else {
            None
        }
    }

    /// Every route leads to a client that exists.
    pub open spec fn wf(self) -> bool {
        forall|i: int| 0 <= i < self.routes.len() ==> (#[trigger] self.routes[i]).client
            < self.clients
    }

    /// The table after a client claimed a target: a target that is owned
    /// stays with its owner.
    pub open spec fn claimed(self, client: usize, target: Seq<char>) -> RegistryView {
        if self.serves(target) {
            self
        } else {
            RegistryView {
                clients: self.clients,
                routes: self.routes.push(RouteView { target, client }),
            }
        }
    }
}

/// A command together with the broker client that has to publish it.
#[derive(Debug, PartialEq, Eq)]
pub struct Dispatch {
    pub client: usize,
    pub command: Command,
}

pub struct DispatchView {
    pub client: usize,
    pub command: CommandView,
}

impl View for Dispatch {
    type V = DispatchView;

    open spec fn view(&self) -> DispatchView {
        DispatchView { client: self.client, command: self.command@ }
    }
}

/// The routing table of outbound commands: which broker client owns which
/// device, group or topic.
pub struct Registry {
    clients: usize,
    routes: Vec<Route>,
}

impl View for Registry {
    type V = RegistryView;

    closed spec fn view(&self) -> RegistryView {
        RegistryView {
            clients: self.clients as nat,
            routes: self.routes@.map_values(|r: Route| r@),
        }
    }
}

impl Registry {
    pub open spec fn wf(&self) -> bool {
        self@.wf()
    }

    /// The table of the given number of broker clients, with no route yet.
    pub fn new(clients: usize) -> (r: Self)
        ensures
            r.wf(),
            r@.clients == clients,
            r@.routes == Seq::<RouteView>::empty(),
    {
        let r = Registry { clients, routes: Vec::new() };
        assert(r@.routes =~= Seq::<RouteView>::empty());
        r
    }

    /// The number of broker clients.
    pub fn clients(&self) -> (n: usize)
        ensures
            n == self@.clients,
    {
        self.clients
    }

    /// The client that owns a target.
    pub fn owner_of(&self, target: &str) -> (r: Option<usize>)
        ensures
            r == self@.owner(target@),
    {
        let mut i: usize = 0;
        while i < self.routes.len()
            invariant
                i <= self.routes.len(),
                forall|j: int| 0 <= j < i ==> (#[trigger] self@.routes[j]).target != target@,
            decreases self.routes.len() - i,
        {
            if str_eq(self.routes[i].target.as_str(), target) {
                proof {
                    assert(self@.routes[i as int].target == target@);
                    let k = self@.first_route(target@);
                    if k < i {
                        assert(self@.routes[k].target != target@);
                    }
                    if i < k {
                        assert(self@.routes[i as int].target != target@);
                    }
                }
                return Some(self.routes[i].client);
            }
            i += 1;
        }
        None
    }

    /// Records that a client owns a target. A target that is owned stays with
    /// its owner. Fails with `Validation` where there is no such client.
    pub fn claim(&mut self, client: usize, target: String) -> (r: Result<(), ApiError>)
        requires
            old(self).wf(),
        ensures
            final(self).wf(),
            match r {
                Ok(_) => client < old(self)@.clients && final(self)@ == old(self)@.claimed(
                    client,
                    target@,
                ),
                Err(e) => client >= old(self)@.clients && final(self)@ == old(self)@ && e
                    == ApiError::Validation,
            },
    {
        if client >= self.clients {
            return Err(ApiError::Validation);
        }
        if self.owner_of(target.as_str()).is_some() {
            return Ok(());
        }
        let ghost route = RouteView { target: target@, client };
        self.routes.push(Route { target, client });
        proof {
            assert(self@.routes =~= old(self)@.routes.push(route));
        }
        Ok(())
    }

    /// Addresses a payload to a target: resolves the target to the broker
    /// client that owns it, and hands back the command for that client to
    /// publish. Fails with `TargetNotFound` where no client owns the target.
    /// Success means that the command is ready to be published, not that a
    /// device confirmed it.
    pub fn send_set(&self, target: &str, payload: Payload) -> (r: Result<Dispatch, ApiError>)
        ensures
            match r {
                Ok(d) => self@.owner(target@) == Some(d.client) && d.command@ == (CommandView {
                    target: target@,
                    payload,
                }),
                Err(e) => self@.owner(target@) is None && e == ApiError::TargetNotFound,
            },
    {
        match self.owner_of(target) {
            Some(client) => Ok(
                Dispatch { client, command: Command { target: target.to_owned(), payload } },
            ),
            None => Err(ApiError::TargetNotFound),
        }
    }
}

/// Where a route leads to the target, there is a first such route.
pub proof fn lemma_first_route(r: RegistryView, target: Seq<char>, k: int)
    requires
        0 <= k < r.routes.len(),
        r.routes[k].target == target,
    ensures
        r.serves(target),
        0 <= r.first_route(target) <= k,
        r.routes[r.first_route(target)].target == target,
        forall|j: int| 0 <= j < r.first_route(target) ==> (#[trigger] r.routes[j]).target != target,
    decreases k,
{
    if exists|j: int| 0 <= j < k && (#[trigger] r.routes[j]).target == target {
        let j = choose|j: int| 0 <= j < k && (#[trigger] r.routes[j]).target == target;
        lemma_first_route(r, target, j);
    } else {
        let f = r.first_route(target);
        if f > k {
            assert(r.routes[k].target != target);
        }
    }
}

/// A target stays with the client that claimed it first, whoever claims it
/// afterwards; and claiming a target leaves the owners of the others.
pub proof fn lemma_first_claim_wins(
    r: RegistryView,
    first: usize,
    second: usize,
    target: Seq<char>,
    other: Seq<char>,
)
    requires
        !r.serves(target),
        other != target,
    ensures
        r.claimed(first, target).owner(target) == Some(first),
        r.claimed(first, target).claimed(second, target).owner(target) == Some(first),
        r.claimed(first, target).owner(other) == r.owner(other),
{
    let n = r.claimed(first, target);
    let last = r.routes.len() as int;
    assert(n.routes[last].target == target);
    lemma_first_route(n, target, last);
    let k = n.first_route(target);
    if k < last {
        assert(r.routes[k].target == target);
    }
    if r.serves(other) {
        let w = choose|i: int| 0 <= i < r.routes.len() && (#[trigger] r.routes[i]).target == other;
        lemma_first_route(r, other, w);
        let a = r.first_route(other);
        assert(n.routes[a].target == other);
        lemma_first_route(n, other, a);
        let b = n.first_route(other);
        if b < a {
            assert(r.routes[b].target == other);
        }
    } else if n.serves(other) {
        let w = choose|i: int| 0 <= i < n.routes.len() && (#[trigger] n.routes[i]).target == other;
        assert(w < last);
        assert(r.routes[w].target == other);
    }
}

} // verus!
