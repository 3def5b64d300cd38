//! What the simulation controller keeps of each node: its kind and its
//! neighbours.
use vstd::prelude::*;
use std::collections::HashSet;

use crate::kinds::{ClientType, DroneType, ServerType};
use crate::NodeId;

verus! {

broadcast use vstd::std_specs::hash::group_hash_axioms;

/// A drone of the simulation.
pub struct Drone {
    pub group: DroneType,
    pub neighbours: HashSet<NodeId>,
}

/// A server of the simulation.
pub struct Server {
    pub server_type: ServerType,
    pub neighbours: HashSet<NodeId>,
}

/// A client of the simulation.
pub struct Client {
    pub client_type: ClientType,
    pub neighbours: HashSet<NodeId>,
}

impl Drone {
    /// A drone of implementation `group`, with no neighbour yet.
    pub fn new(group: DroneType) -> (d: Self)
        ensures
            d.group == group,
            d.neighbours@ == Set::<NodeId>::empty(),
    {
        Drone { group, neighbours: HashSet::new() }
    }

    /// The implementation of the drone.
    pub fn get_group(&self) -> (g: DroneType)
        ensures
            g == self.group,
    {
        self.group
    }

    /// The neighbours of the drone.
    pub fn get_neighbours(&self) -> (n: &HashSet<NodeId>)
        ensures
            n@ == self.neighbours@,
    {
        &self.neighbours
    }

    /// Records a neighbour; returns whether it was new.
    pub fn add_neighbour(&mut self, neighbour: NodeId) -> (added: bool)
        ensures
            final(self).neighbours@ == old(self).neighbours@.insert(neighbour),
            final(self).group == old(self).group,
            added == !old(self).neighbours@.contains(neighbour),
    {
        self.neighbours.insert(neighbour)
    }

    /// Forgets a neighbour; returns whether it was there.
    pub fn remove_neighbour(&mut self, neighbour: NodeId) -> (removed: bool)
        ensures
            final(self).neighbours@ == old(self).neighbours@.remove(neighbour),
            final(self).group == old(self).group,
            removed == old(self).neighbours@.contains(neighbour),
    {
        self.neighbours.remove(&neighbour)
    }
}

impl Server {
    /// A server of kind `server_type`, with no neighbour yet.
    pub fn new(server_type: ServerType) -> (s: Self)
        ensures
            s.server_type == server_type,
            s.neighbours@ == Set::<NodeId>::empty(),
    {
        Server { server_type, neighbours: HashSet::new() }
    }

    /// The kind of the server.
    pub fn get_server_type(&self) -> (t: ServerType)
        ensures
            t == self.server_type,
    {
        self.server_type
    }

    /// The neighbours of the server.
    pub fn get_neighbours(&self) -> (n: &HashSet<NodeId>)
        ensures
            n@ == self.neighbours@,
    {
        &self.neighbours
    }

    /// Records a neighbour; returns whether it was new.
    pub fn add_neighbour(&mut self, neighbour: NodeId) -> (added: bool)
        ensures
            final(self).neighbours@ == old(self).neighbours@.insert(neighbour),
            final(self).server_type == old(self).server_type,
            added == !old(self).neighbours@.contains(neighbour),
    {
        self.neighbours.insert(neighbour)
    }

    /// Forgets a neighbour; returns whether it was there.
    pub fn remove_neighbour(&mut self, neighbour: NodeId) -> (removed: bool)
        ensures
            final(self).neighbours@ == old(self).neighbours@.remove(neighbour),
            final(self).server_type == old(self).server_type,
            removed == old(self).neighbours@.contains(neighbour),
    {
        self.neighbours.remove(&neighbour)
    }
}

impl Client {
    /// A client of kind `client_type`, with no neighbour yet.
    pub fn new(client_type: ClientType) -> (c: Self)
        ensures
            c.client_type == client_type,
            c.neighbours@ == Set::<NodeId>::empty(),
    {
        Client { client_type, neighbours: HashSet::new() }
    }

    /// The kind of the client.
    pub fn get_client_type(&self) -> (t: ClientType)
        ensures
            t == self.client_type,
    {
        self.client_type
    }

    /// The neighbours of the client.
    pub fn get_neighbours(&self) -> (n: &HashSet<NodeId>)
        ensures
            n@ == self.neighbours@,
    {
        &self.neighbours
    }

    /// Records a neighbour; returns whether it was new.
    pub fn add_neighbour(&mut self, neighbour: NodeId) -> (added: bool)
        ensures
            final(self).neighbours@ == old(self).neighbours@.insert(neighbour),
            final(self).client_type == old(self).client_type,
            added == !old(self).neighbours@.contains(neighbour),
    {
        self.neighbours.insert(neighbour)
    }

    /// Forgets a neighbour; returns whether it was there.
    pub fn remove_neighbour(&mut self, neighbour: NodeId) -> (removed: bool)
        ensures
            final(self).neighbours@ == old(self).neighbours@.remove(neighbour),
            final(self).client_type == old(self).client_type,
            removed == old(self).neighbours@.contains(neighbour),
    {
        self.neighbours.remove(&neighbour)
    }
}

} // verus!
