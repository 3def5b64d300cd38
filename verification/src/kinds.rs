//! The kinds of nodes the simulation controller spawns.
use vstd::prelude::*;

verus! {

/// The two kinds of client.
#[derive(Clone, Copy, Debug, PartialEq, Eq, Structural)]
pub enum ClientType {
    Chat,
    Web,
}

/// The two kinds of server.
#[derive(Clone, Copy, Debug, PartialEq, Eq, Structural)]
pub enum ServerType {
    Content,
    Communication,
}

/// The drone implementations the simulation can use.
#[derive(Clone, Copy, Debug, PartialEq, Eq, Structural)]
pub enum DroneType {
    RustyDrones,
    BagelBomber,
    BobryWLocie,
    DRONE,
    LedronJames,
    Lockheedrustin,
    RustDoIt,
    Rustbusters,
    RustRoveri,
    Skylink,
    Rust,
}

/// The kind of a node of the simulation.
#[derive(Clone, Copy, Debug, PartialEq, Eq, Structural)]
pub enum NodeKind {
    Drone(DroneType),
    Server(ServerType),
    Client(ClientType),
}

/// All drone implementations, in the order in which ties between equally
/// used ones are broken.
pub open spec fn all_drone_types() -> Seq<DroneType> {
    seq![
        DroneType::RustyDrones,
        DroneType::BagelBomber,
        DroneType::BobryWLocie,
        DroneType::DRONE,
        DroneType::LedronJames,
        DroneType::Lockheedrustin,
        DroneType::RustDoIt,
        DroneType::Rustbusters,
        DroneType::RustRoveri,
        DroneType::Skylink,
        DroneType::Rust,
    ]
}

/// All drone implementations, as `all_drone_types` lists them.
pub fn drone_types() -> (v: Vec<DroneType>)
    ensures
        v@ == all_drone_types(),
{
    let mut v = Vec::new();
    v.push(DroneType::RustyDrones);
    v.push(DroneType::BagelBomber);
    v.push(DroneType::BobryWLocie);
    v.push(DroneType::DRONE);
    v.push(DroneType::LedronJames);
    v.push(DroneType::Lockheedrustin);
    v.push(DroneType::RustDoIt);
    v.push(DroneType::Rustbusters);
    v.push(DroneType::RustRoveri);
    v.push(DroneType::Skylink);
    v.push(DroneType::Rust);
    assert(v@ =~= all_drone_types());
    v
}

} // verus!
