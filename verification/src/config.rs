//! The network configurations: which nodes exist and how they are linked.
use vstd::prelude::*;

use crate::decimal::{decimal, push_decimal};
use crate::NodeId;

verus! {

/// The file listing the available configurations.
pub const MAIN_CONFIG_FILE: &'static str = "examples/main.toml";

/// The directory of the configuration files.
pub const CONFIGURATIONS_DIR: &'static str = "examples/config/";

/// A drone of a configuration. Its packet drop rate, a float, is kept by
/// the caller.
pub struct Drone {
    pub id: NodeId,
    pub connected_node_ids: Vec<NodeId>,
}

/// A client of a configuration.
pub struct Client {
    pub id: NodeId,
    pub connected_drone_ids: Vec<NodeId>,
    pub client_type: String,
}

/// A server of a configuration.
pub struct Server {
    pub id: NodeId,
    pub connected_drone_ids: Vec<NodeId>,
    pub server_type: String,
    pub base_path: String,
}

/// A network configuration.
pub struct Config {
    pub drone: Vec<Drone>,
    pub client: Vec<Client>,
    pub server: Vec<Server>,
}

/// The list of available configurations.
pub struct Configurations {
    pub configuration: Vec<Configuration>,
}

/// One available configuration and the file that holds it.
pub struct Configuration {
    pub id: u8,
    pub name: String,
    pub description: String,
    pub file_name: String,
}

/// The text "Configuration with ID <id> not found!".
pub open spec fn configuration_not_found(id: u8) -> Seq<char> {
    "Configuration with ID "@ + decimal(id as nat) + " not found!"@
}

/// `r` is what looking up configuration `id` in `list` gives: the
/// configuration directory followed by the file name of the first entry with
/// that id, or the not-found error when no entry has it.
pub open spec fn configuration_found(list: Seq<Configuration>, id: u8, r: Result<String, String>) -> bool {
    match r {
        Ok(path) => exists|i: int| {
            &&& 0 <= i < list.len()
            &&& #[trigger] list[i].id == id
            &&& forall|j: int| 0 <= j < i ==> list[j].id != id
            &&& path@ == CONFIGURATIONS_DIR@ + list[i].file_name@
        },
        Err(e) => {
            &&& forall|i: int| 0 <= i < list.len() ==> (#[trigger] list[i]).id != id
            &&& e@ == configuration_not_found(id)
        },
    }
}

/// The path of configuration `id`: the configuration directory followed by
/// the file name of the first configuration with that id; an error when
/// none has it.
pub fn find_configuration(configurations: &Configurations, id: u8) -> (r: Result<String, String>)
    ensures
        configuration_found(configurations.configuration@, id, r),
{
    let list = &configurations.configuration;
    let mut i: usize = 0;
    while i < list.len()
        invariant
            i <= list@.len(),
            list@ == configurations.configuration@,
            forall|j: int| 0 <= j < i ==> (#[trigger] list@[j]).id != id,
        decreases list@.len() - i,
    {
        if list[i].id == id {
            let mut path = String::from_str(CONFIGURATIONS_DIR);
            path.append(list[i].file_name.as_str());
            assert(configurations.configuration@[i as int].id == id);
            return Ok(path);
        }
        i = i + 1;
    }
    let mut e = String::from_str("Configuration with ID ");
    push_decimal(&mut e, id as u64);
    e.append(" not found!");
    Err(e)
}

} // verus!
