# drone_network

The verified core of a simulated drone network: clients and servers talk
through drones that forward source-routed packets, and a controller adds,
links and removes nodes at run time.

Everything under `src/` is checked by Verus against its contracts:

- `wire`, `fragmentation`: packets and their payloads; a message is cut into
  128-byte fragments; fragments are taken in any order of arrival, and the
  message is handed on, joined in index order, when the fragment that fills
  the last empty slot arrives.
- `discovery`, `topology`: flood traces become a symmetric adjacency map
  without repeated neighbours; a breadth-first search finds a shortest
  route exactly when one exists, and that same route is the one packets take.
- `packet_sender`, `node`: the decisions of a node for each packet, command
  of the controller and tick: acknowledgements, resends with back-off and a
  retry limit, routing along shortest routes, flooding, new discoveries when the
  neighbours change, delivery of complete messages. Channels, threads and
  clocks stay outside; the node returns the actions to perform.
- `communication_server`, `content_server`, `server`, `web_browser`: chat
  rooms (members, passwords, messages) and public and per-peer files. A file
  name must be one plain directory entry, so a peer reaches only the public
  files and its own private ones. File system access is returned as a step
  for the caller to perform.
- `simulation_controller`, `network_setup`, `kinds`, `network_object`,
  `config`: the controller's view of the network. Ids stay unique and links
  stay symmetric through every operation; each operation returns the orders
  for the nodes concerned. A configuration is built node by node, then link
  by link.
- `api`, `manifest`, `logger`, `message`, `decimal`, `text`: what the HTTP
  interface computes (requests from payloads, the topology view, node
  details, the catalogue of nodes from the package manifest), the
  in-memory log and its severity filter, and the texts shown to users.

`app/` is the program around the library: the HTTP server, the node and
drone threads, channels, the file system, and the serializable copies of the
message types.

`tests/` runs the library on concrete cases.
