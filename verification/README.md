# maelstrom_rs

A node for the echo and broadcast workloads of Maelstrom, written in Verus.

- `src/` is the verified library. A node is a state machine: `Node::handle_message` takes
  one message, updates the node and puts its replies in the node's outbox. Every handler's
  effect is stated as a spec function over the node's mathematical state
  (`handlers.rs`, `node.rs::dispatch_next`), and `laws.rs` proves properties of the whole
  protocol over them: a read reports every message taken in by broadcast, a message is
  gossiped once, ids of sent messages stay fresh, refused messages change nothing.
- `app/` is the program around it: it reads JSON lines from stdin, converts them with
  serde into the library's types, runs the node and writes the outbox to stdout.
- `tests/` runs the library on concrete messages.
