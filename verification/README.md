# fieldworks-adapters

Adapters that expose industrial process data through nine MCP tools, for Modbus TCP, MQTT and OPC UA.
The logic of the tools is a Verus library: what a tool asks of a device, broker or server, and what it
answers for whatever comes back, is stated in contracts and proved.

## Layout

- `src/envelope.rs`: readings, qualities, errors and responses that all adapters share.
- `src/double.rs`: binary64 and binary32 values by their bits: comparison, integers, rounding.
- `src/json.rs`, `src/text.rs`, `src/clock.rs`, `src/tools.rs`: documents, text, time, tool options.
- `src/topology.rs`, `src/writing.rs`: configured tags, write permissions, confirmations, audit entries.
- `src/modbus/`: tag identifiers, register values, the tools.
- `src/mqtt/`: payloads, the topic cache, topic trees, the tools.
- `src/opcua/`: node identifiers, values, browsing, the tools.
- `app/`: the MCP servers themselves: sockets, sessions, files and serialisation around the library.
- `tests/`: the library on concrete values.

A tool that talks to the outside has two parts in the library. The first says what to send. The second
takes the reply, a timeout or an error among them, and says what the tool answers and what becomes of
the connection. `app/` does the sending in between.

Floating-point numbers appear in `src/` as bit patterns. Where a number is shown or read in decimal,
`app/` does that and hands the result in.
