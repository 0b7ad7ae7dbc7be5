# glow2whatever

Takes the MQTT messages of a Glow energy display and passes them on: as metrics for
Prometheus, and to devices that vibrate with the power that is drawn.

The library in `src/` is verified with Verus:

- `topic`, `glow`: topics, messages, and how a message is taken apart;
- `rounding`, `reading`: the numbers that a meter reports, and double precision arithmetic on
  their bits;
- `fnv`: the hash by which the `prometheus` crate tells metrics and series apart;
- `store`: what is trusted of the `prometheus` crate;
- `metrics`: the metrics, and how messages change them;
- `keys`: the keys under which the metrics are registered;
- `history`: what holds over many messages;
- `routes`: what the pages of the HTTP server answer;
- `mqtt`: the connection to the broker;
- `vibrate`: the strength with which devices vibrate.

`app/` holds the programs around it, `glow2prom` and `glow2butt`: JSON, the network, and the
command line.
