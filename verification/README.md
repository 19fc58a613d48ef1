# wm-busbridge

A per-machine sidecar that mirrors fleet events between a local agorabus
Unix-domain socket and a NATS leaf node, so that a single-host bus becomes a
fleet-wide one. Its decisions are a library verified with Verus; sockets, NATS,
clocks and the command line are ordinary Rust around it.

## Layout

- `src/` is the library. Everything in it is verified.
  - `forward`: which topics cross, and the marker of the loop guard
  - `bridge`: the frames of the local bus, and what becomes of an event in either
    direction
  - `hub_watcher`: hub liveness with hysteresis, and the buffer while the hub is down
  - `hub_status`: what `hub-status` says
  - `dispatch`: jobs, the capability registry, placement, the local capacity sample
  - `status`: the fleet dashboard
  - `nats_config`: hub and leaf server configs
  - `config`, `selftest`: the settings of the bridge, and the selftest's event
  - `load`: load averages as exact numbers
  - `text`, `json`: what the others need of texts and of `serde_json`
- `tests/` runs the library.
- `app/` is the program: `main`, the sockets, the NATS client, the clocks.

## What is proved

Each function states what it returns or changes for every input it takes. Beyond
that, the laws of the library are proof functions of their own. Among them:

- What came from NATS never goes back to NATS
  (`bridge::what_came_from_nats_never_goes_back`).
- Blocked topics cross under no allowlist, and without an allowlist only fleet
  topics cross (`forward::blocked_topics_never_cross`,
  `forward::only_fleet_topics_cross_by_default`).
- The hub goes down and comes up at its thresholds and not before
  (`hub_watcher::hub_goes_down_at_the_threshold`,
  `hub_watcher::hub_comes_up_at_the_threshold`, `hub_watcher::blips_do_not_flap`).
- The buffer stays within its bounds however long the hub is down, drops the oldest
  and no more of them than it has to, and loses nothing of an outage that fits
  (`hub_watcher::a_long_outage_stays_bounded`,
  `hub_watcher::events_are_dropped_only_when_full`,
  `hub_watcher::no_more_is_dropped_than_has_to_be`,
  `hub_watcher::an_outage_that_fits_loses_nothing`).
- A node that must not build never gets build or test work
  (`dispatch::ineligible_node_never_gets_build_work`).
- The route of a pinned job names its node
  (`dispatch::a_pinned_route_names_its_node`).
- The dashboard is healthy if and only if every node is fresh and none that is
  expected is missing (`status::healthy_means_fresh_and_complete`).

## What is taken on trust

The contracts of `serde_json` stand in `src/json.rs`, those of `bytes::Bytes` in
`src/hub_watcher.rs`, that of `String::push` in `src/text.rs`. Each says which
function it is about and what it claims of it.
