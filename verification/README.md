# exlap-hook

An ExLAP client for the Android Auto vendor channel of VW, Audi, Skoda and Seat
MIB2 head units, verified with Verus. It is a hook of a proxy between the phone
and the head unit: it sees every packet, forwards every packet, and runs ExLAP
sessions of its own on the side.

- It learns the ExLAP channel from the head unit's ServiceDiscoveryResponse, or
  from an ExLAP frame on another channel as long as no session was started.
- It brings up one session for each configured credential. The first session
  whose directory offers a URL subscribes to it; no URL is subscribed twice.
- It reads the data of its own and of foreign sessions, reports the battery
  level, and answers the commands of the web UI.

`src/` is the library. Its state is `state::ExlapState`; `ExlapState::wf` is
what every entry point in `hook` requires and keeps. The ExLAP protocol itself is
the `exlap` crate; what is believed of it stands in `protocol`. `laws` and the
functions named `law_...` elsewhere state what holds of the hook as a whole.

`app/` connects the library to a host: it sends the packets, words the lines of
the log, writes the JSON of the web UI and posts the battery report. `tests/` runs
the library with the real outside crates.

## Configuration

- `exlap_channel`: the channel where discovery gives none (default 126)
- `exlap_creds`: the credentials to bring up, in order (default `2,1,3,0`); a
  change applies when the sessions begin anew
- `exlap_subscribe_urls`: the URLs to subscribe to, or `*` for all (default
  `tankLevelPrimary,outsideTemperature`)
- `exlap_subscribe_ival_ms`: the interval of each subscription, never 0 (default
  2000)
- `exlap_battery_capacity_wh`: the capacity sent with each battery report
- `exlap_debug`: the verbose log
