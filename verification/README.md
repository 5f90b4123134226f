# Sing-box Commander

A front end of [sing-box](https://sing-box.sagernet.org/) for Windows. It turns share
links (`vmess`, `vless`, `trojan`) into sing-box configurations, keeps a list of
nodes, starts and watches sing-box, and shows its traffic in a console window and a
tray icon.

The logic is a library in Rust whose contracts are proved with
[Verus](https://github.com/verus-lang/verus). What touches the system stands around
it.

## Layout

- `src/` is the library.
  - `text`, `codec`, `json`, `format`: text, base64 and UTF-8, JSON documents, amounts
    of data.
  - `config_gen`: from a link to the configuration of sing-box. `config_laws` states
    what holds of every configuration.
  - `nodes`: the list of nodes and their names.
  - `singbox`: the state of the program and what changes it. `ports`, `watchdog`,
    `logs`, `traffic`, `latency` and `system` hold its parts.
  - `status`: asking sing-box's control interface.
  - `console`: what the window and the tray show, and what their buttons do.
- `tests/` runs the library on concrete values.
- `app/` is the program: files, processes, the network, the registry, and the window.

## What is trusted

Verus takes the following on trust; each stands in `src/` as a small function with a
contract: `serde_json` for reading and writing documents, `base64` for decoding,
`url` for taking a URL apart, and of the standard library `String::push`,
`String::from_utf8`, `String::from_utf8_lossy` and `String::from_utf16_lossy`.

Functions of the library that have a `requires` leave it to their callers to meet it.
The one that matters to a caller outside is that a link which begins with `vmess://`
in any case has to begin so in lower case; `has_lower_case_vmess` tells.
