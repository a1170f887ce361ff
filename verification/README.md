# app-daemon

Application catalog, Hyprland window identity, process-tree resource accounting
and activation policy for a desktop launcher.

`src/` is a Verus library: every rule of the daemon stands there with a contract
and a proof. `app/` is the program around it: D-Bus, processes, files, sockets
and JSON. `tests/` runs the library on concrete values.

## The library

| Area | Modules |
| --- | --- |
| Texts, tables, bounded arithmetic | `text`, `lowercase`, `table`, `metrics`, `transcript` |
| Reading the kernel | `key_values`, `procfs`, `disk`, `network`, `gpu`, `energy` |
| Samples and usage | `process_tree`, `resources`, `sampler`, `snapshot`, `usage_laws` |
| History | `aggregate`, `series`, `series_laws`, `cursor`, `clock`, `history`, `history_laws`, `ledger_laws`, `overview` |
| Applications and windows | `desktop_entry`, `catalog`, `hyprland`, `identity`, `platform` |
| Queries | `summary`, `search`, `settings`, `query`, `model` |
| Actions | `action`, `launch`, `execution`, `operations` |
| The daemon | `protocol`, `events`, `service` |

Measured quantities are whole numbers of their smallest unit: a field whose name
ends in `_tenths` counts tenths, one that ends in `_e4` counts ten-thousandths.
JSON shows them as fractional numbers; `app/json.rs` converts.

What the library takes on trust is marked `external_body`: the desktop-entry
parser, base64url, random identifiers, the clock, and three functions of
the standard library. Each such item says what it claims of the function it calls.

## The program

`app-daemon daemon` exports `org.laufan.AppDaemon` on the session bus;
`app-daemon client` bridges JSON lines to it with `app-api` v1.
