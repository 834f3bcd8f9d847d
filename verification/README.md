# Tidekeeper

A mod manager for Subnautica 2: it installs UE4SS script mods and pak mods
from archives and from Nexus Mods, enables and disables them, keeps
profiles, packs and unpacks mod packs, and diagnoses broken setups.

The library under `src/` holds the manager's logic, each function with a
contract proved by Verus:

- `text`, `paths` — text and path operations as the logic needs them.
- `model` — the records the manager keeps and hands out.
- `archive`, `zipfile` — classifying archives by their entries, and where
  each entry goes when it is unpacked (never outside its destination).
- `mods`, `game`, `scan` — the game's folder layout, install plans,
  enabling and disabling, the mod list and its order, settings files,
  loose pak files, and the Steam libraries.
- `profiles`, `modpack` — profiles and mod packs.
- `logs`, `diagnostics`, `report` — the activity log, the setup checks and
  the exported report.
- `nexus`, `oauth`, `release` — Nexus links, addresses, update detection,
  the OAuth sign-in, and the application's own updater.

The public proof functions named `law_*` state what holds across calls:
what a read gives back of a write, what one toggle undoes of another, what
a mod pack restores of what it recorded.

`app/` is the command layer around the library: files, network, processes
and the serialised forms of the records. `tests/` exercises the library on
concrete values.
