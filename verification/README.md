# palworld_tools

A breeding-path calculator for Palworld. Give it a target pal, and
optionally the passive skills and IV minimums you want on it, and it
computes ranked, multi-generation breeding plans that start from your
own box, read straight from your save file.

The calculator is a Verus library: its functions carry contracts that
state what they return, and Verus proves them. A terminal application
and a stdio server for MCP clients stand around it.

## Layout

| Place | Role |
|---|---|
| `src/model.rs`, `src/db.rs` | The game database: pals, passives, combos |
| `src/child.rs`, `src/steps.rs` | Which child a pair has; how many steps apart species are |
| `src/chance.rs`, `src/passives.rs`, `src/iv.rs` | Exact odds as fractions; expected eggs |
| `src/search/` | The plan search |
| `src/save/` | `Level.sav`: container, property tree, characters, import |
| `src/pool/` | The owned pool, from a save or a pals file |
| `src/mcp/` | What each MCP tool answers |
| `src/tui/` | The terminal application as a state machine, and its screen |
| `src/text.rs`, `src/seqs.rs`, `src/names.rs` | Text, ordering and display names |
| `tests/` | The library, run |
| `app/` | Files, JSON, TOML, the terminal, the server |

Laws that relate several functions are public proof functions whose
names begin with `law_`. The decompressors (`flate2`, `oozextract`),
the property reader (`gvas`), the layout solver (`ratatui`) and the
Markdown renderer (`tui_markdown`) are called behind small trusted
functions; each says in its comment what is taken on trust. Readers that
assert on malformed data run on a thread of their own (`rayon`), so that
a corrupt save is reported and never ends the program.

Probabilities are counted in billionths and expected eggs in
trillionths of an egg, so that every sum and comparison is exact.

## Quick start

```sh
# Plan from your save:
palworld_tools /path/to/Level.sav

# or from a hand-written pool (pals.toml by default):
palworld_tools my-pals.toml

# Serve MCP clients over stdio:
palworld_tools mcp /path/to/Level.sav
```

The argument is sniffed by content: Palworld `.sav` containers (`PlM`,
`PlZ`, and Xbox `CNK`) are imported, anything else is read as TOML.
The game database (`db.json` and `breeding.json`, version `v27`, as
PalCalc generates them) is read from `data/`, or from the folder that
`PAL_DATA` names.

### The pals.toml format

```toml
[[pals]]
species = "Lamball"      # display or internal name, case-insensitive
gender = "male"          # male/female (or m/f)
passives = ["Swift"]     # optional; display or internal names
ivs = { hp = 85, attack = 92, defense = 70 }  # optional; 0 if omitted
```

## Using the terminal application

Three panes, left to right: **Pals** (pick the target species and mark
progenitors), **Passives** (pick up to 4 desired passive skills),
**Plans** (ranked results with a family tree). Searches run whenever
the question changes, on a background worker; a spinner in the Plans
title marks one in flight, and changing anything supersedes it.

`:` opens a command prompt: `:help` lists every key and command,
`:readme` shows this text.

Selected passives and marked progenitors stay at the top of their
lists, even when filtered out, so every choice can be undone.

### Reading a plan

```text
🥚 Fuack · hatch for Swift
├─ ♂ 🎒 Lamball · Swift
╰─ ♀ 🥚 Daedream
   ├─ ♂ ⭐ Anubis · your progenitor
   ╰─ ♀ 🌿 Cattiva · catch
```

| Symbol | Meaning |
|---|---|
| 🥚 | A breeding step: re-hatch until the child has the listed passives |
| 🎒 | A pal you own |
| ⭐ | A progenitor you marked |
| 🌿 | A wild pal to catch |
| ♂ / ♀ | Which parent slot the pal fills |

**Expected eggs** is the plan's cost: the eggs you will hatch across
every step, with passive-inheritance odds and gender re-rolls of
intermediates. Plans are ranked by it.

### Progenitors

Marking pals with `F4` or shift-click anchors the search: every plan
must breed through all of them. Wild partners are recruited around
your anchors, and the rest of your box steps aside.

### The library

`Ctrl+S` saves the highlighted plan, `Ctrl+L` shows the saved ones. A
saved plan holds its whole tree, so it stays readable after your box
changes; a banner says how many of its pals are gone. `Enter` plans
its goal again and compares the cost.

### Wild capture

Off by default. `F2` lets any species with wild spawns join plans as a
free leaf; wild pals contribute no passives and no IVs.

## How the odds work

- **Child species** is fixed per pair by the combo table.
- **Passives**: a child rolls how many passives to inherit from the
  parents' combined pool, plus random additions; the probability that
  all desired passives land is computed exactly.
- **Gender** re-rolls of bred intermediates cost one over the
  probability of the needed gender.
- **IVs**: a child inherits one to three of its stats, each from a
  random parent. A minimum is met through parents that meet it; wild
  pals and progenitors never do.
