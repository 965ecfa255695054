# balatro_core

The rules of Balatro as a verified library: seeded random streams, poker hands,
scoring, jokers, blinds, consumables, tags, vouchers, packs, the shop and the
course of a run. Every function of `src/` has a contract, proved by Verus. No
item of the library is trusted without proof.

## Layout

Foundations
- `double`: binary64 numbers over their bits, with correct rounding; `exact`
  says where their arithmetic is that of whole numbers and halves.
- `text`, `order`, `keymap`, `perhand`: texts, stable sorting, small maps.
- `rng`: the keyed streams and the generator behind every draw.

Data
- `cards`, `config`, `registry`, `items`, `shop`, `blinds`, `deck`.

Rules
- `handeval`, `scoring`, `jokers`: from chosen cards to a score.
- `consumables`, `tarots`, `usage`: what consumables do and when.
- `making`, `round`, `play`, `packs`, `tags`, `market`, `trade`, `course`,
  `actions`: the parts of a run.
- `run`: the state of a run and how it is read.
- `snapshot`: keys and maps of a stored run.

Laws that span functions
- `sound`: what every run keeps.
- `answers`: what is refused, what is accepted, and what is listed.
- `numbering`: no two cards of a run share a number; `windows` says what jokers
  leave as it is while they work.
- `accounts`: the count of what is in use is right, over the definitions in
  `stock`.
- `joker_keys`: every joker has a key of its own.
- `prices`: what things cost and sell for, in whole numbers.

The other modules end with the laws of their own functions (`law_...`).

`app/` holds what stands around the library: the chips of blinds past ante 8,
which follow real powers, errors for other crates, and snapshots through serde.

## Conventions

- A run has a model, `RunModel`. Every action is a function on models; the
  executable method gives exactly that model and that answer.
- Counters (dollars, levels) wrap at the end of their type, in the code as in the
  contracts. The numbers that cards and other things get stay at the last one
  once they run out, so that the laws on them say when they hold.
- `Run::select_blind` knows the chips of blinds up to ante 8. Blinds are sized by
  the ante that they came with.
  `Run::select_blind_asking` takes the amount as an argument at any ante.
