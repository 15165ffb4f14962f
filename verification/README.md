# sail

The rules of an age-of-sail trading voyage, written in Verus and proved:
port markets and the hold, shipyard refits, hull wear and its handicaps,
haulage contracts, wager races, the treasure dig ashore, and the salvage
adrift at sea.

- `src/` is the verified library. Every generator threads the seeded stream in
  `rng.rs`, so a chart always rolls the same dice; the contracts state the
  exact results (the dig field, a port's prices, a port's contract board) as
  spec functions of their inputs. `laws.rs` holds what holds across several
  operations (a sale undoes a purchase, a withdrawn race refunds its stake,
  a delivered contract nets its reward, a dig session opens exactly the tiles
  its successful digs hit, and so on). `voyage.rs` holds the per-frame
  decisions of the helm: the sail notch, tying up only with sails struck,
  the race's start and settlement, salvage banked, the day count.
- `tests/` runs the library on concrete voyages.
- `app/` is the frame loop around it: it reads the keyboard, measures the
  world (ranges, bearings, who reached the mark), hands the answers to
  `voyage::step`, and draws; the handling and spawning figures that are
  floating point live there too.
