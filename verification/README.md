# danubia

The rules of a turn-based strategy game on a grid, verified with Verus.

- `src/collections`: maps that pair keys both ways (cross join, outer join, one to one).
- `src/common`: identifiers, durations, capacities and the scene, which holds every object of a
  scenario by identifier together with its map.
- `src/dynamic`: the changes to statistics (modifiers, effects, attributes, statuses) and the
  traits of what applies and what bears them.
- `src/character`: weapons, skills, magics, units with their statistics and damage, factions.
- `src/map`: terrain, tiles, cities, and the grid: movement, searches, supply and control.
- `src/event`: a handler that passes messages to the observers subscribed to them.
- `app/`: a small program that sets up the debug scenario and reports it through a log.

Statistics are kept in tenths of a percent where they are proportions, and every computation
on them is exact integer arithmetic: damage, supply drains, percentage changes and what a city
recovers are the exact values of their formulas, rounded as each function states. Floating-point
numbers are not used, so where single-precision rounding would land a formula just beside a
whole number, the result here is the exact one (for instance 387 rather than 388 manpower for a
city of 113 thousand with one factory and 43 farms).

The maps in `src/collections` keep their pairs in vectors. Their keys include locations, which
are pairs of integers, and vstd gives `HashMap` and `HashSet` a specification only for keys of a
primitive integer or boolean type: with a pair as the key, Verus could not prove even that a map
holds a key just inserted into it. The trait `Key` lists the key types the game uses, each with
a proved equality test. Each module states its behaviour in `requires`/`ensures`
contracts over spec functions; the public proof functions named `law_*` state properties that
relate several operations.
