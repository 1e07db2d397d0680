# aco_rust

An ant colony optimiser for the travelling salesman problem.

- `src/` is the verified library (Verus):
  - `tour`: an ant's tour construction (`gen_path`, `TourBuilder`), proved to
    yield a closed tour that leaves every node exactly once;
  - `ranking`: the stable ranking of tours by distance key and the choice of
    the tours that reinforce the pheromone trail; the first shortest tour;
  - `best`: the shortest distance seen over all iterations;
  - `pheromone`: the pheromone levels recorded per edge (FNV hash maps),
    with a default level for edges never reinforced;
  - `distance_matrix`: reads of a row-major matrix of little-endian words.
- `app/` is the program around it: the colonies (floating-point edge
  lengths and pheromone arithmetic, weighted random choice), parallel ants
  and file input.
