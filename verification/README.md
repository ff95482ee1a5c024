# cargo_units

Turns the dependencies between packages into a graph of what has to be compiled,
documented and run, and in which order.

A package consists of several targets: a library, binaries, tests, a build
script. A unit is a target together with how it is compiled. The library takes
the packages of a workspace, the resolution that says which package depends on
which, and the units that are asked for. It gives back every unit that is needed,
each with a sorted list of the units that it depends on.

- `src/`: the library, verified with Verus. `unit_dependencies` holds the
  algorithm; `plan`, `search`, `leftover` and `layout` say what it computes;
  `laws`, `order_laws`, `script_laws`, `std_laws` and `table_laws` prove what
  holds of every build.
  `login` describes the command that saves a token for a registry.
- `tests/`: tests of the library.
- `app/`: the same for a program: a command line, a log, and panics where tables
  that are handed in do not fit together.
