# temen_browser

The browser side of a sandboxed virtual machine: what a page calls to run guests, drive their
pictures, tier their hot functions up, debug them, and compile programs with compilers that are
guests themselves.

- `src/` is the library. Every rule lives there with its contract: which capability an import
  reaches, how arguments and results are marshalled, what a run's end is reported as, which recipe a
  parallel run follows, how a warm session is restored, which modules a compile visits and in what
  order. Functions that depend on the engine take what it answered as an argument.
- `tests/` runs the library on concrete values.
- `app/` is the page's C-callable surface: pointers, hosts, the engine's calls and the files.

The laws that relate several functions are the public proof functions whose names begin with `law_`.

The library trusts four small functions around `std`: appending a character to a `String`, reading
UTF-8 strictly and lossily, and the `Debug` form of a string.
