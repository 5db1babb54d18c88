# coinprs

A configuration-driven portfolio table for crypto assets, verified with Verus.

- `src/` is the verified library:
  - `text.rs`: ASCII case folding, decimal rendering of integers, the
    lexicographic order of texts.
  - `conf.rs`: the tree of configuration values, where settings are read
    from (the file named on the command line, else `coinprs` in the current
    directory, `$HOME` or `$HOME/.config`), and how alignment and tint
    settings are read (colour names are looked up in the `tint` crate).
  - `currency.rs`: assets as the settings describe them, and the assets
    whose prices are requested.
  - `order.rs`: the order of table rows and the proofs that the table's
    ordering is a sorted, stable rearrangement.
  - `table.rs`: sorting the rows (`table.sort.key`, `table.sort.inverse`),
    and the header and row cells as `table.localize.headers` and
    `table.localize.data` style them, with the laws that tie them together.
- `app/` is the command-line program: it reads the configuration file and
  the environment, fetches quotes from CoinGecko, does the floating-point
  arithmetic and formatting of prices, and draws the table with
  `comfy-table`.
- `tests/` exercises the library on concrete settings and rows.
