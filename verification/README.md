# summars

A Core Lightning plugin that shows a summary of a node's channels and, optionally, its recent
forwards, payments and paid invoices.

The crate has two parts:

- `src/` is the library, verified with Verus: option parsing and validation, the column
  lists, the channel states and table styles, the channels table and node summary, the
  collection, filtering, totals and paging of forwards, payments and invoices, the sorting
  and limiting of all tables, the text of the amounts, graphs, titles and footers, and the
  plans from which the tables are drawn.
- `app/` is the plugin around it: option registration with `cln-plugin`, the RPC calls to the
  node, pings, the alias cache, the availability database, and the JSON output.

Locale-dependent formatting (`icu_*`, `fixed_decimal`), local time (`chrono`), BOLT11
decoding (`lightning-invoice`) and table drawing (`tabled`) are called from the library
through small trusted wrappers. Those for numbers, dates and invoices name their results. A
table is built step by step through wrappers that each record their step, and the text
tabled draws is named by the steps: so each table's text is stated as the drawing of its
plan (its rows, style, column formats, title and footers). Local times are stated as the
calendar date and time of the timestamp moved by the machine's time-zone offset, which is
less than a day either way.
