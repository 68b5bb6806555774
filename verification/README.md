# qasmsim

An OPENQASM 2.0 front-end and quantum simulator. The library, under `src/`,
is written in Verus: its executable functions carry contracts that Verus
proves, and its laws are proof functions.

- `grammar`: the lexer (`grammar::lexer`), the grammar as mathematical
  functions over tokens (`grammar::parser`) and the parser that follows it
  (`grammar::rules`), which builds the trees of `grammar::ast`.
- `linker`: replaces each library directive with gate declarations from an
  embedded library (`qe` holds `qelib1.inc`).
- `semantics`: the symbol tables of a program and where its registers live
  in memory.
- `interpreter`: compiles each statement into primitive instructions
  (`U`, `CX`, measurements), decides which steps run, records measurements
  and collects histograms.
- `error` and `humanize`: errors related to the lines of the source, and
  their reports.
- `summary`: the rows of the memory and histogram tables, with the columns
  that the output options ask for, and which parts of a report are printed.
- `api`: reading programs (`parse_and_link`, `compile_with_linker`) and
  gate documentation (`get_gate_info`).

The command-line program under `app/` runs the compiled instructions on a
floating point state vector, draws random measurements and prints the
rows that `summary` builds as tables or CSV files.
