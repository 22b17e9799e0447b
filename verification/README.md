# smartcalc

A calculator for text: each line of a text such as `x = 12 * 3` or
`10 usd to eur` is split into tokens, rewritten by rules, parsed and worked
out.

The library under `src/` is verified with Verus. It holds the tokens and
their located form, the line splitting of a session, the token lists'
clean-up and repair, the substitution of variables, the matching of rule
patterns, the parser of the expression grammar, the compilation of syntax
trees into stack steps and the decisions of each step, the reading of
numbers, atoms, clocks and time zones, and the writing of durations, numbers and
padded integers. Each public function states what it returns in its
contract; the laws the library keeps are public proof functions.

The program under `app/` reads the JSON configuration, compiles its
patterns, runs the remaining regular-expression tokenizers and the rule
functions,
works out values (doubles and calendar times), and serves results over
HTTP.

Layout:

- `src/text.rs`, `src/number.rs`, `src/atom.rs`: rendering and reading
  integers, number captures, atoms of alias definitions, and the standard
  string conversions used.
- `src/types.rs`, `src/constants.rs`: tokens, fields and constants.
- `src/session.rs`, `src/tokinizer.rs`, `src/variable.rs`, `src/rule.rs`,
  `src/scan.rs`, `src/patterns.rs`: sessions, located tokens, the comment,
  whitespace, operator, field, time zone and month patterns and the
  aliases, variables and rule matching.
- `src/tables.rs`, `src/calendar.rs`: the tables a configuration is turned
  into, and moving calendar days by durations.
- `src/syntax.rs`, `src/interpreter.rs`: the parser and the interpreter's
  program.
- `src/formatter.rs`, `src/tools.rs`, `src/field.rs`: durations, numbers,
  clocks, time zones, pattern fields and currencies.
- `tests/`: tests of the library.
