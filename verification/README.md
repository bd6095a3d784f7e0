# intentiq

A command line tool that reads system logs (`auth.log`, `syslog`, `ufw.log`
and an nginx access log), groups their events per actor, finds the intents
behind them with a set of rules, and summarises them per actor.

The library under `src/` is written in Verus. Its functions carry contracts
that Verus proves, except eight small wrappers around outside calls
(`String::push`, `regex`, two of `chrono`, `uuid`, and three of
`serde_json`, each reading one field of the model's answer), whose contracts are trusted, not proved: the one around
`String::push` states its result outright; each of the others says that
the call's result is a named function of its arguments.

- `text`: strings as sequences of characters: lines, search, integers.
- `matching`, `parser`: the four log formats, one event per matching line.
- `utils`: log timestamps.
- `groups`, `grouping`: events and results per actor, the linking of
  events without an actor to the login that precedes them, summaries.
- `detection`: the rules, the selection of summaries in doubt, the
  prompt for a language model and the reading of its answer.
- `order`: sorting strings and removing duplicates.
- `storage`: what is stored per actor in the vector database.
- `pipeline`: the whole analysis of the four logs.
- `laws`: properties of the library as a whole, as proof functions.

`app/` holds the program around it: reading the logs, MongoDB, Qdrant,
the OpenAI calls and the report. `tests/` runs the library on examples.
