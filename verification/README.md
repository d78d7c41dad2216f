# s1m

Reading lists for a wiki, and what they are worth.

The library in `src/` is verified with Verus. It holds

- the reading list of one query: which files earn a place, how they are ordered, what is printed and
  what the process exits with (`cli`, `format`), which files the root's `.s1mignore` leaves out
  (`s1mignore`), and when a stored answer stands in for a call (`cache`);
- the measurement of reading lists against a labelled gold set: the corpus and its labels, the walks
  to make, their scores, the keyword ranker they are held against, and the report (`eval`);
- the measurement of an agent that explores against one that is handed a list: the gold set, the runs
  that are owed, what a run's stream and transcript say, the ledger, the aggregates, the link graph
  and the report (`gold`, `run`, `pass`, `explore`, `reading`, `row`, `ledger`, `aggregate`, `graph`,
  `wiki`, `hook`, `report`, `raw`).

Doubles are carried as their bits. Where a figure needs double arithmetic, the library builds the
expression (`doc::Num`) and the document around it (`doc::Doc`); `app/` works it out and prints it.

`app/` is the program around the library: arguments, files, other programs, JSON records and
floating point. Parsing markdown and walking links with a model is another program's work, which
`app/helper.rs` asks.

`tests/` runs the library.
