# atomic_recall

Semantic search over an Atomic VCS change history: each change is turned into
a text document, embedded by an Ollama model, stored in an SQLite index at
`.atomic/recall.db`, and ranked by cosine similarity against a query.

`src/` is the verified library (Verus):

- `change` — change records, the document embedded for each, the stable sort
  of the history by timestamp, and which file paths a record lists;
- `db` — the index database: each handle keeps a ghost record of what it
  asked the database and what came back; every method states which
  statements it ran with which parameters and how it read the answers, and
  the model check states its whole exchange, from the readings to the plan it
  carries out (refuse; clear and record; or record);
- `embedding` — the stored byte form of an embedding and its round trip;
- `order` — stable ordering by integer keys, and its uniqueness;
- `search` — ranking by score key and the lines shown for a result;
- `indexing` — the decisions and counts of an indexing run;
- `paths`, `text`, `json`, `embed`, `sql`, `error` — paths, text helpers,
  JSON string lists, Ollama settings, the SQLite binding and the errors.

`app/` is the command-line program around it: argument parsing, reading the
change files, the HTTP exchange with Ollama, the floating-point similarity
scores, and printing.
