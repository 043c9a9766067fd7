# backend

The verified core of a help-center synchronisation service. The service
fetches collections and articles from a help-center API, asks a language
model for each article's summary, facts and keywords, embeds them, and keeps
them in a database and a vector store.

`src/` is the library, verified with Verus:

- `text` — whitespace, trimming, line and comma splitting and decimal
  numerals over characters, each proved against its specification.
- `models` — the API's records, the service's collections and articles, and
  their random identifiers and identifier text.
- `api_client`, `fetcher` — request URLs and credentials, the status check,
  the conversion of listed items, and the walk over a collection's article
  pages (two versions of the client).
- `process_article` — the parser of the model's `[SUMMARY]`/`[FACTS]`/
  `[KEYWORDS]` answer, specified over the answer's bytes, and the attempts at
  one article's metadata.
- `section_order` — the proof that the order of distinctly named sections
  does not change what an answer parses to.
- `metadata` — the parser of the numbered (`1.` to `4.`) answer.
- `job`, `worker` — what a queued job asks for and reports; the statuses a
  worker records.
- `checkpoint`, `vector_db`, `embedding`, `health` — the progress record,
  the embeddings collection, what is embedded for an article, and the health
  check's answer.

`app/` is the program around it: HTTP routes, the HTTP client, the vector
store and database calls, and the worker loops. `tests/` runs the library,
comparing the parsers with the behaviour of the standard library and the
`regex` crate.
