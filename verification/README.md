# context_engine

The core of a repository context engine, verified with Verus: what is indexed of a
repository, where it is kept, who serves it, and how questions about it are answered.

- `src/parsing`: symbols, edges between them, and the chunks of a source file.
- `src/indexing`: which files changed since they were indexed.
- `src/store`: where a repository's data is kept, and the statements that keep it.
- `src/vector`: which embeddings are held, and which of them a search returns.
- `src/query`: which database a file belongs to.
- `src/llm`: messages, tools, API keys in turn, and OpenAI's requests and answers.
- `src/chat`: the two tools of the chat agent, the transcripts, and a chat turn as a
  machine that is driven by what the model and the retrieval come back with.
- `src/router`: the registry of workers and its single-flight spawns.
- `src/text.rs`, `src/seqs.rs`, `src/strmap.rs`, `src/json.rs`: what the others share.

Every function states what it returns or changes; functions named `law_..` state what
holds across them. `app/` runs the core: locks, clocks, processes, HTTP, the database and
the file system.
