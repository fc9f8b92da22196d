# codebase_rag

An AST-aware hybrid code retrieval engine and MCP server. Source files are
parsed with tree-sitter into symbols, cut into chunks, and indexed three ways:
a Tantivy BM25 index, an embedding store and a symbol table. Queries are
answered by fusing the three rankings by reciprocal rank and packing the best
chunks into a token budget.

The library in `src/` is verified with Verus:

- `parser/`: language detection, symbol extraction from syntax trees,
  chunking along symbols or sliding windows of lines.
- `index/`: the file tracker (change detection by time, size and SHA-256),
  the symbol store, the vector store, the lexical index documents, and the
  indexing steps (what to index, what to forget, what to embed, in batches).
- `retrieval/`: grouping of ranked lists for fusion, the candidates of each
  channel, the context packer and the repository map.
- `mcp/`: request routing, the tool catalogue, tool arguments and snippets.
- `config.rs`, `embeddings/`, `cli/`: configuration defaults and environment
  overrides, the choice of embedding client, the command line.

Laws that span several operations are stated as `law_*` proof functions next
to the functions they are about.

`app/` holds the program around the library: the command line, file and
network I/O, the HTTP embedding clients, Tantivy's index and query parser,
and the floating-point scoring (vector similarity, fusion scores, fuzzy
matching).
