# search_thing

Semantic search over files, images and videos. Each of them is an asset in a graph database; pieces
of its content are embedded as vectors and tied to it. A query is embedded too, and the assets of the
nearest embeddings are its results.

`src/` is a library verified with Verus. It decides, and does no input or output of its own:

| Module | What it holds |
|--------|---------------|
| `helix`, `flows` | the store: its requests, and what their answers lead to |
| `query` | building requests with the `helix_db` crate |
| `assets` | ids and indexed units in the answers |
| `consistency` | how what one request writes is found by the others |
| `hits`, `results`, `search` | from the embeddings found to the reply |
| `errors` | which failures count as an empty result |
| `thumbnails` | which picture of a video is shown |
| `pacing` | keeping calls to the embedding service apart |
| `json`, `text`, `percent`, `parse`, `float_bits`, `sorting` | what the others rest on |

Floats are held by their bit patterns, whose order `float_bits` states. What is taken from other
crates and from `std` without proof stands in `query`, `parse`, `text` and `thumbnails`, each item
with a comment that says what is claimed of it.

`app/` is the service around the library: the environment, the database, the embedding service and
the disk. `tests/` runs the library.
