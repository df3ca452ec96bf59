# den-embed

The embedding service behind a semantic search: **BAAI/bge-m3**, int8, 1024 dimensions, over HTTP. What the
service decides is a library verified with Verus; the program around it does the input and output.

## The library (`src/`)

| Module | What it decides |
|---|---|
| `text`, `number` | White space, trimming, cutting, whole numbers in decimal |
| `settings`, `config` | What an environment asks for, within which bounds, and what is logged about it |
| `key`, `lru` | The name of a text's vector, and the cache that forgets the least recently used one |
| `embed` | What is answered at once, what the cache knows, what the model is asked |
| `json`, `charsmap`, `shape` | Which tokenizer files are safe to use |
| `tokens`, `batch` | What a batch costs in tokens, and whether it is embedded |
| `failure` | What is logged of a failure, how often, and what the client is told |
| `idle` | When a model that nobody uses is dropped |
| `auth`, `metrics`, `http` | Who may read the metrics, what they are, and what is answered and logged |
| `shutdown` | What a signal to stop does, and how long requests in flight are waited for |

Each function states what it returns over spec functions of the module. What holds across functions stands
next to them as public proof functions whose names begin with `law_`: a text has the same vector in a batch as
on its own, whatever the cache holds; no environment takes a setting out of its range; the wait of a stop
starts at the signal; no failure goes uncounted.

Four crates are called from the library, through functions marked `external_body` whose contracts are taken on
trust: `blake2` and `hex` for the keys, `tokenizers` for the tokens, and `http` (by way of `axum`) for the path
of a request. Of the standard library, `String::push`, `str::from_utf8` and the quoting of `{:?}` are trusted in
the same way.

There are files on which the `tokenizers` crate stops the program: one that breaks off inside its decoder, one
whose precompiled normalizer has a table that leads outside itself, one with a pattern too large to compile, one
whose template names a token that is not defined, one with an added token that is empty once it is normalized,
and more. So a file is tested before it is read, and only parts that are known to be safe are let through: those of
the files that SentencePiece models are converted to, and those of WordPiece and word-level models. A file with a
part of another kind is refused when the model is loaded. The tests build a file of the first form, with a table of
its own, and tokenize with it; the file of bge-m3 itself is not part of them.

## The program (`app/`)

`main` and the environment, the HTTP routes, the model (ONNX Runtime by way of `ort`; floating point), the
background task that drops an idle model, signals and the end of the process. The ONNX Runtime library is
loaded when the program starts.
