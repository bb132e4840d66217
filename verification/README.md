# loader

Data preparation for language-model training: a Python source tokenizer and parser
that turns files into token ids with hierarchical attention groups, the identifier
stores behind it, and the batch builders of the masking, Python, classification and
question-answering tasks.

Layout:

- `src/` — the library, verified with Verus.
  - `tasks/python/` — the lexer (`lexer.rs`, `python_tokenizer.rs`), identifier tables and
    scoped stores (`key_table.rs`, `ident_store.rs`, `context_map.rs`,
    `context_store.rs`), line splitting, grouping and encoding (`python_line.rs`,
    `python_parser.rs`), the token state machine and flat encoder (`base_parser.rs`,
    `python_top.rs`), identifier counting (`context_creator.rs`) and the Python batches.
  - `tasks/masking`, `tasks/single_class`, `tasks/squad`, `tasks/multi_label` — batch
    builders, test endpoints and settings.
  - `tokenizer/` — tokenized data, encodings and tokenizer settings.
- `tests/` — tests of the library on concrete inputs.
- `app/` — file access, serialisation and the pretrained tokenizers.

Identifier tables: `KeyTable` keeps the keys in a `Vec`, in the order they were first
stored, and finds a key by a scan, where a `HashMap<String, usize>` or `HashSet<String>`
would be the obvious choice. vstd describes a `HashMap` or `HashSet` only for key types
known to obey its key model (integers, `bool` and boxes of them), not for `String`, so with
a std map the answer of a lookup could not be stated; the scan is proved against
`last_index`. The tables are small (one per context level, a few thousand keys at most),
and they answer as such a map would: the index under which a name was first stored, or
none.
