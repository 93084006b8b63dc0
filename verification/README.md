# secrets-manager

A minimal secrets manager: key/value secrets kept as lines of text in one
gpg-encrypted file, with three operations (`add`, `get`, `list`).

The library under `src/` is verified with Verus:

- `text`: searching, trimming (Unicode white space), splitting into fields and
  lines, joining lines.
- `order`: the order of keys (their UTF-8 bytes, as `String` compares them).
- `codec`, `timestamp`: base64 (`base64` crate), UTF-8, lower case, and RFC 3339
  instants (`chrono`), behind small trusted wrappers.
- `format`: the line of a record, `key:value:timestamp` or
  `b64:KEY:VALUE:timestamp`, and reading a line back.
- `model`: `Secrets` (sorted, one entry per key), reading and writing the whole
  text; the text written reads back as the same secrets.
- `manager`: validation and `SecretsManager` over any `SecretsStore`.
- `store`, `crypto`: the settings of the gpg file store, the gpg command lines
  and how gpg's output is read.
- `config`, `cli`: the defaults file and the program's decisions.

`app/` is the command-line program: argument parsing, the terminal, the files
and the `gpg` process.
