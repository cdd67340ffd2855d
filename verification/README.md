# mail_core

The core of a mail library: the grammar of mail headers (RFC 5322, RFC 6532,
RFC 2047), an encoder that writes header fields with soft line breaks and the
hard line length limit, quoting and encoded words, the components of header
fields (emails, mailboxes, phrases, unstructured text, message ids, ...), and
the data needed to compose a mail from a template.

The library is written in Verus: every function under `src/` carries a
contract which Verus proves.

Layout:

- `src/grammar.rs`, `src/char_validators.rs`: char classes and the grammar of
  encoded words and quoted words.
- `src/codec/`: the header encoder (`encoder.rs`) with its state model, quoting
  (`quoted_string.rs`, `quote.rs`), the "Q" encoding (`quoted_printable.rs`),
  encoded word writers (`writer.rs`), punycode and base64 (`idna.rs`,
  `utf8_to_ascii.rs`) and a recording encoder for tests (`test_utils.rs`).
- `src/data/`: simple items, inputs, quoted strings and encoded words.
- `src/components/`: the components of header fields and how each is written,
  media types and their parameters (RFC 2045, RFC 2231) among them.
- `src/headers/`: header names, the header map (fields in their order of
  insertion, several per name, the same meta data per name), the header
  types of RFC 5322, RFC 2045 and RFC 2183 and the contextual validators
  (`From`/`Sender`, resent blocks).
- `src/compositor/`, `src/composition.rs`: the data of a mail to compose and
  multipart content types.
- `src/default_impl/`: an in-memory file loader, the path logic of a file
  system loader, content id generation.
- `app/`: reading files from the file system.
- `tests/`: tests of the library.

Calls into `idna`, `base64`, `mime` and `rand` (and a few std functions) go through
small trusted wrappers whose contracts state what those functions document.
