# goodreads_sh

A command line companion for [Goodreads](https://goodreads.com): update the progress on a
book you are reading, mark a book finished, list your shelves, sign in with OAuth.

The library under `src/` is written in Verus. Its own functions are proved against
their contracts. The calls into other crates (`oauth1` and `oauth-client` to sign,
`roxmltree` to parse XML, `regex` for book links, `url` for form data, `reqwest` for the
HTTP client) and a few of std's string operations sit in small wrappers marked
`#[verifier::external_body]`: their contracts, written from those crates' sources and
documentation, are trusted rather than proved, and each one's doc comment says what it
claims. Results that depend on chance or the clock (an OAuth nonce and timestamp) are
stated only as far as they hold of every outcome.

The modules:

- `text` — characters, splitting and joining, trimming, decimal numbers;
- `oauth` — OAuth headers read back as pairs and as query strings, the token exchange;
- `models` — books, shelves and search results read from the API's XML;
- `api_client` — the client, progress percentages and signed status updates;
- `actions`, `commands` — what the commands decide (the closest title, the chosen book);
- `config` — the settings kept in `~/.goodreads.toml`.

`app/` is the program around it: arguments, the configuration file, the terminal and
the network. The developer key and secret go into `~/.goodreads.toml`:

```sh
developer_key = "<your_key_here>"
developer_secret = "<your_secret_here>"
```
