# manga_downloader

A JMComic / 18comic downloader whose core is verified with Verus.

`src/` is the verified library:

- `text` — character-level string work: trimming, ASCII case folding,
  substring search, `i64` parsing, decimal formatting, UTF-8 byte lengths,
  and file-name sanitising.
- `target` — which inputs name a JMComic album or chapter (`jm:<id>`,
  album / chapter / photo URLs, image CDN links) and which hosts are
  JMComic hosts. URLs are parsed by the `url` crate.
- `api` — endpoints, request tokens and headers, query parameters, the
  response envelope, and the scramble id stated in a chapter's template page.
- `crypto` — MD5 hex digests and the decryption of API payloads (Base64,
  AES-256 block by block, PKCS#7, UTF-8).
- `comic` — comic and chapter records, titles, cover URL, image counts, and
  which chapters to fetch.
- `image` — output formats, the scramble block count of a page, the
  row-block unscrambling of a page, and decoding / re-encoding decisions.
- `naming` — byte-limited truncation, download directory names, and the plan
  of one page.
- `plan` — chapter and download plans, metadata, resume clean-up decisions,
  and download outcomes.

`app/` is the command-line program: argument handling, the HTTP client,
concurrency, and file-system work, calling the library for every decision.
