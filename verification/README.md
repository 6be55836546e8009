# novel

A scraper that collects light novels from wenku8 and bilinovel, packs each
book into an EPUB file and stores it in Tencent Cloud object storage (COS).

The decisions of the program are a library verified with Verus (`src/`):

- `text`: string operations (trim, search, replace, split, join, decimal
  numbers) with exact specifications over character sequences.
- `cos`: object addresses and the request signature (HMAC-SHA1 through
  rust-crypto).
- `args`: the command line, and which part of a book title `--title` keeps.
- `img`: where chapter images are cached and stored, and the per-page image
  lists of a chapter, which read back from their own text.
- `book`: how the menu becomes chapters and a table of contents, and where
  things are cached and uploaded.
- `wenku8`, `bili`: what each site's pages are turned into.
- `archive`: reading a downloaded cache archive (through the zip crate) and
  where each of its entries is extracted to.
- `retry`: how long to wait out a site's challenge page, and how often a
  failed fetch is tried again.

`app/main.rs` is the program around it: the browser, downloads, files, the
archive of the cache directory and the uploads.

Set `COS_REGION`, `COS_BUCKET`, `COS_APP_ID`, `COS_APP_SECERT` (and
optionally `COS_REFERER`), then run the program with the book's address.
Options: `--title 0|1|2`, `--no-up`, `--sleep seconds`, `--retry count`,
`--proxy host:port`, `--nt json`, `--help`.
