# bandcamp_sync

A tool that keeps a Bandcamp collection, and albums ripped from CDs, in a
music library on a local folder or a WebDAV server.

The library under `src/` is verified with Verus: every decision the tool
makes is a function with a contract, proved against mathematical models of
its inputs and results.

- `text`, `paths`: characters, trimming, splitting, decimal numbers, and
  slash-separated paths joined and compared as `PathBuf` does.
- `thirdparty`: the calls into SHA-1, base64, regular expressions, HTML
  entity decoding, percent-encoding, URL parsing, HTML scraping and the CPU
  count, each with the contract it is trusted to meet.
- `bandcamp`: collection items, paging through the collection API, finding
  the fan id, and reading album pages into downloads and tags.
- `cd`: tables of contents and disc ids, `cd-discid`, `cdparanoia` and
  CD-TEXT output, MusicBrainz releases turned into albums, and the files,
  commands and tags of a rip.
- `storage`: file-name sanitising, the comparison of a collection with a
  library, dry-run plans, local paths and WebDAV request paths and listings.
- `cli`: filters and ordering of the collection, table and CSV rows, the
  stored login cookie and its expiry, the browser login and WebDriver
  settings, and the progress of a multi-disc CD import.

`app/` is the program around the library: command-line parsing, HTTP,
keyring, browser automation, external tools and file I/O. `tests/` runs the
library on concrete inputs.
