# Data Fortress

Data Fortress keeps an index of the files in a set of directories. It classifies
them, finds copies, sorts files into folders, searches them and backs them up.

`src/` is the library, written in Verus: every function states in its contract
what it gives, and Verus proves it.

| Module      | What it holds                                                      |
|-------------|--------------------------------------------------------------------|
| `scanner`   | what a walk through a directory records; file types                |
| `dedup`     | hashes, groups of copies, which copy stays                         |
| `organizer` | where a file belongs, moves, and the log that takes them back      |
| `search`    | scoring and ranking, text out of documents, EXIF metadata, snippets |
| `backup`    | names, manifests and reports of backup archives                    |
| `web`       | what the pages of the dashboard show, and what they change         |
| `db`, `rows`| the index and its queries; the rows that it is stored in           |
| `config`, `cli`, `error`, `models` | settings, requests, errors and records      |
| `text`, `folding`, `paths`, `time`, `order`, `sizes` | what the others are built on |

The proof functions that are public state what holds of the library as a whole:
that a dry run records nothing, that one copy of a file always stays, that a
manifest lists exactly the files that an archive holds, and so on.

What other crates and the standard library do is stated where they are called, in
functions marked `external_body`; their comments say what is taken on trust.

`app/` is the program around the library: the command line, the file system,
SQLite, the archives and the web server. `tests/` runs the library.
