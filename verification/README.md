# Share resolver

Resolves a share link of a short-video platform to the media file or the images
of the post, and runs the tasks of a small service that saves them.

The library under `src/` holds what is decided and computed, verified with Verus:

- `text`, `decode`, `patterns`, `script`, `json`, `markup`: texts, escapes,
  documents in scripts, and HTML;
- `weburl`, `address`: URLs, and which of them are accepted as documents, media
  and images;
- `candidates`, `roots`, `collect`, `ranking`, `images`: the media candidates and
  the images of a page, and their rank;
- `fetch`, `resolution`, `response`: what is requested, what the replies mean, and
  what a share link resolves to;
- `config`, `naming`, `files`, `tasks`, `work`, `downloads`: the service;
- `laws`, `collection_laws`, `readings`: what holds across these.

The library has no floating point: numbers of a document are carried as their
place among double-precision numbers, which the caller reads. Scores are counted
in hundredths of a point.

`app/` sends the requests, saves the files, reads the environment and serves the
library over HTTP.
