# rusty_dlna_web

The browser-facing logic of a DLNA media server, as a Verus library: the
functions in `src/` carry contracts, and what they promise is proved.

- `query`, `route`, `text`, `number`, `encoding`: reading and writing requests
  and paths.
- `library`, `listing`, `folder`, `scan`, `budget`, `projection`, `catalog`,
  `order`: pages of the library, folders read in batches and within a budget, and
  the cache of their lists.
- `playback`, `conversion`, `job`: what a playback request asks for, how a title
  is converted for it, and what is done about a conversion under way.
- `title`, `entry`, `codec`, `track`, `capability`: what a browser is told of a
  title and of the server.
- `caption`, `subtitle`: SubRip, SubStation Alpha, SAMI and WebVTT sidecars as
  WebVTT tracks.
- `preview`, `jpeg`, `download`: timeline previews and downloads of originals.
- `http`, `problem`, `asset`, `markup`: responses.
- `status`, `player`, `tally`: how the server is doing.

What a module promises beyond single functions stands at its end, as public
proof functions whose names begin with `law_`.

`tests/` runs the library. `app/` holds handlers around it: they read files, ask
the rest of the server through the trait `Backend`, compute with floating-point
numbers, and serialize documents.
