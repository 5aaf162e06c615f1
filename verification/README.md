# media-purger

Finds media on a Jellyfin server that every user who counts has watched and that is
nobody's favorite, groups it into seasons and series, and deletes it if asked to.

- `src/` is the library, verified with Verus: who counts (`audience`), what they have
  played and marked (`history`, `paging`), what lies above an item (`ancestry`), which
  items may be deleted (`selection`), how they are grouped (`grouping`), what is shown
  (`display`, `size`, `time`, `report`), how groups are picked (`picker`), confirmed
  (`confirm`) and deleted (`deletion`). `laws` holds what is true of these together.
- `app/` is the program: command line, requests to the server, and the screen.
- `tests/` runs the library.

## Usage

```
media-purger                 # list what would be deleted
media-purger --interactive   # pick what is deleted
media-purger --delete-watched-but-not-favourited-yes-i-am-really-sure
```

The server is given with `--jellyfin-url` and `--jellyfin-api-key`, or with
`JELLYFIN_URL` and `JELLYFIN_API_KEY` in the environment or a `.env` file.
`--watched-by` names the users who must have watched an item, `--protected-by` those
whose favorites are kept; by default both are all users. `--ignore-favorites` keeps
nothing on account of favorites. `--min-days-watched-ago N` keeps what was watched
within the last `N` days.
