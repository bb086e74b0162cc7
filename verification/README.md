# mitm_cache

A caching man-in-the-middle proxy. In one mode it records what passes through it: for each URL the
hash or the text of the response, or where it redirects to. In the other it replays responses from
a directory of fetched files.

`src/` holds the decisions, verified with Verus; `app/` holds the program that does the I/O they
ask for.

| module       | what it is about                                                            |
|--------------|-----------------------------------------------------------------------------|
| `uri`        | URIs as parts, and the normal form under which responses are filed          |
| `record`     | the recording exchange, step by step: state and event to state and action   |
| `body`       | what is kept of a body while it passes through                              |
| `pages`      | what has been recorded, and its layout in the description of the cache      |
| `replay`     | where a response is looked for, and what is answered                        |
| `laws`       | what holds of every recorded exchange                                       |
| `string_map` | maps kept in the order of their keys                                        |
| `pattern`, `header`, `digest`, `reply`, `text` | the smaller pieces                        |

The functions marked `external_body` call `hyper`, `regex`, `sha2`, `base64` and the standard
library; the comment above each says what is taken on trust.
