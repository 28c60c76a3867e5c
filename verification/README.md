# eh2telegraph

A bot that synchronizes galleries to pages which can be viewed directly in a
chat. `src/` is the library: everything that the bot decides, with contracts that
Verus proves. `app/` performs what the library decides: requests, chats, timers.

| Module | What it holds |
| --- | --- |
| `handler` | reactions to commands, texts, captions and photos; who may use the bot |
| `request` | what a synchronization command asks for, and how it is delivered |
| `message` | where to look for addresses in messages |
| `links` | page numbers at the end of addresses; the site that an address leads to |
| `active` | synchronizations in progress, and cancelling them |
| `sync` | settings, keys, plans for a synchronization |
| `answer` | answering a request from the cache or by a synchronization |
| `fetch` | fetching the images of a small range |
| `collect` | collecting the images of a range and uploading them in batches |
| `pages` | splitting images into pages and publishing them, the last page first |
| `telegraph`, `upload` | requests to the page service and the image host |
| `text`, `markdown`, `node`, `album`, `buffer` | what the others are made of |

Work that takes time is a state machine in the library (`FetchRun`,
`CollectRun`, `PublishRun`, `UploadRun`, `SyncRun`): it says what it needs next, and is told
what came of it. The proof functions whose names begin with `law_` state what
holds of whole runs and of several calls together.

`Cargo.toml` names `takecell` though no file uses it: `teloxide-core` depends on
it, and its later versions need a newer compiler than the `rust-version` stated
there.
