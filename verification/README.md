# uess

The logic of a Discord moderation and utility bot, verified with Verus.

- `src/` is the verified library:
  - `text`, `number`: trimming, searching, line splitting, joining, `u64` parsing and decimal
    writing, each with a contract over `Seq<char>`.
  - `honeypot`: which messages are deleted and whose authors are banned.
  - `aur_check`: the local malware lists, the remote list's format, the `/aur-check` verdict and
    reply.
  - `cleanse`, `source_code`, `command`: slash-command definitions and the `/cleanse` decisions.
  - `compile`: reading a fenced code block, the Godbolt link and the reply to a compiled program.
  - `qotd`: the question of the day and when it is posted.
- `app/` is the bot itself: the Discord client (serenity), HTTP requests (reqwest), the
  environment and the event loop. It hands plain values to the library and acts on what it
  returns.
- `tests/` runs the library on concrete values.
