# dipbot

A Discord bot that keeps per-server statistics (messages, voice time, games played) and
draws them as a user card and a server leaderboard card.

The crate is split in two:

- `src/` is the library, verified with Verus:
  - `text` — decimal text of numbers and its parser, UTF-8 byte truncation and the `...`
    shortening of names, the name a member is shown by, text replacement;
  - `order` — the comparison of counts;
  - `ranking` — the leaderboards (a stable sort by message count), places, sums of counts;
  - `days` — the table of per-day values behind the activity chart;
  - `events` — what the event handlers write and send (server rows, leave notices, new
    members, message counting, which games are recorded, finding a game's row);
  - `cards` — the texts written on the cards (names, places, counts, dates);
  - `legacy` — the rules for carrying members over from the legacy statistics store.
- `app/` is the bot around it: the Discord client, the database entities and queries, the
  drawing of the cards, and everything that works with floating-point numbers.
