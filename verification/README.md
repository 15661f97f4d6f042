# kiwi_downloader

A Telegram bot that downloads media from YouTube, TikTok, Instagram, Pinterest
and Spotify links with yt-dlp, caches the files it has sent, and speaks eight
languages.

- `src/` is the library, verified with Verus: link recognition, the site of a
  link, yt-dlp's arguments, retries and progress lines, the summary of yt-dlp's
  metadata, the order of downloaded files, the title of a Spotify track, the
  pending requests and their expiry, the routing of messages and button
  presses, the plans for sending files (media groups of at most ten), the file
  cache records, the progress bar and its throttle, and the choice of language
  and of which translation answers (the language asked for, else English, else
  the message key). For each language the library states which FTL file its
  translations were loaded from and which messages with a value they hold, and
  that a text is what Fluent gives for that message and its arguments; what
  Fluent makes of a message's pattern is left to Fluent.
- `app/` is the program around it: settings from the environment, the SQLite
  cache, running yt-dlp, HTTP to Spotify, and the Telegram dispatcher.
- `tests/` runs the library on concrete values.

The translations are read at start-up from `locales/<code>.ftl`, one Fluent
file per language code.
