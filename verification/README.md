# qqbot

A verified library for a group-chat bot: it decides what to do about each
group message, keeps per-group message counts and rankings, draws the
"partner of the day" and daily fortunes, and keeps bounded conversation
histories for a chat model.

- `src/` is the library, verified with Verus:
  - `text` — words, decimal numbers, prefixes and joining over Unicode text;
  - `mytype` — the data types the bot exchanges;
  - `file_io` — the names of the bot's data files;
  - `tally` — tables from user ids to counts: counting, the daily transfer,
    rankings, and who may be drawn as a partner;
  - `dialogue` — conversation histories and chat-model requests;
  - `produce` — the replies: rankings, partner, fortune, image commands;
  - `bot` — reading gateway events, command dispatch and the daily schedule;
  - `json` — the JSON objects and lists the bot reads.
- `app/` is the program around it: the HTTP server, the gateway and
  chat-model clients, reading and writing files, and the timers.
- `tests/` exercises the library on concrete values.
