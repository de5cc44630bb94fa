# dialogos

A passive AI chat bot: it holds direct conversations and answers each message
with an online LLM. The crate under `src/` makes every decision of the bot and
is verified with Verus; the program under `app/` reads, sends and waits.

## Layout

```
src/
  bot.rs      what events and finished LLM calls do, what is sent and dispatched
  runs.rs     what holds over all that happens to the bot, event after event
  convos.rs   bounded two-tier per-conversation store
  limits.rs   per-conversation sliding window + persisted global daily budget
  llm.rs      requests, responses and retries of an OpenAI-compatible backend
  config.rs   config file, secrets and system prompt
  cli.rs      command line
  time.rs     moments and spans as plain numbers
  text.rs     decimal numbers, whitespace and other small pieces of text
tests/        the library driven from outside
app/          the program: files, environment, HTTP, threads, the chat client
```

## What is proved

Each function's contract is stated over a mathematical view of the bot: the
state of every conversation, the budget and the counters. What holds over
several calls is stated by the public proof functions whose names start with
`law_`, next to what they speak of.

What is taken for granted is said at the declarations that Verus does not look
into: `std::path::Path` in `config.rs`, `char::is_whitespace` in `text.rs`,
`core::str::from_utf8` in `bot.rs` and the `StatusCode` of `reqwest` in `llm.rs`.

## Budget file

`<db_path>.budget.json` holds the day (counted from the Unix epoch) and what was
spent on it, as in `{"day":20000,"messages":2,"tokens":1300}`. A file that holds
anything else is treated as no file.
