//! A passive AI chat bot.
//!
//! The bot holds direct (1:1) conversations and answers each message with an
//! online LLM. This crate makes its decisions: every function takes what the
//! outside world said (an event, a clock's reading, a file's contents, an LLM's
//! answer) as an argument and says what to do, and Verus proves that it does
//! what its contract says. The program around it reads, sends and waits.
//!
//! - [`bot`]: what events and finished LLM calls do to the bot's state, what is
//!   sent and what is dispatched.
//! - [`effects`]: what one event or finished call changes, and what it leaves.
//! - [`runs`]: what holds over all that happens to the bot, event after event.
//! - [`convos`]: the bounded, two-tier store of conversations.
//! - [`limits`]: per-conversation flood control and the global daily budget.
//! - [`llm`]: requests to and responses of an OpenAI-compatible backend.
//! - [`config`]: the config file, the secrets and the system prompt.
//! - [`cli`]: the command line.
//! - [`time`]: moments and spans as plain numbers.
//! - [`text`]: decimal numbers, whitespace and other small pieces of text.
pub mod bot;
pub mod cli;
pub mod config;
pub mod convos;
pub mod effects;
pub mod limits;
pub mod llm;
pub mod runs;
pub mod text;
pub mod time;
