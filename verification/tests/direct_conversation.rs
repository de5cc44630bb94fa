//! End to end over an in-process transport: a peer opens a direct conversation
//! with the bot and exchanges a message, and the real event-handling code path
//! greets and replies. The LLM backend is a deterministic fake and a returned
//! `Job` is settled inline (standing in for the worker pool).

use std::cell::RefCell;
use std::collections::VecDeque;
use std::rc::Rc;

use dialogos::bot::{
    handle_event, handle_outcome, BotState, ConversationClass, Event, Outcome, SendError,
    SendMessage,
};
use dialogos::config::{Behavior, Config, Identity, Llm};
use dialogos::limits::Limits;
use dialogos::llm::{Completion, LlmBackend, LlmError, Turn};
use dialogos::time::{Duration, Instant};

struct FakeBackend {
    reply: String,
}

impl LlmBackend for FakeBackend {
    fn complete(&self, _system: &str, _history: &[Turn]) -> Result<Completion, LlmError> {
        Ok(Completion {
            text: self.reply.clone(),
            tokens_used: Some(7),
        })
    }
}

fn test_config() -> Config {
    Config {
        identity: Identity {
            db_path: String::new(),
            db_key: String::new(),
            registry_url: None,
        },
        llm: Llm {
            base_url: String::new(),
            model: String::new(),
            api_key: String::new(),
            max_output_tokens: 128,
            temperature_bits: 0.0f32.to_bits(),
            request_timeout: Duration::from_secs(1),
            workers: 1,
        },
        limits: Limits {
            per_convo_window: Duration::from_secs(300),
            per_convo_max_messages: 10,
            daily_max_messages: 1_000,
            daily_max_tokens: 1_000_000,
            max_active_conversations: 1_024,
            max_known_conversations: 65_536,
        },
        behavior: Behavior {
            greeting: "hello from the bot".to_string(),
            system_prompt: "you are a test bot".to_string(),
            history_turns: 4,
            ignore_groups: true,
        },
    }
}

/// The two ends of an in-process transport: what each side has yet to receive.
#[derive(Clone, Default)]
struct Bus {
    to_bot: Rc<RefCell<VecDeque<Event>>>,
    to_peer: Rc<RefCell<VecDeque<Vec<u8>>>>,
}

impl Bus {
    fn create_direct_conversation(&self) -> String {
        let convo_id = "direct-1".to_string();
        self.to_bot
            .borrow_mut()
            .push_back(Event::ConversationStarted {
                convo_id: convo_id.clone(),
                class: ConversationClass::Private,
            });
        convo_id
    }

    fn send_message(&self, convo_id: &str, bytes: &[u8]) {
        self.to_bot.borrow_mut().push_back(Event::MessageReceived {
            convo_id: convo_id.to_string(),
            content: bytes.to_vec(),
        });
    }

    fn recv_message(&self) -> Vec<u8> {
        self.to_peer.borrow_mut().pop_front().expect("a message")
    }
}

impl SendMessage for Bus {
    fn send(&mut self, _convo_id: &str, bytes: &[u8]) -> Result<(), SendError> {
        self.to_peer.borrow_mut().push_back(bytes.to_vec());
        Ok(())
    }
}

#[test]
fn bot_greets_and_replies_over_in_process_transport() {
    let peer = Bus::default();
    let mut bot_client = peer.clone();
    let cfg = test_config();
    let backend = FakeBackend {
        reply: "the answer is 42".to_string(),
    };
    let mut state = BotState::new();

    // Peer opens a direct conversation with the bot.
    let peer_convo = peer.create_direct_conversation();

    // Drive the bot's ConversationStarted -> it greets.
    drain_bot_events(&mut state, &mut bot_client, &backend, &cfg);
    assert_eq!(peer.recv_message(), b"hello from the bot");

    // Peer asks a question; drive the bot's MessageReceived -> it replies.
    peer.send_message(&peer_convo, b"what is the answer?");
    drain_bot_events(&mut state, &mut bot_client, &backend, &cfg);
    assert_eq!(peer.recv_message(), b"the answer is 42");
}

/// Process every currently-pending bot event, settling any dispatched reply
/// inline with the fake backend.
fn drain_bot_events(
    state: &mut BotState,
    client: &mut Bus,
    backend: &dyn LlmBackend,
    cfg: &Config,
) {
    loop {
        let event = match client.to_bot.borrow_mut().pop_front() {
            Some(event) => event,
            None => return,
        };
        let now = Instant::from_nanos(0);
        let today = 0;
        let mut job = handle_event(event, state, client, cfg, now, today);
        while let Some(j) = job.take() {
            let result = backend.complete(&cfg.behavior.system_prompt, &j.context);
            let outcome = Outcome {
                convo_id: j.convo_id,
                result,
            };
            job = handle_outcome(outcome, state, client, cfg, today, true);
        }
    }
}
