//! The request builder: turns chunked user input plus session
//! configuration into a provider-shaped chat completion request. Pure: no
//! I/O and no session mutation.

use vstd::prelude::*;
use crate::chunker::Chunkifier;
use crate::chunker::spec_token_count;
use crate::errors::ChunkOverflow;
use crate::chunker::CHUNK_TOKEN_LIMIT;
use crate::chunker::spec_chunks;
use crate::chunker::spec_effective_budget;
use crate::chunker::string_views;
use crate::session::SessionConfig;
use crate::session::SessionConfigView;
use crate::types::Commands;
use crate::types::CommandsView;
use crate::types::Message;
use crate::types::MessageView;
use crate::types::Model;
use crate::types::Role;

verus! {

/// The exact outbound request: target model name, ordered messages, the
/// function catalog when enabled, and the streaming flag.
pub struct ChatRequest {
    pub model: String,
    pub messages: Vec<Message>,
    pub functions: Option<Commands>,
    pub stream: bool,
}

/// The mathematical view of a `ChatRequest`.
pub ghost struct ChatRequestView {
    pub model: Seq<char>,
    pub messages: Seq<MessageView>,
    pub functions: Option<CommandsView>,
    pub stream: bool,
}

impl View for ChatRequest {
    type V = ChatRequestView;

    open spec fn view(&self) -> ChatRequestView {
        ChatRequestView {
            model: self.model@,
            messages: self.messages@.map_values(|m: Message| m@),
            functions: match self.functions {
                Option::Some(c) => Option::Some(c@),
                Option::None => Option::None,
            },
            stream: self.stream,
        }
    }
}

/// The messages a chunked text turns into: one user-role message per
/// chunk, in chunk order.
pub open spec fn spec_user_messages(chunks: Seq<Seq<char>>) -> Seq<MessageView> {
    chunks.map_values(|c: Seq<char>| MessageView { role: Role::User, content: c })
}

/// The request that `construct_request` assembles for a given input,
/// configuration and catalog. Fully determined by its arguments, so
/// building a request twice from the same state gives the same request.
pub open spec fn spec_built_request(
    input: Seq<char>,
    config: SessionConfigView,
    catalog: CommandsView,
) -> ChatRequestView {
    ChatRequestView {
        model: config.model.name,
        messages: spec_user_messages(
            spec_chunks(
                input,
                spec_effective_budget(CHUNK_TOKEN_LIMIT, config.model.token_limit as usize),
            ),
        ),
        functions: if config.include_functions {
            Option::Some(catalog)
        } else {
            Option::None
        },
        stream: config.stream_response,
    }
}

/// Chunk `content` against the model's limits and wrap each chunk, in
/// order, as one user-role message. A chunk that exceeds the budget on
/// its own — a single line too long to fit — still becomes a message
/// (nothing is dropped) and is reported in the returned `ChunkOverflow`
/// warnings.
pub fn construct_chat_completion_request_message(content: &String, model: &Model) -> (r: (
    Vec<Message>,
    Vec<ChunkOverflow>,
))
    ensures
        r.0@.map_values(|m: Message| m@) == spec_user_messages(
            spec_chunks(
                content@,
                spec_effective_budget(CHUNK_TOKEN_LIMIT, model.token_limit as usize),
            ),
        ),
        ({
            let budget = spec_effective_budget(CHUNK_TOKEN_LIMIT, model.token_limit as usize);
            let chunks = spec_chunks(content@, budget);
            &&& forall|k: int|
                0 <= k < r.1@.len() ==> {
                    &&& (#[trigger] r.1@[k]).chunk_index < chunks.len()
                    &&& r.1@[k].token_count == spec_token_count(
                        chunks[r.1@[k].chunk_index as int],
                    )
                    &&& r.1@[k].token_count > budget
                }
            &&& forall|i: int|
                0 <= i < chunks.len() ==> spec_token_count(#[trigger] chunks[i]) <= budget || (
                exists|k: int| 0 <= k < r.1@.len() && #[trigger] r.1@[k].chunk_index == i)
        }),
{
    let ghost budget = spec_effective_budget(CHUNK_TOKEN_LIMIT, model.token_limit as usize);
    let (chunks, overflows) = Chunkifier::parse_input(
        content,
        CHUNK_TOKEN_LIMIT,
        model.token_limit as usize,
    );
    proof {
        assert forall|k: int|
            0 <= k < overflows@.len() implies {
            &&& (#[trigger] overflows@[k]).chunk_index < spec_chunks(content@, budget).len()
            &&& overflows@[k].token_count == spec_token_count(
                spec_chunks(content@, budget)[overflows@[k].chunk_index as int],
            )
            &&& overflows@[k].token_count > budget
        } by {
            let idx = overflows@[k].chunk_index as int;
            assert(chunks@[idx]@ == string_views(chunks@)[idx]);
        }
        assert forall|i: int|
            0 <= i < spec_chunks(content@, budget).len() implies spec_token_count(
            #[trigger] spec_chunks(content@, budget)[i],
        ) <= budget || (exists|k: int|
            0 <= k < overflows@.len() && #[trigger] overflows@[k].chunk_index == i) by {
            assert(chunks@[i]@ == string_views(chunks@)[i]);
            if spec_token_count(chunks@[i]@) > budget {
                let k = choose|k: int|
                    0 <= k < overflows@.len() && (#[trigger] overflows@[k]).chunk_index == i;
                assert(overflows@[k].chunk_index == i);
            }
        }
    }
    let mut messages: Vec<Message> = Vec::new();
    let mut i: usize = 0;
    while i < chunks.len()
        invariant
            i <= chunks@.len(),
            messages@.len() == i,
            forall|k: int|
                0 <= k < i ==> (#[trigger] messages@[k])@ == (MessageView {
                    role: Role::User,
                    content: chunks@[k]@,
                }),
        decreases chunks@.len() - i,
    {
        let chunk = chunks[i].clone();
        messages.push(Message { role: Role::User, content: chunk });
        i = i + 1;
    }
    proof {
        assert(messages@.map_values(|m: Message| m@) =~= spec_user_messages(
            string_views(chunks@),
        ));
    }
    let ghost final_warns = overflows@;
    let r = (messages, overflows);
    assert(r.1@ == final_warns);
    proof {
        let chunks_spec = spec_chunks(content@, budget);
        assert forall|k: int|
            0 <= k < r.1@.len() implies {
            &&& (#[trigger] r.1@[k]).chunk_index < chunks_spec.len()
            &&& r.1@[k].token_count == spec_token_count(chunks_spec[r.1@[k].chunk_index as int])
            &&& r.1@[k].token_count > budget
        } by {
            assert(r.1@[k] == final_warns[k]);
        }
        assert forall|i: int|
            0 <= i < chunks_spec.len() implies spec_token_count(#[trigger] chunks_spec[i])
            <= budget || (exists|k: int|
            0 <= k < r.1@.len() && #[trigger] r.1@[k].chunk_index == i) by {
            if spec_token_count(chunks_spec[i]) > budget {
                let k = choose|k: int|
                    0 <= k < final_warns.len() && (#[trigger] final_warns[k]).chunk_index == i;
                assert(r.1@[k].chunk_index == i);
            }
        }
    }
    r
}

/// Assemble the outbound request: the messages in order, the catalog
/// injected verbatim iff the configuration enables functions, and the
/// streaming flag copied from the configuration — the single source of
/// truth the transport reads to choose its dispatch path.
pub fn construct_request(messages: Vec<Message>, config: &SessionConfig, catalog: Commands) -> (req:
    ChatRequest)
    ensures
        req@.model == config.model.name@,
        req@.messages == messages@.map_values(|m: Message| m@),
        config.include_functions ==> req@.functions == Option::Some(catalog@),
        !config.include_functions ==> req@.functions is None,
        req.stream == config.stream_response,
{
    let functions = if config.include_functions {
        Option::Some(catalog)
    } else {
        Option::None
    };
    ChatRequest {
        model: config.model.name.clone(),
        messages,
        functions,
        stream: config.stream_response,
    }
}

} // verus!
