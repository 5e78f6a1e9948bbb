//! The session: an immutable-for-the-session configuration plus the
//! append-only transaction log, with the entry points that append
//! requests and fold responses, and the naming scheme of session files.

use vstd::prelude::*;
use crate::chunker::CHUNK_TOKEN_LIMIT;
use crate::chunker::spec_chunks;
use crate::chunker::spec_effective_budget;
use crate::chunker::spec_token_count;
use crate::codec::read_session;
use crate::errors::ChunkOverflow;
use crate::codec::spec_dec_session_exact;
use crate::codec::spec_enc_session;
use crate::codec::write_session;
use crate::request::spec_built_request;
use crate::strutil::from_chars;
use crate::strutil::to_chars;
use crate::request::construct_chat_completion_request_message;
use crate::request::construct_request;
use crate::strutil::lemma_u64_string_digits;
use crate::strutil::spec_is_digit;
use crate::strutil::spec_u64_string;
use crate::strutil::u64_string;
use crate::transaction::ChatTransaction;
use crate::transaction::ChatTransactionView;
use crate::transaction::StreamState;
use crate::transaction::StreamedResponse;
use crate::transaction::merge_stream;
use crate::transaction::spec_close_stream;
use crate::transaction::spec_fold_stream;
use crate::transaction::spec_last_open;
use crate::types::Commands;
use crate::types::Message;
use crate::types::Model;
use crate::types::ModelView;
use crate::types::Role;

verus! {

/// The per-session configuration, fixed when the session starts: the
/// system preamble, the time-derived session id, the resolved model, and
/// the request-shaping switches.
pub struct SessionConfig {
    pub prompt: String,
    pub session_id: String,
    pub model: Model,
    pub include_functions: bool,
    pub stream_response: bool,
    pub function_result_max_tokens: usize,
    pub response_max_tokens: usize,
}

/// The mathematical view of a `SessionConfig`.
pub ghost struct SessionConfigView {
    pub prompt: Seq<char>,
    pub session_id: Seq<char>,
    pub model: ModelView,
    pub include_functions: bool,
    pub stream_response: bool,
    pub function_result_max_tokens: usize,
    pub response_max_tokens: usize,
}

impl View for SessionConfig {
    type V = SessionConfigView;

    open spec fn view(&self) -> SessionConfigView {
        SessionConfigView {
            prompt: self.prompt@,
            session_id: self.session_id@,
            model: self.model@,
            include_functions: self.include_functions,
            stream_response: self.stream_response,
            function_result_max_tokens: self.function_result_max_tokens,
            response_max_tokens: self.response_max_tokens,
        }
    }
}

impl Clone for SessionConfig {
    fn clone(&self) -> (r: SessionConfig)
        ensures
            r@ == self@,
    {
        SessionConfig {
            prompt: self.prompt.clone(),
            session_id: self.session_id.clone(),
            model: self.model.clone(),
            include_functions: self.include_functions,
            stream_response: self.stream_response,
            function_result_max_tokens: self.function_result_max_tokens,
            response_max_tokens: self.response_max_tokens,
        }
    }
}

/// Relies on std's `SystemTime::now`: the seconds of the current system
/// time since the Unix epoch (zero in the degenerate case of a clock
/// before the epoch). The result depends on the clock, so nothing is
/// promised of it.
#[verifier::external_body]
fn unix_epoch_secs() -> u64 {
    match std::time::SystemTime::now().duration_since(std::time::UNIX_EPOCH) {
        Ok(elapsed) => elapsed.as_secs(),
        Err(_) => 0,
    }
}

/// A session id is a non-empty string of decimal digits.
pub open spec fn spec_is_session_id(id: Seq<char>) -> bool {
    &&& id.len() >= 1
    &&& forall|i: int| 0 <= i < id.len() ==> spec_is_digit(#[trigger] id[i])
}

/// The field values a fresh session's configuration carries.
pub open spec fn spec_default_config(c: SessionConfigView) -> bool {
    &&& c.prompt.len() == 0
    &&& spec_is_session_id(c.session_id)
    &&& c.model.name == "gpt-4"@
    &&& c.model.token_limit == 8192
    &&& !c.include_functions
    &&& c.stream_response
    &&& c.function_result_max_tokens == 8192
    &&& c.response_max_tokens == 4095
}

impl SessionConfig {
    /// A fresh time-derived session id: the current Unix time in
    /// seconds, rendered in decimal. Uniqueness across concurrently
    /// created sessions relies on the caller spacing generations at
    /// least one second apart.
    pub fn generate_session_id() -> (id: String)
        ensures
            exists|t: nat| id@ == spec_u64_string(t),
            spec_is_session_id(id@),
    {
        let secs = unix_epoch_secs();
        let id = u64_string(secs);
        proof {
            lemma_u64_string_digits(secs as nat);
        }
        id
    }

    /// The system preamble, wrapped as the system-role message the
    /// request opens with.
    pub fn prompt_message(&self) -> (m: Message)
        ensures
            m@.role == Role::System,
            m@.content == self.prompt@,
    {
        Message { role: Role::System, content: self.prompt.clone() }
    }
}

impl Default for SessionConfig {
    fn default() -> (c: SessionConfig)
        ensures
            spec_default_config(c@),
    {
        SessionConfig {
            prompt: String::new(),
            session_id: SessionConfig::generate_session_id(),
            model: Model::gpt4(),
            include_functions: false,
            stream_response: true,
            function_result_max_tokens: 8192,
            response_max_tokens: 4095,
        }
    }
}

/// A chat session: the conversation's transaction log, in order, and the
/// configuration it runs under. The log is append-only; only the most
/// recent open streamed transaction is ever extended in place.
pub struct Session {
    pub transactions: Vec<ChatTransaction>,
    pub config: SessionConfig,
}

/// The mathematical view of a `Session`.
pub ghost struct SessionView {
    pub transactions: Seq<ChatTransactionView>,
    pub config: SessionConfigView,
}

impl View for Session {
    type V = SessionView;

    open spec fn view(&self) -> SessionView {
        SessionView {
            transactions: self.transactions@.map_values(|t: ChatTransaction| t@),
            config: self.config@,
        }
    }
}

impl Session {
    /// A brand-new session: an empty transaction log under a fresh
    /// default configuration.
    pub fn new() -> (s: Session)
        ensures
            s@.transactions.len() == 0,
            spec_default_config(s@.config),
    {
        Session { transactions: Vec::new(), config: SessionConfig::default() }
    }

    /// Turn user input into the outbound request and append it to the
    /// log as a new, immutable `Request` transaction. The appended
    /// request is fully determined by the input, the configuration and
    /// the catalog; the dispatcher picks it up from the log. A chunk of
    /// the input that exceeds the token budget on its own still becomes
    /// a message — degrade gracefully rather than lose data — and comes
    /// back as a `ChunkOverflow` warning.
    pub fn request_response(&mut self, input: &String, catalog: Commands) -> (warnings: Vec<
        ChunkOverflow,
    >)
        ensures
            final(self).config == old(self).config,
            final(self)@.transactions == old(self)@.transactions.push(
                ChatTransactionView::Request(
                    spec_built_request(input@, old(self).config@, catalog@),
                ),
            ),
            ({
                let budget = spec_effective_budget(
                    CHUNK_TOKEN_LIMIT,
                    old(self).config.model.token_limit as usize,
                );
                let chunks = spec_chunks(input@, budget);
                &&& forall|k: int|
                    0 <= k < warnings@.len() ==> {
                        &&& (#[trigger] warnings@[k]).chunk_index < chunks.len()
                        &&& warnings@[k].token_count == spec_token_count(
                            chunks[warnings@[k].chunk_index as int],
                        )
                        &&& warnings@[k].token_count > budget
                    }
                &&& forall|i: int|
                    0 <= i < chunks.len() ==> spec_token_count(#[trigger] chunks[i]) <= budget
                        || (exists|k: int|
                        0 <= k < warnings@.len() && #[trigger] warnings@[k].chunk_index == i)
            }),
    {
        let (messages, warnings) = construct_chat_completion_request_message(
            input,
            &self.config.model,
        );
        let request = construct_request(messages, &self.config, catalog);
        proof {
            assert(request@ == spec_built_request(input@, self.config@, catalog@));
        }
        self.transactions.push(ChatTransaction::Request(request));
        proof {
            let prior = old(self).transactions@.map_values(|t: ChatTransaction| t@);
            assert(self.transactions@.map_values(|t: ChatTransaction| t@) =~= prior.push(
                ChatTransactionView::Request(
                    spec_built_request(input@, old(self).config@, catalog@),
                ),
            ));
        }
        warnings
    }

    /// Land one unit of response in the log. `Request` and `Response`
    /// transactions are always appended as new, immutable entries. A
    /// `StreamResponse` folds into the most recent transaction when that
    /// is an open streamed reply, and opens a new transaction otherwise —
    /// also when it arrives after a terminal finish, where mutating the
    /// closed transaction would be wrong.
    pub fn process_response_handler(&mut self, transaction: ChatTransaction)
        ensures
            final(self).config == old(self).config,
            transaction matches ChatTransaction::StreamResponse(sr) ==> final(self)@.transactions
                == spec_fold_stream(old(self)@.transactions, sr@),
            !(transaction matches ChatTransaction::StreamResponse(_))
                ==> final(self)@.transactions == old(self)@.transactions.push(transaction@),
    {
        match transaction {
            ChatTransaction::StreamResponse(sr) => {
                let ghost log0 = self@.transactions;
                let n = self.transactions.len();
                let mut fold_into_last = false;
                if n > 0 {
                    match &self.transactions[n - 1] {
                        ChatTransaction::StreamResponse(prev) => {
                            if prev.state == StreamState::Open {
                                fold_into_last = true;
                            }
                        },
                        _ => {},
                    }
                }
                proof {
                    if n > 0 {
                        assert(log0[n as int - 1] == self.transactions@[n as int - 1]@);
                    }
                    assert(fold_into_last == spec_last_open(log0));
                }
                if fold_into_last {
                    let last = self.transactions.pop();
                    match last {
                        Option::Some(ChatTransaction::StreamResponse(prev)) => {
                            let merged = merge_stream(prev, sr);
                            self.transactions.push(ChatTransaction::StreamResponse(merged));
                            proof {
                                assert(self.transactions@.map_values(|t: ChatTransaction| t@)
                                    =~= spec_fold_stream(log0, sr@));
                            }
                        },
                        _ => {
                            proof {
                                assert(false);
                            }
                        },
                    }
                } else {
                    self.transactions.push(ChatTransaction::StreamResponse(sr));
                    proof {
                        assert(self.transactions@.map_values(|t: ChatTransaction| t@)
                            =~= spec_fold_stream(log0, sr@));
                    }
                }
            },
            other => {
                let ghost otherv = other@;
                let ghost prior = self@.transactions;
                self.transactions.push(other);
                proof {
                    assert(self.transactions@.map_values(|t: ChatTransaction| t@) =~= prior.push(
                        otherv,
                    ));
                }
            },
        }
    }

    /// The stream channel ended without a terminal finish reason: close
    /// the open streamed transaction, if there is one, so that any late
    /// fragment opens a new transaction instead of extending this one.
    pub fn close_open_stream(&mut self)
        ensures
            final(self).config == old(self).config,
            final(self)@.transactions == spec_close_stream(old(self)@.transactions),
    {
        let ghost log0 = self@.transactions;
        let n = self.transactions.len();
        let mut fold_into_last = false;
        if n > 0 {
            match &self.transactions[n - 1] {
                ChatTransaction::StreamResponse(prev) => {
                    if prev.state == StreamState::Open {
                        fold_into_last = true;
                    }
                },
                _ => {},
            }
        }
        proof {
            if n > 0 {
                assert(log0[n as int - 1] == self.transactions@[n as int - 1]@);
            }
            assert(fold_into_last == spec_last_open(log0));
        }
        if fold_into_last {
            let last = self.transactions.pop();
            match last {
                Option::Some(ChatTransaction::StreamResponse(prev)) => {
                    self.transactions.push(
                        ChatTransaction::StreamResponse(
                            StreamedResponse { choices: prev.choices, state: StreamState::Closed },
                        ),
                    );
                    proof {
                        assert(self.transactions@.map_values(|t: ChatTransaction| t@)
                            =~= spec_close_stream(log0));
                    }
                },
                _ => {
                    proof {
                        assert(false);
                    }
                },
            }
        }
    }

    /// Serialize the session — its transaction log and its configuration
    /// — to the text its session file holds. The caller writes the text
    /// to the file named by the session id; writing is expected to
    /// replace the old file atomically, so that no reader observes a
    /// half-written session.
    pub fn save_session(&self) -> (data: String)
        ensures
            data@ == spec_enc_session(self@),
    {
        let mut out: Vec<char> = Vec::new();
        write_session(&mut out, self);
        proof {
            assert(out@ =~= spec_enc_session(self@));
        }
        from_chars(&out)
    }

    /// What loading makes of a session file's contents (`None` when no
    /// file exists): the stored session when the text decodes
    /// completely, and a brand-new empty session under a fresh default
    /// configuration otherwise. A missing or corrupt session file never
    /// fails the process — availability over strictness.
    pub fn from_save_data(data: Option<&String>) -> (s: Session)
        ensures
            match data {
                Option::Some(d) => match spec_dec_session_exact(d@) {
                    Option::Some(v) => s@ == v,
                    Option::None => s@.transactions.len() == 0 && spec_default_config(s@.config),
                },
                Option::None => s@.transactions.len() == 0 && spec_default_config(s@.config),
            },
    {
        match data {
            Option::Some(d) => {
                let chars = to_chars(d.as_str());
                match read_session(&chars, 0) {
                    Option::Some((sess, p)) => {
                        if p == chars.len() {
                            sess
                        } else {
                            Session::new()
                        }
                    },
                    Option::None => Session::new(),
                }
            },
            Option::None => Session::new(),
        }
    }

    /// Loading a session by id: the file read happens outside the
    /// library, and its outcome — the file's contents, or `None` when no
    /// file under that id exists — is handed in. A stored session comes
    /// back exactly; anything else yields a brand-new session instead of
    /// an error.
    pub fn load_session_by_id(_session_id: String, data: Option<&String>) -> (s: Session)
        ensures
            match data {
                Option::Some(d) => match spec_dec_session_exact(d@) {
                    Option::Some(v) => s@ == v,
                    Option::None => s@.transactions.len() == 0 && spec_default_config(s@.config),
                },
                Option::None => s@.transactions.len() == 0 && spec_default_config(s@.config),
            },
    {
        Session::from_save_data(data)
    }

    /// The file name a session is stored under: its id plus the `.json`
    /// suffix.
    pub fn get_session_filename(session_id: String) -> (f: String)
        ensures
            f@ == session_id@ + ".json"@,
    {
        let mut f = session_id;
        f.append(".json");
        f
    }

    /// The path of a session's file: its file name inside the session
    /// data directory.
    pub fn get_session_filepath(session_id: String) -> (p: String)
        ensures
            p@ == "session_data/"@ + session_id@ + ".json"@,
    {
        let mut p = "session_data/".to_owned();
        p.append(session_id.as_str());
        p.append(".json");
        proof {
            assert(p@ =~= "session_data/"@ + session_id@ + ".json"@);
        }
        p
    }

    /// The path of the pointer file that names the most recently active
    /// session.
    pub fn get_last_session_file_path() -> (p: String)
        ensures
            p@ == "session_data/last_session.txt"@,
    {
        "session_data/last_session.txt".to_owned()
    }
}

} // verus!
