//! Plain data carried through the engine: chat roles, model descriptors,
//! the settings record that names a default and a fallback model, and the
//! records the ingestion path logs.

use vstd::prelude::*;
use std::collections::BTreeMap;

verus! {

/// Who authored a chat message.
#[derive(Clone, Copy, Debug, PartialEq, Eq, Structural)]
pub enum Role {
    System,
    User,
    Assistant,
    Function,
}

/// A chat model the session can talk to: its catalog name, its endpoint,
/// and the largest number of tokens one request to it may occupy.
#[derive(Debug)]
pub struct Model {
    pub name: String,
    pub endpoint: String,
    pub token_limit: u32,
}

/// The mathematical view of a `Model`.
pub ghost struct ModelView {
    pub name: Seq<char>,
    pub endpoint: Seq<char>,
    pub token_limit: u32,
}

impl View for Model {
    type V = ModelView;

    open spec fn view(&self) -> ModelView {
        ModelView { name: self.name@, endpoint: self.endpoint@, token_limit: self.token_limit }
    }
}

impl Clone for Model {
    fn clone(&self) -> (r: Model)
        ensures
            r@ == self@,
    {
        Model {
            name: self.name.clone(),
            endpoint: self.endpoint.clone(),
            token_limit: self.token_limit,
        }
    }
}

impl Model {
    /// The stock four-series model.
    pub fn gpt4() -> (m: Model)
        ensures
            m.name@ == "gpt-4"@,
            m.endpoint@ == "/v1/chat/completions"@,
            m.token_limit == 8192,
    {
        Model { name: "gpt-4".to_owned(), endpoint: "/v1/chat/completions".to_owned(), token_limit: 8192 }
    }

    /// The stock turbo model, used as the fallback.
    pub fn gpt3_turbo() -> (m: Model)
        ensures
            m.name@ == "gpt-3.5-turbo"@,
            m.endpoint@ == "/v1/chat/completions"@,
            m.token_limit == 4096,
    {
        Model {
            name: "gpt-3.5-turbo".to_owned(),
            endpoint: "/v1/chat/completions".to_owned(),
            token_limit: 4096,
        }
    }

    /// The long-context turbo model.
    pub fn gpt3_turbo_16k() -> (m: Model)
        ensures
            m.name@ == "gpt-3.5-turbo-16k"@,
            m.endpoint@ == "/v1/chat/completions"@,
            m.token_limit == 16384,
    {
        Model {
            name: "gpt-3.5-turbo-16k".to_owned(),
            endpoint: "/v1/chat/completions".to_owned(),
            token_limit: 16384,
        }
    }
}

/// A bare model name, as read from a settings file.
#[derive(Debug)]
pub struct ModelConfig {
    pub name: String,
}

/// The configured default and fallback models, read once at startup.
/// `load_session` / `save_session` optionally name a session to continue
/// from and a file to flush to.
#[derive(Debug)]
pub struct GPTSettings {
    pub default: Model,
    pub fallback: Model,
    pub load_session: Option<String>,
    pub save_session: Option<String>,
}

/// The field values `GPTSettings` falls back to when no settings file can
/// be parsed.
pub open spec fn default_settings(s: GPTSettings) -> bool {
    &&& s.default.name@ == "gpt-4"@
    &&& s.default.token_limit == 8192
    &&& s.fallback.name@ == "gpt-3.5-turbo-16k"@
    &&& s.fallback.token_limit == 16384
    &&& s.load_session is None
    &&& s.save_session is None
}

impl GPTSettings {
    /// The stock settings: the four-series model with the long-context
    /// turbo model as fallback, and no session to continue or flush.
    pub fn default() -> (s: GPTSettings)
        ensures
            default_settings(s),
    {
        GPTSettings {
            default: Model::gpt4(),
            fallback: Model::gpt3_turbo_16k(),
            load_session: None,
            save_session: None,
        }
    }
    /// Settle what a settings load yields: the parsed record when the file
    /// parsed, the stock defaults otherwise. The file read and the parse
    /// itself happen outside the library; only their outcome is handed in.
    pub fn from_parsed(parsed: Option<GPTSettings>) -> (s: GPTSettings)
        ensures
            parsed matches Some(p) ==> s == p,
            parsed is None ==> default_settings(s),
    {
        match parsed {
            Some(settings) => settings,
            None => GPTSettings::default(),
        }
    }
}

/// The default / fallback pair the resolver chooses from.
pub struct ModelsList {
    pub default: Model,
    pub fallback: Model,
}

/// One complete, non-streamed reply: who spoke and what they said.
pub struct GPTResponse {
    pub role: Role,
    pub content: String,
}

/// One chat message: who speaks and what they say.
#[derive(Debug)]
pub struct Message {
    pub role: Role,
    pub content: String,
}

/// The mathematical view of a `Message`.
pub ghost struct MessageView {
    pub role: Role,
    pub content: Seq<char>,
}

impl View for Message {
    type V = MessageView;

    open spec fn view(&self) -> MessageView {
        MessageView { role: self.role, content: self.content@ }
    }
}

impl Clone for Message {
    fn clone(&self) -> (r: Message)
        ensures
            r@ == self@,
    {
        Message { role: self.role, content: self.content.clone() }
    }
}

/// Which side of the wire a logged message belongs to.
#[derive(Clone, Copy, Debug, PartialEq, Eq, Structural)]
pub enum ChatMessage {
    ChatCompletionRequestMessage,
    ChatCompletionResponseMessage,
}

/// Text extracted from a PDF, one entry per page, with the pages that
/// could not be read.
pub struct PdfText {
    pub text: BTreeMap<u32, Vec<String>>,
    pub errors: Vec<String>,
}

/// One chunk of ingested content, as recorded in the ingestion log.
#[derive(Debug)]
pub struct IngestedData {
    pub session_id: String,
    pub file_path: String,
    pub chunk_num: u32,
    pub content: String,
}

/// A block of URLs found in ingested input, with the text they came from.
pub struct UrlData {
    pub urls: String,
    pub data: String,
}

/// File paths found in ingested input, with the text they came from.
pub struct FilePathData {
    pub file_paths: String,
    pub data: String,
}

/// Ingested input split into its raw text, the URLs it names and the file
/// paths it names.
pub struct IngestData {
    pub text: String,
    pub urls: Vec<String>,
    pub file_paths: Vec<String>,
}

/// One typed parameter of a callable function exposed to the model.
pub struct CommandProperty {
    pub property_type: String,
    pub description: Option<String>,
    pub enum_values: Option<Vec<String>>,
}

/// The mathematical view of a `CommandProperty`.
pub ghost struct CommandPropertyView {
    pub property_type: Seq<char>,
    pub description: Option<Seq<char>>,
    pub enum_values: Option<Seq<Seq<char>>>,
}

impl View for CommandProperty {
    type V = CommandPropertyView;

    open spec fn view(&self) -> CommandPropertyView {
        CommandPropertyView {
            property_type: self.property_type@,
            description: match self.description {
                Option::Some(d) => Option::Some(d@),
                Option::None => Option::None,
            },
            enum_values: match self.enum_values {
                Option::Some(vs) => Option::Some(vs@.map_values(|v: String| v@)),
                Option::None => Option::None,
            },
        }
    }
}

/// The parameter block of a callable function: its type, the required
/// field names, and each named property's schema. Properties are kept in
/// the registry's order, each name listed once.
pub struct CommandParameters {
    pub param_type: String,
    pub required: Vec<String>,
    pub properties: Vec<(String, CommandProperty)>,
}

/// The mathematical view of a `CommandParameters`.
pub ghost struct CommandParametersView {
    pub param_type: Seq<char>,
    pub required: Seq<Seq<char>>,
    pub properties: Seq<(Seq<char>, CommandPropertyView)>,
}

impl View for CommandParameters {
    type V = CommandParametersView;

    open spec fn view(&self) -> CommandParametersView {
        CommandParametersView {
            param_type: self.param_type@,
            required: self.required@.map_values(|v: String| v@),
            properties: self.properties@.map_values(
                |p: (String, CommandProperty)| (p.0@, p.1@),
            ),
        }
    }
}

/// One callable function the request builder may declare to the model.
/// The builder treats this as opaque catalog data; it never computes it.
pub struct Command {
    pub name: String,
    pub description: Option<String>,
    pub parameters: Option<CommandParameters>,
}

/// The mathematical view of a `Command`.
pub ghost struct CommandView {
    pub name: Seq<char>,
    pub description: Option<Seq<char>>,
    pub parameters: Option<CommandParametersView>,
}

impl View for Command {
    type V = CommandView;

    open spec fn view(&self) -> CommandView {
        CommandView {
            name: self.name@,
            description: match self.description {
                Option::Some(d) => Option::Some(d@),
                Option::None => Option::None,
            },
            parameters: match self.parameters {
                Option::Some(p) => Option::Some(p@),
                Option::None => Option::None,
            },
        }
    }
}

/// The static catalog of callable functions, supplied by the surrounding
/// command registry.
pub struct Commands {
    pub commands: Vec<Command>,
}

/// The mathematical view of a catalog: the views of its commands, in
/// catalog order.
pub ghost struct CommandsView {
    pub commands: Seq<CommandView>,
}

impl View for Commands {
    type V = CommandsView;

    open spec fn view(&self) -> CommandsView {
        CommandsView { commands: self.commands@.map_values(|c: Command| c@) }
    }
}

/// Command-line options, as plain values; the argument parsing that fills
/// them lives outside the library.
pub struct Opts {
    pub new: bool,
    pub model: Option<String>,
    pub batch: bool,
    pub include_functions: bool,
    pub list_models: bool,
    pub print_session: String,
    pub continue_session: Option<String>,
    pub ingest: Option<String>,
}

/// Render one conversation line the way the terminal shows it: user lines
/// under a `You:` tag, assistant lines under a `GPT:` tag, nothing for the
/// other roles.
pub fn format_chat_message(role: Role, message: String) -> (line: String)
    ensures
        role == Role::User ==> line@ == "You: "@ + message@ + "\n\r"@,
        role == Role::Assistant ==> line@ == "GPT: "@ + message@ + "\n\r"@,
        role == Role::System || role == Role::Function ==> line@ == Seq::<char>::empty(),
{
    match role {
        Role::User => {
            let mut line = "You: ".to_owned();
            line.append(message.as_str());
            line.append("\n\r");
            line
        },
        Role::Assistant => {
            let mut line = "GPT: ".to_owned();
            line.append(message.as_str());
            line.append("\n\r");
            line
        },
        _ => String::new(),
    }
}

} // verus!
