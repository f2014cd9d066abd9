//! The remote strategy: what the answers of the model server mean, when the
//! server is taken to be running, and which strategy a configuration gets.

use crate::text::same_text;
use crate::types::MemoryError;
use vstd::prelude::*;

verus! {

/// The canonical name of the model that is asked for where none is named.
pub const DEFAULT_REMOTE_MODEL: &'static str = "BAAI/bge-base-en-v1.5";

/// The command that asks the server whether it is there and for its model.
pub const CMD_PING: &'static str = "ping";

/// The command that asks for the vector of one text.
pub const CMD_EMBED: &'static str = "embed";

/// The command that asks for the vectors of several texts in one request.
pub const CMD_EMBED_BATCH: &'static str = "embed_batch";

/// The command that tells the server to end.
pub const CMD_STOP: &'static str = "stop";

/// How long one exchange with the server may take, in seconds.
pub const REQUEST_TIMEOUT_SECS: u64 = 60;

/// The most bytes that are read of one answer.
pub const MAX_RESPONSE_BYTES: u64 = 1048576;

/// How long to wait between two probes of a server that was started, in
/// seconds.
pub const READY_INTERVAL_SECS: u64 = 1;

/// How often the server is probed after it was started.
pub const READY_ATTEMPTS: u32 = 60;

/// An answer of the server: whether it succeeded, what it carries, and the
/// error it names.
#[derive(Debug)]
pub struct Reply<T> {
    pub ok: bool,
    pub payload: Option<T>,
    pub error: Option<String>,
}

/// The message of an embed failure.
pub open spec fn embed_failure(e: MemoryError) -> Option<Seq<char>> {
    match e {
        MemoryError::EmbedFailure(msg) => Some(msg@),
        _ => None,
    }
}

/// The error that an answer names, or that none is known.
pub open spec fn named_error(error: Option<String>) -> Seq<char> {
    match error {
        Some(e) => e@,
        None => "Unknown error"@,
    }
}

/// What an exchange gave: the payload of an answer that succeeded; an embed
/// failure with the transport's message where the exchange failed, with
/// `missing` where an answer that succeeded carries nothing, and with the
/// error that the answer names where it did not succeed.
pub open spec fn reply_outcome<T>(
    outcome: Result<Reply<T>, String>,
    missing: Seq<char>,
    r: Result<T, MemoryError>,
) -> bool {
    match outcome {
        Err(msg) => r is Err && embed_failure(r->Err_0) == Some(msg@),
        Ok(reply) => if reply.ok {
            match reply.payload {
                Some(p) => r == Ok::<T, MemoryError>(p),
                None => r is Err && embed_failure(r->Err_0) == Some(missing),
            }
        } else {
            r is Err && embed_failure(r->Err_0) == Some(named_error(reply.error))
        },
    }
}

/// Reads what an exchange gave, with `missing` as the message for an answer
/// that succeeded and carries nothing.
pub fn interpret<T>(outcome: Result<Reply<T>, String>, missing: &str) -> (r: Result<T, MemoryError>)
    ensures
        reply_outcome(outcome, missing@, r),
{
    match outcome {
        Err(msg) => Err(MemoryError::EmbedFailure(msg)),
        Ok(reply) => {
            if reply.ok {
                match reply.payload {
                    Some(p) => Ok(p),
                    None => Err(MemoryError::EmbedFailure(String::from_str(missing))),
                }
            } else {
                match reply.error {
                    Some(e) => Err(MemoryError::EmbedFailure(e)),
                    None => Err(MemoryError::EmbedFailure(String::from_str("Unknown error"))),
                }
            }
        },
    }
}

/// The client of the model server.
#[derive(Debug)]
pub struct ServerEmbedder;

impl ServerEmbedder {
    /// A client.
    pub fn new() -> Self {
        ServerEmbedder
    }

    /// The model that the server named in its answer to a ping: empty where
    /// it succeeded and named none.
    pub fn ping(outcome: Result<Reply<String>, String>) -> (r: Result<String, MemoryError>)
        ensures
            match outcome {
                Err(msg) => r is Err && embed_failure(r->Err_0) == Some(msg@),
                Ok(reply) => if reply.ok {
                    r is Ok && r->Ok_0@ == (match reply.payload {
                        Some(m) => m@,
                        None => Seq::<char>::empty(),
                    })
                } else {
                    r is Err && embed_failure(r->Err_0) == Some(named_error(reply.error))
                },
            },
    {
        match outcome {
            Err(msg) => Err(MemoryError::EmbedFailure(msg)),
            Ok(reply) => {
                if reply.ok {
                    match reply.payload {
                        Some(m) => Ok(m),
                        None => Ok(String::new()),
                    }
                } else {
                    match reply.error {
                        Some(e) => Err(MemoryError::EmbedFailure(e)),
                        None => Err(MemoryError::EmbedFailure(String::from_str("Unknown error"))),
                    }
                }
            },
        }
    }

    /// The vector that the server returned for one text; an answer that
    /// succeeded without one is a failure with the message
    /// `No embedding in response`.
    pub fn embed(outcome: Result<Reply<Vec<u32>>, String>) -> (r: Result<Vec<u32>, MemoryError>)
        ensures
            reply_outcome(outcome, "No embedding in response"@, r),
    {
        interpret(outcome, "No embedding in response")
    }

    /// The vectors that the server returned for the texts of one request,
    /// in the order received; an answer that succeeded without them is a
    /// failure with the message `No embeddings in response`.
    pub fn embed_batch(outcome: Result<Reply<Vec<Vec<u32>>>, String>) -> (r: Result<
        Vec<Vec<u32>>,
        MemoryError,
    >)
        ensures
            reply_outcome(outcome, "No embeddings in response"@, r),
    {
        interpret(outcome, "No embeddings in response")
    }

    /// The model that the server works with, from its answer to a ping.
    pub fn get_model(outcome: Result<Reply<String>, String>) -> (r: Result<String, MemoryError>)
        ensures
            match outcome {
                Err(msg) => r is Err && embed_failure(r->Err_0) == Some(msg@),
                Ok(reply) => if reply.ok {
                    r is Ok && r->Ok_0@ == (match reply.payload {
                        Some(m) => m@,
                        None => Seq::<char>::empty(),
                    })
                } else {
                    r is Err && embed_failure(r->Err_0) == Some(named_error(reply.error))
                },
            },
    {
        Self::ping(outcome)
    }

    /// Whether the server is running: its socket exists and a ping
    /// succeeded. `ping` is looked at only where the socket exists.
    pub fn is_running(socket_exists: bool, ping: &Result<String, MemoryError>) -> (b: bool)
        ensures
            b == (socket_exists && ping is Ok),
    {
        if !socket_exists {
            return false;
        }
        match ping {
            Ok(_) => true,
            Err(_) => false,
        }
    }
}

/// The strategy that embeds.
#[derive(Debug, Clone, Copy, PartialEq, Eq, Structural)]
pub enum EmbedderChoice {
    /// The local hashing strategy, as configured.
    Lite,
    /// The model server.
    Server,
    /// The local hashing strategy in place of a server that is not there or
    /// works with another model; the caller warns of it.
    LiteFallback,
}

/// Whether a configuration asks for the local strategy.
pub open spec fn wants_lite(model_name: Option<Seq<char>>, model_type: Seq<char>) -> bool {
    model_type == "lite"@ || model_name == Some("lite"@)
}

/// The model that a configuration asks the server for.
pub open spec fn requested_model(model_name: Option<Seq<char>>) -> Seq<char> {
    match model_name {
        Some(m) => m,
        None => DEFAULT_REMOTE_MODEL@,
    }
}

/// The strategy for a configuration, given the model that a running server
/// reported (`None` where no server is running or it did not answer).
pub open spec fn chosen(
    model_name: Option<Seq<char>>,
    model_type: Seq<char>,
    use_server: bool,
    server_model: Option<Seq<char>>,
) -> EmbedderChoice {
    if wants_lite(model_name, model_type) {
        EmbedderChoice::Lite
    } else if use_server && server_model == Some(requested_model(model_name)) {
        EmbedderChoice::Server
    } else {
        EmbedderChoice::LiteFallback
    }
}

/// The view of a text that may be given.
pub open spec fn given_text(s: Option<&str>) -> Option<Seq<char>> {
    match s {
        Some(t) => Some(t@),
        None => None,
    }
}

/// Whether the server has to be probed before the strategy can be chosen.
pub fn needs_probe(model_name: Option<&str>, model_type: &str, use_server: bool) -> (b: bool)
    ensures
        b == (!wants_lite(given_text(model_name), model_type@) && use_server),
{
    if same_text(model_type, "lite") {
        return false;
    }
    if let Some(m) = model_name {
        if same_text(m, "lite") {
            return false;
        }
    }
    use_server
}

/// Chooses the strategy for a configuration.
pub fn get_embedder(
    model_name: Option<&str>,
    model_type: &str,
    use_server: bool,
    server_model: Option<&str>,
) -> (c: EmbedderChoice)
    ensures
        c == chosen(given_text(model_name), model_type@, use_server, given_text(server_model)),
{
    if same_text(model_type, "lite") {
        return EmbedderChoice::Lite;
    }
    if let Some(m) = model_name {
        if same_text(m, "lite") {
            return EmbedderChoice::Lite;
        }
    }
    if use_server {
        if let Some(reported) = server_model {
            let requested = match model_name {
                Some(m) => m,
                None => DEFAULT_REMOTE_MODEL,
            };
            if same_text(reported, requested) {
                return EmbedderChoice::Server;
            }
        }
    }
    EmbedderChoice::LiteFallback
}

/// What to do after a probe of a server that was started.
#[derive(Debug, Clone, Copy, PartialEq, Eq, Structural)]
pub enum PollAction {
    /// The server answered.
    Ready,
    /// Wait one interval and probe again; `report` says whether to tell the
    /// user that the model is still loading.
    Wait { report: bool },
    /// The server did not come up in time.
    GiveUp,
}

/// The step after probe number `attempt`, counted from 0, of at most
/// `READY_ATTEMPTS`.
pub open spec fn poll_step(attempt: u32, running: bool) -> PollAction {
    if running {
        PollAction::Ready
    } else if attempt + 1 >= READY_ATTEMPTS {
        PollAction::GiveUp
    } else {
        PollAction::Wait { report: attempt > 0 && attempt % 10 == 0 }
    }
}

/// Decides the step after a probe.
pub fn after_probe(attempt: u32, running: bool) -> (a: PollAction)
    ensures
        a == poll_step(attempt, running),
{
    if running {
        PollAction::Ready
    } else if attempt >= READY_ATTEMPTS - 1 {
        PollAction::GiveUp
    } else {
        PollAction::Wait { report: attempt > 0 && attempt % 10 == 0 }
    }
}

} // verus!
