use roots::server::{
    after_probe, get_embedder, interpret, needs_probe, EmbedderChoice, PollAction, Reply,
    ServerEmbedder,
};
use roots::types::MemoryError;

fn message(r: Result<String, MemoryError>) -> String {
    match r {
        Err(MemoryError::EmbedFailure(m)) => m,
        other => panic!("no embed failure: {:?}", other),
    }
}

fn reply<T>(ok: bool, payload: Option<T>, error: Option<&str>) -> Result<Reply<T>, String> {
    Ok(Reply { ok, payload, error: error.map(|e| e.to_string()) })
}

#[test]
fn a_ping_gives_the_model_of_the_server() {
    assert_eq!(ServerEmbedder::ping(reply(true, Some("m".to_string()), None)).unwrap(), "m");
    assert_eq!(ServerEmbedder::ping(reply(true, None, None)).unwrap(), "");
    assert_eq!(message(ServerEmbedder::ping(reply(false, Some("m".to_string()), Some("loading")))), "loading");
    assert_eq!(message(ServerEmbedder::ping(reply(false, None, None))), "Unknown error");
    assert_eq!(message(ServerEmbedder::ping(Err("Failed to connect to server: refused".to_string()))), "Failed to connect to server: refused");
    assert_eq!(ServerEmbedder::get_model(reply(true, Some("m".to_string()), None)).unwrap(), "m");
    let _ = ServerEmbedder::new();
}

#[test]
fn an_answer_is_read_by_its_fields() {
    let ok: Result<Vec<u32>, MemoryError> = interpret(reply(true, Some(vec![1, 2]), None), "No embedding in response");
    assert_eq!(ok.unwrap(), vec![1, 2]);
    let missing: Result<Vec<u32>, MemoryError> = interpret(reply(true, None, Some("ignored")), "No embedding in response");
    assert!(matches!(missing, Err(MemoryError::EmbedFailure(m)) if m == "No embedding in response"));
    let failed: Result<Vec<u32>, MemoryError> = interpret(reply(false, Some(vec![1]), Some("boom")), "No embedding in response");
    assert!(matches!(failed, Err(MemoryError::EmbedFailure(m)) if m == "boom"));
    let unknown: Result<Vec<u32>, MemoryError> = interpret(reply(false, None, None), "No embedding in response");
    assert!(matches!(unknown, Err(MemoryError::EmbedFailure(m)) if m == "Unknown error"));
    let transport: Result<Vec<u32>, MemoryError> = interpret(Err("timed out".to_string()), "No embedding in response");
    assert!(matches!(transport, Err(MemoryError::EmbedFailure(m)) if m == "timed out"));
}

#[test]
fn the_server_runs_where_socket_and_ping_agree() {
    let up: Result<String, MemoryError> = Ok("m".to_string());
    let down: Result<String, MemoryError> = Err(MemoryError::EmbedFailure("x".to_string()));
    assert!(ServerEmbedder::is_running(true, &up));
    assert!(!ServerEmbedder::is_running(false, &up));
    assert!(!ServerEmbedder::is_running(true, &down));
    assert!(!ServerEmbedder::is_running(false, &down));
}

#[test]
fn the_strategy_follows_configuration_and_server() {
    assert_eq!(get_embedder(Some("lite"), "lite", true, Some("x")), EmbedderChoice::Lite);
    assert_eq!(get_embedder(Some("lite"), "sentence-transformers", true, None), EmbedderChoice::Lite);
    assert_eq!(get_embedder(None, "lite", false, None), EmbedderChoice::Lite);
    assert_eq!(get_embedder(Some("a/b"), "sentence-transformers", true, Some("a/b")), EmbedderChoice::Server);
    assert_eq!(get_embedder(Some("a/b"), "sentence-transformers", true, Some("c/d")), EmbedderChoice::LiteFallback);
    assert_eq!(get_embedder(Some("a/b"), "sentence-transformers", true, None), EmbedderChoice::LiteFallback);
    assert_eq!(get_embedder(Some("a/b"), "sentence-transformers", false, Some("a/b")), EmbedderChoice::LiteFallback);
    assert_eq!(get_embedder(None, "sentence-transformers", true, Some("BAAI/bge-base-en-v1.5")), EmbedderChoice::Server);
    assert_eq!(get_embedder(None, "sentence-transformers", true, Some("other")), EmbedderChoice::LiteFallback);

    assert!(!needs_probe(Some("lite"), "x", true));
    assert!(!needs_probe(None, "lite", true));
    assert!(!needs_probe(Some("a/b"), "x", false));
    assert!(needs_probe(Some("a/b"), "x", true));
    assert!(needs_probe(None, "x", true));
}

#[test]
fn the_poll_waits_sixty_times() {
    assert_eq!(after_probe(0, true), PollAction::Ready);
    assert_eq!(after_probe(59, true), PollAction::Ready);
    assert_eq!(after_probe(0, false), PollAction::Wait { report: false });
    assert_eq!(after_probe(9, false), PollAction::Wait { report: false });
    assert_eq!(after_probe(10, false), PollAction::Wait { report: true });
    assert_eq!(after_probe(50, false), PollAction::Wait { report: true });
    assert_eq!(after_probe(58, false), PollAction::Wait { report: false });
    assert_eq!(after_probe(59, false), PollAction::GiveUp);
    assert_eq!(after_probe(u32::MAX, false), PollAction::GiveUp);
}

#[test]
fn replies_to_embed_requests_have_their_messages() {
    assert_eq!(ServerEmbedder::embed(reply(true, Some(vec![1, 2]), None)).unwrap(), vec![1, 2]);
    assert!(matches!(
        ServerEmbedder::embed(reply(true, None, None)),
        Err(MemoryError::EmbedFailure(m)) if m == "No embedding in response"
    ));
    assert!(matches!(
        ServerEmbedder::embed(reply(false, None, Some("model not loaded"))),
        Err(MemoryError::EmbedFailure(m)) if m == "model not loaded"
    ));
    assert!(matches!(
        ServerEmbedder::embed(reply(false, Some(vec![1]), None)),
        Err(MemoryError::EmbedFailure(m)) if m == "Unknown error"
    ));
    assert_eq!(
        ServerEmbedder::embed_batch(reply(true, Some(vec![vec![1], vec![2, 3]]), None)).unwrap(),
        vec![vec![1], vec![2, 3]]
    );
    assert!(matches!(
        ServerEmbedder::embed_batch(reply(true, None, None)),
        Err(MemoryError::EmbedFailure(m)) if m == "No embeddings in response"
    ));
    assert!(matches!(
        ServerEmbedder::embed_batch(Err("Failed to read response: timed out".to_string())),
        Err(MemoryError::EmbedFailure(m)) if m == "Failed to read response: timed out"
    ));
}

#[test]
fn the_commands_of_the_protocol_are_fixed() {
    assert_eq!(roots::server::CMD_PING, "ping");
    assert_eq!(roots::server::CMD_EMBED, "embed");
    assert_eq!(roots::server::CMD_EMBED_BATCH, "embed_batch");
    assert_eq!(roots::server::CMD_STOP, "stop");
}
