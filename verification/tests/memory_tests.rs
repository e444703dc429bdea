use nanoaios::memory::{
    default_memory_dir, normalize_session_id, ChatMessage, MemoryStore, SessionIdError,
    SessionMemory,
};

#[test]
fn session_id_validation() {
    assert!(normalize_session_id("abc_123-xy").is_ok());
    assert!(normalize_session_id("").is_err());
    assert!(normalize_session_id("../bad").is_err());
    assert!(normalize_session_id("non_ascii").is_ok());
    assert!(normalize_session_id("\u{4F60}\u{597D}").is_err());
    assert!(normalize_session_id("bad/id").is_err());
}

#[test]
fn session_id_errors_are_told_apart() {
    assert_eq!(normalize_session_id(""), Err(SessionIdError::Empty));
    assert_eq!(normalize_session_id(&"a".repeat(129)), Err(SessionIdError::TooLong));
    assert_eq!(normalize_session_id("a b"), Err(SessionIdError::InvalidCharacter));
    // Fifty three-byte characters make 150 bytes: the length is checked before the characters.
    assert_eq!(normalize_session_id(&"\u{4F60}".repeat(50)), Err(SessionIdError::TooLong));
    assert_eq!(normalize_session_id(&"\u{4F60}".repeat(40)), Err(SessionIdError::InvalidCharacter));
}

#[test]
fn session_id_length_edge() {
    let max = "x".repeat(128);
    assert_eq!(normalize_session_id(&max).unwrap(), max);
    assert_eq!(normalize_session_id("A-Z_09").unwrap(), "A-Z_09");
}

#[test]
fn session_id_error_messages() {
    assert_eq!(SessionIdError::Empty.message(), "session_id cannot be empty");
    assert_eq!(SessionIdError::TooLong.message(), "session_id length must be <= 128");
    assert_eq!(
        SessionIdError::InvalidCharacter.message(),
        "session_id supports only letters, numbers, hyphen, and underscore"
    );
}

#[test]
fn session_path_inside_root() {
    let store = MemoryStore::new(b"/home/u/.nanoaios/sessions".to_vec());
    assert_eq!(store.session_path("demo01").unwrap(), b"/home/u/.nanoaios/sessions/demo01.json");
    assert_eq!(store.session_path("../bad"), Err(SessionIdError::InvalidCharacter));
    // A directory that is not UTF-8 is kept byte for byte.
    let raw = MemoryStore::new(b"/home/\xff\xfe".to_vec());
    assert_eq!(raw.session_path("x").unwrap(), b"/home/\xff\xfe/x.json");
    let trailing = MemoryStore::new(b"/tmp/s/".to_vec());
    assert_eq!(trailing.session_path("a").unwrap(), b"/tmp/s/a.json");
    let empty_root = MemoryStore::new(Vec::new());
    assert_eq!(empty_root.session_path("a").unwrap(), b"a.json");
    assert_eq!(store.root_dir(), b"/home/u/.nanoaios/sessions");
}

#[test]
fn default_memory_dir_joins_sessions() {
    assert_eq!(default_memory_dir(b"/home/u/.nanoaios"), b"/home/u/.nanoaios/sessions");
    assert_eq!(default_memory_dir(b"/home/u/.nanoaios/"), b"/home/u/.nanoaios/sessions");
}

fn msg(role: &str, content: &str, at: u128) -> ChatMessage {
    ChatMessage { role: role.to_string(), content: content.to_string(), unix_ms: at }
}

fn roles_and_contents(s: &SessionMemory) -> Vec<(String, String, u128)> {
    s.messages.iter().map(|m| (m.role.clone(), m.content.clone(), m.unix_ms)).collect()
}

#[test]
fn append_turn_to_new_session() {
    let store = MemoryStore::new(b"/tmp/sessions".to_vec());
    let s = store.append_turn(None, "demo01", "hi", "hello", 50, 1000).unwrap();
    assert_eq!(s.session_id, "demo01");
    assert_eq!(s.created_unix_ms, 1000);
    assert_eq!(s.updated_unix_ms, 1000);
    assert_eq!(
        roles_and_contents(&s),
        vec![
            ("user".to_string(), "hi".to_string(), 1000),
            ("assistant".to_string(), "hello".to_string(), 1000)
        ]
    );
}

#[test]
fn append_turn_keeps_existing_and_trims_oldest() {
    let store = MemoryStore::new(b"/tmp/sessions".to_vec());
    let existing = SessionMemory {
        session_id: "demo01".to_string(),
        created_unix_ms: 5,
        updated_unix_ms: 7,
        messages: vec![msg("user", "a", 5), msg("assistant", "b", 5), msg("user", "c", 7)],
    };
    let s = store.append_turn(Some(existing), "demo01", "d", "e", 3, 9).unwrap();
    assert_eq!(s.created_unix_ms, 5);
    assert_eq!(s.updated_unix_ms, 9);
    assert_eq!(
        roles_and_contents(&s),
        vec![
            ("user".to_string(), "c".to_string(), 7),
            ("user".to_string(), "d".to_string(), 9),
            ("assistant".to_string(), "e".to_string(), 9)
        ]
    );
}

#[test]
fn append_turn_unbounded_when_limit_zero() {
    let store = MemoryStore::new(b"/tmp/sessions".to_vec());
    let mut s = store.append_turn(None, "x", "1", "2", 0, 1).unwrap();
    for t in 2..20u128 {
        s = store.append_turn(Some(s), "x", "p", "q", 0, t).unwrap();
    }
    assert_eq!(s.messages.len(), 38);
    assert_eq!(s.created_unix_ms, 1);
    assert_eq!(s.updated_unix_ms, 19);
}

#[test]
fn append_turn_respects_limit_over_many_turns() {
    let store = MemoryStore::new(b"/tmp/sessions".to_vec());
    let mut s = store.append_turn(None, "x", "p0", "a0", 4, 0).unwrap();
    for t in 1..10u128 {
        s = store.append_turn(Some(s), "x", &format!("p{t}"), &format!("a{t}"), 4, t).unwrap();
        assert!(s.messages.len() <= 4);
    }
    let last = &s.messages[s.messages.len() - 1];
    assert_eq!(last.content, "a9");
    assert_eq!(s.messages[s.messages.len() - 2].content, "p9");
}

#[test]
fn append_turn_limit_one_keeps_only_answer() {
    let store = MemoryStore::new(b"/tmp/sessions".to_vec());
    let s = store.append_turn(None, "x", "p", "a", 1, 3).unwrap();
    assert_eq!(roles_and_contents(&s), vec![("assistant".to_string(), "a".to_string(), 3)]);
}

#[test]
fn append_turn_refuses_bad_id() {
    let store = MemoryStore::new(b"/tmp/sessions".to_vec());
    assert_eq!(
        store.append_turn(None, "bad/id", "p", "a", 5, 1).map(|s| s.messages.len()),
        Err(SessionIdError::InvalidCharacter)
    );
    assert_eq!(store.append_turn(None, "", "p", "a", 5, 1).map(|_| ()), Err(SessionIdError::Empty));
}
