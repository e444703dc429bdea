//! Session memory: validated session ids, where a session is stored, and how a
//! conversation turn is appended to a session with bounded history.
use vstd::prelude::*;
use vstd::string::StringSliceAdditionalSpecFns;
use vstd::utf8::is_ascii_chars_encode_utf8;

use crate::text::{join_path, joined_path, separator, text_bytes};

verus! {

/// One message of a conversation.
#[derive(Debug, Clone)]
pub struct ChatMessage {
    pub role: String,
    pub content: String,
    pub unix_ms: u128,
}

/// The stored memory of one session.
#[derive(Debug, Clone)]
pub struct SessionMemory {
    pub session_id: String,
    pub created_unix_ms: u128,
    pub updated_unix_ms: u128,
    pub messages: Vec<ChatMessage>,
}

/// The mathematical value of a message.
#[verifier::ext_equal]
pub struct ChatMessageView {
    pub role: Seq<char>,
    pub content: Seq<char>,
    pub unix_ms: u128,
}

/// The mathematical value of a session.
#[verifier::ext_equal]
pub struct SessionView {
    pub session_id: Seq<char>,
    pub created_unix_ms: u128,
    pub updated_unix_ms: u128,
    pub messages: Seq<ChatMessageView>,
}

impl View for ChatMessage {
    type V = ChatMessageView;

    open spec fn view(&self) -> ChatMessageView {
        ChatMessageView { role: self.role@, content: self.content@, unix_ms: self.unix_ms }
    }
}

impl View for SessionMemory {
    type V = SessionView;

    open spec fn view(&self) -> SessionView {
        SessionView {
            session_id: self.session_id@,
            created_unix_ms: self.created_unix_ms,
            updated_unix_ms: self.updated_unix_ms,
            messages: self.messages@.map_values(|m: ChatMessage| m@),
        }
    }
}

/// Why a session id was refused.
#[derive(Debug, Clone, Copy, PartialEq, Eq, Structural)]
pub enum SessionIdError {
    /// The id is empty.
    Empty,
    /// The id is longer than 128 bytes.
    TooLong,
    /// The id holds a character other than an ASCII letter or digit, `-` or `_`.
    InvalidCharacter,
}

impl SessionIdError {
    /// The message that describes this error.
    pub fn message(&self) -> (r: String)
        ensures
            *self == SessionIdError::Empty ==> r@ == "session_id cannot be empty"@,
            *self == SessionIdError::TooLong ==> r@ == "session_id length must be <= 128"@,
            *self == SessionIdError::InvalidCharacter ==> r@
                == "session_id supports only letters, numbers, hyphen, and underscore"@,
    {
        match self {
            SessionIdError::Empty => String::from_str("session_id cannot be empty"),
            SessionIdError::TooLong => String::from_str("session_id length must be <= 128"),
            SessionIdError::InvalidCharacter => String::from_str(
                "session_id supports only letters, numbers, hyphen, and underscore",
            ),
        }
    }
}

/// The longest session id, in bytes.
pub const MAX_SESSION_ID_BYTES: usize = 128;

/// Whether `c` may stand in a session id.
pub open spec fn is_session_id_char(c: char) -> bool {
    ||| 'a' <= c <= 'z'
    ||| 'A' <= c <= 'Z'
    ||| '0' <= c <= '9'
    ||| c == '-'
    ||| c == '_'
}

/// Whether every character of `id` may stand in a session id.
pub open spec fn all_session_id_chars(id: Seq<char>) -> bool {
    forall|i: int| 0 <= i < id.len() ==> is_session_id_char(#[trigger] id[i])
}

/// Whether `id` is a valid session id: non-empty, at most 128 characters, all of
/// them ASCII letters, digits, `-` or `_`.
pub open spec fn valid_session_id(id: Seq<char>) -> bool {
    &&& id.len() > 0
    &&& id.len() <= MAX_SESSION_ID_BYTES
    &&& all_session_id_chars(id)
}

/// The verdict on a session id, checked in order: emptiness, then byte length,
/// then the characters.
pub open spec fn session_id_verdict(id: &str) -> Option<SessionIdError> {
    if id@.len() == 0 {
        Some(SessionIdError::Empty)
    } else if id.len() > MAX_SESSION_ID_BYTES {
        Some(SessionIdError::TooLong)
    } else if !all_session_id_chars(id@) {
        Some(SessionIdError::InvalidCharacter)
    } else {
        None
    }
}

/// A session id that passes the character check is ASCII, so its byte length is
/// its length in characters.
proof fn lemma_session_id_bytes(id: &str)
    requires
        all_session_id_chars(id@),
        id@.len() <= usize::MAX,
    ensures
        id.len() == id@.len(),
{
    assert(vstd::utf8::is_ascii_chars(id@)) by {
        assert forall|i| 0 <= i < id@.len() implies '\0' <= #[trigger] id@[i] <= '\u{7f}' by {
            assert(is_session_id_char(id@[i]));
        }
    }
    is_ascii_chars_encode_utf8(id@);
    assert(id.spec_bytes() == vstd::utf8::encode_utf8(id@));
}

/// The verdict on a session id is "accepted" exactly when the id is valid.
pub proof fn lemma_verdict_matches_validity(id: &str)
    requires
        id@.len() <= usize::MAX,
    ensures
        session_id_verdict(id) is None <==> valid_session_id(id@),
{
    if all_session_id_chars(id@) {
        lemma_session_id_bytes(id);
    }
}

/// Checks a session id and returns it unchanged when it is valid.
pub fn normalize_session_id(session_id: &str) -> (r: Result<String, SessionIdError>)
    ensures
        session_id_verdict(session_id) matches Some(e) ==> r == Err::<String, SessionIdError>(e),
        session_id_verdict(session_id) is None ==> (r matches Ok(s) && s@ == session_id@),
        r is Ok <==> valid_session_id(session_id@),
{
    let n = session_id.unicode_len();
    proof {
        lemma_verdict_matches_validity(session_id);
    }
    if n == 0 {
        return Err(SessionIdError::Empty);
    }
    if session_id.len() > MAX_SESSION_ID_BYTES {
        return Err(SessionIdError::TooLong);
    }
    let mut i: usize = 0;
    while i < n
        invariant
            n == session_id@.len(),
            n > 0,
            session_id.len() <= MAX_SESSION_ID_BYTES,
            i <= n,
            forall|j: int| 0 <= j < i ==> is_session_id_char(#[trigger] session_id@[j]),
        decreases n - i,
    {
        let c = session_id.get_char(i);
        let ok = ('a' <= c && c <= 'z') || ('A' <= c && c <= 'Z') || ('0' <= c && c <= '9')
            || c == '-' || c == '_';
        if !ok {
            assert(!is_session_id_char(session_id@[i as int]));
            assert(!all_session_id_chars(session_id@));
            return Err(SessionIdError::InvalidCharacter);
        }
        i = i + 1;
    }
    Ok(String::from_str(session_id))
}

/// The file name of the session `id`: `<id>.json`.
pub open spec fn session_file_name(id: Seq<char>) -> Seq<char> {
    id + ".json"@
}

/// The file that holds the session `id` under the directory `root`.
pub open spec fn session_file(root: Seq<u8>, id: Seq<char>) -> Seq<u8> {
    joined_path(root, text_bytes(session_file_name(id)))
}

/// The directory part that a relative file name is appended to.
pub open spec fn directory_prefix(root: Seq<u8>) -> Seq<u8> {
    if root.len() == 0 || root.last() == separator() {
        root
    } else {
        root + seq![separator()]
    }
}

/// The file name of a valid session id is ASCII and holds no `/`.
proof fn lemma_session_file_name_ascii(id: Seq<char>)
    requires
        valid_session_id(id),
    ensures
        vstd::utf8::is_ascii_chars(session_file_name(id)),
        forall|i: int|
            0 <= i < session_file_name(id).len() ==> #[trigger] session_file_name(id)[i] != '/',
        session_file_name(id).len() > 0 && session_file_name(id)[0] != '/',
{
    reveal_strlit(".json");
    let name = session_file_name(id);
    assert forall|i: int| 0 <= i < name.len() implies name[i] != '/' && '\0' <= #[trigger] name[i]
        <= '\u{7f}' by {
        if i < id.len() {
            assert(is_session_id_char(id[i]));
        }
    }
    assert(is_session_id_char(id[0]));
}

/// A valid session id names a file directly inside the store's directory: the
/// path is the directory, a separator where one is needed, then the bytes of
/// `<id>.json`, and no byte of that file name is a separator, so no valid id
/// reaches outside the directory.
pub proof fn lemma_session_file_inside_root(root: Seq<u8>, id: Seq<char>)
    requires
        valid_session_id(id),
    ensures
        session_file(root, id) == directory_prefix(root) + text_bytes(session_file_name(id)),
        forall|i: int|
            0 <= i < text_bytes(session_file_name(id)).len() ==> #[trigger] text_bytes(
                session_file_name(id),
            )[i] != separator(),
{
    let name = session_file_name(id);
    lemma_session_file_name_ascii(id);
    is_ascii_chars_encode_utf8(name);
    let bytes = text_bytes(name);
    assert forall|i: int| 0 <= i < bytes.len() implies #[trigger] bytes[i] != separator() by {
        assert(name[i] as u8 == bytes[i]);
        assert(name[i] != '/');
        assert('\0' <= name[i] <= '\u{7f}');
    }
    assert(bytes[0] != separator());
}

/// Distinct valid session ids are stored in distinct files.
pub proof fn lemma_session_file_injective(root: Seq<u8>, a: Seq<char>, b: Seq<char>)
    requires
        valid_session_id(a),
        valid_session_id(b),
        session_file(root, a) == session_file(root, b),
    ensures
        a == b,
{
    lemma_session_file_inside_root(root, a);
    lemma_session_file_inside_root(root, b);
    let p = directory_prefix(root);
    let ba = text_bytes(session_file_name(a));
    let bb = text_bytes(session_file_name(b));
    assert(ba =~= session_file(root, a).subrange(p.len() as int, session_file(root, a).len() as int));
    assert(bb =~= session_file(root, b).subrange(p.len() as int, session_file(root, b).len() as int));
    vstd::utf8::encode_utf8_decode_utf8(session_file_name(a));
    vstd::utf8::encode_utf8_decode_utf8(session_file_name(b));
    let na = session_file_name(a);
    let nb = session_file_name(b);
    assert(na == nb);
    assert(a.len() == b.len());
    assert forall|i: int| 0 <= i < a.len() implies a[i] == b[i] by {
        assert(na[i] == a[i]);
        assert(nb[i] == b[i]);
    }
    assert(a =~= b);
}

/// The value of a message with the given role, content and time.
pub open spec fn message_of(role: Seq<char>, content: Seq<char>, at: u128) -> ChatMessageView {
    ChatMessageView { role, content, unix_ms: at }
}

/// The two messages that one turn adds: the user's prompt, then the answer.
pub open spec fn turn_messages(prompt: Seq<char>, answer: Seq<char>, now: u128) -> Seq<ChatMessageView> {
    seq![message_of("user"@, prompt, now), message_of("assistant"@, answer, now)]
}

/// The messages that are kept of `msgs` under the limit `max`: the last `max`
/// of them when `max` is positive and exceeded, else all of them.
pub open spec fn kept_messages(msgs: Seq<ChatMessageView>, max: nat) -> Seq<ChatMessageView> {
    if max > 0 && msgs.len() > max {
        msgs.subrange(msgs.len() - max, msgs.len() as int)
    } else {
        msgs
    }
}

/// The session that a turn starts from: the stored one, or a fresh empty
/// session created now.
pub open spec fn session_before_turn(existing: Option<SessionView>, id: Seq<char>, now: u128) -> SessionView {
    match existing {
        Some(s) => s,
        None => SessionView {
            session_id: id,
            created_unix_ms: now,
            updated_unix_ms: now,
            messages: Seq::empty(),
        },
    }
}

/// The session after one turn of `prompt` answered by `answer` at time `now`,
/// with history bounded by `max` (no bound when `max` is 0).
pub open spec fn session_after_turn(
    existing: Option<SessionView>,
    id: Seq<char>,
    prompt: Seq<char>,
    answer: Seq<char>,
    max: nat,
    now: u128,
) -> SessionView {
    let base = session_before_turn(existing, id, now);
    SessionView {
        session_id: base.session_id,
        created_unix_ms: base.created_unix_ms,
        updated_unix_ms: now,
        messages: kept_messages(base.messages + turn_messages(prompt, answer, now), max),
    }
}

/// The value of an optional stored session.
pub open spec fn optional_session_view(s: Option<SessionMemory>) -> Option<SessionView> {
    match s {
        Some(m) => Some(m@),
        None => None,
    }
}

/// With a positive limit, a session never holds more messages than the limit.
pub proof fn lemma_turn_respects_limit(
    existing: Option<SessionView>,
    id: Seq<char>,
    prompt: Seq<char>,
    answer: Seq<char>,
    max: nat,
    now: u128,
)
    requires
        max > 0,
    ensures
        session_after_turn(existing, id, prompt, answer, max, now).messages.len() <= max,
{
}

/// Unless the limit is 1, the newest turn is always kept: the session ends with
/// the user's prompt followed by the answer, both stamped `now`.
pub proof fn lemma_turn_keeps_latest(
    existing: Option<SessionView>,
    id: Seq<char>,
    prompt: Seq<char>,
    answer: Seq<char>,
    max: nat,
    now: u128,
)
    requires
        max != 1,
    ensures
        ({
            let m = session_after_turn(existing, id, prompt, answer, max, now).messages;
            &&& m.len() >= 2
            &&& m[m.len() - 2] == message_of("user"@, prompt, now)
            &&& m[m.len() - 1] == message_of("assistant"@, answer, now)
        }),
{
}

/// A turn only ever drops the oldest messages: what is kept is a suffix of the
/// previous messages followed by the new turn, in order.
pub proof fn lemma_turn_drops_only_oldest(
    existing: Option<SessionView>,
    id: Seq<char>,
    prompt: Seq<char>,
    answer: Seq<char>,
    max: nat,
    now: u128,
)
    ensures
        ({
            let full = session_before_turn(existing, id, now).messages + turn_messages(
                prompt,
                answer,
                now,
            );
            let m = session_after_turn(existing, id, prompt, answer, max, now).messages;
            &&& m.len() <= full.len()
            &&& m == full.subrange(full.len() - m.len(), full.len() as int)
        }),
{
    let full = session_before_turn(existing, id, now).messages + turn_messages(prompt, answer, now);
    let m = session_after_turn(existing, id, prompt, answer, max, now).messages;
    if !(max > 0 && full.len() > max) {
        assert(full.subrange(0, full.len() as int) =~= full);
    }
}

/// With a positive limit `max`, a turn keeps exactly the newest messages: of the
/// stored messages (none for a new session) followed by the user's prompt and the
/// answer, the session holds the last `max` when there are more than `max`, and all
/// of them otherwise.
pub proof fn lemma_turn_keeps_newest(
    existing: Option<SessionView>,
    id: Seq<char>,
    prompt: Seq<char>,
    answer: Seq<char>,
    max: nat,
    now: u128,
)
    requires
        max > 0,
    ensures
        ({
            let prior = match existing {
                Some(s) => s.messages,
                None => Seq::<ChatMessageView>::empty(),
            };
            let user = (ChatMessageView { role: "user"@, content: prompt, unix_ms: now });
            let assistant = (ChatMessageView { role: "assistant"@, content: answer, unix_ms: now });
            let full = prior.push(user).push(assistant);
            let m = session_after_turn(existing, id, prompt, answer, max, now).messages;
            &&& m.len() == (if full.len() > max {
                max
            } else {
                full.len()
            })
            &&& forall|i: int| 0 <= i < m.len() ==> #[trigger] m[i] == full[full.len() - m.len() + i]
        }),
{
    let prior = match existing {
        Some(s) => s.messages,
        None => Seq::<ChatMessageView>::empty(),
    };
    let user = (ChatMessageView { role: "user"@, content: prompt, unix_ms: now });
    let assistant = (ChatMessageView { role: "assistant"@, content: answer, unix_ms: now });
    let full = prior.push(user).push(assistant);
    assert(session_before_turn(existing, id, now).messages + turn_messages(prompt, answer, now)
        =~= full);
}

/// When the limit is not reached, nothing is dropped: the turn is appended to
/// the previous messages.
pub proof fn lemma_turn_within_limit_appends(
    existing: Option<SessionView>,
    id: Seq<char>,
    prompt: Seq<char>,
    answer: Seq<char>,
    max: nat,
    now: u128,
)
    requires
        max == 0 || session_before_turn(existing, id, now).messages.len() + 2 <= max,
    ensures
        session_after_turn(existing, id, prompt, answer, max, now).messages
            == session_before_turn(existing, id, now).messages + turn_messages(prompt, answer, now),
{
}

/// A turn keeps the session's id and creation time and stamps its update time.
pub proof fn lemma_turn_timestamps(
    existing: Option<SessionView>,
    id: Seq<char>,
    prompt: Seq<char>,
    answer: Seq<char>,
    max: nat,
    now: u128,
)
    ensures
        ({
            let after = session_after_turn(existing, id, prompt, answer, max, now);
            &&& after.updated_unix_ms == now
            &&& existing matches Some(s) ==> after.session_id == s.session_id
                && after.created_unix_ms == s.created_unix_ms
            &&& existing is None ==> after.session_id == id && after.created_unix_ms == now
        }),
{
}

/// Stores sessions as files under one directory.
#[derive(Debug, Clone)]
pub struct MemoryStore {
    root_dir: Vec<u8>,
}

impl MemoryStore {
    /// The directory that holds the sessions.
    pub closed spec fn root(&self) -> Seq<u8> {
        self.root_dir@
    }

    /// A store whose sessions live under `root_dir`.
    pub fn new(root_dir: Vec<u8>) -> (r: MemoryStore)
        ensures
            r.root() == root_dir@,
    {
        MemoryStore { root_dir }
    }

    /// The directory that holds the sessions.
    pub fn root_dir(&self) -> (r: &[u8])
        ensures
            r@ == self.root(),
    {
        self.root_dir.as_slice()
    }

    /// The file that holds the session `session_id`, refused as
    /// `normalize_session_id` refuses it.
    pub fn session_path(&self, session_id: &str) -> (r: Result<Vec<u8>, SessionIdError>)
        ensures
            session_id_verdict(session_id) matches Some(e) ==> r == Err::<Vec<u8>, SessionIdError>(e),
            session_id_verdict(session_id) is None ==> (r matches Ok(p) && p@ == session_file(
                self.root(),
                session_id@,
            )),
    {
        let normalized = normalize_session_id(session_id)?;
        let mut file_name = normalized;
        file_name.append(".json");
        Ok(join_path(self.root_dir.as_slice(), file_name.as_str().as_bytes()))
    }

    /// Appends one turn to a session: the user's `prompt` and the `answer`, both
    /// stamped `now`, to the stored session `existing` or, when there is none, to a
    /// fresh session created now; then keeps only the newest `max_messages` messages
    /// when that limit is positive. An invalid session id is refused as
    /// `normalize_session_id` refuses it.
    pub fn append_turn(
        &self,
        existing: Option<SessionMemory>,
        session_id: &str,
        prompt: &str,
        answer: &str,
        max_messages: usize,
        now: u128,
    ) -> (r: Result<SessionMemory, SessionIdError>)
        ensures
            session_id_verdict(session_id) matches Some(e) ==> r == Err::<SessionMemory, SessionIdError>(e),
            session_id_verdict(session_id) is None ==> (r matches Ok(s) && s@ == session_after_turn(
                optional_session_view(existing),
                session_id@,
                prompt@,
                answer@,
                max_messages as nat,
                now,
            )),
    {
        let _ = normalize_session_id(session_id)?;
        let ghost before = session_before_turn(optional_session_view(existing), session_id@, now);
        let mut session = match existing {
            Some(s) => s,
            None => SessionMemory {
                session_id: String::from_str(session_id),
                created_unix_ms: now,
                updated_unix_ms: now,
                messages: Vec::new(),
            },
        };
        assert(session@.messages =~= before.messages);
        let ghost old_msgs = session.messages@;
        let user = ChatMessage {
            role: String::from_str("user"),
            content: String::from_str(prompt),
            unix_ms: now,
        };
        let assistant = ChatMessage {
            role: String::from_str("assistant"),
            content: String::from_str(answer),
            unix_ms: now,
        };
        session.messages.push(user);
        session.messages.push(assistant);
        session.updated_unix_ms = now;
        let ghost full = before.messages + turn_messages(prompt@, answer@, now);
        assert(session.messages@.map_values(|m: ChatMessage| m@) =~= full);
        if max_messages > 0 && session.messages.len() > max_messages {
            let remove_count = session.messages.len() - max_messages;
            let ghost all = session.messages@;
            let kept = session.messages.split_off(remove_count);
            session.messages = kept;
            assert(session.messages@.map_values(|m: ChatMessage| m@) =~= full.subrange(
                full.len() - max_messages,
                full.len() as int,
            ));
        }
        Ok(session)
    }
}

/// The directory that holds session memory under the configuration directory.
pub fn default_memory_dir(config_dir: &[u8]) -> (r: Vec<u8>)
    ensures
        r@ == joined_path(config_dir@, text_bytes("sessions"@)),
{
    join_path(config_dir, "sessions".as_bytes())
}

} // verus!
