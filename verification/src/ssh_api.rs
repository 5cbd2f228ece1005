//! SSH sessions and recordings, as the control plane lists them.

use crate::json::{
    bool_at, bool_field, either_field, either_text, either_u64, field_or, item_fields, items_at,
    text_field, u64_field,
};
use crate::membership::{opt_text, texts};
use crate::text::trim_end_of;
use vstd::prelude::*;

verus! {

/// A text, or another where there is none.
pub open spec fn text_or(o: Option<Seq<char>>, other: Seq<char>) -> Seq<char> {
    match o {
        Some(s) => s,
        None => other,
    }
}

fn take_or(o: Option<String>, other: &str) -> (r: String)
    ensures
        r@ == text_or(opt_text(o), other@),
{
    match o {
        Some(s) => s,
        None => other.to_owned(),
    }
}

/// `s` without the run of `c` at its start.
pub open spec fn trim_start_of(s: Seq<char>, c: char) -> Seq<char>
    decreases s.len(),
{
    if s.len() > 0 && s[0] == c {
        trim_start_of(s.drop_first(), c)
    } else {
        s
    }
}

/// A text without the quotes around it.
pub open spec fn unquoted(s: Seq<char>) -> Seq<char> {
    trim_start_of(trim_end_of(s, '"'), '"')
}

fn strip_quotes(s: &str) -> (r: String)
    ensures
        r@ == unquoted(s@),
{
    let cut = crate::text::trim_end(s, '"');
    let n: usize = cut.as_str().unicode_len();
    let mut i: usize = 0;
    proof {
        assert(cut@.skip(0) =~= cut@);
    }
    while i < n && cut.as_str().get_char(i) == '"'
        invariant
            i <= n,
            n == cut@.len(),
            trim_start_of(cut@.skip(i as int), '"') == trim_start_of(cut@, '"'),
        decreases n - i,
    {
        proof {
            assert(cut@.skip(i as int).drop_first() =~= cut@.skip(i + 1));
        }
        i = i + 1;
    }
    proof {
        assert(cut@.subrange(i as int, n as int) =~= cut@.skip(i as int));
    }
    cut.as_str().substring_char(i, n).to_owned()
}

/// The text of whatever is there, without quotes; empty where nothing is.
pub open spec fn rendered(o: Option<Seq<char>>) -> Seq<char> {
    match o {
        Some(s) => unquoted(s),
        None => Seq::empty(),
    }
}

/// What is known of one session.
#[derive(Debug)]
pub struct SshSessionFields {
    pub id: Option<String>,
    pub src_endpoint_id: Option<String>,
    pub dst_endpoint_id: Option<String>,
    pub src_hostname: Option<String>,
    pub dst_hostname: Option<String>,
    pub target_user: Option<String>,
    pub status: Option<String>,
    pub recorded: Option<bool>,
    /// As it stands in the document.
    pub started_at: Option<String>,
    pub duration_ms: Option<u64>,
}

/// One session.
#[derive(Debug)]
pub struct SshSessionInfo {
    pub id: String,
    pub src_endpoint_id: String,
    pub dst_endpoint_id: String,
    pub src_hostname: Option<String>,
    pub dst_hostname: Option<String>,
    pub target_user: String,
    pub status: String,
    pub recorded: bool,
    pub started_at: String,
    pub duration_ms: Option<u64>,
}

pub struct SessionView {
    pub id: Seq<char>,
    pub src_endpoint_id: Seq<char>,
    pub dst_endpoint_id: Seq<char>,
    pub src_hostname: Option<Seq<char>>,
    pub dst_hostname: Option<Seq<char>>,
    pub target_user: Seq<char>,
    pub status: Seq<char>,
    pub recorded: bool,
    pub started_at: Seq<char>,
    pub duration_ms: Option<u64>,
}

impl View for SshSessionInfo {
    type V = SessionView;

    open spec fn view(&self) -> SessionView {
        SessionView {
            id: self.id@,
            src_endpoint_id: self.src_endpoint_id@,
            dst_endpoint_id: self.dst_endpoint_id@,
            src_hostname: opt_text(self.src_hostname),
            dst_hostname: opt_text(self.dst_hostname),
            target_user: self.target_user@,
            status: self.status@,
            recorded: self.recorded,
            started_at: self.started_at@,
            duration_ms: self.duration_ms,
        }
    }
}

/// The session that these fields give: what is missing is empty, and a session
/// counts as recorded only where that is said.
pub open spec fn session_of(f: SshSessionFields) -> SessionView {
    SessionView {
        id: text_or(opt_text(f.id), Seq::empty()),
        src_endpoint_id: text_or(opt_text(f.src_endpoint_id), Seq::empty()),
        dst_endpoint_id: text_or(opt_text(f.dst_endpoint_id), Seq::empty()),
        src_hostname: opt_text(f.src_hostname),
        dst_hostname: opt_text(f.dst_hostname),
        target_user: text_or(opt_text(f.target_user), Seq::empty()),
        status: text_or(opt_text(f.status), Seq::empty()),
        recorded: f.recorded == Some(true),
        started_at: rendered(opt_text(f.started_at)),
        duration_ms: f.duration_ms,
    }
}

pub fn ssh_session(f: SshSessionFields) -> (r: SshSessionInfo)
    ensures
        r@ == session_of(f),
{
    proof {
        reveal_strlit("");
        assert(""@ =~= Seq::<char>::empty());
    }
    let recorded = match f.recorded {
        Some(b) => b,
        None => false,
    };
    let started_at = match f.started_at {
        Some(s) => strip_quotes(s.as_str()),
        None => String::new(),
    };
    SshSessionInfo {
        id: take_or(f.id, ""),
        src_endpoint_id: take_or(f.src_endpoint_id, ""),
        dst_endpoint_id: take_or(f.dst_endpoint_id, ""),
        src_hostname: f.src_hostname,
        dst_hostname: f.dst_hostname,
        target_user: take_or(f.target_user, ""),
        status: take_or(f.status, ""),
        recorded,
        started_at,
        duration_ms: f.duration_ms,
    }
}

/// The session that an item of the control plane's list stands for. Each field
/// may be named in either of two ways.
pub open spec fn session_in(item: Seq<char>) -> SessionView {
    SessionView {
        id: text_or(either_text(item, "id"@, "id"@), Seq::empty()),
        src_endpoint_id: text_or(
            either_text(item, "srcEndpointId"@, "src_endpoint_id"@),
            Seq::empty(),
        ),
        dst_endpoint_id: text_or(
            either_text(item, "dstEndpointId"@, "dst_endpoint_id"@),
            Seq::empty(),
        ),
        src_hostname: either_text(item, "srcHostname"@, "src_hostname"@),
        dst_hostname: either_text(item, "dstHostname"@, "dst_hostname"@),
        target_user: text_or(either_text(item, "targetUser"@, "target_user"@), Seq::empty()),
        status: text_or(either_text(item, "status"@, "status"@), Seq::empty()),
        recorded: bool_at(item, "recorded"@) == Some(true),
        started_at: rendered(either_field(item, "startedAt"@, "started_at"@)),
        duration_ms: either_u64(item, "durationMs"@, "duration_ms"@),
    }
}

fn session_fields(item: &str) -> (r: SshSessionFields)
    ensures
        session_of(r) == session_in(item@),
{
    SshSessionFields {
        id: text_field(item, "id", "id"),
        src_endpoint_id: text_field(item, "srcEndpointId", "src_endpoint_id"),
        dst_endpoint_id: text_field(item, "dstEndpointId", "dst_endpoint_id"),
        src_hostname: text_field(item, "srcHostname", "src_hostname"),
        dst_hostname: text_field(item, "dstHostname", "dst_hostname"),
        target_user: text_field(item, "targetUser", "target_user"),
        status: text_field(item, "status", "status"),
        recorded: bool_field(item, "recorded"),
        started_at: field_or(item, "startedAt", "started_at"),
        duration_ms: u64_field(item, "durationMs", "duration_ms"),
    }
}

pub open spec fn session_views(v: Seq<SshSessionInfo>) -> Seq<SessionView> {
    Seq::new(v.len(), |i: int| v[i]@)
}

/// The sessions in what the control plane answered, in its order.
pub fn list_ssh_sessions(raw: &str) -> (r: Vec<SshSessionInfo>)
    ensures
        session_views(r@) == items_at(raw@, "sessions"@).map_values(
            |item: Seq<char>| session_in(item),
        ),
{
    let items = item_fields(raw, "sessions");
    let ghost docs = texts(items@);
    let mut out: Vec<SshSessionInfo> = Vec::new();
    let mut i: usize = 0;
    while i < items.len()
        invariant
            i <= items@.len(),
            docs == texts(items@),
            out@.len() == i,
            forall|j: int| 0 <= j < i ==> (#[trigger] out@[j])@ == session_in(docs[j]),
        decreases items@.len() - i,
    {
        proof {
            assert(docs[i as int] == items@[i as int]@);
        }
        out.push(ssh_session(session_fields(items[i].as_str())));
        i = i + 1;
    }
    proof {
        assert(session_views(out@) =~= docs.map_values(|item: Seq<char>| session_in(item)));
    }
    out
}

/// What is known of one recording.
#[derive(Debug)]
pub struct SshRecordingFields {
    pub session_id: Option<String>,
    pub src_hostname: Option<String>,
    pub dst_hostname: Option<String>,
    pub target_user: Option<String>,
    pub byte_size: Option<u64>,
    /// As it stands in the document.
    pub created_at: Option<String>,
    pub content_sha256: Option<String>,
}

/// One recording.
#[derive(Debug)]
pub struct SshRecordingInfo {
    pub session_id: String,
    pub src_hostname: Option<String>,
    pub dst_hostname: Option<String>,
    pub target_user: Option<String>,
    pub byte_size: u64,
    pub created_at: String,
    pub content_sha256: Option<String>,
}

pub struct RecordingView {
    pub session_id: Seq<char>,
    pub src_hostname: Option<Seq<char>>,
    pub dst_hostname: Option<Seq<char>>,
    pub target_user: Option<Seq<char>>,
    pub byte_size: u64,
    pub created_at: Seq<char>,
    pub content_sha256: Option<Seq<char>>,
}

impl View for SshRecordingInfo {
    type V = RecordingView;

    open spec fn view(&self) -> RecordingView {
        RecordingView {
            session_id: self.session_id@,
            src_hostname: opt_text(self.src_hostname),
            dst_hostname: opt_text(self.dst_hostname),
            target_user: opt_text(self.target_user),
            byte_size: self.byte_size,
            created_at: self.created_at@,
            content_sha256: opt_text(self.content_sha256),
        }
    }
}

pub open spec fn recording_of(f: SshRecordingFields) -> RecordingView {
    RecordingView {
        session_id: text_or(opt_text(f.session_id), Seq::empty()),
        src_hostname: opt_text(f.src_hostname),
        dst_hostname: opt_text(f.dst_hostname),
        target_user: opt_text(f.target_user),
        byte_size: match f.byte_size {
            Some(n) => n,
            None => 0,
        },
        created_at: rendered(opt_text(f.created_at)),
        content_sha256: opt_text(f.content_sha256),
    }
}

pub fn ssh_recording(f: SshRecordingFields) -> (r: SshRecordingInfo)
    ensures
        r@ == recording_of(f),
{
    proof {
        reveal_strlit("");
        assert(""@ =~= Seq::<char>::empty());
    }
    let created_at = match f.created_at {
        Some(s) => strip_quotes(s.as_str()),
        None => String::new(),
    };
    let byte_size: u64 = match f.byte_size {
        Some(n) => n,
        None => 0,
    };
    SshRecordingInfo {
        session_id: take_or(f.session_id, ""),
        src_hostname: f.src_hostname,
        dst_hostname: f.dst_hostname,
        target_user: f.target_user,
        byte_size,
        created_at,
        content_sha256: f.content_sha256,
    }
}

/// The recording that an item of the control plane's list stands for.
pub open spec fn recording_in(item: Seq<char>) -> RecordingView {
    RecordingView {
        session_id: text_or(either_text(item, "sessionId"@, "session_id"@), Seq::empty()),
        src_hostname: either_text(item, "srcHostname"@, "src_hostname"@),
        dst_hostname: either_text(item, "dstHostname"@, "dst_hostname"@),
        target_user: either_text(item, "targetUser"@, "target_user"@),
        byte_size: match either_u64(item, "byteSize"@, "byte_size"@) {
            Some(n) => n,
            None => 0,
        },
        created_at: rendered(either_field(item, "createdAt"@, "created_at"@)),
        content_sha256: either_text(item, "contentSha256"@, "content_sha256"@),
    }
}

fn recording_fields(item: &str) -> (r: SshRecordingFields)
    ensures
        recording_of(r) == recording_in(item@),
{
    SshRecordingFields {
        session_id: text_field(item, "sessionId", "session_id"),
        src_hostname: text_field(item, "srcHostname", "src_hostname"),
        dst_hostname: text_field(item, "dstHostname", "dst_hostname"),
        target_user: text_field(item, "targetUser", "target_user"),
        byte_size: u64_field(item, "byteSize", "byte_size"),
        created_at: field_or(item, "createdAt", "created_at"),
        content_sha256: text_field(item, "contentSha256", "content_sha256"),
    }
}

pub open spec fn recording_views(v: Seq<SshRecordingInfo>) -> Seq<RecordingView> {
    Seq::new(v.len(), |i: int| v[i]@)
}

/// The recordings in what the control plane answered, in its order.
pub fn list_ssh_recordings(raw: &str) -> (r: Vec<SshRecordingInfo>)
    ensures
        recording_views(r@) == items_at(raw@, "recordings"@).map_values(
            |item: Seq<char>| recording_in(item),
        ),
{
    let items = item_fields(raw, "recordings");
    let ghost docs = texts(items@);
    let mut out: Vec<SshRecordingInfo> = Vec::new();
    let mut i: usize = 0;
    while i < items.len()
        invariant
            i <= items@.len(),
            docs == texts(items@),
            out@.len() == i,
            forall|j: int| 0 <= j < i ==> (#[trigger] out@[j])@ == recording_in(docs[j]),
        decreases items@.len() - i,
    {
        proof {
            assert(docs[i as int] == items@[i as int]@);
        }
        out.push(ssh_recording(recording_fields(items[i].as_str())));
        i = i + 1;
    }
    proof {
        assert(recording_views(out@) =~= docs.map_values(|item: Seq<char>| recording_in(item)));
    }
    out
}

/// A recording's text, its session and its checksum.
#[derive(Debug)]
pub struct SshCast {
    pub session_id: String,
    pub cast_text: String,
    pub content_sha256: String,
}

/// The recording that these fields give; without its text there is none. The
/// session is the one that was asked for unless the answer names one.
pub fn ssh_cast(
    cast_text: Option<String>,
    content_sha256: Option<String>,
    session_id: Option<String>,
    asked: &str,
) -> (r: Result<SshCast, String>)
    ensures
        cast_text is None ==> (r matches Err(e) && e@ == "cast missing"@),
        cast_text matches Some(t) ==> (r matches Ok(c) && c.cast_text@ == t@ && c.content_sha256@
            == text_or(opt_text(content_sha256), Seq::empty()) && c.session_id@ == text_or(
            opt_text(session_id),
            asked@,
        )),
{
    proof {
        reveal_strlit("");
        assert(""@ =~= Seq::<char>::empty());
    }
    match cast_text {
        None => Err("cast missing".to_owned()),
        Some(cast_text) => Ok(
            SshCast {
                session_id: take_or(session_id, asked),
                cast_text,
                content_sha256: take_or(content_sha256, ""),
            },
        ),
    }
}

/// The recording in what the control plane answered.
pub fn get_ssh_cast(raw: &str, session_id: &str) -> (r: Result<SshCast, String>)
    ensures
        match either_text(raw@, "castText"@, "cast_text"@) {
            None => r matches Err(e) && e@ == "cast missing"@,
            Some(t) => r matches Ok(c) && c.cast_text@ == t && c.content_sha256@ == text_or(
                either_text(raw@, "contentSha256"@, "content_sha256"@),
                Seq::empty(),
            ) && c.session_id@ == text_or(
                either_text(raw@, "sessionId"@, "session_id"@),
                session_id@,
            ),
        },
{
    ssh_cast(
        text_field(raw, "castText", "cast_text"),
        text_field(raw, "contentSha256", "content_sha256"),
        text_field(raw, "sessionId", "session_id"),
        session_id,
    )
}

/// The state of a sign-in and the token that proves it: without a state it has
/// failed.
pub fn ssh_auth_state(status: Option<String>, proof_token: Option<String>) -> (r: (
    String,
    Option<String>,
))
    ensures
        r.0@ == text_or(opt_text(status), "failed"@),
        r.1 == proof_token,
{
    (take_or(status, "failed"), proof_token)
}

/// The state of a sign-in in what the control plane answered.
pub fn poll_ssh_auth(raw: &str) -> (r: (String, Option<String>))
    ensures
        r.0@ == text_or(either_text(raw@, "status"@, "status"@), "failed"@),
        opt_text(r.1) == either_text(raw@, "proofToken"@, "proof_token"@),
{
    ssh_auth_state(
        text_field(raw, "status", "status"),
        text_field(raw, "proofToken", "proof_token"),
    )
}

} // verus!
