//! Workspace domain types: channels, messages, reactions, files and the
//! process-event jobs that carry them.
use vstd::prelude::*;

verus! {

/// A copy of an optional string, equal to the original.
pub fn clone_opt_string(o: &Option<String>) -> (r: Option<String>)
    ensures
        r == *o,
{
    match o {
        Some(s) => Some(s.clone()),
        None => None,
    }
}

#[derive(Debug, Clone, Copy, PartialEq, Eq)]
pub enum WorkspaceMode {
    SingleWorkspace,
}

impl WorkspaceMode {
    pub fn as_str(self) -> (r: &'static str)
        ensures
            r@ == "single_workspace"@,
    {
        match self {
            WorkspaceMode::SingleWorkspace => "single_workspace",
        }
    }
}

#[derive(Debug, Clone, Copy, PartialEq, Eq)]
pub enum ChannelKind {
    Public,
    Private,
    Direct,
    Unknown,
}

/// The name under which a channel kind is stored.
pub open spec fn channel_kind_name(kind: ChannelKind) -> Seq<char> {
    match kind {
        ChannelKind::Public => "public"@,
        ChannelKind::Private => "private"@,
        ChannelKind::Direct => "direct"@,
        ChannelKind::Unknown => "unknown"@,
    }
}

/// The kind that a channel id's first character announces.
pub open spec fn kind_of_channel_id(id: Seq<char>) -> ChannelKind {
    if id.len() == 0 {
        ChannelKind::Unknown
    } else if id[0] == 'C' {
        ChannelKind::Public
    } else if id[0] == 'G' {
        ChannelKind::Private
    } else if id[0] == 'D' {
        ChannelKind::Direct
    } else {
        ChannelKind::Unknown
    }
}

/// The kind that a Slack conversation type names.
pub open spec fn kind_of_channel_type(t: Seq<char>) -> ChannelKind {
    if t == "channel"@ || t == "public_channel"@ {
        ChannelKind::Public
    } else if t == "group"@ || t == "private_channel"@ {
        ChannelKind::Private
    } else if t == "im"@ || t == "mpim"@ {
        ChannelKind::Direct
    } else {
        ChannelKind::Unknown
    }
}

/// The kind that a stored kind name denotes (the inverse of `channel_kind_name`).
pub open spec fn kind_of_name(name: Seq<char>) -> ChannelKind {
    if name == "public"@ {
        ChannelKind::Public
    } else if name == "private"@ {
        ChannelKind::Private
    } else if name == "direct"@ {
        ChannelKind::Direct
    } else {
        ChannelKind::Unknown
    }
}

/// Whether `s` spells the literal `lit`.
fn str_is(s: &str, lit: &str) -> (r: bool)
    ensures
        r == (s@ == lit@),
{
    let a = crate::text::chars_of(s);
    let b = crate::text::chars_of(lit);
    crate::text::chars_eq(&a, &b)
}

impl ChannelKind {
    pub fn from_channel_id(channel_id: &str) -> (r: ChannelKind)
        ensures
            r == kind_of_channel_id(channel_id@),
    {
        let cs = crate::text::chars_of(channel_id);
        if cs.len() == 0 {
            ChannelKind::Unknown
        } else if cs[0] == 'C' {
            ChannelKind::Public
        } else if cs[0] == 'G' {
            ChannelKind::Private
        } else if cs[0] == 'D' {
            ChannelKind::Direct
        } else {
            ChannelKind::Unknown
        }
    }

    pub fn from_channel_type(channel_type: &str) -> (r: ChannelKind)
        ensures
            r == kind_of_channel_type(channel_type@),
            channel_type@ == "channel"@ || channel_type@ == "public_channel"@ ==> r == ChannelKind::Public,
            channel_type@ == "group"@ || channel_type@ == "private_channel"@ ==> r == ChannelKind::Private,
            channel_type@ == "im"@ || channel_type@ == "mpim"@ ==> r == ChannelKind::Direct,
    {
        proof {
            lemma_slack_conversation_types(channel_type@);
        }
        if str_is(channel_type, "channel") || str_is(channel_type, "public_channel") {
            ChannelKind::Public
        } else if str_is(channel_type, "group") || str_is(channel_type, "private_channel") {
            ChannelKind::Private
        } else if str_is(channel_type, "im") || str_is(channel_type, "mpim") {
            ChannelKind::Direct
        } else {
            ChannelKind::Unknown
        }
    }

    pub fn as_str(self) -> (r: &'static str)
        ensures
            r@ == channel_kind_name(self),
    {
        match self {
            ChannelKind::Public => "public",
            ChannelKind::Private => "private",
            ChannelKind::Direct => "direct",
            ChannelKind::Unknown => "unknown",
        }
    }

    pub fn is_public(self) -> (r: bool)
        ensures
            r == (self == ChannelKind::Public),
    {
        matches!(self, ChannelKind::Public)
    }
}

/// Reads a stored channel kind name back.
pub fn parse_channel_kind(value: &str) -> (r: ChannelKind)
    ensures
        r == kind_of_name(value@),
{
    if str_is(value, "public") {
        ChannelKind::Public
    } else if str_is(value, "private") {
        ChannelKind::Private
    } else if str_is(value, "direct") {
        ChannelKind::Direct
    } else {
        ChannelKind::Unknown
    }
}

/// Slack's conversation types name the kinds: `channel` and `public_channel`
/// are public, `group` and `private_channel` private, `im` and `mpim` direct,
/// and any other type is unknown.
pub proof fn lemma_slack_conversation_types(t: Seq<char>)
    ensures
        t == "channel"@ || t == "public_channel"@ ==> kind_of_channel_type(t) == ChannelKind::Public,
        t == "group"@ || t == "private_channel"@ ==> kind_of_channel_type(t) == ChannelKind::Private,
        t == "im"@ || t == "mpim"@ ==> kind_of_channel_type(t) == ChannelKind::Direct,
        kind_of_channel_type(t) == ChannelKind::Unknown <==> !(t == "channel"@ || t == "public_channel"@ || t == "group"@
            || t == "private_channel"@ || t == "im"@ || t == "mpim"@),
{
    reveal_strlit("channel");
    reveal_strlit("public_channel");
    reveal_strlit("group");
    reveal_strlit("private_channel");
    reveal_strlit("im");
    reveal_strlit("mpim");
    assert("channel"@.len() == 7 && "public_channel"@.len() == 14 && "group"@.len() == 5);
    assert("private_channel"@.len() == 15 && "im"@.len() == 2 && "mpim"@.len() == 4);
}

/// Reading back the stored name of a channel kind gives the kind again.
pub proof fn lemma_channel_kind_name_round_trip(kind: ChannelKind)
    ensures
        kind_of_name(channel_kind_name(kind)) == kind,
{
    reveal_strlit("public");
    reveal_strlit("private");
    reveal_strlit("direct");
    reveal_strlit("unknown");
    assert("private"@ != "public"@ ) by { assert("private"@.len() != "public"@.len()); }
    assert("direct"@ != "public"@) by { assert("direct"@[0] != "public"@[0]); }
    assert("direct"@ != "private"@) by { assert("direct"@.len() != "private"@.len()); }
    assert("unknown"@ != "public"@) by { assert("unknown"@.len() != "public"@.len()); }
    assert("unknown"@ != "private"@) by { assert("unknown"@[0] != "private"@[0]); }
    assert("unknown"@ != "direct"@) by { assert("unknown"@.len() != "direct"@.len()); }
}

#[derive(Debug, PartialEq, Eq)]
pub struct Message {
    pub channel_id: String,
    pub ts: String,
    pub thread_ts: Option<String>,
    pub user_id: Option<String>,
    pub text: String,
}

impl Clone for Message {
    fn clone(&self) -> (r: Self)
        ensures
            r == *self,
    {
        Message {
            channel_id: self.channel_id.clone(),
            ts: self.ts.clone(),
            thread_ts: clone_opt_string(&self.thread_ts),
            user_id: clone_opt_string(&self.user_id),
            text: self.text.clone(),
        }
    }
}

#[derive(Debug, PartialEq, Eq)]
pub struct Reaction {
    pub channel_id: String,
    pub message_ts: String,
    pub user_id: String,
    pub name: String,
}

impl Clone for Reaction {
    fn clone(&self) -> (r: Self)
        ensures
            r == *self,
    {
        Reaction {
            channel_id: self.channel_id.clone(),
            message_ts: self.message_ts.clone(),
            user_id: self.user_id.clone(),
            name: self.name.clone(),
        }
    }
}

#[derive(Debug, PartialEq, Eq)]
pub struct File {
    pub id: String,
    pub channel_id: String,
    pub message_ts: String,
    pub name: String,
    pub mimetype: Option<String>,
    pub permalink: Option<String>,
    pub size: Option<u64>,
}

impl Clone for File {
    fn clone(&self) -> (r: Self)
        ensures
            r == *self,
    {
        File {
            id: self.id.clone(),
            channel_id: self.channel_id.clone(),
            message_ts: self.message_ts.clone(),
            name: self.name.clone(),
            mimetype: clone_opt_string(&self.mimetype),
            permalink: clone_opt_string(&self.permalink),
            size: self.size,
        }
    }
}

#[derive(Debug, PartialEq, Eq)]
pub struct SharedFile {
    pub id: String,
    pub name: String,
    pub mimetype: Option<String>,
    pub permalink: Option<String>,
    pub size: Option<u64>,
}

impl Clone for SharedFile {
    fn clone(&self) -> (r: Self)
        ensures
            r == *self,
    {
        SharedFile {
            id: self.id.clone(),
            name: self.name.clone(),
            mimetype: clone_opt_string(&self.mimetype),
            permalink: clone_opt_string(&self.permalink),
            size: self.size,
        }
    }
}

#[derive(Debug, PartialEq, Eq)]
pub struct Thread {
    pub channel_id: String,
    pub root_ts: String,
}

impl Clone for Thread {
    fn clone(&self) -> (r: Self)
        ensures
            r == *self,
    {
        Thread { channel_id: self.channel_id.clone(), root_ts: self.root_ts.clone() }
    }
}

#[derive(Debug, PartialEq, Eq)]
pub struct Channel {
    pub id: String,
    pub kind: ChannelKind,
    pub name: Option<String>,
    pub is_archived: bool,
}

impl Clone for Channel {
    fn clone(&self) -> (r: Self)
        ensures
            r == *self,
    {
        Channel {
            id: self.id.clone(),
            kind: self.kind,
            name: clone_opt_string(&self.name),
            is_archived: self.is_archived,
        }
    }
}

#[derive(Debug, PartialEq, Eq)]
pub struct User {
    pub id: String,
    pub display_name: Option<String>,
    pub is_active: bool,
}

impl Clone for User {
    fn clone(&self) -> (r: Self)
        ensures
            r == *self,
    {
        User {
            id: self.id.clone(),
            display_name: clone_opt_string(&self.display_name),
            is_active: self.is_active,
        }
    }
}

#[derive(Debug, Clone, PartialEq, Eq)]
pub enum EventPayload {
    Message {
        user_id: Option<String>,
        text: Option<String>,
        ts: String,
        thread_ts: Option<String>,
        files: Vec<SharedFile>,
    },
    ReactionAdded { user_id: String, reaction: String, item_ts: String },
    ChannelUpdated { name: Option<String>, is_archived: Option<bool> },
}

#[derive(Debug, Clone, PartialEq, Eq)]
pub struct ProcessEventJob {
    pub event_id: String,
    pub team_id: String,
    pub event_time: i64,
    pub received_at: i64,
    pub channel_id: String,
    pub channel_kind: ChannelKind,
    pub payload: EventPayload,
}

impl ProcessEventJob {
    pub fn targets_public_channel(&self) -> (r: bool)
        ensures
            r == (self.channel_kind == ChannelKind::Public),
    {
        self.channel_kind.is_public()
    }
}

/// The name under which an event kind is logged and stored.
pub open spec fn payload_kind_name(payload: EventPayload) -> Seq<char> {
    match payload {
        EventPayload::Message { .. } => "message"@,
        EventPayload::ReactionAdded { .. } => "reaction_added"@,
        EventPayload::ChannelUpdated { .. } => "channel_updated"@,
    }
}

/// The event type of a payload.
pub fn event_type(payload: &EventPayload) -> (r: &'static str)
    ensures
        r@ == payload_kind_name(*payload),
{
    match payload {
        EventPayload::Message { .. } => "message",
        EventPayload::ReactionAdded { .. } => "reaction_added",
        EventPayload::ChannelUpdated { .. } => "channel_updated",
    }
}

/// The event kind of a job, as the worker logs it.
pub fn payload_kind(job: &ProcessEventJob) -> (r: &'static str)
    ensures
        r@ == payload_kind_name(job.payload),
{
    event_type(&job.payload)
}

} // verus!
