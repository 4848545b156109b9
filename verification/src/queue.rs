//! Queue endpoints: where process-event jobs are delivered, directly to the
//! worker or through QStash.
use vstd::prelude::*;
use crate::text::{chars_of, extend_chars, extend_str, starts_with, string_of, trim, trim_by,
    trim_char, trim_end_by, trim_end_char, trim_ws, is_char};

verus! {

pub const DEFAULT_QSTASH_BASE_URL: &'static str = "https://qstash.upstash.io";

#[derive(Debug, Clone, Copy, PartialEq, Eq)]
pub enum QueueMode {
    Direct,
    QStash,
}

impl QueueMode {
    pub fn as_str(self) -> (r: &'static str)
        ensures
            r@ == (match self {
                QueueMode::Direct => "direct"@,
                QueueMode::QStash => "qstash"@,
            }),
    {
        match self {
            QueueMode::Direct => "direct",
            QueueMode::QStash => "qstash",
        }
    }
}

#[derive(Debug, PartialEq, Eq)]
pub struct PublishReceipt {
    pub endpoint: String,
    pub mode: QueueMode,
}

/// Why a job could not be queued. A rejection carries the HTTP status code; a
/// transport failure carries its description.
#[derive(Debug, PartialEq, Eq)]
pub enum QueueError {
    EmptyWorkerBaseUrl,
    EmptyQStashToken,
    WorkerRejected(u16),
    QStashRejected(u16),
    Publish(String),
}

/// The worker base URL as endpoints use it: trimmed, without trailing slashes.
pub open spec fn worker_base(url: Seq<char>) -> Seq<char> {
    trim_end_by(trim(url), is_char('/'))
}

/// The endpoint `path` of the worker at `url`, or the refusal of a blank URL.
pub open spec fn worker_endpoint(url: Seq<char>, path: Seq<char>) -> Result<Seq<char>, ()> {
    if worker_base(url).len() == 0 {
        Err(())
    } else {
        Ok(worker_base(url) + path)
    }
}

pub open spec fn endpoint_result(r: Result<String, QueueError>, expected: Result<Seq<char>, ()>) -> bool {
    match expected {
        Ok(e) => r matches Ok(s) && s@ == e,
        Err(_) => r == Err::<String, QueueError>(QueueError::EmptyWorkerBaseUrl),
    }
}

fn build_worker_endpoint(worker_base_url: &str, path: &str) -> (r: Result<String, QueueError>)
    ensures
        endpoint_result(r, worker_endpoint(worker_base_url@, path@)),
{
    let t = crate::text::trimmed(worker_base_url);
    let mut base = trim_end_char(&t, '/');
    if base.len() == 0 {
        return Err(QueueError::EmptyWorkerBaseUrl);
    }
    extend_str(&mut base, path);
    Ok(string_of(&base))
}

pub fn build_process_event_endpoint(worker_base_url: &str) -> (r: Result<String, QueueError>)
    ensures
        endpoint_result(r, worker_endpoint(worker_base_url@, "/jobs/process_event"@)),
{
    build_worker_endpoint(worker_base_url, "/jobs/process_event")
}

pub fn build_heartbeat_endpoint(worker_base_url: &str) -> (r: Result<String, QueueError>)
    ensures
        endpoint_result(r, worker_endpoint(worker_base_url@, "/jobs/heartbeat"@)),
{
    build_worker_endpoint(worker_base_url, "/jobs/heartbeat")
}

pub fn build_refresh_thread_summaries_endpoint(worker_base_url: &str) -> (r: Result<String, QueueError>)
    ensures
        endpoint_result(r, worker_endpoint(worker_base_url@, "/jobs/refresh_thread_summaries"@)),
{
    build_worker_endpoint(worker_base_url, "/jobs/refresh_thread_summaries")
}

/// The QStash base URL with whitespace, quotes and trailing slashes removed.
pub open spec fn qstash_base_core(raw: Seq<char>) -> Seq<char> {
    trim_end_by(trim(trim_by(trim_by(trim(raw), is_char('"')), is_char('\''))), is_char('/'))
}

/// The QStash base URL in use: the default when none or a blank one is given, the
/// given one when it names its scheme, else the given host over HTTPS.
pub open spec fn qstash_base(url: Option<Seq<char>>) -> Seq<char> {
    let raw = match url {
        Some(u) => u,
        None => DEFAULT_QSTASH_BASE_URL@,
    };
    let core = qstash_base_core(raw);
    if core.len() == 0 {
        DEFAULT_QSTASH_BASE_URL@
    } else if (core.len() >= "http://"@.len() && core.take("http://"@.len() as int) == "http://"@)
        || (core.len() >= "https://"@.len() && core.take("https://"@.len() as int) == "https://"@) {
        core
    } else {
        "https://"@ + core
    }
}

pub fn normalize_qstash_base_url(qstash_base_url: Option<&str>) -> (r: String)
    ensures
        r@ == qstash_base(crate::signature::opt_str_view(qstash_base_url)),
{
    let raw = match qstash_base_url {
        Some(u) => u,
        None => DEFAULT_QSTASH_BASE_URL,
    };
    let a = crate::text::trimmed(raw);
    let b = trim_char(&a, '"');
    let c = trim_char(&b, '\'');
    let d = trim_ws(&c);
    let core = trim_end_char(&d, '/');
    if core.len() == 0 {
        return string_of(&chars_of(DEFAULT_QSTASH_BASE_URL));
    }
    let http = chars_of("http://");
    let https = chars_of("https://");
    if starts_with(&core, &http) || starts_with(&core, &https) {
        return string_of(&core);
    }
    let mut out = https;
    extend_chars(&mut out, &core);
    string_of(&out)
}

/// The QStash publish URL for a worker endpoint.
pub open spec fn qstash_publish_url(base: Option<Seq<char>>, endpoint: Seq<char>) -> Seq<char> {
    qstash_base(base) + "/v2/publish/"@ + endpoint
}

pub fn build_qstash_publish_url(qstash_base_url: Option<&str>, endpoint: &str) -> (r: String)
    ensures
        r@ == qstash_publish_url(crate::signature::opt_str_view(qstash_base_url), endpoint@),
{
    let base = normalize_qstash_base_url(qstash_base_url);
    let mut out = chars_of(base.as_str());
    extend_str(&mut out, "/v2/publish/");
    extend_str(&mut out, endpoint);
    string_of(&out)
}

/// Delivery straight to the worker's process-event endpoint.
#[derive(Debug, PartialEq, Eq)]
pub struct DirectQueue {
    endpoint: String,
}

impl DirectQueue {
    pub closed spec fn spec_endpoint(&self) -> Seq<char> {
        self.endpoint@
    }

    pub fn new(worker_base_url: &str) -> (r: Result<DirectQueue, QueueError>)
        ensures
            match worker_endpoint(worker_base_url@, "/jobs/process_event"@) {
                Ok(e) => r matches Ok(q) && q.spec_endpoint() == e,
                Err(_) => r == Err::<DirectQueue, QueueError>(QueueError::EmptyWorkerBaseUrl),
            },
    {
        match build_process_event_endpoint(worker_base_url) {
            Ok(endpoint) => Ok(DirectQueue { endpoint }),
            Err(e) => Err(e),
        }
    }

    pub fn endpoint(&self) -> (r: &str)
        ensures
            r@ == self.spec_endpoint(),
    {
        self.endpoint.as_str()
    }

    /// The receipt of a job that the worker accepted.
    pub fn receipt(&self) -> (r: PublishReceipt)
        ensures
            r.endpoint@ == self.spec_endpoint(),
            r.mode == QueueMode::Direct,
    {
        PublishReceipt { endpoint: self.endpoint.clone(), mode: QueueMode::Direct }
    }
}

/// Delivery through QStash, which forwards the job to the worker's endpoint.
#[derive(Debug, PartialEq, Eq)]
pub struct QStashQueue {
    endpoint: String,
    publish_url: String,
    token: String,
}

impl QStashQueue {
    pub closed spec fn spec_endpoint(&self) -> Seq<char> {
        self.endpoint@
    }

    pub closed spec fn spec_publish_url(&self) -> Seq<char> {
        self.publish_url@
    }

    pub closed spec fn spec_token(&self) -> Seq<char> {
        self.token@
    }

    pub fn new(worker_base_url: &str, qstash_base_url: Option<&str>, qstash_token: &str) -> (r: Result<QStashQueue, QueueError>)
        ensures
            trim(qstash_token@).len() == 0 ==> r == Err::<QStashQueue, QueueError>(QueueError::EmptyQStashToken),
            trim(qstash_token@).len() > 0 ==> match worker_endpoint(worker_base_url@, "/jobs/process_event"@) {
                Ok(e) => r matches Ok(q) && q.spec_endpoint() == e
                    && q.spec_publish_url() == qstash_publish_url(crate::signature::opt_str_view(qstash_base_url), e)
                    && q.spec_token() == trim(qstash_token@),
                Err(_) => r == Err::<QStashQueue, QueueError>(QueueError::EmptyWorkerBaseUrl),
            },
    {
        let token = crate::text::trimmed(qstash_token);
        if token.len() == 0 {
            return Err(QueueError::EmptyQStashToken);
        }
        let endpoint = match build_process_event_endpoint(worker_base_url) {
            Ok(e) => e,
            Err(e) => return Err(e),
        };
        let publish_url = build_qstash_publish_url(qstash_base_url, endpoint.as_str());
        Ok(QStashQueue { endpoint, publish_url, token: string_of(&token) })
    }

    pub fn endpoint(&self) -> (r: &str)
        ensures
            r@ == self.spec_endpoint(),
    {
        self.endpoint.as_str()
    }

    /// The QStash URL that jobs are posted to.
    pub fn publish_url(&self) -> (r: &str)
        ensures
            r@ == self.spec_publish_url(),
    {
        self.publish_url.as_str()
    }

    /// The bearer token that QStash expects.
    pub fn token(&self) -> (r: &str)
        ensures
            r@ == self.spec_token(),
    {
        self.token.as_str()
    }

    /// The receipt of a job that QStash accepted.
    pub fn receipt(&self) -> (r: PublishReceipt)
        ensures
            r.endpoint@ == self.spec_endpoint(),
            r.mode == QueueMode::QStash,
    {
        PublishReceipt { endpoint: self.endpoint.clone(), mode: QueueMode::QStash }
    }
}

#[derive(Debug, PartialEq, Eq)]
pub enum QueueClient {
    Direct(DirectQueue),
    QStash(QStashQueue),
}

/// The queue for process-event jobs: QStash when a token is configured, else
/// direct delivery.
#[derive(Debug, PartialEq, Eq)]
pub struct ProcessEventQueue {
    inner: QueueClient,
}

/// Whether an optional token is present and not blank.
pub open spec fn token_present(token: Option<Seq<char>>) -> bool {
    token matches Some(t) && trim(t).len() > 0
}

impl ProcessEventQueue {
    pub closed spec fn spec_mode(&self) -> QueueMode {
        match self.inner {
            QueueClient::Direct(_) => QueueMode::Direct,
            QueueClient::QStash(_) => QueueMode::QStash,
        }
    }

    pub closed spec fn spec_endpoint(&self) -> Seq<char> {
        match self.inner {
            QueueClient::Direct(q) => q.spec_endpoint(),
            QueueClient::QStash(q) => q.spec_endpoint(),
        }
    }

    /// The QStash publish URL, when jobs go through QStash.
    pub closed spec fn spec_qstash_publish_url(&self) -> Option<Seq<char>> {
        match self.inner {
            QueueClient::Direct(_) => None,
            QueueClient::QStash(q) => Some(q.spec_publish_url()),
        }
    }

    /// The QStash token, when jobs go through QStash.
    pub closed spec fn spec_qstash_token(&self) -> Option<Seq<char>> {
        match self.inner {
            QueueClient::Direct(_) => None,
            QueueClient::QStash(q) => Some(q.spec_token()),
        }
    }

    pub fn new(worker_base_url: &str, qstash_base_url: Option<&str>, qstash_token: Option<&str>) -> (r: Result<ProcessEventQueue, QueueError>)
        ensures
            match worker_endpoint(worker_base_url@, "/jobs/process_event"@) {
                Ok(e) => r matches Ok(q) && q.spec_endpoint() == e
                    && q.spec_mode() == (if token_present(crate::signature::opt_str_view(qstash_token)) {
                        QueueMode::QStash
                    } else {
                        QueueMode::Direct
                    }),
                Err(_) => r == Err::<ProcessEventQueue, QueueError>(QueueError::EmptyWorkerBaseUrl),
            },
            match r {
                Ok(q) => match q.spec_mode() {
                    QueueMode::QStash => qstash_token matches Some(t)
                        && q.spec_qstash_publish_url() == Some(qstash_publish_url(crate::signature::opt_str_view(qstash_base_url), q.spec_endpoint()))
                        && q.spec_qstash_token() == Some(trim(t@)),
                    QueueMode::Direct => q.spec_qstash_publish_url() is None && q.spec_qstash_token() is None,
                },
                Err(_) => true,
            },
    {
        let use_qstash = match qstash_token {
            Some(t) => crate::text::trimmed(t).len() > 0,
            None => false,
        };
        if use_qstash {
            let token = match qstash_token {
                Some(t) => t,
                None => "",
            };
            match QStashQueue::new(worker_base_url, qstash_base_url, token) {
                Ok(q) => Ok(ProcessEventQueue { inner: QueueClient::QStash(q) }),
                Err(e) => Err(e),
            }
        } else {
            match DirectQueue::new(worker_base_url) {
                Ok(q) => Ok(ProcessEventQueue { inner: QueueClient::Direct(q) }),
                Err(e) => Err(e),
            }
        }
    }

    pub fn endpoint(&self) -> (r: &str)
        ensures
            r@ == self.spec_endpoint(),
    {
        match &self.inner {
            QueueClient::Direct(q) => q.endpoint(),
            QueueClient::QStash(q) => q.endpoint(),
        }
    }

    pub fn mode(&self) -> (r: QueueMode)
        ensures
            r == self.spec_mode(),
    {
        match &self.inner {
            QueueClient::Direct(_) => QueueMode::Direct,
            QueueClient::QStash(_) => QueueMode::QStash,
        }
    }

    /// The delivery client in use.
    pub fn client(&self) -> (r: &QueueClient)
        ensures
            match *r {
                QueueClient::Direct(q) => self.spec_mode() == QueueMode::Direct && q.spec_endpoint() == self.spec_endpoint(),
                QueueClient::QStash(q) => self.spec_mode() == QueueMode::QStash && q.spec_endpoint() == self.spec_endpoint()
                    && Some(q.spec_publish_url()) == self.spec_qstash_publish_url()
                    && Some(q.spec_token()) == self.spec_qstash_token(),
            },
    {
        &self.inner
    }
}

} // verus!
