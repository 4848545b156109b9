//! The worker's configuration, where archived files are stored, and the
//! decisions around queue delivery checks.
use vstd::prelude::*;
use crate::domain::Message;
use crate::signature::SignatureError;
use crate::summary_text::{opt_str, present};
use crate::text::{chars_of, chars_eq, extend_str, nat_text, string_of, trim, trimmed};
use crate::thread_summary::opt_view;

verus! {

/// The host part of a URL, as `url::Url::parse` then `host_str` give it.
pub uninterp spec fn url_host(url: Seq<char>) -> Option<Seq<char>>;

/// `reqwest::Url::parse` followed by `host_str`: the host of the URL, none
/// when it does not parse or has no host. The contract names the result.
#[verifier::external_body]
fn parse_url_host(url: &str) -> (r: Option<String>)
    ensures
        opt_view(r) == url_host(url@),
{
    match reqwest::Url::parse(url) {
        Ok(u) => u.host_str().map(|h| h.to_owned()),
        Err(_) => None,
    }
}

/// What `str::parse::<u16>` gives for a text: an optional `+` followed by at
/// least one decimal digit and nothing else, whose value fits in a `u16`.
pub open spec fn u16_parse(s: Seq<char>) -> Option<u16> {
    let body = if s.len() > 0 && s[0] == '+' { s.skip(1) } else { s };
    if body.len() == 0 || !crate::ts::all_digits(body) || crate::ts::decimal(body) > u16::MAX {
        None
    } else {
        Some(crate::ts::decimal(body) as u16)
    }
}

/// What `str::parse::<u16>` gives, its error dropped.
fn parse_u16(s: &str) -> (r: Option<u16>)
    ensures
        r == u16_parse(s@),
{
    let cs = chars_of(s);
    proof {
        assert(cs@.subrange(0, cs@.len() as int) =~= s@);
    }
    if cs.len() > 0 && cs[0] == '-' {
        return None;
    }
    let parsed = crate::ts::parse_i64_range(&cs, 0, cs.len());
    proof {
        let body = if s@.len() > 0 && s@[0] == '+' { s@.skip(1) } else { s@ };
        if body.len() > 0 && crate::ts::all_digits(body) {
            crate::ts::lemma_decimal_nonneg(body);
        }
    }
    match parsed {
        Some(v) => if 0 <= v && v <= 65535 {
            Some(v as u16)
        } else {
            None
        },
        None => None,
    }
}

/// The worker's settings.
#[derive(Debug, PartialEq, Eq)]
pub struct WorkerConfig {
    pub host: String,
    pub port: u16,
    pub event_log_path: String,
    pub worker_base_url: String,
    pub slack_api_base_url: String,
    pub openrouter_base_url: String,
    pub openrouter_api_key: Option<String>,
    pub openrouter_model: Option<String>,
    pub slack_user_token: Option<String>,
    pub r2_account_id: Option<String>,
    pub r2_access_key_id: Option<String>,
    pub r2_secret_access_key: Option<String>,
    pub r2_bucket: Option<String>,
    pub r2_public_url: Option<String>,
    pub r2_endpoint_url: Option<String>,
    pub r2_key_prefix: Option<String>,
    pub current_signing_key: Option<String>,
    pub next_signing_key: Option<String>,
}

pub const DEFAULT_HOST: &'static str = "127.0.0.1";
pub const DEFAULT_PORT: u16 = 4002;
pub const DEFAULT_EVENT_LOG_PATH: &'static str = "logs/process-events.jsonl";
pub const DEFAULT_WORKER_BASE_URL: &'static str = "http://127.0.0.1:4002";
pub const DEFAULT_SLACK_API_BASE_URL: &'static str = "https://slack.com/api";
pub const DEFAULT_OPENROUTER_BASE_URL: &'static str = "https://openrouter.ai/api/v1";

impl WorkerConfig {
    /// `host:port`.
    pub fn bind_address(&self) -> (r: String)
        ensures
            r@ == self.host@ + seq![':'] + nat_text(self.port as nat),
    {
        let mut out = chars_of(self.host.as_str());
        out.push(':');
        let ghost o = out@;
        crate::text::push_int(&mut out, self.port as i64);
        proof {
            assert(out@ =~= self.host@ + seq![':'] + nat_text(self.port as nat));
        }
        string_of(&out)
    }
}

/// The first of several settings that is given and not blank, trimmed.
pub open spec fn first_present(values: Seq<Option<Seq<char>>>) -> Option<Seq<char>>
    decreases values.len(),
{
    if values.len() == 0 {
        None
    } else {
        match present(values[0]) {
            Some(v) => Some(v),
            None => first_present(values.skip(1)),
        }
    }
}

pub open spec fn opt_views(v: Seq<Option<String>>) -> Seq<Option<Seq<char>>> {
    v.map_values(|o: Option<String>| opt_view(o))
}

/// The first setting, among the values of several alternative names, that is
/// given and not blank, trimmed.
pub fn first_non_empty(values: &Vec<Option<String>>) -> (r: Option<String>)
    ensures
        opt_view(r) == first_present(opt_views(values@)),
{
    let mut i: usize = 0;
    proof {
        assert(opt_views(values@).skip(0) =~= opt_views(values@));
    }
    while i < values.len()
        invariant
            i <= values@.len(),
            first_present(opt_views(values@)) == first_present(opt_views(values@).skip(i as int)),
        decreases values@.len() - i,
    {
        proof {
            assert(opt_views(values@).skip(i as int)[0] == opt_view(values@[i as int]));
            assert(opt_views(values@).skip(i as int).skip(1) =~= opt_views(values@).skip(i + 1));
        }
        match &values[i] {
            Some(v) => {
                let t = trimmed(v.as_str());
                if t.len() > 0 {
                    return Some(string_of(&t));
                }
            },
            None => {},
        }
        i = i + 1;
    }
    None
}

/// The port setting read as a number, or `fallback` when missing or not a
/// valid port number.
pub fn port_or_default(raw: Option<&str>, fallback: u16) -> (r: u16)
    ensures
        r == (match raw {
            Some(s) => match u16_parse(s@) {
                Some(p) => p,
                None => fallback,
            },
            None => fallback,
        }),
{
    match raw {
        Some(s) => match parse_u16(s) {
            Some(p) => p,
            None => fallback,
        },
        None => fallback,
    }
}

/// Whether a signing key is given and not blank.
pub open spec fn keys_present(current: Option<Seq<char>>, next: Option<Seq<char>>) -> bool {
    present(current) is Some || present(next) is Some
}

pub fn signing_keys_present(current_signing_key: Option<&str>, next_signing_key: Option<&str>) -> (r: bool)
    ensures
        r == keys_present(opt_str(current_signing_key), opt_str(next_signing_key)),
{
    let a = match current_signing_key {
        Some(k) => trimmed(k).len() > 0,
        None => false,
    };
    let b = match next_signing_key {
        Some(k) => trimmed(k).len() > 0,
        None => false,
    };
    a || b
}

/// The worker runs on this machine: its base URL's host is `localhost`,
/// `127.0.0.1` or `::1`.
pub open spec fn is_loopback(url: Seq<char>) -> bool {
    match url_host(url) {
        Some(h) => h == "localhost"@ || h == "127.0.0.1"@ || h == "::1"@,
        None => false,
    }
}

pub fn is_loopback_worker_base_url(worker_base_url: &str) -> (r: bool)
    ensures
        r == is_loopback(worker_base_url@),
{
    match parse_url_host(worker_base_url) {
        Some(h) => {
            let hc = chars_of(h.as_str());
            let a = chars_of("localhost");
            let b = chars_of("127.0.0.1");
            let c = chars_of("::1");
            chars_eq(&hc, &a) || chars_eq(&hc, &b) || chars_eq(&hc, &c)
        },
        None => false,
    }
}

/// Queue deliveries are checked when a signing key is given and the worker
/// does not run on this machine.
pub fn signature_verification_enabled(
    worker_base_url: &str,
    current_signing_key: Option<&str>,
    next_signing_key: Option<&str>,
) -> (r: bool)
    ensures
        r == (keys_present(opt_str(current_signing_key), opt_str(next_signing_key)) && !is_loopback(worker_base_url@)),
{
    signing_keys_present(current_signing_key, next_signing_key) && !is_loopback_worker_base_url(worker_base_url)
}

/// The error code a refused delivery is answered with.
pub fn qstash_error_code(error: SignatureError) -> (r: &'static str)
    ensures
        r@ == (match error {
            SignatureError::MissingSignatureHeader => "missing_qstash_signature"@,
            _ => "invalid_qstash_signature"@,
        }),
{
    match error {
        SignatureError::MissingSignatureHeader => "missing_qstash_signature",
        _ => "invalid_qstash_signature",
    }
}

/// Where an R2 bucket is and how to reach it.
#[derive(Debug, PartialEq, Eq)]
pub struct R2Config {
    pub account_id: String,
    pub access_key_id: String,
    pub secret_access_key: String,
    pub bucket: String,
    pub public_url: String,
    pub endpoint_url: Option<String>,
}

/// A setting trimmed, if not blank.
pub fn non_empty(value: Option<String>) -> (r: Option<String>)
    ensures
        opt_view(r) == present(opt_view(value)),
{
    match value {
        Some(v) => {
            let t = trimmed(v.as_str());
            if t.len() > 0 {
                Some(string_of(&t))
            } else {
                None
            }
        },
        None => None,
    }
}

impl R2Config {
    /// The configuration, when account, keys, bucket and public address are
    /// all given and not blank; each is trimmed, and the endpoint is kept
    /// when given and not blank.
    pub fn from_options(
        account_id: Option<String>,
        access_key_id: Option<String>,
        secret_access_key: Option<String>,
        bucket: Option<String>,
        public_url: Option<String>,
        endpoint_url: Option<String>,
    ) -> (r: Option<R2Config>)
        ensures
            r is Some <==> (present(opt_view(account_id)) is Some && present(opt_view(access_key_id)) is Some
                && present(opt_view(secret_access_key)) is Some && present(opt_view(bucket)) is Some
                && present(opt_view(public_url)) is Some),
            r matches Some(c) ==> {
                &&& Some(c.account_id@) == present(opt_view(account_id))
                &&& Some(c.access_key_id@) == present(opt_view(access_key_id))
                &&& Some(c.secret_access_key@) == present(opt_view(secret_access_key))
                &&& Some(c.bucket@) == present(opt_view(bucket))
                &&& Some(c.public_url@) == present(opt_view(public_url))
                &&& opt_view(c.endpoint_url) == present(opt_view(endpoint_url))
            },
    {
        let a = non_empty(account_id);
        let k = non_empty(access_key_id);
        let s = non_empty(secret_access_key);
        let b = non_empty(bucket);
        let p = non_empty(public_url);
        match (a, k, s, b, p) {
            (Some(a), Some(k), Some(s), Some(b), Some(p)) => Some(R2Config {
                account_id: a,
                access_key_id: k,
                secret_access_key: s,
                bucket: b,
                public_url: p,
                endpoint_url: non_empty(endpoint_url),
            }),
            _ => None,
        }
    }

    /// The public address of an object: the bucket's public address, a slash,
    /// the key.
    pub fn public_url(&self, key: &str) -> (r: String)
        ensures
            r@ == self.public_url@ + seq!['/'] + key@,
    {
        let mut out = chars_of(self.public_url.as_str());
        out.push('/');
        extend_str(&mut out, key);
        string_of(&out)
    }
}

/// Where an archived file goes and where it can then be read.
#[derive(Debug, PartialEq, Eq)]
pub struct FileStorageLocation {
    pub storage_key: String,
    pub public_url: String,
}

/// The key of an archived file: `channel/file/name`, under the trimmed prefix
/// when one is given and not blank.
pub open spec fn storage_key_spec(channel_id: Seq<char>, file_id: Seq<char>, filename: Seq<char>, prefix: Option<Seq<char>>) -> Seq<char> {
    let path = channel_id + seq!['/'] + file_id + seq!['/'] + filename;
    match present(prefix) {
        Some(p) => p + seq!['/'] + path,
        None => path,
    }
}

pub fn storage_key(channel_id: &str, file_id: &str, filename: &str, prefix: Option<&str>) -> (r: String)
    ensures
        r@ == storage_key_spec(channel_id@, file_id@, filename@, opt_str(prefix)),
{
    let mut path = chars_of(channel_id);
    path.push('/');
    extend_str(&mut path, file_id);
    path.push('/');
    extend_str(&mut path, filename);
    let ghost pv = path@;
    proof {
        assert(pv =~= channel_id@ + seq!['/'] + file_id@ + seq!['/'] + filename@);
    }
    match prefix {
        Some(p) => {
            let t = trimmed(p);
            if t.len() > 0 {
                let mut out = t;
                out.push('/');
                crate::text::extend_chars(&mut out, &path);
                proof {
                    assert(out@ =~= trim(p@) + seq!['/'] + pv);
                }
                return string_of(&out);
            }
            string_of(&path)
        },
        None => string_of(&path),
    }
}

pub fn build_file_storage_location(
    r2_config: &R2Config,
    channel_id: &str,
    file_id: &str,
    filename: &str,
    prefix: Option<&str>,
) -> (r: FileStorageLocation)
    ensures
        r.storage_key@ == storage_key_spec(channel_id@, file_id@, filename@, opt_str(prefix)),
        r.public_url@ == r2_config.public_url@ + seq!['/'] + r.storage_key@,
{
    let key = storage_key(channel_id, file_id, filename, prefix);
    let public_url = r2_config.public_url(key.as_str());
    FileStorageLocation { storage_key: key, public_url }
}

/// The type an archived file is uploaded with: the one Slack gave, else the
/// one the download answered with, else a generic binary type.
pub fn archive_content_type(mimetype: Option<&str>, response_content_type: Option<&str>) -> (r: String)
    ensures
        r@ == (match mimetype {
            Some(m) => m@,
            None => match response_content_type {
                Some(c) => c@,
                None => "application/octet-stream"@,
            },
        }),
{
    match mimetype {
        Some(m) => m.to_owned(),
        None => match response_content_type {
            Some(c) => c.to_owned(),
            None => "application/octet-stream".to_owned(),
        },
    }
}

/// The root of a stored message's thread: the thread it names, or itself.
pub fn thread_root_ts(ts: &str, thread_ts: Option<&str>) -> (r: String)
    ensures
        r@ == (match thread_ts {
            Some(t) => t@,
            None => ts@,
        }),
{
    match thread_ts {
        Some(t) => t.to_owned(),
        None => ts.to_owned(),
    }
}

/// A stored text trimmed, none when blank.
pub fn normalize_empty(value: String) -> (r: Option<String>)
    ensures
        opt_view(r) == present(Some(value@)),
{
    non_empty(Some(value))
}

/// The message a database row describes: the row's root becomes the thread
/// timestamp unless it is the message's own.
pub fn message_from_row(channel_id: String, ts: String, root_ts: String, user_id: Option<String>, text: String) -> (r: Message)
    ensures
        r.channel_id == channel_id,
        r.ts == ts,
        r.thread_ts == (if root_ts@ == ts@ { None } else { Some(root_ts) }),
        r.user_id == user_id,
        r.text == text,
{
    let same = crate::text::str_eq(root_ts.as_str(), ts.as_str());
    Message {
        channel_id,
        ts,
        thread_ts: if same { None } else { Some(root_ts) },
        user_id,
        text,
    }
}

/// A row count from the database, negative counts read as zero.
pub fn row_count(count: i64) -> (r: usize)
    ensures
        r == (if count < 0 { 0usize } else { count as usize }),
{
    if count < 0 {
        0
    } else {
        count as usize
    }
}

} // verus!
