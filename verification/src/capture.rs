//! Capturing a selection as a source and a placeholder piece of knowledge:
//! input checks, platform and metadata normalization, deduplication hashes.
use vstd::prelude::*;
use sha2::{Digest, Sha256};
use crate::text::{
    ascii_lower, ascii_lowercase, char_count, push_char, push_str, str_eq, trim, trim_str,
};

verus! {

/// A selection captured from a page or an application, with its context.
#[derive(Clone, Debug)]
pub struct SourceCaptureInput {
    pub platform: String,
    pub selected_text: String,
    pub url: Option<String>,
    pub title: Option<String>,
    pub author: Option<String>,
    pub context_before: Option<String>,
    pub context_after: Option<String>,
    pub application: Option<String>,
    pub window_title: Option<String>,
}

/// A stored source.
#[derive(Clone, Debug)]
pub struct SourceRecord {
    pub id: String,
    pub platform: String,
    pub url: Option<String>,
    pub title: Option<String>,
    pub author: Option<String>,
    pub selected_text: String,
    pub context_before: Option<String>,
    pub context_after: Option<String>,
    pub application: Option<String>,
    pub window_title: Option<String>,
    pub content_hash: String,
    pub captured_at: i64,
}

/// A stored piece of knowledge.
#[derive(Clone, Debug)]
pub struct KnowledgeUnitRecord {
    pub id: String,
    pub source_id: String,
    pub core_claim: String,
    pub concepts: Vec<String>,
    pub prerequisites: Vec<String>,
    pub important_details: Vec<String>,
    pub limitations: Vec<String>,
    pub user_note: Option<String>,
    pub status: String,
    pub created_at: i64,
    pub updated_at: i64,
}

/// The outcome of a capture: the source, its piece of knowledge, and whether
/// the same capture existed already.
#[derive(Clone, Debug)]
pub struct CaptureKnowledgeResult {
    pub source: SourceRecord,
    pub knowledge_unit: KnowledgeUnitRecord,
    pub duplicate: bool,
}

/// One row of the knowledge list.
#[derive(Clone, Debug)]
pub struct KnowledgeListItem {
    pub id: String,
    pub source_id: String,
    pub core_claim: String,
    pub selected_text: String,
    pub status: String,
    pub platform: String,
    pub title: Option<String>,
    pub author: Option<String>,
    pub captured_at: i64,
    pub mastery_score: i64,
    pub review_count: i64,
    pub ai_job_status: Option<String>,
    pub ai_job_error: Option<String>,
}

/// The most characters a captured selection may have.
pub const MAX_SELECTION_CHARS: usize = 200000;

/// A selection is accepted when it holds more than whitespace and has at most
/// `MAX_SELECTION_CHARS` characters.
pub open spec fn capture_is_valid(selected: Seq<char>) -> bool {
    trim(selected).len() > 0 && selected.len() <= MAX_SELECTION_CHARS
}

/// The supported platform a capture names, or `unknown`.
pub open spec fn platform_of(platform: Seq<char>) -> Seq<char> {
    let p = ascii_lower(trim(platform));
    if p == "zhihu"@ {
        "zhihu"@
    } else if p == "web"@ {
        "web"@
    } else if p == "pdf"@ {
        "pdf"@
    } else if p == "desktop"@ {
        "desktop"@
    } else {
        "unknown"@
    }
}

/// A capture keeps its platform, trimmed and ASCII-lowercased, when that
/// is `zhihu`, `web`, `pdf` or `desktop`, and is `unknown` only otherwise.
pub proof fn lemma_supported_platform_kept(platform: Seq<char>)
    ensures
        ({
            let p = ascii_lower(trim(platform));
            &&& (p == "zhihu"@ || p == "web"@ || p == "pdf"@ || p == "desktop"@) ==> platform_of(
                platform,
            ) == p
            &&& !(p == "zhihu"@ || p == "web"@ || p == "pdf"@ || p == "desktop"@) ==> platform_of(
                platform,
            ) == "unknown"@
        }),
{
}

/// An optional text, trimmed, or nothing when it is absent or blank.
pub open spec fn optional_text(value: Option<Seq<char>>) -> Option<Seq<char>> {
    match value {
        Some(v) => if trim(v).len() > 0 {
            Some(trim(v))
        } else {
            None
        },
        None => None,
    }
}

pub open spec fn opt_view(value: Option<String>) -> Option<Seq<char>> {
    match value {
        Some(v) => Some(v@),
        None => None,
    }
}

/// The SHA-256 digest of a byte string, as `sha2::Sha256::digest` computes it.
pub uninterp spec fn sha256(data: Seq<u8>) -> Seq<u8>;

/// The lowercase hexadecimal digit of a value below 16.
pub open spec fn hex_digit(v: int) -> char {
    if v < 10 {
        ((v + 48) as u32) as char
    } else {
        ((v + 87) as u32) as char
    }
}

/// Lowercase hexadecimal text of bytes, two digits per byte.
pub open spec fn lower_hex(bytes: Seq<u8>) -> Seq<char>
    decreases bytes.len(),
{
    if bytes.len() == 0 {
        Seq::empty()
    } else {
        lower_hex(bytes.drop_last()).push(hex_digit(bytes.last() as int / 16)).push(
            hex_digit(bytes.last() as int % 16),
        )
    }
}

pub open spec fn capture_query_prefix() -> Seq<char> {
    "SELECT
            s.id, s.platform, s.url, s.title, s.author, s.selected_text,
            s.context_before, s.context_after, s.application, s.window_title,
            s.content_hash, s.captured_at,
            k.id, k.source_id, k.core_claim, k.concepts_json, k.prerequisites_json,
            k.important_details_json, k.limitations_json, k.user_note, k.status,
            k.created_at, k.updated_at
         FROM sources s
         JOIN knowledge_units k ON k.source_id = s.id
         WHERE "@
}

pub open spec fn capture_query_suffix() -> Seq<char> {
    "
         ORDER BY k.created_at ASC, k.rowid ASC
         LIMIT 1"@
}

/// Checks a capture before it is stored.
pub fn validate_capture(input: &SourceCaptureInput) -> (r: Result<(), String>)
    ensures
        r is Ok <==> capture_is_valid(input.selected_text@),
        r matches Err(e) ==> e@ == (if trim(input.selected_text@).len() == 0 {
            "selected text is empty"@
        } else {
            "selected text is too large"@
        }),
{
    let trimmed = trim_str(input.selected_text.as_str());
    if char_count(trimmed.as_str()) == 0 {
        return Err("selected text is empty".to_string());
    }
    if char_count(input.selected_text.as_str()) > MAX_SELECTION_CHARS {
        return Err("selected text is too large".to_string());
    }
    Ok(())
}

/// The platform of a capture: `zhihu`, `web`, `pdf` or `desktop` whatever
/// their case and surrounding whitespace, `unknown` otherwise.
pub fn normalized_platform(platform: &str) -> (r: &'static str)
    ensures
        r@ == platform_of(platform@),
{
    let trimmed = trim_str(platform);
    let p = ascii_lowercase(trimmed.as_str());
    if str_eq(p.as_str(), "zhihu") {
        "zhihu"
    } else if str_eq(p.as_str(), "web") {
        "web"
    } else if str_eq(p.as_str(), "pdf") {
        "pdf"
    } else if str_eq(p.as_str(), "desktop") {
        "desktop"
    } else {
        "unknown"
    }
}

/// An optional capture field, trimmed; blank values become absent.
pub fn normalized_optional(value: &Option<String>) -> (r: Option<String>)
    ensures
        opt_view(r) == optional_text(opt_view(*value)),
{
    match value {
        Some(v) => {
            let t = trim_str(v.as_str());
            if char_count(t.as_str()) > 0 {
                Some(t)
            } else {
                None
            }
        },
        None => None,
    }
}

/// A Zhihu capture with a URL may upgrade an earlier capture of the same text
/// that came without Zhihu metadata.
pub fn should_upgrade_to_zhihu(input: &SourceCaptureInput) -> (r: bool)
    ensures
        r == (platform_of(input.platform@) == "zhihu"@ && optional_text(opt_view(input.url))
            is Some),
{
    let platform = normalized_platform(input.platform.as_str());
    str_eq(platform, "zhihu") && normalized_optional(&input.url).is_some()
}

/// `std::time::SystemTime`, carried through opaque.
#[verifier::external_type_specification]
#[verifier::external_body]
pub struct ExSystemTime(std::time::SystemTime);

/// `SystemTime::now`: the system clock's current time. Nothing is promised
/// of it: it is the time.
#[verifier::external_body]
fn system_time_now() -> (r: std::time::SystemTime) {
    std::time::SystemTime::now()
}

/// `SystemTime::duration_since(UNIX_EPOCH)`: how long after the epoch the
/// time is, or `None` for a time before it. Nothing is promised of the
/// duration: it depends on the clock.
#[verifier::external_body]
fn duration_since_epoch(t: &std::time::SystemTime) -> (r: Option<core::time::Duration>) {
    match t.duration_since(std::time::UNIX_EPOCH) {
        Ok(d) => Some(d),
        Err(_) => None,
    }
}

/// `Duration::as_millis`: the whole milliseconds of a duration. The
/// duration is opaque here, so nothing is stated of the number.
#[verifier::external_body]
fn duration_millis(d: &core::time::Duration) -> (r: u128) {
    d.as_millis()
}

/// Milliseconds since the epoch as an `i64`: saturated at `i64::MAX`, and 0
/// when the clock reads before the epoch.
pub fn epoch_millis(ms: Option<u128>) -> (r: i64)
    ensures
        r == match ms {
            None => 0,
            Some(m) => if m > i64::MAX {
                i64::MAX as int
            } else {
                m as int
            },
        },
{
    match ms {
        Some(m) => if m > 0x7fff_ffff_ffff_ffffu128 {
            0x7fff_ffff_ffff_ffffi64
        } else {
            m as i64
        },
        None => 0,
    }
}

/// The current time in milliseconds since the epoch (see `epoch_millis`).
pub fn now_ms() -> (r: i64)
    ensures
        r >= 0,
{
    let now = system_time_now();
    let ms = match duration_since_epoch(&now) {
        Some(d) => Some(duration_millis(&d)),
        None => None,
    };
    epoch_millis(ms)
}

/// The query that loads one capture with its piece of knowledge, under the
/// given `WHERE` condition.
pub fn capture_query(filter: &str) -> (r: String)
    ensures
        r@ == capture_query_prefix() + filter@ + capture_query_suffix(),
{
    let mut query = "SELECT
            s.id, s.platform, s.url, s.title, s.author, s.selected_text,
            s.context_before, s.context_after, s.application, s.window_title,
            s.content_hash, s.captured_at,
            k.id, k.source_id, k.core_claim, k.concepts_json, k.prerequisites_json,
            k.important_details_json, k.limitations_json, k.user_note, k.status,
            k.created_at, k.updated_at
         FROM sources s
         JOIN knowledge_units k ON k.source_id = s.id
         WHERE ".to_string();
    push_str(&mut query, filter);
    push_str(&mut query, "
         ORDER BY k.created_at ASC, k.rowid ASC
         LIMIT 1");
    query
}

/// `sha2::Sha256::digest`: the 32-byte SHA-256 digest of the data.
#[verifier::external_body]
fn sha256_digest(data: &[u8]) -> (r: Vec<u8>)
    ensures
        r@ == sha256(data@),
        r@.len() == 32,
{
    Sha256::digest(data).to_vec()
}

fn hex_char(v: u8) -> (c: char)
    requires
        v < 16,
    ensures
        c == hex_digit(v as int),
{
    if v < 10 {
        (v + 48) as char
    } else {
        (v + 87) as char
    }
}

/// Lowercase hexadecimal text of bytes.
pub fn to_lower_hex(bytes: &[u8]) -> (r: String)
    ensures
        r@ == lower_hex(bytes@),
{
    let mut r = String::new();
    let n = bytes.len();
    let mut i: usize = 0;
    while i < n
        invariant
            n == bytes@.len(),
            i <= n,
            r@ == lower_hex(bytes@.take(i as int)),
        decreases n - i,
    {
        let b = bytes[i];
        push_char(&mut r, hex_char(b / 16));
        push_char(&mut r, hex_char(b % 16));
        proof {
            let post = bytes@.take(i + 1);
            assert(post.drop_last() =~= bytes@.take(i as int));
            assert(post.last() == b);
        }
        i = i + 1;
    }
    assert(bytes@.take(n as int) =~= bytes@);
    r
}

/// Lowercase hexadecimal SHA-256 of the data.
pub fn sha256_hex(data: &[u8]) -> (r: String)
    ensures
        r@ == lower_hex(sha256(data@)),
        r@.len() == 64,
{
    let digest = sha256_digest(data);
    let r = to_lower_hex(digest.as_slice());
    proof {
        lemma_lower_hex_len(digest@);
    }
    r
}

/// The deduplication hash of a capture: lowercase hexadecimal SHA-256 of its
/// canonical serialized form.
pub fn capture_hash(canonical: &[u8]) -> (r: String)
    ensures
        r@ == lower_hex(sha256(canonical@)),
        r@.len() == 64,
{
    sha256_hex(canonical)
}

/// Hexadecimal text has two digits per byte.
pub proof fn lemma_lower_hex_len(bytes: Seq<u8>)
    ensures
        lower_hex(bytes).len() == 2 * bytes.len(),
    decreases bytes.len(),
{
    if bytes.len() > 0 {
        lemma_lower_hex_len(bytes.drop_last());
    }
}

} // verus!
