use vstd::prelude::*;

use crate::repo::{Bottle, FormulaStable};
use crate::text::{concat, decimal_i64, decimal_u64, hex_encode, hex_of, int_decimal, nat_decimal};

verus! {

/// Why fetching one package's bottle failed.
#[derive(Debug)]
pub enum FetchError {
    /// The record has no bottle for the platform.
    UnavailableForPlatform { name: String, platform: String },
    /// The response did not state its total length.
    ContentLengthMissing,
    /// The digest of the downloaded bytes differs from the declared one.
    DownloadCorrupted,
}

/// The SHA-256 digest of text, in lowercase hexadecimal.
pub uninterp spec fn sha256_hex(s: Seq<char>) -> Seq<char>;

/// Relies on `sha256::digest`: the SHA-256 digest of the UTF-8 bytes of `s`,
/// as lowercase hexadecimal text. The result depends on `s` alone.
#[verifier::external_body]
fn text_digest(s: &str) -> (r: String)
    ensures
        r@ == sha256_hex(s@),
        r@.len() == 64,
{
    sha256::digest(s)
}

/// The SHA-256 digest of a byte sequence.
pub uninterp spec fn sha256_of(b: Seq<u8>) -> Seq<u8>;

/// Relies on `sha2::Sha256::digest`: the 32-byte SHA-256 digest of `b`,
/// which depends on `b` alone.
#[verifier::external_body]
fn sha256_bytes(b: &[u8]) -> (r: Vec<u8>)
    ensures
        r@ == sha256_of(b@),
        r@.len() == 32,
{
    <sha2::Sha256 as sha2::Digest>::digest(b).to_vec()
}

/// `version_revision` of a record.
pub open spec fn version_text(f: FormulaStable) -> Seq<char> {
    f.version@ + seq!['_'] + int_decimal(f.revision as int)
}

impl FormulaStable {
    /// The version and the revision, joined by `_`.
    pub fn version_fmt(&self) -> (r: String)
        ensures
            r@ == version_text(*self),
    {
        let a = concat(self.version.as_str(), "_");
        let rev = decimal_i64(self.revision);
        proof {
            reveal_strlit("_");
        }
        concat(a.as_str(), rev.as_str())
    }
}

/// The record has a bottle for `platform`, at position `i`.
pub open spec fn bottle_at(f: FormulaStable, platform: Seq<char>, i: int) -> bool {
    0 <= i < f.bottles@.len() && f.bottles@[i].0@ == platform
}

/// Finds the bottle of `formula` for `platform`.
pub fn bottle_for<'a>(formula: &'a FormulaStable, platform: &String) -> (r: Result<&'a Bottle, FetchError>)
    ensures
        match r {
            Ok(b) => exists|i: int| bottle_at(*formula, platform@, i) && formula.bottles@[i].1 == *b,
            Err(FetchError::UnavailableForPlatform { name, platform: p }) => {
                &&& forall|i: int| !bottle_at(*formula, platform@, i)
                &&& name@ == formula.name@
                &&& p@ == platform@
            },
            Err(_) => false,
        },
{
    let mut i: usize = 0;
    while i < formula.bottles.len()
        invariant
            i <= formula.bottles@.len(),
            forall|j: int| 0 <= j < i ==> !bottle_at(*formula, platform@, j),
        decreases formula.bottles.len() - i,
    {
        if formula.bottles[i].0 == *platform {
            assert(bottle_at(*formula, platform@, i as int));
            return Ok(&formula.bottles[i].1);
        }
        i = i + 1;
    }
    Err(FetchError::UnavailableForPlatform { name: formula.name.clone(), platform: platform.clone() })
}

/// `<name>--<version>_<revision>.<platform>.bottle.tar.gz`
pub open spec fn basename_text(f: FormulaStable, platform: Seq<char>) -> Seq<char> {
    f.name@ + seq!['-', '-'] + version_text(f) + seq!['.'] + platform + ".bottle.tar.gz"@
}

/// The file name of a bottle's archive, before the URL digest.
pub fn bottle_basename(formula: &FormulaStable, platform: &str) -> (r: String)
    ensures
        r@ == basename_text(*formula, platform@),
{
    proof {
        reveal_strlit("--");
        reveal_strlit(".");
        reveal_strlit(".bottle.tar.gz");
    }
    let v = formula.version_fmt();
    let a = concat(formula.name.as_str(), "--");
    let b = concat(a.as_str(), v.as_str());
    let c = concat(b.as_str(), ".");
    let d = concat(c.as_str(), platform);
    concat(d.as_str(), ".bottle.tar.gz")
}

/// `<digest of url>--<basename>`
pub open spec fn cache_name_text(url: Seq<char>, f: FormulaStable, platform: Seq<char>) -> Seq<char> {
    sha256_hex(url) + seq!['-', '-'] + basename_text(f, platform)
}

/// The cache file name of a complete bottle: its key.
pub fn cache_file_name(formula: &FormulaStable, bottle: &Bottle, platform: &str) -> (r: String)
    ensures
        r@ == cache_name_text(bottle.url@, *formula, platform@),
{
    let base = bottle_basename(formula, platform);
    let digest = text_digest(bottle.url.as_str());
    let name = cache_name_file_part(&digest, &base);
    name
}

/// Joins a URL digest and a basename into a cache file name.
pub fn cache_name_file_part(digest: &String, base: &String) -> (r: String)
    ensures
        r@ == digest@ + seq!['-', '-'] + base@,
{
    proof {
        reveal_strlit("--");
    }
    let a = concat(digest.as_str(), "--");
    concat(a.as_str(), base.as_str())
}

/// The name under which a download in progress is kept.
pub fn incomplete_name(cache_name: &String) -> (r: String)
    ensures
        r@ == cache_name@ + ".incomplete"@,
{
    concat(cache_name.as_str(), ".incomplete")
}

/// The name of the directory an archive is unpacked into: the digest of its
/// path followed by the time in milliseconds, so that concurrent tasks never
/// share one.
pub fn staging_dir_name(path: &str, millis: u64) -> (r: String)
    ensures
        r@ == sha256_hex(path@ + nat_decimal(millis as nat)),
        r@.len() == 64,
{
    let t = decimal_u64(millis);
    let key = concat(path, t.as_str());
    text_digest(key.as_str())
}

/// Lowercase hexadecimal text of a digest.
pub fn fmt_digest(digest: &[u8]) -> (r: String)
    ensures
        r@ == hex_of(digest@),
{
    hex_encode(digest)
}

/// A cached archive is good when the digest of its bytes is the declared one.
pub fn check_cached(digest: &[u8], checksum: &String) -> (r: bool)
    ensures
        r == (hex_of(digest@) == checksum@),
{
    let text = fmt_digest(digest);
    text == *checksum
}

/// The verdict on a cached archive whose bytes are `contents`.
pub open spec fn intact(contents: Seq<u8>, checksum: Seq<char>) -> bool {
    hex_of(sha256_of(contents)) == checksum
}

/// Checks a cached archive's bytes against the declared digest.
pub fn entry_is_intact(contents: &[u8], checksum: &String) -> (r: bool)
    ensures
        r == intact(contents@, checksum@),
{
    let digest = sha256_bytes(contents);
    check_cached(digest.as_slice(), checksum)
}

/// Checking the same unmodified bytes twice against the same digest gives the
/// same verdict both times.
pub proof fn lemma_integrity_check_repeatable(first: Seq<u8>, second: Seq<u8>, checksum: Seq<char>)
    requires
        first == second,
    ensures
        intact(first, checksum) == intact(second, checksum),
{
}

/// A finished download is accepted only when its digest is the declared one.
pub fn verify_download(digest: &[u8], checksum: &String) -> (r: Result<(), FetchError>)
    ensures
        r is Ok <==> hex_of(digest@) == checksum@,
        r matches Err(e) ==> e is DownloadCorrupted,
{
    if check_cached(digest, checksum) {
        Ok(())
    } else {
        Err(FetchError::DownloadCorrupted)
    }
}

/// The total size that the response declares; without it the attempt fails.
pub fn download_total(content_length: Option<u64>) -> (r: Result<u64, FetchError>)
    ensures
        match content_length {
            Some(n) => r == Ok::<u64, FetchError>(n),
            None => r matches Err(FetchError::ContentLengthMissing),
        },
{
    match content_length {
        Some(n) => Ok(n),
        None => Err(FetchError::ContentLengthMissing),
    }
}

/// The first byte to request: a resumed attempt keeps the bytes already on
/// disk, a fresh one starts over.
pub fn request_offset(resume: bool, partial_len: u64) -> (r: u64)
    ensures
        r == if resume { partial_len } else { 0 },
{
    if resume {
        partial_len
    } else {
        0
    }
}

/// The range header for the bytes from `offset` to the end.
pub fn range_header(offset: u64) -> (r: String)
    ensures
        r@ == "bytes="@ + nat_decimal(offset as nat) + seq!['-'],
{
    proof {
        reveal_strlit("bytes=");
        reveal_strlit("-");
    }
    let n = decimal_u64(offset);
    let a = concat("bytes=", n.as_str());
    concat(a.as_str(), "-")
}

/// Where one package's fetch stands.
#[derive(PartialEq, Eq, Structural, Clone, Copy, Debug)]
pub enum FetchPhase {
    Start,
    CheckingCache,
    RemovingStale,
    Downloading,
    Promoting,
    Done,
    Failed,
}

/// What the outside world reports to a fetch task.
#[derive(PartialEq, Eq, Structural, Clone, Copy, Debug)]
pub enum FetchEvent {
    Begin,
    /// The complete cache entry exists and its digest matches.
    CacheHit,
    /// The complete cache entry exists and its digest does not match.
    CacheStale,
    /// There is no complete cache entry, or it could not be read.
    CacheAbsent,
    StaleRemoved,
    RemoveFailed,
    AttemptOk,
    AttemptFailed,
    Promoted,
    PromoteFailed,
}

/// What a fetch task asks the outside world to do next.
#[derive(PartialEq, Eq, Structural, Clone, Copy, Debug)]
pub enum FetchAction {
    /// Hash the complete cache entry.
    CheckCache,
    /// Delete the complete cache entry, whose digest did not match.
    RemoveStale,
    /// Download into the incomplete file, keeping its bytes when `resume`.
    Download { resume: bool },
    /// Rename the verified incomplete file to the complete name.
    Promote,
    /// The complete cache entry is ready.
    Finish,
    /// The task has failed for good.
    GiveUp,
    /// The event does not apply in this phase.
    Ignore,
}

/// The decisions of one package's fetch: cache check, one resumed attempt,
/// then up to `retries` fresh attempts.
#[derive(PartialEq, Eq, Structural, Clone, Copy, Debug)]
pub struct FetchTask {
    pub retries: u64,
    /// Download attempts begun so far.
    pub attempts: u64,
    pub phase: FetchPhase,
}

/// The next state and action of a fetch task on an event.
pub open spec fn fetch_step(t: FetchTask, e: FetchEvent) -> (FetchTask, FetchAction) {
    let first = FetchTask { attempts: 1, phase: FetchPhase::Downloading, ..t };
    match (t.phase, e) {
        (FetchPhase::Start, FetchEvent::Begin) => (FetchTask { phase: FetchPhase::CheckingCache, ..t }, FetchAction::CheckCache),
        (FetchPhase::CheckingCache, FetchEvent::CacheHit) => (FetchTask { phase: FetchPhase::Done, ..t }, FetchAction::Finish),
        (FetchPhase::CheckingCache, FetchEvent::CacheStale) => (FetchTask { phase: FetchPhase::RemovingStale, ..t }, FetchAction::RemoveStale),
        (FetchPhase::CheckingCache, FetchEvent::CacheAbsent) => (first, FetchAction::Download { resume: true }),
        (FetchPhase::RemovingStale, FetchEvent::StaleRemoved) => (first, FetchAction::Download { resume: true }),
        (FetchPhase::RemovingStale, FetchEvent::RemoveFailed) => (FetchTask { phase: FetchPhase::Failed, ..t }, FetchAction::GiveUp),
        (FetchPhase::Downloading, FetchEvent::AttemptOk) => (FetchTask { phase: FetchPhase::Promoting, ..t }, FetchAction::Promote),
        (FetchPhase::Downloading, FetchEvent::AttemptFailed) => if t.attempts <= t.retries {
            (FetchTask { attempts: (t.attempts + 1) as u64, ..t }, FetchAction::Download { resume: false })
        } else {
            (FetchTask { phase: FetchPhase::Failed, ..t }, FetchAction::GiveUp)
        },
        (FetchPhase::Promoting, FetchEvent::Promoted) => (FetchTask { phase: FetchPhase::Done, ..t }, FetchAction::Finish),
        (FetchPhase::Promoting, FetchEvent::PromoteFailed) => (FetchTask { phase: FetchPhase::Failed, ..t }, FetchAction::GiveUp),
        _ => (t, FetchAction::Ignore),
    }
}

impl FetchTask {
    /// A task that has done nothing yet.
    pub fn new(retries: u64) -> (r: FetchTask)
        requires
            retries < u64::MAX,
        ensures
            r.wf(),
            r == (FetchTask { retries, attempts: 0, phase: FetchPhase::Start }),
    {
        FetchTask { retries, attempts: 0, phase: FetchPhase::Start }
    }

    /// Download attempts stay within one resumed attempt and `retries` fresh ones.
    pub open spec fn wf(&self) -> bool {
        self.retries < u64::MAX && self.attempts <= self.retries + 1
    }

    /// Moves the task on by one event and says what to do next.
    pub fn step(&mut self, e: FetchEvent) -> (r: FetchAction)
        requires
            old(self).wf(),
        ensures
            (*final(self), r) == fetch_step(*old(self), e),
            final(self).wf(),
    {
        let first = FetchTask { retries: self.retries, attempts: 1, phase: FetchPhase::Downloading };
        match (self.phase, e) {
            (FetchPhase::Start, FetchEvent::Begin) => {
                self.phase = FetchPhase::CheckingCache;
                FetchAction::CheckCache
            },
            (FetchPhase::CheckingCache, FetchEvent::CacheHit) => {
                self.phase = FetchPhase::Done;
                FetchAction::Finish
            },
            (FetchPhase::CheckingCache, FetchEvent::CacheStale) => {
                self.phase = FetchPhase::RemovingStale;
                FetchAction::RemoveStale
            },
            (FetchPhase::CheckingCache, FetchEvent::CacheAbsent) => {
                *self = first;
                FetchAction::Download { resume: true }
            },
            (FetchPhase::RemovingStale, FetchEvent::StaleRemoved) => {
                *self = first;
                FetchAction::Download { resume: true }
            },
            (FetchPhase::RemovingStale, FetchEvent::RemoveFailed) => {
                self.phase = FetchPhase::Failed;
                FetchAction::GiveUp
            },
            (FetchPhase::Downloading, FetchEvent::AttemptOk) => {
                self.phase = FetchPhase::Promoting;
                FetchAction::Promote
            },
            (FetchPhase::Downloading, FetchEvent::AttemptFailed) => {
                if self.attempts <= self.retries {
                    self.attempts = self.attempts + 1;
                    FetchAction::Download { resume: false }
                } else {
                    self.phase = FetchPhase::Failed;
                    FetchAction::GiveUp
                }
            },
            (FetchPhase::Promoting, FetchEvent::Promoted) => {
                self.phase = FetchPhase::Done;
                FetchAction::Finish
            },
            (FetchPhase::Promoting, FetchEvent::PromoteFailed) => {
                self.phase = FetchPhase::Failed;
                FetchAction::GiveUp
            },
            _ => FetchAction::Ignore,
        }
    }
}

/// Feeds `n` failed attempts to a task; the task after them and the number
/// of downloads it asked for.
pub open spec fn run_failing(t: FetchTask, n: nat) -> (FetchTask, nat)
    decreases n,
{
    if n == 0 {
        (t, 0)
    } else {
        let (t1, a) = fetch_step(t, FetchEvent::AttemptFailed);
        let (t2, k) = run_failing(t1, (n - 1) as nat);
        (t2, k + if a is Download { 1nat } else { 0nat })
    }
}

/// When every download attempt fails, a task asks for exactly `1 + retries`
/// downloads, the first resuming and the others fresh, and then gives up.
pub proof fn lemma_attempts_when_all_fail(retries: u64, cached: bool)
    requires
        retries < u64::MAX,
    ensures
        ({
            let t0 = FetchTask { retries, attempts: 0, phase: FetchPhase::Start };
            let (t1, a1) = fetch_step(t0, FetchEvent::Begin);
            let (t2, a2) = if cached {
                let (ts, _) = fetch_step(t1, FetchEvent::CacheStale);
                fetch_step(ts, FetchEvent::StaleRemoved)
            } else {
                fetch_step(t1, FetchEvent::CacheAbsent)
            };
            let (t3, k) = run_failing(t2, retries as nat);
            let (t4, a4) = fetch_step(t3, FetchEvent::AttemptFailed);
            &&& a1 == FetchAction::CheckCache
            &&& a2 == FetchAction::Download { resume: true }
            &&& k == retries
            &&& t3.phase == FetchPhase::Downloading
            &&& t3.attempts == retries + 1
            &&& a4 == FetchAction::GiveUp
            &&& t4.phase == FetchPhase::Failed
        }),
{
    let t2 = FetchTask { retries, attempts: 1, phase: FetchPhase::Downloading };
    lemma_run_failing(t2, retries as nat);
    let t3 = FetchTask { retries, attempts: (retries + 1) as u64, phase: FetchPhase::Downloading };
    assert(run_failing(t2, retries as nat).0 == t3);
    assert(fetch_step(t3, FetchEvent::AttemptFailed).1 == FetchAction::GiveUp);
}

proof fn lemma_run_failing(t: FetchTask, n: nat)
    requires
        t.phase == FetchPhase::Downloading,
        t.attempts >= 1,
        t.retries < u64::MAX,
        t.attempts + n <= t.retries + 1,
    ensures
        run_failing(t, n).0 == (FetchTask { attempts: (t.attempts + n) as u64, ..t }),
        run_failing(t, n).1 == n,
    decreases n,
{
    if n > 0 {
        let t1 = FetchTask { attempts: (t.attempts + 1) as u64, ..t };
        assert(fetch_step(t, FetchEvent::AttemptFailed) == (t1, FetchAction::Download { resume: false }));
        lemma_run_failing(t1, (n - 1) as nat);
    }
}

/// A complete cache entry whose digest no longer matches is deleted and
/// fetched again, and nothing else of the task changes.
pub proof fn lemma_stale_entry_refetched(retries: u64)
    ensures
        ({
            let t0 = FetchTask { retries, attempts: 0, phase: FetchPhase::Start };
            let (t1, _) = fetch_step(t0, FetchEvent::Begin);
            let (t2, a2) = fetch_step(t1, FetchEvent::CacheStale);
            let (t3, a3) = fetch_step(t2, FetchEvent::StaleRemoved);
            &&& a2 == FetchAction::RemoveStale
            &&& a3 == FetchAction::Download { resume: true }
            &&& t3.attempts == 1
        }),
{
}

} // verus!
