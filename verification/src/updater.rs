//! Updates: whether a release is to be offered, what its download has to
//! match, and what the update button shows.
use crate::copy_job::opt_text;
use crate::github::{asset_views, blob_url, read_release, AssetFacts, AssetView, ReleaseFacts};
use crate::github::{json_parsed, release_of, ReleaseView};
use crate::numerals::{hex, is_digit, to_hex, value_of_digit};
use crate::paths::FsPath;
use crate::text::begins_with;
use crate::text::{ascii_lower, byte_len, chars_of, copy_text, ends_with, eq_but_case, has_suffix};
use crate::text::{is_white, joined, same_but_case, text_between, to_ascii_lower, trimmed, white};
use crate::versions::{can_cut, cut_bytes, first_bytes, format_github_datetime, is_newer_stamp};
use crate::versions::{is_newer_tag, is_remote_newer, is_remote_timestamp_newer, minute_of};
use crate::versions::{normalize_timestamp_ymdhm, stamp_digits};
use vstd::prelude::*;
use vstd::string::StringExecFns;

verus! {

// ---------------------------------------------------------------------------
// Results
// ---------------------------------------------------------------------------

/// A release that can be installed.
pub struct UpdateRelease {
    pub version_display: String,
    pub exe_url: String,
    /// Where the checksum of the executable can be had.
    pub checksum_url: Option<String>,
    /// The checksum of the executable, where it is known.
    pub expected_sha256: Option<String>,
    pub html_url: String,
}

/// The view of an `UpdateRelease`.
#[verifier::ext_equal]
pub struct OfferView {
    pub version_display: Seq<char>,
    pub exe_url: Seq<char>,
    pub checksum_url: Option<Seq<char>>,
    pub expected_sha256: Option<Seq<char>>,
    pub html_url: Seq<char>,
}

impl View for UpdateRelease {
    type V = OfferView;

    open spec fn view(&self) -> OfferView {
        OfferView {
            version_display: self.version_display@,
            exe_url: self.exe_url@,
            checksum_url: opt_text(self.checksum_url),
            expected_sha256: opt_text(self.expected_sha256),
            html_url: self.html_url@,
        }
    }
}

impl UpdateRelease {
    /// A fresh copy.
    pub fn copy(&self) -> (r: UpdateRelease)
        ensures
            r@ == self@,
    {
        UpdateRelease {
            version_display: copy_text(self.version_display.as_str()),
            exe_url: copy_text(self.exe_url.as_str()),
            checksum_url: copy_opt(&self.checksum_url),
            expected_sha256: copy_opt(&self.expected_sha256),
            html_url: copy_text(self.html_url.as_str()),
        }
    }
}

/// A fresh copy of an optional text.
fn copy_opt(s: &Option<String>) -> (r: Option<String>)
    ensures
        opt_text(r) == opt_text(*s),
{
    match s {
        Some(t) => Some(copy_text(t.as_str())),
        None => None,
    }
}

/// What a check for updates came to.
pub enum UpdateCheckResult {
    /// Nothing newer than the given version.
    UpToDate(String),
    Available(UpdateRelease),
    Error(String),
}

/// The view of an `UpdateCheckResult`.
pub enum CheckView {
    UpToDate(Seq<char>),
    Available(OfferView),
    Error(Seq<char>),
}

impl View for UpdateCheckResult {
    type V = CheckView;

    open spec fn view(&self) -> CheckView {
        match self {
            UpdateCheckResult::UpToDate(v) => CheckView::UpToDate(v@),
            UpdateCheckResult::Available(o) => CheckView::Available(o@),
            UpdateCheckResult::Error(e) => CheckView::Error(e@),
        }
    }
}

// ---------------------------------------------------------------------------
// The newest release
// ---------------------------------------------------------------------------

/// Whether a file of a release is the executable.
pub open spec fn is_exe_asset(a: AssetView) -> bool {
    match a.name {
        Some(n) => same_but_case(n, "rusplorer.exe"@),
        None => false,
    }
}

/// Whether a file of a release is its checksum.
pub open spec fn is_checksum_asset(a: AssetView) -> bool {
    match a.name {
        Some(n) => ends_with(ascii_lower(n), ".sha256"@),
        None => false,
    }
}

/// Where the first executable of a release can be had.
pub open spec fn exe_address(assets: Seq<AssetView>) -> Option<Seq<char>>
    decreases assets.len(),
{
    if assets.len() == 0 {
        None
    } else if is_exe_asset(assets[0]) {
        assets[0].url
    } else {
        exe_address(assets.drop_first())
    }
}

/// Where the first checksum of a release can be had.
pub open spec fn checksum_address(assets: Seq<AssetView>) -> Option<Seq<char>>
    decreases assets.len(),
{
    if assets.len() == 0 {
        None
    } else if is_checksum_asset(assets[0]) {
        assets[0].url
    } else {
        checksum_address(assets.drop_first())
    }
}

/// What a release is called: by the minute it was published, or by its tag.
pub open spec fn release_display(f: ReleaseView) -> Seq<char> {
    match f.published_at {
        Some(p) => minute_of(p),
        None => f.tag_name->0,
    }
}

/// Whether a release has all that it takes to install it.
pub open spec fn is_complete(f: ReleaseView) -> bool {
    f.tag_name is Some && f.assets is Some && exe_address(f.assets->0) is Some
        && checksum_address(f.assets->0) is Some
}

/// Whether the texts of a release can be cut where their dates end.
pub open spec fn is_readable(f: ReleaseView, current: Seq<char>, local: Seq<char>) -> bool {
    &&& f.tag_name is Some && f.published_at is Some ==> can_cut(f.published_at->0, 16)
    &&& is_complete(f) && is_newer_tag(current, f.tag_name->0) ==> can_cut(
        trimmed(release_display(f)),
        16,
    ) && (stamp_digits(release_display(f)) is Some ==> can_cut(trimmed(local), 16))
}

/// What is said of a release: it is offered if its tag and its time are both
/// newer than the version and the time of this build. A release without a
/// tag, without files, without the executable or without a checksum is an
/// error.
pub open spec fn release_verdict(f: ReleaseView, current: Seq<char>, local: Seq<char>) -> CheckView {
    if f.tag_name is None {
        CheckView::Error("release payload missing tag_name"@)
    } else if f.assets is None {
        CheckView::Error("release payload missing assets"@)
    } else if exe_address(f.assets->0) is None {
        CheckView::Error("latest release does not contain rusplorer.exe asset"@)
    } else if checksum_address(f.assets->0) is None {
        CheckView::Error(
            "latest release is missing checksum asset (expected rusplorer.exe.sha256)"@,
        )
    } else if is_newer_tag(current, f.tag_name->0) && is_newer_stamp(local, release_display(f)) {
        CheckView::Available(
            OfferView {
                version_display: release_display(f),
                exe_url: exe_address(f.assets->0)->0,
                checksum_url: checksum_address(f.assets->0),
                expected_sha256: None,
                html_url: match f.html_url {
                    Some(u) => u,
                    None => "https://github.com/jeremythille/Rusplorer/releases"@,
                },
            },
        )
    } else {
        CheckView::UpToDate(release_display(f))
    }
}

/// Where the first executable of a release can be had.
fn find_exe(assets: &Vec<AssetFacts>) -> (r: Option<String>)
    ensures
        opt_text(r) == exe_address(asset_views(assets@)),
{
    let ghost all = asset_views(assets@);
    let mut i: usize = 0;
    assert(all.skip(0) =~= all);
    while i < assets.len()
        invariant
            i <= assets@.len(),
            all == asset_views(assets@),
            exe_address(all) == exe_address(all.skip(i as int)),
        decreases assets@.len() - i,
    {
        let hit = match &assets[i].name {
            Some(n) => eq_but_case(n.as_str(), "rusplorer.exe"),
            None => false,
        };
        assert(all.skip(i as int)[0] == assets@[i as int]@);
        if hit {
            return copy_opt(&assets[i].url);
        }
        assert(all.skip(i as int).drop_first() =~= all.skip(i + 1));
        i = i + 1;
    }
    None
}

/// Where the first checksum of a release can be had.
fn find_checksum(assets: &Vec<AssetFacts>) -> (r: Option<String>)
    ensures
        opt_text(r) == checksum_address(asset_views(assets@)),
{
    let ghost all = asset_views(assets@);
    let mut i: usize = 0;
    assert(all.skip(0) =~= all);
    while i < assets.len()
        invariant
            i <= assets@.len(),
            all == asset_views(assets@),
            checksum_address(all) == checksum_address(all.skip(i as int)),
        decreases assets@.len() - i,
    {
        let hit = match &assets[i].name {
            Some(n) => has_suffix(to_ascii_lower(n.as_str()).as_str(), ".sha256"),
            None => false,
        };
        assert(all.skip(i as int)[0] == assets@[i as int]@);
        if hit {
            return copy_opt(&assets[i].url);
        }
        assert(all.skip(i as int).drop_first() =~= all.skip(i + 1));
        i = i + 1;
    }
    None
}

/// What is said of a release.
pub fn judge_release(facts: &ReleaseFacts, current_version: &str, local_ts: &str) -> (r:
    UpdateCheckResult)
    requires
        is_readable(facts@, current_version@, local_ts@),
    ensures
        r@ == release_verdict(facts@, current_version@, local_ts@),
{
    let tag = match &facts.tag_name {
        Some(t) => t,
        None => {
            return UpdateCheckResult::Error(copy_text("release payload missing tag_name"));
        },
    };
    let html_url = match &facts.html_url {
        Some(u) => copy_text(u.as_str()),
        None => copy_text("https://github.com/jeremythille/Rusplorer/releases"),
    };
    let version_display = match &facts.published_at {
        Some(p) => format_github_datetime(p.as_str()),
        None => copy_text(tag.as_str()),
    };
    let assets = match &facts.assets {
        Some(a) => a,
        None => {
            return UpdateCheckResult::Error(copy_text("release payload missing assets"));
        },
    };
    let exe_url = match find_exe(assets) {
        Some(u) => u,
        None => {
            return UpdateCheckResult::Error(
                copy_text("latest release does not contain rusplorer.exe asset"),
            );
        },
    };
    let checksum_url = find_checksum(assets);
    if checksum_url.is_none() {
        return UpdateCheckResult::Error(
            copy_text("latest release is missing checksum asset (expected rusplorer.exe.sha256)"),
        );
    }
    assert(is_complete(facts@));
    if is_remote_newer(current_version, tag.as_str()) && is_remote_timestamp_newer(
        local_ts,
        version_display.as_str(),
    ) {
        UpdateCheckResult::Available(
            UpdateRelease {
                version_display,
                exe_url,
                checksum_url,
                expected_sha256: None,
                html_url,
            },
        )
    } else {
        UpdateCheckResult::UpToDate(version_display)
    }
}

/// Whether the texts of a release can be cut where their dates end.
pub fn readable(facts: &ReleaseFacts, current_version: &str, local_ts: &str) -> (r: bool)
    ensures
        r == is_readable(facts@, current_version@, local_ts@),
{
    let tag = match &facts.tag_name {
        Some(t) => t,
        None => {
            return true;
        },
    };
    let display = match &facts.published_at {
        Some(p) => {
            if !cut_bytes(p.as_str(), 16).1 {
                return false;
            }
            format_github_datetime(p.as_str())
        },
        None => copy_text(tag.as_str()),
    };
    let assets = match &facts.assets {
        Some(a) => a,
        None => {
            return true;
        },
    };
    if find_exe(assets).is_none() || find_checksum(assets).is_none() || !is_remote_newer(
        current_version,
        tag.as_str(),
    ) {
        return true;
    }
    let core = crate::text::trim(display.as_str());
    if !cut_bytes(core.as_str(), 16).1 {
        return false;
    }
    if normalize_timestamp_ymdhm(display.as_str()).is_none() {
        return true;
    }
    let local = crate::text::trim(local_ts);
    cut_bytes(local.as_str(), 16).1
}

/// What is said of a reply about the newest release. Nothing is said where a
/// date in it ends within a character.
pub fn check_release_update(body: &[u8], current_version: &str, local_ts: &str) -> (r: Option<
    UpdateCheckResult,
>)
    ensures
        match json_parsed(body@) {
            Some(v) => if is_readable(release_of(v), current_version@, local_ts@) {
                r matches Some(c) && c@ == release_verdict(
                    release_of(v),
                    current_version@,
                    local_ts@,
                )
            } else {
                r is None
            },
            None => r matches Some(c) && c@ == CheckView::Error(
                "invalid release payload: error decoding response body"@,
            ),
        },
{
    match read_release(body) {
        Some(facts) => {
            if readable(&facts, current_version, local_ts) {
                Some(judge_release(&facts, current_version, local_ts))
            } else {
                None
            }
        },
        None => Some(
            UpdateCheckResult::Error(
                copy_text("invalid release payload: error decoding response body"),
            ),
        ),
    }
}

/// What the server said of the newest release.
pub enum ReleaseReply {
    /// There is none.
    NotFound,
    /// It could not be asked.
    Failed(String),
    /// A reply.
    Body(Vec<u8>),
}

/// What a check for updates does next.
pub enum CheckStep {
    /// It is over.
    Done(UpdateCheckResult),
    /// It asks for the executable of the repository instead.
    AskRepository,
}

/// Goes on with what the server said of the newest release: without a release
/// the repository itself is asked. Nothing is returned where a date in the
/// reply ends within a character.
pub fn check_for_update(reply: &ReleaseReply, current_version: &str, local_ts: &str) -> (r: Option<
    CheckStep,
>)
    ensures
        match reply {
            ReleaseReply::NotFound => r == Some(CheckStep::AskRepository),
            ReleaseReply::Failed(e) => r matches Some(CheckStep::Done(c)) && c@
                == CheckView::Error("release query failed: "@ + e@),
            ReleaseReply::Body(b) => match json_parsed(b@) {
                Some(v) => if is_readable(release_of(v), current_version@, local_ts@) {
                    r matches Some(CheckStep::Done(c)) && c@ == release_verdict(
                        release_of(v),
                        current_version@,
                        local_ts@,
                    )
                } else {
                    r is None
                },
                None => r matches Some(CheckStep::Done(c)) && c@ == CheckView::Error(
                    "invalid release payload: error decoding response body"@,
                ),
            },
        },
{
    match reply {
        ReleaseReply::NotFound => Some(CheckStep::AskRepository),
        ReleaseReply::Failed(e) => Some(
            CheckStep::Done(
                UpdateCheckResult::Error(joined("release query failed: ", e.as_str())),
            ),
        ),
        ReleaseReply::Body(b) => match check_release_update(
            b.as_slice(),
            current_version,
            local_ts,
        ) {
            Some(c) => Some(CheckStep::Done(c)),
            None => None,
        },
    }
}

/// A release is offered only with the checksum that its download has to match.
pub proof fn offers_have_a_checksum(f: ReleaseView, current: Seq<char>, local: Seq<char>)
    ensures
        release_verdict(f, current, local) matches CheckView::Available(o) ==> o.checksum_url
            is Some,
{
}

/// The release that is running is never offered, whatever it is called.
pub proof fn own_release_is_not_offered(f: ReleaseView, current: Seq<char>, local: Seq<char>)
    requires
        f.tag_name == Some(current),
    ensures
        release_verdict(f, current, local) !is Available,
{
}

// ---------------------------------------------------------------------------
// The executable of the repository
// ---------------------------------------------------------------------------

/// What an executable of the repository is called by the number of its
/// content.
pub open spec fn content_label(sha: Seq<char>) -> Seq<char> {
    if byte_len(sha) >= 7 {
        "repo-"@ + first_bytes(sha, 7)
    } else {
        "repo-latest"@
    }
}

/// What an executable of the repository is called by the number of its
/// content; `repo` stands for a number that is not known.
pub fn version_label(sha: Option<&str>) -> (r: String)
    requires
        sha matches Some(s) ==> can_cut(s@, 7),
    ensures
        r@ == content_label(
            match sha {
                Some(s) => s@,
                None => "repo"@,
            },
        ),
{
    proof {
        reveal_strlit("repo");
        vstd::utf8::is_ascii_chars_encode_utf8("repo"@);
    }
    match sha {
        Some(s) => {
            if s.as_bytes().len() >= 7 {
                joined("repo-", cut_bytes(s, 7).0.as_str())
            } else {
                copy_text("repo-latest")
            }
        },
        None => copy_text("repo-latest"),
    }
}

/// What is said of the executable of the repository: it is offered if its
/// time is newer than that of this build and its content is another.
pub open spec fn repo_verdict(
    display: Seq<char>,
    local: Seq<char>,
    exe_url: Seq<char>,
    branch: Seq<char>,
    remote_sha: Seq<char>,
    local_sha: Seq<char>,
) -> CheckView {
    if is_newer_stamp(local, display) && !same_but_case(remote_sha, local_sha) {
        CheckView::Available(
            OfferView {
                version_display: display,
                exe_url,
                checksum_url: None,
                expected_sha256: Some(remote_sha),
                html_url: "https://github.com/jeremythille/Rusplorer"@ + "/blob/"@ + branch
                    + "/rusplorer.exe"@,
            },
        )
    } else {
        CheckView::UpToDate(display)
    }
}

/// What is said of the executable of the repository, by its checksum and by that of the
/// executable that runs.
pub fn judge_repo_exe(
    display: &str,
    local_ts: &str,
    exe_url: &str,
    branch: &str,
    remote_sha: &str,
    local_sha: &str,
) -> (r: UpdateCheckResult)
    requires
        can_cut(trimmed(display@), 16),
        stamp_digits(display@) is Some ==> can_cut(trimmed(local_ts@), 16),
    ensures
        r@ == repo_verdict(display@, local_ts@, exe_url@, branch@, remote_sha@, local_sha@),
{
    if !is_remote_timestamp_newer(local_ts, display) {
        return UpdateCheckResult::UpToDate(copy_text(display));
    }
    if eq_but_case(remote_sha, local_sha) {
        UpdateCheckResult::UpToDate(copy_text(display))
    } else {
        UpdateCheckResult::Available(
            UpdateRelease {
                version_display: copy_text(display),
                exe_url: copy_text(exe_url),
                checksum_url: None,
                expected_sha256: Some(copy_text(remote_sha)),
                html_url: blob_url(branch),
            },
        )
    }
}

// ---------------------------------------------------------------------------
// Checksums
// ---------------------------------------------------------------------------

/// The SHA-256 digest of `data`, as `sha2::Sha256` computes it.
pub uninterp spec fn sha256(data: Seq<u8>) -> Seq<u8>;

/// `sha2::Digest::digest` for `sha2::Sha256`: 32 bytes that depend on the data
/// alone.
#[verifier::external_body]
fn digest_of(data: &[u8]) -> (r: Vec<u8>)
    ensures
        r@ == sha256(data@),
        r@.len() == 32,
{
    <sha2::Sha256 as sha2::Digest>::digest(data).to_vec()
}

/// The checksum of `data`, in hexadecimal digits.
pub fn sha256_hex(data: &[u8]) -> (r: String)
    ensures
        r@ == hex(sha256(data@)),
        r@.len() == 64,
{
    let d = digest_of(data);
    to_hex(d.as_slice())
}

/// What is said of the executable of the repository, by its content and by that of the
/// executable that runs.
pub fn check_repo_exe_update(
    display: &str,
    local_ts: &str,
    exe_url: &str,
    branch: &str,
    remote: &[u8],
    local: &[u8],
) -> (r: UpdateCheckResult)
    requires
        can_cut(trimmed(display@), 16),
        stamp_digits(display@) is Some ==> can_cut(trimmed(local_ts@), 16),
    ensures
        r@ == repo_verdict(
            display@,
            local_ts@,
            exe_url@,
            branch@,
            hex(sha256(remote@)),
            hex(sha256(local@)),
        ),
{
    let remote_sha = sha256_hex(remote);
    let local_sha = sha256_hex(local);
    judge_repo_exe(
        display,
        local_ts,
        exe_url,
        branch,
        remote_sha.as_str(),
        local_sha.as_str(),
    )
}

/// The executable that runs is not offered again, and what is offered passes the check of its
/// download.
pub proof fn the_repository_offers_something_else(
    display: Seq<char>,
    local_ts: Seq<char>,
    exe_url: Seq<char>,
    branch: Seq<char>,
    remote: Seq<u8>,
    local: Seq<u8>,
)
    ensures
        remote == local ==> repo_verdict(
            display,
            local_ts,
            exe_url,
            branch,
            hex(sha256(remote)),
            hex(sha256(local)),
        ) == CheckView::UpToDate(display),
        repo_verdict(
            display,
            local_ts,
            exe_url,
            branch,
            hex(sha256(remote)),
            hex(sha256(local)),
        ) matches CheckView::Available(o) ==> o.expected_sha256 matches Some(sum) && same_but_case(
            sum,
            hex(sha256(remote)),
        ),
{
}

/// How many characters of `s` come before its first white space.
pub open spec fn word_length(s: Seq<char>) -> int
    decreases s.len(),
{
    if s.len() == 0 || is_white(s[0]) {
        0
    } else {
        1 + word_length(s.drop_first())
    }
}

/// Whether `s` looks like a checksum: 64 hexadecimal digits.
pub open spec fn is_checksum(s: Seq<char>) -> bool {
    s.len() == 64 && forall|i: int| 0 <= i < s.len() ==> is_digit(#[trigger] s[i], 16)
}

/// The first word of `s` that looks like a checksum.
pub open spec fn first_checksum(s: Seq<char>) -> Option<Seq<char>>
    decreases s.len(),
    via first_checksum_ends
{
    if s.len() == 0 {
        None
    } else if is_white(s[0]) {
        first_checksum(s.drop_first())
    } else if is_checksum(s.take(word_length(s))) {
        Some(s.take(word_length(s)))
    } else {
        first_checksum(s.skip(word_length(s)))
    }
}

#[via_fn]
proof fn first_checksum_ends(s: Seq<char>) {
    word_length_holds(s);
}

proof fn word_length_holds(s: Seq<char>)
    ensures
        0 <= word_length(s) <= s.len(),
        s.len() > 0 && !is_white(s[0]) ==> word_length(s) > 0,
    decreases s.len(),
{
    if s.len() > 0 && !is_white(s[0]) {
        word_length_holds(s.drop_first());
    }
}

/// Whether `v[from..to]` looks like a checksum.
fn looks_like_checksum(v: &Vec<char>, from: usize, to: usize) -> (r: bool)
    requires
        from <= to <= v@.len(),
    ensures
        r == is_checksum(v@.subrange(from as int, to as int)),
{
    if to - from != 64 {
        return false;
    }
    let ghost part = v@.subrange(from as int, to as int);
    for i in from..to
        invariant
            from <= to <= v@.len(),
            part == v@.subrange(from as int, to as int),
            forall|k: int| 0 <= k < i - from ==> is_digit(#[trigger] part[k], 16),
    {
        assert(part[i - from] == v@[i as int]);
        if value_of_digit(v[i]) >= 16 {
            assert(!is_digit(part[i - from], 16));
            return false;
        }
        assert(is_digit(part[i - from], 16));
    }
    true
}

/// The checksum in a checksum file, in small letters.
pub fn parse_checksum(body: &str) -> (r: Option<String>)
    ensures
        opt_text(r) == match first_checksum(body@) {
            Some(w) => Some(ascii_lower(w)),
            None => None,
        },
{
    let v = chars_of(body);
    let mut at: usize = 0;
    assert(body@.skip(0) =~= body@);
    while at < v.len()
        invariant
            v@ == body@,
            at <= v@.len(),
            first_checksum(body@) == first_checksum(body@.skip(at as int)),
        decreases v@.len() - at,
    {
        let ghost rest = body@.skip(at as int);
        assert(rest[0] == v@[at as int]);
        if white(v[at]) {
            assert(rest.drop_first() =~= body@.skip(at + 1));
            at = at + 1;
            continue;
        }
        let mut end: usize = at;
        assert(rest.skip(0) =~= rest);
        while end < v.len() && !white(v[end])
            invariant
                v@ == body@,
                at <= end <= v@.len(),
                rest == body@.skip(at as int),
                word_length(rest) == end - at + word_length(body@.skip(end as int)),
            decreases v@.len() - end,
        {
            assert(body@.skip(end as int).drop_first() =~= body@.skip(end + 1));
            end = end + 1;
        }
        assert(word_length(rest) == end - at);
        proof {
            word_length_holds(rest);
        }
        assert(v@.subrange(at as int, end as int) =~= rest.take(end - at));
        if looks_like_checksum(&v, at, end) {
            let word = text_between(&v, at, end);
            return Some(to_ascii_lower(word.as_str()));
        }
        assert(rest.skip(end - at) =~= body@.skip(end as int));
        at = end;
    }
    None
}

/// Where the checksum of a download comes from: it is known, it can be had, or
/// there is none.
pub enum ChecksumSource {
    Known(String),
    Download(String),
    Unchecked,
}

/// Where the checksum of a release comes from.
pub fn checksum_source(release: &UpdateRelease) -> (r: ChecksumSource)
    ensures
        match (release@.expected_sha256, release@.checksum_url) {
            (Some(s), _) => r matches ChecksumSource::Known(k) && k@ == s,
            (None, Some(u)) => r matches ChecksumSource::Download(d) && d@ == u,
            (None, None) => r is Unchecked,
        },
{
    match &release.expected_sha256 {
        Some(s) => ChecksumSource::Known(copy_text(s.as_str())),
        None => match &release.checksum_url {
            Some(u) => ChecksumSource::Download(copy_text(u.as_str())),
            None => ChecksumSource::Unchecked,
        },
    }
}

/// What is said of a download whose checksum is not the expected one.
pub open spec fn mismatch(expected: Seq<char>, got: Seq<char>) -> Seq<char> {
    "checksum mismatch for downloaded update (expected "@ + expected + ", got "@ + got + ")"@
}

/// Whether a download is what it should be. A message tells why it is not;
/// such a download is to be removed.
pub fn verify_download(expected: &str, data: &[u8]) -> (r: Option<String>)
    ensures
        opt_text(r) == if same_but_case(expected@, hex(sha256(data@))) {
            None
        } else {
            Some(mismatch(expected@, hex(sha256(data@))))
        },
{
    let got = sha256_hex(data);
    match_checksum(expected, got.as_str())
}

/// Whether a checksum is the expected one. A message tells where it is not.
pub fn match_checksum(expected: &str, got: &str) -> (r: Option<String>)
    ensures
        opt_text(r) == if same_but_case(expected@, got@) {
            None
        } else {
            Some(mismatch(expected@, got@))
        },
{
    if eq_but_case(expected, got) {
        return None;
    }
    let mut text = joined("checksum mismatch for downloaded update (expected ", expected);
    text.append(", got ");
    text.append(got);
    text.append(")");
    Some(text)
}

/// A download passes exactly if its checksum is the expected one.
pub proof fn only_the_expected_download_passes(data: Seq<u8>, other: Seq<u8>)
    ensures
        same_but_case(hex(sha256(data)), hex(sha256(data))),
        same_but_case(hex(sha256(data)), hex(sha256(other))) && sha256(data).len() == sha256(
            other,
        ).len() ==> sha256(data) == sha256(other),
{
    let a = sha256(data);
    let b = sha256(other);
    if same_but_case(hex(a), hex(b)) && a.len() == b.len() {
        crate::numerals::hex_is_small(a);
        crate::numerals::hex_is_small(b);
        crate::numerals::hex_is_unique(a, b);
    }
}

// ---------------------------------------------------------------------------
// Installing
// ---------------------------------------------------------------------------

/// The name under which a download waits beside the executable.
pub fn staged_path(exe_dir: &FsPath) -> (r: FsPath)
    ensures
        r@ == exe_dir@.join("rusplorer.update.new.exe"@),
{
    exe_dir.join("rusplorer.update.new.exe")
}

/// The name of the script that puts the download in place.
pub fn script_path(exe_dir: &FsPath) -> (r: FsPath)
    ensures
        r@ == exe_dir@.join("rusplorer.update.apply.cmd"@),
{
    exe_dir.join("rusplorer.update.apply.cmd")
}

/// The script that waits until the executable is no longer in use, puts the
/// download in its place and starts it.
pub open spec fn update_script(target: Seq<char>, staged: Seq<char>) -> Seq<char> {
    "@echo off\r\nsetlocal\r\nset \"TARGET="@ + target + "\"\r\nset \"STAGED="@ + staged + "\"\r\n\r\nif not exist \"%STAGED%\" goto :fail\r\n\r\nrem Wait until TARGET is no longer locked (all running instances exited).\r\nfor /L %%I in (1,1,180) do (\r\n"@ + "  powershell -NoProfile -Command \"try { $fs=[System.IO.File]::Open($env:TARGET,'Open','ReadWrite','None'); $fs.Close(); exit 0 } catch { exit 1 }\" >nul 2>nul\r\n  if errorlevel 1 (\r\n    timeout /t 1 /nobreak >nul\r\n  ) else (\r\n    goto :replace\r\n  )\r\n)\r\n\r\ngoto :fail\r\n\r\n"@ + ":replace\r\ndel /F /Q \"%TARGET%\" >nul 2>nul\r\ncopy /Y \"%STAGED%\" \"%TARGET%\" >nul\r\nif errorlevel 1 goto :fail\r\n\r\nstart \"\" \"%TARGET%\"\r\ndel /F /Q \"%STAGED%\" >nul 2>nul\r\ndel /F /Q \"%~f0\" >nul 2>nul\r\nexit /b 0\r\n\r\n:fail\r\n"@ + "rem Best-effort rollback: if original executable still exists, start it.\r\nif exist \"%TARGET%\" start \"\" \"%TARGET%\"\r\nexit /b 1\r\n"@
}

/// The script that puts the download in place.
pub fn write_update_script(target: &str, staged: &str) -> (r: String)
    ensures
        r@ == update_script(target@, staged@),
{
    let mut r = joined("@echo off\r\nsetlocal\r\nset \"TARGET=", target);
    r.append("\"\r\nset \"STAGED=");
    r.append(staged);
    r.append("\"\r\n\r\nif not exist \"%STAGED%\" goto :fail\r\n\r\nrem Wait until TARGET is no longer locked (all running instances exited).\r\nfor /L %%I in (1,1,180) do (\r\n");
    r.append("  powershell -NoProfile -Command \"try { $fs=[System.IO.File]::Open($env:TARGET,'Open','ReadWrite','None'); $fs.Close(); exit 0 } catch { exit 1 }\" >nul 2>nul\r\n  if errorlevel 1 (\r\n    timeout /t 1 /nobreak >nul\r\n  ) else (\r\n    goto :replace\r\n  )\r\n)\r\n\r\ngoto :fail\r\n\r\n");
    r.append(":replace\r\ndel /F /Q \"%TARGET%\" >nul 2>nul\r\ncopy /Y \"%STAGED%\" \"%TARGET%\" >nul\r\nif errorlevel 1 goto :fail\r\n\r\nstart \"\" \"%TARGET%\"\r\ndel /F /Q \"%STAGED%\" >nul 2>nul\r\ndel /F /Q \"%~f0\" >nul 2>nul\r\nexit /b 0\r\n\r\n:fail\r\n");
    r.append("rem Best-effort rollback: if original executable still exists, start it.\r\nif exist \"%TARGET%\" start \"\" \"%TARGET%\"\r\nexit /b 1\r\n");
    r
}

// ---------------------------------------------------------------------------
// The update button
// ---------------------------------------------------------------------------

/// How far an update has come.
pub enum UpdateUiState {
    Idle,
    Checking,
    UpToDate(String),
    Available(UpdateRelease),
    Downloading(String),
    Applying(String),
    Error(String),
}

/// The view of an `UpdateUiState`.
pub enum UpdateView {
    Idle,
    Checking,
    UpToDate(Seq<char>),
    Available(OfferView),
    Downloading(Seq<char>),
    Applying(Seq<char>),
    Error(Seq<char>),
}

impl View for UpdateUiState {
    type V = UpdateView;

    open spec fn view(&self) -> UpdateView {
        match self {
            UpdateUiState::Idle => UpdateView::Idle,
            UpdateUiState::Checking => UpdateView::Checking,
            UpdateUiState::UpToDate(v) => UpdateView::UpToDate(v@),
            UpdateUiState::Available(r) => UpdateView::Available(r@),
            UpdateUiState::Downloading(v) => UpdateView::Downloading(v@),
            UpdateUiState::Applying(v) => UpdateView::Applying(v@),
            UpdateUiState::Error(e) => UpdateView::Error(e@),
        }
    }
}

/// The update that is under way.
pub struct Updater {
    pub state: UpdateUiState,
    /// A check is running.
    pub checking: bool,
    /// An installation is running.
    pub applying: bool,
}

/// What an installation came to.
pub enum UpdateApplyResult {
    /// The script can be started, and this version is installed then.
    ReadyToRestart(String),
    Error(String),
}

impl Updater {
    /// No update is under way.
    pub fn new() -> (r: Updater)
        ensures
            r.state@ == UpdateView::Idle,
            !r.checking,
            !r.applying,
    {
        Updater { state: UpdateUiState::Idle, checking: false, applying: false }
    }

    /// Starts a check, unless one is running.
    pub fn start_update_check(&mut self) -> (r: bool)
        ensures
            r == !old(self).checking,
            final(self).checking,
            final(self).applying == old(self).applying,
            final(self).state@ == if r {
                UpdateView::Checking
            } else {
                old(self).state@
            },
    {
        if self.checking {
            return false;
        }
        self.state = UpdateUiState::Checking;
        self.checking = true;
        true
    }

    /// A check is over.
    pub fn on_check_result(&mut self, result: UpdateCheckResult)
        ensures
            !final(self).checking,
            final(self).applying == old(self).applying,
            final(self).state@ == match result@ {
                CheckView::UpToDate(v) => UpdateView::UpToDate(v),
                CheckView::Available(o) => UpdateView::Available(o),
                CheckView::Error(e) => UpdateView::Error(e),
            },
    {
        self.checking = false;
        self.state = match result {
            UpdateCheckResult::UpToDate(v) => UpdateUiState::UpToDate(v),
            UpdateCheckResult::Available(o) => UpdateUiState::Available(o),
            UpdateCheckResult::Error(e) => UpdateUiState::Error(e),
        };
    }

    /// Starts the installation of the release that is offered, unless one is
    /// running or none is offered.
    pub fn start_apply_update(&mut self) -> (r: Option<UpdateRelease>)
        ensures
            final(self).checking == old(self).checking,
            match old(self).state@ {
                UpdateView::Available(o) => if old(self).applying {
                    r is None && final(self).state@ == old(self).state@
                        && final(self).applying
                } else {
                    r matches Some(u) && u@ == o && final(self).applying && final(self).state@
                        == UpdateView::Downloading(o.version_display)
                },
                _ => r is None && final(self).state@ == old(self).state@ && final(self).applying
                    == old(self).applying,
            },
    {
        if self.applying {
            return None;
        }
        let release = match &self.state {
            UpdateUiState::Available(o) => o.copy(),
            _ => {
                return None;
            },
        };
        self.state = UpdateUiState::Downloading(copy_text(release.version_display.as_str()));
        self.applying = true;
        Some(release)
    }

    /// An installation is over. Says whether the script is to be started.
    pub fn on_apply_result(&mut self, result: UpdateApplyResult) -> (r: bool)
        ensures
            !final(self).applying,
            final(self).checking == old(self).checking,
            r == (result is ReadyToRestart),
            final(self).state@ == match result {
                UpdateApplyResult::ReadyToRestart(v) => UpdateView::Applying(v@),
                UpdateApplyResult::Error(e) => UpdateView::Error(e@),
            },
    {
        self.applying = false;
        match result {
            UpdateApplyResult::ReadyToRestart(v) => {
                self.state = UpdateUiState::Applying(v);
                true
            },
            UpdateApplyResult::Error(e) => {
                self.state = UpdateUiState::Error(e);
                false
            },
        }
    }

    /// The script was started, or it could not be. Says what is told to the
    /// user, who then sees the program end.
    pub fn on_script_started(&mut self, version: &str, failure: Option<&str>) -> (r: Option<String>)
        ensures
            final(self).checking == old(self).checking,
            final(self).applying == old(self).applying,
            match failure {
                None => final(self).state@ == old(self).state@ && opt_text(r) == Some(
                    "Applying update to "@ + version@ + ". Rusplorer will restart shortly..."@,
                ),
                Some(e) => r is None && final(self).state@ == UpdateView::Error(
                    "Failed to launch updater helper: "@ + e@,
                ),
            },
    {
        match failure {
            None => {
                let mut text = joined("Applying update to ", version);
                text.append(". Rusplorer will restart shortly...");
                Some(text)
            },
            Some(e) => {
                self.state =
                UpdateUiState::Error(joined("Failed to launch updater helper: ", e));
                None
            },
        }
    }
}

/// What a click on the update button does.
#[derive(Clone, Copy, PartialEq, Eq, Structural)]
pub enum ButtonClick {
    Nothing,
    Check,
    Install,
}

/// The update button.
pub struct UpdateButton {
    pub label: String,
    pub tip: String,
    pub click: ButtonClick,
}

/// The label of the update button, its tip and what a click on it does.
pub open spec fn button_of(state: UpdateView, build: Seq<char>) -> (Seq<char>, Seq<char>, ButtonClick) {
    let current = "Current version: "@ + build + "\nAvailable version: "@;
    match state {
        UpdateView::Available(o) => (
            "● Update"@,
            current + o.version_display + "\n"@ + o.html_url,
            ButtonClick::Install,
        ),
        UpdateView::Checking => (
            "Checking update..."@,
            current + "checking..."@,
            ButtonClick::Nothing,
        ),
        UpdateView::Downloading(v) => (
            "Downloading "@ + v + "..."@,
            current + v,
            ButtonClick::Nothing,
        ),
        UpdateView::Applying(v) => ("Applying "@ + v + "..."@, current + v, ButtonClick::Nothing),
        UpdateView::Error(e) => (
            "⚠ Update"@,
            "Last update error: "@ + e + "\nClick to retry check"@,
            ButtonClick::Check,
        ),
        UpdateView::UpToDate(v) => ("Check updates"@, current + v, ButtonClick::Check),
        UpdateView::Idle => ("Check updates"@, current + "not checked yet"@, ButtonClick::Check),
    }
}

/// The first lines of a tip.
fn tip_head(build: &str) -> (r: String)
    ensures
        r@ == "Current version: "@ + build@ + "\nAvailable version: "@,
{
    let mut r = joined("Current version: ", build);
    r.append("\nAvailable version: ");
    r
}

/// The update button.
pub fn render_update_button(state: &UpdateUiState, build: &str) -> (r: UpdateButton)
    ensures
        (r.label@, r.tip@, r.click) == button_of(state@, build@),
{
    let mut tip = tip_head(build);
    match state {
        UpdateUiState::Available(o) => {
            tip.append(o.version_display.as_str());
            tip.append("\n");
            tip.append(o.html_url.as_str());
            UpdateButton { label: copy_text("● Update"), tip, click: ButtonClick::Install }
        },
        UpdateUiState::Checking => {
            tip.append("checking...");
            UpdateButton { label: copy_text("Checking update..."), tip, click: ButtonClick::Nothing }
        },
        UpdateUiState::Downloading(v) => {
            tip.append(v.as_str());
            let mut label = joined("Downloading ", v.as_str());
            label.append("...");
            UpdateButton { label, tip, click: ButtonClick::Nothing }
        },
        UpdateUiState::Applying(v) => {
            tip.append(v.as_str());
            let mut label = joined("Applying ", v.as_str());
            label.append("...");
            UpdateButton { label, tip, click: ButtonClick::Nothing }
        },
        UpdateUiState::Error(e) => {
            let mut text = joined("Last update error: ", e.as_str());
            text.append("\nClick to retry check");
            UpdateButton { label: copy_text("⚠ Update"), tip: text, click: ButtonClick::Check }
        },
        UpdateUiState::UpToDate(v) => {
            tip.append(v.as_str());
            UpdateButton { label: copy_text("Check updates"), tip, click: ButtonClick::Check }
        },
        UpdateUiState::Idle => {
            tip.append("not checked yet");
            UpdateButton { label: copy_text("Check updates"), tip, click: ButtonClick::Check }
        },
    }
}

// ---------------------------------------------------------------------------
// What is offered
// ---------------------------------------------------------------------------

/// Whether a file of a release has the name of the executable, in whatever case.
pub open spec fn is_called_like_the_program(a: AssetView) -> bool {
    a.name matches Some(n) && ascii_lower(n) == ascii_lower("rusplorer.exe"@)
}

/// The executable is the first file of a release that has its name in whatever case, and the
/// checksum the first whose name ends as one in whatever case.
pub proof fn the_first_file_of_the_name_is_taken(
    before: Seq<AssetView>,
    a: AssetView,
    behind: Seq<AssetView>,
    stem: Seq<char>,
)
    ensures
        is_called_like_the_program(a) && (forall|i: int|
            0 <= i < before.len() ==> !is_called_like_the_program(#[trigger] before[i]))
            ==> exe_address(before + seq![a] + behind) == a.url,
        (forall|i: int| 0 <= i < before.len() ==> !is_called_like_the_program(#[trigger] before[i]))
            ==> exe_address(before) is None,
        (a.name matches Some(n) && ascii_lower(n) == stem + ".sha256"@) ==> is_checksum_asset(a),
        a.name is None ==> !is_checksum_asset(a),
        is_checksum_asset(a) && (forall|i: int|
            0 <= i < before.len() ==> !is_checksum_asset(#[trigger] before[i]))
            ==> checksum_address(before + seq![a] + behind) == a.url,
        (forall|i: int| 0 <= i < before.len() ==> !is_checksum_asset(#[trigger] before[i]))
            ==> checksum_address(before) is None,
    decreases before.len(),
{
    let all = before + seq![a] + behind;
    if before.len() > 0 {
        let rest = before.drop_first();
        assert(all[0] == before[0]);
        assert(all.drop_first() =~= rest + seq![a] + behind);
        the_first_file_of_the_name_is_taken(rest, a, behind, stem);
        if forall|i: int| 0 <= i < before.len() ==> !is_called_like_the_program(#[trigger] before[i]) {
            assert(!is_called_like_the_program(before[0]));
            assert forall|i: int| 0 <= i < rest.len() implies !is_called_like_the_program(
                #[trigger] rest[i],
            ) by {
                assert(rest[i] == before[i + 1]);
            }
        }
        if forall|i: int| 0 <= i < before.len() ==> !is_checksum_asset(#[trigger] before[i]) {
            assert(!is_checksum_asset(before[0]));
            assert forall|i: int| 0 <= i < rest.len() implies !is_checksum_asset(
                #[trigger] rest[i],
            ) by {
                assert(rest[i] == before[i + 1]);
            }
        }
    } else {
        assert(all[0] == a);
        if a.name is Some && ascii_lower(a.name->0) == stem + ".sha256"@ {
            crate::text::a_part_is_found(stem, ".sha256"@, Seq::empty());
        }
    }
}

/// A release that has all that it takes is offered where its version is greater at the first place
/// that differs and its time is later at the first digit that differs, and it is offered with its
/// own addresses; where either is not so, it is not.
pub proof fn a_newer_release_is_offered(
    f: ReleaseView,
    running: Seq<u64>,
    released: Seq<u64>,
    local: Seq<char>,
    k: int,
    m: int,
)
    requires
        running.len() > 0,
        0 <= k < released.len(),
        forall|i: int|
            0 <= i < k ==> #[trigger] released[i] == if i < running.len() {
                running[i]
            } else {
                0
            },
        released[k] > if k < running.len() {
            running[k]
        } else {
            0
        },
        f.assets is Some,
        exe_address(f.assets->0) is Some,
        checksum_address(f.assets->0) is Some,
        f.published_at is Some,
    ensures
        ({
            let later = crate::versions::is_minute(local) && crate::versions::is_minute(
                minute_of(f.published_at->0),
            ) && 0 <= m < 16 && trimmed(local).take(m) == trimmed(
                minute_of(f.published_at->0),
            ).take(m) && trimmed(local)[m] < trimmed(minute_of(f.published_at->0))[m];
            let earlier = crate::versions::is_minute(local) && crate::versions::is_minute(
                minute_of(f.published_at->0),
            ) && 0 <= m < 16 && trimmed(local).take(m) == trimmed(
                minute_of(f.published_at->0),
            ).take(m) && trimmed(local)[m] > trimmed(minute_of(f.published_at->0))[m];
            &&& f.tag_name == Some(seq!['v'] + crate::versions::dotted(released)) && later ==> {
                release_verdict(f, crate::versions::dotted(running), local) matches CheckView::Available(
                    o,
                ) && Some(o.exe_url) == exe_address(f.assets->0) && o.checksum_url
                    == checksum_address(f.assets->0) && o.version_display == minute_of(
                    f.published_at->0,
                ) && o.expected_sha256 is None && (f.html_url is Some ==> Some(o.html_url)
                    == f.html_url)
            }
            &&& f.tag_name == Some(seq!['v'] + crate::versions::dotted(released)) && earlier
                ==> release_verdict(f, crate::versions::dotted(running), local)
                == CheckView::UpToDate(minute_of(f.published_at->0))
            &&& f.tag_name == Some(seq!['v'] + crate::versions::dotted(running)) ==> release_verdict(
                f,
                crate::versions::dotted(released),
                local,
            ) == CheckView::UpToDate(minute_of(f.published_at->0))
        }),
{
    crate::versions::a_greater_version_is_newer(running, released, k);
    let p = minute_of(f.published_at->0);
    if crate::versions::is_minute(local) && crate::versions::is_minute(p) && 0 <= m < 16 && trimmed(
        local,
    ).take(m) == trimmed(p).take(m) {
        if trimmed(local)[m] < trimmed(p)[m] {
            crate::versions::the_later_time_is_newer(local, p, m);
        }
        if trimmed(local)[m] > trimmed(p)[m] {
            crate::versions::the_later_time_is_newer(p, local, m);
        }
    }
}

/// A release without a tag, without files, without the executable or without a checksum is an
/// error, and never an offer.
pub proof fn an_incomplete_release_is_an_error(
    f: ReleaseView,
    current: Seq<char>,
    local: Seq<char>,
)
    requires
        f.tag_name is None || f.assets is None || exe_address(f.assets->0) is None
            || checksum_address(f.assets->0) is None,
    ensures
        release_verdict(f, current, local) is Error,
{
}

/// Whether a character is a hexadecimal digit.
pub open spec fn is_hex_digit(c: char) -> bool {
    '0' <= c <= '9' || 'a' <= c <= 'f' || 'A' <= c <= 'F'
}

/// The checksum in a file is the first word of 64 hexadecimal digits: white space before it does
/// not count, nor do words before it that are none, and it ends at white space or with the file.
pub proof fn the_first_checksum_is_read(word: Seq<char>, c: char, behind: Seq<char>)
    requires
        word.len() > 0,
        forall|i: int| 0 <= i < word.len() ==> !is_white(#[trigger] word[i]),
        is_white(c),
    ensures
        word.len() == 64 && (forall|i: int|
            0 <= i < word.len() ==> is_hex_digit(#[trigger] word[i])) ==> first_checksum(word)
            == Some(word) && first_checksum(word + seq![c] + behind) == Some(word),
        word.len() != 64 || (exists|i: int|
            0 <= i < word.len() && !is_hex_digit(#[trigger] word[i])) ==> first_checksum(word)
            is None && first_checksum(word + seq![c] + behind) == first_checksum(behind),
        first_checksum(seq![c] + behind) == first_checksum(behind),
        first_checksum(Seq::empty()) is None,
{
    let s = word + seq![c] + behind;
    word_ends(word, Seq::empty());
    word_ends(word, seq![c] + behind);
    assert(word + Seq::<char>::empty() =~= word);
    assert(word + (seq![c] + behind) =~= s);
    assert(s.take(word.len() as int) =~= word);
    assert(word.take(word.len() as int) =~= word);
    assert(s.skip(word.len() as int) =~= seq![c] + behind);
    assert((seq![c] + behind).drop_first() =~= behind);
    assert(word.skip(word.len() as int) =~= Seq::empty());
    assert(s[0] == word[0]);
    assert(!is_white(word[0]));
    assert forall|d: char| #[trigger] is_hex_digit(d) <==> is_digit(d, 16) by {
        hex_digits_have_a_value(d);
    }
    if word.len() == 64 && (forall|i: int| 0 <= i < word.len() ==> is_hex_digit(#[trigger] word[i])) {
        assert(is_checksum(word)) by {
            assert forall|i: int| 0 <= i < word.len() implies is_digit(#[trigger] word[i], 16) by {
                assert(is_hex_digit(word[i]));
            }
        }
    }
    if exists|i: int| 0 <= i < word.len() && !is_hex_digit(#[trigger] word[i]) {
        let i = choose|i: int| 0 <= i < word.len() && !is_hex_digit(#[trigger] word[i]);
        assert(!is_digit(word[i], 16));
        assert(!is_checksum(word));
    }
}

proof fn hex_digits_have_a_value(d: char)
    ensures
        is_hex_digit(d) <==> is_digit(d, 16),
{
}

proof fn word_ends(word: Seq<char>, rest: Seq<char>)
    requires
        forall|i: int| 0 <= i < word.len() ==> !is_white(#[trigger] word[i]),
        rest.len() == 0 || is_white(rest[0]),
    ensures
        word_length(word + rest) == word.len(),
    decreases word.len(),
{
    let s = word + rest;
    if word.len() > 0 {
        let d = word.drop_first();
        assert forall|i: int| 0 <= i < d.len() implies !is_white(#[trigger] d[i]) by {
            assert(d[i] == word[i + 1]);
        }
        word_ends(d, rest);
        assert(s.drop_first() =~= d + rest);
        assert(s[0] == word[0]);
        assert(!is_white(word[0]));
    } else {
        assert(s =~= rest);
    }
}

/// An executable of the repository goes by the first seven characters of its number, and by no
/// number where it has fewer.
pub proof fn the_repository_goes_by_seven_characters(sha: Seq<char>)
    requires
        crate::versions::is_plain_text(sha),
    ensures
        sha.len() >= 7 ==> content_label(sha) == "repo-"@ + sha.take(7),
        sha.len() < 7 ==> content_label(sha) == "repo-latest"@,
{
    crate::versions::plain_texts_are_cut_by_characters(
        sha,
        if sha.len() >= 7 {
            7
        } else {
            0
        },
    );
}

/// An executable of the repository is offered where it is later and its checksum differs in more
/// than case; then it is offered with that checksum.
pub proof fn the_repository_offers_what_is_newer_and_different(
    display: Seq<char>,
    local: Seq<char>,
    exe_url: Seq<char>,
    branch: Seq<char>,
    remote_sha: Seq<char>,
    local_sha: Seq<char>,
    m: int,
)
    requires
        crate::versions::is_minute(local),
        crate::versions::is_minute(display),
        0 <= m < 16,
        trimmed(local).take(m) == trimmed(display).take(m),
    ensures
        trimmed(local)[m] < trimmed(display)[m] && ascii_lower(remote_sha) != ascii_lower(local_sha)
            ==> (repo_verdict(display, local, exe_url, branch, remote_sha, local_sha) matches CheckView::Available(
            o,
        ) && o.exe_url == exe_url && o.expected_sha256 == Some(remote_sha) && o.version_display
            == display),
        trimmed(local)[m] > trimmed(display)[m] || ascii_lower(remote_sha) == ascii_lower(local_sha)
            ==> repo_verdict(display, local, exe_url, branch, remote_sha, local_sha)
            == CheckView::UpToDate(display),
{
    if trimmed(local)[m] < trimmed(display)[m] {
        crate::versions::the_later_time_is_newer(local, display, m);
    }
    if trimmed(local)[m] > trimmed(display)[m] {
        crate::versions::the_later_time_is_newer(display, local, m);
    }
}

/// The button installs what is offered, does nothing while something is under way, and checks
/// otherwise; its tip names this build unless it tells of an error.
pub proof fn the_button_does_what_comes_next(state: UpdateView, build: Seq<char>)
    ensures
        button_of(state, build).2 == ButtonClick::Install <==> state is Available,
        button_of(state, build).2 == ButtonClick::Nothing <==> state is Checking
            || state is Downloading || state is Applying,
        state !is Error ==> begins_with(button_of(state, build).1, "Current version: "@ + build),
{
    if state !is Error {
        let head = "Current version: "@ + build;
        let tip = button_of(state, build).1;
        assert(tip.len() >= head.len());
        assert(tip.subrange(0, head.len() as int) =~= head);
    }
}

/// A release whose texts are plain can always be judged.
pub proof fn plain_releases_can_be_judged(f: ReleaseView, current: Seq<char>, local: Seq<char>)
    requires
        f.published_at matches Some(p) ==> crate::versions::is_plain_text(p),
        f.tag_name matches Some(t) ==> crate::versions::is_plain_text(t),
        crate::versions::is_plain_text(local),
    ensures
        is_readable(f, current, local),
{
    if f.tag_name is Some {
        let d = release_display(f);
        assert(crate::versions::is_plain_text(d)) by {
            if f.published_at is Some {
                let p = f.published_at->0;
                crate::versions::a_release_is_dated_to_the_minute(p);
                if p.len() >= 16 {
                    assert forall|i: int| 0 <= i < d.len() implies '\0' <= #[trigger] d[i]
                        <= '\u{7f}' by {
                        assert('\0' <= p[i] <= '\u{7f}');
                    }
                }
            }
        }
        trimmed_is_plain(d);
        trimmed_is_plain(local);
        if f.published_at is Some {
            crate::versions::plain_texts_can_be_cut(f.published_at->0, 16);
        }
        crate::versions::plain_texts_can_be_cut(trimmed(d), 16);
        crate::versions::plain_texts_can_be_cut(trimmed(local), 16);
    }
}

proof fn trimmed_is_plain(s: Seq<char>)
    requires
        crate::versions::is_plain_text(s),
    ensures
        crate::versions::is_plain_text(trimmed(s)),
{
    crate::text::trimming_takes_white_space_alone(s);
    let (a, b) = choose|a: Seq<char>, b: Seq<char>|
        s == #[trigger] (a + trimmed(s) + b) && (forall|i: int|
            0 <= i < a.len() ==> is_white(#[trigger] a[i])) && (forall|i: int|
            0 <= i < b.len() ==> is_white(#[trigger] b[i]));
    let t = trimmed(s);
    assert forall|i: int| 0 <= i < t.len() implies '\0' <= #[trigger] t[i] <= '\u{7f}' by {
        assert(t[i] == s[a.len() + i]);
    }
}

/// The script names the executable as what is replaced and the download as what replaces it.
pub proof fn the_script_replaces_the_program(target: Seq<char>, staged: Seq<char>)
    ensures
        exists|a: Seq<char>, b: Seq<char>|
            update_script(target, staged) == #[trigger] (a + ("TARGET="@ + target + "\""@) + b),
        exists|a: Seq<char>, b: Seq<char>|
            update_script(target, staged) == #[trigger] (a + ("STAGED="@ + staged + "\""@) + b),
{
    reveal_strlit("@echo off\r\nsetlocal\r\nset \"TARGET=");
    reveal_strlit("\"\r\nset \"STAGED=");
    reveal_strlit("TARGET=");
    reveal_strlit("STAGED=");
    reveal_strlit("\"");
    reveal_strlit(
        "\"\r\n\r\nif not exist \"%STAGED%\" goto :fail\r\n\r\nrem Wait until TARGET is no longer locked (all running instances exited).\r\nfor /L %%I in (1,1,180) do (\r\n",
    );
    let s = update_script(target, staged);
    let head = "@echo off\r\nsetlocal\r\nset \"TARGET="@;
    let mid = "\"\r\nset \"STAGED="@;
    let n = head.len() as int;
    let first = "TARGET="@ + target + "\""@;
    let a = head.take(n - 7);
    assert(head =~= a + "TARGET="@);
    let b = s.skip((a.len() + first.len()) as int);
    assert(s =~= a + first + b);
    let second = "STAGED="@ + staged + "\""@;
    let m = mid.len() as int;
    let c = head + target + mid.take(m - 7);
    assert(mid =~= mid.take(m - 7) + "STAGED="@);
    let d = s.skip((c.len() + second.len()) as int);
    assert(s =~= c + second + d);
}

/// A file whose name does not end as that of a checksum is none.
pub proof fn other_files_are_no_checksums(a: AssetView)
    requires
        a.name matches Some(n) ==> n.len() < 7 || ascii_lower(n).skip(n.len() - 7) != ".sha256"@,
    ensures
        !is_checksum_asset(a),
{
    reveal_strlit(".sha256");
    if is_checksum_asset(a) {
        let l = ascii_lower(a.name->0);
        assert(l.subrange(l.len() - 7, l.len() as int) =~= l.skip(l.len() - 7));
    }
}

/// A release is called by the minute that it was published, and by its tag where that is not told.
pub proof fn a_release_is_called_by_its_time(f: ReleaseView)
    requires
        f.tag_name is Some,
    ensures
        f.published_at matches Some(p) ==> release_display(f) == minute_of(p),
        f.published_at is None ==> Some(release_display(f)) == f.tag_name,
{
}

/// What is said of a download that is not the expected one names both checksums.
pub proof fn a_mismatch_names_both_checksums(expected: Seq<char>, got: Seq<char>)
    ensures
        crate::text::occurs_in(mismatch(expected, got), "expected "@ + expected),
        crate::text::occurs_in(mismatch(expected, got), "got "@ + got),
{
    reveal_strlit("checksum mismatch for downloaded update (expected ");
    reveal_strlit("expected ");
    reveal_strlit(", got ");
    reveal_strlit("got ");
    let head = "checksum mismatch for downloaded update (expected "@;
    let start = head.take(head.len() - 9);
    assert(head =~= start + "expected "@);
    let rest = ", got "@ + got + ")"@;
    crate::text::a_part_is_found(start, "expected "@ + expected, rest);
    assert(mismatch(expected, got) =~= start + ("expected "@ + expected) + rest);
    assert(", got "@ =~= ", got "@.take(2) + "got "@);
    let before = head + expected + ", got "@.take(2);
    crate::text::a_part_is_found(before, "got "@ + got, ")"@);
    assert(mismatch(expected, got) =~= before + ("got "@ + got) + ")"@);
}

} // verus!
