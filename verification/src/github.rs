//! The replies of the release server: what is read out of their JSON.
use crate::text::{copy_text, joined};
use crate::copy_job::opt_text;
use vstd::prelude::*;
use vstd::string::StringExecFns;

verus! {

// ---------------------------------------------------------------------------
// JSON
// ---------------------------------------------------------------------------

/// `serde_json::Value`: any JSON value.
#[verifier::external_type_specification]
#[verifier::external_body]
pub struct ExValue(serde_json::Value);

/// What `serde_json::from_slice` makes of bytes: a JSON value, or nothing
/// where they are no JSON text.
pub uninterp spec fn json_parsed(body: Seq<u8>) -> Option<serde_json::Value>;

/// What `serde_json::Value::get` finds under a key: the value of that field
/// of an object, and nothing in anything else.
pub uninterp spec fn json_field(v: serde_json::Value, key: Seq<char>) -> Option<serde_json::Value>;

/// What `serde_json::Value::as_str` gives: the text of a JSON string, and
/// nothing for anything else.
pub uninterp spec fn json_text(v: serde_json::Value) -> Option<Seq<char>>;

/// What `serde_json::Value::as_array` gives: the items of a JSON array, and
/// nothing for anything else.
pub uninterp spec fn json_items(v: serde_json::Value) -> Option<Seq<serde_json::Value>>;

/// `serde_json::from_slice`, which reads bytes as a JSON text. That the same
/// bytes give the same value is all that is claimed of it.
#[verifier::external_body]
fn parse_json(body: &[u8]) -> (r: Option<serde_json::Value>)
    ensures
        r == json_parsed(body@),
{
    serde_json::from_slice::<serde_json::Value>(body).ok()
}

/// `serde_json::Value::get` with a key. That the same value and key give the
/// same field is all that is claimed of it.
#[verifier::external_body]
fn get_field<'a>(v: &'a serde_json::Value, key: &str) -> (r: Option<&'a serde_json::Value>)
    ensures
        match r {
            Some(f) => json_field(*v, key@) == Some(*f),
            None => json_field(*v, key@) is None,
        },
{
    v.get(key)
}

/// `serde_json::Value::as_str`. That the same value gives the same text is all
/// that is claimed of it.
#[verifier::external_body]
fn get_text<'a>(v: &'a serde_json::Value) -> (r: Option<&'a str>)
    ensures
        match r {
            Some(s) => json_text(*v) == Some(s@),
            None => json_text(*v) is None,
        },
{
    v.as_str()
}

/// `serde_json::Value::as_array`. That the same value gives the same items is
/// all that is claimed of it.
#[verifier::external_body]
fn get_items<'a>(v: &'a serde_json::Value) -> (r: Option<&'a Vec<serde_json::Value>>)
    ensures
        match r {
            Some(list) => json_items(*v) == Some(list@),
            None => json_items(*v) is None,
        },
{
    v.as_array()
}

/// The text under a key of an object.
pub open spec fn text_field(v: serde_json::Value, key: Seq<char>) -> Option<Seq<char>> {
    match json_field(v, key) {
        Some(f) => json_text(f),
        None => None,
    }
}

/// The text under a key of an object.
fn field_text(v: &serde_json::Value, key: &str) -> (r: Option<String>)
    ensures
        opt_text(r) == text_field(*v, key@),
{
    match get_field(v, key) {
        Some(f) => match get_text(f) {
            Some(s) => Some(copy_text(s)),
            None => None,
        },
        None => None,
    }
}

// ---------------------------------------------------------------------------
// Releases
// ---------------------------------------------------------------------------

/// A file of a release, as far as its reply tells.
pub struct AssetFacts {
    pub name: Option<String>,
    pub url: Option<String>,
}

/// A release, as far as its reply tells.
pub struct ReleaseFacts {
    pub tag_name: Option<String>,
    pub html_url: Option<String>,
    pub published_at: Option<String>,
    pub assets: Option<Vec<AssetFacts>>,
}

/// The view of `AssetFacts`.
#[verifier::ext_equal]
pub struct AssetView {
    pub name: Option<Seq<char>>,
    pub url: Option<Seq<char>>,
}

/// The view of `ReleaseFacts`.
#[verifier::ext_equal]
pub struct ReleaseView {
    pub tag_name: Option<Seq<char>>,
    pub html_url: Option<Seq<char>>,
    pub published_at: Option<Seq<char>>,
    pub assets: Option<Seq<AssetView>>,
}

impl View for AssetFacts {
    type V = AssetView;

    open spec fn view(&self) -> AssetView {
        AssetView { name: opt_text(self.name), url: opt_text(self.url) }
    }
}

/// The views of a list of files.
pub open spec fn asset_views(v: Seq<AssetFacts>) -> Seq<AssetView> {
    Seq::new(v.len(), |i: int| v[i]@)
}

impl View for ReleaseFacts {
    type V = ReleaseView;

    open spec fn view(&self) -> ReleaseView {
        ReleaseView {
            tag_name: opt_text(self.tag_name),
            html_url: opt_text(self.html_url),
            published_at: opt_text(self.published_at),
            assets: match self.assets {
                Some(v) => Some(asset_views(v@)),
                None => None,
            },
        }
    }
}

/// The files in a list of JSON values.
pub open spec fn assets_of(items: Seq<serde_json::Value>) -> Seq<AssetView> {
    Seq::new(
        items.len(),
        |i: int|
            AssetView {
                name: text_field(items[i], "name"@),
                url: text_field(items[i], "browser_download_url"@),
            },
    )
}

/// The release that a JSON value tells of.
pub open spec fn release_of(v: serde_json::Value) -> ReleaseView {
    ReleaseView {
        tag_name: text_field(v, "tag_name"@),
        html_url: text_field(v, "html_url"@),
        published_at: text_field(v, "published_at"@),
        assets: match json_field(v, "assets"@) {
            Some(a) => match json_items(a) {
                Some(items) => Some(assets_of(items)),
                None => None,
            },
            None => None,
        },
    }
}

/// The files in a list of JSON values.
fn read_assets(items: &Vec<serde_json::Value>) -> (r: Vec<AssetFacts>)
    ensures
        asset_views(r@) == assets_of(items@),
{
    let mut r: Vec<AssetFacts> = Vec::new();
    let ghost all = assets_of(items@);
    for i in 0..items.len()
        invariant
            all == assets_of(items@),
            asset_views(r@) == all.take(i as int),
    {
        let ghost before = asset_views(r@);
        r.push(
            AssetFacts {
                name: field_text(&items[i], "name"),
                url: field_text(&items[i], "browser_download_url"),
            },
        );
        assert(asset_views(r@) =~= before.push(all[i as int]));
        assert(asset_views(r@) =~= all.take(i + 1));
    }
    assert(all.take(items@.len() as int) =~= all);
    r
}

/// The release that a reply tells of; nothing where it is no JSON text.
pub fn read_release(body: &[u8]) -> (r: Option<ReleaseFacts>)
    ensures
        match json_parsed(body@) {
            Some(v) => r matches Some(f) && f@ == release_of(v),
            None => r is None,
        },
{
    match parse_json(body) {
        Some(v) => {
            let assets = match get_field(&v, "assets") {
                Some(a) => match get_items(a) {
                    Some(items) => Some(read_assets(items)),
                    None => None,
                },
                None => None,
            };
            Some(
                ReleaseFacts {
                    tag_name: field_text(&v, "tag_name"),
                    html_url: field_text(&v, "html_url"),
                    published_at: field_text(&v, "published_at"),
                    assets,
                },
            )
        },
        None => None,
    }
}

// ---------------------------------------------------------------------------
// The repository
// ---------------------------------------------------------------------------

/// The default branch that a reply tells of; `main` where it tells of none,
/// and nothing where it is no JSON text.
pub fn read_default_branch(body: &[u8]) -> (r: Option<String>)
    ensures
        opt_text(r) == match json_parsed(body@) {
            Some(v) => Some(
                match text_field(v, "default_branch"@) {
                    Some(b) => b,
                    None => "main"@,
                },
            ),
            None => None,
        },
{
    match parse_json(body) {
        Some(v) => match field_text(&v, "default_branch") {
            Some(b) => Some(b),
            None => Some(copy_text("main")),
        },
        None => None,
    }
}

/// The executable of a repository, as far as its reply tells: where it can be
/// had, and the number of its content.
pub struct ExeFacts {
    pub download_url: Option<String>,
    pub sha: Option<String>,
}

/// The executable that a reply tells of; nothing where it is no JSON text.
pub fn read_exe(body: &[u8]) -> (r: Option<ExeFacts>)
    ensures
        match json_parsed(body@) {
            Some(v) => r matches Some(f) && opt_text(f.download_url) == text_field(
                v,
                "download_url"@,
            ) && opt_text(f.sha) == text_field(v, "sha"@),
            None => r is None,
        },
{
    match parse_json(body) {
        Some(v) => Some(
            ExeFacts { download_url: field_text(&v, "download_url"), sha: field_text(&v, "sha") },
        ),
        None => None,
    }
}

/// The time of the first commit in a JSON value.
pub open spec fn commit_date(v: serde_json::Value) -> Option<Seq<char>> {
    match json_items(v) {
        Some(items) => if items.len() == 0 {
            None
        } else {
            match json_field(items[0], "commit"@) {
                Some(c) => match json_field(c, "committer"@) {
                    Some(p) => text_field(p, "date"@),
                    None => None,
                },
                None => None,
            }
        },
        None => None,
    }
}

/// The time of the first commit that a reply tells of.
pub fn read_commit_date(body: &[u8]) -> (r: Option<String>)
    ensures
        opt_text(r) == match json_parsed(body@) {
            Some(v) => commit_date(v),
            None => None,
        },
{
    let v = match parse_json(body) {
        Some(v) => v,
        None => {
            return None;
        },
    };
    match get_items(&v) {
        Some(items) => {
            if items.len() == 0 {
                return None;
            }
            match get_field(&items[0], "commit") {
                Some(c) => match get_field(c, "committer") {
                    Some(p) => field_text(p, "date"),
                    None => None,
                },
                None => None,
            }
        },
        None => None,
    }
}

// ---------------------------------------------------------------------------
// Addresses
// ---------------------------------------------------------------------------

/// Where the server tells of the newest release.
pub open spec fn latest_release_address() -> Seq<char> {
    "https://api.github.com/repos/jeremythille/Rusplorer/releases/latest"@
}

/// Where the server tells of the repository.
pub open spec fn repo_address() -> Seq<char> {
    "https://api.github.com/repos/jeremythille/Rusplorer"@
}

/// Where the server tells of the newest release.
pub fn latest_release_url() -> (r: String)
    ensures
        r@ == latest_release_address(),
{
    copy_text("https://api.github.com/repos/jeremythille/Rusplorer/releases/latest")
}

/// Where the server tells of the repository.
pub fn repo_url() -> (r: String)
    ensures
        r@ == repo_address(),
{
    copy_text("https://api.github.com/repos/jeremythille/Rusplorer")
}

/// Where the server tells of the executable on a branch.
pub fn contents_url(branch: &str) -> (r: String)
    ensures
        r@ == repo_address() + "/contents/rusplorer.exe?ref="@ + branch@,
{
    let mut r = joined(repo_url().as_str(), "/contents/rusplorer.exe?ref=");
    r.append(branch);
    r
}

/// Where the server tells of the last change of the executable on a branch.
pub fn commits_url(branch: &str) -> (r: String)
    ensures
        r@ == repo_address() + "/commits?path=rusplorer.exe&sha="@ + branch@ + "&per_page=1"@,
{
    let mut r = joined(repo_url().as_str(), "/commits?path=rusplorer.exe&sha=");
    r.append(branch);
    r.append("&per_page=1");
    r
}

/// The page of the executable on a branch.
pub fn blob_url(branch: &str) -> (r: String)
    ensures
        r@ == "https://github.com/jeremythille/Rusplorer"@ + "/blob/"@ + branch@
            + "/rusplorer.exe"@,
{
    let mut r = joined("https://github.com/jeremythille/Rusplorer", "/blob/");
    r.append(branch);
    r.append("/rusplorer.exe");
    r
}

/// What a reply tells of a release stands under the keys that the server gives: its tag, its page,
/// its time and its files, each with its name and its address.
pub proof fn a_release_is_read_from_its_keys(
    v: serde_json::Value,
    tag: serde_json::Value,
    page: serde_json::Value,
    time: serde_json::Value,
    list: serde_json::Value,
    i: int,
)
    requires
        json_field(v, "tag_name"@) == Some(tag),
        json_field(v, "html_url"@) == Some(page),
        json_field(v, "published_at"@) == Some(time),
        json_field(v, "assets"@) == Some(list),
    ensures
        release_of(v).tag_name == json_text(tag),
        release_of(v).html_url == json_text(page),
        release_of(v).published_at == json_text(time),
        json_items(list) is None ==> release_of(v).assets is None,
        json_items(list) matches Some(items) ==> (release_of(v).assets matches Some(a) && a.len()
            == items.len() && (0 <= i < items.len() ==> (json_field(items[i], "name"@) matches Some(
            n,
        ) ==> a[i].name == json_text(n)) && (json_field(items[i], "browser_download_url"@) matches Some(
            u,
        ) ==> a[i].url == json_text(u)))),
{
}

/// The time of the newest commit stands in the first item, and nowhere else.
pub proof fn the_first_commit_tells_the_time(
    v: serde_json::Value,
    items: Seq<serde_json::Value>,
    commit: serde_json::Value,
    committer: serde_json::Value,
    date: serde_json::Value,
)
    requires
        json_items(v) == Some(items),
    ensures
        items.len() == 0 ==> commit_date(v) is None,
        items.len() > 0 && json_field(items[0], "commit"@) == Some(commit) && json_field(
            commit,
            "committer"@,
        ) == Some(committer) && json_field(committer, "date"@) == Some(date) ==> commit_date(v)
            == json_text(date),
        items.len() > 0 && json_field(items[0], "commit"@) is None ==> commit_date(v) is None,
{
}

} // verus!
