//! Version resolution against a git-hosting platform: which request a payload
//! calls for, and what the platform's answer means.
//!
//! The request itself is made elsewhere. This module says where it goes, with
//! which headers, and turns the decoded answer into a [`VersionInfo`].

use crate::descriptor::{Descriptor, DescriptorView};
use crate::error::{Malformation, SyncError};
use crate::text::{same_text, split, split_on, texts};
use vstd::prelude::*;
use vstd::string::*;

verus! {

/// One release as the platform's release listing reports it.
#[derive(Clone, Debug)]
pub struct ReleaseInfo {
    pub zipball_url: String,
    pub tag_name: String,
    pub body: Option<String>,
}

/// A branch as the platform's branch endpoint reports it.
#[derive(Clone, Debug)]
pub struct BranchInfo {
    pub commit: CommitInfo,
}

/// The head commit of a branch.
#[derive(Clone, Debug)]
pub struct CommitInfo {
    pub sha: String,
    pub commit: CommitMeta,
}

/// What a commit says about itself.
#[derive(Clone, Debug)]
pub struct CommitMeta {
    pub message: String,
}

/// The latest published version of a source: where to download it, the
/// watermark that identifies it, and an optional note for the user.
#[derive(Clone, Debug)]
pub struct VersionInfo {
    pub zipball_url: String,
    pub watermark: String,
    pub body: Option<String>,
}

/// How a source is resolved, chosen by the shape of its payload.
#[derive(Clone, Debug)]
pub enum Strategy {
    /// `owner/repo`: follow the newest tagged release.
    Release { owner: String, repo: String },
    /// `owner/repo/branch`: follow the head commit of a branch.
    Branch { owner: String, repo: String, branch: String },
}

/// A request to the platform: where it goes, and the headers it must carry,
/// each with its name and value.
#[derive(Clone, Debug)]
pub struct Request {
    pub url: String,
    pub headers: Vec<(String, String)>,
}

/// The mathematical value of a [`Request`].
pub struct RequestView {
    pub url: Seq<char>,
    pub headers: Seq<(Seq<char>, Seq<char>)>,
}

impl View for Request {
    type V = RequestView;

    open spec fn view(&self) -> RequestView {
        RequestView {
            url: self.url@,
            headers: Seq::new(
                self.headers@.len(),
                |i: int| (self.headers@[i].0@, self.headers@[i].1@),
            ),
        }
    }
}

/// The headers that every request to the platform carries: the one that pins
/// the version of its API, and the one that asks for its structured response
/// type.
pub open spec fn api_headers() -> Seq<(Seq<char>, Seq<char>)> {
    seq![
        ("X-Github-Api-Version"@, "2022-11-28"@),
        ("Accept"@, "application/vnd.github+json"@),
    ]
}

/// The decoded body of the platform's answer.
#[derive(Clone, Debug)]
pub enum Reply {
    /// The answer of the release listing.
    Releases(Vec<ReleaseInfo>),
    /// The answer of the branch endpoint.
    Branch(BranchInfo),
}

/// The platform's answer to one request: the status it sent, and the body if
/// one arrived and could be decoded.
#[derive(Clone, Debug)]
pub struct Response {
    pub status: u16,
    pub body: Option<Reply>,
}

/// The mathematical value of an optional string.
pub open spec fn opt_text(o: Option<String>) -> Option<Seq<char>> {
    match o {
        Some(s) => Some(s@),
        None => None,
    }
}

/// The mathematical value of a [`ReleaseInfo`].
pub struct ReleaseView {
    pub zipball_url: Seq<char>,
    pub tag_name: Seq<char>,
    pub body: Option<Seq<char>>,
}

/// The mathematical value of a [`BranchInfo`]: the head commit's identifier
/// and message.
pub struct BranchView {
    pub sha: Seq<char>,
    pub message: Seq<char>,
}

/// The mathematical value of a [`VersionInfo`].
pub struct VersionView {
    pub zipball_url: Seq<char>,
    pub watermark: Seq<char>,
    pub body: Option<Seq<char>>,
}

/// The mathematical value of a [`Strategy`].
pub enum StrategyView {
    Release { owner: Seq<char>, repo: Seq<char> },
    Branch { owner: Seq<char>, repo: Seq<char>, branch: Seq<char> },
}

/// The mathematical value of a [`Reply`].
pub enum ReplyView {
    Releases(Seq<ReleaseView>),
    Branch(BranchView),
}

/// The mathematical value of a [`Response`].
pub struct ResponseView {
    pub status: u16,
    pub body: Option<ReplyView>,
}

impl View for ReleaseInfo {
    type V = ReleaseView;

    open spec fn view(&self) -> ReleaseView {
        ReleaseView {
            zipball_url: self.zipball_url@,
            tag_name: self.tag_name@,
            body: opt_text(self.body),
        }
    }
}

impl View for BranchInfo {
    type V = BranchView;

    open spec fn view(&self) -> BranchView {
        BranchView { sha: self.commit.sha@, message: self.commit.commit.message@ }
    }
}

impl View for VersionInfo {
    type V = VersionView;

    open spec fn view(&self) -> VersionView {
        VersionView {
            zipball_url: self.zipball_url@,
            watermark: self.watermark@,
            body: opt_text(self.body),
        }
    }
}

impl View for Strategy {
    type V = StrategyView;

    open spec fn view(&self) -> StrategyView {
        match self {
            Strategy::Release { owner, repo } => StrategyView::Release {
                owner: owner@,
                repo: repo@,
            },
            Strategy::Branch { owner, repo, branch } => StrategyView::Branch {
                owner: owner@,
                repo: repo@,
                branch: branch@,
            },
        }
    }
}

/// The views of a sequence of releases.
pub open spec fn release_views(v: Seq<ReleaseInfo>) -> Seq<ReleaseView> {
    Seq::new(v.len(), |i: int| v[i]@)
}

impl View for Reply {
    type V = ReplyView;

    open spec fn view(&self) -> ReplyView {
        match self {
            Reply::Releases(list) => ReplyView::Releases(release_views(list@)),
            Reply::Branch(info) => ReplyView::Branch(info@),
        }
    }
}

impl View for Response {
    type V = ResponseView;

    open spec fn view(&self) -> ResponseView {
        ResponseView {
            status: self.status,
            body: match self.body {
                Some(reply) => Some(reply@),
                None => None,
            },
        }
    }
}

/// The mathematical value of an optional version.
pub open spec fn opt_version(o: Option<VersionInfo>) -> Option<VersionView> {
    match o {
        Some(v) => Some(v@),
        None => None,
    }
}

/// The mathematical value of the outcome of a resolution.
pub open spec fn resolution_view(r: Result<Option<VersionInfo>, SyncError>) -> Result<
    Option<VersionView>,
    SyncError,
> {
    match r {
        Ok(o) => Ok(opt_version(o)),
        Err(e) => Err(e),
    }
}

/// The strategy that a payload calls for: two segments between `/` follow
/// releases, three follow a branch, anything else is malformed.
pub open spec fn payload_strategy(payload: Seq<char>) -> Result<StrategyView, SyncError> {
    let parts = split_on(payload, '/');
    if parts.len() == 2 {
        Ok(StrategyView::Release { owner: parts[0], repo: parts[1] })
    } else if parts.len() == 3 {
        Ok(StrategyView::Branch { owner: parts[0], repo: parts[1], branch: parts[2] })
    } else {
        Err(SyncError::MalformedDescriptor(Malformation::BadPayloadShape))
    }
}

/// The strategy that a descriptor calls for: its source type must be
/// `github`, and its payload decides the rest.
pub open spec fn descriptor_strategy(d: DescriptorView) -> Result<StrategyView, SyncError> {
    if d.kind == "github"@ {
        payload_strategy(d.payload)
    } else {
        Err(SyncError::MalformedDescriptor(Malformation::UnknownSourceType))
    }
}

/// A status in the success range, 200 to 299.
pub open spec fn is_success(status: u16) -> bool {
    200 <= status <= 299
}

impl StrategyView {
    /// The address of the platform endpoint that this strategy queries.
    pub open spec fn endpoint(self) -> Seq<char> {
        match self {
            StrategyView::Release { owner, repo } => "https://api.github.com/repos/"@ + owner
                + "/"@ + repo + "/releases?per_page=1&page=0"@,
            StrategyView::Branch { owner, repo, branch } => "https://api.github.com/repos/"@
                + owner + "/"@ + repo + "/branches/"@ + branch,
        }
    }
}

impl StrategyView {
    /// The request that this strategy makes.
    pub open spec fn request(self) -> RequestView {
        RequestView { url: self.endpoint(), headers: api_headers() }
    }
}

/// The version that a release stands for: its tag is the watermark, its
/// packaged-source archive the download.
pub open spec fn release_version(r: ReleaseView) -> VersionView {
    VersionView { zipball_url: r.zipball_url, watermark: r.tag_name, body: r.body }
}

/// The address of the archive of one commit of a repository.
pub open spec fn commit_archive_url(owner: Seq<char>, repo: Seq<char>, sha: Seq<char>) -> Seq<
    char,
> {
    "https://github.com/"@ + owner + "/"@ + repo + "/archive/"@ + sha + ".zip"@
}

/// The version that a branch head stands for: the commit identifier is the
/// watermark, the commit message the note.
pub open spec fn branch_version(owner: Seq<char>, repo: Seq<char>, b: BranchView) -> VersionView {
    VersionView {
        zipball_url: commit_archive_url(owner, repo, b.sha),
        watermark: b.sha,
        body: Some(b.message),
    }
}

/// What the answer to a release query means. An empty listing is no error:
/// nothing has been published yet.
pub open spec fn release_resolution(response: ResponseView) -> Result<
    Option<VersionView>,
    SyncError,
> {
    if !is_success(response.status) {
        Err(SyncError::RemoteRequest { status: response.status })
    } else {
        match response.body {
            Some(ReplyView::Releases(list)) => if list.len() == 0 {
                Ok(None)
            } else {
                Ok(Some(release_version(list[0])))
            },
            _ => Err(SyncError::RemoteProtocol),
        }
    }
}

/// What the answer to a branch query means. There is no "nothing published"
/// here: a branch that exists has a head.
pub open spec fn branch_resolution(
    owner: Seq<char>,
    repo: Seq<char>,
    response: ResponseView,
) -> Result<Option<VersionView>, SyncError> {
    if !is_success(response.status) {
        Err(SyncError::RemoteRequest { status: response.status })
    } else {
        match response.body {
            Some(ReplyView::Branch(b)) => Ok(Some(branch_version(owner, repo, b))),
            _ => Err(SyncError::RemoteProtocol),
        }
    }
}

/// What the platform's answer means under a strategy.
pub open spec fn resolution(strategy: StrategyView, response: ResponseView) -> Result<
    Option<VersionView>,
    SyncError,
> {
    match strategy {
        StrategyView::Release { owner, repo } => release_resolution(response),
        StrategyView::Branch { owner, repo, branch } => branch_resolution(owner, repo, response),
    }
}

/// What is left to install once the resolved version has been held against
/// the stored watermark: nothing when they agree.
pub open spec fn pending(existing: Option<Seq<char>>, resolved: Option<VersionView>) -> Option<
    VersionView,
> {
    match resolved {
        Some(v) => if existing == Some(v.watermark) {
            None
        } else {
            Some(v)
        },
        None => None,
    }
}

/// The whole decision for a `github` payload: the strategy it calls for, what
/// the answer means under it, and whether that is news.
pub open spec fn get_spec(
    value: Seq<char>,
    existing: Option<Seq<char>>,
    response: ResponseView,
) -> Result<Option<VersionView>, SyncError> {
    match payload_strategy(value) {
        Err(e) => Err(e),
        Ok(strategy) => match resolution(strategy, response) {
            Err(e) => Err(e),
            Ok(resolved) => Ok(pending(existing, resolved)),
        },
    }
}

/// Whether the status lies in the success range.
pub fn status_is_success(status: u16) -> (r: bool)
    ensures
        r == is_success(status),
{
    200 <= status && status <= 299
}

/// Chooses the strategy for a `github` payload by counting its segments. No
/// segment is inspected further: an empty one is passed on as it is.
pub fn strategy_for(value: &str) -> (r: Result<Strategy, SyncError>)
    ensures
        match r {
            Ok(s) => payload_strategy(value@) == Ok::<StrategyView, SyncError>(s@),
            Err(e) => payload_strategy(value@) == Err::<StrategyView, SyncError>(e),
        },
{
    let parts: Vec<String> = split(value, '/');
    assert(texts(parts@).len() == parts@.len());
    if parts.len() == 2 {
        assert(texts(parts@)[0] == parts@[0]@ && texts(parts@)[1] == parts@[1]@);
        Ok(Strategy::Release { owner: parts[0].clone(), repo: parts[1].clone() })
    } else if parts.len() == 3 {
        assert(texts(parts@)[0] == parts@[0]@ && texts(parts@)[1] == parts@[1]@ && texts(
            parts@,
        )[2] == parts@[2]@);
        Ok(
            Strategy::Branch {
                owner: parts[0].clone(),
                repo: parts[1].clone(),
                branch: parts[2].clone(),
            },
        )
    } else {
        Err(SyncError::MalformedDescriptor(Malformation::BadPayloadShape))
    }
}

/// Chooses the strategy for a descriptor. Only the source type `github` is
/// known; every error here comes before any remote call.
pub fn select_strategy(d: &Descriptor) -> (r: Result<Strategy, SyncError>)
    ensures
        match r {
            Ok(s) => descriptor_strategy(d@) == Ok::<StrategyView, SyncError>(s@),
            Err(e) => descriptor_strategy(d@) == Err::<StrategyView, SyncError>(e),
        },
{
    if same_text(d.kind.as_str(), "github") {
        strategy_for(d.payload.as_str())
    } else {
        Err(SyncError::MalformedDescriptor(Malformation::UnknownSourceType))
    }
}

impl Strategy {
    /// The address of the platform endpoint to query: the release listing,
    /// newest first and one per page, or the named branch.
    pub fn endpoint(&self) -> (url: String)
        ensures
            url@ == self@.endpoint(),
    {
        let mut url: String = String::from_str("https://api.github.com/repos/");
        match self {
            Strategy::Release { owner, repo } => {
                url.append(owner.as_str());
                url.append("/");
                url.append(repo.as_str());
                url.append("/releases?per_page=1&page=0");
            },
            Strategy::Branch { owner, repo, branch } => {
                url.append(owner.as_str());
                url.append("/");
                url.append(repo.as_str());
                url.append("/branches/");
                url.append(branch.as_str());
            },
        }
        url
    }
}

impl Strategy {
    /// The request to make: the endpoint of this strategy, with the headers
    /// that every request to the platform carries.
    pub fn request(&self) -> (r: Request)
        ensures
            r@ == self@.request(),
    {
        let url: String = self.endpoint();
        let mut headers: Vec<(String, String)> = Vec::new();
        headers.push(api_version_header());
        headers.push(accept_header());
        let r = Request { url, headers };
        assert(r@.headers =~= api_headers());
        r
    }
}

/// The name and value of the header that pins the platform's API version.
pub fn api_version_header() -> (h: (String, String))
    ensures
        h.0@ == "X-Github-Api-Version"@,
        h.1@ == "2022-11-28"@,
{
    (String::from_str("X-Github-Api-Version"), String::from_str("2022-11-28"))
}

/// The name and value of the header that asks for the platform's structured
/// response type.
pub fn accept_header() -> (h: (String, String))
    ensures
        h.0@ == "Accept"@,
        h.1@ == "application/vnd.github+json"@,
{
    (String::from_str("Accept"), String::from_str("application/vnd.github+json"))
}

/// Interprets the answer of the release listing. A status outside the
/// success range is a request error with that status; a body that is missing
/// or is no release listing is a protocol error; an empty listing means that
/// nothing is published; otherwise the first release is the latest.
pub fn get_github_release(response: Response) -> (r: Result<Option<VersionInfo>, SyncError>)
    ensures
        resolution_view(r) == release_resolution(response@),
{
    if !status_is_success(response.status) {
        return Err(SyncError::RemoteRequest { status: response.status });
    }
    match response.body {
        Some(Reply::Releases(list)) => {
            let mut list = list;
            assert(release_views(list@).len() == list@.len());
            if list.len() == 0 {
                Ok(None)
            } else {
                assert(release_views(list@)[0] == list@[0]@);
                let first: ReleaseInfo = list.remove(0);
                Ok(
                    Some(
                        VersionInfo {
                            zipball_url: first.zipball_url,
                            watermark: first.tag_name,
                            body: first.body,
                        },
                    ),
                )
            }
        },
        _ => Err(SyncError::RemoteProtocol),
    }
}

/// Interprets the answer of the branch endpoint for `owner/repo`. A status
/// outside the success range, as for an absent branch, is a request error; a
/// body that is missing or is no branch is a protocol error; otherwise the
/// head commit is the version, downloaded as the archive of that very commit.
pub fn get_github_branch(owner: &str, repo: &str, response: Response) -> (r: Result<
    Option<VersionInfo>,
    SyncError,
>)
    ensures
        resolution_view(r) == branch_resolution(owner@, repo@, response@),
{
    if !status_is_success(response.status) {
        return Err(SyncError::RemoteRequest { status: response.status });
    }
    match response.body {
        Some(Reply::Branch(info)) => {
            let mut url: String = String::from_str("https://github.com/");
            url.append(owner);
            url.append("/");
            url.append(repo);
            url.append("/archive/");
            url.append(info.commit.sha.as_str());
            url.append(".zip");
            Ok(
                Some(
                    VersionInfo {
                        zipball_url: url,
                        watermark: info.commit.sha,
                        body: Some(info.commit.commit.message),
                    },
                ),
            )
        },
        _ => Err(SyncError::RemoteProtocol),
    }
}

/// Interprets the platform's answer under the strategy that asked for it.
pub fn resolve(strategy: &Strategy, response: Response) -> (r: Result<
    Option<VersionInfo>,
    SyncError,
>)
    ensures
        resolution_view(r) == resolution(strategy@, response@),
{
    match strategy {
        Strategy::Release { owner, repo } => get_github_release(response),
        Strategy::Branch { owner, repo, branch } => get_github_branch(
            owner.as_str(),
            repo.as_str(),
            response,
        ),
    }
}

/// Holds a resolved version against the stored watermark: `None` when there
/// is no version or its watermark is the stored one, else the version, which
/// is then to be installed.
pub fn compare(existing: Option<&String>, resolved: Option<VersionInfo>) -> (r: Option<
    VersionInfo,
>)
    ensures
        opt_version(r) == pending(
            match existing {
                Some(w) => Some(w@),
                None => None,
            },
            opt_version(resolved),
        ),
{
    match resolved {
        None => None,
        Some(v) => match existing {
            Some(w) => if *w == v.watermark {
                None
            } else {
                Some(v)
            },
            None => Some(v),
        },
    }
}

/// Decides what to install for the `github` payload `value`, given the
/// watermark stored for it and the platform's answer to the query that
/// [`strategy_for`] chose: an error for a malformed payload or a bad answer,
/// `None` when nothing is published or the stored watermark is current, else
/// the version to install.
pub fn get(value: &str, existing: Option<&String>, response: Response) -> (r: Result<
    Option<VersionInfo>,
    SyncError,
>)
    ensures
        resolution_view(r) == get_spec(
            value@,
            match existing {
                Some(w) => Some(w@),
                None => None,
            },
            response@,
        ),
{
    let strategy: Strategy = match strategy_for(value) {
        Ok(s) => s,
        Err(e) => {
            return Err(e);
        },
    };
    match resolve(&strategy, response) {
        Err(e) => Err(e),
        Ok(resolved) => Ok(compare(existing, resolved)),
    }
}

} // verus!
