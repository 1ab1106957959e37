//! Self-update: which release to install, and whether a download may be run.
//!
//! The release list and the downloads come over the network. What is decided from
//! them stands here: whether a release is worth installing, which of its assets is
//! the installer, which checksum belongs to it, and whether the bytes that arrived
//! have that checksum.

use vstd::prelude::*;

use crate::checksum;
use crate::text;
use crate::version;

verus! {

/// The repository that releases come from.
pub const REPO: &'static str = "StephenSHorton/hato";

/// What the user interface needs when an update is available.
#[derive(Debug, Clone)]
pub struct UpdateInfo {
    pub version: String,
    pub notes: String,
    pub asset_url: String,
    pub asset_name: String,
    pub sha256: String,
    pub published_at: String,
}

/// A file attached to a release.
#[derive(Debug)]
pub struct GhAsset {
    pub name: String,
    pub browser_download_url: String,
}

/// A release as the release list describes it.
#[derive(Debug)]
pub struct GhRelease {
    pub tag_name: String,
    pub body: String,
    pub published_at: String,
    pub assets: Vec<GhAsset>,
}

/// A release that is to be installed, before its checksum is known.
#[derive(Debug)]
pub struct UpdatePlan {
    pub version: String,
    pub notes: String,
    pub installer: GhAsset,
    pub sums_url: Option<String>,
    pub published_at: String,
}

/// Whether an asset of this name is the Windows installer.
pub open spec fn is_installer(name: Seq<char>) -> bool {
    let n = text::lowered(name);
    text::has_end(n, "-installer.exe"@) && text::has_part(n, "windows"@)
}

/// Whether an asset of this name is the list of checksums.
pub open spec fn is_checksum_list(name: Seq<char>) -> bool {
    !is_installer(name) && text::lowered(name) == "sha256sums"@
}

/// The last asset that is the Windows installer.
pub open spec fn installer_of(assets: Seq<GhAsset>) -> Option<GhAsset>
    decreases assets.len(),
{
    if assets.len() == 0 {
        None
    } else if is_installer(assets.last().name@) {
        Some(assets.last())
    } else {
        installer_of(assets.drop_last())
    }
}

/// Where the last asset that is the list of checksums can be downloaded.
pub open spec fn checksum_list_of(assets: Seq<GhAsset>) -> Option<Seq<char>>
    decreases assets.len(),
{
    if assets.len() == 0 {
        None
    } else if is_checksum_list(assets.last().name@) {
        Some(assets.last().browser_download_url@)
    } else {
        checksum_list_of(assets.drop_last())
    }
}

/// Picks the installer and the address of the checksum list among the assets of
/// a release. Where there are several of a kind, the last one counts.
pub fn select_assets(assets: Vec<GhAsset>) -> (r: (Option<GhAsset>, Option<String>))
    ensures
        r.0 == installer_of(assets@),
        text::opt_text(r.1) == checksum_list_of(assets@),
{
    let ghost all = assets@;
    let mut rest = assets;
    let mut installer: Option<GhAsset> = None;
    let mut sums: Option<String> = None;
    while rest.len() > 0
        invariant
            installer is Some ==> installer == installer_of(all),
            installer is None ==> installer_of(rest@) == installer_of(all),
            sums is Some ==> text::opt_text(sums) == checksum_list_of(all),
            sums is None ==> checksum_list_of(rest@) == checksum_list_of(all),
        decreases rest@.len(),
    {
        let ghost before = rest@;
        if let Some(asset) = rest.pop() {
            assert(asset == before.last());
            assert(rest@ == before.drop_last());
            let n = text::to_ascii_lowercase(asset.name.as_str());
            if text::ends_with(n.as_str(), "-installer.exe") && text::contains(
                n.as_str(),
                "windows",
            ) {
                if installer.is_none() {
                    installer = Some(asset);
                }
            } else if text::same(n.as_str(), "sha256sums") {
                if sums.is_none() {
                    sums = Some(asset.browser_download_url);
                }
            }
        }
    }
    (installer, sums)
}

/// What a program of version `current` calls itself in its requests.
pub open spec fn user_agent_text(current: Seq<char>) -> Seq<char> {
    "hato/"@ + current + " (+https://github.com/"@ + REPO@ + ")"@
}

/// What a program of version `current` calls itself in its requests.
pub fn user_agent(current: &str) -> (r: String)
    ensures
        r@ == user_agent_text(current@),
{
    let mut out = "hato/".to_owned();
    out.append(current);
    out.append(" (+https://github.com/");
    out.append(REPO);
    out.append(")");
    out
}

/// Where the newest release is described.
pub fn latest_release_url() -> (r: String)
    ensures
        r@ == "https://api.github.com/repos/"@ + REPO@ + "/releases/latest"@,
{
    let mut out = "https://api.github.com/repos/".to_owned();
    out.append(REPO);
    out.append("/releases/latest");
    out
}

/// The request that a check for updates begins with.
#[derive(Debug)]
pub struct CheckRequest {
    pub url: String,
    pub user_agent: String,
}

/// Begins a check for updates. A build that was not released asks nobody.
pub fn begin_check(current: &str) -> (r: Option<CheckRequest>)
    ensures
        r is None <==> version::is_unreleased(current@),
        r matches Some(q) ==> {
            &&& q.url@ == "https://api.github.com/repos/"@ + REPO@ + "/releases/latest"@
            &&& q.user_agent@ == user_agent_text(current@)
        },
{
    if version::unreleased(current) {
        None
    } else {
        Some(CheckRequest { url: latest_release_url(), user_agent: user_agent(current) })
    }
}

/// Whether an HTTP status reports success.
pub open spec fn is_success(code: u16) -> bool {
    200 <= code < 300
}

/// Whether an HTTP status reports success.
pub fn success(code: u16) -> (r: bool)
    ensures
        r == is_success(code),
{
    200 <= code && code < 300
}

/// The text that `reqwest::StatusCode` displays for the status `code`.
pub uninterp spec fn status_text_of(code: u16) -> Seq<char>;

/// Displays an HTTP status with `reqwest::StatusCode`: the number and the phrase
/// that goes with it. The contract claims that the text depends on the number
/// alone. Statuses below 100 or above 999 do not exist there and are left out.
#[verifier::external_body]
fn status_text(code: u16) -> (r: String)
    requires
        100 <= code <= 999,
    ensures
        r@ == status_text_of(code),
{
    reqwest::StatusCode::from_u16(code).unwrap().to_string()
}

/// What the status of the release list says.
#[derive(Debug, Clone, Copy, PartialEq, Eq, Structural)]
pub enum ReleaseReply {
    /// There is no release.
    NoRelease,
    /// The request failed.
    Failed,
    /// The reply describes a release.
    Release,
}

/// Reads the status of the release list: 404 where nothing was released yet.
pub fn release_reply(code: u16) -> (r: ReleaseReply)
    ensures
        r == if code == 404 {
            ReleaseReply::NoRelease
        } else if is_success(code) {
            ReleaseReply::Release
        } else {
            ReleaseReply::Failed
        },
{
    if code == 404 {
        ReleaseReply::NoRelease
    } else if success(code) {
        ReleaseReply::Release
    } else {
        ReleaseReply::Failed
    }
}

/// The message for a release list that answered with the displayed status
/// `status` and the text `body`.
pub fn release_failure_of(status: &str, body: &str) -> (r: String)
    ensures
        r@ == "github releases: "@ + status@ + ": "@ + text::trimmed(body@),
{
    let mut out = "github releases: ".to_owned();
    out.append(status);
    out.append(": ");
    out.append(text::trim(body).as_str());
    out
}

/// The message for a release list that answered with the status `code` and the
/// text `body`.
pub fn release_failure(code: u16, body: &str) -> (r: String)
    requires
        100 <= code <= 999,
    ensures
        r@ == "github releases: "@ + status_text_of(code) + ": "@ + text::trimmed(body@),
{
    let status = status_text(code);
    release_failure_of(status.as_str(), body)
}

/// Whether `plan` is the plan to install the release `rel`: the version of its tag,
/// its notes and date, its installer, and where its list of checksums is.
pub open spec fn plans(rel: GhRelease, plan: UpdatePlan) -> bool {
    &&& plan.version@ == text::without_leading(rel.tag_name@, 'v')
    &&& plan.notes == rel.body
    &&& Some(plan.installer) == installer_of(rel.assets@)
    &&& text::opt_text(plan.sums_url) == checksum_list_of(rel.assets@)
    &&& plan.published_at == rel.published_at
}

/// Decides whether the release `rel` is to be installed over version `current`.
/// An older or equal release is passed over; a newer one without an installer is
/// an error.
pub fn consider_release(rel: GhRelease, current: &str) -> (r: Result<Option<UpdatePlan>, String>)
    ensures
        r matches Ok(None) <==> !version::newer(rel.tag_name@, current@),
        r is Err <==> version::newer(rel.tag_name@, current@) && installer_of(rel.assets@) is None,
        r matches Err(e) ==> e@ == "release "@ + rel.tag_name@ + " has no windows installer asset"@,
        r matches Ok(Some(plan)) ==> plans(rel, plan),
{
    if !version::is_newer(rel.tag_name.as_str(), current) {
        return Ok(None);
    }
    let (installer, sums_url) = select_assets(rel.assets);
    match installer {
        None => {
            let mut e = "release ".to_owned();
            e.append(rel.tag_name.as_str());
            e.append(" has no windows installer asset");
            Err(e)
        },
        Some(installer) => Ok(
            Some(
                UpdatePlan {
                    version: text::trim_start_matches(rel.tag_name.as_str(), 'v'),
                    notes: rel.body,
                    installer,
                    sums_url,
                    published_at: rel.published_at,
                },
            ),
        ),
    }
}

/// Completes a plan with the checksum of its installer, where one is known.
pub fn with_checksum(plan: UpdatePlan, sum: Option<String>) -> (r: UpdateInfo)
    ensures
        r.version == plan.version,
        r.notes == plan.notes,
        r.asset_url == plan.installer.browser_download_url,
        r.asset_name == plan.installer.name,
        r.published_at == plan.published_at,
        r.sha256@ == match sum {
            Some(s) => s@,
            None => Seq::empty(),
        },
{
    let sha256 = match sum {
        Some(s) => s,
        None => String::new(),
    };
    UpdateInfo {
        version: plan.version,
        notes: plan.notes,
        asset_url: plan.installer.browser_download_url,
        asset_name: plan.installer.name,
        sha256,
        published_at: plan.published_at,
    }
}

/// Whether `sha256` is the checksum that was found: empty where none was.
pub open spec fn checksum_is(sha256: Seq<char>, sum: Option<Seq<char>>) -> bool {
    sha256 == match sum {
        Some(s) => s,
        None => Seq::empty(),
    }
}

/// Whether `info` completes `plan` with the checksum that the list `list` gives for
/// its installer.
pub open spec fn completes(plan: UpdatePlan, list: Option<Seq<char>>, info: UpdateInfo) -> bool {
    &&& info.version == plan.version
    &&& info.notes == plan.notes
    &&& info.asset_url == plan.installer.browser_download_url
    &&& info.asset_name == plan.installer.name
    &&& info.published_at == plan.published_at
    &&& match list {
        None => checksum_is(info.sha256@, None),
        Some(t) => {
            &&& exists|sum: Option<Seq<char>>| #[trigger]
                checksum_is(info.sha256@, sum) && checksum::gives(t, plan.installer.name@, sum)
            &&& checksum::portable_list(t) ==> checksum_is(
                info.sha256@,
                checksum::listed_sum(t, plan.installer.name@),
            )
        },
    }
}

/// Completes a plan with the checksum that the list `list` gives for its
/// installer. Without a list, or where it gives none, the checksum is empty.
pub fn finish_check(plan: UpdatePlan, list: Option<String>) -> (r: UpdateInfo)
    ensures
        completes(plan, text::opt_text(list), r),
{
    match list {
        Some(t) => {
            let found = checksum::fetch_checksum(t.as_str(), plan.installer.name.as_str());
            let ghost sum = checksum::found_sum(found);
            let found = match found {
                Ok(s) => Some(s),
                Err(_) => None,
            };
            let info = with_checksum(plan, found);
            assert(checksum_is(info.sha256@, sum));
            info
        },
        None => with_checksum(plan, None),
    }
}

/// Where a check for updates has got to.
#[derive(Debug)]
pub enum CheckStage {
    /// The release list was asked.
    Asking,
    /// The release list answered with this status, which reports a failure.
    Explaining(u16),
    /// The release list describes a release.
    Reading,
    /// The release is to be installed; its list of checksums was asked for.
    Summing(UpdatePlan),
    /// The check is over.
    Over,
}

/// What comes in during a check for updates.
#[derive(Debug)]
pub enum CheckEvent {
    /// The status of the release list.
    Status(u16),
    /// What the release list says about a failure.
    Body(String),
    /// The newest release.
    Release(GhRelease),
    /// The list of checksums, where it could be fetched.
    Sums(Option<String>),
}

/// What is done next in a check for updates.
#[derive(Debug)]
pub enum CheckStep {
    /// Read what the release list says about the failure.
    ReadBody,
    /// Read the release.
    ReadRelease,
    /// Fetch the list of checksums from here.
    FetchSums(String),
    /// There is no update.
    NoUpdate,
    /// There is this update.
    Update(UpdateInfo),
    /// The check failed, with this message.
    Fail(String),
    /// Nothing: what came in was not asked for.
    Ignore,
}

/// Whether a program of version `current` goes on from `stage` to `after` when `e`
/// comes in, and does `r`.
pub open spec fn check_follows(
    current: Seq<char>,
    stage: CheckStage,
    e: CheckEvent,
    after: CheckStage,
    r: CheckStep,
) -> bool {
    match (stage, e) {
        (CheckStage::Asking, CheckEvent::Status(code)) => if code == 404 {
            after is Over && r is NoUpdate
        } else if is_success(code) {
            after is Reading && r is ReadRelease
        } else {
            after == CheckStage::Explaining(code) && r is ReadBody
        },
        (CheckStage::Explaining(code), CheckEvent::Body(body)) => {
            &&& after is Over
            &&& r is Fail
            &&& r->Fail_0@ == "github releases: "@ + status_text_of(code) + ": "@ + text::trimmed(
                body@,
            )
        },
        (CheckStage::Reading, CheckEvent::Release(rel)) => if !version::newer(
            rel.tag_name@,
            current,
        ) {
            after is Over && r is NoUpdate
        } else if installer_of(rel.assets@) is None {
            &&& after is Over
            &&& r is Fail
            &&& r->Fail_0@ == "release "@ + rel.tag_name@ + " has no windows installer asset"@
        } else if checksum_list_of(rel.assets@) is None {
            &&& after is Over
            &&& r is Update
            &&& exists|plan: UpdatePlan| #[trigger]
                plans(rel, plan) && completes(plan, None, r->Update_0)
        } else {
            &&& after is Summing
            &&& plans(rel, after->Summing_0)
            &&& r is FetchSums
            &&& Some(r->FetchSums_0@) == checksum_list_of(rel.assets@)
        },
        (CheckStage::Summing(plan), CheckEvent::Sums(list)) => {
            &&& after is Over
            &&& r is Update
            &&& completes(plan, text::opt_text(list), r->Update_0)
        },
        _ => after == stage && r is Ignore,
    }
}

/// A check for updates.
#[derive(Debug)]
pub struct UpdateCheck {
    current: String,
    stage: CheckStage,
}

impl UpdateCheck {
    /// The version that runs.
    pub closed spec fn running(&self) -> Seq<char> {
        self.current@
    }

    /// Where the check has got to.
    pub closed spec fn at(&self) -> CheckStage {
        self.stage
    }

    /// The status that a failure is explained with exists.
    pub open spec fn valid(&self) -> bool {
        self.at() matches CheckStage::Explaining(code) ==> 100 <= code <= 999
    }

    /// Begins a check for updates with a request. A build that was not released asks
    /// nobody.
    pub fn begin(current: String) -> (r: Option<(Self, CheckRequest)>)
        ensures
            r is None <==> version::is_unreleased(current@),
            r matches Some(begun) ==> {
                &&& begun.0.valid()
                &&& begun.0.running() == current@
                &&& begun.0.at() is Asking
                &&& begun.1.url@ == "https://api.github.com/repos/"@ + REPO@ + "/releases/latest"@
                &&& begun.1.user_agent@ == user_agent_text(current@)
            },
    {
        match begin_check(current.as_str()) {
            None => None,
            Some(request) => Some((UpdateCheck { current, stage: CheckStage::Asking }, request)),
        }
    }

    /// Takes what came in, and says what is done next.
    pub fn step(&mut self, e: CheckEvent) -> (r: CheckStep)
        requires
            old(self).valid(),
            e matches CheckEvent::Status(code) ==> 100 <= code <= 999,
        ensures
            final(self).valid(),
            final(self).running() == old(self).running(),
            check_follows(old(self).running(), old(self).at(), e, final(self).at(), r),
    {
        let mut stage = CheckStage::Over;
        std::mem::swap(&mut stage, &mut self.stage);
        match (stage, e) {
            (CheckStage::Asking, CheckEvent::Status(code)) => match release_reply(code) {
                ReleaseReply::NoRelease => CheckStep::NoUpdate,
                ReleaseReply::Release => {
                    self.stage = CheckStage::Reading;
                    CheckStep::ReadRelease
                },
                ReleaseReply::Failed => {
                    self.stage = CheckStage::Explaining(code);
                    CheckStep::ReadBody
                },
            },
            (CheckStage::Explaining(code), CheckEvent::Body(body)) => CheckStep::Fail(
                release_failure(code, body.as_str()),
            ),
            (CheckStage::Reading, CheckEvent::Release(rel)) => match consider_release(
                rel,
                self.current.as_str(),
            ) {
                Err(why) => CheckStep::Fail(why),
                Ok(None) => CheckStep::NoUpdate,
                Ok(Some(plan)) => match plan.sums_url.clone() {
                    None => {
                        let ghost planned = plan;
                        let info = finish_check(plan, None);
                        assert(plans(rel, planned) && completes(planned, None, info));
                        CheckStep::Update(info)
                    },
                    Some(url) => {
                        self.stage = CheckStage::Summing(plan);
                        CheckStep::FetchSums(url)
                    },
                },
            },
            (CheckStage::Summing(plan), CheckEvent::Sums(list)) => CheckStep::Update(
                finish_check(plan, list),
            ),
            (stage, _) => {
                self.stage = stage;
                CheckStep::Ignore
            },
        }
    }
}

/// An update that is announced at once is newer than what runs.
pub proof fn law_announced_at_once_is_newer(
    current: Seq<char>,
    rel: GhRelease,
    after: CheckStage,
    r: CheckStep,
)
    requires
        check_follows(current, CheckStage::Reading, CheckEvent::Release(rel), after, r),
        r is Update,
    ensures
        version::newer(r->Update_0.version@, current),
        r->Update_0.sha256@.len() == 0,
{
    lemma_without_leading_once(rel.tag_name@, 'v');
}

/// An update that is announced once its checksum was looked for is newer than what
/// runs.
pub proof fn law_announced_is_newer(
    current: Seq<char>,
    rel: GhRelease,
    planned: CheckStage,
    asked: CheckStep,
    list: Option<String>,
    after: CheckStage,
    r: CheckStep,
)
    requires
        check_follows(current, CheckStage::Reading, CheckEvent::Release(rel), planned, asked),
        check_follows(current, planned, CheckEvent::Sums(list), after, r),
        asked is FetchSums,
    ensures
        r is Update,
        version::newer(r->Update_0.version@, current),
        Some(r->Update_0.asset_name@) == match installer_of(rel.assets@) {
            Some(a) => Some(a.name@),
            None => None,
        },
{
    lemma_without_leading_once(rel.tag_name@, 'v');
}

/// The message for an installer at `url` that was answered with the displayed
/// status `status`.
pub fn download_failure_of(url: &str, status: &str) -> (r: String)
    ensures
        r@ == "download "@ + url@ + ": "@ + status@,
{
    let mut out = "download ".to_owned();
    out.append(url);
    out.append(": ");
    out.append(status);
    out
}

/// Whether the installer at `url` was served: an error where the status `code`
/// does not report success.
pub fn check_download_status(url: &str, code: u16) -> (r: Result<(), String>)
    requires
        100 <= code <= 999,
    ensures
        r is Ok <==> is_success(code),
        r matches Err(e) ==> e@ == "download "@ + url@ + ": "@ + status_text_of(code),
{
    if success(code) {
        Ok(())
    } else {
        let status = status_text(code);
        Err(download_failure_of(url, status.as_str()))
    }
}

/// Whether a checked installer can be run: installers exist for Windows only.
pub fn check_platform(windows: bool) -> (r: Result<(), String>)
    ensures
        r is Ok <==> windows,
        r matches Err(e) ==> e@ == "auto-update is only supported on Windows"@,
{
    if windows {
        Ok(())
    } else {
        Err("auto-update is only supported on Windows".to_owned())
    }
}

/// What an installer is started with: `/S`, so that it installs without asking.
pub fn installer_arguments() -> (r: Vec<String>)
    ensures
        text::texts(r@) == seq!["/S"@],
{
    let mut out: Vec<String> = Vec::new();
    out.push("/S".to_owned());
    assert(text::texts(out@) =~= seq!["/S"@]);
    out
}

/// What is done with a download that arrived.
#[derive(Debug)]
pub enum DownloadVerdict {
    /// The file is not the installer that was announced: remove it, and fail.
    Discard(String),
    /// The file is right, but cannot be run here: keep it, and fail.
    Unsupported(String),
    /// Run the installer.
    Launch,
}

/// Decides what is done with the bytes of an installer, of which `want` is the
/// checksum.
pub fn judge_download(bytes: &[u8], want: &str, windows: bool) -> (r: DownloadVerdict)
    ensures
        r is Discard <==> !checksum::digest_accepted(checksum::sha256_of(bytes@), want@),
        r is Launch <==> checksum::digest_accepted(checksum::sha256_of(bytes@), want@) && windows,
        r matches DownloadVerdict::Discard(e) ==> e@ == checksum::mismatch_text(
            checksum::sha256_of(bytes@),
            want@,
        ),
        r matches DownloadVerdict::Unsupported(e) ==> e@
            == "auto-update is only supported on Windows"@,
{
    match checksum::check_download(bytes, want) {
        Err(e) => DownloadVerdict::Discard(e),
        Ok(()) => match check_platform(windows) {
            Err(e) => DownloadVerdict::Unsupported(e),
            Ok(()) => DownloadVerdict::Launch,
        },
    }
}

/// What happens to the guard of the installer.
pub enum GuardEvent {
    /// An installation asks to begin.
    Begin,
    /// The installation under way ends, well or not.
    Finish(bool),
}

/// Whether an installation is under way after the event `e`, where `installing`
/// says whether one was before it.
pub open spec fn guard_next(installing: bool, e: GuardEvent) -> bool {
    match e {
        GuardEvent::Begin => true,
        GuardEvent::Finish(ok) => ok && installing,
    }
}

/// The guard of the installer: at most one installation is under way.
#[derive(Debug)]
pub struct UpdateState {
    installing: bool,
}

impl UpdateState {
    /// Whether an installation is under way.
    pub closed spec fn is_installing(&self) -> bool {
        self.installing
    }

    /// A guard with no installation under way.
    pub fn new() -> (r: Self)
        ensures
            !r.is_installing(),
    {
        UpdateState { installing: false }
    }

    /// Asks to begin an installation. The answer is no, and nothing changes,
    /// while one is under way.
    pub fn begin(&mut self) -> (r: bool)
        ensures
            r == !old(self).is_installing(),
            final(self).is_installing() == guard_next(old(self).is_installing(), GuardEvent::Begin),
    {
        let free = !self.installing;
        self.installing = true;
        free
    }

    /// Reports how the installation ended. A failed one makes room for the next;
    /// after a successful one the program is about to be replaced, so the guard
    /// stays closed.
    pub fn finish(&mut self, ok: bool)
        ensures
            final(self).is_installing() == guard_next(
                old(self).is_installing(),
                GuardEvent::Finish(ok),
            ),
    {
        if !ok {
            self.installing = false;
        }
    }
}

/// Whether an installation is under way after the events `es`.
pub open spec fn installing_after(es: Seq<GuardEvent>) -> bool
    decreases es.len(),
{
    if es.len() == 0 {
        false
    } else {
        guard_next(installing_after(es.drop_last()), es.last())
    }
}

/// How many installations were begun by the events `es`, less those that failed.
pub open spec fn under_way(es: Seq<GuardEvent>) -> int
    decreases es.len(),
{
    if es.len() == 0 {
        0
    } else {
        let before = under_way(es.drop_last());
        let busy = installing_after(es.drop_last());
        match es.last() {
            GuardEvent::Begin => if busy { before } else { before + 1 },
            GuardEvent::Finish(ok) => if busy && !ok { before - 1 } else { before },
        }
    }
}

/// Whatever happens, at most one installation is under way, and the guard is
/// closed exactly while there is one.
pub proof fn law_one_installation_at_a_time(es: Seq<GuardEvent>)
    ensures
        under_way(es) == if installing_after(es) { 1int } else { 0int },
    decreases es.len(),
{
    if es.len() > 0 {
        law_one_installation_at_a_time(es.drop_last());
    }
}

/// Once a release is installed, it is no update any more.
pub proof fn law_installed_release_is_no_update(tag: Seq<char>)
    ensures
        !version::newer(tag, text::without_leading(tag, 'v')),
{
    lemma_without_leading_once(tag, 'v');
    version::law_not_newer_than_itself(tag, text::without_leading(tag, 'v'));
}

/// Nothing is left to take away from the front.
proof fn lemma_without_leading_once(s: Seq<char>, c: char)
    ensures
        text::without_leading(text::without_leading(s, c), c) == text::without_leading(s, c),
    decreases s.len(),
{
    if s.len() > 0 && s[0] == c {
        lemma_without_leading_once(s.skip(1), c);
    }
}

/// An installer is told by its name, in either case: it ends with `-installer.exe` and
/// tells of Windows before that.
pub proof fn law_installer_is_told_by_its_name(a: Seq<char>, b: Seq<char>, n: Seq<char>)
    ensures
        text::lowered(n) == text::lowered(a) + "windows"@ + text::lowered(b) + "-installer.exe"@
            ==> is_installer(n),
        is_installer(n) == is_installer(text::lowered(n)),
        is_installer(n) ==> text::has_end(text::lowered(n), "-installer.exe"@) && text::has_part(
            text::lowered(n),
            "windows"@,
        ),
{
    let l = text::lowered(n);
    assert(text::lowered(l) =~= l);
    let head = text::lowered(a);
    let mid = text::lowered(b);
    text::law_has_its_parts(head + "windows"@ + mid, "-installer.exe"@, Seq::empty());
    text::law_has_its_parts(head, "windows"@, mid + "-installer.exe"@);
    assert(head + "windows"@ + (mid + "-installer.exe"@) =~= head + "windows"@ + mid
        + "-installer.exe"@);
}

/// The list of checksums is the asset with the name `SHA256SUMS`, in either case.
pub proof fn law_checksum_list_is_told_by_its_name(n: Seq<char>)
    ensures
        is_checksum_list(n) <==> text::lowered(n) == "sha256sums"@,
{
    reveal_strlit("sha256sums");
    reveal_strlit("-installer.exe");
    assert("sha256sums"@.len() == 10 && "-installer.exe"@.len() == 14);
}

/// Of several installers the last one counts, and of several lists of checksums; where
/// there is one, one is found.
pub proof fn law_last_asset_counts(assets: Seq<GhAsset>)
    ensures
        installer_of(assets) matches Some(a) ==> exists|k: int|
            0 <= k < assets.len() && #[trigger] assets[k] == a && is_installer(a.name@)
                && forall|j: int| k < j < assets.len() ==> !is_installer((#[trigger] assets[j]).name@),
        installer_of(assets) is None ==> forall|j: int|
            0 <= j < assets.len() ==> !is_installer((#[trigger] assets[j]).name@),
        checksum_list_of(assets) matches Some(url) ==> exists|k: int|
            0 <= k < assets.len() && (#[trigger] assets[k]).browser_download_url@ == url
                && is_checksum_list(assets[k].name@) && forall|j: int|
                k < j < assets.len() ==> !is_checksum_list((#[trigger] assets[j]).name@),
        checksum_list_of(assets) is None ==> forall|j: int|
            0 <= j < assets.len() ==> !is_checksum_list((#[trigger] assets[j]).name@),
    decreases assets.len(),
{
    if assets.len() > 0 {
        let front = assets.drop_last();
        law_last_asset_counts(front);
        let n = assets.len() - 1;
        assert(assets[n] == assets.last());
        assert forall|j: int| 0 <= j < n implies #[trigger] assets[j] == front[j] by {}
        if !is_installer(assets.last().name@) {
            if let Some(a) = installer_of(front) {
                let k = choose|k: int|
                    0 <= k < front.len() && #[trigger] front[k] == a && is_installer(a.name@)
                        && forall|j: int|
                        k < j < front.len() ==> !is_installer((#[trigger] front[j]).name@);
                assert(assets[k] == a);
                assert forall|j: int| k < j < assets.len() implies !is_installer(
                    (#[trigger] assets[j]).name@,
                ) by {
                    if j < n {
                        assert(front[j] == assets[j]);
                    }
                }
            } else {
                assert forall|j: int| 0 <= j < assets.len() implies !is_installer(
                    (#[trigger] assets[j]).name@,
                ) by {
                    if j < n {
                        assert(front[j] == assets[j]);
                    }
                }
            }
        }
        if !is_checksum_list(assets.last().name@) {
            if let Some(url) = checksum_list_of(front) {
                let k = choose|k: int|
                    0 <= k < front.len() && (#[trigger] front[k]).browser_download_url@ == url
                        && is_checksum_list(front[k].name@) && forall|j: int|
                        k < j < front.len() ==> !is_checksum_list((#[trigger] front[j]).name@);
                assert(assets[k] == front[k]);
                assert forall|j: int| k < j < assets.len() implies !is_checksum_list(
                    (#[trigger] assets[j]).name@,
                ) by {
                    if j < n {
                        assert(front[j] == assets[j]);
                    }
                }
            } else {
                assert forall|j: int| 0 <= j < assets.len() implies !is_checksum_list(
                    (#[trigger] assets[j]).name@,
                ) by {
                    if j < n {
                        assert(front[j] == assets[j]);
                    }
                }
            }
        }
    }
}

/// The status of the release list decides: only 404 means that there is no release, only
/// 200 to 299 that there is one to read, and every other one is a failure to be explained.
pub proof fn law_status_decides(current: Seq<char>, code: u16, after: CheckStage, r: CheckStep)
    requires
        check_follows(current, CheckStage::Asking, CheckEvent::Status(code), after, r),
    ensures
        r is NoUpdate <==> code == 404,
        r is ReadRelease <==> 200 <= code < 300,
        r is ReadBody <==> code != 404 && !(200 <= code < 300),
        r is ReadBody ==> after == CheckStage::Explaining(code),
        r is NoUpdate ==> after is Over,
        r is ReadRelease ==> after is Reading,
{
}

/// A failure is explained with the status and with what the release list said, whole but
/// for the white space around it.
pub proof fn law_failure_is_explained(
    current: Seq<char>,
    code: u16,
    body: String,
    after: CheckStage,
    r: CheckStep,
)
    requires
        check_follows(current, CheckStage::Explaining(code), CheckEvent::Body(body), after, r),
    ensures
        r is Fail,
        text::has_end(r->Fail_0@, text::trimmed(body@)),
        text::has_part(r->Fail_0@, status_text_of(code)),
{
    let said = text::trimmed(body@);
    let status = status_text_of(code);
    text::law_has_its_parts("github releases: "@ + status + ": "@, said, Seq::empty());
    text::law_has_its_parts("github releases: "@, status, ": "@ + said);
    assert("github releases: "@ + status + (": "@ + said) =~= r->Fail_0@);
}

/// A release is passed over exactly where it is not newer, and is an error exactly where
/// it is newer and has no installer.
pub proof fn law_release_is_judged(
    current: Seq<char>,
    rel: GhRelease,
    after: CheckStage,
    r: CheckStep,
)
    requires
        check_follows(current, CheckStage::Reading, CheckEvent::Release(rel), after, r),
    ensures
        r is NoUpdate <==> !version::newer(rel.tag_name@, current),
        r is Fail <==> version::newer(rel.tag_name@, current) && forall|j: int|
            0 <= j < rel.assets@.len() ==> !is_installer((#[trigger] rel.assets@[j]).name@),
        r is FetchSums || r is Update || r is NoUpdate || r is Fail,
        r is Fail ==> text::has_part(r->Fail_0@, rel.tag_name@),
{
    law_last_asset_counts(rel.assets@);
    text::law_has_its_parts("release "@, rel.tag_name@, " has no windows installer asset"@);
}

/// Whether `info` announces the release `rel`: the version of its tag, its notes and its
/// date, and one of its installers, the last one.
pub open spec fn announces(info: UpdateInfo, rel: GhRelease) -> bool {
    &&& info.notes == rel.body
    &&& info.published_at == rel.published_at
    &&& exists|k: int|
        0 <= k < rel.assets@.len() && info.asset_name == (#[trigger] rel.assets@[k]).name
            && info.asset_url == rel.assets@[k].browser_download_url && is_installer(
            info.asset_name@,
        ) && forall|j: int|
            k < j < rel.assets@.len() ==> !is_installer((#[trigger] rel.assets@[j]).name@)
}

/// What is announced is what was released, whole: with a list of checksums or without.
/// The version is the tag without the `v` before it.
pub proof fn law_announced_is_what_was_released(
    current: Seq<char>,
    rel: GhRelease,
    planned: CheckStage,
    first: CheckStep,
    list: Option<String>,
    after: CheckStage,
    then: CheckStep,
    vs: Seq<char>,
    version: Seq<char>,
)
    requires
        check_follows(current, CheckStage::Reading, CheckEvent::Release(rel), planned, first),
        check_follows(current, planned, CheckEvent::Sums(list), after, then),
        rel.tag_name@ == vs + version,
        forall|i: int| 0 <= i < vs.len() ==> #[trigger] vs[i] == 'v',
        version.len() > 0 ==> version[0] != 'v',
    ensures
        first is Update ==> announces(first->Update_0, rel) && first->Update_0.version@ == version,
        first is FetchSums ==> then is Update && announces(then->Update_0, rel)
            && then->Update_0.version@ == version,
        first is FetchSums && list is None ==> then->Update_0.sha256@.len() == 0,
{
    law_last_asset_counts(rel.assets@);
    text::law_without_leading_is_the_rest(vs, version, 'v');
    if first is Update {
        let info = first->Update_0;
        let plan = choose|plan: UpdatePlan| #[trigger]
            plans(rel, plan) && completes(plan, None, info);
        lemma_announces(rel, plan, info);
    }
    if first is FetchSums {
        lemma_announces(rel, planned->Summing_0, then->Update_0);
    }
}

/// A completed plan announces its release.
proof fn lemma_announces(rel: GhRelease, plan: UpdatePlan, info: UpdateInfo)
    requires
        plans(rel, plan),
        info.notes == plan.notes,
        info.asset_url == plan.installer.browser_download_url,
        info.asset_name == plan.installer.name,
        info.published_at == plan.published_at,
    ensures
        announces(info, rel),
{
    law_last_asset_counts(rel.assets@);
    let a = plan.installer;
    let k = choose|k: int|
        0 <= k < rel.assets@.len() && #[trigger] rel.assets@[k] == a && is_installer(a.name@)
            && forall|j: int|
            k < j < rel.assets@.len() ==> !is_installer((#[trigger] rel.assets@[j]).name@);
    assert(info.asset_name == rel.assets@[k].name);
}

/// Who asks to install closes the guard; only a failure opens it again.
pub proof fn law_only_failure_makes_room(installing: bool)
    ensures
        guard_next(installing, GuardEvent::Begin),
        !guard_next(installing, GuardEvent::Finish(false)),
        guard_next(installing, GuardEvent::Finish(true)) == installing,
{
}

/// A program tells its version, whole, in its requests.
pub proof fn law_version_is_told(current: Seq<char>)
    ensures
        text::has_part(user_agent_text(current), current),
{
    text::law_has_its_parts("hato/"@, current, " (+https://github.com/"@ + REPO@ + ")"@);
    assert("hato/"@ + current + (" (+https://github.com/"@ + REPO@ + ")"@) =~= user_agent_text(
        current,
    ));
}

/// What was not asked for changes nothing: during a check only a status is taken while
/// the release list is asked, only a text while a failure is explained, only a release
/// while one is read, only a list while checksums are fetched, and nothing after that.
pub proof fn law_other_replies_change_nothing(
    current: Seq<char>,
    stage: CheckStage,
    e: CheckEvent,
    after: CheckStage,
    r: CheckStep,
)
    requires
        check_follows(current, stage, e, after, r),
        stage is Asking ==> !(e is Status),
        stage is Explaining ==> !(e is Body),
        stage is Reading ==> !(e is Release),
        stage is Summing ==> !(e is Sums),
    ensures
        after == stage,
        r is Ignore,
{
}

/// The list of checksums is asked for exactly where the release is to be installed and
/// has one, at its address; where there are several, at the address of the last.
pub proof fn law_checksums_are_asked_for(
    current: Seq<char>,
    rel: GhRelease,
    after: CheckStage,
    r: CheckStep,
)
    requires
        check_follows(current, CheckStage::Reading, CheckEvent::Release(rel), after, r),
        version::newer(rel.tag_name@, current),
        exists|j: int| 0 <= j < rel.assets@.len() && is_installer((#[trigger] rel.assets@[j]).name@),
    ensures
        r is FetchSums <==> exists|j: int|
            0 <= j < rel.assets@.len() && is_checksum_list((#[trigger] rel.assets@[j]).name@),
        r is FetchSums ==> exists|k: int|
            0 <= k < rel.assets@.len() && (#[trigger] rel.assets@[k]).browser_download_url@
                == r->FetchSums_0@ && is_checksum_list(rel.assets@[k].name@) && forall|j: int|
                k < j < rel.assets@.len() ==> !is_checksum_list((#[trigger] rel.assets@[j]).name@),
        r is FetchSums <==> after is Summing,
        r is Update <==> !(r is FetchSums),
{
    law_last_asset_counts(rel.assets@);
}

/// The checksum that an update is announced with is the one that was written for its
/// installer, whole: where a line of the list holds the digest `d` in hexadecimal and the
/// name of the installer, and no line before it is for that file, then `d` is what the
/// download is held to.
pub proof fn law_announced_checksum_is_the_listed(
    current: Seq<char>,
    plan: UpdatePlan,
    list: String,
    after: CheckStage,
    r: CheckStep,
    ls: Seq<Seq<char>>,
    k: int,
    d: Seq<u8>,
)
    requires
        check_follows(
            current,
            CheckStage::Summing(plan),
            CheckEvent::Sums(Some(list)),
            after,
            r,
        ),
        list@ == text::joined(ls.push(Seq::empty()), '\n'),
        text::bare_lines(ls),
        0 <= k < ls.len(),
        d.len() > 0,
        checksum::is_file_name(plan.installer.name@),
        ls[k] == crate::numbers::hex_text(d) + "  "@ + plan.installer.name@,
        forall|j: int|
            0 <= j < k ==> checksum::is_for_another(#[trigger] ls[j], plan.installer.name@),
    ensures
        r is Update,
        r->Update_0.sha256@ == crate::numbers::hex_text(d),
        checksum::digest_accepted(d, r->Update_0.sha256@),
{
    let name = plan.installer.name@;
    let info = r->Update_0;
    let sum = choose|sum: Option<Seq<char>>| #[trigger]
        checksum_is(info.sha256@, sum) && checksum::gives(list@, name, sum);
    checksum::law_listed_checksum_is_found(ls, k, d, name, sum);
}

} // verus!
