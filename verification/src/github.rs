//! What the commit history of a project is fetched from: the repository
//! name, the lookback date, the GitHub API paths, and the age of the latest
//! commit.

use vstd::prelude::*;

use crate::parser::Project;
use crate::text::{chars_of, decimal, push_decimal, push_str, string_of_range};

verus! {

/// The owner of every project repository.
pub const OWNER: &'static str = "moleraat";

/// How many days of activity the history covers.
pub const LOOKBACK_DAYS: i64 = 7;

/// How many commits an inactive project's history takes instead.
pub const FALLBACK_COMMIT_COUNT: u32 = 10;

/// The branch label of commits taken for an inactive project.
pub const FALLBACK_BRANCH: &'static str = "default";

/// Seconds in a day.
pub const SECONDS_PER_DAY: i64 = 86_400;

/// Why a project's history could not be fetched.
#[derive(Debug, Clone, Copy, PartialEq, Eq, Structural)]
pub enum HistoryError {
    /// The project has no repository link.
    NoRepoLink,
    /// The lookback date lies outside the calendar.
    LookbackDate,
}

/// The text of a history error.
pub open spec fn history_error_text(e: HistoryError) -> Seq<char> {
    match e {
        HistoryError::NoRepoLink => "No repo link"@,
        HistoryError::LookbackDate => "Failed to compute lookback date"@,
    }
}

impl HistoryError {
    /// The text of the error, as the user reads it.
    pub fn message(&self) -> (r: &'static str)
        ensures
            r@ == history_error_text(*self),
    {
        match self {
            HistoryError::NoRepoLink => "No repo link",
            HistoryError::LookbackDate => "Failed to compute lookback date",
        }
    }
}

/// The text of `link` after its last `/` (all of it where it has none).
pub open spec fn last_segment(link: Seq<char>) -> Seq<char> {
    if link.contains('/') {
        let k = choose|k: int| 0 <= k < link.len() && link[k] == '/' && forall|j: int| k < j < link.len() ==> link[j] != '/';
        link.subrange(k + 1, link.len() as int)
    } else {
        link
    }
}

/// The repository name is what follows the last `/` of the link.
pub proof fn lemma_last_segment_of_path(prefix: Seq<char>, name: Seq<char>)
    requires
        !name.contains('/'),
    ensures
        last_segment(prefix + seq!['/'] + name) == name,
{
    let link = prefix + seq!['/'] + name;
    let k = prefix.len() as int;
    assert(link[k] == '/');
    assert forall|j: int| k < j < link.len() implies link[j] != '/' by {
        assert(link[j] == name[j - k - 1]);
    }
    assert(link.contains('/'));
    let c = choose|c: int| 0 <= c < link.len() && link[c] == '/' && forall|j: int| c < j < link.len() ==> link[j] != '/';
    assert(c == k) by {
        if c < k {
            assert(link[k] != '/');
        } else if c > k {
            assert(link[c] == name[c - k - 1]);
            assert(name.contains('/'));
        }
    }
    assert(link.subrange(k + 1, link.len() as int) =~= name);
}

/// The last `/`-separated segment of a link: the repository name.
pub fn repo_from_link(link: &str) -> (r: String)
    ensures
        r@ == last_segment(link@),
        !r@.contains('/'),
{
    let v = chars_of(link);
    let n = v.len();
    let mut i = n;
    while i > 0 && v[i - 1] != '/'
        invariant
            i <= n == v@.len(),
            forall|j: int| i <= j < n ==> v@[j] != '/',
        decreases i,
    {
        i = i - 1;
    }
    if i == 0 {
        assert(!link@.contains('/'));
        assert(v@.subrange(0, n as int) =~= link@);
    } else {
        proof {
            let k = i - 1;
            assert(link@.contains('/')) by {
                assert(link@[k as int] == '/');
            }
            let c = choose|c: int| 0 <= c < link@.len() && link@[c] == '/' && forall|j: int| c < j < link@.len() ==> link@[j] != '/';
            assert(c == k) by {
                if c < k {
                    assert(link@[k as int] != '/');
                } else if c > k {
                    assert(link@[c] != '/');
                }
            }
        }
    }
    let r = string_of_range(&v, i, n);
    assert(!r@.contains('/')) by {
        if r@.contains('/') {
            let j = choose|j: int| 0 <= j < r@.len() && r@[j] == '/';
            assert(v@[i + j] == '/');
        }
    }
    r
}

/// The repository that a project's history comes from.
pub fn repo_name(project: &Project) -> (r: Result<String, HistoryError>)
    ensures
        project.spec_info().spec_repo_link() is None ==> r == Err::<String, HistoryError>(HistoryError::NoRepoLink),
        project.spec_info().spec_repo_link() matches Some(l) ==> (r matches Ok(name) && name@ == last_segment(l)),
{
    match project.repo_link() {
        None => Err(HistoryError::NoRepoLink),
        Some(link) => Ok(repo_from_link(link)),
    }
}

/// The UTC calendar date, written `%Y-%m-%d`, of a UNIX time in seconds;
/// absent where the time lies outside chrono's calendar.
pub uninterp spec fn utc_date_of(secs: i64) -> Option<Seq<char>>;

/// `chrono::DateTime::<Utc>::from_timestamp(secs, 0)` formatted with
/// `"%Y-%m-%d"`: the date of `secs`, or `None` where `from_timestamp` finds it
/// out of range. The result is named, not stated: the calendar is chrono's.
#[verifier::external_body]
pub(crate) fn utc_date(secs: i64) -> (r: Option<String>)
    ensures
        r matches Some(t) ==> utc_date_of(secs) == Some(t@),
        r is None ==> utc_date_of(secs) is None,
{
    match chrono::DateTime::from_timestamp(secs, 0) {
        Some(d) => Some(d.format("%Y-%m-%d").to_string()),
        None => None,
    }
}

/// The first day of the lookback window that ends at `now_secs`.
pub open spec fn lookback_secs(now_secs: i64) -> int {
    now_secs - LOOKBACK_DAYS * SECONDS_PER_DAY
}

/// The date `LOOKBACK_DAYS` days before `now_secs`.
pub fn lookback_since(now_secs: i64) -> (r: Result<String, HistoryError>)
    ensures
        r matches Ok(t) ==> i64::MIN <= lookback_secs(now_secs) && utc_date_of(lookback_secs(now_secs) as i64) == Some(t@),
        r matches Err(e) ==> e == HistoryError::LookbackDate && (lookback_secs(now_secs) < i64::MIN
            || utc_date_of(lookback_secs(now_secs) as i64) is None),
{
    let since = match now_secs.checked_sub(LOOKBACK_DAYS * SECONDS_PER_DAY) {
        Some(s) => s,
        None => {
            return Err(HistoryError::LookbackDate);
        },
    };
    match utc_date(since) {
        Some(t) => Ok(t),
        None => Err(HistoryError::LookbackDate),
    }
}

/// The API path of a repository's branches.
pub open spec fn branches_path_text(repo: Seq<char>) -> Seq<char> {
    "repos/"@ + OWNER@ + "/"@ + repo + "/branches"@
}

/// The API path of a repository's branches.
pub fn branches_path(repo: &str) -> (r: String)
    ensures
        r@ == branches_path_text(repo@),
{
    let mut r = String::new();
    push_str(&mut r, "repos/");
    push_str(&mut r, OWNER);
    push_str(&mut r, "/");
    push_str(&mut r, repo);
    push_str(&mut r, "/branches");
    r
}

/// The API path of the commits of a branch since a date.
pub open spec fn branch_commits_path_text(repo: Seq<char>, branch: Seq<char>, since: Seq<char>) -> Seq<char> {
    "repos/"@ + OWNER@ + "/"@ + repo + "/commits?sha="@ + branch + "&since="@ + since
}

/// The API path of the commits of a branch since a date.
pub fn branch_commits_path(repo: &str, branch: &str, since: &str) -> (r: String)
    ensures
        r@ == branch_commits_path_text(repo@, branch@, since@),
{
    let mut r = String::new();
    push_str(&mut r, "repos/");
    push_str(&mut r, OWNER);
    push_str(&mut r, "/");
    push_str(&mut r, repo);
    push_str(&mut r, "/commits?sha=");
    push_str(&mut r, branch);
    push_str(&mut r, "&since=");
    push_str(&mut r, since);
    r
}

/// The API path of the latest commits of an inactive repository.
pub open spec fn fallback_commits_path_text(repo: Seq<char>) -> Seq<char> {
    "repos/"@ + OWNER@ + "/"@ + repo + "/commits?per_page="@ + decimal(FALLBACK_COMMIT_COUNT as nat)
}

/// The API path of the latest commits of an inactive repository.
pub fn fallback_commits_path(repo: &str) -> (r: String)
    ensures
        r@ == fallback_commits_path_text(repo@),
{
    let mut r = String::new();
    push_str(&mut r, "repos/");
    push_str(&mut r, OWNER);
    push_str(&mut r, "/");
    push_str(&mut r, repo);
    push_str(&mut r, "/commits?per_page=");
    push_decimal(&mut r, FALLBACK_COMMIT_COUNT as u64);
    r
}

/// The API path of one commit.
pub open spec fn commit_path_text(repo: Seq<char>, sha: Seq<char>) -> Seq<char> {
    "repos/"@ + OWNER@ + "/"@ + repo + "/commits/"@ + sha
}

/// The API path of one commit.
pub fn commit_path(repo: &str, sha: &str) -> (r: String)
    ensures
        r@ == commit_path_text(repo@, sha@),
{
    let mut r = String::new();
    push_str(&mut r, "repos/");
    push_str(&mut r, OWNER);
    push_str(&mut r, "/");
    push_str(&mut r, repo);
    push_str(&mut r, "/commits/");
    push_str(&mut r, sha);
    r
}

/// Whether the history fetched for the lookback window is empty, so that the
/// latest commits are taken instead.
pub fn needs_fallback(commits_in_window: usize) -> (r: bool)
    ensures
        r == (commits_in_window == 0),
{
    commits_in_window == 0
}

/// The largest of the times.
pub open spec fn latest(times: Seq<i64>) -> int
    recommends
        times.len() > 0,
    decreases times.len(),
{
    if times.len() <= 1 {
        times[0] as int
    } else {
        let rest = latest(times.drop_last());
        if times.last() > rest {
            times.last() as int
        } else {
            rest
        }
    }
}

/// `a / b`, rounded toward zero.
pub open spec fn div_toward_zero(a: int, b: int) -> int {
    if a >= 0 {
        a / b
    } else {
        -((-a) / b)
    }
}

/// The whole days from the latest commit time to `now_secs` (negative where
/// the latest commit lies in the future), or `None` without commits.
pub fn days_since_last_commit(commit_secs: &Vec<i64>, now_secs: i64) -> (r: Option<i64>)
    ensures
        commit_secs.len() == 0 ==> r is None,
        commit_secs.len() > 0 ==> r == Some(div_toward_zero(now_secs - latest(commit_secs@), SECONDS_PER_DAY as int) as i64),
{
    let n = commit_secs.len();
    if n == 0 {
        return None;
    }
    let mut best: i64 = commit_secs[0];
    let mut i: usize = 1;
    assert(commit_secs@.take(1).len() == 1);
    while i < n
        invariant
            1 <= i <= n == commit_secs@.len(),
            best == latest(commit_secs@.take(i as int)),
        decreases n - i,
    {
        assert(commit_secs@.take(i + 1).drop_last() =~= commit_secs@.take(i as int));
        if commit_secs[i] > best {
            best = commit_secs[i];
        }
        i = i + 1;
    }
    assert(commit_secs@.take(n as int) =~= commit_secs@);
    let diff: i128 = now_secs as i128 - best as i128;
    let days: i128 = if diff >= 0 {
        diff / 86_400
    } else {
        -((-diff) / 86_400)
    };
    assert(-0x8000_0000_0000_0000 <= days <= 0x7fff_ffff_ffff_ffff) by (nonlinear_arith)
        requires
            -0x1_0000_0000_0000_0000 <= diff <= 0x1_0000_0000_0000_0000,
            days == (if diff >= 0 { diff / 86_400 } else { -((-diff) / 86_400) }),
    ;
    Some(days as i64)
}

} // verus!
