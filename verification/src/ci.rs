//! Best-effort detection of git ref and CI job URL from CI environment
//! variables.

use vstd::prelude::*;

use crate::model::opt_string_view;

verus! {

/// Detected CI context, if any.
pub struct CiInfo {
    pub git_ref: Option<String>,
    pub job_url: Option<String>,
}

/// The job URL of a GitHub Actions run: `{server}/{repo}/actions/runs/{run_id}`
/// when all three are known.
pub open spec fn github_job_url(
    server: Option<Seq<char>>,
    repo: Option<Seq<char>>,
    run_id: Option<Seq<char>>,
) -> Option<Seq<char>> {
    match (server, repo, run_id) {
        (Some(s), Some(r), Some(i)) => Some(s + "/"@ + r + "/actions/runs/"@ + i),
        _ => None,
    }
}

fn github_url(server: Option<String>, repo: Option<String>, run_id: Option<String>) -> (r: Option<String>)
    ensures
        opt_string_view(r) == github_job_url(opt_string_view(server), opt_string_view(repo), opt_string_view(run_id)),
{
    match (server, repo, run_id) {
        (Some(s), Some(r), Some(i)) => {
            let mut url = s;
            url.append("/");
            url.append(r.as_str());
            url.append("/actions/runs/");
            url.append(i.as_str());
            Some(url)
        },
        _ => None,
    }
}

/// Detects CI info from `env`, a lookup function (injected for
/// testability). GitLab CI (`CI_COMMIT_SHA`, `CI_JOB_URL`) is preferred over
/// GitHub Actions (`GITHUB_SHA`, with the job URL built from
/// `GITHUB_SERVER_URL`, `GITHUB_REPOSITORY` and `GITHUB_RUN_ID`); the
/// contract speaks of the values that `env` gave for each name it was asked.
pub fn detect<F: Fn(&str) -> Option<String>>(env: &F) -> (info: CiInfo)
    requires
        forall|k: &str| call_requires(*env, (k,)),
    ensures
        exists|c: Option<String>| #[trigger] call_ensures(*env, ("CI_COMMIT_SHA",), c) && match c {
            Some(sha) => info.git_ref == Some(sha) && exists|j: Option<String>|
                #[trigger] call_ensures(*env, ("CI_JOB_URL",), j) && info.job_url == j,
            None => exists|g: Option<String>| #[trigger] call_ensures(*env, ("GITHUB_SHA",), g) && match g {
                Some(sha) => info.git_ref == Some(sha) && exists|s: Option<String>, rp: Option<String>, id: Option<String>|
                    #![trigger call_ensures(*env, ("GITHUB_SERVER_URL",), s), call_ensures(*env, ("GITHUB_REPOSITORY",), rp), call_ensures(*env, ("GITHUB_RUN_ID",), id)]
                    call_ensures(*env, ("GITHUB_SERVER_URL",), s)
                    && call_ensures(*env, ("GITHUB_REPOSITORY",), rp)
                    && call_ensures(*env, ("GITHUB_RUN_ID",), id)
                    && opt_string_view(info.job_url) == github_job_url(opt_string_view(s), opt_string_view(rp), opt_string_view(id)),
                None => info.git_ref is None && info.job_url is None,
            },
        },
{
    if let Some(git_ref) = env("CI_COMMIT_SHA") {
        let job_url = env("CI_JOB_URL");
        return CiInfo { git_ref: Some(git_ref), job_url };
    }
    if let Some(git_ref) = env("GITHUB_SHA") {
        let server = env("GITHUB_SERVER_URL");
        let repo = env("GITHUB_REPOSITORY");
        let run_id = env("GITHUB_RUN_ID");
        let job_url = github_url(server, repo, run_id);
        return CiInfo { git_ref: Some(git_ref), job_url };
    }
    CiInfo { git_ref: None, job_url: None }
}

/// The context to store with a run: a git ref or job URL given explicitly
/// wins over the detected one.
pub fn with_overrides(git_ref: Option<String>, ci_job_url: Option<String>, detected: CiInfo) -> (r: CiInfo)
    ensures
        r.git_ref == (if git_ref is Some { git_ref } else { detected.git_ref }),
        r.job_url == (if ci_job_url is Some { ci_job_url } else { detected.job_url }),
{
    let git_ref = match git_ref {
        Some(g) => Some(g),
        None => detected.git_ref,
    };
    let job_url = match ci_job_url {
        Some(u) => Some(u),
        None => detected.job_url,
    };
    CiInfo { git_ref, job_url }
}

} // verus!
