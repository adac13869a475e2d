//! Repositories, users and emails as the code hosts (GitHub, GitLab,
//! Bitbucket) describe them, and the requests sent to them.

use vstd::prelude::*;

use crate::git::{
    credentials_view, generate_credentials_from_clone_url, regex_captures, spec_credentials,
    GitRepo, RepoCredentials, PATH_FROM_URL_PATTERN,
};
use crate::text::{contains_str, has_substring};

verus! {

/// The API host of GitHub.
pub const GITHUB_COM_DOMAIN: &'static str = "api.github.com";

/// The host of Bitbucket.
pub const BITBUCKET_ORG_DOMAIN: &'static str = "bitbucket.org";

/// A GitHub user.
pub struct GithubUser {
    pub login: String,
    pub node_id: String,
}

/// An email address of a GitHub user.
pub struct GithubEmail {
    pub email: String,
    pub verified: bool,
}

/// A GitHub repository; `updated_at` in UNIX seconds.
pub struct GithubRepo {
    pub full_name: String,
    pub description: Option<String>,
    pub private: bool,
    pub html_url: String,
    pub updated_at: i64,
    pub ssh_url: String,
    pub size: i32,
    pub stargazers_count: i32,
}

impl GitRepo for GithubRepo {
    /// The credentials read from the SSH clone URL.
    fn get_repo_credentials(&self) -> (res: Option<RepoCredentials>)
        ensures
            match res {
                Some(c) => spec_credentials(regex_captures(PATH_FROM_URL_PATTERN@, self.ssh_url@))
                    == Some(credentials_view(c)),
                None => spec_credentials(regex_captures(PATH_FROM_URL_PATTERN@, self.ssh_url@)) is None,
            },
    {
        generate_credentials_from_clone_url(&self.ssh_url)
    }
}

/// A GitLab user.
pub struct GitlabUser {
    pub id: i64,
    pub username: String,
}

/// An email address of a GitLab user.
pub struct GitlabEmail {
    pub email: String,
}

/// The statistics of a GitLab project.
pub struct GitlabStatistics {
    pub commit_count: i32,
    pub repository_size: i64,
}

/// A GitLab project; `last_activity_at` in UNIX seconds.
pub struct GitlabRepo {
    pub name_with_namespace: String,
    pub description: Option<String>,
    pub web_url: String,
    pub ssh_url_to_repo: String,
    pub last_activity_at: i64,
    pub star_count: i32,
    pub visibility: String,
    pub statistics: GitlabStatistics,
}

impl GitRepo for GitlabRepo {
    /// The credentials read from the SSH clone URL.
    fn get_repo_credentials(&self) -> (res: Option<RepoCredentials>)
        ensures
            match res {
                Some(c) => spec_credentials(regex_captures(PATH_FROM_URL_PATTERN@, self.ssh_url_to_repo@))
                    == Some(credentials_view(c)),
                None => spec_credentials(regex_captures(PATH_FROM_URL_PATTERN@, self.ssh_url_to_repo@)) is None,
            },
    {
        generate_credentials_from_clone_url(&self.ssh_url_to_repo)
    }
}

/// Whether a repository is kept for the optional name searched for: every
/// repository where there is none, else those whose full name contains it.
pub open spec fn keeps_repo(full_name: Seq<char>, name: Option<Seq<char>>) -> bool {
    match name {
        None => true,
        Some(n) => has_substring(full_name, n),
    }
}

/// The repositories kept for a name search, in order.
pub open spec fn repos_named(repos: Seq<GithubRepo>, name: Option<Seq<char>>) -> Seq<GithubRepo>
    decreases repos.len(),
{
    if repos.len() == 0 {
        Seq::empty()
    } else if keeps_repo(repos.last().full_name@, name) {
        repos_named(repos.drop_last(), name).push(repos.last())
    } else {
        repos_named(repos.drop_last(), name)
    }
}

/// The text of an optional name.
pub open spec fn name_view(name: Option<&str>) -> Option<Seq<char>> {
    match name {
        Some(n) => Some(n@),
        None => None,
    }
}

/// The repositories whose full name contains the name searched for, in
/// order; all of them where no name is given.
pub fn filter_repos_by_name(repos: Vec<GithubRepo>, repo_name: Option<&str>) -> (res: Vec<GithubRepo>)
    ensures
        res@ == repos_named(repos@, name_view(repo_name)),
{
    let mut rest = repos;
    let ghost all = rest@;
    let mut taken: usize = 0;
    let n = rest.len();
    let mut kept: Vec<GithubRepo> = Vec::new();
    let mut reversed: Vec<GithubRepo> = Vec::new();
    while rest.len() > 0
        invariant
            rest@.len() + reversed@.len() == all.len(),
            all.len() == n,
            forall|k: int| 0 <= k < rest@.len() ==> #[trigger] rest@[k] == all[k],
            forall|k: int|
                0 <= k < reversed@.len() ==> #[trigger] reversed@[k] == all[all.len() - 1 - k],
        decreases rest@.len(),
    {
        let r = rest.pop().unwrap();
        reversed.push(r);
    }
    assert(all.take(0) =~= Seq::<GithubRepo>::empty());
    while reversed.len() > 0
        invariant
            reversed@.len() + taken == all.len(),
            all.len() == n,
            forall|k: int|
                0 <= k < reversed@.len() ==> #[trigger] reversed@[k] == all[all.len() - 1 - k],
            kept@ == repos_named(all.take(taken as int), name_view(repo_name)),
        decreases reversed@.len(),
    {
        let r = reversed.pop().unwrap();
        proof {
            assert(r == all[taken as int]);
            assert(all.take(taken + 1).drop_last() =~= all.take(taken as int));
        }
        let keep = match repo_name {
            None => true,
            Some(name) => contains_str(r.full_name.as_str(), name),
        };
        if keep {
            kept.push(r);
        }
        taken = taken + 1;
    }
    proof {
        assert(all.take(taken as int) =~= all);
    }
    kept
}

/// The URL of a GitHub API endpoint on the given host.
pub fn github_url(domain: &str, endpoint: &str) -> (res: String)
    ensures
        res@ == "https://"@ + domain@ + endpoint@,
{
    String::from_str("https://").concat(domain).concat(endpoint)
}

/// The URL of a Bitbucket API endpoint on the given host.
pub fn bitbucket_url(domain: &str, endpoint: &str) -> (res: String)
    ensures
        res@ == "https://"@ + domain@ + "/api/2.0"@ + endpoint@,
{
    String::from_str("https://").concat(domain).concat("/api/2.0").concat(endpoint)
}

/// The Bitbucket endpoint listing the repositories a user is a member of,
/// narrowed to names containing `repo_name` where one is given.
pub fn bitbucket_repos_endpoint(repo_name: Option<&str>) -> (res: String)
    ensures
        res@ == "/repositories?role=member"@ + match repo_name {
            Some(n) => "&q=name~"@ + n@,
            None => Seq::<char>::empty(),
        },
{
    let base = String::from_str("/repositories?role=member");
    match repo_name {
        Some(n) => {
            let res = base.concat("&q=name~").concat(n);
            assert(res@ =~= "/repositories?role=member"@ + ("&q=name~"@ + n@));
            res
        },
        None => {
            assert(base@ =~= "/repositories?role=member"@ + Seq::<char>::empty());
            base
        },
    }
}

/// The value of the `Authorization` header of a GitHub request.
pub fn github_authorization(token: &str) -> (res: String)
    ensures
        res@ == "token "@ + token@,
{
    String::from_str("token ").concat(token)
}

/// The value of the `Authorization` header of a GitLab request.
pub fn gitlab_authorization(token: &str) -> (res: String)
    ensures
        res@ == "Bearer "@ + token@,
{
    String::from_str("Bearer ").concat(token)
}

} // verus!
