//! Reading provider, owner and repository name from a clone URL.

use vstd::prelude::*;

verus! {

/// What `regex::Regex::new(pattern)` followed by `Regex::captures(haystack)`
/// finds: `None` where the pattern does not compile or does not match;
/// else the text of each capture group (group 0 is the whole match),
/// `None` for a group that did not take part in the match.
pub uninterp spec fn regex_captures(pattern: Seq<char>, haystack: Seq<char>) -> Option<
    Seq<Option<Seq<char>>>,
>;

/// The texts of a list of optional strings.
pub open spec fn opt_views(v: Seq<Option<String>>) -> Seq<Option<Seq<char>>> {
    v.map_values(|o: Option<String>| match o {
        Some(s) => Some(s@),
        None => None,
    })
}

/// Wraps `regex::Regex::new` and `Regex::captures`, handing each capture
/// group out as an owned string. The leftmost-first matching of the
/// `regex` crate is not restated; the result is named.
#[verifier::external_body]
pub(crate) fn regex_captures_of(pattern: &str, haystack: &str) -> (res: Option<Vec<Option<String>>>)
    ensures
        res is Some <==> regex_captures(pattern@, haystack@) is Some,
        res matches Some(v) ==> regex_captures(pattern@, haystack@) == Some(opt_views(v@)),
{
    let re = regex::Regex::new(pattern).ok()?;
    let caps = re.captures(haystack)?;
    Some(caps.iter().map(|m| m.map(|m| m.as_str().to_string())).collect())
}

/// The pattern a clone URL is read with: the protocol (`git@` or
/// `https://`), the host, the owner path and the repository name before
/// `.git`.
pub const PATH_FROM_URL_PATTERN: &'static str =
    r#"(git@|https://)([a-zA-Z0-9.]+)[:/]([a-zA-Z0-9-_/.]+)/([a-zA-Z0-9-._]+)\.git"#;

/// Where a repository is hosted and under which owner and name.
pub struct RepoCredentials {
    pub provider: String,
    pub user: String,
    pub repo: String,
}

/// The text of capture group `i`, where it took part in the match.
pub open spec fn group(caps: Seq<Option<Seq<char>>>, i: int) -> Option<Seq<char>> {
    if 0 <= i < caps.len() {
        caps[i]
    } else {
        None
    }
}

/// The credentials read from capture groups 2 (provider), 3 (owner) and
/// 4 (repository): present only where the match and all three are.
pub open spec fn spec_credentials(caps: Option<Seq<Option<Seq<char>>>>) -> Option<
    (Seq<char>, Seq<char>, Seq<char>),
> {
    match caps {
        Some(c) => match (group(c, 2), group(c, 3), group(c, 4)) {
            (Some(p), Some(u), Some(r)) => Some((p, u, r)),
            _ => None,
        },
        None => None,
    }
}

/// The credentials of a repository, by their texts.
pub open spec fn credentials_view(c: RepoCredentials) -> (Seq<char>, Seq<char>, Seq<char>) {
    (c.provider@, c.user@, c.repo@)
}

fn group_of(caps: &Vec<Option<String>>, i: usize) -> (res: Option<String>)
    ensures
        match res {
            Some(s) => group(opt_views(caps@), i as int) == Some(s@),
            None => group(opt_views(caps@), i as int) is None,
        },
{
    if i < caps.len() {
        match &caps[i] {
            Some(s) => Some(s.clone()),
            None => None,
        }
    } else {
        None
    }
}

/// The credentials in the capture groups of a clone URL match.
pub fn credentials_from_captures(caps: Option<Vec<Option<String>>>) -> (res: Option<RepoCredentials>)
    ensures
        match res {
            Some(c) => spec_credentials(match caps {
                Some(v) => Some(opt_views(v@)),
                None => None,
            }) == Some(credentials_view(c)),
            None => spec_credentials(match caps {
                Some(v) => Some(opt_views(v@)),
                None => None,
            }) is None,
        },
{
    let caps = match caps {
        Some(c) => c,
        None => return None,
    };
    let provider = match group_of(&caps, 2) {
        Some(s) => s,
        None => return None,
    };
    let user = match group_of(&caps, 3) {
        Some(s) => s,
        None => return None,
    };
    let repo = match group_of(&caps, 4) {
        Some(s) => s,
        None => return None,
    };
    Some(RepoCredentials { provider, user, repo })
}

/// The provider, owner and repository name of a clone URL such as
/// `git@github.com:owner/name.git`, as the clone URL pattern captures them.
pub fn generate_credentials_from_clone_url(url: &String) -> (res: Option<RepoCredentials>)
    ensures
        match res {
            Some(c) => spec_credentials(regex_captures(PATH_FROM_URL_PATTERN@, url@)) == Some(
                credentials_view(c),
            ),
            None => spec_credentials(regex_captures(PATH_FROM_URL_PATTERN@, url@)) is None,
        },
{
    let caps = regex_captures_of(PATH_FROM_URL_PATTERN, url.as_str());
    credentials_from_captures(caps)
}

/// A repository of a code host whose clone URL can be read.
pub trait GitRepo {
    fn get_repo_credentials(&self) -> Option<RepoCredentials>;
}

} // verus!
