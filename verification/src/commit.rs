//! Commits: their records, their JSON form, their input, and the answer
//! to a client asking which commits are tracked already.

use vstd::prelude::*;

use crate::errors::{no_codes, with_min_length_check, Error, FieldErrorList, Validate};
use crate::file::{string_or_empty, text_or_empty, FileJson, NewFileData};
use crate::git::{group, opt_views, regex_captures, regex_captures_of};

verus! {

/// A commit as stored.
pub struct Commit {
    pub id: i32,
    pub repository_id: i32,
    pub hash: String,
    pub message: String,
    pub email: String,
    pub branch: String,
    pub time: i64,
    pub git_user_name: String,
}

/// A commit with its files.
pub struct CommitJson {
    pub id: i32,
    pub email: String,
    pub git_user_name: String,
    pub branch: String,
    pub message: String,
    pub hash: String,
    pub time: i64,
    pub files: Vec<FileJson>,
}

impl Commit {
    /// The commit with its files.
    pub fn attach(&self, files: Vec<FileJson>) -> (res: CommitJson)
        ensures
            res.id == self.id,
            res.hash@ == self.hash@,
            res.branch@ == self.branch@,
            res.message@ == self.message@,
            res.email@ == self.email@,
            res.git_user_name@ == self.git_user_name@,
            res.time == self.time,
            res.files == files,
    {
        CommitJson {
            id: self.id,
            hash: self.hash.clone(),
            branch: self.branch.clone(),
            message: self.message.clone(),
            email: self.email.clone(),
            git_user_name: self.git_user_name.clone(),
            time: self.time,
            files,
        }
    }
}

/// A commit as a client reports it. `author`, `branch`, `message` and
/// `hash`, where given, must not be empty.
pub struct NewCommitData {
    pub author: Option<String>,
    pub branch: Option<String>,
    pub message: Option<String>,
    pub hash: Option<String>,
    pub time: Option<i64>,
    pub files: Vec<NewFileData>,
}

impl Validate for NewCommitData {
    open spec fn spec_field_errors(&self) -> Map<Seq<char>, Seq<Seq<char>>> {
        with_min_length_check(
            with_min_length_check(
                with_min_length_check(
                    with_min_length_check(no_codes(), "author"@, self.author),
                    "branch"@,
                    self.branch,
                ),
                "message"@,
                self.message,
            ),
            "hash"@,
            self.hash,
        )
    }

    fn validate(&self) -> (res: Result<(), validator::ValidationErrors>) {
        let mut errors = FieldErrorList::new();
        errors.check_min_length("author", &self.author);
        errors.check_min_length("branch", &self.branch);
        errors.check_min_length("message", &self.message);
        errors.check_min_length("hash", &self.hash);
        errors.into_result()
    }
}

/// The pattern a git author is read with: a name, blanks, and an email
/// address between angle brackets.
pub const GIT_USER_NAME_EMAIL_PATTERN: &'static str = "^(.*)\\s+<(.*)>$";

/// The columns a reported commit is stored with.
pub struct NewCommitRecord {
    pub email: String,
    pub git_user_name: String,
    pub branch: String,
    pub message: String,
    pub hash: String,
    pub timestamp: i64,
}

/// The `(name, email)` an author text is read as: capture groups 1 and 2
/// of the author pattern, where it matches.
pub open spec fn spec_author(author: Seq<char>) -> Option<(Seq<char>, Seq<char>)> {
    match regex_captures(GIT_USER_NAME_EMAIL_PATTERN@, author) {
        Some(c) => match (group(c, 1), group(c, 2)) {
            (Some(n), Some(e)) => Some((n, e)),
            _ => None,
        },
        None => None,
    }
}

/// The name and email of a git author such as `Jane Doe <jane@example.com>`;
/// `None` where the author pattern does not match.
pub fn split_author(author: &str) -> (res: Option<(String, String)>)
    ensures
        match res {
            Some((n, e)) => spec_author(author@) == Some((n@, e@)),
            None => spec_author(author@) is None,
        },
{
    let caps = match regex_captures_of(GIT_USER_NAME_EMAIL_PATTERN, author) {
        Some(c) => c,
        None => return None,
    };
    if caps.len() <= 2 {
        return None;
    }
    let name = match &caps[1] {
        Some(n) => n.clone(),
        None => return None,
    };
    let email = match &caps[2] {
        Some(e) => e.clone(),
        None => return None,
    };
    Some((name, email))
}

impl NewCommitData {
    /// The columns the commit is stored with: the author (empty where it
    /// is missing) split into name and email, the other texts as given or
    /// empty, the time as given or 0. `None` where the author cannot be
    /// split, where storing the commit stops.
    pub fn record(&self) -> (res: Option<NewCommitRecord>)
        ensures
            res is Some <==> spec_author(text_or_empty(self.author)) is Some,
            res matches Some(r) ==> {
                &&& spec_author(text_or_empty(self.author)) == Some((r.git_user_name@, r.email@))
                &&& r.branch@ == text_or_empty(self.branch)
                &&& r.message@ == text_or_empty(self.message)
                &&& r.hash@ == text_or_empty(self.hash)
                &&& r.timestamp == match self.time {
                    Some(t) => t,
                    None => 0,
                }
            },
    {
        let author = string_or_empty(&self.author);
        let (git_user_name, email) = match split_author(author.as_str()) {
            Some(p) => p,
            None => return None,
        };
        Some(
            NewCommitRecord {
                email,
                git_user_name,
                branch: string_or_empty(&self.branch),
                message: string_or_empty(&self.message),
                hash: string_or_empty(&self.hash),
                timestamp: match self.time {
                    Some(t) => t,
                    None => 0,
                },
            },
        )
    }
}

/// The last commit of a repository and every commit hash tracked for it.
pub struct LastCommitHash {
    pub hash: String,
    pub timestamp: i64,
    pub tracked_commit_hashes: Vec<String>,
}

/// Where a repository may be updated by the sync client with the given
/// id: a client is known for the key, and the repository is bound to no
/// client or to that one.
pub fn authorize_sync_client(repository_sync_client: Option<i32>, client_id: Option<i32>) -> (res:
    Result<(), Error>)
    ensures
        res is Ok <==> client_id is Some && (repository_sync_client is None
            || repository_sync_client == client_id),
        res is Err ==> (res->Err_0 matches Error::AuthorizationError(m) && m@
            == "Unauthorized repository update!"@),
{
    let client = match client_id {
        Some(c) => c,
        None => return Err(Error::AuthorizationError("Unauthorized repository update!")),
    };
    match repository_sync_client {
        Some(s) => if s != client {
            return Err(Error::AuthorizationError("Unauthorized repository update!"));
        },
        None => {},
    }
    Ok(())
}

/// Where a request carries the configured API key.
pub fn check_api_key(key: &str, expected: &str) -> (res: Result<(), Error>)
    ensures
        res is Ok <==> key@ == expected@,
        res is Err ==> (res->Err_0 matches Error::AuthorizationError(m) && m@
            == "Invalid API key!"@),
{
    if !crate::text::str_eq(key, expected) {
        return Err(Error::AuthorizationError("Invalid API key!"));
    }
    Ok(())
}

/// The answer on the tracked commits of a repository: its last commit's
/// hash and time with every tracked hash, or an empty answer (no hash,
/// time 0, no hashes) where it has no commit.
pub fn last_commit_hash(last_commit: Option<Commit>, hashes: Vec<String>) -> (res: LastCommitHash)
    ensures
        match last_commit {
            Some(c) => res.hash == c.hash && res.timestamp == c.time && res.tracked_commit_hashes
                == hashes,
            None => res.hash@.len() == 0 && res.timestamp == 0 && res.tracked_commit_hashes@.len()
                == 0,
        },
{
    match last_commit {
        Some(c) => LastCommitHash { hash: c.hash, timestamp: c.time, tracked_commit_hashes: hashes },
        None => LastCommitHash { hash: String::new(), timestamp: 0, tracked_commit_hashes: Vec::new() },
    }
}

/// The parameters naming a repository.
pub struct CommitHashParams {
    pub provider: String,
    pub user: String,
    pub repo: String,
}

impl Validate for CommitHashParams {
    open spec fn spec_field_errors(&self) -> Map<Seq<char>, Seq<Seq<char>>> {
        no_codes()
    }

    fn validate(&self) -> (res: Result<(), validator::ValidationErrors>) {
        Ok(())
    }
}

} // verus!
