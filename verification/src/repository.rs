//! Repositories: their records, their input, and who may change them.

use vstd::prelude::*;

use crate::commit::NewCommitData;
use crate::errors::{no_codes, with_code, with_min_length_check, Error, FieldErrorList, FieldValidator, Validate, STATUS_UNPROCESSABLE_ENTITY};
use crate::group::{has_id, Group};

verus! {

/// A repository as stored; `added_at` in UNIX seconds.
pub struct Repository {
    pub id: i32,
    pub group: i32,
    pub user: String,
    pub provider: String,
    pub repo: String,
    pub added_at: i64,
    pub sync_client: Option<i32>,
}

/// The id of a repository.
pub struct RepositoryId {
    pub id: i32,
}

/// A repository with its commits as a client reports it. `user`,
/// `provider` and `repo`, where given, must not be empty.
pub struct NewRepositoryData {
    pub user: Option<String>,
    pub provider: Option<String>,
    pub repo: Option<String>,
    pub commits: Vec<NewCommitData>,
}

/// The body of a request that reports a repository.
pub struct NewRepository {
    pub repository: NewRepositoryData,
}

impl Validate for NewRepositoryData {
    open spec fn spec_field_errors(&self) -> Map<Seq<char>, Seq<Seq<char>>> {
        with_min_length_check(
            with_min_length_check(with_min_length_check(no_codes(), "user"@, self.user), "provider"@, self.provider),
            "repo"@,
            self.repo,
        )
    }

    fn validate(&self) -> (res: Result<(), validator::ValidationErrors>) {
        let mut errors = FieldErrorList::new();
        errors.check_min_length("user", &self.user);
        errors.check_min_length("provider", &self.provider);
        errors.check_min_length("repo", &self.repo);
        errors.into_result()
    }
}

/// `m` with a `"can't be blank"` error for `field` where `value` is missing.
pub open spec fn with_blank_check<T>(m: Map<Seq<char>, Seq<Seq<char>>>, field: Seq<char>, value: Option<T>) -> Map<
    Seq<char>,
    Seq<Seq<char>>,
> {
    if value is None {
        with_code(m, field, "can't be blank"@)
    } else {
        m
    }
}

/// The field errors of a reported repository: its validation errors and
/// a blank error for each missing name.
pub open spec fn repository_data_errors(d: NewRepositoryData) -> Map<Seq<char>, Seq<Seq<char>>> {
    with_blank_check(
        with_blank_check(with_blank_check(d.spec_field_errors(), "user"@, d.user), "provider"@, d.provider),
        "repo"@,
        d.repo,
    )
}

impl NewRepositoryData {
    /// The owner, provider and name of the reported repository; a
    /// validation error holding every field error where there is one.
    pub fn read_names(&self) -> (res: Result<(String, String, String), Error>)
        ensures
            res is Ok <==> repository_data_errors(*self).dom() == Set::<Seq<char>>::empty(),
            res matches Ok((u, p, r)) ==> Some(u) == self.user && Some(p) == self.provider && Some(r)
                == self.repo,
            res is Err ==> (res->Err_0 matches Error::ValidationError(v) && v.codes()
                == repository_data_errors(*self) && v.spec_status() == STATUS_UNPROCESSABLE_ENTITY && v.flat()),
    {
        let mut extractor = FieldValidator::validate(self);
        let user = extractor.extract("user", self.user.clone());
        let provider = extractor.extract("provider", self.provider.clone());
        let repo = extractor.extract("repo", self.repo.clone());
        match extractor.check() {
            Ok(()) => Ok((user, provider, repo)),
            Err(e) => Err(e),
        }
    }
}

/// Where a known sync client may update a repository it reported: a
/// client is known for the key, else the update is unauthorized; the
/// repository exists, else the request is bad. Gives the client's id.
pub fn authorize_update(client_id: Option<i32>, repository_found: bool) -> (res: Result<i32, Error>)
    ensures
        match client_id {
            None => res is Err && (res->Err_0 matches Error::AuthorizationError(m) && m@
                == "Unauthorized repository update!"@),
            Some(c) => if repository_found {
                res == Ok::<i32, Error>(c)
            } else {
                res is Err && (res->Err_0 matches Error::BadRequest(m) && m@ == "Repository not found!"@)
            },
        },
{
    let client = match client_id {
        Some(c) => c,
        None => return Err(Error::AuthorizationError("Unauthorized repository update!")),
    };
    if !repository_found {
        return Err(Error::BadRequest("Repository not found!"));
    }
    Ok(client)
}

/// Whether a repository bound to `current` may take commits from the sync
/// client `sync_client`: an unbound repository is bound to it first
/// (`Ok(true)`); one bound to it takes them (`Ok(false)`); one bound to
/// another client refuses the update.
pub fn bind_sync_client(current: Option<i32>, sync_client: i32) -> (res: Result<bool, Error>)
    ensures
        match current {
            None => res == Ok::<bool, Error>(true),
            Some(s) => if s == sync_client {
                res == Ok::<bool, Error>(false)
            } else {
                res is Err && (res->Err_0 matches Error::AuthorizationError(m) && m@
                    == "Illegal repository update!"@)
            },
        },
{
    match current {
        None => Ok(true),
        Some(s) => if s != sync_client {
            Err(Error::AuthorizationError("Illegal repository update!"))
        } else {
            Ok(false)
        },
    }
}

/// Where a user may delete the repository with the given id: one of the
/// groups they reach (all groups for an administrator) has that id.
pub fn check_delete_access(groups: &Vec<Group>, repository_id: i32) -> (res: Result<(), Error>)
    ensures
        res is Ok <==> has_id(groups@, repository_id),
        res is Err ==> (res->Err_0 matches Error::AuthorizationError(m) && m@ == "No group access!"@),
{
    let mut i: usize = 0;
    while i < groups.len()
        invariant
            0 <= i <= groups@.len(),
            forall|k: int| 0 <= k < i ==> #[trigger] groups@[k].id != repository_id,
        decreases groups@.len() - i,
    {
        if groups[i].id == repository_id {
            assert(groups@[i as int].id == repository_id);
            return Ok(());
        }
        i = i + 1;
    }
    Err(Error::AuthorizationError("No group access!"))
}

} // verus!
