//! Sync clients: the services that keep repositories in step.

use vstd::prelude::*;

use crate::common::{is_alphanumeric, random_string};
use crate::errors::Error;

verus! {

/// A registered sync client.
pub struct SyncClient {
    pub id: i32,
    pub base_url: String,
    pub api_key: String,
    pub sync_client_type: i32,
}

/// A sync client to register.
pub struct NewSyncClient {
    pub base_url: String,
    pub api_key: String,
    pub sync_client_type: i32,
}

/// A sync client's answer to a repository it was asked to track.
pub struct AddRepoResponseDto {
    pub success: bool,
    pub sync_url: Option<String>,
}

/// A repository a sync client is asked to track.
pub struct AddRepositoryDto {
    pub url: String,
}

/// The key and type of a registered sync client.
pub struct SyncClientDto {
    pub api_key: String,
    pub sync_client_type: i32,
}

/// The length of a sync client's API key.
pub const API_KEY_LENGTH: usize = 32;

/// A sync client to register at `base_url`, with a fresh API key of 32
/// random ASCII letters and digits.
pub fn new_sync_client(base_url: String, client_type: i32) -> (res: NewSyncClient)
    ensures
        res.base_url == base_url,
        res.sync_client_type == client_type,
        res.api_key@.len() == API_KEY_LENGTH,
        forall|i: int| 0 <= i < API_KEY_LENGTH ==> is_alphanumeric(#[trigger] res.api_key@[i]),
{
    NewSyncClient { base_url, api_key: random_string(API_KEY_LENGTH), sync_client_type: client_type }
}

impl NewSyncClient {
    /// What is answered on a registered client: its key and type.
    pub fn dto(self) -> (res: SyncClientDto)
        ensures
            res.api_key == self.api_key,
            res.sync_client_type == self.sync_client_type,
    {
        SyncClientDto { api_key: self.api_key, sync_client_type: self.sync_client_type }
    }
}

/// The endpoint of a sync client where repositories are added.
pub fn repositories_endpoint(base_url: &str) -> (res: String)
    ensures
        res@ == base_url@ + "/repositories"@,
{
    String::from_str(base_url).concat("/repositories")
}

/// The request asking a sync client to track the repository at `clone_url`.
pub fn add_repository_request(clone_url: &str) -> (res: AddRepositoryDto)
    ensures
        res.url@ == clone_url@,
{
    AddRepositoryDto { url: String::from_str(clone_url) }
}

impl AddRepoResponseDto {
    /// The URL the repository is synced at, where the client reports
    /// success with a URL; else a custom error.
    pub fn sync_url(self) -> (res: Result<String, Error>)
        ensures
            res is Ok <==> self.success && self.sync_url is Some,
            res matches Ok(u) ==> self.sync_url == Some(u),
            res is Err ==> (res->Err_0 matches Error::Custom(m) && m@
                == "Something went wrong adding repository to sync!"@),
    {
        if self.success {
            match self.sync_url {
                Some(u) => return Ok(u),
                None => {},
            }
        }
        Err(Error::Custom("Something went wrong adding repository to sync!"))
    }
}

} // verus!
