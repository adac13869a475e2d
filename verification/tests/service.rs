use gtm_api::commit::{
    authorize_sync_client, check_api_key, last_commit_hash, split_author, Commit, NewCommitData,
};
use gtm_api::errors::{
    Error, ErrorBody, FieldErrorList, FieldValidator, StatusValidationErrors, Validate,
    STATUS_BAD_REQUEST, STATUS_FAILED_DEPENDENCY, STATUS_INTERNAL_SERVER_ERROR,
    STATUS_UNAUTHORIZED, STATUS_UNPROCESSABLE_ENTITY,
};
use gtm_api::file::{File, NewFileData};
use gtm_api::git::{generate_credentials_from_clone_url, GitRepo};
use gtm_api::hosts::{
    bitbucket_repos_endpoint, bitbucket_url, filter_repos_by_name, github_authorization,
    github_url, gitlab_authorization, GithubRepo, GitlabRepo, GitlabStatistics,
    BITBUCKET_ORG_DOMAIN, GITHUB_COM_DOMAIN,
};
use gtm_api::timeline::resources::TimelineJson;
use gtm_api::timeline::routes::{ComparisonParams, NewTimelineData, SubdirTimelineParams, TimelineParams};

fn sorted_errors(e: Error) -> (u16, Vec<(String, Vec<String>)>) {
    let r = e.respond_to();
    match r.body {
        ErrorBody::Errors(mut list) => {
            list.sort();
            (r.status, list)
        }
        ErrorBody::Message(m) => panic!("expected field errors, got message {}", m),
    }
}

fn message_of(e: Error) -> (u16, String) {
    let r = e.respond_to();
    match r.body {
        ErrorBody::Message(m) => (r.status, m),
        ErrorBody::Errors(_) => panic!("expected a message"),
    }
}

fn field(name: &str, codes: &[&str]) -> (String, Vec<String>) {
    (name.to_string(), codes.iter().map(|c| c.to_string()).collect())
}

#[test]
fn status_validation_errors_keep_pairs_in_order() {
    let e = StatusValidationErrors::new(
        &[("name", "length"), ("email", "email"), ("name", "required")],
        Some(STATUS_BAD_REQUEST),
    );
    assert_eq!(e.status(), 400);
    let mut list = e.field_errors();
    list.sort();
    assert_eq!(list, vec![field("email", &["email"]), field("name", &["length", "required"])]);
    let default = StatusValidationErrors::new(&[("x", "y")], None);
    assert_eq!(default.status(), STATUS_INTERNAL_SERVER_ERROR);
}

#[test]
fn every_error_has_its_response() {
    let v = Error::from(StatusValidationErrors::new(&[("f", "c")], Some(418)));
    assert_eq!(sorted_errors(v), (418, vec![field("f", &["c"])]));
    assert_eq!(
        message_of(Error::DatabaseError("connection refused".to_string())),
        (500, "Something went wrong! :(".to_string())
    );
    assert_eq!(
        message_of(Error::AuthorizationError("Invalid API key!")),
        (STATUS_UNAUTHORIZED, "Invalid API key!".to_string())
    );
    assert_eq!(
        message_of(Error::HttpError("timeout".to_string())),
        (STATUS_FAILED_DEPENDENCY, "Some API request failed, try again later!".to_string())
    );
    assert_eq!(message_of(Error::BadRequest("nope")), (400, "nope".to_string()));
    assert_eq!(message_of(Error::Custom("odd")), (500, "odd".to_string()));
}

#[test]
fn field_validator_collects_blank_fields() {
    let mut v = FieldValidator::default();
    let a: i64 = v.extract("start", Some(5));
    let b: i64 = v.extract("end", None);
    let c: String = v.extract("interval", None);
    assert_eq!((a, b, c.as_str()), (5, 0, ""));
    let e = v.check().err().expect("blank fields are errors");
    assert_eq!(
        sorted_errors(e),
        (
            STATUS_UNPROCESSABLE_ENTITY,
            vec![field("end", &["can't be blank"]), field("interval", &["can't be blank"])]
        )
    );
    assert!(FieldValidator::default().check().is_ok());
}

#[test]
fn timeline_period_checks() {
    let mut v = FieldValidator::default();
    v.validate_timeline_period(-5, 400 * 86400, "Decade");
    assert_eq!(
        sorted_errors(v.check().err().unwrap()).1,
        vec![
            field("interval", &["Invalid interval!"]),
            field("period", &["Invalid period!", "Too long period!"]),
        ]
    );
    let mut ok = FieldValidator::default();
    ok.validate_timeline_period(0, 370 * 86400, "WEEK");
    assert!(ok.check().is_ok());
    let mut late = FieldValidator::default();
    late.validate_timeline_period(10, 5, "day");
    assert_eq!(sorted_errors(late.check().err().unwrap()).1, vec![field("period", &["Invalid period!"])]);
}

#[test]
fn min_length_validation() {
    let mut list = FieldErrorList::new();
    list.check_min_length("path", &Some(String::new()));
    list.check_min_length("status", &None);
    list.check_min_length("hash", &Some("x".to_string()));
    let e = list.into_result().err().expect("an empty path is an error");
    assert_eq!(e.field_errors().len(), 1);
    assert!(e.field_errors().contains_key("path"));
    assert!(FieldErrorList::new().into_result().is_ok());

    let file = NewFileData {
        path: Some(String::new()),
        status: Some(String::new()),
        time_total: None,
        added_lines: None,
        deleted_lines: None,
        timeline: vec![],
    };
    let errs = file.validate().err().unwrap();
    assert_eq!(errs.field_errors().len(), 2);
    let good = NewFileData { path: Some("a.rs".to_string()), status: None, ..file };
    assert!(good.validate().is_ok());
}

#[test]
fn clone_urls_give_credentials() {
    let c = generate_credentials_from_clone_url(&"git@github.com:owner/name.git".to_string()).unwrap();
    assert_eq!((c.provider.as_str(), c.user.as_str(), c.repo.as_str()), ("github.com", "owner", "name"));
    let c = generate_credentials_from_clone_url(&"https://gitlab.com/group/sub/proj.git".to_string())
        .unwrap();
    assert_eq!((c.provider.as_str(), c.user.as_str(), c.repo.as_str()), ("gitlab.com", "group/sub", "proj"));
    assert!(generate_credentials_from_clone_url(&"not a clone url".to_string()).is_none());
    assert!(generate_credentials_from_clone_url(&"git@github.com:owner/name".to_string()).is_none());
}

#[test]
fn hosted_repositories_read_their_ssh_urls() {
    let gh = GithubRepo {
        full_name: "owner/name".to_string(),
        description: None,
        private: false,
        html_url: "https://github.com/owner/name".to_string(),
        updated_at: 0,
        ssh_url: "git@github.com:owner/name.git".to_string(),
        size: 1,
        stargazers_count: 2,
    };
    let c = gh.get_repo_credentials().unwrap();
    assert_eq!((c.provider, c.user, c.repo), ("github.com".to_string(), "owner".to_string(), "name".to_string()));
    let gl = GitlabRepo {
        name_with_namespace: "g / p".to_string(),
        description: Some("d".to_string()),
        web_url: "https://gitlab.com/g/p".to_string(),
        ssh_url_to_repo: "git@gitlab.com:g/p.git".to_string(),
        last_activity_at: 0,
        star_count: 0,
        visibility: "public".to_string(),
        statistics: GitlabStatistics { commit_count: 3, repository_size: 10 },
    };
    let c = gl.get_repo_credentials().unwrap();
    assert_eq!((c.provider, c.user, c.repo), ("gitlab.com".to_string(), "g".to_string(), "p".to_string()));
}

fn github_repo(name: &str) -> GithubRepo {
    GithubRepo {
        full_name: name.to_string(),
        description: None,
        private: true,
        html_url: String::new(),
        updated_at: 0,
        ssh_url: String::new(),
        size: 0,
        stargazers_count: 0,
    }
}

#[test]
fn repositories_filtered_by_name() {
    let repos = vec![github_repo("a/alpha"), github_repo("b/beta"), github_repo("c/alphabet")];
    let kept: Vec<String> =
        filter_repos_by_name(repos, Some("alpha")).into_iter().map(|r| r.full_name).collect();
    assert_eq!(kept, vec!["a/alpha".to_string(), "c/alphabet".to_string()]);
    let all = filter_repos_by_name(vec![github_repo("x"), github_repo("y")], None);
    assert_eq!(all.len(), 2);
    assert!(filter_repos_by_name(vec![github_repo("x")], Some("z")).is_empty());
}

#[test]
fn host_urls_and_headers() {
    assert_eq!(github_url(GITHUB_COM_DOMAIN, "/user/repos"), "https://api.github.com/user/repos");
    assert_eq!(
        bitbucket_url(BITBUCKET_ORG_DOMAIN, "/user"),
        "https://bitbucket.org/api/2.0/user"
    );
    assert_eq!(bitbucket_repos_endpoint(None), "/repositories?role=member");
    assert_eq!(bitbucket_repos_endpoint(Some("gtm")), "/repositories?role=member&q=name~gtm");
    assert_eq!(github_authorization("abc"), "token abc");
    assert_eq!(gitlab_authorization("abc"), "Bearer abc");
}

#[test]
fn commit_authors_split() {
    assert_eq!(
        split_author("Jane Doe <jane@example.com>"),
        Some(("Jane Doe".to_string(), "jane@example.com".to_string()))
    );
    assert_eq!(split_author("solo <s@x>"), Some(("solo".to_string(), "s@x".to_string())));
    assert_eq!(split_author("nobody"), None);
    assert_eq!(split_author("<a@b>"), None);
}

fn commit_data(author: Option<&str>) -> NewCommitData {
    NewCommitData {
        author: author.map(|a| a.to_string()),
        branch: Some("main".to_string()),
        message: None,
        hash: Some("abc123".to_string()),
        time: Some(1_600_000_000),
        files: vec![],
    }
}

#[test]
fn commit_records() {
    let r = commit_data(Some("Jane Doe <jane@example.com>")).record().unwrap();
    assert_eq!(r.git_user_name, "Jane Doe");
    assert_eq!(r.email, "jane@example.com");
    assert_eq!(r.branch, "main");
    assert_eq!(r.message, "");
    assert_eq!(r.hash, "abc123");
    assert_eq!(r.timestamp, 1_600_000_000);
    assert!(commit_data(None).record().is_none());
    assert!(commit_data(Some("no email")).record().is_none());
    let mut blank = commit_data(Some("A <a@b>"));
    blank.hash = Some(String::new());
    assert_eq!(blank.validate().err().unwrap().field_errors().len(), 1);
    assert!(commit_data(Some("A <a@b>")).validate().is_ok());
}

#[test]
fn sync_client_authorization() {
    assert!(authorize_sync_client(None, Some(3)).is_ok());
    assert!(authorize_sync_client(Some(3), Some(3)).is_ok());
    let e = authorize_sync_client(Some(3), Some(4)).err().unwrap();
    assert_eq!(message_of(e), (401, "Unauthorized repository update!".to_string()));
    assert!(authorize_sync_client(None, None).is_err());
    assert!(check_api_key("secret", "secret").is_ok());
    assert_eq!(message_of(check_api_key("guess", "secret").err().unwrap()).1, "Invalid API key!");
}

fn commit() -> Commit {
    Commit {
        id: 7,
        repository_id: 2,
        hash: "h1".to_string(),
        message: "msg".to_string(),
        email: "e@x".to_string(),
        branch: "main".to_string(),
        time: 99,
        git_user_name: "E".to_string(),
    }
}

#[test]
fn last_commit_answers() {
    let some = last_commit_hash(Some(commit()), vec!["h0".to_string(), "h1".to_string()]);
    assert_eq!((some.hash.as_str(), some.timestamp), ("h1", 99));
    assert_eq!(some.tracked_commit_hashes, vec!["h0".to_string(), "h1".to_string()]);
    let none = last_commit_hash(None, vec!["h0".to_string()]);
    assert_eq!((none.hash.as_str(), none.timestamp), ("", 0));
    assert!(none.tracked_commit_hashes.is_empty());
}

#[test]
fn commits_and_files_attach() {
    let file = File {
        id: 1,
        commit: 7,
        path: "src/a.rs".to_string(),
        status: "modified".to_string(),
        time: 60,
        lines_added: 3,
        lines_deleted: 1,
    };
    let fj = file.attach(vec![TimelineJson { id: 1, timestamp: 10, time: 60 }]);
    assert_eq!((fj.id, fj.path.as_str(), fj.status.as_str()), (1, "src/a.rs", "modified"));
    assert_eq!((fj.time, fj.lines_added, fj.lines_deleted, fj.timeline.len()), (60, 3, 1, 1));
    let cj = commit().attach(vec![fj]);
    assert_eq!((cj.id, cj.hash.as_str(), cj.time, cj.files.len()), (7, "h1", 99, 1));
    assert_eq!((cj.email.as_str(), cj.git_user_name.as_str(), cj.branch.as_str()), ("e@x", "E", "main"));
    assert_eq!(cj.message, "msg");
}

#[test]
fn file_records_default_missing_fields() {
    let d = NewFileData {
        path: Some("a".to_string()),
        status: None,
        time_total: Some(30),
        added_lines: None,
        deleted_lines: Some(2),
        timeline: vec![],
    };
    let r = d.record();
    assert_eq!((r.path.as_str(), r.status.as_str()), ("a", ""));
    assert_eq!((r.time, r.lines_added, r.lines_deleted), (30, 0, 2));
}

#[test]
fn timeline_data_records() {
    assert_eq!(NewTimelineData { timestamp: Some(5), time: Some(60) }.record().ok(), Some((5, 60)));
    let e = NewTimelineData { timestamp: None, time: None }.record().err().unwrap();
    assert_eq!(sorted_errors(NewTimelineData { timestamp: Some(1), time: None }.record().err().unwrap()).0, 422);
    assert_eq!(
        sorted_errors(e).1,
        vec![field("time", &["can't be blank"]), field("timestamp", &["can't be blank"])]
    );
}

#[test]
fn timeline_params_read() {
    let p = TimelineParams {
        start: Some(0),
        end: Some(86400),
        interval: Some("Day".to_string()),
        timezone: Some("UTC".to_string()),
        cumulative: None,
    };
    let q = p.read().ok().unwrap();
    assert_eq!((q.start, q.end, q.interval.as_str(), q.timezone.as_str(), q.cumulative), (0, 86400, "Day", "UTC", false));
    let missing = TimelineParams { start: None, end: None, interval: None, timezone: None, cumulative: Some(true) };
    let no_start_zone = TimelineParams {
        start: None,
        end: Some(86400),
        interval: Some("day".to_string()),
        timezone: None,
        cumulative: None,
    };
    assert_eq!(
        sorted_errors(no_start_zone.read().err().unwrap()),
        (422, vec![field("start", &["can't be blank"]), field("timezone", &["can't be blank"])])
    );
    assert_eq!(
        sorted_errors(missing.read().err().unwrap()).1,
        vec![
            field("end", &["can't be blank"]),
            field("interval", &["can't be blank", "Invalid interval!"]),
            field("start", &["can't be blank"]),
            field("timezone", &["can't be blank"]),
        ]
    );
}

#[test]
fn comparison_params_read() {
    let p = ComparisonParams {
        groups: Some("a,b".to_string()),
        repo: Some("1,x,3".to_string()),
        branch: Some("main,,dev".to_string()),
        user: None,
        start: Some(0),
        end: Some(3600),
        interval: Some("hour".to_string()),
        timezone: Some("UTC".to_string()),
    };
    let q = p.read().ok().unwrap();
    assert_eq!(q.groups, vec!["a".to_string(), "b".to_string()]);
    assert_eq!(q.repos, vec![1, -1, 3]);
    assert_eq!(q.branches, vec!["main".to_string(), "dev".to_string()]);
    assert_eq!(q.users, vec!["".to_string()]);
    assert_eq!((q.start, q.end, q.interval.as_str(), q.timezone.as_str()), (0, 3600, "hour", "UTC"));
    let no_groups = ComparisonParams { groups: None, ..p };
    assert_eq!(sorted_errors(no_groups.read().err().unwrap()), (422, vec![field("groups", &["can't be blank"])]));
}

#[test]
fn subdir_params_read() {
    let p = SubdirTimelineParams {
        start: Some(0),
        end: Some(7 * 86400),
        interval: Some("week".to_string()),
        timezone: Some("UTC".to_string()),
        depth: Some(2),
        lines_threshold: None,
        cumulative: Some(true),
    };
    let q = p.read().ok().unwrap();
    assert_eq!((q.start, q.end, q.interval.as_str(), q.timezone.as_str(), q.depth, q.lines_threshold, q.cumulative), (0, 7 * 86400, "week", "UTC", 2, None, true));
    let bad = SubdirTimelineParams { depth: None, interval: Some("fortnight".to_string()), start: Some(10), end: Some(5), ..p };
    assert_eq!(
        sorted_errors(bad.read().err().unwrap()),
        (
            422,
            vec![
                field("depth", &["can't be blank"]),
                field("interval", &["Invalid interval!"]),
                field("period", &["Invalid period!"]),
            ]
        )
    );
}
