use gtm_api::errors::{Error, ErrorBody};
use gtm_api::group::{
    find_group, get_groups_with_access, get_groups_with_access_recursive, get_groups_without_access,
    Group, GroupAccess, GroupRelation,
};
use gtm_api::repository::{authorize_update, bind_sync_client, check_delete_access, NewRepositoryData};
use gtm_api::sync::{
    add_repository_request, new_sync_client, repositories_endpoint, AddRepoResponseDto,
    API_KEY_LENGTH,
};
use gtm_api::user::{UserCreationError, UserRoleMember, UserRoleMemberJson};

fn g(id: i32) -> Group {
    Group { id, name: format!("group {}", id), added_at: 1_609_459_200 + id as i64 }
}

fn rel(parent: i32, child: i32) -> GroupRelation {
    GroupRelation { parent, child }
}

fn ids(v: &[Group]) -> Vec<i32> {
    v.iter().map(|g| g.id).collect()
}

fn message_of(e: Error) -> (u16, String) {
    let r = e.respond_to();
    match r.body {
        ErrorBody::Message(m) => (r.status, m),
        ErrorBody::Errors(_) => panic!("expected a message"),
    }
}

#[test]
fn group_access_attach_swaps_ids() {
    let j = GroupAccess { user: 1, group: 2, access_level_recursive: true }.attach();
    assert_eq!((j.user, j.group, j.access_level_recursive), (2, 1, true));
}

#[test]
fn groups_attach_with_their_date() {
    let j = Group { id: 3, name: "core".to_string(), added_at: 1_609_459_200 }
        .attach("%Y-%m-%d %H:%M")
        .unwrap();
    assert_eq!((j.id, j.name.as_str(), j.added_at.as_str()), (3, "core", "2021-01-01 00:00"));
    let w = g(4).attach_with_access(None, "%Y").unwrap();
    assert_eq!((w.id, w.added_at.as_str()), (4, "2021"));
    assert!(w.group_access.is_none());
    assert!(Group { id: 5, name: String::new(), added_at: i64::MAX }.attach("%Y").is_none());
}

#[test]
fn groups_are_equal_by_id() {
    let a = Group { id: 1, name: "a".to_string(), added_at: 0 };
    let b = Group { id: 1, name: "b".to_string(), added_at: 5 };
    assert!(a == b);
    assert!(a != g(2));
    assert_eq!(find_group(&vec![g(1), g(2)], 2).map(|x| x.id), Some(2));
    assert!(find_group(&vec![g(1)], 9).is_none());
}

#[test]
fn descendants_depth_first() {
    let groups = vec![g(1), g(2), g(3), g(4), g(5)];
    let rels = vec![rel(1, 2), rel(2, 4), rel(1, 3), rel(5, 1)];
    let d = get_groups_with_access_recursive(&g(1), &groups, &rels).unwrap();
    assert_eq!(ids(&d), vec![2, 4, 3]);
    assert!(get_groups_with_access_recursive(&g(4), &groups, &rels).unwrap().is_empty());
    let chain = vec![rel(1, 2), rel(2, 3)];
    assert_eq!(ids(&get_groups_with_access_recursive(&g(1), &groups, &chain).unwrap()), vec![2, 3]);
}

#[test]
fn descent_refuses_cycles_and_unknown_groups() {
    let groups = vec![g(1), g(2)];
    assert!(get_groups_with_access_recursive(&g(1), &groups, &vec![rel(1, 2), rel(2, 1)]).is_none());
    assert!(get_groups_with_access_recursive(&g(1), &groups, &vec![rel(1, 9)]).is_none());
}

#[test]
fn groups_with_access_sorted_and_unique() {
    let groups = vec![g(1), g(2), g(3), g(4), g(5)];
    let rels = vec![rel(3, 2), rel(2, 1)];
    let accesses = vec![
        GroupAccess { user: 9, group: 5, access_level_recursive: false },
        GroupAccess { user: 9, group: 3, access_level_recursive: true },
        GroupAccess { user: 9, group: 1, access_level_recursive: false },
    ];
    let reached = get_groups_with_access(&groups, &accesses, &rels).unwrap();
    assert_eq!(ids(&reached), vec![1, 2, 3, 5]);
    let flat = vec![GroupAccess { user: 9, group: 3, access_level_recursive: false }];
    assert_eq!(ids(&get_groups_with_access(&groups, &flat, &rels).unwrap()), vec![3]);
    let unknown = vec![GroupAccess { user: 9, group: 7, access_level_recursive: false }];
    assert!(get_groups_with_access(&groups, &unknown, &rels).is_none());
    let without = get_groups_without_access(&groups, &reached);
    assert_eq!(ids(&without), vec![4]);
    assert_eq!(ids(&get_groups_without_access(&groups, &vec![])), vec![1, 2, 3, 4, 5]);
}

#[test]
fn repository_names_read() {
    let d = NewRepositoryData {
        user: Some("owner".to_string()),
        provider: Some("github.com".to_string()),
        repo: Some("name".to_string()),
        commits: vec![],
    };
    let (u, p, r) = d.read_names().ok().unwrap();
    assert_eq!((u.as_str(), p.as_str(), r.as_str()), ("owner", "github.com", "name"));
    let bad = NewRepositoryData { user: None, provider: Some(String::new()), repo: Some("r".to_string()), commits: vec![] };
    let resp = bad.read_names().err().unwrap().respond_to();
    assert_eq!(resp.status, 422);
    match resp.body {
        ErrorBody::Errors(mut list) => {
            list.sort();
            assert_eq!(
                list,
                vec![
                    ("provider".to_string(), vec!["length".to_string()]),
                    ("user".to_string(), vec!["can't be blank".to_string()]),
                ]
            );
        }
        ErrorBody::Message(_) => panic!("expected field errors"),
    }
}

#[test]
fn repository_updates_authorized() {
    assert_eq!(authorize_update(Some(4), true).ok(), Some(4));
    assert_eq!(message_of(authorize_update(None, true).err().unwrap()), (401, "Unauthorized repository update!".to_string()));
    assert_eq!(message_of(authorize_update(Some(4), false).err().unwrap()), (400, "Repository not found!".to_string()));
    assert_eq!(bind_sync_client(None, 3).ok(), Some(true));
    assert_eq!(bind_sync_client(Some(3), 3).ok(), Some(false));
    assert_eq!(message_of(bind_sync_client(Some(2), 3).err().unwrap()).1, "Illegal repository update!");
    assert!(check_delete_access(&vec![g(1), g(6)], 6).is_ok());
    assert_eq!(message_of(check_delete_access(&vec![g(1)], 6).err().unwrap()), (401, "No group access!".to_string()));
}

#[test]
fn sync_clients_get_fresh_keys() {
    let a = new_sync_client("http://sync".to_string(), 1);
    let b = new_sync_client("http://sync".to_string(), 1);
    assert_eq!(a.api_key.len(), API_KEY_LENGTH);
    assert!(a.api_key.chars().all(|c| c.is_ascii_alphanumeric()));
    assert_ne!(a.api_key, b.api_key);
    assert_eq!((a.base_url.as_str(), a.sync_client_type), ("http://sync", 1));
    let key = a.api_key.clone();
    let dto = a.dto();
    assert_eq!((dto.api_key, dto.sync_client_type), (key, 1));
    assert_eq!(repositories_endpoint("http://sync"), "http://sync/repositories");
    assert_eq!(add_repository_request("git@h:o/r.git").url, "git@h:o/r.git");
}

#[test]
fn sync_answers() {
    let ok = AddRepoResponseDto { success: true, sync_url: Some("http://s/r".to_string()) };
    assert_eq!(ok.sync_url().ok(), Some("http://s/r".to_string()));
    for bad in [
        AddRepoResponseDto { success: false, sync_url: Some("u".to_string()) },
        AddRepoResponseDto { success: true, sync_url: None },
    ] {
        assert_eq!(
            message_of(bad.sync_url().err().unwrap()),
            (500, "Something went wrong adding repository to sync!".to_string())
        );
    }
}

#[test]
fn users() {
    let j = UserRoleMemberJson::from(UserRoleMember { user: 1, role: 2 });
    assert_eq!((j.user, j.role), (1, 2));
    let e = UserCreationError::from_database_error(true, Some("users_username_key")).unwrap();
    assert_eq!(e.message(), "Duplicate Username");
    assert!(UserCreationError::from_database_error(true, Some("other_key")).is_none());
    assert!(UserCreationError::from_database_error(false, Some("users_username_key")).is_none());
    assert!(UserCreationError::from_database_error(true, None).is_none());
}

#[test]
fn acyclic_chains_descend_to_the_bottom() {
    let groups = vec![g(1), g(2), g(3), g(4), g(5)];
    let chain = vec![rel(1, 2), rel(2, 3), rel(3, 4), rel(4, 5)];
    let d = get_groups_with_access_recursive(&g(1), &groups, &chain).unwrap();
    assert_eq!(ids(&d), vec![2, 3, 4, 5]);
    let diamond = vec![rel(1, 2), rel(1, 3), rel(2, 4), rel(3, 4)];
    assert_eq!(ids(&get_groups_with_access_recursive(&g(1), &groups, &diamond).unwrap()), vec![2, 4, 3, 4]);
}
