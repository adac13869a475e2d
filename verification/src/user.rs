//! Users, their roles and the errors of creating one.

use vstd::prelude::*;

verus! {

/// A user with one of their roles, as listed.
pub struct UserDWH {
    pub id: i32,
    pub email: String,
    pub password: Option<String>,
    pub role: String,
}

/// The id of a user.
pub struct UserIdResponse {
    pub user_id: i32,
}

/// A user's membership of a role, as stored.
pub struct UserRoleMember {
    pub user: i32,
    pub role: i32,
}

/// A user's membership of a role.
pub struct UserRoleMemberJson {
    pub user: i32,
    pub role: i32,
}

impl From<UserRoleMember> for UserRoleMemberJson {
    fn from(user_role_member: UserRoleMember) -> (res: Self) {
        UserRoleMemberJson { user: user_role_member.user, role: user_role_member.role }
    }
}

impl vstd::std_specs::convert::FromSpecImpl<UserRoleMember> for UserRoleMemberJson {
    open spec fn obeys_from_spec() -> bool {
        true
    }

    open spec fn from_spec(v: UserRoleMember) -> Self {
        UserRoleMemberJson { user: v.user, role: v.role }
    }
}

/// Why a user could not be created.
pub enum UserCreationError {
    DuplicatedUsername,
}

/// The name of the unique constraint on user names.
pub const USERNAME_UNIQUE_CONSTRAINT: &'static str = "users_username_key";

impl UserCreationError {
    /// The error that a failed insert of a user stands for: a duplicated
    /// user name where the database reports a violation of the unique
    /// constraint on user names; `None` for any other database error,
    /// which creating a user does not recover from.
    pub fn from_database_error(unique_violation: bool, constraint_name: Option<&str>) -> (res:
        Option<UserCreationError>)
        ensures
            res is Some <==> (unique_violation && (constraint_name matches Some(n) && n@
                == USERNAME_UNIQUE_CONSTRAINT@)),
    {
        if unique_violation {
            match constraint_name {
                Some(n) => {
                    if crate::text::str_eq(n, USERNAME_UNIQUE_CONSTRAINT) {
                        return Some(UserCreationError::DuplicatedUsername);
                    }
                },
                None => {},
            }
        }
        None
    }

    /// The text the error is shown with.
    pub fn message(&self) -> (res: String)
        ensures
            match self {
                UserCreationError::DuplicatedUsername => res@ == "Duplicate Username"@,
            },
    {
        match self {
            UserCreationError::DuplicatedUsername => String::from_str("Duplicate Username"),
        }
    }
}

} // verus!
