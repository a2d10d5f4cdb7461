//! Request authentication decisions: permissions, guards, and the session
//! and setup-code rules. Password hashing, cookies and HTTP live outside
//! the library; they hand in what they read and act on what is decided
//! here.

use vstd::prelude::*;

verus! {

/// May create users.
pub const PERMISSION_ADMIN: u32 = 1;

/// May create invites.
pub const PERMISSION_CREATE_INVITE: u32 = 2;

/// May create a user (held by the setup code before any user exists).
pub const PERMISSION_CREATE_USER: u32 = 4;

/// Every permission bit the server knows.
pub const PERMISSION_ALL: u32 = 7;

/// A set of permission bits.
#[derive(Clone, Copy, PartialEq, Eq, Structural)]
pub struct Permissions {
    pub bits: u32,
}

impl Permissions {
    /// Builds a permission set, dropping unknown bits.
    pub fn from_bits_truncate(bits: u32) -> (r: Permissions)
        ensures
            r.bits == bits & PERMISSION_ALL,
    {
        Permissions { bits: bits & PERMISSION_ALL }
    }

    /// Whether every bit of `other` is held.
    pub fn contains(&self, other: Permissions) -> (r: bool)
        ensures
            r == (self.bits & other.bits == other.bits),
    {
        self.bits & other.bits == other.bits
    }
}

/// The signed-in user a request acts as.
pub struct User {
    pub id: String,
    pub username: String,
    pub permissions: u32,
}

/// What a request proved about itself: the user it acts as, if any, and
/// the permissions it holds. The setup code yields no user but the
/// permission to create the first one.
pub struct RequestAuth {
    pub user: Option<User>,
    pub permissions: Permissions,
}

impl RequestAuth {
    /// Whether the request holds every bit of `permission`.
    pub fn has_permission(&self, permission: Permissions) -> (r: bool)
        ensures
            r == (self.permissions.bits & permission.bits == permission.bits),
    {
        self.permissions.contains(permission)
    }

    /// The user the request acts as, if any.
    pub fn get_user(&self) -> (r: Option<&User>)
        ensures
            match r {
                Some(u) => self.user matches Some(v) && *u == v,
                None => self.user is None,
            },
    {
        self.user.as_ref()
    }
}

/// Why a request was turned away.
pub enum AuthError {
    UnknownUserOrWrongCredentials,
    SessionExpired,
    InsufficientPermissions,
    Unauthenticated,
    TooManyAttempts,
    InternalError,
}

impl AuthError {
    /// The message the response carries.
    pub fn message(&self) -> (r: &'static str)
        ensures
            r@ == match *self {
                AuthError::UnknownUserOrWrongCredentials => "Unknown user or wrong credentials"@,
                AuthError::SessionExpired => "Session expired"@,
                AuthError::InsufficientPermissions => "Insufficient permissions"@,
                AuthError::Unauthenticated => "Unauthenticated"@,
                AuthError::TooManyAttempts => "Too many attempts"@,
                AuthError::InternalError => "Internal error"@,
            },
    {
        match self {
            AuthError::UnknownUserOrWrongCredentials => "Unknown user or wrong credentials",
            AuthError::SessionExpired => "Session expired",
            AuthError::InsufficientPermissions => "Insufficient permissions",
            AuthError::Unauthenticated => "Unauthenticated",
            AuthError::TooManyAttempts => "Too many attempts",
            AuthError::InternalError => "Internal error",
        }
    }
}

/// A session whose expiry time has passed is no longer honoured.
pub fn session_expired(expires_at: i64, now: i64) -> (r: bool)
    ensures
        r == (expires_at < now),
{
    expires_at < now
}

/// Setup-code attempts are honoured at most once every two seconds.
pub fn setup_attempt_allowed(now: i64, last_attempt: i64) -> (r: bool)
    ensures
        r == (now as int - last_attempt as int >= 2),
{
    now as i128 - last_attempt as i128 >= 2
}

/// The setup code authenticates only while no user exists yet, and only
/// when it is the right code; what it grants is the permission to create
/// the first user.
pub fn check_setup_code(presented: u32, expected: u32, user_count: u64) -> (r: Result<
    RequestAuth,
    AuthError,
>)
    ensures
        match r {
            Ok(a) => presented == expected && user_count == 0 && a.user is None
                && a.permissions.bits == PERMISSION_CREATE_USER,
            Err(e) => (presented != expected || user_count > 0) && e is Unauthenticated,
        },
{
    if presented != expected {
        return Err(AuthError::Unauthenticated);
    }
    if user_count > 0 {
        return Err(AuthError::Unauthenticated);
    }
    Ok(RequestAuth { user: None, permissions: Permissions { bits: PERMISSION_CREATE_USER } })
}

/// A permission gate in front of an operation.
pub struct PermissionGuard {
    pub required: Permissions,
}

impl PermissionGuard {
    pub fn new(permissions: Permissions) -> (r: PermissionGuard)
        ensures
            r.required == permissions,
    {
        PermissionGuard { required: permissions }
    }

    /// Lets the request through exactly when it holds what is required.
    pub fn check(&self, auth: &RequestAuth) -> (r: Result<(), AuthError>)
        ensures
            match r {
                Ok(_) => auth.permissions.bits & self.required.bits == self.required.bits,
                Err(e) => !(auth.permissions.bits & self.required.bits == self.required.bits)
                    && e is InsufficientPermissions,
            },
    {
        if auth.has_permission(self.required) {
            Ok(())
        } else {
            Err(AuthError::InsufficientPermissions)
        }
    }
}

/// What a login request carries.
pub struct LoginInput {
    pub username: String,
    pub password: String,
}

/// What a fresh client should do first.
#[derive(Clone, Copy, PartialEq, Eq, Structural)]
pub enum InitState {
    /// A user exists and the request is not signed in: sign in.
    Login,
    /// No user exists yet: create the first one.
    CreateFirstUser,
    /// The request is signed in and the server is set up.
    Ready,
}

/// Decides what a fresh client should do, from whether its request
/// authenticated and how many users exist.
pub fn init_state(authenticated: bool, user_count: u64) -> (r: InitState)
    ensures
        authenticated ==> r == InitState::Ready,
        !authenticated && user_count > 0 ==> r == InitState::Login,
        !authenticated && user_count == 0 ==> r == InitState::CreateFirstUser,
{
    if authenticated {
        InitState::Ready
    } else if user_count > 0 {
        InitState::Login
    } else {
        InitState::CreateFirstUser
    }
}

} // verus!
