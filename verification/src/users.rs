//! Users: signing in, new accounts, profiles and bound identities.
use vstd::prelude::*;

use crate::{convert, text};
use crate::convert::i64_to_u64;
use crate::model::ApiUser;
use crate::text::{chars_of, string_of_range, to_ascii_lowercase, trim};

verus! {

/// Whether `bcrypt::verify` takes `password` for the one that `hash` was made
/// of. A text that is no hash is the hash of no password.
pub uninterp spec fn password_matches(password: Seq<char>, hash: Seq<char>) -> bool;

/// Calls `bcrypt::verify`, and takes an error for no match.
#[verifier::external_body]
fn bcrypt_verify(password: &str, hash: &str) -> (r: bool)
    ensures
        r == password_matches(password@, hash@),
{
    bcrypt::verify(password, hash).unwrap_or(false)
}

/// Calls `bcrypt::hash` at the default cost. The salt is random, so only this
/// is claimed: the hash that comes back is one of the password. There is none
/// where the machine has no random numbers.
#[verifier::external_body]
fn bcrypt_hash(password: &str) -> (r: Option<String>)
    ensures
        r matches Some(h) ==> password_matches(password@, h@),
{
    bcrypt::hash(password, bcrypt::DEFAULT_COST).ok()
}

/// Calls `uuid::Uuid::new_v4` and writes the number without hyphens: which one
/// it is is random, but it has 32 hexadecimal digits.
#[verifier::external_body]
fn random_uuid() -> (r: String)
    ensures
        r@.len() == 32,
        all_hex(r@),
{
    uuid::Uuid::new_v4().simple().to_string()
}

/// Whether `c` is a hexadecimal digit, with small letters.
pub open spec fn is_hex(c: char) -> bool {
    '0' <= c <= '9' || 'a' <= c <= 'f'
}

pub open spec fn all_hex(s: Seq<char>) -> bool {
    forall|i: int| 0 <= i < s.len() ==> is_hex(#[trigger] s[i])
}

/// A new secret for the agents of a user.
pub fn generate_secret() -> (r: String)
    ensures
        r@.len() == 32,
        all_hex(r@),
{
    random_uuid()
}

/// A new secret of `chars` hexadecimal digits.
pub fn generated_secret(chars: usize) -> (r: String)
    ensures
        r@.len() == chars,
        all_hex(r@),
{
    let mut secret: Vec<char> = Vec::new();
    while secret.len() < chars
        invariant
            all_hex(secret@),
            secret@.len() <= chars + 31,
        decreases chars + 32 - secret@.len(),
    {
        let piece = random_uuid();
        let mut more = chars_of(piece.as_str());
        let ghost a = secret@;
        let ghost b = more@;
        secret.append(&mut more);
        proof {
            assert forall|i: int| 0 <= i < secret@.len() implies is_hex(#[trigger] secret@[i]) by {
                if i < a.len() {
                    assert(is_hex(a[i]));
                } else {
                    assert(is_hex(b[i - a.len()]));
                }
            }
        }
    }
    let r = string_of_range(&secret, 0, chars);
    proof {
        assert forall|i: int| 0 <= i < r@.len() implies is_hex(#[trigger] r@[i]) by {
            assert(is_hex(secret@[i]));
        }
    }
    r
}

/// A user as the database holds them.
pub struct UserRow {
    pub id: i64,
    pub username: String,
    pub password: String,
    pub role: i64,
    pub agent_secret: String,
    pub reject_password: i64,
}

/// The user that a stored row tells of, where they sign in with a password and
/// gave the right one.
pub open spec fn is_signed_in(r: Option<ApiUser>, row: Option<UserRow>, right: bool) -> bool {
    match r {
        Some(user) => {
            &&& row matches Some(u)
            &&& u.reject_password == 0
            &&& right
            &&& user.id == convert::floored(u.id as int)
            &&& user.username == u.username
            &&& user.role == convert::floored(u.role as int) % 256
            &&& user.agent_secret == u.agent_secret
            &&& user.reject_password == false
        },
        None => row matches Some(u) ==> u.reject_password != 0 || !right,
    }
}

/// The user that a stored row tells of, if the password was right.
pub fn signed_in(row: Option<UserRow>, password_is_right: bool) -> (r: Option<ApiUser>)
    ensures
        is_signed_in(r, row, password_is_right),
{
    match row {
        None => None,
        Some(u) => {
            if u.reject_password != 0 || !password_is_right {
                return None;
            }
            Some(
                ApiUser {
                    id: i64_to_u64(u.id),
                    username: u.username,
                    role: (i64_to_u64(u.role) % 256) as u8,
                    agent_secret: u.agent_secret,
                    reject_password: false,
                },
            )
        },
    }
}

/// The user behind a name and a password: there is one where the name is known
/// (`row`), passwords are not switched off for it, and the password is right.
pub fn authenticate_user(row: Option<UserRow>, password: &str) -> (r: Option<ApiUser>)
    ensures
        is_signed_in(
            r,
            row,
            row matches Some(u) && password_matches(password@, u.password@),
        ),
{
    let right = match &row {
        Some(u) => u.reject_password == 0 && bcrypt_verify(password, u.password.as_str()),
        None => false,
    };
    signed_in(row, right)
}

/// Why a user could not be created or changed.
#[derive(Debug, Clone, Copy, PartialEq, Eq, Structural)]
pub enum UserError {
    EmptyUsername,
    ShortPassword,
    InvalidRole,
    IncorrectPassword,
    NoBindings,
    NotPermitted,
    EmptyProvider,
    EmptyOpenId,
    HashFailed,
}

/// The text of an error.
pub open spec fn user_error_text(e: UserError) -> Seq<char> {
    match e {
        UserError::EmptyUsername => "username can't be empty"@,
        UserError::ShortPassword => "password length must be greater than 6"@,
        UserError::InvalidRole => "invalid role"@,
        UserError::IncorrectPassword => "incorrect password"@,
        UserError::NoBindings => "you don't have any oauth2 bindings"@,
        UserError::NotPermitted => "operation not permitted"@,
        UserError::EmptyProvider => "provider is required"@,
        UserError::EmptyOpenId => "open_id is required"@,
        UserError::HashFailed => "failed to hash password"@,
    }
}

impl UserError {
    /// The text of the error.
    pub fn message(self) -> (r: &'static str)
        ensures
            r@ == user_error_text(self),
    {
        match self {
            UserError::EmptyUsername => "username can't be empty",
            UserError::ShortPassword => "password length must be greater than 6",
            UserError::InvalidRole => "invalid role",
            UserError::IncorrectPassword => "incorrect password",
            UserError::NoBindings => "you don't have any oauth2 bindings",
            UserError::NotPermitted => "operation not permitted",
            UserError::EmptyProvider => "provider is required",
            UserError::EmptyOpenId => "open_id is required",
            UserError::HashFailed => "failed to hash password",
        }
    }
}

/// A user to be stored.
pub struct NewUser {
    pub username: String,
    pub password: String,
    pub role: u8,
    pub agent_secret: String,
    pub reject_password: bool,
}

/// What speaks against a new user.
pub open spec fn new_user_error(
    username: Seq<char>,
    password: Seq<char>,
    role: u8,
) -> Option<UserError> {
    if username.len() == 0 {
        Some(UserError::EmptyUsername)
    } else if vstd::utf8::encode_utf8(password).len() < 6 {
        Some(UserError::ShortPassword)
    } else if role > 1 {
        Some(UserError::InvalidRole)
    } else {
        None
    }
}

/// A new user whose password has the hash `hash`, where it could be made.
pub fn user_with_hash(username: &str, hash: Option<String>, role: u8, agent_secret: String) -> (r:
    Result<NewUser, UserError>)
    ensures
        match hash {
            Some(h) => r matches Ok(user) && user.username@ == username@ && user.password == h
                && user.role == role && user.agent_secret == agent_secret && !user.reject_password,
            None => r == Err::<NewUser, UserError>(UserError::HashFailed),
        },
{
    match hash {
        Some(password) => Ok(
            NewUser {
                username: username.to_owned(),
                password,
                role,
                agent_secret,
                reject_password: false,
            },
        ),
        None => Err(UserError::HashFailed),
    }
}

/// Whether `user` has this name, this password and this role, a secret of their
/// own, and signs in with the password.
pub open spec fn is_made_of(
    user: NewUser,
    username: Seq<char>,
    password: Seq<char>,
    role: u8,
) -> bool {
    &&& user.username@ == username
    &&& password_matches(password, user.password@)
    &&& user.role == role
    &&& user.agent_secret@.len() == 32
    &&& all_hex(user.agent_secret@)
    &&& !user.reject_password
}

fn user_with_password(username: &str, password: &str, role: u8) -> (r: Result<NewUser, UserError>)
    ensures
        match r {
            Ok(user) => is_made_of(user, username@, password@, role),
            Err(e) => e == UserError::HashFailed,
        },
{
    let hash = bcrypt_hash(password);
    user_with_hash(username, hash, role, generate_secret())
}

/// A new user with a name, a password of six bytes at least, and one of the two
/// roles.
pub fn create_user(username: &str, password: &str, role: u8) -> (r: Result<NewUser, UserError>)
    ensures
        new_user_error(username@, password@, role) matches Some(e)
            ==> r == Err::<NewUser, UserError>(e),
        new_user_error(username@, password@, role) is None ==> match r {
            Ok(user) => is_made_of(user, username@, password@, role),
            Err(e) => e == UserError::HashFailed,
        },
{
    if username.is_empty() {
        return Err(UserError::EmptyUsername);
    }
    if password.as_bytes().len() < 6 {
        return Err(UserError::ShortPassword);
    }
    if role > 1 {
        return Err(UserError::InvalidRole);
    }
    user_with_password(username, password, role)
}

/// The first administrator, unless the name is taken: whoever has it keeps
/// their password.
pub fn ensure_admin(name_is_taken: bool, username: &str, password: &str) -> (r: Option<
    Result<NewUser, UserError>,
>)
    ensures
        r.is_none() == name_is_taken,
        r matches Some(Ok(user)) ==> is_made_of(user, username@, password@, 0),
        r matches Some(Err(e)) ==> e == UserError::HashFailed,
{
    if name_is_taken {
        return None;
    }
    Some(user_with_password(username, password, 0))
}

/// An administrator with a new password: it is set on the account of that name,
/// or on a new one.
pub fn reset_admin_password(username: &str, password: &str) -> (r: Result<NewUser, UserError>)
    ensures
        username@.len() == 0 ==> r == Err::<NewUser, UserError>(UserError::EmptyUsername),
        username@.len() > 0 ==> match r {
            Ok(user) => is_made_of(user, username@, password@, 0),
            Err(e) => e == UserError::HashFailed,
        },
{
    if username.is_empty() {
        return Err(UserError::EmptyUsername);
    }
    user_with_password(username, password, 0)
}

/// A changed profile, to be stored.
pub struct ProfileChange {
    pub username: String,
    pub password: String,
    pub reject_password: bool,
}

/// What speaks against the change of a profile.
pub open spec fn profile_error(
    stored_hash: Seq<char>,
    original_password: Seq<char>,
    reject_password: bool,
    bind_count: u64,
) -> Option<UserError> {
    if !password_matches(original_password, stored_hash) {
        Some(UserError::IncorrectPassword)
    } else if reject_password && bind_count == 0 {
        Some(UserError::NoBindings)
    } else {
        None
    }
}

/// What speaks against the change of a profile, by whether the old password was
/// right.
pub open spec fn profile_check(
    password_is_right: bool,
    reject_password: bool,
    bind_count: u64,
) -> Result<(), UserError> {
    if !password_is_right {
        Err(UserError::IncorrectPassword)
    } else if reject_password && bind_count == 0 {
        Err(UserError::NoBindings)
    } else {
        Ok(())
    }
}

/// What speaks against the change of a profile, by whether the old password was
/// right.
pub fn check_profile(password_is_right: bool, reject_password: bool, bind_count: u64) -> (r: Result<
    (),
    UserError,
>)
    ensures
        r == profile_check(password_is_right, reject_password, bind_count),
{
    if !password_is_right {
        return Err(UserError::IncorrectPassword);
    }
    if reject_password && bind_count == 0 {
        return Err(UserError::NoBindings);
    }
    Ok(())
}

/// A changed profile whose password has the hash `hash`, where it could be made.
pub fn profile_with_hash(username: &str, hash: Option<String>, reject_password: bool) -> (r: Result<
    ProfileChange,
    UserError,
>)
    ensures
        match hash {
            Some(h) => r matches Ok(change) && change.username@ == username@ && change.password == h
                && change.reject_password == reject_password,
            None => r == Err::<ProfileChange, UserError>(UserError::HashFailed),
        },
{
    match hash {
        Some(password) => Ok(
            ProfileChange { username: username.to_owned(), password, reject_password },
        ),
        None => Err(UserError::HashFailed),
    }
}

/// The change of a profile: the old password has to be right, and passwords can
/// only be switched off by who has another way to sign in.
pub fn update_profile(
    stored_hash: &str,
    original_password: &str,
    new_username: &str,
    new_password: &str,
    reject_password: bool,
    bind_count: u64,
) -> (r: Result<ProfileChange, UserError>)
    ensures
        profile_error(stored_hash@, original_password@, reject_password, bind_count) matches Some(e)
            ==> r == Err::<ProfileChange, UserError>(e),
        profile_error(stored_hash@, original_password@, reject_password, bind_count) is None
            ==> match r {
            Ok(change) => {
                &&& change.username@ == new_username@
                &&& password_matches(new_password@, change.password@)
                &&& change.reject_password == reject_password
            },
            Err(e) => e == UserError::HashFailed,
        },
{
    let right = bcrypt_verify(original_password, stored_hash);
    match check_profile(right, reject_password, bind_count) {
        Ok(_) => {
            let hash = bcrypt_hash(new_password);
            profile_with_hash(new_username, hash, reject_password)
        },
        Err(e) => Err(e),
    }
}

/// The name of a provider as it is stored.
pub open spec fn provider_key(provider: Seq<char>) -> Seq<char> {
    text::lowered(text::trimmed(provider))
}

/// The name of a provider as it is stored.
pub fn normalize_provider(provider: &str) -> (r: String)
    ensures
        r@ == provider_key(provider@),
{
    let t = trim(provider);
    to_ascii_lowercase(t.as_str())
}

/// The provider and the identity to bind to a user, or why they cannot be bound.
pub open spec fn binding(provider: Seq<char>, open_id: Seq<char>) -> Result<
    (Seq<char>, Seq<char>),
    UserError,
> {
    if text::trimmed(provider).len() == 0 {
        Err(UserError::EmptyProvider)
    } else if text::trimmed(open_id).len() == 0 {
        Err(UserError::EmptyOpenId)
    } else {
        Ok((provider_key(provider), text::trimmed(open_id)))
    }
}

/// The provider and the identity to bind to a user.
pub fn bind_oauth2(provider: &str, open_id: &str) -> (r: Result<(String, String), UserError>)
    ensures
        match r {
            Ok(b) => binding(provider@, open_id@) == Ok::<(Seq<char>, Seq<char>), UserError>(
                (b.0@, b.1@),
            ),
            Err(e) => binding(provider@, open_id@) == Err::<(Seq<char>, Seq<char>), UserError>(e),
        },
{
    let p = trim(provider);
    if p.as_str().is_empty() {
        return Err(UserError::EmptyProvider);
    }
    let id = trim(open_id);
    if id.as_str().is_empty() {
        return Err(UserError::EmptyOpenId);
    }
    Ok((to_ascii_lowercase(p.as_str()), id))
}

/// Whether a bound identity can be taken from a user.
pub open spec fn unbinding(reject_password: bool, bind_count: u64) -> Result<(), UserError> {
    if reject_password && bind_count < 2 {
        Err(UserError::NotPermitted)
    } else {
        Ok(())
    }
}

/// Whether a bound identity can be taken from a user: not the last one of a
/// user for whom passwords are switched off.
pub fn unbind_oauth2(reject_password: bool, bind_count: u64) -> (r: Result<(), UserError>)
    ensures
        r == unbinding(reject_password, bind_count),
{
    if reject_password && bind_count < 2 {
        Err(UserError::NotPermitted)
    } else {
        Ok(())
    }
}

/// Whether a user can sign in: by a password, or by a bound identity.
pub open spec fn can_sign_in(reject_password: bool, bind_count: int) -> bool {
    !reject_password || bind_count >= 1
}

/// There is always a way to sign in: whatever change of the profile is allowed
/// leaves one, and so does taking any bound identity that may be taken.
pub proof fn there_is_always_a_way_to_sign_in(
    stored_hash: Seq<char>,
    original_password: Seq<char>,
    reject_before: bool,
    reject_after: bool,
    bind_count: u64,
)
    requires
        can_sign_in(reject_before, bind_count as int),
    ensures
        profile_error(stored_hash, original_password, reject_after, bind_count) is None
            ==> can_sign_in(reject_after, bind_count as int),
        profile_check(true, reject_after, bind_count) is Ok ==> can_sign_in(
            reject_after,
            bind_count as int,
        ),
        unbinding(reject_before, bind_count) is Ok ==> can_sign_in(reject_before, bind_count - 1),
{
}

/// Whether a user is an administrator: the dashboard itself is, and who has
/// the role 0.
pub open spec fn is_admin(user_id: u64, role: Option<i64>) -> bool {
    user_id == 0 || role == Some(0i64)
}

/// Whether a user is an administrator.
pub fn user_is_admin(user_id: u64, role: Option<i64>) -> (r: bool)
    ensures
        r == is_admin(user_id, role),
{
    if user_id == 0 {
        return true;
    }
    match role {
        Some(n) => n == 0,
        None => false,
    }
}

/// Nothing that leaves a way to sign in is refused: a profile may be changed with
/// the right password, unless passwords are switched off without another way, and
/// a bound identity may be taken unless it is the only way.
pub proof fn only_the_last_way_is_kept(
    stored_hash: Seq<char>,
    original_password: Seq<char>,
    reject_password: bool,
    bind_count: u64,
)
    ensures
        password_matches(original_password, stored_hash) && can_sign_in(
            reject_password,
            bind_count as int,
        ) ==> profile_error(stored_hash, original_password, reject_password, bind_count) is None,
        !password_matches(original_password, stored_hash) ==> profile_error(
            stored_hash,
            original_password,
            reject_password,
            bind_count,
        ) == Some(UserError::IncorrectPassword),
        can_sign_in(reject_password, bind_count as int) ==> profile_check(
            true,
            reject_password,
            bind_count,
        ) is Ok,
        profile_check(false, reject_password, bind_count) == Err::<(), UserError>(
            UserError::IncorrectPassword,
        ),
        can_sign_in(reject_password, bind_count - 1) ==> unbinding(reject_password, bind_count)
            is Ok,
{
}

/// A user signs in exactly where they are known, have not switched off passwords
/// and gave the right one; and they are then who the row tells of.
pub proof fn signing_in_takes_the_right_password(
    user: Option<ApiUser>,
    row: UserRow,
    right: bool,
)
    requires
        is_signed_in(user, Some(row), right),
        0 <= row.id,
        0 <= row.role <= 255,
    ensures
        user is Some <==> right && row.reject_password == 0,
        user matches Some(u) ==> u.id == row.id && u.username == row.username && u.role == row.role
            && u.agent_secret == row.agent_secret,
        !is_signed_in(Some(user->0), None, right),
{
}

/// A new user needs a name, a password of at least six bytes and one of the roles 0
/// and 1, and nothing else; the first that is missing is told.
pub proof fn new_users_need_a_name_and_a_password(
    username: Seq<char>,
    password: Seq<char>,
    role: u8,
)
    ensures
        new_user_error(username, password, role) is None <==> username.len() >= 1
            && vstd::utf8::encode_utf8(password).len() >= 6 && (role == 0 || role == 1),
        new_user_error(seq![], password, role) == Some(UserError::EmptyUsername),
        username.len() >= 1 && vstd::utf8::encode_utf8(password).len() <= 5 ==> new_user_error(
            username,
            password,
            role,
        ) == Some(UserError::ShortPassword),
        new_user_error(username, password, role) == Some(UserError::InvalidRole) ==> role >= 2,
{
}

/// Number 0, which is the dashboard itself, is an administrator, and a user is one
/// exactly where their role is 0; one who is not known is none.
pub proof fn administrators_have_role_zero(user_id: u64, role: i64)
    requires
        user_id != 0,
    ensures
        is_admin(0, None),
        is_admin(0, Some(role)),
        is_admin(user_id, Some(role)) <==> role == 0,
        !is_admin(user_id, None),
{
}

/// An identity is bound under the provider's name in small letters; neither may be blank,
/// and white space around them does not count.
pub proof fn identities_are_bound_by_provider(provider: Seq<char>, open_id: Seq<char>)
    ensures
        binding(provider, open_id) is Ok <==> text::trimmed(provider).len() > 0 && text::trimmed(
            open_id,
        ).len() > 0,
        binding(provider, open_id) matches Ok(b) ==> b.0 == text::lowered(text::trimmed(provider))
            && b.1 == text::trimmed(open_id),
        text::trimmed(provider).len() == 0 ==> binding(provider, open_id) == Err::<
            (Seq<char>, Seq<char>),
            UserError,
        >(UserError::EmptyProvider),
{
}

} // verus!
