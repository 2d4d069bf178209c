//! Authentication: the claims a token carries, reading the bearer token of a
//! request, the admin check, and the decisions of a login.

use vstd::prelude::*;
use crate::password::{password_matches, verify_password};
use crate::users::UserModel;

verus! {

/// What an access token says of its holder.
pub struct Claims {
    pub sub: String,
    pub id: i32,
    pub role: String,
    pub exp: usize,
}

/// The claims of a request whose token was checked.
pub struct RequireAuth(pub Claims);

/// The claims of a request whose token was checked and names the admin role.
pub struct RequireAdmin(pub Claims);

/// How long a token stays valid, in seconds (24 hours).
pub const TOKEN_LIFETIME_SECS: i64 = 86400;

/// The claims of a token issued at Unix time `now` to user `user_id`.
pub open spec fn claims_for(c: Claims, user_id: i32, email: Seq<char>, role: Seq<char>, now: i64) -> bool {
    &&& c.sub@ == email
    &&& c.id == user_id
    &&& c.role@ == role
    &&& c.exp == (now + TOKEN_LIFETIME_SECS) as usize
}

/// The claims of a token issued at Unix time `now`: it expires 24 hours later.
pub fn claims_at(user_id: i32, email: &str, role: &str, now: i64) -> (r: Claims)
    requires
        now <= i64::MAX - TOKEN_LIFETIME_SECS,
    ensures
        claims_for(r, user_id, email@, role@, now),
{
    let expiration = now + TOKEN_LIFETIME_SECS;
    Claims { sub: email.to_owned(), id: user_id, role: role.to_owned(), exp: expiration as usize }
}

/// Calls `chrono::Utc::now().timestamp()`. The time is not known in advance;
/// the source shows it is not before the Unix epoch and lies in chrono's
/// range (years up to 262142), so below 9e12 seconds.
#[verifier::external_body]
fn current_unix_time() -> (r: i64)
    ensures
        0 <= r < 9_000_000_000_000,
{
    chrono::Utc::now().timestamp()
}

/// The claims of a token issued now to user `user_id`; what `exp` holds
/// depends on the clock.
pub fn create_claims(user_id: i32, email: &str, role: &str) -> (r: Claims)
    ensures
        r.sub@ == email@,
        r.id == user_id,
        r.role@ == role@,
        exists|now: i64| 0 <= now < 9_000_000_000_000 && #[trigger] claims_for(r, user_id, email@, role@, now),
{
    let now = current_unix_time();
    let c = claims_at(user_id, email, role, now);
    assert(claims_for(c, user_id, email@, role@, now));
    c
}

/// The scheme word that opens an `Authorization` header.
pub open spec fn bearer_prefix() -> Seq<char> {
    seq!['B', 'e', 'a', 'r', 'e', 'r', ' ']
}

/// The token of an `Authorization` header value: what follows "Bearer ",
/// when the value starts with it.
pub open spec fn bearer_of(header: Seq<char>) -> Option<Seq<char>> {
    if header.len() >= 7 && header.take(7) == bearer_prefix() {
        Some(header.skip(7))
    } else {
        None
    }
}

/// The token of a request's `Authorization` header (`None` when the header is
/// missing, not text, or not a bearer token).
pub fn bearer_token(header: Option<&str>) -> (r: Option<String>)
    ensures
        match header {
            Some(h) => match r {
                Some(t) => bearer_of(h@) == Some(t@),
                None => bearer_of(h@) is None,
            },
            None => r is None,
        },
{
    match header {
        None => None,
        Some(h) => {
            let n = h.unicode_len();
            if n < 7 {
                return None;
            }
            let head = h.substring_char(0, 7);
            let prefix = "Bearer ";
            proof {
                reveal_strlit("Bearer ");
                assert(prefix@ =~= bearer_prefix());
                assert(h@.take(7) =~= head@);
            }
            if crate::text::same_text(head, prefix) {
                let t = h.substring_char(7, n).to_owned();
                assert(h@.skip(7) =~= t@);
                Some(t)
            } else {
                None
            }
        },
    }
}

/// Reading back a bearer header gives the token that was written into it:
/// the token of "Bearer " followed by `t` is `t`.
pub proof fn bearer_round_trip(t: Seq<char>)
    ensures
        bearer_of(bearer_prefix() + t) == Some(t),
{
    let h = bearer_prefix() + t;
    assert(h.take(7) =~= bearer_prefix());
    assert(h.skip(7) =~= t);
}

/// Why a request was refused by the authentication checks.
pub enum AuthRejection {
    MissingToken,
    InvalidToken,
    NotAdmin,
}

impl AuthRejection {
    /// The HTTP status of the refusal.
    pub fn status_code(&self) -> (r: u16)
        ensures
            r == match *self {
                AuthRejection::MissingToken => 401u16,
                AuthRejection::InvalidToken => 401u16,
                AuthRejection::NotAdmin => 403u16,
            },
    {
        match self {
            AuthRejection::MissingToken => 401,
            AuthRejection::InvalidToken => 401,
            AuthRejection::NotAdmin => 403,
        }
    }

    /// The message of the refusal.
    pub fn message(&self) -> (r: String)
        ensures
            r@ == match *self {
                AuthRejection::MissingToken => "Token manquant ou mal formaté"@,
                AuthRejection::InvalidToken => "Token expiré ou invalide"@,
                AuthRejection::NotAdmin => "Accès refusé. Droits administrateur requis."@,
            },
    {
        match self {
            AuthRejection::MissingToken => "Token manquant ou mal formaté".to_owned(),
            AuthRejection::InvalidToken => "Token expiré ou invalide".to_owned(),
            AuthRejection::NotAdmin => "Accès refusé. Droits administrateur requis.".to_owned(),
        }
    }
}

/// The bearer token of a request, or the refusal when there is none.
pub fn require_token(header: Option<&str>) -> (r: Result<String, AuthRejection>)
    ensures
        match r {
            Ok(t) => header matches Some(h) && bearer_of(h@) == Some(t@),
            Err(e) => e == AuthRejection::MissingToken && (header is None || bearer_of(header->0@) is None),
        },
{
    match bearer_token(header) {
        Some(t) => Ok(t),
        None => Err(AuthRejection::MissingToken),
    }
}

/// The admin role's name.
pub open spec fn admin_role() -> Seq<char> {
    seq!['a', 'd', 'm', 'i', 'n']
}

/// Lets a checked request through to an admin route only when its role is
/// exactly "admin".
pub fn require_admin(auth: RequireAuth) -> (r: Result<RequireAdmin, AuthRejection>)
    ensures
        match r {
            Ok(a) => a.0 == auth.0 && auth.0.role@ == admin_role(),
            Err(e) => e == AuthRejection::NotAdmin && auth.0.role@ != admin_role(),
        },
{
    let RequireAuth(claims) = auth;
    let admin = "admin";
    proof {
        reveal_strlit("admin");
        assert(admin@ =~= admin_role());
    }
    if crate::text::same_text(claims.role.as_str(), admin) {
        Ok(RequireAdmin(claims))
    } else {
        Err(AuthRejection::NotAdmin)
    }
}

/// Why a login was refused.
pub enum LoginError {
    Database,
    InvalidCredentials,
    NoRole,
    TokenGeneration,
}

impl LoginError {
    /// The HTTP status that answers the refusal, as the API documents it:
    /// 400 for invalid credentials, 500 for a failure on the server's side
    /// (the store, a missing role, the token).
    pub fn status_code(&self) -> (r: u16)
        ensures
            r == match *self {
                LoginError::InvalidCredentials => 400u16,
                _ => 500u16,
            },
    {
        match self {
            LoginError::InvalidCredentials => 400,
            _ => 500,
        }
    }

    /// The message of the refusal.
    pub fn message(&self) -> (r: String)
        ensures
            r@ == match *self {
                LoginError::Database => "Erreur BDD"@,
                LoginError::InvalidCredentials => "Identifiants invalides"@,
                LoginError::NoRole => "Aucun rôle assigné à cet utilisateur"@,
                LoginError::TokenGeneration => "Erreur lors de la génération du token"@,
            },
    {
        match self {
            LoginError::Database => "Erreur BDD".to_owned(),
            LoginError::InvalidCredentials => "Identifiants invalides".to_owned(),
            LoginError::NoRole => "Aucun rôle assigné à cet utilisateur".to_owned(),
            LoginError::TokenGeneration => "Erreur lors de la génération du token".to_owned(),
        }
    }
}

/// The account a login opens: the stored account of that e-mail, when the
/// password matches its hash. An unknown e-mail and a wrong password are
/// refused alike.
pub fn check_credentials(user: Option<UserModel>, password: &str) -> (r: Result<UserModel, LoginError>)
    ensures
        match r {
            Ok(u) => user == Some(u) && password_matches(password@, u.password@),
            Err(e) => e == LoginError::InvalidCredentials && (user is None || !password_matches(password@, user->0.password@)),
        },
{
    match user {
        None => Err(LoginError::InvalidCredentials),
        Some(u) => if verify_password(password, u.password.as_str()) {
            Ok(u)
        } else {
            Err(LoginError::InvalidCredentials)
        },
    }
}

/// The claims of the token a successful login issues: the account's id and
/// e-mail with the name of its role, expiring 24 hours after the moment of
/// issue; or the refusal when the account has no role.
pub fn login_claims(user: &UserModel, role_name: Option<String>) -> (r: Result<Claims, LoginError>)
    ensures
        match r {
            Ok(c) => role_name matches Some(n) && c.sub@ == user.email@ && c.id == user.id && c.role@ == n@
                && exists|now: i64| 0 <= now < 9_000_000_000_000 && #[trigger] claims_for(c, user.id, user.email@, n@, now),
            Err(e) => e == LoginError::NoRole && role_name is None,
        },
{
    match role_name {
        None => Err(LoginError::NoRole),
        Some(n) => Ok(create_claims(user.id, user.email.as_str(), n.as_str())),
    }
}

} // verus!
