use backend::auth::{
    bearer_token, check_credentials, claims_at, create_claims, login_claims, require_admin,
    require_token, AuthRejection, Claims, LoginError, RequireAuth,
};
use backend::dto::{own_comment_response, user_profile, user_summary};
use backend::comments::Model;
use backend::email::{describe_email_errors, valider_extension_email, LoginDto, RegisterDto};
use backend::password::{hash_password, verify_password};
use backend::users::UserModel;

fn claims(role: &str) -> Claims {
    Claims { sub: "a@b.fr".into(), id: 3, role: role.into(), exp: 0 }
}

#[test]
fn bearer_header_parsing() {
    assert_eq!(bearer_token(Some("Bearer abc.def")), Some("abc.def".to_string()));
    assert_eq!(bearer_token(Some("Bearer ")), Some(String::new()));
    assert_eq!(bearer_token(Some("bearer abc")), None);
    assert_eq!(bearer_token(Some("Basic xyz")), None);
    assert_eq!(bearer_token(Some("Bear")), None);
    assert_eq!(bearer_token(None), None);
}

#[test]
fn bearer_round_trip_example() {
    let t = "eyJ.hbGc.iOi";
    let header = format!("Bearer {}", t);
    assert_eq!(bearer_token(Some(&header)), Some(t.to_string()));
}

#[test]
fn missing_token_is_refused_with_401() {
    match require_token(None) {
        Err(e) => {
            assert_eq!(e.status_code(), 401);
            assert_eq!(e.message(), "Token manquant ou mal formaté");
        }
        Ok(_) => panic!(),
    }
    assert_eq!(require_token(Some("Bearer t")).ok(), Some("t".to_string()));
    assert_eq!(AuthRejection::InvalidToken.status_code(), 401);
}

#[test]
fn only_admin_role_passes_admin_check() {
    assert!(require_admin(RequireAuth(claims("admin"))).is_ok());
    match require_admin(RequireAuth(claims("viewer"))) {
        Err(e) => {
            assert_eq!(e.status_code(), 403);
            assert_eq!(e.message(), "Accès refusé. Droits administrateur requis.");
        }
        Ok(_) => panic!(),
    }
    assert!(require_admin(RequireAuth(claims("Admin"))).is_err());
}

#[test]
fn claims_expire_a_day_after_issue() {
    let c = claims_at(5, "u@x.fr", "viewer", 1_700_000_000);
    assert_eq!((c.sub.as_str(), c.id, c.role.as_str(), c.exp), ("u@x.fr", 5, "viewer", 1_700_086_400));
}

#[test]
fn claims_issued_now() {
    let before = std::time::SystemTime::now()
        .duration_since(std::time::UNIX_EPOCH)
        .unwrap()
        .as_secs() as usize;
    let c = create_claims(1, "a@b.fr", "admin");
    assert!(c.exp >= before + 86_400 && c.exp <= before + 86_400 + 60);
    assert_eq!(c.role, "admin");
}

#[test]
fn password_hash_round_trip() {
    let h = hash_password("s3cret!").unwrap();
    assert!(h.starts_with("$argon2"));
    assert!(verify_password("s3cret!", &h));
    assert!(!verify_password("wrong", &h));
    assert!(!verify_password("s3cret!", "not a phc string"));
    let h2 = hash_password("s3cret!").unwrap();
    assert_ne!(h, h2);
}

#[test]
fn text_that_is_not_a_hash_matches_no_password() {
    assert!(!verify_password("plain", "plain"));
    assert!(!verify_password("", ""));
    assert!(!verify_password("x", "argon2$v=19"));
}

#[test]
fn login_decisions() {
    let h = hash_password("pw").unwrap();
    let user = UserModel { id: 4, email: "u@x.fr".into(), password: h, role_id: 2 };
    let copy = UserModel { id: 4, email: "u@x.fr".into(), password: user.password.clone(), role_id: 2 };
    assert!(check_credentials(Some(copy), "pw").is_ok());
    assert!(matches!(check_credentials(Some(user), "nope"), Err(LoginError::InvalidCredentials)));
    assert!(matches!(check_credentials(None, "pw"), Err(LoginError::InvalidCredentials)));
    let u = UserModel { id: 4, email: "u@x.fr".into(), password: String::new(), role_id: 2 };
    assert!(matches!(login_claims(&u, None), Err(LoginError::NoRole)));
    let c = login_claims(&u, Some("viewer".into())).ok().unwrap();
    assert_eq!((c.id, c.sub.as_str(), c.role.as_str()), (4, "u@x.fr", "viewer"));
    assert_eq!(LoginError::InvalidCredentials.message(), "Identifiants invalides");
    assert_eq!(LoginError::NoRole.message(), "Aucun rôle assigné à cet utilisateur");
}

#[test]
fn email_extension_rule() {
    assert!(valider_extension_email("a@b.fr").is_ok());
    assert!(valider_extension_email("a@b.c.com").is_ok());
    assert!(valider_extension_email("a@localhost").is_err());
    assert!(valider_extension_email("a@b.fr.").is_err());
    assert!(valider_extension_email("no-at.fr").is_err());
    assert!(valider_extension_email("a@b@c.fr").is_err());
    assert!(valider_extension_email("a@.@").is_err());
    assert!(valider_extension_email("a@b.c@x").is_ok());
    let e = valider_extension_email("x@y").unwrap_err();
    assert_eq!(e.code, "extension_invalide");
    assert_eq!(e.message, "L'email doit contenir un domaine valide (ex: .com, .fr)");
}

#[test]
fn registration_validation_lists_failed_rules() {
    let ok = RegisterDto { email: "jean@exemple.fr".into(), password: "x".into(), role_id: 2 };
    assert!(ok.validate().is_ok());
    let no_ext = RegisterDto { email: "jean@localhost".into(), password: "x".into(), role_id: 2 };
    let codes: Vec<String> = no_ext.validate().unwrap_err().into_iter().map(|e| e.code).collect();
    assert_eq!(codes, vec!["extension_invalide"]);
    let bad = LoginDto { email: "pas un email".into(), password: "x".into() };
    let codes: Vec<String> = bad.validate().unwrap_err().into_iter().map(|e| e.code).collect();
    assert_eq!(codes, vec!["email", "extension_invalide"]);
    let dot = LoginDto { email: "a@b.com.".into(), password: "x".into() };
    let codes: Vec<String> = dot.validate().unwrap_err().into_iter().map(|e| e.code).collect();
    assert_eq!(codes, vec!["email", "extension_invalide"]);
}

#[test]
fn profiles_and_responses() {
    let u = UserModel { id: 4, email: "u@x.fr".into(), password: String::new(), role_id: 2 };
    let p = user_profile(&u, "viewer");
    assert_eq!((p.id, p.email.as_str(), p.role.id, p.role.role.as_str()), (4, "u@x.fr", 2, "viewer"));
    let s = user_summary(&u);
    assert_eq!((s.id, s.email.as_str()), (4, "u@x.fr"));
    let c = Model {
        id: 8,
        content: "hi".into(),
        user_id: 4,
        book_id: "bk".into(),
        parent_id: None,
        created_at: "t".into(),
    };
    let r = own_comment_response(&c, 4, "u@x.fr");
    assert_eq!((r.id, r.user.id, r.user.email.as_str(), r.book_id.as_str()), (8, 4, "u@x.fr", "bk"));
}

#[test]
fn email_refusals_are_described_like_the_validator() {
    let bad = LoginDto { email: "pas un email".into(), password: "x".into() };
    let errors = bad.validate().unwrap_err();
    assert_eq!(
        describe_email_errors(&errors),
        "email: Format d'email invalide, L'email doit contenir un domaine valide (ex: .com, .fr)"
    );
    let no_ext = RegisterDto { email: "jean@localhost".into(), password: "x".into(), role_id: 2 };
    assert_eq!(
        describe_email_errors(&no_ext.validate().unwrap_err()),
        "email: L'email doit contenir un domaine valide (ex: .com, .fr)"
    );
}
