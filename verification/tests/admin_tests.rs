use auth_core::account::AccountStore;
use auth_core::admin::{AdminLoginError, AdminService, AdminValidation, ADMIN_EMAIL};
use auth_core::claims::Role;
use auth_core::schema::AdminLoginSchema;
use auth_core::token::JwtService;

fn secret() -> Vec<u8> {
    b"admin-secret".to_vec()
}

#[test]
fn initialize_admin_is_idempotent() {
    let mut store = AccountStore::new();
    AdminService::initialize_admin(&mut store, 1_700_000_000).unwrap();
    let first = store.find_by_email(ADMIN_EMAIL).unwrap();
    assert_eq!(first.role, Role::Admin);
    let first_hash = first.password_hash.clone();

    AdminService::initialize_admin(&mut store, 1_700_000_100).unwrap();
    let second = store.find_by_email(ADMIN_EMAIL).unwrap();
    assert_eq!(second.password_hash, first_hash);
}

#[test]
fn admin_login_mints_an_admin_token() {
    let mut store = AccountStore::new();
    AdminService::initialize_admin(&mut store, 1_700_000_000).unwrap();
    let jwt = JwtService::new(secret());
    let data = AdminLoginSchema {
        email: ADMIN_EMAIL.to_string(),
        password: "admin123456".to_string(),
    };
    let token = AdminService::login(&store, &jwt, &data).unwrap();
    let claims = jwt.verify_token(&token).unwrap();
    assert_eq!(claims.role, Role::Admin);
}

#[test]
fn admin_login_rejects_wrong_password_and_unknown_email() {
    let mut store = AccountStore::new();
    AdminService::initialize_admin(&mut store, 1_700_000_000).unwrap();
    let jwt = JwtService::new(secret());

    let wrong = AdminLoginSchema {
        email: ADMIN_EMAIL.to_string(),
        password: "not-the-password".to_string(),
    };
    let e = AdminService::login(&store, &jwt, &wrong).unwrap_err();
    assert_eq!(e, AdminLoginError::InvalidCredentials);
    assert_eq!(e.message(), "Invalid email or password");

    let unknown = AdminLoginSchema {
        email: "other@example.com".to_string(),
        password: "admin123456".to_string(),
    };
    assert_eq!(
        AdminService::login(&store, &jwt, &unknown).unwrap_err(),
        AdminLoginError::InvalidCredentials
    );
}

#[test]
fn admin_login_validates_input_first() {
    assert!(AdminService::validate_login(&AdminLoginSchema {
        email: "not an email".to_string(),
        password: "admin123456".to_string(),
    })
    .is_err());
    assert!(AdminService::validate_login(&AdminLoginSchema {
        email: ADMIN_EMAIL.to_string(),
        password: "five5".to_string(),
    })
    .is_err());
    assert!(AdminService::validate_login(&AdminLoginSchema {
        email: ADMIN_EMAIL.to_string(),
        password: "sixsix".to_string(),
    })
    .is_ok());
}
