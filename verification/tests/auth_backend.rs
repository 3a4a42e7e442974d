//! The reference authenticator backend: registration, login, and lookup on
//! an in-memory store.
use dalang::auth::{
    Authenticator, GetUser, Login, LoginFailure, LookupFailure, MemoryAuthenticator, Register,
    RegisterFailure,
};

#[test]
fn simple_auth_test_0() {
    let mut auth = MemoryAuthenticator::new();

    let register_uid = auth
        .register(Register {
            username: "loremipsum".to_string(),
            password: "1234567890".to_string(),
        })
        .expect("failed to register");

    let login_uid = auth
        .login(Login {
            username: "loremipsum".to_string(),
            password: "1234567890".to_string(),
        })
        .expect("failed to login");

    assert_eq!(register_uid, login_uid);

    let username = auth
        .get_user(GetUser { uid: register_uid })
        .expect("failed to retrieve username");

    assert_eq!(username, "loremipsum".to_string());
}

#[test]
fn duplicate_username_is_refused() {
    let mut auth = MemoryAuthenticator::new();

    let first = auth
        .register(Register {
            username: "alice".to_string(),
            password: "pw1".to_string(),
        })
        .expect("first registration");

    let second = auth.register(Register {
        username: "alice".to_string(),
        password: "pw2".to_string(),
    });
    assert_eq!(second, Err(RegisterFailure::UsernameTaken));

    // no second record was created; the first id still answers
    assert_eq!(auth.records.len(), 1);
    let name = auth.get_user(GetUser { uid: first }).expect("lookup");
    assert_eq!(name, "alice".to_string());
}

#[test]
fn login_returns_the_registered_id() {
    let mut auth = MemoryAuthenticator::new();

    let uid = auth
        .register(Register {
            username: "bob".to_string(),
            password: "secret".to_string(),
        })
        .expect("registration");

    let login_uid = auth
        .login(Login {
            username: "bob".to_string(),
            password: "secret".to_string(),
        })
        .expect("login");
    assert_eq!(uid, login_uid);

    // the backend distinguishes the two causes internally ...
    let wrong = auth.login(Login {
        username: "bob".to_string(),
        password: "wrong".to_string(),
    });
    assert_eq!(wrong, Err(LoginFailure::WrongPassword));
    let missing = auth.login(Login {
        username: "carol".to_string(),
        password: "secret".to_string(),
    });
    assert_eq!(missing, Err(LoginFailure::NotFound));
}

#[test]
fn unknown_id_lookup_is_refused() {
    let mut auth = MemoryAuthenticator::new();
    assert_eq!(
        auth.get_user(GetUser { uid: 42 }),
        Err(LookupFailure::NotFound)
    );
}
