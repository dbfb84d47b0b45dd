use openmeet_core::errors::RepoError;
use openmeet_core::users::create_user;
use openmeet_core::users::delete_user;
use openmeet_core::users::get_all_users;
use openmeet_core::users::get_user_by_email;
use openmeet_core::users::get_user_by_id;
use openmeet_core::users::login;
use openmeet_core::users::User;
use openmeet_core::users::UserStore;

fn make_described_user(username: &str, email: &str, password: &str) -> User {
    User {
        user_id: 0,
        username: username.to_string(),
        email: email.to_string(),
        password_hash: Some(password.to_string()),
        description: Some("Some long description".to_string()),
        interests: vec!["hiking".to_string(), "reading".to_string()],
        created_at: 0,
        updated_at: 0,
        last_login: 0,
    }
}

#[test]
fn users_test_login_success() {
    let mut store = UserStore::new();
    let user = make_described_user("testuser", "testuserLOGIN_SUCCESS@example.com", "password123");

    let created_user = create_user(&mut store, user);
    assert!(created_user.is_ok());

    let result = login(&store, "testuserLOGIN_SUCCESS@example.com", "password123");
    let token = result.unwrap();
    assert_eq!(token.len() > 0, true);
}

#[test]
fn users_test_login_credentials_create_user() {
    let mut store = UserStore::new();
    let pre_cleanup = delete_user(&mut store, 0, "testuserCREATE_LOGIN@example.com");
    assert!(pre_cleanup.is_err());

    let user = make_described_user("testuser", "testuserCREATE_LOGIN@example.com", "password123");
    let create_result = create_user(&mut store, user);
    assert!(create_result.is_ok());
    let created = create_result.unwrap();
    assert_eq!(created.description, Some("Some long description".to_string()));

    let login_result = login(&store, "testuserCREATE_LOGIN@example.com", "password123");
    assert!(login_result.is_ok());
    assert!(!login_result.unwrap().is_empty());
}

#[test]
fn users_test_login_second_layer() {
    let mut store = UserStore::new();
    for i in 0..5 {
        let email = format!("testuser{}@example.com", i);
        let password = format!("password{}", i);

        if let Some(user) = get_user_by_email(&store, email.as_str()) {
            let _ = delete_user(&mut store, user.user_id, &user.email.clone());
        }

        let user = make_described_user(&format!("testuser{}", i), &email, &password);
        let create_result = create_user(&mut store, user);
        assert!(create_result.is_ok());
        let created = create_result.unwrap();

        let login_result = login(&store, &email, &password);
        assert!(login_result.is_ok());
        assert!(!login_result.unwrap().is_empty(), "Token should be a string");

        let delete_result = delete_user(&mut store, created.user_id, &email);
        assert!(delete_result.is_ok());
    }
}

#[test]
fn users_test_login_failure_wrong_password() {
    let mut store = UserStore::new();
    let user = make_described_user("testuser", "testuser@example.com", "password123");
    let _ = create_user(&mut store, user);

    let result = login(&store, "testuser@example.com", "wrongpassword");
    assert!(result.is_err());
}

#[test]
fn users_test_login_failure_nonexistent_user() {
    let store = UserStore::new();
    let result = login(&store, "nonexistent@example.com", "password123");
    assert!(result.is_err());
}

#[test]
fn users_test_create_user_success() {
    let mut store = UserStore::new();
    let user = make_described_user("testuser", "testuserSUCCESS@example.com", "password123");

    let result = create_user(&mut store, user);
    let created_user = result.unwrap();
    assert_eq!(created_user.username, "testuser");
    assert_eq!(created_user.email, "testuserSUCCESS@example.com");
    assert_ne!(created_user.user_id, 0);
    assert_ne!(created_user.password_hash, Some("password123".to_string()));

    let listed = get_all_users(&store);
    assert_eq!(listed.len(), 1);
    assert_eq!(listed[0].user_id, created_user.user_id);
    assert_eq!(listed[0].interests, vec!["hiking".to_string(), "reading".to_string()]);
}

#[test]
fn users_test_create_user_duplicate_email() {
    let mut store = UserStore::new();
    let user = make_described_user("testuser", "testuserDUPLICATE@example.com", "password123");
    assert!(create_user(&mut store, user).is_ok());

    let duplicate_user =
        make_described_user("anotheruser", "testuserDUPLICATE@example.com", "password456");
    let result = create_user(&mut store, duplicate_user);
    assert!(result.is_err());
    assert_eq!(result.unwrap_err(), RepoError::EmailExists);
}

#[test]
fn users_test_create_user_invalid_email() {
    let mut store = UserStore::new();
    let user = make_described_user("testuser", "invalid-email", "password123");
    let result = create_user(&mut store, user);
    assert!(result.is_err());
}

#[test]
fn users_test_delete_user_success() {
    let mut store = UserStore::new();
    let random_email = "9f2c1e77aa@example.com".to_string();
    let user_sample = make_described_user(&random_email, &random_email, "password123");

    let create_result = create_user(&mut store, user_sample);
    assert!(create_result.is_ok());
    let user_id = create_result.unwrap().user_id;

    let delete_result = delete_user(&mut store, user_id, &random_email);
    assert!(delete_result.is_ok(), "User deletion should succeed");
    assert!(get_user_by_email(&store, &random_email).is_none());
    assert!(get_user_by_id(&store, user_id).is_none());
}

#[test]
fn users_test_get_user_by_email_success() {
    let mut store = UserStore::new();
    let user = make_described_user(
        "testuser",
        "testuserGET_USER_BY_EMAIL_SUCCESS@example.com",
        "password123",
    );

    let create_result = create_user(&mut store, user);
    assert!(create_result.is_ok());

    let result = get_user_by_email(&store, "testuserGET_USER_BY_EMAIL_SUCCESS@example.com");
    assert!(result.is_some());
    let retrieved = result.unwrap();
    assert_eq!(retrieved.email, "testuserGET_USER_BY_EMAIL_SUCCESS@example.com");
    assert_eq!(retrieved.description, Some("Some long description".to_string()));
}

#[test]
fn users_test_verify_password() {
    let password = "password123";
    let hashed_password = bcrypt::hash(password, bcrypt::DEFAULT_COST).unwrap();
    let hashed_password_2 = bcrypt::hash(password, bcrypt::DEFAULT_COST).unwrap();
    assert_ne!(hashed_password, hashed_password_2);
    assert!(bcrypt::verify(password, &hashed_password).unwrap());
    assert!(!bcrypt::verify("wrongpassword", &hashed_password_2).unwrap());
}
