use shop_orders::auth::{
    login, login_decision, AddUserRequest, LoginError, LoginRequest, LoginResponse, PasswordInput,
    UpdateUserRequest, User, UserWard,
};
use shop_orders::header::{bearer_token, is_white_space, parse_i32, parse_subject, token_room, HeaderError, SubjectError};
use shop_orders::auth::VerifyTokenData;

fn user(hash: &str) -> User {
    User {
        userid: 7,
        fullname: "Aye Aye".to_string(),
        username: "aye".to_string(),
        password: hash.to_string(),
        role: "Distributor".to_string(),
        created_at: 0,
        wards: vec![UserWard { ward_id: 1, ward_name: "North".to_string() }],
    }
}

fn attempt(password: &str) -> LoginRequest {
    LoginRequest { username: "aye".to_string(), password: password.to_string() }
}

#[test]
fn login_outcomes() {
    let hash = bcrypt::hash("hunter2", 4).unwrap();
    assert_eq!(login(&attempt("hunter2"), &Some(user(&hash))), Ok(()));
    assert_eq!(login(&attempt("hunter3"), &Some(user(&hash))), Err(LoginError::InvalidPassword));
    assert_eq!(login(&attempt("hunter2"), &None), Err(LoginError::InvalidUsername));
    assert_eq!(login(&attempt("hunter2"), &Some(user("plain"))), Err(LoginError::CorruptHash));
    assert_eq!(LoginError::InvalidPassword.message(), "Invalid password!");
    assert_eq!(LoginError::InvalidUsername.message(), "Invalid username!");
}

#[test]
fn login_decision_table() {
    assert_eq!(login_decision(false, Some(true)), Err(LoginError::InvalidUsername));
    assert_eq!(login_decision(true, Some(true)), Ok(()));
    assert_eq!(login_decision(true, Some(false)), Err(LoginError::InvalidPassword));
    assert_eq!(login_decision(true, None), Err(LoginError::CorruptHash));
}

#[test]
fn granted_response() {
    let r = LoginResponse::granted(&user("h"), "tok".to_string());
    assert_eq!(r.code, 200);
    assert_eq!(r.message, "Token generated successfully.");
    assert_eq!((r.token.as_str(), r.name.as_str(), r.role.as_str()), ("tok", "Aye Aye", "Distributor"));
}

#[test]
fn hashing_passwords() {
    let h = PasswordInput { password: "pw".to_string() }.hash().unwrap();
    assert!(bcrypt::verify("pw", &h.hashed_password).unwrap());
    let add = AddUserRequest {
        fullname: "A".to_string(),
        username: "a".to_string(),
        password: "pw".to_string(),
        role: "Admin".to_string(),
        ward_ids: vec![1, 2],
    };
    let h = add.password_hash().unwrap();
    assert_ne!(h, "pw");
    assert!(bcrypt::verify("pw", &h).unwrap());
    let stored = bcrypt::hash("old", 4).unwrap();
    let same = UpdateUserRequest {
        fullname: "A".to_string(),
        password: stored.clone(),
        role: "Admin".to_string(),
        ward_ids: vec![],
    };
    assert_eq!(same.password_hash(&stored), Some(stored.clone()));
    assert_eq!(same.password_hash(&stored), Some(stored.clone()));
    let changed = UpdateUserRequest { password: "new".to_string(), ..same };
    let h = changed.password_hash(&stored).unwrap();
    assert_ne!(h, stored);
    assert!(bcrypt::verify("new", &h).unwrap());
}

#[test]
fn bearer_header() {
    assert_eq!(bearer_token("Bearer abc.def").unwrap(), "abc.def");
    assert_eq!(bearer_token("  Bearer \t abc  ").unwrap(), "abc");
    assert_eq!(bearer_token("Bearer\u{3000}xyz").unwrap(), "xyz");
    assert_eq!(bearer_token("bearer abc"), Err(HeaderError::InvalidFormat));
    assert_eq!(bearer_token("Bearer"), Err(HeaderError::InvalidFormat));
    assert_eq!(bearer_token("Bearer a b"), Err(HeaderError::InvalidFormat));
    assert_eq!(bearer_token(""), Err(HeaderError::InvalidFormat));
}

#[test]
fn white_space_matches_std() {
    for u in 0u32..0x3100 {
        if let Some(c) = char::from_u32(u) {
            assert_eq!(is_white_space(c), c.is_whitespace(), "{u:#x}");
        }
    }
    assert!(!is_white_space('\u{feff}'));
}

#[test]
fn subjects() {
    let s = parse_subject("42,Distributor,x").unwrap();
    assert_eq!((s.user_id, s.role.as_str()), (42, "Distributor"));
    let s = parse_subject("-7,,").unwrap();
    assert_eq!((s.user_id, s.role.as_str()), (-7, ""));
    assert_eq!(parse_subject("42,Admin").err(), Some(SubjectError::InvalidFormat));
    assert_eq!(parse_subject("42,Admin,x,y").err(), Some(SubjectError::InvalidFormat));
    assert_eq!(parse_subject("4 2,Admin,x").err(), Some(SubjectError::InvalidUserId));
    assert_eq!(parse_subject("2147483648,Admin,x").err(), Some(SubjectError::InvalidUserId));
    assert_eq!(parse_subject(",Admin,x").err(), Some(SubjectError::InvalidUserId));
    assert_eq!(token_room("+15,Admin,x"), Ok(VerifyTokenData { room: 15 }));
    assert_eq!(token_room("abc"), Err(SubjectError::InvalidFormat));
}

#[test]
fn decimal_parse_matches_std() {
    for t in [
        "0", "7", "-7", "+7", "-0", "2147483647", "2147483648", "-2147483648", "-2147483649",
        "99999999999999", "", "-", "+", "1a", " 1", "1 ", "--1", "+-1", "007", "\u{661}",
    ] {
        assert_eq!(parse_i32(t), t.parse::<i32>().ok(), "{t:?}");
    }
}
