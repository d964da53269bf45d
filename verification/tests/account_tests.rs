use argon2::password_hash::{PasswordHasher, SaltString};
use argon2::Argon2;
use idol_catalog::confirm_group::{
    confirm_group_api, confirm_statements, confirmed_reply, create_artist_member, create_team,
    delete_temp_team, ArtistMemberInfo, ConfirmInfo, ConfirmStatement, MemberRecord, TeamRecord,
};
use idol_catalog::login::{decide_login, login_api, LoginInfo, LoginOutcome};
use idol_catalog::reply::Status;

fn form(user: &str, password: &str) -> LoginInfo {
    LoginInfo { username: user.to_string(), password: password.to_string() }
}

fn stored_hash(password: &str) -> String {
    let salt = SaltString::encode_b64(b"fixed-salt-bytes").unwrap();
    Argon2::default().hash_password(password.as_bytes(), &salt).unwrap().to_string()
}

#[test]
fn login_with_right_password_signs_in() {
    let hash = stored_hash("hunter2");
    match login_api(form("mina", "hunter2"), &hash).unwrap() {
        LoginOutcome::SignIn { username, reply } => {
            assert_eq!(username, "mina");
            assert_eq!(reply.status, Status::Success);
            assert_eq!(reply.body, "Ok");
        }
        o => panic!("unexpected {:?}", o),
    }
}

#[test]
fn login_with_wrong_password_is_refused() {
    let hash = stored_hash("hunter2");
    match login_api(form("mina", "hunter3"), &hash).unwrap() {
        LoginOutcome::Refused { reply } => {
            assert_eq!(reply.status, Status::Forbidden);
            assert_eq!(reply.body, "No");
        }
        o => panic!("unexpected {:?}", o),
    }
}

#[test]
fn login_with_malformed_hash_gives_none() {
    assert!(login_api(form("mina", "x"), "not a hash").is_none());
    assert!(login_api(form("mina", "x"), "").is_none());
}

#[test]
fn decide_login_follows_verdict() {
    assert!(decide_login(form("a", "b"), None).is_none());
    assert!(matches!(decide_login(form("a", "b"), Some(true)), Some(LoginOutcome::SignIn { .. })));
    assert!(matches!(decide_login(form("a", "b"), Some(false)), Some(LoginOutcome::Refused { .. })));
}

fn confirm_form() -> ConfirmInfo {
    ConfirmInfo {
        name: "Stars".to_string(),
        logo: "logo.png".to_string(),
        group_photo: "photo.png".to_string(),
        ticker: "STR".to_string(),
        gender: "girl".to_string(),
        types: "group".to_string(),
        agency_id: 42,
        acronyms: "ST".to_string(),
        artist_members: vec![
            ArtistMemberInfo { name: "One".to_string(), profile_image: "1.png".to_string() },
            ArtistMemberInfo { name: "Two".to_string(), profile_image: "2.png".to_string() },
        ],
    }
}

#[test]
fn confirm_needs_sign_in() {
    let r = confirm_group_api(false).unwrap_err();
    assert_eq!(r.status, Status::Forbidden);
    assert_eq!(r.body, "Access Denied");
    assert!(confirm_group_api(true).is_ok());
}

#[test]
fn confirm_team_record_takes_form_values() {
    let info = confirm_form();
    assert_eq!(
        create_team(&info),
        TeamRecord {
            name: "Stars".to_string(),
            logo: "logo.png".to_string(),
            group_photo: "photo.png".to_string(),
            ticker: "STR".to_string(),
            gender: "girl".to_string(),
            team_type: "group".to_string(),
            agency_id: 42,
            acronyms: "ST".to_string(),
        }
    );
    assert_eq!(delete_temp_team(&info), "Stars");
    assert_eq!(
        create_artist_member(&info.artist_members[1], 9),
        MemberRecord { name: "Two".to_string(), profile_image: "2.png".to_string(), team_id: 9 }
    );
}

#[test]
fn confirm_statements_in_order() {
    let info = confirm_form();
    let s = confirm_statements(&info, 7);
    assert_eq!(
        s,
        vec![
            ConfirmStatement::InsertMember(MemberRecord {
                name: "One".to_string(),
                profile_image: "1.png".to_string(),
                team_id: 7
            }),
            ConfirmStatement::InsertMember(MemberRecord {
                name: "Two".to_string(),
                profile_image: "2.png".to_string(),
                team_id: 7
            }),
            ConfirmStatement::DeleteTempTeam("Stars".to_string()),
        ]
    );
    let mut empty = confirm_form();
    empty.artist_members.clear();
    assert_eq!(confirm_statements(&empty, 1), vec![ConfirmStatement::DeleteTempTeam("Stars".to_string())]);
    let r = confirmed_reply();
    assert_eq!(r.status, Status::Success);
    assert_eq!(r.body, "Group confirmed successfully");
}
