use nezha_dashboard::cycle::cycle_began;
use nezha_dashboard::ddns::{filled_pairs, DdnsBody};
use nezha_dashboard::jsontext::parse_json;
use nezha_dashboard::moment::Moment;
use nezha_dashboard::notification::{filled_headers, form_body};
use nezha_dashboard::service::{certificate_messages, Certificate};
use nezha_dashboard::signing::{header_of_signature, request_to_sign, text_to_sign};
use nezha_dashboard::users::{
    check_profile, profile_with_hash, signed_in, user_with_hash, UserError, UserRow,
};

fn pairs(items: &[(&str, &str)]) -> Vec<(String, String)> {
    items.iter().map(|(key, value)| (key.to_string(), value.to_string())).collect()
}

fn row(reject_password: i64) -> UserRow {
    UserRow {
        id: -7,
        username: "alice".to_string(),
        password: "hash".to_string(),
        role: 257,
        agent_secret: "secret".to_string(),
        reject_password,
    }
}

#[test]
fn users_sign_in_with_the_right_password() {
    let user = signed_in(Some(row(0)), true).unwrap();
    assert_eq!(user.id, 0);
    assert_eq!(user.username, "alice");
    assert_eq!(user.role, 1);
    assert_eq!(user.agent_secret, "secret");
    assert!(!user.reject_password);
    assert!(signed_in(Some(row(0)), false).is_none());
    assert!(signed_in(Some(row(1)), true).is_none());
    assert!(signed_in(None, true).is_none());
}

#[test]
fn users_are_made_with_a_hash() {
    let Ok(user) = user_with_hash("bob", Some("hash".to_string()), 1, "secret".to_string()) else {
        panic!("there is a hash");
    };
    assert_eq!(user.username, "bob");
    assert_eq!(user.password, "hash");
    assert_eq!(user.role, 1);
    assert_eq!(user.agent_secret, "secret");
    assert!(!user.reject_password);
    assert!(matches!(
        user_with_hash("bob", None, 1, "secret".to_string()),
        Err(UserError::HashFailed)
    ));
}

#[test]
fn profiles_are_changed_with_the_right_password() {
    assert_eq!(check_profile(false, true, 0), Err(UserError::IncorrectPassword));
    assert_eq!(check_profile(true, true, 0), Err(UserError::NoBindings));
    assert_eq!(check_profile(true, true, 1), Ok(()));
    assert_eq!(check_profile(true, false, 0), Ok(()));
    let Ok(change) = profile_with_hash("carol", Some("hash".to_string()), true) else {
        panic!("there is a hash");
    };
    assert_eq!(change.username, "carol");
    assert_eq!(change.password, "hash");
    assert!(change.reject_password);
    assert!(matches!(profile_with_hash("carol", None, true), Err(UserError::HashFailed)));
}

fn certificate(issuer: &str, secs: i64) -> Certificate {
    Certificate {
        issuer: issuer.to_string(),
        expires: Moment { secs, nanos: 0 },
        shown: format!("second {secs}"),
    }
}

#[test]
fn certificates_are_told_of_a_week_before_they_expire() {
    let now = Moment { secs: 1000, nanos: 0 };
    let near = "[TLS] web The TLS certificate will expire within seven days. Expiration time: \
                second 605799";
    assert_eq!(certificate_messages("web", None, &certificate("CA", 605_799), now), vec![near]);
    assert!(certificate_messages("web", None, &certificate("CA", 605_800), now).is_empty());
    assert_eq!(
        certificate_messages("web", Some(certificate("A", 5)), &certificate("B", 605_800), now),
        vec![
            "[TLS] web TLS certificate changed, old: issuer A, expires at second 5; new: issuer \
             B, expires at second 605800"
        ]
    );
    let both =
        certificate_messages("web", Some(certificate("A", 5)), &certificate("B", 6), now);
    assert_eq!(both.len(), 2);
    assert!(both[0].contains("within seven days"));
    assert!(both[1].contains("changed"));
}

#[test]
fn requests_are_signed_by_parts() {
    assert_eq!(
        request_to_sign("ModifyRecord", "00ff"),
        "POST\n/\n\ncontent-type:application/json; charset=utf-8\n\
         host:dnspod.tencentcloudapi.com\nx-tc-action:modifyrecord\n\n\
         content-type;host;x-tc-action\n00ff"
    );
    assert_eq!(
        text_to_sign(1_700_000_000, "2023-11-14", "00ff"),
        "TC3-HMAC-SHA256\n1700000000\n2023-11-14/dnspod/tc3_request\n00ff"
    );
    assert_eq!(
        header_of_signature("id", "2023-11-14", "aa"),
        "TC3-HMAC-SHA256 Credential=id/2023-11-14/dnspod/tc3_request, \
         SignedHeaders=content-type;host;x-tc-action, Signature=aa"
    );
}

#[test]
fn cycles_begin_where_the_last_one_ended() {
    let start = Moment { secs: 1000, nanos: 0 };
    assert_eq!(cycle_began(start, "day", 1, 1000), Some(1000));
    assert_eq!(cycle_began(start, "day", 1, 1000 + 86_400), Some(1000));
    assert_eq!(cycle_began(start, "day", 1, 1001 + 86_400), Some(1000 + 86_400));
    assert_eq!(cycle_began(start, "hour", 2, 1001 + 7200 * 5), Some(1000 + 7200 * 5));
    assert_eq!(cycle_began(start, "week", 0, 5_000_000), Some(1000));
    assert_eq!(cycle_began(start, "day", 1, 0), Some(1000));
}

#[test]
fn marks_are_filled_in_pair_by_pair() {
    let body = DdnsBody::from_value(&parse_json("{\"access_id\":\"me\"}").unwrap());
    let filled = filled_pairs(
        &pairs(&[("a", "#ip#"), ("b", "plain"), ("c", "#domain# #access_id#")]),
        &body,
        "example.org",
        "A",
        "203.0.113.1",
    );
    assert_eq!(
        filled,
        pairs(&[("a", "203.0.113.1"), ("b", "plain"), ("c", "example.org me")])
    );
    let fields = pairs(&[("text", "#NEZHA# at #DATETIME#"), ("x y", "1")]);
    assert_eq!(
        form_body(&fields, "down & out", "noon", None, false),
        "text=down%20%26%20out%20at%20noon&x%20y=1"
    );
    assert_eq!(
        filled_headers(&fields, "down", "noon", None, false),
        pairs(&[("text", "down at noon"), ("x y", "1")])
    );
}
