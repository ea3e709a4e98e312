use incident_review::notion::{NotionPerson, NotionPersonDetails};
use incident_review::slack::{Profile, SlackUser};
use incident_review::user::{emails_match, normalize_email, reconcile_identities, User};

fn slack_user(id: &str, name: &str, email: Option<&str>) -> SlackUser {
    SlackUser {
        id: id.to_string(),
        name: name.to_string(),
        profile: Some(Profile {
            email: email.map(|e| e.to_string()),
        }),
    }
}

fn notion_person(id: &str, name: &str, email: Option<&str>) -> NotionPerson {
    NotionPerson {
        object: "user".to_string(),
        id: id.to_string(),
        name: name.to_string(),
        avatar_url: None,
        person: email.map(|e| NotionPersonDetails {
            email: e.to_string(),
        }),
    }
}

#[test]
fn email_matching_is_case_insensitive_and_trims() {
    assert!(emails_match(" Bob@Example.com", "bob@example.com "));
    assert!(emails_match("ALICE@ACME.ORG", "alice@acme.org"));
    assert!(!emails_match("bob@example.com", "alice@example.com"));
}

#[test]
fn normalize_email_lowers_and_trims() {
    assert_eq!(normalize_email("  Bob@Example.COM "), "bob@example.com");
    assert_eq!(normalize_email("plain@host"), "plain@host");
}

#[test]
fn user_with_both_sides_absent_is_no_identity() {
    assert!(User::new(None, None).is_none());
}

#[test]
fn user_with_one_side_is_an_identity() {
    let su = slack_user("U1", "ann", Some("ann@acme.org"));
    let u = User::new(Some(su), None).unwrap();
    assert!(u.slack_user.is_some());
    assert!(u.notion_user.is_none());

    let np = notion_person("N1", "ben", None);
    let u = User::new(None, Some(np)).unwrap();
    assert!(u.slack_user.is_none());
    assert!(u.notion_user.is_some());
}

#[test]
fn reconcile_links_by_normalized_email() {
    let slack_users = vec![
        slack_user("U1", "ann", Some("ann@acme.org")),
        slack_user("U2", "bob", Some("Bob@Example.com ")),
        SlackUser {
            id: "U3".to_string(),
            name: "noprofile".to_string(),
            profile: None,
        },
    ];
    let notion_people = vec![
        notion_person("N1", "Bob", Some(" bob@example.com")),
        notion_person("N2", "Eve", Some("eve@elsewhere.net")),
        notion_person("N3", "Mallory", None),
    ];

    let users = reconcile_identities(&slack_users, notion_people);
    assert_eq!(users.len(), 3);

    // Bob matches the chat-platform user despite case and whitespace
    assert_eq!(users[0].slack_user.as_ref().unwrap().id, "U2");
    assert_eq!(users[0].notion_user.as_ref().unwrap().id, "N1");

    // Eve has an email but no chat-platform match
    assert!(users[1].slack_user.is_none());
    assert_eq!(users[1].notion_user.as_ref().unwrap().id, "N2");

    // Mallory has no email and never matches
    assert!(users[2].slack_user.is_none());
    assert_eq!(users[2].notion_user.as_ref().unwrap().id, "N3");
}

#[test]
fn reconcile_takes_first_matching_chat_user() {
    let slack_users = vec![
        slack_user("U1", "first", Some("shared@acme.org")),
        slack_user("U2", "second", Some("shared@acme.org")),
    ];
    let notion_people = vec![notion_person("N1", "Person", Some("shared@acme.org"))];

    let users = reconcile_identities(&slack_users, notion_people);
    assert_eq!(users.len(), 1);
    assert_eq!(users[0].slack_user.as_ref().unwrap().id, "U1");
}

#[test]
fn system_presence_names_both_sides() {
    let su = slack_user("U1", "ann", Some("ann@acme.org"));
    let np = notion_person("N1", "ann", Some("ann@acme.org"));
    let both = User::new(Some(su.clone()), Some(np.clone())).unwrap();
    assert_eq!(both.system_presence(), "Slack & Notion");

    let slack_only = User::new(Some(su), None).unwrap();
    assert_eq!(slack_only.system_presence(), "Slack");

    let notion_only = User::new(None, Some(np)).unwrap();
    assert_eq!(notion_only.system_presence(), "Notion");
}

#[test]
fn display_string_shows_name_email_and_presence() {
    let su = slack_user("U1", "ann", Some("ann@acme.org"));
    let u = User::new(Some(su), None).unwrap();
    assert_eq!(u.display_string(), "ann (ann@acme.org) [Slack]");

    let np = notion_person("N1", "ben", None);
    let u = User::new(None, Some(np)).unwrap();
    assert_eq!(u.display_string(), "ben [Notion]");

    let su = SlackUser {
        id: "U9".to_string(),
        name: "carol".to_string(),
        profile: None,
    };
    let u = User::new(Some(su), None).unwrap();
    assert_eq!(u.display_string(), "carol  [Slack]");
}
