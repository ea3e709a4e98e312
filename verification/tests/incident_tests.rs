use incident_review::cache::cache_age_expired;
use incident_review::incident::{
    filter_incidents_for_review, parse_priority_label, ConfigError, Incident, Priority,
};
use incident_review::notion::{
    prepare_incident_record, NotionPerson, NotionPersonDetails, PersistError,
};
use incident_review::slack::{get_channel_for, Channel};
use incident_review::user::User;

fn incident(number: u64, title: &str, priority: Option<&str>, channel: Option<&str>) -> Incident {
    Incident {
        number,
        title: title.to_string(),
        priority: priority.map(|p| Priority {
            name: p.to_string(),
        }),
        slack_channel: channel.map(|c| Channel {
            id: "C1".to_string(),
            name: c.to_string(),
        }),
        ..Default::default()
    }
}

#[test]
fn parse_priority_label_reads_numeric_suffix() {
    assert_eq!(parse_priority_label("P2"), Some(2));
    assert_eq!(parse_priority_label("P0"), Some(0));
    assert_eq!(parse_priority_label("10"), Some(10));
    assert_eq!(parse_priority_label("P255"), Some(255));
    assert_eq!(parse_priority_label("P256"), None);
    assert_eq!(parse_priority_label("P999"), None);
    assert_eq!(parse_priority_label(""), None);
    assert_eq!(parse_priority_label("P"), None);
    assert_eq!(parse_priority_label("Px"), None);
    assert_eq!(parse_priority_label("P2x"), None);
}

#[test]
fn filter_keeps_low_rank_or_channel() {
    let incidents = vec![
        incident(1, "urgent", Some("P1"), None),
        incident(2, "borderline", Some("P2"), None),
        incident(3, "minor", Some("P3"), None),
        incident(4, "minor with channel", Some("P3"), Some("inc-4")),
        incident(5, "no priority", None, None),
        incident(6, "empty priority", Some(""), None),
        incident(7, "channel only", None, Some("inc-7")),
    ];
    let kept = filter_incidents_for_review(incidents, "P2").unwrap();
    let numbers: Vec<u64> = kept.iter().map(|i| i.number).collect();
    assert_eq!(numbers, vec![1, 2, 4, 7]);
}

#[test]
fn filter_rejects_unparsable_minimum() {
    let incidents = vec![incident(1, "a", Some("P1"), None)];
    let r = filter_incidents_for_review(incidents, "Px");
    assert_eq!(r.err(), Some(ConfigError::InvalidPriorityLabel));
}

#[test]
fn short_fmt_combines_number_and_title() {
    let i = incident(42, "Disk full", None, None);
    assert_eq!(i.short_fmt(), "42: Disk full");
    let i = incident(0, "Zero", None, None);
    assert_eq!(i.short_fmt(), "0: Zero");
    let i = incident(1205, "Big", None, None);
    assert_eq!(i.short_fmt(), "1205: Big");
}

#[test]
fn channel_lookup_finds_number_in_name() {
    let channels = vec![
        Channel {
            id: "C1".to_string(),
            name: "general".to_string(),
        },
        Channel {
            id: "C2".to_string(),
            name: "incident-123-fire".to_string(),
        },
        Channel {
            id: "C3".to_string(),
            name: "also-123".to_string(),
        },
    ];
    let i = incident(123, "t", None, None);
    let found = get_channel_for(&i, &channels).unwrap();
    assert_eq!(found.id, "C2");

    let i = incident(999, "t", None, None);
    assert!(get_channel_for(&i, &channels).is_none());
}

#[test]
fn persist_record_requires_pocs() {
    let i = incident(9, "broken", None, None);
    assert_eq!(
        prepare_incident_record(&i).err(),
        Some(PersistError::MissingPoc)
    );
}

#[test]
fn persist_record_resolves_workspace_ids() {
    let with_notion = User::new(
        None,
        Some(NotionPerson {
            object: "user".to_string(),
            id: "N77".to_string(),
            name: "ann".to_string(),
            avatar_url: None,
            person: Some(NotionPersonDetails {
                email: "ann@acme.org".to_string(),
            }),
        }),
    )
    .unwrap();
    let slack_only = User {
        slack_user: None,
        notion_user: None,
    };
    let mut i = incident(7, "T", None, None);
    i.html_url = "https://tracker/7".to_string();
    i.poc_users = Some(vec![slack_only, with_notion]);

    let rec = prepare_incident_record(&i).unwrap();
    assert_eq!(rec.title, "7: T");
    assert_eq!(rec.url, "https://tracker/7");
    assert_eq!(rec.poc_ids, vec!["N77".to_string()]);
}

#[test]
fn cache_expires_after_one_day() {
    assert!(!cache_age_expired(0));
    assert!(!cache_age_expired(86400));
    assert!(cache_age_expired(86401));
}
