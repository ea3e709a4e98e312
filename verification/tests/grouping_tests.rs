use incident_review::grouping::group_by_similar_title;
use incident_review::incident::{ConfigError, Incident};

fn incident_titled(title: &str) -> Incident {
    Incident {
        title: title.to_string(),
        ..Default::default()
    }
}

#[test]
fn test_group_by_similar_title() {
    let incidents = vec![
        incident_titled("Incident 1"),
        incident_titled("Incident 2"),
        incident_titled("Another thing entirely"),
        incident_titled("Another thing entirely 2"),
        incident_titled("A third thing that doesn't look the same"),
    ];

    let groups = group_by_similar_title(incidents, 800).unwrap();
    println!("{} groups", groups.len());

    assert_eq!(groups.len(), 3);
    assert_eq!(groups.get("Incident 1").unwrap().len(), 2);
    assert!(!groups.contains_key("Incident 2"));
    assert_eq!(groups.get("Another thing entirely").unwrap().len(), 2);
    assert_eq!(
        groups
            .get("A third thing that doesn't look the same")
            .unwrap()
            .len(),
        1
    );
}

#[test]
fn test_group_by_similar_title_with_similar_titles() {
    let incidents = vec![
        incident_titled("Incident 1"),
        incident_titled("Incident 1"),
        incident_titled("Incident 2"),
        incident_titled("Incident 2"),
        incident_titled("Incident 3"),
    ];

    let groups = group_by_similar_title(incidents, 800).unwrap();

    assert_eq!(groups.len(), 1);
    assert_eq!(groups.get("Incident 1").unwrap().len(), 5);
}

#[test]
fn test_group_by_similar_title_with_invalid_threshold() {
    let incidents = vec![incident_titled("Incident 1"), incident_titled("Incident 2")];

    let result = group_by_similar_title(incidents, -500);
    assert_eq!(result.err(), Some(ConfigError::InvalidThreshold));
}

#[test]
fn group_threshold_bounds() {
    assert!(group_by_similar_title(vec![], 0).is_ok());
    assert!(group_by_similar_title(vec![], 1000).is_ok());
    assert_eq!(
        group_by_similar_title(vec![], 1001).err(),
        Some(ConfigError::InvalidThreshold)
    );
    assert_eq!(
        group_by_similar_title(vec![], -1).err(),
        Some(ConfigError::InvalidThreshold)
    );
}

#[test]
fn group_keeps_incident_fields() {
    let mut a = incident_titled("Database down");
    a.number = 7;
    let groups = group_by_similar_title(vec![a], 900).unwrap();
    let members = groups.get("Database down").unwrap();
    assert_eq!(members.len(), 1);
    assert_eq!(members[0].number, 7);
    assert_eq!(members[0].title, "Database down");
}

#[test]
fn group_empty_titles_fall_together() {
    let incidents = vec![incident_titled(""), incident_titled("")];
    let groups = group_by_similar_title(incidents, 1000).unwrap();
    assert_eq!(groups.len(), 1);
    assert_eq!(groups.get("").unwrap().len(), 2);
}

#[test]
fn group_compares_only_twenty_character_prefix() {
    // identical first twenty characters, wildly different suffixes
    let incidents = vec![
        incident_titled("Persistent outage in region one"),
        incident_titled("Persistent outage in completely another place"),
    ];
    let groups = group_by_similar_title(incidents, 1000).unwrap();
    assert_eq!(groups.len(), 1);
    assert_eq!(
        groups.get("Persistent outage in region one").unwrap().len(),
        2
    );
}

#[test]
fn group_first_adequate_match_wins() {
    // the third title is similar to both earlier ones; it must join
    // the first group, in insertion order
    let incidents = vec![
        incident_titled("service alpha broke"),
        incident_titled("service alphb broke"),
        incident_titled("service alpha broke"),
    ];
    let groups = group_by_similar_title(incidents, 800).unwrap();
    assert_eq!(groups.len(), 1);
    assert_eq!(groups.get("service alpha broke").unwrap().len(), 3);
}

#[test]
fn group_full_threshold_requires_identical_prefixes() {
    let incidents = vec![incident_titled("abc"), incident_titled("abd")];
    let groups = group_by_similar_title(incidents, 1000).unwrap();
    assert_eq!(groups.len(), 2);

    let incidents = vec![incident_titled("abc"), incident_titled("abc")];
    let groups = group_by_similar_title(incidents, 1000).unwrap();
    assert_eq!(groups.len(), 1);
}

#[test]
fn group_zero_threshold_groups_everything() {
    let incidents = vec![
        incident_titled("first"),
        incident_titled("completely unrelated"),
    ];
    let groups = group_by_similar_title(incidents, 0).unwrap();
    assert_eq!(groups.len(), 1);
    assert_eq!(groups.get("first").unwrap().len(), 2);
}
