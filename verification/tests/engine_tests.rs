use incident_review::engine::{Phase, ReviewEngine};
use incident_review::grouping::group_by_similar_title;
use incident_review::incident::Incident;
use incident_review::summary::compose_summary;
use incident_review::user::User;

fn incident(number: u64, title: &str) -> Incident {
    Incident {
        number,
        title: title.to_string(),
        ..Default::default()
    }
}

fn engine_over(incidents: Vec<Incident>, threshold_milli: i64) -> ReviewEngine {
    let groups = group_by_similar_title(incidents, threshold_milli).unwrap();
    ReviewEngine::new(groups.entries)
}

#[test]
fn empty_review_is_immediately_done() {
    let e = engine_over(vec![], 800);
    assert_eq!(e.phase, Phase::Done);
    assert_eq!(e.to_review.len(), 0);
    assert_eq!(e.excluded.len(), 0);
}

#[test]
fn single_incident_group_skips_combined_prompt() {
    let e = engine_over(vec![incident(1, "only one")], 800);
    assert_eq!(e.phase, Phase::KeepIncident);
}

#[test]
fn multi_incident_group_asks_combined_prompt() {
    let e = engine_over(vec![incident(1, "same title"), incident(2, "same title")], 800);
    assert_eq!(e.phase, Phase::TreatAsOne);
}

#[test]
fn combined_keep_assigns_same_pocs_to_whole_group() {
    let mut e = engine_over(vec![incident(1, "same title"), incident(2, "same title")], 800);
    assert_eq!(e.phase, Phase::TreatAsOne);
    e.answer_confirm(true);
    assert_eq!(e.phase, Phase::KeepGroup);
    e.answer_confirm(true);
    assert_eq!(e.phase, Phase::GroupPocs);
    e.answer_pocs(Vec::<User>::new());
    assert_eq!(e.phase, Phase::Done);
    assert_eq!(e.to_review.len(), 2);
    assert_eq!(e.excluded.len(), 0);
    for i in e.to_review.iter() {
        assert!(i.poc_users.is_some());
        assert_eq!(i.poc_users.as_ref().unwrap().len(), 0);
    }
}

#[test]
fn combined_decline_excludes_whole_group() {
    let mut e = engine_over(vec![incident(1, "same title"), incident(2, "same title")], 800);
    e.answer_confirm(true);
    e.answer_confirm(false);
    assert_eq!(e.phase, Phase::Done);
    assert_eq!(e.to_review.len(), 0);
    assert_eq!(e.excluded.len(), 2);
}

#[test]
fn per_incident_decisions_split_the_group() {
    let mut e = engine_over(vec![incident(1, "same title"), incident(2, "same title")], 800);
    e.answer_confirm(false); // not as one
    assert_eq!(e.phase, Phase::KeepIncident);
    e.answer_confirm(true); // keep incident 1
    assert_eq!(e.phase, Phase::IncidentPocs);
    e.answer_pocs(Vec::<User>::new());
    assert_eq!(e.phase, Phase::KeepIncident);
    e.answer_confirm(false); // exclude incident 2
    assert_eq!(e.phase, Phase::Done);
    assert_eq!(e.to_review.len(), 1);
    assert_eq!(e.excluded.len(), 1);
    assert_eq!(e.to_review[0].number, 1);
    assert_eq!(e.excluded[0].number, 2);
}

#[test]
fn every_filtered_incident_lands_in_exactly_one_side() {
    // three groups: sizes 2, 2, 1
    let incidents = vec![
        incident(1, "Incident 1"),
        incident(2, "Incident 2"),
        incident(3, "Another thing entirely"),
        incident(4, "Another thing entirely 2"),
        incident(5, "A third thing that doesn't look the same"),
    ];
    let total = incidents.len();
    let mut e = engine_over(incidents, 800);

    // group one: combined, kept
    e.answer_confirm(true);
    e.answer_confirm(true);
    e.answer_pocs(Vec::<User>::new());
    // group two: combined, declined
    e.answer_confirm(true);
    e.answer_confirm(false);
    // group three: single incident, declined
    assert_eq!(e.phase, Phase::KeepIncident);
    e.answer_confirm(false);

    assert_eq!(e.phase, Phase::Done);
    assert_eq!(e.to_review.len() + e.excluded.len(), total);
    let mut seen: Vec<u64> = e
        .to_review
        .iter()
        .chain(e.excluded.iter())
        .map(|i| i.number)
        .collect();
    seen.sort();
    assert_eq!(seen, vec![1, 2, 3, 4, 5]);
}

#[test]
fn summary_lists_both_sides_of_the_partition() {
    let to_review = vec![incident(1, "One"), incident(2, "Two")];
    let excluded = vec![incident(3, "Three")];
    let message = compose_summary("Friday", &to_review, &excluded);
    assert!(message.starts_with("\nHello everyone and happy Friday!\n"));
    assert!(message.contains("1: One\n2: Two"));
    assert!(message.contains("excluded from review:\n3: Three"));
    assert!(message.contains("*newly scheduled*"));
}

#[test]
fn summary_exact_text_for_empty_partition() {
    let message = compose_summary("Monday", &vec![], &vec![]);
    let expected = "\nHello everyone and happy Monday!\n\nWe have selected the following incidents for review:\n\n    \nand the following incidents have been excluded from review:\n\n\nThese are only *newly scheduled* incidents. All incidents scheduled for review can be found in Notion <https://www.notion.so/mystenlabs/Incident-Review-Selection-c96bb9ba36c24a59af230162042d3dd4?pvs=4|here>.\nPlease comment in the thread to request an adjustment to the list.";
    assert_eq!(message, expected);
}
