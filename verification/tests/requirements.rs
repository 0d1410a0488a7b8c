use questbook::adventure::Adventure;
use questbook::book::{
    Chapter, Counter, Questbook, Requirement, Scene, Story,
};

fn req_book() -> Questbook {
    Questbook {
        story: Story {
            title: "Requirements".to_string(),
            chapters: vec!["c1".to_string()],
            decisions: None,
        },
        chapters: vec![(
            "c1".to_string(),
            Chapter {
                title: "One".to_string(),
                scenes: vec!["s1".to_string()],
                requirements: None,
            },
        )],
        scenes: vec![(
            "s1".to_string(),
            Scene {
                name: "First".to_string(),
                background: "bg".to_string(),
                exposition: None,
                characters: None,
                decisions: vec![],
                requirements: None,
            },
        )],
        items: vec![],
        decisions: vec![],
        characters: vec![],
        consequences: vec![],
        statuses: vec![],
        counters: vec![(
            "rep".to_string(),
            Counter {
                name: "rep".to_string(),
                value: 3,
                visible: true,
            },
        )],
        triggers: vec![],
    }
}

#[test]
fn empty_requirement_list_holds() {
    let adventure = Adventure::new(req_book());
    assert!(adventure.check_requirements(&vec![]));
    assert!(adventure.check_requirements_options(&None));
    assert!(adventure.check_requirements_options(&Some(vec![])));
}

#[test]
fn conjunction_over_all_elements() {
    let mut adventure = Adventure::new(req_book());
    adventure.tags.push("a".to_string());
    adventure.tags.push("b".to_string());
    let both = vec![
        Requirement::Require("a".to_string()),
        Requirement::Require("b".to_string()),
    ];
    assert!(adventure.check_requirements(&both));
    let one_missing = vec![
        Requirement::Require("a".to_string()),
        Requirement::Require("missing".to_string()),
    ];
    assert!(!adventure.check_requirements(&one_missing));
}

#[test]
fn require_sees_all_three_membership_sets() {
    let mut adventure = Adventure::new(req_book());
    adventure.inventory.push("sword".to_string());
    adventure.statuses.push("angry".to_string());
    adventure.tags.push("flag".to_string());
    for id in ["sword", "angry", "flag"] {
        assert!(adventure.check_requirements(&vec![Requirement::Require(id.to_string())]));
        assert!(!adventure.check_requirements(&vec![Requirement::Refuse(id.to_string())]));
    }
    assert!(adventure.check_requirements(&vec![Requirement::Refuse("other".to_string())]));
}

#[test]
fn counter_comparisons() {
    let adventure = Adventure::new(req_book());
    assert!(adventure.check_requirements(&vec![Requirement::CounterEqual("rep".to_string(), 3)]));
    assert!(!adventure.check_requirements(&vec![Requirement::CounterEqual("rep".to_string(), 4)]));
    assert!(adventure.check_requirements(&vec![Requirement::CounterLessThan(
        "rep".to_string(),
        4
    )]));
    assert!(!adventure.check_requirements(&vec![Requirement::CounterLessThan(
        "rep".to_string(),
        3
    )]));
    assert!(adventure.check_requirements(&vec![Requirement::CounterGreaterThan(
        "rep".to_string(),
        2
    )]));
    assert!(!adventure.check_requirements(&vec![Requirement::CounterGreaterThan(
        "rep".to_string(),
        3
    )]));
}

#[test]
fn unknown_counter_fails_closed() {
    let adventure = Adventure::new(req_book());
    assert!(!adventure.check_requirements(&vec![Requirement::CounterEqual(
        "ghostly".to_string(),
        0
    )]));
    assert!(!adventure.check_requirements(&vec![Requirement::CounterLessThan(
        "ghostly".to_string(),
        100
    )]));
    assert!(!adventure.check_requirements(&vec![Requirement::CounterGreaterThan(
        "ghostly".to_string(),
        -100
    )]));
}

#[test]
fn counters_seeded_from_table() {
    let adventure = Adventure::new(req_book());
    assert_eq!(adventure.counters.len(), 1);
    assert_eq!(adventure.counters[0].0, "rep");
    assert_eq!(adventure.counters[0].1, 3);
}
