use questbook::adventure::Adventure;
use questbook::book::{
    Chapter, Consequence, Counter, Decision, Describe, Item, Questbook, Scene, Status, Story,
    questbook_valid,
};

fn decision_book() -> Questbook {
    Questbook {
        story: Story {
            title: "Decisions".to_string(),
            chapters: vec!["c1".to_string()],
            decisions: Some(vec!["wait".to_string()]),
        },
        chapters: vec![(
            "c1".to_string(),
            Chapter {
                title: "One".to_string(),
                scenes: vec!["s1".to_string()],
                requirements: None,
            },
        )],
        scenes: vec![(
            "s1".to_string(),
            Scene {
                name: "First".to_string(),
                background: "bg".to_string(),
                exposition: None,
                characters: None,
                decisions: vec!["attack".to_string()],
                requirements: None,
            },
        )],
        items: vec![(
            "sword".to_string(),
            Item {
                name: "Sword".to_string(),
                description: "sharp".to_string(),
            },
        )],
        decisions: vec![
            (
                "attack".to_string(),
                Decision {
                    description: Some("You strike.".to_string()),
                    decision: "Attack!".to_string(),
                    consequences: vec!["angry_hit".to_string()],
                    requirements: None,
                },
            ),
            (
                "wait".to_string(),
                Decision {
                    description: None,
                    decision: "Wait.".to_string(),
                    consequences: vec![],
                    requirements: None,
                },
            ),
        ],
        characters: vec![],
        consequences: vec![
            (
                "angry_hit".to_string(),
                Consequence {
                    conclusion: "A hit lands.".to_string(),
                    description: None,
                    scene: None,
                    provides: Some(vec!["angry".to_string()]),
                    costs: None,
                    counter: Some(("hits".to_string(), 1)),
                },
            ),
            (
                "loot".to_string(),
                Consequence {
                    conclusion: "Loot!".to_string(),
                    description: None,
                    scene: None,
                    provides: Some(vec![
                        "sword".to_string(),
                        "angry".to_string(),
                        "marked".to_string(),
                    ]),
                    costs: None,
                    counter: None,
                },
            ),
            (
                "disarm".to_string(),
                Consequence {
                    conclusion: "Disarmed.".to_string(),
                    description: None,
                    scene: None,
                    provides: None,
                    costs: Some(vec!["sword".to_string(), "angry".to_string()]),
                    counter: None,
                },
            ),
            (
                "rep_up".to_string(),
                Consequence {
                    conclusion: "Reputation rises.".to_string(),
                    description: None,
                    scene: None,
                    provides: None,
                    costs: None,
                    counter: Some(("rep".to_string(), 3)),
                },
            ),
            (
                "rep_down".to_string(),
                Consequence {
                    conclusion: "Reputation dips.".to_string(),
                    description: None,
                    scene: None,
                    provides: None,
                    costs: None,
                    counter: Some(("rep".to_string(), -1)),
                },
            ),
            (
                "stray".to_string(),
                Consequence {
                    conclusion: "Nothing known changes.".to_string(),
                    description: None,
                    scene: None,
                    provides: None,
                    costs: None,
                    counter: Some(("unknown".to_string(), 7)),
                },
            ),
        ],
        statuses: vec![(
            "angry".to_string(),
            Status {
                description: "seeing red".to_string(),
            },
        )],
        counters: vec![
            (
                "hits".to_string(),
                Counter {
                    name: "hits".to_string(),
                    value: 0,
                    visible: true,
                },
            ),
            (
                "rep".to_string(),
                Counter {
                    name: "rep".to_string(),
                    value: 0,
                    visible: true,
                },
            ),
        ],
        triggers: vec![],
    }
}

fn counter_value(adventure: &Adventure, name: &str) -> i32 {
    for (k, v) in adventure.counters.iter() {
        if k == name {
            return *v;
        }
    }
    panic!("unknown counter");
}

#[test]
fn ineligible_decision_is_a_silent_noop() {
    // An ineligible id returns an empty result and causes zero mutation.
    let mut adventure = Adventure::new(decision_book());
    adventure.start();
    let log_before = adventure.log.clone();
    let out = adventure.make_decision("nonexistent");
    assert!(out.is_empty());
    assert_eq!(adventure.log, log_before);
    assert!(adventure.statuses.is_empty());
    assert_eq!(counter_value(&adventure, "hits"), 0);
}

#[test]
fn decision_before_start_is_a_silent_noop() {
    let mut adventure = Adventure::new(decision_book());
    let out = adventure.make_decision("attack");
    assert!(out.is_empty());
    assert!(adventure.log.is_empty());
}

#[test]
fn attack_twice_accumulates() {
    // The "attack" decision grants status "angry" and bumps counter
    // "hits" by one; made twice it leaves the status granted and the
    // counter at two.
    let book = decision_book();
    assert!(questbook_valid(&book));
    let mut adventure = Adventure::new(book);
    adventure.start();
    let out1 = adventure.make_decision("attack");
    assert_eq!(out1, vec!["You strike.".to_string()]);
    let out2 = adventure.make_decision("attack");
    assert_eq!(out2, vec!["You strike.".to_string()]);
    assert!(adventure.statuses.contains(&"angry".to_string()));
    assert_eq!(counter_value(&adventure, "hits"), 2);
}

#[test]
fn global_decision_available_in_any_scene() {
    let mut adventure = Adventure::new(decision_book());
    adventure.start();
    let decisions = adventure.get_decisions();
    assert!(decisions.contains(&"attack".to_string()));
    assert!(decisions.contains(&"wait".to_string()));
    let out = adventure.make_decision("wait");
    assert!(out.is_empty());
    assert_eq!(
        adventure.log.last(),
        Some(&"Decision made: wait".to_string())
    );
}

#[test]
fn decisions_need_chapter_and_scene() {
    let adventure = Adventure::new(decision_book());
    assert!(adventure.get_decisions().is_empty());
}

#[test]
fn grant_classification_prefers_items_then_statuses() {
    // "sword" is in the item table, "angry" in the status table,
    // "marked" in neither: each granted id lands in exactly one set.
    let mut adventure = Adventure::new(decision_book());
    adventure.start();
    adventure.apply_consequence("loot");
    assert_eq!(adventure.inventory, vec!["sword".to_string()]);
    assert_eq!(adventure.statuses, vec!["angry".to_string()]);
    assert!(adventure.tags.contains(&"marked".to_string()));
    assert!(!adventure.tags.contains(&"sword".to_string()));
    assert!(!adventure.tags.contains(&"angry".to_string()));
    assert!(adventure.log.contains(&"Item sword added".to_string()));
    assert!(adventure.log.contains(&"Status angry added".to_string()));
    assert!(adventure.log.contains(&"Tag marked added".to_string()));
}

#[test]
fn granting_twice_keeps_sets_duplicate_free() {
    let mut adventure = Adventure::new(decision_book());
    adventure.start();
    adventure.apply_consequence("loot");
    adventure.apply_consequence("loot");
    assert_eq!(adventure.inventory, vec!["sword".to_string()]);
    assert_eq!(adventure.statuses, vec!["angry".to_string()]);
    assert_eq!(adventure.tags, vec!["marked".to_string()]);
}

#[test]
fn costs_remove_items_and_statuses() {
    let mut adventure = Adventure::new(decision_book());
    adventure.start();
    adventure.apply_consequence("loot");
    adventure.apply_consequence("disarm");
    assert!(adventure.inventory.is_empty());
    assert!(adventure.statuses.is_empty());
    assert!(adventure.tags.contains(&"marked".to_string()));
    assert!(adventure.log.contains(&"Item sword removed".to_string()));
    assert!(adventure.log.contains(&"Status angry removed".to_string()));
}

#[test]
fn counter_deltas_accumulate() {
    // counters = {"rep": 0}; deltas +3 then -1 yield rep == 2.
    let mut adventure = Adventure::new(decision_book());
    adventure.start();
    adventure.apply_consequence("rep_up");
    adventure.apply_consequence("rep_down");
    assert_eq!(counter_value(&adventure, "rep"), 2);
    assert!(adventure
        .log
        .contains(&"Counter rep changed to: 3".to_string()));
    assert!(adventure
        .log
        .contains(&"Counter rep changed to: 2".to_string()));
}

#[test]
fn unknown_counter_is_never_created() {
    let mut adventure = Adventure::new(decision_book());
    adventure.start();
    adventure.apply_consequence("stray");
    assert_eq!(adventure.counters.len(), 2);
    for (k, _) in adventure.counters.iter() {
        assert_ne!(k, "unknown");
    }
}

#[test]
fn decision_requirements_gate_eligibility() {
    let mut book = decision_book();
    book.decisions[0].1.requirements =
        Some(vec![questbook::book::Requirement::Require("key".to_string())]);
    let mut adventure = Adventure::new(book);
    adventure.start();
    assert!(!adventure.get_decisions().contains(&"attack".to_string()));
    let out = adventure.make_decision("attack");
    assert!(out.is_empty());
    assert_eq!(counter_value(&adventure, "hits"), 0);

    adventure.tags.push("key".to_string());
    assert!(adventure.get_decisions().contains(&"attack".to_string()));
    let out = adventure.make_decision("attack");
    assert_eq!(out, vec!["You strike.".to_string()]);
    assert_eq!(counter_value(&adventure, "hits"), 1);
}

#[test]
fn consequences_of_decision_listed_in_order() {
    let book = decision_book();
    assert_eq!(
        book.get_consequences_from_decision("attack"),
        vec!["angry_hit".to_string()]
    );
    assert!(book.get_consequences_from_decision("nonexistent").is_empty());
}

#[test]
fn story_title_is_exposed() {
    let book = decision_book();
    assert_eq!(book.title(), "Decisions");
}

#[test]
fn describe_decision_and_consequence() {
    let book = decision_book();
    assert_eq!(
        book.decisions[0].1.describe(),
        vec!["You strike.".to_string()]
    );
    assert!(book.decisions[1].1.describe().is_empty());
    assert_eq!(
        book.consequences[0].1.describe(),
        vec!["A hit lands.".to_string()]
    );
    let described = Consequence {
        conclusion: "Done.".to_string(),
        description: Some("More detail.".to_string()),
        scene: None,
        provides: None,
        costs: None,
        counter: None,
    };
    assert_eq!(
        described.describe(),
        vec!["Done.".to_string(), "More detail.".to_string()]
    );
}
