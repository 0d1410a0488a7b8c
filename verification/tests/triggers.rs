use questbook::adventure::Adventure;
use questbook::book::{
    Chapter, Consequence, Counter, Questbook, Requirement, Scene, Story, Trigger,
};
use questbook::msg::i32_dec;

fn trigger_book() -> Questbook {
    Questbook {
        story: Story {
            title: "Triggers".to_string(),
            chapters: vec!["c1".to_string()],
            decisions: None,
        },
        chapters: vec![(
            "c1".to_string(),
            Chapter {
                title: "One".to_string(),
                scenes: vec!["s1".to_string(), "s2".to_string()],
                requirements: None,
            },
        )],
        scenes: vec![
            (
                "s1".to_string(),
                Scene {
                    name: "First".to_string(),
                    background: "bg".to_string(),
                    exposition: None,
                    characters: None,
                    decisions: vec![],
                    requirements: None,
                },
            ),
            (
                "s2".to_string(),
                Scene {
                    name: "Second".to_string(),
                    background: "bg".to_string(),
                    exposition: None,
                    characters: None,
                    decisions: vec![],
                    requirements: None,
                },
            ),
        ],
        items: vec![],
        decisions: vec![],
        characters: vec![],
        consequences: vec![
            (
                "give_spark".to_string(),
                Consequence {
                    conclusion: "A spark.".to_string(),
                    description: None,
                    scene: None,
                    provides: Some(vec!["spark".to_string()]),
                    costs: None,
                    counter: None,
                },
            ),
            (
                "give_chain".to_string(),
                Consequence {
                    conclusion: "A chain.".to_string(),
                    description: None,
                    scene: None,
                    provides: Some(vec!["chain".to_string()]),
                    costs: None,
                    counter: None,
                },
            ),
            (
                "give_done".to_string(),
                Consequence {
                    conclusion: "Done.".to_string(),
                    description: None,
                    scene: None,
                    provides: Some(vec!["done".to_string()]),
                    costs: None,
                    counter: None,
                },
            ),
            (
                "wrap_up".to_string(),
                Consequence {
                    conclusion: "Counter wraps.".to_string(),
                    description: None,
                    scene: None,
                    provides: None,
                    costs: None,
                    counter: Some(("edge".to_string(), 1)),
                },
            ),
            (
                "dip".to_string(),
                Consequence {
                    conclusion: "Counter dips.".to_string(),
                    description: None,
                    scene: None,
                    provides: None,
                    costs: None,
                    counter: Some(("edge".to_string(), -5)),
                },
            ),
            (
                "go_s2".to_string(),
                Consequence {
                    conclusion: "Onward.".to_string(),
                    description: None,
                    scene: Some("s2".to_string()),
                    provides: None,
                    costs: None,
                    counter: None,
                },
            ),
            (
                "go_nowhere".to_string(),
                Consequence {
                    conclusion: "A door that is not there.".to_string(),
                    description: None,
                    scene: Some("nowhere".to_string()),
                    provides: None,
                    costs: None,
                    counter: None,
                },
            ),
        ],
        statuses: vec![],
        counters: vec![(
            "edge".to_string(),
            Counter {
                name: "edge".to_string(),
                value: 0,
                visible: false,
            },
        )],
        triggers: vec![
            (
                "t_chain".to_string(),
                Trigger {
                    description: "spark lights the chain".to_string(),
                    requirements: vec![Requirement::Require("spark".to_string())],
                    consequences: vec!["give_chain".to_string()],
                },
            ),
            (
                "t_done".to_string(),
                Trigger {
                    description: "the chain completes".to_string(),
                    requirements: vec![Requirement::Require("chain".to_string())],
                    consequences: vec!["give_done".to_string()],
                },
            ),
        ],
    }
}

#[test]
fn trigger_cascade_waits_for_next_pass() {
    // Both triggers are checked against the snapshot taken before the
    // pass: the one satisfied by the snapshot fires once; the one its
    // consequence enables does not fire until the next pass.
    let mut adventure = Adventure::new(trigger_book());
    adventure.start();
    adventure.apply_consequence("give_spark");
    assert!(adventure.tags.contains(&"spark".to_string()));
    assert!(!adventure.tags.contains(&"chain".to_string()));

    adventure.check_triggers();
    assert!(adventure.tags.contains(&"chain".to_string()));
    assert!(!adventure.tags.contains(&"done".to_string()));

    adventure.check_triggers();
    assert!(adventure.tags.contains(&"done".to_string()));
}

#[test]
fn unsatisfied_triggers_do_not_fire() {
    let mut adventure = Adventure::new(trigger_book());
    adventure.start();
    let log_before = adventure.log.clone();
    adventure.check_triggers();
    assert_eq!(adventure.log, log_before);
    assert!(adventure.tags.is_empty());
}

#[test]
fn eligible_scene_change_can_run_triggers() {
    let mut adventure = Adventure::new(trigger_book());
    adventure.start();
    adventure.tags.push("spark".to_string());
    adventure.change_scene("s2", true);
    assert_eq!(adventure.scene, Some("s2".to_string()));
    assert!(adventure.tags.contains(&"chain".to_string()));
}

#[test]
fn eligible_scene_change_can_skip_triggers() {
    let mut adventure = Adventure::new(trigger_book());
    adventure.start();
    adventure.tags.push("spark".to_string());
    adventure.change_scene("s2", false);
    assert_eq!(adventure.scene, Some("s2".to_string()));
    assert!(!adventure.tags.contains(&"chain".to_string()));
}

#[test]
fn consequence_scene_switch_defers_triggers() {
    // A consequence's target scene is activated via a scene change that
    // does not invoke the trigger engine, even with a satisfied trigger.
    let mut adventure = Adventure::new(trigger_book());
    adventure.start();
    adventure.tags.push("spark".to_string());
    adventure.apply_consequence("go_s2");
    assert_eq!(adventure.scene, Some("s2".to_string()));
    assert!(adventure
        .log
        .contains(&"Scene changed to: s2".to_string()));
    assert!(!adventure.tags.contains(&"chain".to_string()));
}

#[test]
fn consequence_with_ineligible_target_scene_keeps_scene() {
    let mut adventure = Adventure::new(trigger_book());
    adventure.start();
    adventure.apply_consequence("go_nowhere");
    assert_eq!(adventure.scene, Some("s1".to_string()));
}

#[test]
fn counter_addition_wraps_at_the_edges() {
    let mut book = trigger_book();
    book.counters[0].1.value = i32::MAX;
    let mut adventure = Adventure::new(book);
    adventure.start();
    adventure.apply_consequence("wrap_up");
    assert_eq!(adventure.counters[0].1, i32::MIN);
    adventure.apply_consequence("dip");
    assert_eq!(adventure.counters[0].1, i32::MAX - 4);
}

#[test]
fn negative_counter_values_are_logged_in_decimal() {
    let mut adventure = Adventure::new(trigger_book());
    adventure.start();
    adventure.apply_consequence("dip");
    assert!(adventure
        .log
        .contains(&"Counter edge changed to: -5".to_string()));
}

#[test]
fn decimal_rendering_matches_std() {
    for v in [
        0,
        7,
        -5,
        42,
        -100,
        1000000,
        i32::MAX,
        i32::MIN,
        i32::MIN + 1,
    ] {
        assert_eq!(i32_dec(v), v.to_string());
    }
}
