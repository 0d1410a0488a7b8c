use questbook::adventure::Adventure;
use questbook::book::{
    Chapter, Consequence, Questbook, Requirement, Scene, Story, questbook_valid,
};
use questbook::play::AdventureState;

fn scene(name: &str) -> Scene {
    Scene {
        name: name.to_string(),
        background: "bg".to_string(),
        exposition: None,
        characters: None,
        decisions: vec![],
        requirements: None,
    }
}

fn two_chapter_book() -> Questbook {
    Questbook {
        story: Story {
            title: "Two Chapters".to_string(),
            chapters: vec!["c1".to_string(), "c2".to_string()],
            decisions: None,
        },
        chapters: vec![
            (
                "c1".to_string(),
                Chapter {
                    title: "One".to_string(),
                    scenes: vec!["s1".to_string()],
                    requirements: None,
                },
            ),
            (
                "c2".to_string(),
                Chapter {
                    title: "Two".to_string(),
                    scenes: vec!["s2".to_string()],
                    requirements: Some(vec![Requirement::Require("flag".to_string())]),
                },
            ),
        ],
        scenes: vec![
            ("s1".to_string(), scene("First")),
            ("s2".to_string(), scene("Second")),
        ],
        items: vec![],
        decisions: vec![],
        characters: vec![],
        consequences: vec![(
            "grant_flag".to_string(),
            Consequence {
                conclusion: "flag granted".to_string(),
                description: None,
                scene: None,
                provides: Some(vec!["flag".to_string()]),
                costs: None,
                counter: None,
            },
        )],
        statuses: vec![],
        counters: vec![],
        triggers: vec![],
    }
}

#[test]
fn chapter_progression_follows_granted_tag() {
    // Chapters [c1 (no requirement), c2 (requires tag "flag")] in story
    // order [c1, c2]: before the flag only c1 resolves; after a
    // consequence grants the tag and the chapter is re-derived, c2 wins.
    let book = two_chapter_book();
    assert!(questbook_valid(&book));
    let mut adventure = Adventure::new(book);
    assert_eq!(adventure.get_chapter(), Some("c1".to_string()));
    adventure.start();
    assert_eq!(adventure.chapter, Some("c1".to_string()));
    assert_eq!(adventure.scene, Some("s1".to_string()));
    assert_eq!(adventure.state, AdventureState::Started);

    adventure.apply_consequence("grant_flag");
    assert!(adventure.tags.contains(&"flag".to_string()));
    assert_eq!(adventure.chapter, Some("c2".to_string()));
    assert_eq!(adventure.get_chapter(), Some("c2".to_string()));
}

#[test]
fn eligible_chapters_in_table_order() {
    let mut adventure = Adventure::new(two_chapter_book());
    assert_eq!(adventure.get_chapters(), vec!["c1".to_string()]);
    adventure.tags.push("flag".to_string());
    assert_eq!(
        adventure.get_chapters(),
        vec!["c1".to_string(), "c2".to_string()]
    );
}

#[test]
fn start_logs_chapter_and_scene() {
    let mut adventure = Adventure::new(two_chapter_book());
    adventure.start();
    assert_eq!(
        adventure.log,
        vec!["Adventure started - Chapter: c1 - Scene: s1".to_string()]
    );
}

#[test]
fn start_without_eligible_chapter_ends() {
    let mut book = two_chapter_book();
    book.chapters[0].1.requirements = Some(vec![Requirement::Require("never".to_string())]);
    let mut adventure = Adventure::new(book);
    adventure.start();
    assert_eq!(adventure.state, AdventureState::Ended);
    assert_eq!(adventure.chapter, None);
    assert!(adventure.log.is_empty());
}

#[test]
fn start_without_eligible_scene_still_starts() {
    let mut book = two_chapter_book();
    book.scenes[0].1.requirements = Some(vec![Requirement::Require("never".to_string())]);
    let mut adventure = Adventure::new(book);
    adventure.start();
    assert_eq!(adventure.state, AdventureState::Started);
    assert_eq!(adventure.scene, None);
    assert_eq!(
        adventure.log,
        vec!["Adventure started - Chapter: c1 - Scene: None".to_string()]
    );
}

#[test]
fn change_scene_to_ineligible_target_is_silent() {
    // An ineligible target leaves scene, log and all membership and
    // counter state unchanged.
    let mut adventure = Adventure::new(two_chapter_book());
    adventure.start();
    let scene_before = adventure.scene.clone();
    let log_before = adventure.log.clone();
    let tags_before = adventure.tags.clone();
    let counters_before = adventure.counters.clone();

    adventure.change_scene("s2", true);

    assert_eq!(adventure.scene, scene_before);
    assert_eq!(adventure.log, log_before);
    assert_eq!(adventure.tags, tags_before);
    assert_eq!(adventure.counters, counters_before);
    assert!(adventure.inventory.is_empty());
    assert!(adventure.statuses.is_empty());
}

#[test]
fn change_scene_to_eligible_target_logs() {
    let mut book = two_chapter_book();
    book.chapters[0].1.scenes.push("s2".to_string());
    let mut adventure = Adventure::new(book);
    adventure.start();
    adventure.change_scene("s2", true);
    assert_eq!(adventure.scene, Some("s2".to_string()));
    assert_eq!(
        adventure.log.last(),
        Some(&"Scene changed to: s2".to_string())
    );
}

#[test]
fn scene_is_sticky_once_set() {
    let mut book = two_chapter_book();
    book.chapters[0].1.scenes.push("s2".to_string());
    let mut adventure = Adventure::new(book);
    adventure.start();
    adventure.change_scene("s2", false);
    // A set scene never silently re-resolves, even though s1 comes
    // earlier in the chapter's declared order.
    assert_eq!(adventure.get_scene(), Some("s2".to_string()));
}

#[test]
fn change_scenes_without_candidates_ends_session() {
    let mut book = two_chapter_book();
    book.scenes[0].1.requirements = Some(vec![Requirement::Require("never".to_string())]);
    let mut adventure = Adventure::new(book);
    adventure.start();
    adventure.change_scenes();
    assert_eq!(adventure.scene, None);
    assert_eq!(adventure.state, AdventureState::Ended);
    assert_eq!(
        adventure.log.last(),
        Some(&"No more scenes available".to_string())
    );
}

#[test]
fn change_chapter_is_noop_when_unchanged() {
    let mut adventure = Adventure::new(two_chapter_book());
    adventure.start();
    let log_before = adventure.log.clone();
    adventure.change_chapter();
    assert_eq!(adventure.chapter, Some("c1".to_string()));
    assert_eq!(adventure.log, log_before);
}

#[test]
fn change_chapter_without_candidates_ends_session() {
    let mut adventure = Adventure::new(two_chapter_book());
    adventure.start();
    adventure.chapter = Some("c1".to_string());
    // Make every chapter ineligible, then re-derive.
    adventure.tags.push("never".to_string());
    adventure.questbook.chapters[0].1.requirements =
        Some(vec![Requirement::Refuse("never".to_string())]);
    adventure.change_chapter();
    assert_eq!(adventure.chapter, None);
    assert_eq!(adventure.state, AdventureState::Ended);
    assert_eq!(
        adventure.log.last(),
        Some(&"No more chapters available".to_string())
    );
}

#[test]
fn chapter_scene_membership_queries() {
    let adventure = Adventure::new(two_chapter_book());
    assert!(adventure.chapter_contains_scene("c1", "s1"));
    assert!(!adventure.chapter_contains_scene("c1", "s2"));
    assert!(!adventure.chapter_contains_scene("missing", "s1"));
}

#[test]
fn eligible_scenes_require_current_chapter() {
    let mut adventure = Adventure::new(two_chapter_book());
    assert!(adventure.get_scenes().is_empty());
    adventure.start();
    assert_eq!(adventure.get_scenes(), vec!["s1".to_string()]);
}

#[test]
fn empty_story_resolves_no_chapter() {
    let mut book = two_chapter_book();
    book.story.chapters = vec![];
    let mut adventure = Adventure::new(book);
    assert_eq!(adventure.get_chapter(), None);
    adventure.start();
    assert_eq!(adventure.state, AdventureState::Ended);
}

#[test]
fn questbook_validation_rejects_dangling_consequence() {
    let mut book = two_chapter_book();
    assert!(questbook_valid(&book));
    book.decisions.push((
        "broken".to_string(),
        questbook::book::Decision {
            description: None,
            decision: "broken".to_string(),
            consequences: vec!["missing".to_string()],
            requirements: None,
        },
    ));
    assert!(!questbook_valid(&book));
}
