//! The resolution engine: mutable play state over one content graph.
//!
//! An [`Adventure`] owns a [`Questbook`] for its lifetime and never mutates
//! it. Every mutating method is proved equal to the corresponding
//! transition function of [`crate::play`], preserves the play-state
//! invariant [`Adventure::wf`], only moves the lifecycle state forward and
//! only appends to the event log.

use vstd::prelude::*;
use vstd::string::StringExecFns;
use crate::book::{
    Questbook, Requirement, Trigger, Describe, tbl_get, tbl_has, tbl_find, names_contain,
    book_wf, lemma_tbl_get_index, lemma_tbl_has_get,
};
use crate::play::{
    AdventureState, StateView, dvs, dcs, lemma_vec_deep, lemma_dvs_push, lemma_dvs_remove,
    lemma_dvs_contains, has_token, lemma_name_find, lemma_name_find_at, ctr_find,
    lemma_ctr_find, lemma_ctr_find_at, req_holds, reqs_hold, req_opt_holds,
    chapter_eligible, eligible_chapter_ids, chapter_ids_rec, latest_idx, current_chapter,
    scene_in_chapter, scene_eligible, eligible_scene_ids, scene_ids_rec, first_scene_from,
    first_eligible_scene, sticky_scene, scene_has_decision, global_decision, decision_eligible,
    eligible_decision_ids, decision_ids_rec, st_wf, ctrs_ok, chapter_wf, scene_wf, state_rank,
    push_log, set_scene_tr, change_scenes_tr, change_chapter_tr,
    remove_name, grant_one, grants_tr, cost_one, costs_tr, counter_tr, apply_consequence_tr,
    apply_seq_tr, fired_triggers_rec, fired_triggers, fire_all_tr, triggers_tr, change_scene_tr,
    decision_output, make_decision_tr, start_tr, lemma_set_scene_frame, lemma_change_scenes_frame,
    lemma_change_chapter_frame, lemma_current_chapter_valid, lemma_grant_one_frame,
    lemma_grants_frame, lemma_cost_one_frame, lemma_costs_frame, lemma_counter_frame,
    lemma_apply_consequence_frame, lemma_apply_seq_frame, lemma_fire_all_frame,
    lemma_triggers_frame, lemma_change_scene_frame, lemma_make_decision_frame, lemma_start_frame,
    lemma_fired_triggers_sound, lemma_frame_refl,
};
use crate::msg::{prefix_msg, wrap_msg, counter_msg, started_msg};

verus! {

/// The mutable play state of one session: three membership lists, the
/// counters, the current chapter and scene, the lifecycle state and the
/// event log, together with the owned content graph.
pub struct Adventure {
    pub questbook: Questbook,
    pub tags: Vec<String>,
    pub inventory: Vec<String>,
    pub statuses: Vec<String>,
    pub chapter: Option<String>,
    pub scene: Option<String>,
    pub counters: Vec<(String, i32)>,
    pub state: AdventureState,
    pub log: Vec<String>,
}

impl View for Adventure {
    type V = StateView;

    open spec fn view(&self) -> StateView {
        StateView {
            tags: dvs(self.tags@),
            inventory: dvs(self.inventory@),
            statuses: dvs(self.statuses@),
            counters: dcs(self.counters@),
            chapter: self.chapter.deep_view(),
            scene: self.scene.deep_view(),
            state: self.state,
            log: dvs(self.log@),
        }
    }
}

/// Clones a list of ids.
fn clone_strings(v: &Vec<String>) -> (r: Vec<String>)
    ensures
        r@ == v@,
{
    let mut r: Vec<String> = Vec::new();
    let n = v.len();
    let mut i: usize = 0;
    while i < n
        invariant
            n == v@.len(),
            i <= n,
            r@ == v@.take(i as int),
        decreases n - i,
    {
        r.push(v[i].clone());
        proof {
            assert(r@ =~= v@.take(i + 1));
        }
        i += 1;
    }
    proof {
        assert(v@.take(n as int) =~= v@);
    }
    r
}

impl Adventure {
    /// The play-state invariant: the counter list mirrors the content
    /// graph's counter table, and a set chapter or scene references an
    /// existing record, the scene within the current chapter.
    pub open spec fn wf(&self) -> bool {
        st_wf(self.questbook, self@)
    }

    /// Builds the initial play state over a content graph: empty
    /// membership lists and log, no chapter or scene, counters seeded
    /// from the graph's counter table.
    pub fn new(questbook: Questbook) -> (r: Adventure)
        ensures
            r.questbook == questbook,
            r.wf(),
            r@.tags == Seq::<Seq<char>>::empty(),
            r@.inventory == Seq::<Seq<char>>::empty(),
            r@.statuses == Seq::<Seq<char>>::empty(),
            r@.chapter is None,
            r@.scene is None,
            r@.state == AdventureState::Init,
            r@.log == Seq::<Seq<char>>::empty(),
            r@.counters.len() == questbook.counters@.len(),
            forall|i: int|
                0 <= i < r@.counters.len() ==> #[trigger] r@.counters[i] == (
                    questbook.counters@[i].0@,
                    questbook.counters@[i].1.value,
                ),
    {
        let mut counters: Vec<(String, i32)> = Vec::new();
        let n = questbook.counters.len();
        let mut i: usize = 0;
        while i < n
            invariant
                n == questbook.counters@.len(),
                i <= n,
                counters@.len() == i,
                forall|j: int|
                    0 <= j < i ==> (#[trigger] counters@[j]).0 == questbook.counters@[j].0
                        && counters@[j].1 == questbook.counters@[j].1.value,
            decreases n - i,
        {
            counters.push((questbook.counters[i].0.clone(), questbook.counters[i].1.value));
            i += 1;
        }
        let r = Adventure {
            questbook,
            tags: Vec::new(),
            inventory: Vec::new(),
            statuses: Vec::new(),
            chapter: None,
            scene: None,
            state: AdventureState::Init,
            counters,
            log: Vec::new(),
        };
        proof {
            assert(r@.tags =~= Seq::<Seq<char>>::empty());
            assert(r@.inventory =~= Seq::<Seq<char>>::empty());
            assert(r@.statuses =~= Seq::<Seq<char>>::empty());
            assert(r@.log =~= Seq::<Seq<char>>::empty());
            assert(forall|j: int|
                0 <= j < r@.counters.len() ==> #[trigger] r@.counters[j] == (
                    r.questbook.counters@[j].0@,
                    r.questbook.counters@[j].1.value,
                ));
        }
        r
    }

    // ---- requirement evaluation ----

    /// Whether an id is present in inventory, statuses or tags.
    fn token_present(&self, t: &str) -> (r: bool)
        ensures
            r == has_token(self@, t@),
    {
        let r = names_contain(&self.inventory, t) || names_contain(&self.statuses, t)
            || names_contain(&self.tags, t);
        proof {
            lemma_dvs_contains(self.inventory@, t@);
            lemma_dvs_contains(self.statuses@, t@);
            lemma_dvs_contains(self.tags@, t@);
        }
        r
    }

    /// The position of a counter name in the counter list, if present.
    fn counter_index(&self, name: &str) -> (r: Option<usize>)
        ensures
            match r {
                Some(i) => i < self.counters@.len() && ctr_find(self@.counters, name@) == i as int,
                None => ctr_find(self@.counters, name@) < 0,
            },
    {
        let key: String = name.to_owned();
        let n = self.counters.len();
        let mut i: usize = 0;
        while i < n
            invariant
                n == self.counters@.len(),
                i <= n,
                key@ == name@,
                forall|j: int| 0 <= j < i ==> (#[trigger] self.counters@[j]).0@ != name@,
            decreases n - i,
        {
            if self.counters[i].0 == key {
                proof {
                    assert(forall|j: int|
                        0 <= j < i ==> (#[trigger] self@.counters[j]).0 != name@);
                    lemma_ctr_find_at(self@.counters, name@, i as int);
                }
                return Some(i);
            }
            i += 1;
        }
        proof {
            assert(forall|j: int|
                0 <= j < self@.counters.len() ==> (#[trigger] self@.counters[j]).0 != name@);
            lemma_ctr_find(self@.counters, name@);
        }
        None
    }

    /// Whether one requirement holds of the current play state.
    fn req_ok(&self, r: &Requirement) -> (b: bool)
        ensures
            b == req_holds(self@, *r),
    {
        match r {
            Requirement::Require(t) => self.token_present(t.as_str()),
            Requirement::Refuse(t) => !self.token_present(t.as_str()),
            Requirement::CounterEqual(n, v) => match self.counter_index(n.as_str()) {
                Some(i) => self.counters[i].1 == *v,
                None => false,
            },
            Requirement::CounterLessThan(n, v) => match self.counter_index(n.as_str()) {
                Some(i) => self.counters[i].1 < *v,
                None => false,
            },
            Requirement::CounterGreaterThan(n, v) => match self.counter_index(n.as_str()) {
                Some(i) => self.counters[i].1 > *v,
                None => false,
            },
        }
    }

    /// Whether every requirement of the list holds; an empty list holds.
    pub fn check_requirements(&self, req: &Vec<Requirement>) -> (r: bool)
        ensures
            r == reqs_hold(self@, req@),
    {
        let n = req.len();
        let mut i: usize = 0;
        while i < n
            invariant
                n == req@.len(),
                i <= n,
                forall|j: int| 0 <= j < i ==> req_holds(self@, #[trigger] req@[j]),
            decreases n - i,
        {
            if !self.req_ok(&req[i]) {
                assert(!req_holds(self@, req@[i as int]));
                return false;
            }
            i += 1;
        }
        true
    }

    /// An absent requirement list is unconditionally satisfied.
    pub fn check_requirements_options(&self, req_opt: &Option<Vec<Requirement>>) -> (r: bool)
        ensures
            r == req_opt_holds(self@, *req_opt),
    {
        match req_opt {
            None => true,
            Some(req) => self.check_requirements(req),
        }
    }

    // ---- membership queries over the content graph ----

    /// Whether a chapter's declared scene list contains a scene id.
    pub fn chapter_contains_scene(&self, chapter: &str, scene: &str) -> (r: bool)
        ensures
            r == scene_in_chapter(self.questbook, chapter@, scene@),
    {
        match tbl_find(&self.questbook.chapters, chapter) {
            Some(c) => names_contain(&c.scenes, scene),
            None => false,
        }
    }

    /// Whether a scene's declared decision list contains a decision id.
    pub fn scene_contains_decision(&self, scene: &str, decision: &str) -> (r: bool)
        ensures
            r == scene_has_decision(self.questbook, scene@, decision@),
    {
        match tbl_find(&self.questbook.scenes, scene) {
            Some(s) => names_contain(&s.decisions, decision),
            None => false,
        }
    }

    /// Whether a decision id is declared globally at the story level.
    pub fn decision_is_global(&self, decision: &str) -> (r: bool)
        ensures
            r == global_decision(self.questbook, decision@),
    {
        match &self.questbook.story.decisions {
            Some(decisions) => names_contain(decisions, decision),
            None => false,
        }
    }

    // ---- eligibility ----

    /// Whether a chapter id is currently eligible.
    fn chapter_ok(&self, id: &str) -> (b: bool)
        ensures
            b == chapter_eligible(self.questbook, self@, id@),
    {
        match tbl_find(&self.questbook.chapters, id) {
            Some(c) => self.check_requirements_options(&c.requirements),
            None => false,
        }
    }

    /// Whether a scene id is currently eligible.
    fn scene_ok(&self, id: &str) -> (b: bool)
        ensures
            b == scene_eligible(self.questbook, self@, id@),
    {
        let ch = match &self.chapter {
            Some(c) => c.clone(),
            None => {
                return false;
            },
        };
        if !self.chapter_contains_scene(ch.as_str(), id) {
            return false;
        }
        match tbl_find(&self.questbook.scenes, id) {
            Some(s) => self.check_requirements_options(&s.requirements),
            None => false,
        }
    }

    // ---- resolver queries ----

    /// The ids of all currently eligible chapters, in chapter-table
    /// order.
    pub fn get_chapters(&self) -> (r: Vec<String>)
        ensures
            r.deep_view() == eligible_chapter_ids(self.questbook, self@),
    {
        let mut r: Vec<String> = Vec::new();
        let n = self.questbook.chapters.len();
        let mut i: usize = 0;
        proof {
            assert(dvs(r@) =~= chapter_ids_rec(self.questbook, self@, 0));
        }
        while i < n
            invariant
                n == self.questbook.chapters@.len(),
                i <= n,
                dvs(r@) == chapter_ids_rec(self.questbook, self@, i as int),
            decreases n - i,
        {
            let ghost pre = r@;
            if self.check_requirements_options(&self.questbook.chapters[i].1.requirements) {
                r.push(self.questbook.chapters[i].0.clone());
                proof {
                    lemma_dvs_push(pre, self.questbook.chapters@[i as int].0);
                }
            }
            i += 1;
        }
        proof {
            lemma_vec_deep(r);
        }
        r
    }

    /// The latest chapter of the story's canonical order that is
    /// currently eligible, or nothing when no chapter is eligible.
    pub fn get_chapter(&self) -> (r: Option<String>)
        ensures
            r.deep_view() == current_chapter(self.questbook, self@),
    {
        let n = self.questbook.story.chapters.len();
        let mut i: usize = n;
        while i > 0
            invariant
                i <= n,
                n == self.questbook.story.chapters@.len(),
                latest_idx(self.questbook, self@, n as int) == latest_idx(
                    self.questbook,
                    self@,
                    i as int,
                ),
            decreases i,
        {
            i -= 1;
            if self.chapter_ok(self.questbook.story.chapters[i].as_str()) {
                return Some(self.questbook.story.chapters[i].clone());
            }
        }
        None
    }

    /// The ids of all currently eligible scenes, in scene-table order;
    /// empty when no chapter is set.
    pub fn get_scenes(&self) -> (r: Vec<String>)
        ensures
            r.deep_view() == eligible_scene_ids(self.questbook, self@),
    {
        let mut r: Vec<String> = Vec::new();
        let n = self.questbook.scenes.len();
        let mut i: usize = 0;
        proof {
            assert(dvs(r@) =~= scene_ids_rec(self.questbook, self@, 0));
        }
        while i < n
            invariant
                n == self.questbook.scenes@.len(),
                i <= n,
                dvs(r@) == scene_ids_rec(self.questbook, self@, i as int),
            decreases n - i,
        {
            let ghost pre = r@;
            if self.scene_ok(self.questbook.scenes[i].0.as_str()) {
                r.push(self.questbook.scenes[i].0.clone());
                proof {
                    lemma_dvs_push(pre, self.questbook.scenes@[i as int].0);
                }
            }
            i += 1;
        }
        proof {
            lemma_vec_deep(r);
        }
        r
    }

    /// The ids of all currently eligible decisions, in decision-table
    /// order; empty unless both chapter and scene are set.
    pub fn get_decisions(&self) -> (r: Vec<String>)
        ensures
            r.deep_view() == eligible_decision_ids(self.questbook, self@),
    {
        let mut r: Vec<String> = Vec::new();
        let n = self.questbook.decisions.len();
        let mut i: usize = 0;
        proof {
            assert(dvs(r@) =~= decision_ids_rec(self.questbook, self@, 0));
        }
        while i < n
            invariant
                n == self.questbook.decisions@.len(),
                i <= n,
                dvs(r@) == decision_ids_rec(self.questbook, self@, i as int),
            decreases n - i,
        {
            let ghost pre = r@;
            if self.decision_ok(self.questbook.decisions[i].0.as_str()) {
                r.push(self.questbook.decisions[i].0.clone());
                proof {
                    lemma_dvs_push(pre, self.questbook.decisions@[i as int].0);
                }
            }
            i += 1;
        }
        proof {
            lemma_vec_deep(r);
        }
        r
    }

    /// The first eligible scene of the current chapter's declared scene
    /// order.
    fn first_scene(&self) -> (r: Option<String>)
        ensures
            r.deep_view() == first_eligible_scene(self.questbook, self@),
    {
        let ch = match &self.chapter {
            Some(c) => c.clone(),
            None => {
                return None;
            },
        };
        let chrec = match tbl_find(&self.questbook.chapters, ch.as_str()) {
            Some(c) => c,
            None => {
                return None;
            },
        };
        let n = chrec.scenes.len();
        let mut i: usize = 0;
        while i < n
            invariant
                n == chrec.scenes@.len(),
                i <= n,
                tbl_get(self.questbook.chapters@, ch@) == Some(*chrec),
                self@.chapter == Some(ch@),
                first_scene_from(self.questbook, self@, chrec.scenes@, 0) == first_scene_from(
                    self.questbook,
                    self@,
                    chrec.scenes@,
                    i as int,
                ),
            decreases n - i,
        {
            if self.scene_ok(chrec.scenes[i].as_str()) {
                return Some(chrec.scenes[i].clone());
            }
            i += 1;
        }
        None
    }

    /// The scene the resolver reports: the already-set scene if any,
    /// otherwise the first eligible scene of the current chapter's
    /// declared order.
    pub fn get_scene(&mut self) -> (r: Option<String>)
        ensures
            *final(self) == *old(self),
            r.deep_view() == sticky_scene(old(self).questbook, old(self)@),
    {
        match &self.scene {
            Some(s) => {
                return Some(s.clone());
            },
            None => {},
        }
        self.first_scene()
    }

    /// Whether a decision id is currently eligible.
    fn decision_ok(&self, id: &str) -> (b: bool)
        ensures
            b == decision_eligible(self.questbook, self@, id@),
    {
        if self.chapter.is_none() {
            return false;
        }
        let sc = match &self.scene {
            Some(s) => s.clone(),
            None => {
                return false;
            },
        };
        if !(self.scene_contains_decision(sc.as_str(), id) || self.decision_is_global(id)) {
            return false;
        }
        match tbl_find(&self.questbook.decisions, id) {
            Some(d) => self.check_requirements_options(&d.requirements),
            None => false,
        }
    }

    // ---- mutation: scene and chapter cascades ----

    /// Activates a scene without trigger evaluation: a silent no-op for
    /// an ineligible target.
    fn set_scene(&mut self, id: &str)
        ensures
            final(self).questbook == old(self).questbook,
            final(self)@ == set_scene_tr(old(self).questbook, old(self)@, id@),
    {
        if !self.scene_ok(id) {
            return;
        }
        self.scene = Some(id.to_owned());
        let m = prefix_msg("Scene changed to: ", id);
        let ghost ms = m;
        let ghost pre = self.log@;
        self.log.push(m);
        proof {
            lemma_dvs_push(pre, ms);
            assert(self@ =~~= set_scene_tr(old(self).questbook, old(self)@, id@));
        }
    }

    /// Forces scene re-selection: activates the first eligible scene of
    /// the current chapter's declared order, or clears the scene, logs a
    /// terminal event and ends the session when none is eligible.
    pub fn change_scenes(&mut self)
        requires
            ctrs_ok(old(self).questbook, old(self)@),
            chapter_wf(old(self).questbook, old(self)@),
        ensures
            final(self).questbook == old(self).questbook,
            final(self)@ == change_scenes_tr(old(self).questbook, old(self)@),
            final(self).wf(),
            old(self)@.log.is_prefix_of(final(self)@.log),
            state_rank(old(self)@.state) <= state_rank(final(self)@.state),
    {
        proof {
            lemma_change_scenes_frame(old(self).questbook, old(self)@);
        }
        match self.first_scene() {
            None => {
                self.scene = None;
                let m = String::from_str("No more scenes available");
                let ghost ms = m;
                let ghost pre = self.log@;
                self.log.push(m);
                self.state = AdventureState::Ended;
                proof {
                    lemma_dvs_push(pre, ms);
                    assert(self@ =~~= change_scenes_tr(old(self).questbook, old(self)@));
                }
            },
            Some(s) => {
                self.set_scene(s.as_str());
                proof {
                    assert(self@ =~~= change_scenes_tr(old(self).questbook, old(self)@));
                }
            },
        }
    }

    /// Re-derives the current chapter: a no-op when unchanged; a switch
    /// logs the transition and forces scene re-selection; no eligible
    /// chapter logs a terminal event and ends the session.
    pub fn change_chapter(&mut self)
        requires
            old(self).wf(),
        ensures
            final(self).questbook == old(self).questbook,
            final(self)@ == change_chapter_tr(old(self).questbook, old(self)@),
            final(self).wf(),
            old(self)@.log.is_prefix_of(final(self)@.log),
            state_rank(old(self)@.state) <= state_rank(final(self)@.state),
    {
        proof {
            lemma_change_chapter_frame(old(self).questbook, old(self)@);
            lemma_current_chapter_valid(old(self).questbook, old(self)@);
        }
        match self.get_chapter() {
            Some(chapter) => {
                let same = match &self.chapter {
                    Some(c) => *c == chapter,
                    None => false,
                };
                if same {
                    return;
                }
                assert(self@.chapter != Some(chapter@));
                self.chapter = Some(chapter.clone());
                let m = prefix_msg("Chapter changed to: ", chapter.as_str());
                let ghost ms = m;
                let ghost pre = self.log@;
                self.log.push(m);
                proof {
                    lemma_dvs_push(pre, ms);
                    assert(self@ =~~= (StateView {
                        chapter: Some(chapter@),
                        log: old(self)@.log.push(
                            crate::msg::msg_chapter_changed(chapter@),
                        ),
                        ..old(self)@
                    }));
                }
                self.change_scenes();
                proof {
                    assert(self@ =~~= change_chapter_tr(old(self).questbook, old(self)@));
                }
            },
            None => {
                self.chapter = None;
                let m = String::from_str("No more chapters available");
                let ghost ms = m;
                let ghost pre = self.log@;
                self.log.push(m);
                self.state = AdventureState::Ended;
                proof {
                    lemma_dvs_push(pre, ms);
                    assert(self@ =~~= change_chapter_tr(old(self).questbook, old(self)@));
                }
            },
        }
    }

    // ---- mutation: consequence application ----

    /// Whether the item table knows an id.
    fn is_item(&self, id: &str) -> (r: bool)
        ensures
            r == tbl_has(self.questbook.items@, id@),
    {
        match tbl_find(&self.questbook.items, id) {
            Some(_) => {
                proof {
                    lemma_tbl_get_index(self.questbook.items@, id@);
                }
                true
            },
            None => {
                proof {
                    if tbl_has(self.questbook.items@, id@) {
                        lemma_tbl_has_get(self.questbook.items@, id@);
                    }
                }
                false
            },
        }
    }

    /// Whether the status table knows an id.
    fn is_status(&self, id: &str) -> (r: bool)
        ensures
            r == tbl_has(self.questbook.statuses@, id@),
    {
        match tbl_find(&self.questbook.statuses, id) {
            Some(_) => {
                proof {
                    lemma_tbl_get_index(self.questbook.statuses@, id@);
                }
                true
            },
            None => {
                proof {
                    if tbl_has(self.questbook.statuses@, id@) {
                        lemma_tbl_has_get(self.questbook.statuses@, id@);
                    }
                }
                false
            },
        }
    }

    /// Grants one id: into inventory when the item table knows it, else
    /// into statuses when the status table knows it, else as a tag.
    fn grant_id(&mut self, id: &str)
        ensures
            final(self).questbook == old(self).questbook,
            final(self)@ == grant_one(old(self).questbook, old(self)@, id@),
    {
        if self.is_item(id) {
            if !names_contain(&self.inventory, id) {
                let ghost pre = self.inventory@;
                self.inventory.push(id.to_owned());
                proof {
                    lemma_dvs_push(pre, self.inventory@.last());
                    lemma_dvs_contains(pre, id@);
                }
            } else {
                proof {
                    lemma_dvs_contains(self.inventory@, id@);
                }
            }
            let m = wrap_msg("Item ", id, " added");
            let ghost ms = m;
            let ghost prelog = self.log@;
            self.log.push(m);
            proof {
                lemma_dvs_push(prelog, ms);
                assert(self@ =~~= grant_one(old(self).questbook, old(self)@, id@));
            }
        } else if self.is_status(id) {
            if !names_contain(&self.statuses, id) {
                let ghost pre = self.statuses@;
                self.statuses.push(id.to_owned());
                proof {
                    lemma_dvs_push(pre, self.statuses@.last());
                    lemma_dvs_contains(pre, id@);
                }
            } else {
                proof {
                    lemma_dvs_contains(self.statuses@, id@);
                }
            }
            let m = wrap_msg("Status ", id, " added");
            let ghost ms = m;
            let ghost prelog = self.log@;
            self.log.push(m);
            proof {
                lemma_dvs_push(prelog, ms);
                assert(self@ =~~= grant_one(old(self).questbook, old(self)@, id@));
            }
        } else {
            if !names_contain(&self.tags, id) {
                let ghost pre = self.tags@;
                self.tags.push(id.to_owned());
                proof {
                    lemma_dvs_push(pre, self.tags@.last());
                    lemma_dvs_contains(pre, id@);
                }
            } else {
                proof {
                    lemma_dvs_contains(self.tags@, id@);
                }
            }
            let m = wrap_msg("Tag ", id, " added");
            let ghost ms = m;
            let ghost prelog = self.log@;
            self.log.push(m);
            proof {
                lemma_dvs_push(prelog, ms);
                assert(self@ =~~= grant_one(old(self).questbook, old(self)@, id@));
            }
        }
    }

    /// Removes one id: from inventory when the item table knows it, else
    /// from statuses.
    fn cost_id(&mut self, id: &str)
        ensures
            final(self).questbook == old(self).questbook,
            final(self)@ == cost_one(old(self).questbook, old(self)@, id@),
    {
        if self.is_item(id) {
            remove_first(&mut self.inventory, id);
            let m = wrap_msg("Item ", id, " removed");
            let ghost ms = m;
            let ghost prelog = self.log@;
            self.log.push(m);
            proof {
                lemma_dvs_push(prelog, ms);
                assert(self@ =~~= cost_one(old(self).questbook, old(self)@, id@));
            }
        } else {
            remove_first(&mut self.statuses, id);
            let m = wrap_msg("Status ", id, " removed");
            let ghost ms = m;
            let ghost prelog = self.log@;
            self.log.push(m);
            proof {
                lemma_dvs_push(prelog, ms);
                assert(self@ =~~= cost_one(old(self).questbook, old(self)@, id@));
            }
        }
    }

    /// Adds a delta (wrapping) to a named counter's value and logs the
    /// new value; an unknown counter name is silently ignored.
    fn bump_counter(&mut self, name: &str, delta: i32)
        ensures
            final(self).questbook == old(self).questbook,
            final(self)@ == counter_tr(old(self)@, name@, delta),
    {
        match self.counter_index(name) {
            Some(i) => {
                let nv = self.counters[i].1.wrapping_add(delta);
                let ghost prec = self.counters@;
                self.counters[i].1 = nv;
                proof {
                    lemma_ctr_find(old(self)@.counters, name@);
                    assert(dcs(self.counters@) =~= old(self)@.counters.update(
                        i as int,
                        (name@, nv),
                    ));
                }
                let m = counter_msg(name, nv);
                let ghost ms = m;
                let ghost prelog = self.log@;
                self.log.push(m);
                proof {
                    lemma_dvs_push(prelog, ms);
                    assert(self@ =~~= counter_tr(old(self)@, name@, delta));
                }
            },
            None => {},
        }
    }

    /// Applies one consequence as a unit: logs it, grants the provides,
    /// removes the costs, applies the counter delta, switches to the
    /// target scene without trigger evaluation, and unconditionally
    /// re-derives the current chapter. The returned list is always
    /// empty.
    pub fn apply_consequence(&mut self, consequence: &str) -> (r: Vec<String>)
        requires
            old(self).wf(),
            tbl_has(old(self).questbook.consequences@, consequence@),
        ensures
            final(self).questbook == old(self).questbook,
            final(self)@ == apply_consequence_tr(old(self).questbook, old(self)@, consequence@),
            final(self).wf(),
            old(self)@.log.is_prefix_of(final(self)@.log),
            state_rank(old(self)@.state) <= state_rank(final(self)@.state),
            r@ == Seq::<String>::empty(),
    {
        proof {
            lemma_apply_consequence_frame(old(self).questbook, old(self)@, consequence@);
            lemma_tbl_has_get(old(self).questbook.consequences@, consequence@);
        }
        let ghost book = old(self).questbook;
        let m = prefix_msg("Applying consequence: ", consequence);
        let ghost ms = m;
        let ghost prelog = self.log@;
        self.log.push(m);
        let ghost st0 = push_log(old(self)@, crate::msg::msg_applying_consequence(consequence@));
        proof {
            lemma_dvs_push(prelog, ms);
            assert(self@ =~~= st0);
        }
        let (provides, costs, counter, target) = match tbl_find(
            &self.questbook.consequences,
            consequence,
        ) {
            Some(c) => (
                match &c.provides {
                    Some(v) => Some(clone_strings(v)),
                    None => None,
                },
                match &c.costs {
                    Some(v) => Some(clone_strings(v)),
                    None => None,
                },
                match &c.counter {
                    Some(p) => Some((p.0.clone(), p.1)),
                    None => None,
                },
                match &c.scene {
                    Some(s) => Some(s.clone()),
                    None => None,
                },
            ),
            None => {
                proof {
                    assert(false);
                }
                (None, None, None, None)
            },
        };
        let ghost crec = tbl_get(book.consequences@, consequence@).unwrap();
        let ghost pids = match crec.provides {
            Some(v) => v@,
            None => Seq::<String>::empty(),
        };
        let ghost cids = match crec.costs {
            Some(v) => v@,
            None => Seq::<String>::empty(),
        };

        // Provide items, statuses, or tags.
        match &provides {
            Some(v) => {
                proof {
                    assert(v@ == pids);
                }
                self.apply_grants(v);
            },
            None => {},
        }
        let ghost st1 = grants_tr(book, st0, pids);
        proof {
            assert(self@ =~~= st1);
            lemma_grants_frame(book, st0, pids);
        }

        // Remove items or statuses.
        match &costs {
            Some(v) => {
                proof {
                    assert(v@ == cids);
                }
                self.apply_costs(v);
            },
            None => {},
        }
        let ghost st2 = costs_tr(book, st1, cids);
        proof {
            assert(self@ =~~= st2);
            lemma_costs_frame(book, st1, cids);
        }

        // Change counters.
        match &counter {
            Some(p) => {
                self.bump_counter(p.0.as_str(), p.1);
            },
            None => {},
        }
        let ghost st3 = match crec.counter {
            Some((n, d)) => counter_tr(st2, n@, d),
            None => st2,
        };
        proof {
            assert(self@ =~~= st3);
            match crec.counter {
                Some((n, d)) => lemma_counter_frame(book, st2, n@, d),
                None => lemma_frame_refl(book, st2),
            }
        }

        // Move to the target scene, triggers deferred.
        match &target {
            Some(s) => {
                self.set_scene(s.as_str());
            },
            None => {},
        }
        let ghost st4 = match crec.scene {
            Some(s) => set_scene_tr(book, st3, s@),
            None => st3,
        };
        proof {
            assert(self@ =~~= st4);
            match crec.scene {
                Some(s) => lemma_set_scene_frame(book, st3, s@),
                None => lemma_frame_refl(book, st3),
            }
        }

        // Unconditionally re-derive the current chapter.
        self.change_chapter();
        proof {
            assert(self@ =~~= apply_consequence_tr(book, old(self)@, consequence@));
        }
        Vec::new()
    }

    /// Grants a list of ids in order.
    fn apply_grants(&mut self, ids: &Vec<String>)
        ensures
            final(self).questbook == old(self).questbook,
            final(self)@ == grants_tr(old(self).questbook, old(self)@, ids@),
    {
        let ghost base = old(self)@;
        let ghost book = old(self).questbook;
        let n = ids.len();
        let mut i: usize = 0;
        proof {
            assert(ids@.take(0) =~= Seq::<String>::empty());
        }
        while i < n
            invariant
                n == ids@.len(),
                i <= n,
                self.questbook == book,
                book == old(self).questbook,
                self@ == grants_tr(book, base, ids@.take(i as int)),
            decreases n - i,
        {
            self.grant_id(ids[i].as_str());
            proof {
                assert(ids@.take(i + 1).drop_last() =~= ids@.take(i as int));
                assert(ids@.take(i + 1).last() == ids@[i as int]);
            }
            i += 1;
        }
        proof {
            assert(ids@.take(n as int) =~= ids@);
        }
    }

    /// Removes a list of ids in order.
    fn apply_costs(&mut self, ids: &Vec<String>)
        ensures
            final(self).questbook == old(self).questbook,
            final(self)@ == costs_tr(old(self).questbook, old(self)@, ids@),
    {
        let ghost base = old(self)@;
        let ghost book = old(self).questbook;
        let n = ids.len();
        let mut i: usize = 0;
        proof {
            assert(ids@.take(0) =~= Seq::<String>::empty());
        }
        while i < n
            invariant
                n == ids@.len(),
                i <= n,
                self.questbook == book,
                book == old(self).questbook,
                self@ == costs_tr(book, base, ids@.take(i as int)),
            decreases n - i,
        {
            self.cost_id(ids[i].as_str());
            proof {
                assert(ids@.take(i + 1).drop_last() =~= ids@.take(i as int));
                assert(ids@.take(i + 1).last() == ids@[i as int]);
            }
            i += 1;
        }
        proof {
            assert(ids@.take(n as int) =~= ids@);
        }
    }
    /// Applies a list of consequence ids sequentially in declared order.
    fn apply_seq(&mut self, ids: &Vec<String>)
        requires
            old(self).wf(),
            forall|j: int|
                0 <= j < ids@.len() ==> tbl_has(
                    old(self).questbook.consequences@,
                    (#[trigger] ids@[j])@,
                ),
        ensures
            final(self).questbook == old(self).questbook,
            final(self)@ == apply_seq_tr(old(self).questbook, old(self)@, ids@),
            final(self).wf(),
    {
        let ghost book = old(self).questbook;
        let ghost base = old(self)@;
        let n = ids.len();
        let mut i: usize = 0;
        proof {
            assert(ids@.take(0) =~= Seq::<String>::empty());
        }
        while i < n
            invariant
                n == ids@.len(),
                i <= n,
                self.questbook == book,
                book == old(self).questbook,
                forall|j: int|
                    0 <= j < ids@.len() ==> tbl_has(book.consequences@, (#[trigger] ids@[j])@),
                self@ == apply_seq_tr(book, base, ids@.take(i as int)),
                self.wf(),
            decreases n - i,
        {
            self.apply_consequence(ids[i].as_str());
            proof {
                assert(ids@.take(i + 1).drop_last() =~= ids@.take(i as int));
                assert(ids@.take(i + 1).last() == ids@[i as int]);
            }
            i += 1;
        }
        proof {
            assert(ids@.take(n as int) =~= ids@);
        }
    }

    /// One trigger pass: every trigger whose requirements are satisfied
    /// in the snapshot taken before the pass fires, applying its
    /// consequences; a trigger made newly eligible within the pass waits
    /// for the next invocation.
    pub fn check_triggers(&mut self)
        requires
            old(self).wf(),
            book_wf(old(self).questbook),
        ensures
            final(self).questbook == old(self).questbook,
            final(self)@ == triggers_tr(old(self).questbook, old(self)@),
            final(self).wf(),
            old(self)@.log.is_prefix_of(final(self)@.log),
            state_rank(old(self)@.state) <= state_rank(final(self)@.state),
    {
        let ghost book = old(self).questbook;
        let ghost snap = old(self)@;
        proof {
            lemma_triggers_frame(book, snap);
        }
        // Snapshot pass: collect the consequence lists of the satisfied
        // triggers, in table order, before any state mutation.
        let mut plans: Vec<Vec<String>> = Vec::new();
        let n = self.questbook.triggers.len();
        let mut i: usize = 0;
        while i < n
            invariant
                n == book.triggers@.len(),
                i <= n,
                *self == *old(self),
                book == old(self).questbook,
                snap == old(self)@,
                plans@.len() == fired_triggers_rec(book.triggers@, snap, i as int).len(),
                forall|k: int|
                    0 <= k < plans@.len() ==> (#[trigger] plans@[k])@ == fired_triggers_rec(
                        book.triggers@,
                        snap,
                        i as int,
                    )[k].1.consequences@,
            decreases n - i,
        {
            let ghost prefired = fired_triggers_rec(book.triggers@, snap, i as int);
            let ghost preplans = plans@;
            let sat = self.check_requirements(&self.questbook.triggers[i].1.requirements);
            proof {
                assert(self@ == snap);
                assert(sat == reqs_hold(snap, book.triggers@[i as int].1.requirements@));
            }
            if sat {
                plans.push(clone_strings(&self.questbook.triggers[i].1.consequences));
                proof {
                    let cur = fired_triggers_rec(book.triggers@, snap, i + 1);
                    assert(cur == prefired.push(book.triggers@[i as int]));
                    assert(forall|k: int| 0 <= k < prefired.len() ==> cur[k] == prefired[k]);
                    assert(forall|k: int| 0 <= k < preplans.len() ==> plans@[k] == preplans[k]);
                    assert(plans@.last()@ == cur.last().1.consequences@);
                }
            }
            i += 1;
        }
        // Firing pass: apply each fired trigger's consequences in order.
        let ghost fired = fired_triggers(book.triggers@, snap);
        proof {
            lemma_fired_triggers_sound(book.triggers@, snap, n as int);
            assert(fired.take(0) =~= Seq::<(String, Trigger)>::empty());
        }
        let m = plans.len();
        let mut k: usize = 0;
        while k < m
            invariant
                m == plans@.len(),
                k <= m,
                m == fired.len(),
                self.questbook == book,
                book == old(self).questbook,
                book_wf(book),
                snap == old(self)@,
                fired == fired_triggers(book.triggers@, snap),
                forall|x: int|
                    0 <= x < m ==> (#[trigger] plans@[x])@ == fired[x].1.consequences@,
                forall|x: int| 0 <= x < m ==> book.triggers@.contains(#[trigger] fired[x]),
                self@ == fire_all_tr(book, snap, fired.take(k as int)),
                self.wf(),
            decreases m - k,
        {
            proof {
                let e = fired[k as int];
                let ti = choose|ti: int|
                    0 <= ti < book.triggers@.len() && book.triggers@[ti] == e;
                assert(crate::book::ids_in_consequences(book, e.1.consequences@));
                assert(forall|j: int|
                    0 <= j < plans@[k as int]@.len() ==> tbl_has(
                        book.consequences@,
                        (#[trigger] plans@[k as int]@[j])@,
                    ));
            }
            self.apply_seq(&plans[k]);
            proof {
                assert(fired.take(k + 1).drop_last() =~= fired.take(k as int));
                assert(fired.take(k + 1).last() == fired[k as int]);
            }
            k += 1;
        }
        proof {
            assert(fired.take(m as int) =~= fired);
            assert(self@ =~~= triggers_tr(book, snap));
        }
    }

    /// A player-requested scene change: a silent no-op for an ineligible
    /// target; otherwise the scene is activated and, when requested, a
    /// trigger pass runs afterwards.
    pub fn change_scene(&mut self, scene: &str, check_triggers: bool)
        requires
            old(self).wf(),
            check_triggers ==> book_wf(old(self).questbook),
        ensures
            final(self).questbook == old(self).questbook,
            final(self)@ == change_scene_tr(
                old(self).questbook,
                old(self)@,
                scene@,
                check_triggers,
            ),
            final(self).wf(),
            old(self)@.log.is_prefix_of(final(self)@.log),
            state_rank(old(self)@.state) <= state_rank(final(self)@.state),
    {
        proof {
            lemma_change_scene_frame(old(self).questbook, old(self)@, scene@, check_triggers);
        }
        if !self.scene_ok(scene) {
            return;
        }
        proof {
            lemma_set_scene_frame(old(self).questbook, old(self)@, scene@);
        }
        self.set_scene(scene);
        if check_triggers {
            self.check_triggers();
        }
        proof {
            assert(self@ =~~= change_scene_tr(
                old(self).questbook,
                old(self)@,
                scene@,
                check_triggers,
            ));
        }
    }

    /// Makes a decision: a silent no-op with an empty result for an
    /// ineligible id; otherwise logs the decision, returns its
    /// descriptive lines, applies its consequences sequentially in
    /// declared order, and runs one trigger pass at the end.
    pub fn make_decision(&mut self, decision: &str) -> (output: Vec<String>)
        requires
            old(self).wf(),
            book_wf(old(self).questbook),
        ensures
            final(self).questbook == old(self).questbook,
            final(self)@ == make_decision_tr(old(self).questbook, old(self)@, decision@),
            output.deep_view() == decision_output(old(self).questbook, old(self)@, decision@),
            final(self).wf(),
            old(self)@.log.is_prefix_of(final(self)@.log),
            state_rank(old(self)@.state) <= state_rank(final(self)@.state),
    {
        let ghost book = old(self).questbook;
        proof {
            lemma_make_decision_frame(book, old(self)@, decision@);
        }
        if !self.decision_ok(decision) {
            let output: Vec<String> = Vec::new();
            proof {
                assert(output.deep_view() =~= Seq::<Seq<char>>::empty());
            }
            return output;
        }
        let m = prefix_msg("Decision made: ", decision);
        let ghost ms = m;
        let ghost prelog = self.log@;
        self.log.push(m);
        let ghost st1 = push_log(old(self)@, crate::msg::msg_decision_made(decision@));
        proof {
            lemma_dvs_push(prelog, ms);
            assert(self@ =~~= st1);
        }
        let (output, cons) = match tbl_find(&self.questbook.decisions, decision) {
            Some(d) => (d.describe(), clone_strings(&d.consequences)),
            None => {
                proof {
                    assert(false);
                }
                (Vec::new(), Vec::new())
            },
        };
        proof {
            lemma_tbl_get_index(book.decisions@, decision@);
            let di = choose|di: int|
                0 <= di < book.decisions@.len() && book.decisions@[di].0@ == decision@
                    && tbl_get(book.decisions@, decision@) == Some(book.decisions@[di].1);
            assert(crate::book::ids_in_consequences(book, book.decisions@[di].1.consequences@));
            assert(forall|j: int|
                0 <= j < cons@.len() ==> tbl_has(book.consequences@, (#[trigger] cons@[j])@));
        }
        self.apply_seq(&cons);
        self.check_triggers();
        proof {
            assert(self@ =~~= make_decision_tr(book, old(self)@, decision@));
        }
        output
    }

    /// The initial resolution: called once on the freshly built play
    /// state. With an eligible chapter the session starts there, the
    /// first eligible scene is selected and the start logged; with none
    /// the session ends immediately.
    pub fn start(&mut self)
        requires
            old(self).wf(),
            old(self)@.state == AdventureState::Init,
            old(self)@.chapter is None,
            old(self)@.scene is None,
        ensures
            final(self).questbook == old(self).questbook,
            final(self)@ == start_tr(old(self).questbook, old(self)@),
            final(self).wf(),
            old(self)@.log.is_prefix_of(final(self)@.log),
            state_rank(old(self)@.state) <= state_rank(final(self)@.state),
    {
        let ghost book = old(self).questbook;
        proof {
            lemma_start_frame(book, old(self)@);
        }
        match self.get_chapter() {
            Some(ch) => {
                self.chapter = Some(ch.clone());
                self.state = AdventureState::Started;
                let ghost st1 = StateView {
                    chapter: Some(ch@),
                    state: AdventureState::Started,
                    ..old(self)@
                };
                proof {
                    assert(self@ =~~= st1);
                }
                let sc = self.get_scene();
                self.scene = match &sc {
                    Some(s) => Some(s.clone()),
                    None => None,
                };
                let m = started_msg(ch.as_str(), &sc);
                let ghost ms = m;
                let ghost prelog = self.log@;
                self.log.push(m);
                proof {
                    lemma_dvs_push(prelog, ms);
                    assert(self@ =~~= start_tr(book, old(self)@));
                }
            },
            None => {
                self.chapter = None;
                self.state = AdventureState::Ended;
                proof {
                    assert(self@ =~~= start_tr(book, old(self)@));
                }
            },
        }
    }
}

/// Removes the first occurrence of an id from a membership list, if any.
fn remove_first(v: &mut Vec<String>, id: &str)
    ensures
        dvs(final(v)@) == remove_name(dvs(old(v)@), id@),
{
    let key: String = id.to_owned();
    let n = v.len();
    let mut i: usize = 0;
    while i < n
        invariant
            n == v@.len(),
            i <= n,
            key@ == id@,
            *v == *old(v),
            forall|j: int| 0 <= j < i ==> v@[j]@ != id@,
        decreases n - i,
    {
        if v[i] == key {
            proof {
                assert(forall|j: int| 0 <= j < i ==> dvs(v@)[j] != id@);
                lemma_name_find_at(dvs(v@), id@, i as int);
            }
            let ghost pre = v@;
            v.remove(i);
            proof {
                lemma_dvs_remove(pre, i as int);
            }
            return;
        }
        i += 1;
    }
    proof {
        assert(forall|j: int| 0 <= j < dvs(v@).len() ==> dvs(v@)[j] != id@);
        lemma_name_find(dvs(v@), id@);
    }
}

} // verus!
