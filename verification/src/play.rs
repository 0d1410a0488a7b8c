//! The mathematical model of play state and of every state transition.
//!
//! [`StateView`] is the abstraction of an `Adventure`'s mutable state: the
//! three membership lists, the counters, the current chapter and scene, the
//! lifecycle state and the event log, all over `Seq<char>` ids. Every
//! mutating method of the engine is specified as equal to one of the
//! transition functions below.

use vstd::prelude::*;
use crate::book::{Questbook, Requirement, Trigger, Describe, tbl_get, tbl_has, names_has};
use crate::msg::{
    msg_started, msg_chapter_changed, msg_no_chapters, msg_scene_changed, msg_no_scenes,
    msg_decision_made, msg_applying_consequence, msg_item_added, msg_status_added, msg_tag_added,
    msg_item_removed, msg_status_removed, msg_counter_changed,
};

verus! {

/// The lifecycle of one play session; it only ever moves forward.
#[derive(PartialEq, Eq, Structural, Clone, Copy, Debug)]
pub enum AdventureState {
    Init,
    Started,
    Ended,
}

/// The position of a lifecycle state in the forward order.
pub open spec fn state_rank(s: AdventureState) -> int {
    match s {
        AdventureState::Init => 0,
        AdventureState::Started => 1,
        AdventureState::Ended => 2,
    }
}

/// The abstraction of a session's mutable play state.
#[verifier::ext_equal]
pub struct StateView {
    /// Granted ids that are neither items nor statuses.
    pub tags: Seq<Seq<char>>,
    /// Granted ids that the item table knows.
    pub inventory: Seq<Seq<char>>,
    /// Granted ids that the status table knows.
    pub statuses: Seq<Seq<char>>,
    /// Counter names with their current values, in the order the content
    /// graph declares them; the name list never changes after construction.
    pub counters: Seq<(Seq<char>, i32)>,
    /// The current chapter id, if one is set.
    pub chapter: Option<Seq<char>>,
    /// The current scene id, if one is set.
    pub scene: Option<Seq<char>>,
    /// The lifecycle state.
    pub state: AdventureState,
    /// The append-only event log.
    pub log: Seq<Seq<char>>,
}

// ---- views of the executable representations ----

/// The id sequence of a list of strings.
pub open spec fn dvs(s: Seq<String>) -> Seq<Seq<char>> {
    Seq::new(s.len(), |i: int| s[i]@)
}

/// The (name, value) sequence of a counter list.
pub open spec fn dcs(s: Seq<(String, i32)>) -> Seq<(Seq<char>, i32)> {
    Seq::new(s.len(), |i: int| (s[i].0@, s[i].1))
}

pub proof fn lemma_dvs_push(s: Seq<String>, x: String)
    ensures
        dvs(s.push(x)) == dvs(s).push(x@),
{
    assert(dvs(s.push(x)) =~= dvs(s).push(x@));
}

pub proof fn lemma_dvs_remove(s: Seq<String>, i: int)
    requires
        0 <= i < s.len(),
    ensures
        dvs(s.remove(i)) == dvs(s).remove(i),
{
    assert(dvs(s.remove(i)) =~= dvs(s).remove(i));
}

/// The deep view of a vector of strings is the id sequence of its view.
pub proof fn lemma_vec_deep(v: Vec<String>)
    ensures
        v.deep_view() == dvs(v@),
{
    assert(v.deep_view() =~= dvs(v@));
}

pub proof fn lemma_dvs_contains(s: Seq<String>, x: Seq<char>)
    ensures
        dvs(s).contains(x) == names_has(s, x),
{
    if names_has(s, x) {
        let i = choose|i: int| 0 <= i < s.len() && s[i]@ == x;
        assert(dvs(s)[i] == x);
    }
    if dvs(s).contains(x) {
        let i = choose|i: int| 0 <= i < dvs(s).len() && dvs(s)[i] == x;
        assert(s[i]@ == x);
    }
}

// ---- membership and counters ----

/// Whether an id is present in any of the three membership lists.
pub open spec fn has_token(st: StateView, t: Seq<char>) -> bool {
    st.inventory.contains(t) || st.statuses.contains(t) || st.tags.contains(t)
}

/// The index of the first occurrence of an id in a list, or a negative
/// value when absent.
pub open spec fn name_find(v: Seq<Seq<char>>, x: Seq<char>) -> int
    decreases v.len(),
{
    if v.len() == 0 {
        -1
    } else if v[0] == x {
        0
    } else {
        let r = name_find(v.drop_first(), x);
        if r < 0 {
            -1
        } else {
            r + 1
        }
    }
}

pub proof fn lemma_name_find(v: Seq<Seq<char>>, x: Seq<char>)
    ensures
        -1 <= name_find(v, x) < v.len(),
        name_find(v, x) >= 0 ==> v[name_find(v, x)] == x,
        (name_find(v, x) >= 0) == v.contains(x),
    decreases v.len(),
{
    if v.len() > 0 && v[0] != x {
        lemma_name_find(v.drop_first(), x);
        assert(forall|j: int| 0 <= j < v.len() - 1 ==> v.drop_first()[j] == v[j + 1]);
        if v.contains(x) {
            let i = choose|i: int| 0 <= i < v.len() && v[i] == x;
            assert(v.drop_first()[i - 1] == x);
        }
    }
}

/// The first index with no earlier occurrence is the one found.
pub proof fn lemma_name_find_at(v: Seq<Seq<char>>, x: Seq<char>, i: int)
    requires
        0 <= i < v.len(),
        v[i] == x,
        forall|j: int| 0 <= j < i ==> v[j] != x,
    ensures
        name_find(v, x) == i,
    decreases i,
{
    if i > 0 {
        assert(forall|j: int| 0 <= j < i - 1 ==> v.drop_first()[j] == v[j + 1]);
        assert(v.drop_first()[i - 1] == v[i]);
        lemma_name_find_at(v.drop_first(), x, i - 1);
    } else {
        lemma_name_find(v, x);
    }
}

/// The counter list's value for a name, or nothing for an unknown name.
pub open spec fn ctr_find(cs: Seq<(Seq<char>, i32)>, k: Seq<char>) -> int
    decreases cs.len(),
{
    if cs.len() == 0 {
        -1
    } else if cs[0].0 == k {
        0
    } else {
        let r = ctr_find(cs.drop_first(), k);
        if r < 0 {
            -1
        } else {
            r + 1
        }
    }
}

pub open spec fn ctr_get(cs: Seq<(Seq<char>, i32)>, k: Seq<char>) -> Option<i32> {
    let i = ctr_find(cs, k);
    if i < 0 {
        None
    } else {
        Some(cs[i].1)
    }
}

pub proof fn lemma_ctr_find(cs: Seq<(Seq<char>, i32)>, k: Seq<char>)
    ensures
        -1 <= ctr_find(cs, k) < cs.len(),
        ctr_find(cs, k) >= 0 ==> cs[ctr_find(cs, k)].0 == k,
        (ctr_find(cs, k) >= 0) == exists|i: int| 0 <= i < cs.len() && cs[i].0 == k,
    decreases cs.len(),
{
    if cs.len() > 0 && cs[0].0 != k {
        lemma_ctr_find(cs.drop_first(), k);
        assert(forall|j: int| 0 <= j < cs.len() - 1 ==> cs.drop_first()[j] == cs[j + 1]);
        if exists|i: int| 0 <= i < cs.len() && cs[i].0 == k {
            let i = choose|i: int| 0 <= i < cs.len() && cs[i].0 == k;
            assert(cs.drop_first()[i - 1].0 == k);
        }
    }
}

pub proof fn lemma_ctr_find_at(cs: Seq<(Seq<char>, i32)>, k: Seq<char>, i: int)
    requires
        0 <= i < cs.len(),
        cs[i].0 == k,
        forall|j: int| 0 <= j < i ==> cs[j].0 != k,
    ensures
        ctr_find(cs, k) == i,
    decreases i,
{
    if i > 0 {
        assert(forall|j: int| 0 <= j < i - 1 ==> cs.drop_first()[j] == cs[j + 1]);
        assert(cs.drop_first()[i - 1] == cs[i]);
        lemma_ctr_find_at(cs.drop_first(), k, i - 1);
    } else {
        lemma_ctr_find(cs, k);
    }
}

// ---- requirement evaluation ----

/// Whether one requirement holds of the play state. Counter comparisons
/// fail closed on an unknown counter name.
pub open spec fn req_holds(st: StateView, r: Requirement) -> bool {
    match r {
        Requirement::Require(t) => has_token(st, t@),
        Requirement::Refuse(t) => !has_token(st, t@),
        Requirement::CounterEqual(n, v) => match ctr_get(st.counters, n@) {
            Some(c) => c == v,
            None => false,
        },
        Requirement::CounterLessThan(n, v) => match ctr_get(st.counters, n@) {
            Some(c) => c < v,
            None => false,
        },
        Requirement::CounterGreaterThan(n, v) => match ctr_get(st.counters, n@) {
            Some(c) => c > v,
            None => false,
        },
    }
}

/// Whether every requirement of the list holds individually; an empty
/// list holds vacuously.
pub open spec fn reqs_hold(st: StateView, rs: Seq<Requirement>) -> bool {
    forall|i: int| 0 <= i < rs.len() ==> req_holds(st, #[trigger] rs[i])
}

/// An absent requirement list is unconditionally satisfied.
pub open spec fn req_opt_holds(st: StateView, rs: Option<Vec<Requirement>>) -> bool {
    match rs {
        None => true,
        Some(v) => reqs_hold(st, v@),
    }
}

// ---- chapter resolution ----

/// Whether a chapter id names a chapter whose requirements currently hold.
pub open spec fn chapter_eligible(book: Questbook, st: StateView, id: Seq<char>) -> bool {
    match tbl_get(book.chapters@, id) {
        Some(ch) => req_opt_holds(st, ch.requirements),
        None => false,
    }
}

/// The ids of eligible chapters, in chapter-table order.
pub open spec fn eligible_chapter_ids(book: Questbook, st: StateView) -> Seq<Seq<char>>
    decreases book.chapters@.len(),
{
    chapter_ids_rec(book, st, book.chapters@.len() as int)
}

/// The eligible ids among the first `n` chapter-table entries.
pub open spec fn chapter_ids_rec(book: Questbook, st: StateView, n: int) -> Seq<Seq<char>>
    decreases n,
{
    if n <= 0 {
        Seq::empty()
    } else {
        let pre = chapter_ids_rec(book, st, n - 1);
        let e = book.chapters@[n - 1];
        if req_opt_holds(st, e.1.requirements) {
            pre.push(e.0@)
        } else {
            pre
        }
    }
}

/// The index in the story's canonical chapter order of the latest
/// eligible chapter among the first `i`, or a negative value when none is
/// eligible.
pub open spec fn latest_idx(book: Questbook, st: StateView, i: int) -> int
    decreases i,
{
    if i <= 0 {
        -1
    } else if chapter_eligible(book, st, book.story.chapters@[i - 1]@) {
        i - 1
    } else {
        latest_idx(book, st, i - 1)
    }
}

/// The latest chapter of the story's canonical order that is currently
/// eligible: later-in-order chapters take precedence once reachable.
pub open spec fn current_chapter(book: Questbook, st: StateView) -> Option<Seq<char>> {
    let i = latest_idx(book, st, book.story.chapters@.len() as int);
    if i < 0 {
        None
    } else {
        Some(book.story.chapters@[i]@)
    }
}

// ---- scene resolution ----

/// Whether a chapter's declared scene list contains a scene id.
pub open spec fn scene_in_chapter(book: Questbook, ch: Seq<char>, sc: Seq<char>) -> bool {
    match tbl_get(book.chapters@, ch) {
        Some(c) => names_has(c.scenes@, sc),
        None => false,
    }
}

/// Whether a scene id is currently eligible: a chapter is set, the
/// chapter declares the scene, and the scene's requirements hold.
pub open spec fn scene_eligible(book: Questbook, st: StateView, id: Seq<char>) -> bool {
    match st.chapter {
        Some(ch) => scene_in_chapter(book, ch, id) && (match tbl_get(book.scenes@, id) {
            Some(s) => req_opt_holds(st, s.requirements),
            None => false,
        }),
        None => false,
    }
}

/// The ids of eligible scenes, in scene-table order; empty when no
/// chapter is set.
pub open spec fn eligible_scene_ids(book: Questbook, st: StateView) -> Seq<Seq<char>> {
    scene_ids_rec(book, st, book.scenes@.len() as int)
}

/// The eligible ids among the first `n` scene-table entries.
pub open spec fn scene_ids_rec(book: Questbook, st: StateView, n: int) -> Seq<Seq<char>>
    decreases n,
{
    if n <= 0 {
        Seq::empty()
    } else {
        let pre = scene_ids_rec(book, st, n - 1);
        let e = book.scenes@[n - 1];
        if scene_eligible(book, st, e.0@) {
            pre.push(e.0@)
        } else {
            pre
        }
    }
}

/// The first eligible scene id of the current chapter's declared scene
/// order, scanning from index `i`.
pub open spec fn first_scene_from(book: Questbook, st: StateView, scs: Seq<String>, i: int)
    -> Option<Seq<char>>
    decreases scs.len() - i,
{
    if i < 0 || i >= scs.len() {
        None
    } else if scene_eligible(book, st, scs[i]@) {
        Some(scs[i]@)
    } else {
        first_scene_from(book, st, scs, i + 1)
    }
}

/// The first eligible scene of the current chapter's declared scene
/// order, or nothing when no chapter is set or no scene is eligible.
pub open spec fn first_eligible_scene(book: Questbook, st: StateView) -> Option<Seq<char>> {
    match st.chapter {
        Some(ch) => match tbl_get(book.chapters@, ch) {
            Some(c) => first_scene_from(book, st, c.scenes@, 0),
            None => None,
        },
        None => None,
    }
}

/// The scene the resolver reports: the already-set scene if any (scenes
/// never silently re-resolve once chosen), else the first eligible one.
pub open spec fn sticky_scene(book: Questbook, st: StateView) -> Option<Seq<char>> {
    match st.scene {
        Some(s) => Some(s),
        None => first_eligible_scene(book, st),
    }
}

// ---- decision resolution ----

/// Whether a scene's declared decision list contains a decision id.
pub open spec fn scene_has_decision(book: Questbook, sc: Seq<char>, d: Seq<char>) -> bool {
    match tbl_get(book.scenes@, sc) {
        Some(s) => names_has(s.decisions@, d),
        None => false,
    }
}

/// Whether a decision id is declared globally at the story level.
pub open spec fn global_decision(book: Questbook, d: Seq<char>) -> bool {
    match book.story.decisions {
        Some(v) => names_has(v@, d),
        None => false,
    }
}

/// Whether a decision id is currently eligible: chapter and scene are
/// set, the scene declares it or the story declares it globally, and its
/// requirements hold.
pub open spec fn decision_eligible(book: Questbook, st: StateView, id: Seq<char>) -> bool {
    match (st.chapter, st.scene) {
        (Some(_), Some(sc)) => (scene_has_decision(book, sc, id) || global_decision(book, id))
            && (match tbl_get(book.decisions@, id) {
            Some(d) => req_opt_holds(st, d.requirements),
            None => false,
        }),
        _ => false,
    }
}

/// The ids of eligible decisions, in decision-table order; empty unless
/// both chapter and scene are set.
pub open spec fn eligible_decision_ids(book: Questbook, st: StateView) -> Seq<Seq<char>> {
    decision_ids_rec(book, st, book.decisions@.len() as int)
}

/// The eligible ids among the first `n` decision-table entries.
pub open spec fn decision_ids_rec(book: Questbook, st: StateView, n: int) -> Seq<Seq<char>>
    decreases n,
{
    if n <= 0 {
        Seq::empty()
    } else {
        let pre = decision_ids_rec(book, st, n - 1);
        let e = book.decisions@[n - 1];
        if decision_eligible(book, st, e.0@) {
            pre.push(e.0@)
        } else {
            pre
        }
    }
}

// ---- transitions ----

/// The state with one more log entry.
pub open spec fn push_log(st: StateView, m: Seq<char>) -> StateView {
    StateView { log: st.log.push(m), ..st }
}

/// Activating a scene without trigger evaluation: a no-op for an
/// ineligible target, otherwise the scene is set and the change logged.
pub open spec fn set_scene_tr(book: Questbook, st: StateView, id: Seq<char>) -> StateView {
    if !scene_eligible(book, st, id) {
        st
    } else {
        StateView {
            scene: Some(id),
            log: st.log.push(msg_scene_changed(id)),
            ..st
        }
    }
}

/// Forced scene re-selection: the first eligible scene of the current
/// chapter's declared order is activated; with none eligible the scene is
/// cleared, a terminal event logged and the session ended.
pub open spec fn change_scenes_tr(book: Questbook, st: StateView) -> StateView {
    match first_eligible_scene(book, st) {
        None => StateView {
            scene: None,
            state: AdventureState::Ended,
            log: st.log.push(msg_no_scenes()),
            ..st
        },
        Some(id) => set_scene_tr(book, st, id),
    }
}

/// Chapter re-derivation: a no-op when the current chapter is already the
/// latest eligible one; a chapter switch logs and forces scene
/// re-selection; no eligible chapter logs a terminal event and ends the
/// session.
pub open spec fn change_chapter_tr(book: Questbook, st: StateView) -> StateView {
    match current_chapter(book, st) {
        Some(c) => if st.chapter == Some(c) {
            st
        } else {
            let st1 = StateView {
                chapter: Some(c),
                log: st.log.push(msg_chapter_changed(c)),
                ..st
            };
            change_scenes_tr(book, st1)
        },
        None => StateView {
            chapter: None,
            state: AdventureState::Ended,
            log: st.log.push(msg_no_chapters()),
            ..st
        },
    }
}

/// An id inserted into a membership list unless already present.
pub open spec fn insert_name(v: Seq<Seq<char>>, x: Seq<char>) -> Seq<Seq<char>> {
    if v.contains(x) {
        v
    } else {
        v.push(x)
    }
}

/// A membership list with the first occurrence of an id removed.
pub open spec fn remove_name(v: Seq<Seq<char>>, x: Seq<char>) -> Seq<Seq<char>> {
    let i = name_find(v, x);
    if i < 0 {
        v
    } else {
        v.remove(i)
    }
}

/// Granting one id: classified by the item table first, then the status
/// table, else as a tag; inserted into exactly that one membership list.
pub open spec fn grant_one(book: Questbook, st: StateView, id: Seq<char>) -> StateView {
    if tbl_has(book.items@, id) {
        StateView {
            inventory: insert_name(st.inventory, id),
            log: st.log.push(msg_item_added(id)),
            ..st
        }
    } else if tbl_has(book.statuses@, id) {
        StateView {
            statuses: insert_name(st.statuses, id),
            log: st.log.push(msg_status_added(id)),
            ..st
        }
    } else {
        StateView {
            tags: insert_name(st.tags, id),
            log: st.log.push(msg_tag_added(id)),
            ..st
        }
    }
}

/// Granting a list of ids in order.
pub open spec fn grants_tr(book: Questbook, st: StateView, ids: Seq<String>) -> StateView
    decreases ids.len(),
{
    if ids.len() == 0 {
        st
    } else {
        grant_one(book, grants_tr(book, st, ids.drop_last()), ids.last()@)
    }
}

/// Removing one id: from inventory when the item table knows it, else
/// from statuses.
pub open spec fn cost_one(book: Questbook, st: StateView, id: Seq<char>) -> StateView {
    if tbl_has(book.items@, id) {
        StateView {
            inventory: remove_name(st.inventory, id),
            log: st.log.push(msg_item_removed(id)),
            ..st
        }
    } else {
        StateView {
            statuses: remove_name(st.statuses, id),
            log: st.log.push(msg_status_removed(id)),
            ..st
        }
    }
}

/// Removing a list of ids in order.
pub open spec fn costs_tr(book: Questbook, st: StateView, ids: Seq<String>) -> StateView
    decreases ids.len(),
{
    if ids.len() == 0 {
        st
    } else {
        cost_one(book, costs_tr(book, st, ids.drop_last()), ids.last()@)
    }
}

/// A counter delta: added (wrapping) to the named counter's value and
/// logged; silently ignored for an unknown counter name, which is never
/// auto-created.
pub open spec fn counter_tr(st: StateView, name: Seq<char>, delta: i32) -> StateView {
    let i = ctr_find(st.counters, name);
    if i < 0 {
        st
    } else {
        let nv = st.counters[i].1.wrapping_add(delta);
        StateView {
            counters: st.counters.update(i, (name, nv)),
            log: st.log.push(msg_counter_changed(name, nv)),
            ..st
        }
    }
}

/// Applying one consequence: log it, grant the provides, remove the
/// costs, apply the counter delta, switch to the target scene without
/// trigger evaluation, and unconditionally re-derive the current chapter.
pub open spec fn apply_consequence_tr(book: Questbook, st: StateView, id: Seq<char>)
    -> StateView {
    let st0 = push_log(st, msg_applying_consequence(id));
    match tbl_get(book.consequences@, id) {
        None => st0,
        Some(c) => {
            let st1 = grants_tr(book, st0, match c.provides {
                Some(v) => v@,
                None => Seq::empty(),
            });
            let st2 = costs_tr(book, st1, match c.costs {
                Some(v) => v@,
                None => Seq::empty(),
            });
            let st3 = match c.counter {
                Some((n, d)) => counter_tr(st2, n@, d),
                None => st2,
            };
            let st4 = match c.scene {
                Some(s) => set_scene_tr(book, st3, s@),
                None => st3,
            };
            change_chapter_tr(book, st4)
        },
    }
}

/// Applying a list of consequence ids sequentially in declared order.
pub open spec fn apply_seq_tr(book: Questbook, st: StateView, ids: Seq<String>) -> StateView
    decreases ids.len(),
{
    if ids.len() == 0 {
        st
    } else {
        apply_consequence_tr(book, apply_seq_tr(book, st, ids.drop_last()), ids.last()@)
    }
}

/// The trigger-table entries, among the first `n`, whose requirements
/// hold of the given snapshot of play state.
pub open spec fn fired_triggers_rec(t: Seq<(String, Trigger)>, st: StateView, n: int)
    -> Seq<(String, Trigger)>
    decreases n,
{
    if n <= 0 {
        Seq::empty()
    } else {
        let pre = fired_triggers_rec(t, st, n - 1);
        if reqs_hold(st, t[n - 1].1.requirements@) {
            pre.push(t[n - 1])
        } else {
            pre
        }
    }
}

/// The trigger-table entries whose requirements hold of the snapshot, in
/// table order.
pub open spec fn fired_triggers(t: Seq<(String, Trigger)>, st: StateView)
    -> Seq<(String, Trigger)> {
    fired_triggers_rec(t, st, t.len() as int)
}

/// Firing a list of triggers: each applies its consequence ids in order.
pub open spec fn fire_all_tr(book: Questbook, st: StateView, fired: Seq<(String, Trigger)>)
    -> StateView
    decreases fired.len(),
{
    if fired.len() == 0 {
        st
    } else {
        apply_seq_tr(book, fire_all_tr(book, st, fired.drop_last()),
            fired.last().1.consequences@)
    }
}

/// One trigger pass: the satisfied set is fixed by the snapshot taken
/// before the pass begins, so a trigger made newly eligible by another
/// trigger's consequence within the pass does not fire until a later
/// pass.
pub open spec fn triggers_tr(book: Questbook, st: StateView) -> StateView {
    fire_all_tr(book, st, fired_triggers(book.triggers@, st))
}

/// A player-requested scene change: a silent no-op for an ineligible
/// target; otherwise the scene is activated and, when requested, a
/// trigger pass runs afterwards.
pub open spec fn change_scene_tr(book: Questbook, st: StateView, id: Seq<char>,
    run_triggers: bool) -> StateView {
    if !scene_eligible(book, st, id) {
        st
    } else {
        let st1 = set_scene_tr(book, st, id);
        if run_triggers {
            triggers_tr(book, st1)
        } else {
            st1
        }
    }
}

/// The descriptive lines a decision returns when made; empty for an
/// ineligible decision.
pub open spec fn decision_output(book: Questbook, st: StateView, id: Seq<char>)
    -> Seq<Seq<char>> {
    if !decision_eligible(book, st, id) {
        Seq::empty()
    } else {
        match tbl_get(book.decisions@, id) {
            Some(d) => d.describe_spec(),
            None => Seq::empty(),
        }
    }
}

/// Making a decision: a silent no-op for an ineligible id; otherwise the
/// decision is logged, its consequences applied sequentially in declared
/// order, and one trigger pass runs at the end.
pub open spec fn make_decision_tr(book: Questbook, st: StateView, id: Seq<char>) -> StateView {
    if !decision_eligible(book, st, id) {
        st
    } else {
        let st1 = push_log(st, msg_decision_made(id));
        let st2 = match tbl_get(book.decisions@, id) {
            Some(d) => apply_seq_tr(book, st1, d.consequences@),
            None => st1,
        };
        triggers_tr(book, st2)
    }
}

/// The initial resolution: with an eligible chapter the session starts
/// there, the first eligible scene is selected and the start logged; with
/// none the session ends immediately.
pub open spec fn start_tr(book: Questbook, st: StateView) -> StateView {
    match current_chapter(book, st) {
        Some(c) => {
            let st1 = StateView { chapter: Some(c), state: AdventureState::Started, ..st };
            let sc = sticky_scene(book, st1);
            StateView { scene: sc, log: st1.log.push(msg_started(c, sc)), ..st1 }
        },
        None => StateView { chapter: None, state: AdventureState::Ended, ..st },
    }
}

// ---- well-formedness of play state ----

/// The counter list carries exactly the names of the content graph's
/// counter table, in table order.
pub open spec fn ctrs_ok(book: Questbook, st: StateView) -> bool {
    &&& st.counters.len() == book.counters@.len()
    &&& forall|i: int|
        0 <= i < st.counters.len() ==> (#[trigger] st.counters[i]).0 == book.counters@[i].0@
}

/// A set chapter references an existing chapter record.
pub open spec fn chapter_wf(book: Questbook, st: StateView) -> bool {
    match st.chapter {
        Some(c) => tbl_has(book.chapters@, c),
        None => true,
    }
}

/// A set scene references an existing scene record and, when a chapter is
/// set, is a member of that chapter's declared scene list.
pub open spec fn scene_wf(book: Questbook, st: StateView) -> bool {
    match st.scene {
        Some(s) => tbl_has(book.scenes@, s) && (match st.chapter {
            Some(c) => scene_in_chapter(book, c, s),
            None => true,
        }),
        None => true,
    }
}

/// The play-state invariant the engine maintains.
pub open spec fn st_wf(book: Questbook, st: StateView) -> bool {
    &&& ctrs_ok(book, st)
    &&& chapter_wf(book, st)
    &&& scene_wf(book, st)
}

// ---- frame lemmas: every transition preserves the invariant, only ----
// ---- moves the lifecycle state forward, and only appends to the log ----

pub proof fn lemma_prefix_push(a: Seq<Seq<char>>, x: Seq<char>)
    ensures
        a.is_prefix_of(a.push(x)),
{
    assert(a =~= a.push(x).subrange(0, a.len() as int));
}

pub proof fn lemma_prefix_trans(a: Seq<Seq<char>>, b: Seq<Seq<char>>, c: Seq<Seq<char>>)
    requires
        a.is_prefix_of(b),
        b.is_prefix_of(c),
    ensures
        a.is_prefix_of(c),
{
    assert(a =~= c.subrange(0, a.len() as int));
}

/// What every transition guarantees relative to its input state.
pub open spec fn frame_ok(book: Questbook, st: StateView, out: StateView) -> bool {
    &&& st_wf(book, out)
    &&& state_rank(st.state) <= state_rank(out.state)
    &&& st.log.is_prefix_of(out.log)
}

pub proof fn lemma_frame_refl(book: Questbook, st: StateView)
    requires
        st_wf(book, st),
    ensures
        frame_ok(book, st, st),
{
    assert(st.log =~= st.log.subrange(0, st.log.len() as int));
}

pub proof fn lemma_frame_trans(book: Questbook, st0: StateView, st1: StateView, st2: StateView)
    requires
        frame_ok(book, st0, st1),
        frame_ok(book, st1, st2),
    ensures
        frame_ok(book, st0, st2),
{
    lemma_prefix_trans(st0.log, st1.log, st2.log);
}

/// An eligible scene id names an existing scene of the current chapter.
pub proof fn lemma_scene_eligible_valid(book: Questbook, st: StateView, id: Seq<char>)
    requires
        scene_eligible(book, st, id),
    ensures
        tbl_has(book.scenes@, id),
        match st.chapter {
            Some(c) => scene_in_chapter(book, c, id),
            None => false,
        },
{
    crate::book::lemma_tbl_get_index(book.scenes@, id);
}

pub proof fn lemma_set_scene_frame(book: Questbook, st: StateView, id: Seq<char>)
    requires
        ctrs_ok(book, st),
        chapter_wf(book, st),
        scene_eligible(book, st, id) || scene_wf(book, st),
    ensures
        frame_ok(book, st, set_scene_tr(book, st, id)),
{
    if scene_eligible(book, st, id) {
        lemma_scene_eligible_valid(book, st, id);
        lemma_prefix_push(st.log, msg_scene_changed(id));
    } else {
        lemma_frame_refl(book, st);
    }
}

/// A positive scan result is an eligible scene id.
pub proof fn lemma_first_scene_eligible(book: Questbook, st: StateView, scs: Seq<String>, i: int)
    ensures
        match first_scene_from(book, st, scs, i) {
            Some(id) => scene_eligible(book, st, id),
            None => true,
        },
    decreases scs.len() - i,
{
    if 0 <= i < scs.len() && !scene_eligible(book, st, scs[i]@) {
        lemma_first_scene_eligible(book, st, scs, i + 1);
    }
}

pub proof fn lemma_change_scenes_frame(book: Questbook, st: StateView)
    requires
        ctrs_ok(book, st),
        chapter_wf(book, st),
    ensures
        frame_ok(book, st, change_scenes_tr(book, st)),
{
    match first_eligible_scene(book, st) {
        None => {
            lemma_prefix_push(st.log, msg_no_scenes());
        },
        Some(id) => {
            match st.chapter {
                Some(ch) => match tbl_get(book.chapters@, ch) {
                    Some(c) => lemma_first_scene_eligible(book, st, c.scenes@, 0),
                    None => {},
                },
                None => {},
            }
            lemma_set_scene_frame(book, st, id);
        },
    }
}

/// The latest-eligible scan stays in range and returns an eligible index.
pub proof fn lemma_latest_idx(book: Questbook, st: StateView, i: int)
    requires
        0 <= i <= book.story.chapters@.len(),
    ensures
        -1 <= latest_idx(book, st, i) < i,
        latest_idx(book, st, i) >= 0 ==> chapter_eligible(
            book,
            st,
            book.story.chapters@[latest_idx(book, st, i)]@,
        ),
    decreases i,
{
    if i > 0 && !chapter_eligible(book, st, book.story.chapters@[i - 1]@) {
        lemma_latest_idx(book, st, i - 1);
    }
}

/// A derived current chapter names an existing chapter record.
pub proof fn lemma_current_chapter_valid(book: Questbook, st: StateView)
    ensures
        match current_chapter(book, st) {
            Some(c) => tbl_has(book.chapters@, c),
            None => true,
        },
{
    lemma_latest_idx(book, st, book.story.chapters@.len() as int);
    match current_chapter(book, st) {
        Some(c) => {
            crate::book::lemma_tbl_get_index(book.chapters@, c);
        },
        None => {},
    }
}

pub proof fn lemma_change_chapter_frame(book: Questbook, st: StateView)
    requires
        st_wf(book, st),
    ensures
        frame_ok(book, st, change_chapter_tr(book, st)),
{
    match current_chapter(book, st) {
        Some(c) => {
            if st.chapter == Some(c) {
                lemma_frame_refl(book, st);
            } else {
                lemma_current_chapter_valid(book, st);
                let st1 = StateView {
                    chapter: Some(c),
                    log: st.log.push(msg_chapter_changed(c)),
                    ..st
                };
                lemma_prefix_push(st.log, msg_chapter_changed(c));
                lemma_change_scenes_frame(book, st1);
                lemma_prefix_trans(st.log, st1.log, change_scenes_tr(book, st1).log);
            }
        },
        None => {
            lemma_prefix_push(st.log, msg_no_chapters());
        },
    }
}

pub proof fn lemma_grant_one_frame(book: Questbook, st: StateView, id: Seq<char>)
    requires
        st_wf(book, st),
    ensures
        frame_ok(book, st, grant_one(book, st, id)),
{
    lemma_prefix_push(st.log, msg_item_added(id));
    lemma_prefix_push(st.log, msg_status_added(id));
    lemma_prefix_push(st.log, msg_tag_added(id));
}

pub proof fn lemma_grants_frame(book: Questbook, st: StateView, ids: Seq<String>)
    requires
        st_wf(book, st),
    ensures
        frame_ok(book, st, grants_tr(book, st, ids)),
    decreases ids.len(),
{
    if ids.len() == 0 {
        lemma_frame_refl(book, st);
    } else {
        lemma_grants_frame(book, st, ids.drop_last());
        let mid = grants_tr(book, st, ids.drop_last());
        lemma_grant_one_frame(book, mid, ids.last()@);
        lemma_frame_trans(book, st, mid, grant_one(book, mid, ids.last()@));
    }
}

pub proof fn lemma_cost_one_frame(book: Questbook, st: StateView, id: Seq<char>)
    requires
        st_wf(book, st),
    ensures
        frame_ok(book, st, cost_one(book, st, id)),
{
    lemma_prefix_push(st.log, msg_item_removed(id));
    lemma_prefix_push(st.log, msg_status_removed(id));
}

pub proof fn lemma_costs_frame(book: Questbook, st: StateView, ids: Seq<String>)
    requires
        st_wf(book, st),
    ensures
        frame_ok(book, st, costs_tr(book, st, ids)),
    decreases ids.len(),
{
    if ids.len() == 0 {
        lemma_frame_refl(book, st);
    } else {
        lemma_costs_frame(book, st, ids.drop_last());
        let mid = costs_tr(book, st, ids.drop_last());
        lemma_cost_one_frame(book, mid, ids.last()@);
        lemma_frame_trans(book, st, mid, cost_one(book, mid, ids.last()@));
    }
}

pub proof fn lemma_counter_frame(book: Questbook, st: StateView, name: Seq<char>, delta: i32)
    requires
        st_wf(book, st),
    ensures
        frame_ok(book, st, counter_tr(st, name, delta)),
{
    lemma_ctr_find(st.counters, name);
    let i = ctr_find(st.counters, name);
    if i >= 0 {
        let nv = st.counters[i].1.wrapping_add(delta);
        lemma_prefix_push(st.log, msg_counter_changed(name, nv));
        assert(ctrs_ok(book, counter_tr(st, name, delta)));
    } else {
        lemma_frame_refl(book, st);
    }
}

pub proof fn lemma_apply_consequence_frame(book: Questbook, st: StateView, id: Seq<char>)
    requires
        st_wf(book, st),
    ensures
        frame_ok(book, st, apply_consequence_tr(book, st, id)),
{
    let st0 = push_log(st, msg_applying_consequence(id));
    lemma_prefix_push(st.log, msg_applying_consequence(id));
    match tbl_get(book.consequences@, id) {
        None => {},
        Some(c) => {
            let provides = match c.provides {
                Some(v) => v@,
                None => Seq::<String>::empty(),
            };
            let costs = match c.costs {
                Some(v) => v@,
                None => Seq::<String>::empty(),
            };
            lemma_grants_frame(book, st0, provides);
            let st1 = grants_tr(book, st0, provides);
            lemma_costs_frame(book, st1, costs);
            let st2 = costs_tr(book, st1, costs);
            let st3 = match c.counter {
                Some((n, d)) => {
                    lemma_counter_frame(book, st2, n@, d);
                    counter_tr(st2, n@, d)
                },
                None => {
                    lemma_frame_refl(book, st2);
                    st2
                },
            };
            let st4 = match c.scene {
                Some(s) => {
                    lemma_set_scene_frame(book, st3, s@);
                    set_scene_tr(book, st3, s@)
                },
                None => {
                    lemma_frame_refl(book, st3);
                    st3
                },
            };
            lemma_change_chapter_frame(book, st4);
            lemma_frame_trans(book, st0, st1, st2);
            lemma_frame_trans(book, st0, st2, st3);
            lemma_frame_trans(book, st0, st3, st4);
            lemma_frame_trans(book, st0, st4, change_chapter_tr(book, st4));
            lemma_prefix_trans(st.log, st0.log, change_chapter_tr(book, st4).log);
        },
    }
}

pub proof fn lemma_apply_seq_frame(book: Questbook, st: StateView, ids: Seq<String>)
    requires
        st_wf(book, st),
    ensures
        frame_ok(book, st, apply_seq_tr(book, st, ids)),
    decreases ids.len(),
{
    if ids.len() == 0 {
        lemma_frame_refl(book, st);
    } else {
        lemma_apply_seq_frame(book, st, ids.drop_last());
        let mid = apply_seq_tr(book, st, ids.drop_last());
        lemma_apply_consequence_frame(book, mid, ids.last()@);
        lemma_frame_trans(book, st, mid, apply_consequence_tr(book, mid, ids.last()@));
    }
}

pub proof fn lemma_fire_all_frame(book: Questbook, st: StateView, fired: Seq<(String, Trigger)>)
    requires
        st_wf(book, st),
    ensures
        frame_ok(book, st, fire_all_tr(book, st, fired)),
    decreases fired.len(),
{
    if fired.len() == 0 {
        lemma_frame_refl(book, st);
    } else {
        lemma_fire_all_frame(book, st, fired.drop_last());
        let mid = fire_all_tr(book, st, fired.drop_last());
        lemma_apply_seq_frame(book, mid, fired.last().1.consequences@);
        lemma_frame_trans(book, st, mid, apply_seq_tr(book, mid, fired.last().1.consequences@));
    }
}

pub proof fn lemma_triggers_frame(book: Questbook, st: StateView)
    requires
        st_wf(book, st),
    ensures
        frame_ok(book, st, triggers_tr(book, st)),
{
    lemma_fire_all_frame(book, st, fired_triggers(book.triggers@, st));
}

pub proof fn lemma_change_scene_frame(book: Questbook, st: StateView, id: Seq<char>,
    run_triggers: bool)
    requires
        st_wf(book, st),
    ensures
        frame_ok(book, st, change_scene_tr(book, st, id, run_triggers)),
{
    if scene_eligible(book, st, id) {
        lemma_set_scene_frame(book, st, id);
        let st1 = set_scene_tr(book, st, id);
        if run_triggers {
            lemma_triggers_frame(book, st1);
            lemma_frame_trans(book, st, st1, triggers_tr(book, st1));
        }
    } else {
        lemma_frame_refl(book, st);
    }
}

pub proof fn lemma_make_decision_frame(book: Questbook, st: StateView, id: Seq<char>)
    requires
        st_wf(book, st),
    ensures
        frame_ok(book, st, make_decision_tr(book, st, id)),
{
    if decision_eligible(book, st, id) {
        let st1 = push_log(st, msg_decision_made(id));
        lemma_prefix_push(st.log, msg_decision_made(id));
        let st2 = match tbl_get(book.decisions@, id) {
            Some(d) => {
                lemma_apply_seq_frame(book, st1, d.consequences@);
                apply_seq_tr(book, st1, d.consequences@)
            },
            None => {
                lemma_frame_refl(book, st1);
                st1
            },
        };
        lemma_triggers_frame(book, st2);
        lemma_frame_trans(book, st1, st2, triggers_tr(book, st2));
        lemma_prefix_trans(st.log, st1.log, triggers_tr(book, st2).log);
    } else {
        lemma_frame_refl(book, st);
    }
}

pub proof fn lemma_start_frame(book: Questbook, st: StateView)
    requires
        st_wf(book, st),
        st.scene is None,
        st.state == AdventureState::Init,
    ensures
        frame_ok(book, st, start_tr(book, st)),
{
    match current_chapter(book, st) {
        Some(c) => {
            lemma_current_chapter_valid(book, st);
            let st1 = StateView { chapter: Some(c), state: AdventureState::Started, ..st };
            match first_eligible_scene(book, st1) {
                Some(id) => {
                    match tbl_get(book.chapters@, c) {
                        Some(ch) => lemma_first_scene_eligible(book, st1, ch.scenes@, 0),
                        None => {},
                    }
                    lemma_scene_eligible_valid(book, st1, id);
                },
                None => {},
            }
            lemma_prefix_push(st.log, msg_started(c, sticky_scene(book, st1)));
        },
        None => {
            lemma_frame_refl(book, st);
            assert(frame_ok(book, st, start_tr(book, st)));
        },
    }
}

// ---- laws of chapter resolution ----

/// The current chapter never regresses: once any chapter is eligible, the
/// derived chapter sits at that position of the canonical order or later.
pub proof fn lemma_current_chapter_latest(book: Questbook, st: StateView, j: int)
    requires
        0 <= j < book.story.chapters@.len(),
        chapter_eligible(book, st, book.story.chapters@[j]@),
    ensures
        current_chapter(book, st) is Some,
        latest_idx(book, st, book.story.chapters@.len() as int) >= j,
{
    lemma_latest_idx_latest(book, st, j, book.story.chapters@.len() as int);
    lemma_latest_idx(book, st, book.story.chapters@.len() as int);
}

/// Any eligible position below the scan bound is a lower bound for the
/// scan's result.
pub proof fn lemma_latest_idx_latest(book: Questbook, st: StateView, j: int, i: int)
    requires
        0 <= j < i,
        chapter_eligible(book, st, book.story.chapters@[j]@),
    ensures
        latest_idx(book, st, i) >= j,
    decreases i,
{
    if j < i - 1 && !chapter_eligible(book, st, book.story.chapters@[i - 1]@) {
        lemma_latest_idx_latest(book, st, j, i - 1);
    }
}

/// Monotonicity of chapter resolution: when play state only gains
/// eligibility (as under monotonically growing tag or counter state with
/// positive requirements), the derived chapter's position in the
/// canonical order never decreases. Determinism is inherent: the derived
/// chapter is a function of the content graph and the play state.
pub proof fn lemma_current_chapter_monotonic(book: Questbook, st1: StateView, st2: StateView)
    requires
        forall|i: int|
            0 <= i < book.story.chapters@.len() ==> chapter_eligible(
                book,
                st1,
                #[trigger] book.story.chapters@[i]@,
            ) ==> chapter_eligible(book, st2, book.story.chapters@[i]@),
    ensures
        latest_idx(book, st1, book.story.chapters@.len() as int) <= latest_idx(
            book,
            st2,
            book.story.chapters@.len() as int,
        ),
{
    lemma_latest_idx_mono(book, st1, st2, book.story.chapters@.len() as int);
}

pub proof fn lemma_latest_idx_mono(book: Questbook, st1: StateView, st2: StateView, i: int)
    requires
        i <= book.story.chapters@.len(),
        forall|k: int|
            0 <= k < book.story.chapters@.len() ==> chapter_eligible(
                book,
                st1,
                #[trigger] book.story.chapters@[k]@,
            ) ==> chapter_eligible(book, st2, book.story.chapters@[k]@),
    ensures
        latest_idx(book, st1, i) <= latest_idx(book, st2, i),
    decreases i,
{
    if i > 0 {
        if chapter_eligible(book, st1, book.story.chapters@[i - 1]@) {
            assert(chapter_eligible(book, st2, book.story.chapters@[i - 1]@));
        } else {
            lemma_latest_idx_mono(book, st1, st2, i - 1);
            lemma_latest_idx(book, st1, i - 1);
            lemma_latest_idx(book, st2, i - 1);
        }
    }
}

// ---- laws of granting ----

/// Item-table lookup takes precedence over status-table lookup, which
/// takes precedence over the tag fallback: a granted id lands in exactly
/// one membership list, and an id the item table knows lands in the
/// inventory, never in statuses or tags.
pub proof fn lemma_grant_precedence(book: Questbook, st: StateView, id: Seq<char>)
    ensures
        tbl_has(book.items@, id) ==> grant_one(book, st, id) == (StateView {
            inventory: insert_name(st.inventory, id),
            log: st.log.push(msg_item_added(id)),
            ..st
        }),
        !tbl_has(book.items@, id) && tbl_has(book.statuses@, id) ==> grant_one(book, st, id)
            == (StateView {
            statuses: insert_name(st.statuses, id),
            log: st.log.push(msg_status_added(id)),
            ..st
        }),
        !tbl_has(book.items@, id) && !tbl_has(book.statuses@, id) ==> grant_one(book, st, id)
            == (StateView {
            tags: insert_name(st.tags, id),
            log: st.log.push(msg_tag_added(id)),
            ..st
        }),
{
}

// ---- laws of trigger firing ----

/// Every fired trigger is a trigger-table entry whose requirements hold
/// of the snapshot.
pub proof fn lemma_fired_triggers_sound(t: Seq<(String, Trigger)>, st: StateView, n: int)
    requires
        0 <= n <= t.len(),
    ensures
        forall|k: int|
            0 <= k < fired_triggers_rec(t, st, n).len() ==> t.contains(
                #[trigger] fired_triggers_rec(t, st, n)[k],
            ) && reqs_hold(st, fired_triggers_rec(t, st, n)[k].1.requirements@),
    decreases n,
{
    if n > 0 {
        lemma_fired_triggers_sound(t, st, n - 1);
        let pre = fired_triggers_rec(t, st, n - 1);
        let cur = fired_triggers_rec(t, st, n);
        if reqs_hold(st, t[n - 1].1.requirements@) {
            assert(t.contains(t[n - 1]));
            assert forall|k: int| 0 <= k < cur.len() implies t.contains(#[trigger] cur[k])
                && reqs_hold(st, cur[k].1.requirements@) by {
                if k < pre.len() {
                    assert(cur[k] == pre[k]);
                } else {
                    assert(cur[k] == t[n - 1]);
                }
            }
        }
    }
}

/// Every satisfied trigger fires: each trigger-table position whose
/// requirements hold of the snapshot appears in the fired list.
pub proof fn lemma_fired_triggers_complete(t: Seq<(String, Trigger)>, st: StateView, n: int,
    i: int)
    requires
        0 <= i < n <= t.len(),
        reqs_hold(st, t[i].1.requirements@),
    ensures
        fired_triggers_rec(t, st, n).contains(t[i]),
    decreases n,
{
    if i == n - 1 {
        let fired = fired_triggers_rec(t, st, n);
        assert(fired.last() == t[i]);
    } else {
        lemma_fired_triggers_complete(t, st, n - 1, i);
        let pre = fired_triggers_rec(t, st, n - 1);
        let k = choose|k: int| 0 <= k < pre.len() && pre[k] == t[i];
        if reqs_hold(st, t[n - 1].1.requirements@) {
            assert(fired_triggers_rec(t, st, n)[k] == t[i]);
        }
    }
}

/// Each satisfied trigger fires exactly once per pass: the fired list
/// keeps exactly the table positions whose requirements hold of the
/// snapshot, in table order and without repetition of positions.
pub proof fn lemma_fired_triggers_count(t: Seq<(String, Trigger)>, st: StateView)
    ensures
        fired_triggers(t, st).len() == sat_count(t, st, t.len() as int),
{
    lemma_fired_count_rec(t, st, t.len() as int);
}

/// The number of positions below `n` whose requirements hold of `st`.
pub open spec fn sat_count(t: Seq<(String, Trigger)>, st: StateView, n: int) -> int
    decreases n,
{
    if n <= 0 {
        0
    } else {
        sat_count(t, st, n - 1) + if reqs_hold(st, t[n - 1].1.requirements@) {
            1int
        } else {
            0int
        }
    }
}

pub proof fn lemma_fired_count_rec(t: Seq<(String, Trigger)>, st: StateView, n: int)
    requires
        0 <= n <= t.len(),
    ensures
        fired_triggers_rec(t, st, n).len() == sat_count(t, st, n),
    decreases n,
{
    if n > 0 {
        lemma_fired_count_rec(t, st, n - 1);
    }
}

} // verus!
