//! The content graph: the immutable, author-supplied definition of a story.
//!
//! A [`Questbook`] bundles the story's canonical chapter order with lookup
//! tables for chapters, scenes, items, decisions, consequences, statuses,
//! counters and triggers. Each table is an ordered list of `(id, record)`
//! pairs; [`tbl_get`] gives the record of the first pair with a given id.

use vstd::prelude::*;

verus! {

/// The top-level story header: title, the canonical ordered chapter ids
/// (authoritative progression order), and optional globally-available
/// decision ids.
pub struct Story {
    /// Title of the story.
    pub title: String,
    /// Ids of the chapters in order.
    pub chapters: Vec<String>,
    /// Ids of decisions that can be made at any time.
    pub decisions: Option<Vec<String>>,
}

/// A chapter: an ordered list of scene ids, gated by an optional
/// requirement list.
pub struct Chapter {
    /// Title of the chapter.
    pub title: String,
    /// Ids of the scenes in this chapter.
    pub scenes: Vec<String>,
    /// Requirements to access this chapter.
    pub requirements: Option<Vec<Requirement>>,
}

/// A scene: narrative text plus the decisions it offers, gated by an
/// optional requirement list.
pub struct Scene {
    /// Name of the scene.
    pub name: String,
    /// Background text for the scene.
    pub background: String,
    /// Exposition text for the scene.
    pub exposition: Option<Vec<Exposition>>,
    /// Ids of the characters in this scene.
    pub characters: Option<Vec<String>>,
    /// Ids of the decisions that can be made in this scene.
    pub decisions: Vec<String>,
    /// Requirements to access this scene.
    pub requirements: Option<Vec<Requirement>>,
}

/// An item a player can hold; the item table classifies granted ids.
pub struct Item {
    /// Name of the item.
    pub name: String,
    /// Description of the item.
    pub description: String,
}

/// A decision the player can make, with its ordered consequence ids.
pub struct Decision {
    /// Description of the decision.
    pub description: Option<String>,
    /// The text for making the decision.
    pub decision: String,
    /// Ids of the consequences of this decision.
    pub consequences: Vec<String>,
    /// Requirements to access this decision.
    pub requirements: Option<Vec<Requirement>>,
}

/// A boolean precondition over play state.
pub enum Requirement {
    /// Holds iff the id is present in inventory, statuses or tags.
    Require(String),
    /// Holds iff the id is absent from inventory, statuses and tags.
    Refuse(String),
    /// Holds iff the named counter exists and equals the value.
    CounterEqual(String, i32),
    /// Holds iff the named counter exists and is less than the value.
    CounterLessThan(String, i32),
    /// Holds iff the named counter exists and is greater than the value.
    CounterGreaterThan(String, i32),
}

/// An atomic bundle of effects applied as a unit.
pub struct Consequence {
    /// Description of the action taken.
    pub conclusion: String,
    /// Description of the consequence.
    pub description: Option<String>,
    /// Scene to move to.
    pub scene: Option<String>,
    /// Ids of the items, statuses, or tags to apply.
    pub provides: Option<Vec<String>>,
    /// Ids of the items, or statuses to remove.
    pub costs: Option<Vec<String>>,
    /// Name of the counter to update and the amount to add to it.
    pub counter: Option<(String, i32)>,
}

/// A status a player can carry; the status table classifies granted ids.
pub struct Status {
    /// Description of the status.
    pub description: String,
}

/// A character appearing in scenes. Unused by the resolution logic itself.
pub struct Character {
    pub name: String,
    pub description: String,
    pub inventory: Vec<String>,
    pub states: Vec<(String, CharacterState)>,
}

/// One named state of a character.
pub struct CharacterState {
    pub description: String,
}

/// A block of scene exposition, gated by an optional requirement list.
pub struct Exposition {
    pub requirements: Option<Vec<Requirement>>,
    pub text: Vec<Text>,
}

/// One line of exposition text, optionally attributed to a speaker.
pub struct Text {
    pub speaker: Option<String>,
    pub text: String,
}

/// A named mutable integer, seeded into play state at construction.
pub struct Counter {
    pub name: String,
    pub value: i32,
    pub visible: bool,
}

/// A content-wide conditional effect, re-checked after state mutation.
pub struct Trigger {
    pub description: String,
    pub requirements: Vec<Requirement>,
    pub consequences: Vec<String>,
}

/// The whole content graph. Tables are ordered lists of `(id, record)`
/// pairs with unique ids; every iteration over a table follows this
/// declared order, which keeps play deterministic.
pub struct Questbook {
    pub story: Story,
    pub chapters: Vec<(String, Chapter)>,
    pub scenes: Vec<(String, Scene)>,
    pub items: Vec<(String, Item)>,
    pub decisions: Vec<(String, Decision)>,
    pub characters: Vec<(String, Character)>,
    pub consequences: Vec<(String, Consequence)>,
    pub statuses: Vec<(String, Status)>,
    pub counters: Vec<(String, Counter)>,
    pub triggers: Vec<(String, Trigger)>,
}

// ---- table lookup, in specification and in executable form ----

/// Whether some pair of the table carries the id `k`.
pub open spec fn tbl_has<V>(t: Seq<(String, V)>, k: Seq<char>) -> bool {
    exists|i: int| 0 <= i < t.len() && t[i].0@ == k
}

/// The record of the first pair of the table carrying the id `k`.
pub open spec fn tbl_get<V>(t: Seq<(String, V)>, k: Seq<char>) -> Option<V>
    decreases t.len(),
{
    if t.len() == 0 {
        None
    } else if t[0].0@ == k {
        Some(t[0].1)
    } else {
        tbl_get(t.drop_first(), k)
    }
}

/// Whether the id `x` occurs in a list of ids.
pub open spec fn names_has(v: Seq<String>, x: Seq<char>) -> bool {
    exists|i: int| 0 <= i < v.len() && v[i]@ == x
}

/// A lookup that reaches index `i` without an earlier match returns the
/// record at `i`.
pub proof fn lemma_tbl_get_at<V>(t: Seq<(String, V)>, k: Seq<char>, i: int)
    requires
        0 <= i < t.len(),
        t[i].0@ == k,
        forall|j: int| 0 <= j < i ==> t[j].0@ != k,
    ensures
        tbl_get(t, k) == Some(t[i].1),
    decreases i,
{
    if i > 0 {
        assert(t[0].0@ != k);
        assert(t.drop_first()[i - 1] == t[i]);
        assert(forall|j: int| 0 <= j < i - 1 ==> t.drop_first()[j] == t[j + 1]);
        lemma_tbl_get_at(t.drop_first(), k, i - 1);
    }
}

/// A table without the id has no record for it.
pub proof fn lemma_tbl_get_none<V>(t: Seq<(String, V)>, k: Seq<char>)
    requires
        forall|j: int| 0 <= j < t.len() ==> t[j].0@ != k,
    ensures
        tbl_get(t, k) is None,
    decreases t.len(),
{
    if t.len() > 0 {
        assert(forall|j: int| 0 <= j < t.len() - 1 ==> t.drop_first()[j] == t[j + 1]);
        lemma_tbl_get_none(t.drop_first(), k);
    }
}

/// A successful lookup names some pair of the table.
pub proof fn lemma_tbl_get_index<V>(t: Seq<(String, V)>, k: Seq<char>)
    requires
        tbl_get(t, k) is Some,
    ensures
        exists|i: int|
            0 <= i < t.len() && t[i].0@ == k && tbl_get(t, k) == Some(t[i].1),
        tbl_has(t, k),
    decreases t.len(),
{
    if t.len() > 0 && t[0].0@ != k {
        lemma_tbl_get_index(t.drop_first(), k);
        let i = choose|i: int|
            0 <= i < t.drop_first().len() && t.drop_first()[i].0@ == k && tbl_get(
                t.drop_first(),
                k,
            ) == Some(t.drop_first()[i].1);
        assert(t.drop_first()[i] == t[i + 1]);
        assert(t[i + 1].0@ == k && tbl_get(t, k) == Some(t[i + 1].1));
    }
}

/// A present id has a record.
pub proof fn lemma_tbl_has_get<V>(t: Seq<(String, V)>, k: Seq<char>)
    requires
        tbl_has(t, k),
    ensures
        tbl_get(t, k) is Some,
    decreases t.len(),
{
    if t.len() > 0 && t[0].0@ != k {
        let i = choose|i: int| 0 <= i < t.len() && t[i].0@ == k;
        assert(t.drop_first()[i - 1] == t[i]);
        lemma_tbl_has_get(t.drop_first(), k);
    }
}

/// Finds the record of the first pair of `t` carrying the id `k`.
pub fn tbl_find<'a, V>(t: &'a Vec<(String, V)>, k: &str) -> (r: Option<&'a V>)
    ensures
        match r {
            Some(v) => tbl_get(t@, k@) == Some(*v),
            None => tbl_get(t@, k@) is None,
        },
{
    let key: String = k.to_owned();
    let n = t.len();
    let mut i: usize = 0;
    while i < n
        invariant
            n == t@.len(),
            i <= n,
            key@ == k@,
            forall|j: int| 0 <= j < i ==> t@[j].0@ != k@,
        decreases n - i,
    {
        if t[i].0 == key {
            proof {
                lemma_tbl_get_at(t@, k@, i as int);
            }
            return Some(&t[i].1);
        }
        i += 1;
    }
    proof {
        lemma_tbl_get_none(t@, k@);
    }
    None
}

/// Whether the id `k` occurs in `v`.
pub fn names_contain(v: &Vec<String>, k: &str) -> (r: bool)
    ensures
        r == names_has(v@, k@),
{
    let key: String = k.to_owned();
    let n = v.len();
    let mut i: usize = 0;
    while i < n
        invariant
            n == v@.len(),
            i <= n,
            key@ == k@,
            forall|j: int| 0 <= j < i ==> v@[j]@ != k@,
        decreases n - i,
    {
        if v[i] == key {
            return true;
        }
        i += 1;
    }
    false
}

// ---- content integrity ----

/// Every id of the list has a record in the consequence table.
pub open spec fn ids_in_consequences(book: Questbook, ids: Seq<String>) -> bool {
    forall|j: int| 0 <= j < ids.len() ==> tbl_has(book.consequences@, #[trigger] ids[j]@)
}

/// A validated content graph: no decision or trigger references a
/// consequence id absent from the consequence table. The engine assumes
/// this of every graph it runs; a dangling reference is a broken story
/// definition, not a play-time condition.
pub open spec fn book_wf(book: Questbook) -> bool {
    &&& forall|i: int|
        0 <= i < book.decisions@.len() ==> ids_in_consequences(
            book,
            (#[trigger] book.decisions@[i]).1.consequences@,
        )
    &&& forall|i: int|
        0 <= i < book.triggers@.len() ==> ids_in_consequences(
            book,
            (#[trigger] book.triggers@[i]).1.consequences@,
        )
}

/// Whether every id of `ids` has a record in the consequence table.
fn ids_resolve(book: &Questbook, ids: &Vec<String>) -> (r: bool)
    ensures
        r == ids_in_consequences(*book, ids@),
{
    let n = ids.len();
    let mut j: usize = 0;
    while j < n
        invariant
            n == ids@.len(),
            j <= n,
            forall|x: int| 0 <= x < j ==> tbl_has(book.consequences@, #[trigger] ids@[x]@),
        decreases n - j,
    {
        match tbl_find(&book.consequences, ids[j].as_str()) {
            Some(_) => {
                proof {
                    lemma_tbl_get_index(book.consequences@, ids@[j as int]@);
                }
            },
            None => {
                proof {
                    if tbl_has(book.consequences@, ids@[j as int]@) {
                        lemma_tbl_has_get(book.consequences@, ids@[j as int]@);
                    }
                }
                return false;
            },
        }
        j += 1;
    }
    true
}

/// Checks the content-integrity condition [`book_wf`]: that every
/// consequence id referenced by a decision or a trigger exists in the
/// consequence table.
pub fn questbook_valid(book: &Questbook) -> (r: bool)
    ensures
        r == book_wf(*book),
{
    let nd = book.decisions.len();
    let mut i: usize = 0;
    while i < nd
        invariant
            nd == book.decisions@.len(),
            i <= nd,
            forall|x: int|
                0 <= x < i ==> ids_in_consequences(
                    *book,
                    (#[trigger] book.decisions@[x]).1.consequences@,
                ),
        decreases nd - i,
    {
        if !ids_resolve(book, &book.decisions[i].1.consequences) {
            return false;
        }
        i += 1;
    }
    let nt = book.triggers.len();
    let mut i: usize = 0;
    while i < nt
        invariant
            nt == book.triggers@.len(),
            i <= nt,
            forall|x: int|
                0 <= x < nd ==> ids_in_consequences(
                    *book,
                    (#[trigger] book.decisions@[x]).1.consequences@,
                ),
            nd == book.decisions@.len(),
            forall|x: int|
                0 <= x < i ==> ids_in_consequences(
                    *book,
                    (#[trigger] book.triggers@[x]).1.consequences@,
                ),
        decreases nt - i,
    {
        if !ids_resolve(book, &book.triggers[i].1.consequences) {
            return false;
        }
        i += 1;
    }
    true
}

impl Questbook {
    /// The story's title.
    pub fn title(&self) -> (r: &String)
        ensures
            r@ == self.story.title@,
    {
        &self.story.title
    }

    /// The ordered consequence ids of a decision, or nothing for an
    /// unknown decision id.
    pub fn get_consequences_from_decision(&self, decision: &str) -> (r: Vec<String>)
        ensures
            r@ == match tbl_get(self.decisions@, decision@) {
                Some(d) => d.consequences@,
                None => Seq::<String>::empty(),
            },
    {
        let mut consequences: Vec<String> = Vec::new();
        match tbl_find(&self.decisions, decision) {
            Some(d) => {
                let n = d.consequences.len();
                let mut i: usize = 0;
                while i < n
                    invariant
                        n == d.consequences@.len(),
                        i <= n,
                        consequences@ == d.consequences@.take(i as int),
                    decreases n - i,
                {
                    consequences.push(d.consequences[i].clone());
                    proof {
                        assert(consequences@ =~= d.consequences@.take(i + 1));
                    }
                    i += 1;
                }
                proof {
                    assert(d.consequences@.take(n as int) =~= d.consequences@);
                }
            },
            None => {},
        }
        consequences
    }
}

// ---- descriptive text ----

/// Records that can render themselves as a list of narrative strings.
pub trait Describe {
    /// The lines the record describes itself with.
    spec fn describe_spec(&self) -> Seq<Seq<char>>;

    /// Returns the record's descriptive lines.
    fn describe(&self) -> (r: Vec<String>)
        ensures
            r.deep_view() == self.describe_spec(),
    ;
}

impl Describe for Decision {
    open spec fn describe_spec(&self) -> Seq<Seq<char>> {
        match self.description {
            Some(d) => seq![d@],
            None => Seq::empty(),
        }
    }

    fn describe(&self) -> (r: Vec<String>) {
        let mut description: Vec<String> = Vec::new();
        match &self.description {
            Some(d) => {
                description.push(d.clone());
            },
            None => {},
        }
        proof {
            assert(description.deep_view() =~= self.describe_spec());
        }
        description
    }
}

impl Describe for Consequence {
    open spec fn describe_spec(&self) -> Seq<Seq<char>> {
        match self.description {
            Some(d) => seq![self.conclusion@, d@],
            None => seq![self.conclusion@],
        }
    }

    fn describe(&self) -> (r: Vec<String>) {
        let mut description: Vec<String> = Vec::new();
        description.push(self.conclusion.clone());
        match &self.description {
            Some(d) => {
                description.push(d.clone());
            },
            None => {},
        }
        proof {
            assert(description.deep_view() =~= self.describe_spec());
        }
        description
    }
}

} // verus!
