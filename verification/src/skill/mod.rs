//! Skill catalog and activation manager.
//!
//! Activating a skill adds its spans to the retained set; deactivating it drops them.
use vstd::prelude::*;

use crate::context::rope;
use crate::context::rope::{RetainedRope, Span, SpanView};
use crate::string_map::StringMap;

pub mod loader;

verus! {

/// A stable identifier with the spans that enter the rope on activation.
#[derive(Debug, PartialEq)]
pub struct Skill {
    pub id: String,
    pub spans: Vec<Span>,
}

/// The contents of a [`Skill`].
pub struct SkillView {
    pub id: Seq<char>,
    pub spans: Seq<SpanView>,
}

impl DeepView for Skill {
    type V = SkillView;

    open spec fn deep_view(&self) -> SkillView {
        SkillView { id: self.id@, spans: self.spans.deep_view() }
    }
}

impl Clone for Skill {
    fn clone(&self) -> (r: Self)
        ensures
            r.deep_view() == self.deep_view(),
    {
        Skill { id: self.id.clone(), spans: clone_spans(&self.spans) }
    }
}

impl Skill {
    /// A skill with the given identifier and spans.
    pub fn new(id: String, spans: Vec<Span>) -> (r: Self)
        ensures
            r == (Skill { id, spans }),
    {
        Skill { id, spans }
    }
}

fn clone_spans(spans: &Vec<Span>) -> (r: Vec<Span>)
    ensures
        r.deep_view() == spans.deep_view(),
{
    let r = spans.clone();
    proof {
        assert(r.deep_view() =~= spans.deep_view());
    }
    r
}

/// Errors of [`SkillManager`] operations.
#[derive(Debug, Clone, PartialEq, Eq)]
pub enum SkillError {
    NotRegistered(String),
    AlreadyActive(String),
    NotActive(String),
}

impl SkillError {
    /// The error in words.
    pub open spec fn words(&self) -> Seq<char> {
        match *self {
            SkillError::NotRegistered(id) => "skill not registered: "@ + id@,
            SkillError::AlreadyActive(id) => "skill already active: "@ + id@,
            SkillError::NotActive(id) => "skill not active: "@ + id@,
        }
    }

    /// The error in words.
    pub fn message(&self) -> (r: String)
        ensures
            r@ == self.words(),
    {
        match self {
            SkillError::NotRegistered(id) => "skill not registered: ".to_owned().concat(id),
            SkillError::AlreadyActive(id) => "skill already active: ".to_owned().concat(id),
            SkillError::NotActive(id) => "skill not active: ".to_owned().concat(id),
        }
    }
}

/// Catalog of registered skills with the set of active ones.
///
/// The manager does not own the rope that it acts on.
#[derive(Debug)]
pub struct SkillManager {
    catalog: StringMap<Skill>,
    active: StringMap<()>,
}

/// The state of a [`SkillManager`].
pub struct SkillState {
    pub catalog: Map<Seq<char>, SkillView>,
    pub active: Set<Seq<char>>,
}

impl SkillState {
    /// Each skill is registered under its own identifier, and each active skill is registered.
    pub open spec fn valid(self) -> bool {
        &&& forall|k: Seq<char>| #[trigger]
            self.catalog.contains_key(k) ==> self.catalog[k].id == k
        &&& forall|k: Seq<char>| #[trigger] self.active.contains(k) ==> self.catalog.contains_key(k)
    }
}

impl View for SkillManager {
    type V = SkillState;

    closed spec fn view(&self) -> SkillState {
        SkillState {
            catalog: self.catalog@.map_values(|s: Skill| s.deep_view()),
            active: self.active@.dom(),
        }
    }
}

impl Default for SkillManager {
    fn default() -> (r: Self)
        ensures
            r@.catalog == Map::<Seq<char>, SkillView>::empty(),
            r@.active == Set::<Seq<char>>::empty(),
            r@.valid(),
    {
        SkillManager::new()
    }
}

impl SkillManager {
    /// A manager with no skill registered and none active.
    pub fn new() -> (r: Self)
        ensures
            r@.catalog == Map::<Seq<char>, SkillView>::empty(),
            r@.active == Set::<Seq<char>>::empty(),
            r@.valid(),
    {
        let r = SkillManager { catalog: StringMap::new(), active: StringMap::new() };
        proof {
            assert(r@.catalog =~= Map::<Seq<char>, SkillView>::empty());
            assert(r@.active =~= Set::<Seq<char>>::empty());
        }
        r
    }

    /// Registers a skill in place of one with the same identifier. Spans that an older version
    /// brought into a rope stay there.
    pub fn register(&mut self, skill: Skill)
        ensures
            final(self)@.catalog == old(self)@.catalog.insert(skill.id@, skill.deep_view()),
            final(self)@.active == old(self)@.active,
            old(self)@.valid() ==> final(self)@.valid(),
    {
        let ghost before = self@;
        let ghost view = skill.deep_view();
        let key = skill.id.clone();
        self.catalog.insert(key, skill);
        proof {
            assert(self@.catalog =~= before.catalog.insert(view.id, view));
        }
    }

    /// Pushes the spans of a registered skill into the rope and marks it active. Nothing changes
    /// if the skill is not registered or already active.
    pub fn activate(&mut self, skill_id: &str, rope: &mut RetainedRope) -> (r: Result<
        (),
        SkillError,
    >)
        ensures
            final(self)@.catalog == old(self)@.catalog,
            match r {
                Ok(_) => {
                    &&& old(self)@.catalog.contains_key(skill_id@)
                    &&& !old(self)@.active.contains(skill_id@)
                    &&& final(self)@.active == old(self)@.active.insert(
                        old(self)@.catalog[skill_id@].id,
                    )
                    &&& final(rope)@ == old(rope)@.activated(
                        old(self)@.catalog[skill_id@].id,
                        old(self)@.catalog[skill_id@].spans,
                    )
                },
                Err(e) => {
                    &&& final(self)@.active == old(self)@.active
                    &&& final(rope)@ == old(rope)@
                    &&& match e {
                        SkillError::NotRegistered(id) => id@ == skill_id@
                            && !old(self)@.catalog.contains_key(skill_id@),
                        SkillError::AlreadyActive(id) => id@ == skill_id@
                            && old(self)@.catalog.contains_key(skill_id@)
                            && old(self)@.active.contains(skill_id@),
                        SkillError::NotActive(_) => false,
                    }
                },
            },
            old(self)@.valid() ==> final(self)@.valid(),
            old(rope)@.valid() ==> final(rope)@.valid(),
    {
        let (id, spans) = match self.catalog.get(skill_id) {
            Some(skill) => {
                if self.active.contains_key(skill_id) {
                    return Err(SkillError::AlreadyActive(skill_id.to_owned()));
                }
                (skill.id.clone(), clone_spans(&skill.spans))
            },
            None => {
                return Err(SkillError::NotRegistered(skill_id.to_owned()));
            },
        };
        rope.activate_skill(id.clone(), spans);
        let ghost active = self@.active;
        self.active.insert(id, ());
        proof {
            assert(self@.active =~= active.insert(id@));
        }
        Ok(())
    }

    /// Removes the spans of an active skill from the rope and marks it inactive. It stays
    /// registered. Nothing changes if the skill is not active.
    pub fn deactivate(&mut self, skill_id: &str, rope: &mut RetainedRope) -> (r: Result<
        (),
        SkillError,
    >)
        ensures
            final(self)@.catalog == old(self)@.catalog,
            match r {
                Ok(_) => {
                    &&& old(self)@.active.contains(skill_id@)
                    &&& final(self)@.active == old(self)@.active.remove(skill_id@)
                    &&& final(rope)@ == old(rope)@.deactivated(skill_id@)
                },
                Err(e) => {
                    &&& !old(self)@.active.contains(skill_id@)
                    &&& final(self)@.active == old(self)@.active
                    &&& final(rope)@ == old(rope)@
                    &&& e matches SkillError::NotActive(id) && id@ == skill_id@
                },
            },
            old(self)@.valid() ==> final(self)@.valid(),
            old(rope)@.valid() ==> final(rope)@.valid(),
    {
        if !self.active.contains_key(skill_id) {
            return Err(SkillError::NotActive(skill_id.to_owned()));
        }
        rope.deactivate_skill(skill_id);
        let ghost active = self@.active;
        self.active.remove(skill_id);
        proof {
            assert(self@.active =~= active.remove(skill_id@));
        }
        Ok(())
    }

    /// Whether the skill is active.
    pub fn is_active(&self, skill_id: &str) -> (r: bool)
        ensures
            r == self@.active.contains(skill_id@),
    {
        self.active.contains_key(skill_id)
    }

    /// Whether the skill is registered, active or not.
    pub fn is_registered(&self, skill_id: &str) -> (r: bool)
        ensures
            r == self@.catalog.contains_key(skill_id@),
    {
        self.catalog.contains_key(skill_id)
    }

    /// The identifiers of the registered skills, each once.
    pub fn registered(&self) -> (r: Vec<&str>)
        ensures
            r.deep_view().no_duplicates(),
            r.deep_view().to_set() == self@.catalog.dom(),
    {
        let r = self.catalog.keys();
        proof {
            assert(self@.catalog.dom() =~= self.catalog@.dom());
        }
        r
    }

    /// The identifiers of the active skills, each once.
    pub fn active_ids(&self) -> (r: Vec<&str>)
        ensures
            r.deep_view().no_duplicates(),
            r.deep_view().to_set() == self@.active,
    {
        self.active.keys()
    }

    /// The number of active skills.
    pub fn active_count(&self) -> (n: usize)
        ensures
            n == self@.active.len(),
    {
        self.active.len()
    }
}

/// A skill leaves no trace among the active spans when it is activated and deactivated again, and
/// the rope is then as ready for it as before: it can be activated once more. Its spans may be new
/// to the rope, or known from earlier activations of the skill.
pub proof fn law_deactivate_undoes_activate(
    m: SkillState,
    r: rope::RopeState,
    id: Seq<char>,
    spans: Seq<SpanView>,
)
    requires
        m.catalog.contains_key(id),
        m.catalog[id] == (SkillView { id, spans }),
        !m.active.contains(id),
        r.events.len() < usize::MAX,
        r.admits(id, spans),
    ensures
        m.active.insert(m.catalog[id].id).remove(id) == m.active,
        r.activated(m.catalog[id].id, m.catalog[id].spans).deactivated(id).spans == r.spans,
        r.activated(m.catalog[id].id, m.catalog[id].spans).deactivated(id).admits(id, spans),
{
    let skill = m.catalog[id];
    assert(skill.id == id && skill.spans == spans);
    assert(m.active.insert(id).remove(id) == m.active) by {
        assert(m.active.insert(id).remove(id) =~= m.active);
    }
    assert(r.activated(skill.id, skill.spans) == r.activated(id, spans));
    rope::law_deactivation_undoes_activation(r, id, spans);
    rope::lemma_still_admits(r, id, spans);
}

/// A skill is activated exactly if it is registered and not active; it is active then and its spans
/// are in the rope, and otherwise nothing changes.
pub proof fn law_registered_skills_are_activated(
    m: &mut SkillManager,
    id: &str,
    rope: &mut RetainedRope,
    r: Result<(), SkillError>,
)
    requires
        old(m)@.valid(),
        call_ensures(SkillManager::activate, (m, id, rope), r),
    ensures
        r is Ok <==> old(m)@.catalog.contains_key(id@) && !old(m)@.active.contains(id@),
        r is Ok ==> final(m)@.active == old(m)@.active.insert(id@) && final(rope)@.spans == old(
            rope,
        )@.spans + old(m)@.catalog[id@].spans,
        r is Err ==> final(m)@.active == old(m)@.active && final(rope)@ == old(rope)@,
        r matches Err(e) ==> (e is NotRegistered <==> !old(m)@.catalog.contains_key(id@)) && (
        e is AlreadyActive <==> old(m)@.catalog.contains_key(id@)),
        final(m)@.catalog == old(m)@.catalog,
{
}

/// A skill is deactivated exactly if it is active; it is not active then and its spans leave the
/// rope, and otherwise nothing changes.
pub proof fn law_active_skills_are_deactivated(
    m: &mut SkillManager,
    id: &str,
    rope: &mut RetainedRope,
    r: Result<(), SkillError>,
)
    requires
        call_ensures(SkillManager::deactivate, (m, id, rope), r),
    ensures
        r is Ok <==> old(m)@.active.contains(id@),
        !final(m)@.active.contains(id@),
        r is Ok ==> final(m)@.active == old(m)@.active.remove(id@) && final(rope)@ == old(
            rope,
        )@.deactivated(id@),
        r is Err ==> final(rope)@ == old(rope)@ && r->Err_0 is NotActive && final(m)@.active == old(
            m,
        )@.active,
        final(m)@.catalog == old(m)@.catalog,
{
}

/// A registered skill is in the catalog under its identifier, and what was active stays active.
pub proof fn law_skills_are_registered(m: &mut SkillManager, skill: Skill, other: Seq<char>)
    requires
        call_ensures(SkillManager::register, (m, skill), ()),
    ensures
        final(m)@.catalog.contains_key(skill.id@),
        final(m)@.catalog[skill.id@] == skill.deep_view(),
        final(m)@.active == old(m)@.active,
        other != skill.id@ ==> (final(m)@.catalog.contains_key(other) <==> old(
            m,
        )@.catalog.contains_key(other)) && final(m)@.catalog[other] == old(m)@.catalog[other],
{
}

} // verus!
