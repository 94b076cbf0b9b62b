//! Projection of tools and skills into a capability manifest.
use vstd::prelude::*;

use crate::agent::{SideEffects, ToolPolicy, ToolSpec};
use crate::capability::Capability;
use crate::context::rope;
use crate::double::Double;
use crate::seqs;
use crate::skill::loader::LoadedSkill;
use crate::string_map;
use crate::text;
use crate::tool_registry;
use crate::tool_registry::ToolRegistry;

verus! {

/// What an invocation does to the file system.
#[derive(Debug, Clone, Copy, PartialEq, Eq, Structural)]
pub enum FsEffect {
    Nothing,
    Read,
    Write,
}

/// What an invocation does to the world.
#[derive(Debug, Clone, Copy, PartialEq, Eq, Structural)]
pub struct Effects {
    pub filesystem: FsEffect,
    pub network: bool,
    pub vcs: bool,
    pub spend: bool,
}

/// A ranked capability as the discovery surface shows it.
#[derive(Debug, Clone)]
pub struct CapabilityView {
    pub path: String,
    pub summary: String,
    pub keywords: Vec<String>,
    pub score: Double,
    /// The effects, if they are known.
    pub effects: Option<Effects>,
    /// Whether the constraints of the session permit the capability.
    pub allowed_by_session: bool,
    /// Why the session does not permit it.
    pub disallowed_reason: Option<String>,
    /// The source that the capability came from.
    pub source: Option<String>,
}

/// The effects that a policy declares. Access to the cloud reaches the network and spends.
pub open spec fn effects_of(p: ToolPolicy) -> Effects {
    let cloud = p.required_aws_capability is Some;
    Effects {
        filesystem: match p.side_effects {
            SideEffects::ReadOnly => FsEffect::Read,
            SideEffects::Mutating => FsEffect::Write,
            SideEffects::Destructive => FsEffect::Write,
            SideEffects::External => FsEffect::Nothing,
        },
        network: p.side_effects is External || cloud,
        vcs: false,
        spend: cloud,
    }
}

/// The effects that a policy declares.
pub fn effects_from_policy(policy: &ToolPolicy) -> (r: Effects)
    ensures
        r == effects_of(*policy),
{
    let mut e = Effects { filesystem: FsEffect::Nothing, network: false, vcs: false, spend: false };
    match policy.side_effects {
        SideEffects::ReadOnly => {
            e.filesystem = FsEffect::Read;
        },
        SideEffects::Mutating | SideEffects::Destructive => {
            e.filesystem = FsEffect::Write;
        },
        SideEffects::External => {
            e.network = true;
        },
    }
    if policy.required_aws_capability.is_some() {
        e.network = true;
        e.spend = true;
    }
    e
}

/// Whether a character is a letter or a number in Unicode.
pub uninterp spec fn alphanumeric(c: char) -> bool;

/// Calls `char::is_alphanumeric`. What is claimed is that the result depends on the character
/// alone.
#[verifier::external_body]
fn is_alphanumeric(c: char) -> (r: bool)
    ensures
        r == alphanumeric(c),
{
    c.is_alphanumeric()
}

/// A text in lower case by the rules of Unicode.
pub uninterp spec fn lowercase(s: Seq<char>) -> Seq<char>;

/// Calls `str::to_lowercase`. What is claimed is that the result depends on the text alone.
#[verifier::external_body]
fn to_lowercase(s: &str) -> (r: String)
    ensures
        r@ == lowercase(s@),
{
    s.to_lowercase()
}

/// The maximal runs of marked characters that have ended in `s`, and the one at its end.
pub open spec fn runs(s: Seq<char>, marks: Seq<bool>) -> (Seq<Seq<char>>, Seq<char>)
    decreases s.len(),
{
    if s.len() == 0 {
        (Seq::empty(), Seq::empty())
    } else {
        let (ended, open) = runs(s.drop_last(), marks.drop_last());
        if marks.last() {
            (ended, open.push(s.last()))
        } else if open.len() > 0 {
            (ended.push(open), Seq::empty())
        } else {
            (ended, Seq::empty())
        }
    }
}

/// The maximal runs of marked characters in `s`.
pub open spec fn words_by(s: Seq<char>, marks: Seq<bool>) -> Seq<Seq<char>> {
    let (ended, open) = runs(s, marks);
    if open.len() > 0 {
        ended.push(open)
    } else {
        ended
    }
}

/// The maximal runs of marked characters in `s`. There is one mark for each character.
pub fn split_words(s: &str, marks: &Vec<bool>) -> (r: Vec<String>)
    requires
        marks@.len() == s@.len(),
    ensures
        r.deep_view() == words_by(s@, marks@),
{
    let mut r: Vec<String> = Vec::new();
    let mut start: usize = 0;
    let mut i: usize = 0;
    let n: usize = s.unicode_len();
    proof {
        assert(r.deep_view() =~= Seq::empty());
        assert(s@.subrange(0, 0) =~= Seq::empty());
    }
    while i < n
        invariant
            n == s@.len(),
            marks@.len() == n,
            start <= i <= n,
            runs(s@.take(i as int), marks@.take(i as int)) == (
                r.deep_view(),
                s@.subrange(start as int, i as int),
            ),
        decreases n - i,
    {
        proof {
            seqs::lemma_take_step(s@, i as int);
            seqs::lemma_take_step(marks@, i as int);
            assert(s@.subrange(start as int, i as int).push(s@[i as int]) =~= s@.subrange(
                start as int,
                i + 1,
            ));
        }
        if !marks[i] {
            if start < i {
                let ghost before = r.deep_view();
                let word = s.substring_char(start, i);
                r.push(word.to_owned());
                proof {
                    assert(r.deep_view() =~= before.push(word@));
                }
            }
            start = i + 1;
            proof {
                assert(s@.subrange(i + 1, i + 1) =~= Seq::empty());
            }
        }
        i += 1;
    }
    proof {
        assert(s@.take(n as int) =~= s@);
        assert(marks@.take(n as int) =~= marks@);
    }
    if start < n {
        let ghost before = r.deep_view();
        let word = s.substring_char(start, n);
        r.push(word.to_owned());
        proof {
            assert(r.deep_view() =~= before.push(word@));
        }
    }
    r
}

/// The words of a text, in lower case: its maximal runs of letters and numbers.
pub open spec fn tokens_of(s: Seq<char>) -> Seq<Seq<char>> {
    words_by(s, s.map_values(|c: char| alphanumeric(c))).map_values(|w: Seq<char>| lowercase(w))
}

/// The words of a text, in lower case.
pub fn tokenize(s: &str) -> (r: Vec<String>)
    ensures
        r.deep_view() == tokens_of(s@),
{
    let v = text::chars_of(s);
    let mut marks: Vec<bool> = Vec::new();
    let mut i: usize = 0;
    while i < v.len()
        invariant
            v@ == s@,
            i <= v@.len(),
            marks@.len() == i,
            forall|j: int| 0 <= j < i ==> #[trigger] marks@[j] == alphanumeric(s@[j]),
        decreases v@.len() - i,
    {
        marks.push(is_alphanumeric(v[i]));
        i += 1;
    }
    proof {
        assert(marks@ =~= s@.map_values(|c: char| alphanumeric(c)));
    }
    let words = split_words(s, &marks);
    let ghost all = words.deep_view();
    let mut r: Vec<String> = Vec::new();
    let mut k: usize = 0;
    while k < words.len()
        invariant
            k <= words@.len(),
            all == words.deep_view(),
            r@.len() == k,
            forall|j: int| 0 <= j < k ==> (#[trigger] r@[j])@ == lowercase(all[j]),
        decreases words@.len() - k,
    {
        r.push(to_lowercase(&words[k]));
        k += 1;
    }
    proof {
        assert(r.deep_view() =~= tokens_of(s@));
    }
    r
}

/// A tool or a skill as an entry of the manifest.
#[derive(Debug, PartialEq)]
pub struct ProjectedCapability {
    pub path: String,
    pub summary: String,
    pub keywords: Vec<String>,
    /// The effects, if they are known.
    pub effects: Option<Effects>,
}

/// The contents of a [`ProjectedCapability`].
pub struct ProjectedView {
    pub path: Seq<char>,
    pub summary: Seq<char>,
    pub keywords: Seq<Seq<char>>,
    pub effects: Option<Effects>,
}

impl DeepView for ProjectedCapability {
    type V = ProjectedView;

    open spec fn deep_view(&self) -> ProjectedView {
        ProjectedView {
            path: self.path@,
            summary: self.summary@,
            keywords: self.keywords.deep_view(),
            effects: self.effects,
        }
    }
}

/// The path of the entry `name` of a source.
pub open spec fn path_of(source: Seq<char>, name: Seq<char>) -> Seq<char> {
    source + "."@ + name
}

/// The path of the entry `name` of a source.
pub fn capability_path(source: &str, name: &str) -> (r: String)
    ensures
        r@ == path_of(source@, name@),
{
    source.to_owned().concat(".").concat(name)
}

/// The entry of a source: none if its path is not among the valid ones. The words of its name and
/// of the hint when to use it are its keywords.
pub open spec fn projected(
    source: Seq<char>,
    name: Seq<char>,
    description: Seq<char>,
    when: Option<Seq<char>>,
    effects: Option<Effects>,
    valid: Seq<Seq<char>>,
) -> Option<ProjectedView> {
    if valid.contains(path_of(source, name)) {
        Some(
            ProjectedView {
                path: path_of(source, name),
                summary: if description.len() == 0 {
                    name
                } else {
                    description
                },
                keywords: match when {
                    Some(w) => tokens_of(name) + tokens_of(w),
                    None => tokens_of(name),
                },
                effects,
            },
        )
    } else {
        None
    }
}

/// The entry of a source. `valid` holds the paths that can be used.
pub fn capability_for(
    source: &str,
    name: &str,
    description: &str,
    when: &Option<String>,
    effects: Option<Effects>,
    valid: &Vec<String>,
) -> (r: Option<ProjectedCapability>)
    ensures
        r.deep_view() == projected(
            source@,
            name@,
            description@,
            when.deep_view(),
            effects,
            valid.deep_view(),
        ),
{
    let path = capability_path(source, name);
    if !rope::contains_string(valid, &path) {
        return None;
    }
    let summary = if description.unicode_len() == 0 {
        name.to_owned()
    } else {
        description.to_owned()
    };
    let mut keywords = tokenize(name);
    if let Some(w) = when {
        let ghost before = keywords.deep_view();
        let mut more = tokenize(w);
        let ghost added = more.deep_view();
        keywords.append(&mut more);
        proof {
            assert(keywords.deep_view() =~= before + added);
        }
    }
    Some(ProjectedCapability { path, summary, keywords, effects })
}

/// The entries of a source.
#[derive(Debug, PartialEq)]
pub struct MuRegistrySource {
    pub name: String,
    pub caps: Vec<ProjectedCapability>,
}

/// The entry of a tool.
pub open spec fn tool_entry(spec: ToolSpec, valid: Seq<Seq<char>>) -> Option<ProjectedView> {
    projected(
        "tool"@,
        spec.name@,
        spec.description@,
        spec.when.deep_view(),
        Some(effects_of(spec.policy)),
        valid,
    )
}

/// The entry of a skill, whose effects are not known.
pub open spec fn skill_entry(s: LoadedSkill, valid: Seq<Seq<char>>) -> Option<ProjectedView> {
    projected(
        "skill"@,
        s.frontmatter.name@,
        s.frontmatter.description@,
        s.frontmatter.when_to_use.deep_view(),
        None,
        valid,
    )
}

/// Those of `entries` that are there.
pub open spec fn present(entries: Seq<Option<ProjectedView>>) -> Seq<ProjectedView>
    decreases entries.len(),
{
    if entries.len() == 0 {
        Seq::empty()
    } else {
        let before = present(entries.drop_last());
        match entries.last() {
            Some(e) => before.push(e),
            None => before,
        }
    }
}

/// The entries of tools.
pub open spec fn tool_entries(specs: Seq<ToolSpec>, valid: Seq<Seq<char>>) -> Seq<ProjectedView> {
    present(specs.map_values(|s: ToolSpec| tool_entry(s, valid)))
}

/// The entries of skills.
pub open spec fn skill_entries(skills: Seq<LoadedSkill>, valid: Seq<Seq<char>>) -> Seq<
    ProjectedView,
> {
    present(skills.map_values(|s: LoadedSkill| skill_entry(s, valid)))
}

impl MuRegistrySource {
    /// The source of tools. `valid` holds the paths that can be used; other tools are left out.
    pub fn from_tools(tools: &Vec<&ToolSpec>, valid: &Vec<String>) -> (r: Self)
        ensures
            r.name@ == "mu-tools"@,
            r.caps.deep_view() == tool_entries(tools@.unref(), valid.deep_view()),
    {
        let ghost all = tools@.unref().map_values(
            |s: ToolSpec| tool_entry(s, valid.deep_view()),
        );
        let mut caps: Vec<ProjectedCapability> = Vec::new();
        let mut i: usize = 0;
        proof {
            assert(caps.deep_view() =~= Seq::empty());
            assert(all.take(0) =~= Seq::empty());
        }
        while i < tools.len()
            invariant
                i <= tools@.len(),
                all == tools@.unref().map_values(
            |s: ToolSpec| tool_entry(s, valid.deep_view()),
        ),
                caps.deep_view() == present(all.take(i as int)),
            decreases tools@.len() - i,
        {
            proof {
                seqs::lemma_take_step(all, i as int);
            }
            let spec = tools[i];
            let ghost before = caps.deep_view();
            let entry = capability_for(
                "tool",
                &spec.name,
                &spec.description,
                &spec.when,
                Some(effects_from_policy(&spec.policy)),
                valid,
            );
            proof {
                assert(all[i as int] == entry.deep_view());
            }
            if let Some(c) = entry {
                caps.push(c);
                proof {
                    assert(caps.deep_view() =~= before.push(c.deep_view()));
                }
            }
            i += 1;
        }
        proof {
            assert(all.take(all.len() as int) =~= all);
        }
        MuRegistrySource { name: "mu-tools".to_owned(), caps }
    }

    /// The source of skills. `valid` holds the paths that can be used; other skills are left out.
    pub fn from_skills(skills: &Vec<LoadedSkill>, valid: &Vec<String>) -> (r: Self)
        ensures
            r.name@ == "mu-skills"@,
            r.caps.deep_view() == skill_entries(skills@, valid.deep_view()),
    {
        let ghost all = skills@.map_values(|s: LoadedSkill| skill_entry(s, valid.deep_view()));
        let mut caps: Vec<ProjectedCapability> = Vec::new();
        let mut i: usize = 0;
        proof {
            assert(caps.deep_view() =~= Seq::empty());
            assert(all.take(0) =~= Seq::empty());
        }
        while i < skills.len()
            invariant
                i <= skills@.len(),
                all == skills@.map_values(|s: LoadedSkill| skill_entry(s, valid.deep_view())),
                caps.deep_view() == present(all.take(i as int)),
            decreases skills@.len() - i,
        {
            proof {
                seqs::lemma_take_step(all, i as int);
            }
            let fm = &skills[i].frontmatter;
            let ghost before = caps.deep_view();
            let entry = capability_for(
                "skill",
                &fm.name,
                &fm.description,
                &fm.when_to_use,
                None,
                valid,
            );
            proof {
                assert(all[i as int] == entry.deep_view());
            }
            if let Some(c) = entry {
                caps.push(c);
                proof {
                    assert(caps.deep_view() =~= before.push(c.deep_view()));
                }
            }
            i += 1;
        }
        proof {
            assert(all.take(all.len() as int) =~= all);
        }
        MuRegistrySource { name: "mu-skills".to_owned(), caps }
    }

    /// How many entries there are.
    pub fn len(&self) -> (r: usize)
        ensures
            r == self.caps@.len(),
    {
        self.caps.len()
    }

    /// Whether there are no entries.
    pub fn is_empty(&self) -> (r: bool)
        ensures
            r == (self.caps@.len() == 0),
    {
        self.caps.len() == 0
    }
}

/// The manifest: the source of tools and the source of skills.
#[derive(Debug, PartialEq)]
pub struct Manifest {
    pub tools: MuRegistrySource,
    pub skills: MuRegistrySource,
}

/// The manifest of tools and skills.
pub fn build_manifest(tools: &Vec<&ToolSpec>, skills: &Vec<LoadedSkill>, valid: &Vec<String>) -> (r:
    Manifest)
    ensures
        r.tools.name@ == "mu-tools"@,
        r.tools.caps.deep_view() == tool_entries(tools@.unref(), valid.deep_view()),
        r.skills.name@ == "mu-skills"@,
        r.skills.caps.deep_view() == skill_entries(skills@, valid.deep_view()),
{
    Manifest {
        tools: MuRegistrySource::from_tools(tools, valid),
        skills: MuRegistrySource::from_skills(skills, valid),
    }
}

/// The manifest of a session: only tools that its capability permits are in it.
pub fn build_manifest_for(
    registry: &ToolRegistry<ToolSpec>,
    cap: &Capability,
    skills: &Vec<LoadedSkill>,
    valid: &Vec<String>,
) -> (r: Manifest)
    ensures
        r.tools.caps.deep_view() == tool_entries(
            tool_registry::permitted_tools(registry@, cap),
            valid.deep_view(),
        ),
        r.tools.name@ == "mu-tools"@,
        r.skills.name@ == "mu-skills"@,
        r.skills.caps.deep_view() == skill_entries(skills@, valid.deep_view()),
{
    let tools = registry.attenuate_with(cap);
    build_manifest(&tools, skills, valid)
}

/// An entry as a ranking gives it, best first.
#[derive(Debug, Clone, PartialEq)]
pub struct RankedCapability {
    pub path: String,
    pub summary: String,
    pub keywords: Vec<String>,
    pub score: Double,
    pub effects: Option<Effects>,
    /// Why the constraints of the session do not permit it, if they do not.
    pub disallowed_reason: Option<String>,
    pub source: Option<String>,
}

/// Whether `v` shows the ranked entry `r`: it is shown whether it is permitted or not.
pub open spec fn shows(v: CapabilityView, r: RankedCapability) -> bool {
    &&& v.path@ == r.path@
    &&& v.summary@ == r.summary@
    &&& v.keywords.deep_view() == r.keywords.deep_view()
    &&& v.score == r.score
    &&& v.effects == r.effects
    &&& v.allowed_by_session == (r.disallowed_reason is None)
    &&& v.disallowed_reason.deep_view() == r.disallowed_reason.deep_view()
    &&& v.source.deep_view() == r.source.deep_view()
}

fn view_of(r: &RankedCapability) -> (v: CapabilityView)
    ensures
        shows(v, *r),
{
    let keywords = r.keywords.clone();
    proof {
        assert(keywords.deep_view() =~= r.keywords.deep_view());
    }
    CapabilityView {
        path: r.path.clone(),
        summary: r.summary.clone(),
        keywords,
        score: r.score,
        effects: r.effects,
        allowed_by_session: r.disallowed_reason.is_none(),
        disallowed_reason: r.disallowed_reason.clone(),
        source: r.source.clone(),
    }
}

/// The first `limit` ranked entries as they are shown. One that the session does not permit is
/// shown with the reason.
pub fn discover_view_constrained(ranked: &Vec<RankedCapability>, limit: usize) -> (r: Vec<
    CapabilityView,
>)
    ensures
        r@.len() == (if ranked@.len() < limit {
            ranked@.len()
        } else {
            limit as nat
        }),
        forall|i: int| 0 <= i < r@.len() ==> shows(#[trigger] r@[i], ranked@[i]),
{
    let n: usize = if ranked.len() < limit {
        ranked.len()
    } else {
        limit
    };
    let mut r: Vec<CapabilityView> = Vec::new();
    let mut i: usize = 0;
    while i < n
        invariant
            i <= n,
            n <= ranked@.len(),
            r@.len() == i,
            forall|j: int| 0 <= j < i ==> shows(#[trigger] r@[j], ranked@[j]),
        decreases n - i,
    {
        r.push(view_of(&ranked[i]));
        i += 1;
    }
    r
}

/// Discovery tracks permission: every tool in the manifest of a session is one that its capability
/// permits.
pub proof fn law_discovery_tracks_permission(
    tools: Map<Seq<char>, ToolSpec>,
    cap: &Capability,
    valid: Seq<Seq<char>>,
    i: int,
)
    requires
        tools.dom().finite(),
        0 <= i < tool_entries(tool_registry::permitted_tools(tools, cap), valid).len(),
    ensures
        exists|n: Seq<char>| #[trigger]
            tools.contains_key(n) && cap.permits(n) && tool_entries(
                tool_registry::permitted_tools(tools, cap),
                valid,
            )[i].path == path_of("tool"@, tools[n].name@),
{
    let names = tool_registry::permitted_names(tools, cap);
    let specs = tool_registry::permitted_tools(tools, cap);
    string_map::lemma_sorted_keys_exist(tool_registry::permitted(tools, cap));
    let all = specs.map_values(|s: ToolSpec| tool_entry(s, valid));
    lemma_present(all, i);
    let k = choose|k: int| 0 <= k < all.len() && #[trigger] all[k] == Some(present(all)[i]);
    assert(names.to_set().contains(names[k]));
    assert(tools.contains_key(names[k]));
}

proof fn lemma_present(entries: Seq<Option<ProjectedView>>, i: int)
    requires
        0 <= i < present(entries).len(),
    ensures
        exists|k: int| 0 <= k < entries.len() && #[trigger] entries[k] == Some(present(entries)[i]),
    decreases entries.len(),
{
    if entries.len() > 0 {
        let before = present(entries.drop_last());
        if i < before.len() {
            lemma_present(entries.drop_last(), i);
            let k = choose|k: int|
                0 <= k < entries.drop_last().len() && #[trigger] entries.drop_last()[k] == Some(
                    before[i],
                );
            assert(entries[k] == Some(present(entries)[i]));
        } else {
            assert(entries[entries.len() - 1] == Some(present(entries)[i]));
        }
    }
}

/// The effects that a policy declares are never less than what it says: what changes files writes,
/// what is external reaches the network, and what needs the cloud spends.
pub proof fn law_effects_are_not_understated(p: ToolPolicy)
    ensures
        p.side_effects is Mutating || p.side_effects is Destructive ==> effects_of(p).filesystem
            is Write,
        p.side_effects is External ==> effects_of(p).network,
        p.required_aws_capability is Some ==> effects_of(p).network && effects_of(p).spend,
{
}

proof fn lemma_path(source: Seq<char>, name: Seq<char>)
    ensures
        path_of(source, name) == (source + "."@) + name,
{
}

proof fn lemma_present_of_two(a: Seq<Option<ProjectedView>>, b: Seq<Option<ProjectedView>>)
    ensures
        present(a + b) == present(a) + present(b),
    decreases b.len(),
{
    if b.len() == 0 {
        assert(a + b =~= a);
        assert(present(a + b) =~= present(a) + present(b));
    } else {
        assert((a + b).drop_last() =~= a + b.drop_last());
        lemma_present_of_two(a, b.drop_last());
        assert(present(a + b) =~= present(a) + present(b));
    }
}

/// The paths of skills as a manifest names them.
pub open spec fn skill_paths(skills: Seq<LoadedSkill>) -> Seq<Seq<char>> {
    Seq::new(skills.len(), |i: int| "skill."@ + skills[i].frontmatter.name@)
}

/// The skills of which the path is valid, and no others, have entries, under exactly these paths and
/// in their order.
pub proof fn law_skill_entries_have_the_paths_of_skills(skills: Seq<LoadedSkill>, valid: Seq<Seq<char>>)
    ensures
        skill_entries(skills, valid).map_values(|e: ProjectedView| e.path) == skill_paths(
            skills,
        ).filter(|p: Seq<char>| valid.contains(p)),
        forall|i: int|
            0 <= i < skills.len() && valid.contains("skill."@ + (#[trigger] skills[i]).frontmatter.name@)
                ==> exists|j: int|
                0 <= j < skill_entries(skills, valid).len() && (
                #[trigger] skill_entries(skills, valid)[j]).path == "skill."@
                    + skills[i].frontmatter.name@,
        forall|j: int|
            0 <= j < skill_entries(skills, valid).len() ==> exists|i: int|
                0 <= i < skills.len() && (#[trigger] skill_entries(skills, valid)[j]).path
                    == "skill."@ + (#[trigger] skills[i]).frontmatter.name@,
{
    let entries = skill_entries(skills, valid);
    let paths = entries.map_values(|e: ProjectedView| e.path);
    let all = skill_paths(skills);
    let p = |p: Seq<char>| valid.contains(p);
    lemma_skill_paths(skills, valid);
    seqs::lemma_filter_contains(all, p);
    assert forall|i: int|
        0 <= i < skills.len() && valid.contains("skill."@ + (#[trigger] skills[i]).frontmatter.name@) implies exists|
        j: int,
    |
        0 <= j < entries.len() && (#[trigger] entries[j]).path == "skill."@ + skills[i].frontmatter.name@ by {
        assert(all[i] == "skill."@ + skills[i].frontmatter.name@);
        assert(all.contains(all[i]));
        assert(paths.contains(all[i]));
        let j = choose|j: int| 0 <= j < paths.len() && paths[j] == all[i];
        assert(entries[j].path == paths[j]);
    }
    assert forall|j: int| 0 <= j < entries.len() implies exists|i: int|
        0 <= i < skills.len() && (#[trigger] entries[j]).path == "skill."@ + (
        #[trigger] skills[i]).frontmatter.name@ by {
        assert(paths[j] == entries[j].path);
        assert(paths.contains(paths[j]));
        let i = choose|i: int| 0 <= i < all.len() && all[i] == paths[j];
        let s = skills[i];
    }
}

proof fn lemma_skill_paths(skills: Seq<LoadedSkill>, valid: Seq<Seq<char>>)
    ensures
        skill_entries(skills, valid).map_values(|e: ProjectedView| e.path) == skill_paths(
            skills,
        ).filter(|p: Seq<char>| valid.contains(p)),
    decreases skills.len(),
{
    reveal(Seq::filter);
    let f = |s: LoadedSkill| skill_entry(s, valid);
    let g = |e: ProjectedView| e.path;
    let p = |p: Seq<char>| valid.contains(p);
    let all = skills.map_values(f);
    let paths = skill_paths(skills);
    if skills.len() > 0 {
        let t = skills.drop_last();
        lemma_skill_paths(t, valid);
        assert(all.drop_last() =~= t.map_values(f));
        assert(paths.drop_last() =~= skill_paths(t));
        lemma_path("skill"@, skills.last().frontmatter.name@);
        reveal_strlit("skill");
        reveal_strlit("skill.");
        reveal_strlit(".");
        assert("skill"@ + "."@ =~= "skill."@);
        assert(paths.last() == path_of("skill"@, skills.last().frontmatter.name@));
        assert(skill_entries(skills, valid).map_values(g) =~= paths.filter(p));
    } else {
        assert(skill_entries(skills, valid).map_values(g) =~= paths.filter(p));
    }
}

/// Skills are projected one by one and in order, and the entry of each tells its description, or
/// its name without one, has the words of its name and of the hint when to use it as keywords, and
/// has no known effects.
pub proof fn law_skills_are_projected_one_by_one(
    a: Seq<LoadedSkill>,
    b: Seq<LoadedSkill>,
    s: LoadedSkill,
    valid: Seq<Seq<char>>,
)
    ensures
        skill_entries(a + b, valid) == skill_entries(a, valid) + skill_entries(b, valid),
        !valid.contains("skill."@ + s.frontmatter.name@) ==> skill_entries(seq![s], valid).len() == 0,
        valid.contains("skill."@ + s.frontmatter.name@) ==> {
            let entries = skill_entries(seq![s], valid);
            &&& entries.len() == 1
            &&& entries[0].path == "skill."@ + s.frontmatter.name@
            &&& s.frontmatter.description@.len() > 0 ==> entries[0].summary == s.frontmatter.description@
            &&& s.frontmatter.description@.len() == 0 ==> entries[0].summary == s.frontmatter.name@
            &&& s.frontmatter.when_to_use is None ==> entries[0].keywords == tokens_of(s.frontmatter.name@)
            &&& s.frontmatter.when_to_use is Some ==> entries[0].keywords == tokens_of(s.frontmatter.name@) + tokens_of(
                s.frontmatter.when_to_use->0@,
            )
            &&& entries[0].effects is None
        },
{
    let f = |s: LoadedSkill| skill_entry(s, valid);
    assert((a + b).map_values(f) =~= a.map_values(f) + b.map_values(f));
    lemma_present_of_two(a.map_values(f), b.map_values(f));
    reveal_strlit("skill");
    reveal_strlit("skill.");
    reveal_strlit(".");
    assert("skill"@ + "."@ =~= "skill."@);
    let one = seq![s].map_values(f);
    assert(one.drop_last() =~= Seq::empty());
    assert(present(one.drop_last()) =~= Seq::empty());
    assert(one.last() == skill_entry(s, valid));
}

/// The paths of tools as a manifest names them.
pub open spec fn tool_paths(specs: Seq<ToolSpec>) -> Seq<Seq<char>> {
    Seq::new(specs.len(), |i: int| "tool."@ + specs[i].name@)
}

/// The tools of which the path is valid, and no others, have entries, under exactly these paths and
/// in their order.
pub proof fn law_tool_entries_have_the_paths_of_tools(specs: Seq<ToolSpec>, valid: Seq<Seq<char>>)
    ensures
        tool_entries(specs, valid).map_values(|e: ProjectedView| e.path) == tool_paths(
            specs,
        ).filter(|p: Seq<char>| valid.contains(p)),
        forall|i: int|
            0 <= i < specs.len() && valid.contains("tool."@ + (#[trigger] specs[i]).name@)
                ==> exists|j: int|
                0 <= j < tool_entries(specs, valid).len() && (
                #[trigger] tool_entries(specs, valid)[j]).path == "tool."@
                    + specs[i].name@,
        forall|j: int|
            0 <= j < tool_entries(specs, valid).len() ==> exists|i: int|
                0 <= i < specs.len() && (#[trigger] tool_entries(specs, valid)[j]).path
                    == "tool."@ + (#[trigger] specs[i]).name@,
{
    let entries = tool_entries(specs, valid);
    let paths = entries.map_values(|e: ProjectedView| e.path);
    let all = tool_paths(specs);
    let p = |p: Seq<char>| valid.contains(p);
    lemma_tool_paths(specs, valid);
    seqs::lemma_filter_contains(all, p);
    assert forall|i: int|
        0 <= i < specs.len() && valid.contains("tool."@ + (#[trigger] specs[i]).name@) implies exists|
        j: int,
    |
        0 <= j < entries.len() && (#[trigger] entries[j]).path == "tool."@ + specs[i].name@ by {
        assert(all[i] == "tool."@ + specs[i].name@);
        assert(all.contains(all[i]));
        assert(paths.contains(all[i]));
        let j = choose|j: int| 0 <= j < paths.len() && paths[j] == all[i];
        assert(entries[j].path == paths[j]);
    }
    assert forall|j: int| 0 <= j < entries.len() implies exists|i: int|
        0 <= i < specs.len() && (#[trigger] entries[j]).path == "tool."@ + (
        #[trigger] specs[i]).name@ by {
        assert(paths[j] == entries[j].path);
        assert(paths.contains(paths[j]));
        let i = choose|i: int| 0 <= i < all.len() && all[i] == paths[j];
        let s = specs[i];
    }
}

proof fn lemma_tool_paths(specs: Seq<ToolSpec>, valid: Seq<Seq<char>>)
    ensures
        tool_entries(specs, valid).map_values(|e: ProjectedView| e.path) == tool_paths(
            specs,
        ).filter(|p: Seq<char>| valid.contains(p)),
    decreases specs.len(),
{
    reveal(Seq::filter);
    let f = |s: ToolSpec| tool_entry(s, valid);
    let g = |e: ProjectedView| e.path;
    let p = |p: Seq<char>| valid.contains(p);
    let all = specs.map_values(f);
    let paths = tool_paths(specs);
    if specs.len() > 0 {
        let t = specs.drop_last();
        lemma_tool_paths(t, valid);
        assert(all.drop_last() =~= t.map_values(f));
        assert(paths.drop_last() =~= tool_paths(t));
        lemma_path("tool"@, specs.last().name@);
        reveal_strlit("tool");
        reveal_strlit("tool.");
        reveal_strlit(".");
        assert("tool"@ + "."@ =~= "tool."@);
        assert(paths.last() == path_of("tool"@, specs.last().name@));
        assert(tool_entries(specs, valid).map_values(g) =~= paths.filter(p));
    } else {
        assert(tool_entries(specs, valid).map_values(g) =~= paths.filter(p));
    }
}

/// Tools are projected one by one and in order, and the entry of each tells its description, or
/// its name without one, has the words of its name and of the hint when to use it as keywords, and
/// has the effects of its policy.
pub proof fn law_tools_are_projected_one_by_one(
    a: Seq<ToolSpec>,
    b: Seq<ToolSpec>,
    s: ToolSpec,
    valid: Seq<Seq<char>>,
)
    ensures
        tool_entries(a + b, valid) == tool_entries(a, valid) + tool_entries(b, valid),
        !valid.contains("tool."@ + s.name@) ==> tool_entries(seq![s], valid).len() == 0,
        valid.contains("tool."@ + s.name@) ==> {
            let entries = tool_entries(seq![s], valid);
            &&& entries.len() == 1
            &&& entries[0].path == "tool."@ + s.name@
            &&& s.description@.len() > 0 ==> entries[0].summary == s.description@
            &&& s.description@.len() == 0 ==> entries[0].summary == s.name@
            &&& s.when is None ==> entries[0].keywords == tokens_of(s.name@)
            &&& s.when is Some ==> entries[0].keywords == tokens_of(s.name@) + tokens_of(
                s.when->0@,
            )
            &&& entries[0].effects == Some(effects_of(s.policy))
        },
{
    let f = |s: ToolSpec| tool_entry(s, valid);
    assert((a + b).map_values(f) =~= a.map_values(f) + b.map_values(f));
    lemma_present_of_two(a.map_values(f), b.map_values(f));
    reveal_strlit("tool");
    reveal_strlit("tool.");
    reveal_strlit(".");
    assert("tool"@ + "."@ =~= "tool."@);
    let one = seq![s].map_values(f);
    assert(one.drop_last() =~= Seq::empty());
    assert(present(one.drop_last()) =~= Seq::empty());
    assert(one.last() == tool_entry(s, valid));
}

/// A policy has just the effects that it declares: reading or writing of files as it says, the
/// network if it is external or needs the cloud, spending if it needs the cloud, and never version
/// control.
pub proof fn law_effects_are_those_declared(p: ToolPolicy)
    ensures
        effects_of(p).filesystem is Read <==> p.side_effects is ReadOnly,
        effects_of(p).filesystem is Write <==> p.side_effects is Mutating
            || p.side_effects is Destructive,
        effects_of(p).filesystem is Nothing <==> p.side_effects is External,
        effects_of(p).network <==> p.side_effects is External || p.required_aws_capability is Some,
        effects_of(p).spend <==> p.required_aws_capability is Some,
        !effects_of(p).vcs,
{
}

/// Marked runs are found between what is not marked: what stands on both sides of an unmarked
/// character is searched on its own, and a text that is marked throughout is one run.
pub proof fn law_runs_stand_between_what_is_not_marked(
    a: Seq<char>,
    ma: Seq<bool>,
    c: char,
    b: Seq<char>,
    mb: Seq<bool>,
)
    requires
        a.len() == ma.len(),
        b.len() == mb.len(),
    ensures
        words_by(a.push(c) + b, ma.push(false) + mb) == words_by(a, ma) + words_by(b, mb),
        a.len() > 0 && (forall|i: int| 0 <= i < ma.len() ==> #[trigger] ma[i]) ==> words_by(a, ma)
            == seq![a],
        a.len() == 0 ==> words_by(a, ma).len() == 0,
{
    lemma_runs_of_two(a, ma, c, b, mb);
    assert(words_by(a.push(c) + b, ma.push(false) + mb) =~= words_by(a, ma) + words_by(b, mb));
    lemma_one_run(a, ma);
}

proof fn lemma_runs_of_two(a: Seq<char>, ma: Seq<bool>, c: char, b: Seq<char>, mb: Seq<bool>)
    requires
        a.len() == ma.len(),
        b.len() == mb.len(),
    ensures
        runs(a.push(c) + b, ma.push(false) + mb).0 == words_by(a, ma) + runs(b, mb).0,
        runs(a.push(c) + b, ma.push(false) + mb).1 == runs(b, mb).1,
    decreases b.len(),
{
    let s = a.push(c) + b;
    let m = ma.push(false) + mb;
    if b.len() == 0 {
        assert(s.drop_last() =~= a);
        assert(m.drop_last() =~= ma);
        assert(!m.last());
        assert(runs(s, m).0 =~= words_by(a, ma) + runs(b, mb).0);
        assert(runs(s, m).1 =~= runs(b, mb).1);
    } else {
        assert(s.drop_last() =~= a.push(c) + b.drop_last());
        assert(m.drop_last() =~= ma.push(false) + mb.drop_last());
        lemma_runs_of_two(a, ma, c, b.drop_last(), mb.drop_last());
        assert(m.last() == mb.last());
        assert(s.last() == b.last());
        assert(runs(s, m).0 =~= words_by(a, ma) + runs(b, mb).0);
    }
}

proof fn lemma_one_run(a: Seq<char>, ma: Seq<bool>)
    requires
        a.len() == ma.len(),
    ensures
        (forall|i: int| 0 <= i < ma.len() ==> #[trigger] ma[i]) ==> runs(a, ma).0.len() == 0
            && runs(a, ma).1 == a,
    decreases a.len(),
{
    if forall|i: int| 0 <= i < ma.len() ==> #[trigger] ma[i] {
        if a.len() > 0 {
            let t = ma.drop_last();
            assert forall|i: int| 0 <= i < t.len() implies #[trigger] t[i] by {
                assert(t[i] == ma[i]);
            }
            lemma_one_run(a.drop_last(), t);
            assert(ma[ma.len() - 1]);
            assert(runs(a, ma).1 =~= a);
        } else {
            assert(runs(a, ma).1 =~= a);
        }
    }
}

/// The words of a text are its runs of letters and numbers, in lower case: what is neither only
/// separates them.
pub proof fn law_words_are_runs_of_letters_and_numbers(a: Seq<char>, c: char, b: Seq<char>)
    ensures
        !alphanumeric(c) ==> tokens_of(a.push(c) + b) == tokens_of(a) + tokens_of(b),
        a.len() > 0 && (forall|i: int| 0 <= i < a.len() ==> alphanumeric(#[trigger] a[i]))
            ==> tokens_of(a) == seq![lowercase(a)],
        a.len() == 0 ==> tokens_of(a).len() == 0,
{
    let f = |c: char| alphanumeric(c);
    let g = |w: Seq<char>| lowercase(w);
    law_runs_stand_between_what_is_not_marked(a, a.map_values(f), c, b, b.map_values(f));
    if !alphanumeric(c) {
        assert((a.push(c) + b).map_values(f) =~= a.map_values(f).push(false) + b.map_values(f));
        assert(tokens_of(a.push(c) + b) =~= tokens_of(a) + tokens_of(b));
    }
    if a.len() > 0 && forall|i: int| 0 <= i < a.len() ==> alphanumeric(#[trigger] a[i]) {
        assert forall|i: int| 0 <= i < a.map_values(f).len() implies #[trigger] a.map_values(f)[i] by {
            assert(alphanumeric(a[i]));
        }
        assert(tokens_of(a) =~= seq![lowercase(a)]);
    }
}

/// A ranked entry is shown as it is, and as permitted exactly if nothing speaks against it.
pub proof fn law_entries_are_shown_with_what_speaks_against_them(
    v: CapabilityView,
    r: RankedCapability,
)
    requires
        shows(v, r),
    ensures
        r.disallowed_reason is None ==> v.allowed_by_session && v.disallowed_reason is None,
        r.disallowed_reason is Some ==> !v.allowed_by_session && v.disallowed_reason is Some
            && v.disallowed_reason->0@ == r.disallowed_reason->0@,
        v.path@ == r.path@ && v.summary@ == r.summary@,
        v.keywords@.len() == r.keywords@.len(),
        forall|i: int|
            0 <= i < v.keywords@.len() ==> (#[trigger] v.keywords@[i])@ == r.keywords@[i]@,
        v.score == r.score && v.effects == r.effects,
        v.source is Some <==> r.source is Some,
        v.source is Some ==> v.source->0@ == r.source->0@,
{
    assert(v.keywords.deep_view().len() == v.keywords@.len());
    assert(r.keywords.deep_view().len() == r.keywords@.len());
    assert forall|i: int| 0 <= i < v.keywords@.len() implies (#[trigger] v.keywords@[i])@
        == r.keywords@[i]@ by {
        assert(v.keywords.deep_view()[i] == v.keywords@[i]@);
        assert(r.keywords.deep_view()[i] == r.keywords@[i]@);
    }
}

/// A manifest has the tools that it is made of as tools and the skills as skills.
pub proof fn law_manifests_keep_tools_and_skills_apart(
    tools: &Vec<&ToolSpec>,
    skills: &Vec<LoadedSkill>,
    valid: &Vec<String>,
    r: Manifest,
    i: int,
)
    requires
        call_ensures(build_manifest, (tools, skills, valid), r),
    ensures
        r.tools.name@ == "mu-tools"@,
        r.skills.name@ == "mu-skills"@,
        0 <= i < tools@.len() && valid.deep_view().contains("tool."@ + tools@[i].name@)
            ==> exists|j: int|
            0 <= j < r.tools.caps@.len() && (#[trigger] r.tools.caps@[j]).path@ == "tool."@
                + tools@[i].name@,
        0 <= i < skills@.len() && valid.deep_view().contains(
            "skill."@ + skills@[i].frontmatter.name@,
        ) ==> exists|j: int|
            0 <= j < r.skills.caps@.len() && (#[trigger] r.skills.caps@[j]).path@ == "skill."@
                + skills@[i].frontmatter.name@,
{
    let specs = tools@.unref();
    let v = valid.deep_view();
    law_tool_entries_have_the_paths_of_tools(specs, v);
    law_skill_entries_have_the_paths_of_skills(skills@, v);
    assert(r.tools.caps.deep_view() == tool_entries(specs, v));
    assert(r.skills.caps.deep_view() == skill_entries(skills@, v));
    if 0 <= i < tools@.len() && v.contains("tool."@ + tools@[i].name@) {
        assert(specs[i] == *tools@[i]);
        let j = choose|j: int|
            0 <= j < tool_entries(specs, v).len() && (#[trigger] tool_entries(specs, v)[j]).path
                == "tool."@ + specs[i].name@;
        assert(r.tools.caps.deep_view()[j] == r.tools.caps@[j].deep_view());
        assert(r.tools.caps@[j].path@ == "tool."@ + tools@[i].name@);
    }
    if 0 <= i < skills@.len() && v.contains("skill."@ + skills@[i].frontmatter.name@) {
        let j = choose|j: int|
            0 <= j < skill_entries(skills@, v).len() && (
            #[trigger] skill_entries(skills@, v)[j]).path == "skill."@
                + skills@[i].frontmatter.name@;
        assert(r.skills.caps.deep_view()[j] == r.skills.caps@[j].deep_view());
        assert(r.skills.caps@[j].path@ == "skill."@ + skills@[i].frontmatter.name@);
    }
}

/// The manifest of a session has just the tools that its capability permits.
pub proof fn law_manifests_hold_permitted_tools(
    registry: &ToolRegistry<ToolSpec>,
    cap: &Capability,
    skills: &Vec<LoadedSkill>,
    valid: &Vec<String>,
    r: Manifest,
    i: int,
)
    requires
        call_ensures(build_manifest_for, (registry, cap, skills, valid), r),
        registry@.dom().finite(),
        0 <= i < r.tools.caps@.len(),
    ensures
        exists|n: Seq<char>| #[trigger]
            registry@.contains_key(n) && cap.permits(n) && r.tools.caps@[i].path@ == "tool."@
                + registry@[n].name@,
        r.skills.caps.deep_view() == skill_entries(skills@, valid.deep_view()),
        r.tools.name@ == "mu-tools"@ && r.skills.name@ == "mu-skills"@,
{
    let all = tool_entries(
        tool_registry::permitted_tools(registry@, cap),
        valid.deep_view(),
    );
    assert(r.tools.caps.deep_view() == all);
    assert(r.tools.caps.deep_view()[i] == r.tools.caps@[i].deep_view());
    law_discovery_tracks_permission(registry@, cap, valid.deep_view(), i);
    let n = choose|n: Seq<char>| #[trigger]
        registry@.contains_key(n) && cap.permits(n) && all[i].path == path_of(
            "tool"@,
            registry@[n].name@,
        );
    reveal_strlit("tool");
    reveal_strlit("tool.");
    reveal_strlit(".");
    assert("tool"@ + "."@ =~= "tool."@);
    assert(registry@.contains_key(n));
}

/// As many entries are shown as were asked for, or all if there are fewer, in the order of their
/// rank.
pub proof fn law_ranked_entries_are_shown_in_order(
    ranked: &Vec<RankedCapability>,
    limit: usize,
    r: Vec<CapabilityView>,
    i: int,
)
    requires
        call_ensures(discover_view_constrained, (ranked, limit), r),
    ensures
        ranked@.len() <= limit ==> r@.len() == ranked@.len(),
        ranked@.len() > limit ==> r@.len() == limit,
        0 <= i < r@.len() ==> r@[i].path@ == ranked@[i].path@ && r@[i].summary@
            == ranked@[i].summary@ && r@[i].score == ranked@[i].score && (r@[i].allowed_by_session
            <==> ranked@[i].disallowed_reason is None),
{
    if 0 <= i < r@.len() {
        assert(shows(r@[i], ranked@[i]));
    }
}

} // verus!
