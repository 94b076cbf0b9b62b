//! Skills on disk: a directory with a `SKILL.md` and, beside it, reference files.
//!
//! Files are read and YAML is parsed by the caller. Paths are held as text.
use vstd::prelude::*;

use crate::context::rope::{RetentionClass, Span, SpanKind, SpanKindView, SpanView};
use crate::paths;
use crate::seqs;
use crate::skill::{Skill, SkillView};
use crate::string_map;
use crate::string_map::StringMap;
use crate::text;

verus! {

/// What stands before the body of a `SKILL.md`.
#[derive(Debug, Clone, PartialEq)]
pub struct SkillFrontmatter {
    pub name: String,
    pub description: String,
    pub when_to_use: Option<String>,
    pub status: Option<String>,
    /// Whether the skill is invoked by name only and not offered to the model.
    pub disable_model_invocation: bool,
    pub paths: Vec<String>,
    pub runtime: Vec<String>,
}

/// A skill that was loaded.
#[derive(Debug, Clone, PartialEq)]
pub struct LoadedSkill {
    pub frontmatter: SkillFrontmatter,
    pub skill: Skill,
    pub source_dir: String,
}

/// Why a skill could not be loaded.
#[derive(Debug, Clone, PartialEq, Eq)]
pub enum LoadError {
    NoSkillFile(String),
    NoFrontmatter(String),
    Yaml { path: String, source: String },
    Io { path: String, source: String },
}

impl LoadError {
    /// The error in words.
    pub open spec fn words(&self) -> Seq<char> {
        match *self {
            LoadError::NoSkillFile(dir) => "SKILL.md not found in "@ + dir@,
            LoadError::NoFrontmatter(path) => {
                "no YAML frontmatter (missing --- delimiters) in "@ + path@
            },
            LoadError::Yaml { path, source } => {
                "YAML parse error in "@ + path@ + ": "@ + source@
            },
            LoadError::Io { path, source } => "I/O error reading "@ + path@ + ": "@ + source@,
        }
    }

    /// The error in words.
    pub fn message(&self) -> (r: String)
        ensures
            r@ == self.words(),
    {
        match self {
            LoadError::NoSkillFile(dir) => "SKILL.md not found in ".to_owned().concat(dir),
            LoadError::NoFrontmatter(path) => {
                "no YAML frontmatter (missing --- delimiters) in ".to_owned().concat(path)
            },
            LoadError::Yaml { path, source } => {
                "YAML parse error in ".to_owned().concat(path).concat(": ").concat(source)
            },
            LoadError::Io { path, source } => {
                "I/O error reading ".to_owned().concat(path).concat(": ").concat(source)
            },
        }
    }
}

/// The frontmatter and the body of a `SKILL.md`: what stands between the opening delimiter and the
/// first one that closes it at the beginning of a line, and what follows, without leading line
/// breaks. None if a delimiter is missing.
pub open spec fn split_view(content: Seq<char>) -> Option<(Seq<char>, Seq<char>)> {
    let t = text::trim_start_view(content);
    if text::has_prefix(t, "---"@) {
        let rest = t.skip("---"@.len() as int);
        match text::occurrence_from(rest, "\n---"@, 0) {
            Some(k) => Some(
                (
                    rest.take(k),
                    text::without_leading_breaks(rest.skip(k + "\n---"@.len())),
                ),
            ),
            None => None,
        }
    } else {
        None
    }
}

/// The body of a `SKILL.md`.
pub open spec fn body_of(content: Seq<char>) -> Seq<char> {
    match split_view(content) {
        Some(parts) => parts.1,
        None => Seq::empty(),
    }
}

/// Splits a `SKILL.md` into frontmatter and body.
pub fn split_skill_md<'a>(content: &'a str) -> (r: Option<(&'a str, &'a str)>)
    ensures
        match r {
            Some(p) => split_view(content@) == Some((p.0@, p.1@)),
            None => split_view(content@) is None,
        },
{
    let trimmed = text::trim_start(content);
    let rest = match text::strip_prefix(trimmed, "---") {
        Some(rest) => rest,
        None => {
            return None;
        },
    };
    let k: usize = match text::find(rest, "\n---") {
        Some(k) => k,
        None => {
            return None;
        },
    };
    proof {
        reveal_strlit("\n---");
    }
    let n: usize = rest.unicode_len();
    let yaml = rest.substring_char(0, k);
    let after = rest.substring_char(k + 4, n);
    proof {
        assert(yaml@ =~= rest@.take(k as int));
        assert(after@ =~= rest@.skip(k + 4));
    }
    Some((yaml, text::strip_leading_breaks(after)))
}

/// What a `SKILL.md` is parsed to, given what its frontmatter was read as.
pub open spec fn is_parsed(
    r: Result<(SkillFrontmatter, String), LoadError>,
    content: Seq<char>,
    path: Seq<char>,
    frontmatter: Result<SkillFrontmatter, String>,
) -> bool {
    match split_view(content) {
        None => r is Err && r->Err_0 is NoFrontmatter && r->Err_0->NoFrontmatter_0@ == path,
        Some(parts) => match frontmatter {
            Ok(fm) => r is Ok && r->Ok_0.0 == fm && r->Ok_0.1@ == parts.1,
            Err(e) => r is Err && r->Err_0 is Yaml && r->Err_0->Yaml_path@ == path
                && r->Err_0->Yaml_source@ == e@,
        },
    }
}

/// Parses a `SKILL.md`. `frontmatter` is what the first part of [`split_skill_md`] was read as, or
/// the message why it could not be read.
pub fn parse_skill_md(
    content: &str,
    path: &str,
    frontmatter: Result<SkillFrontmatter, String>,
) -> (r: Result<(SkillFrontmatter, String), LoadError>)
    ensures
        is_parsed(r, content@, path@, frontmatter),
{
    match split_skill_md(content) {
        None => Err(LoadError::NoFrontmatter(path.to_owned())),
        Some((_, body)) => match frontmatter {
            Ok(fm) => Ok((fm, body.to_owned())),
            Err(e) => Err(LoadError::Yaml { path: path.to_owned(), source: e }),
        },
    }
}

/// The error of a `SKILL.md` that could not be read.
pub fn read_error(dir: &str, not_found: bool, source: &str) -> (r: LoadError)
    ensures
        not_found ==> r is NoSkillFile && r->NoSkillFile_0@ == dir@,
        !not_found ==> r is Io && r->Io_path@ == paths::joined(dir@, "SKILL.md"@) && r->Io_source@
            == source@,
{
    if not_found {
        LoadError::NoSkillFile(dir.to_owned())
    } else {
        LoadError::Io { path: paths::join(dir, "SKILL.md"), source: source.to_owned() }
    }
}

/// Whether a file among the references is loaded: one with the extension `md`.
pub open spec fn is_reference(name: Seq<char>) -> bool {
    text::has_suffix(name, ".md"@) && name.len() > ".md"@.len()
}

/// Whether a file among the references is loaded.
pub fn is_reference_file(name: &str) -> (r: bool)
    ensures
        r == is_reference(name@),
{
    match text::strip_suffix(name, ".md") {
        Some(stem) => stem.unicode_len() > 0,
        None => false,
    }
}

/// The reference files among `names`, in order.
pub fn reference_files(names: &Vec<String>) -> (r: Vec<String>)
    ensures
        r.deep_view() == string_map::sorted_keys(
            names.deep_view().to_set().filter(|n: Seq<char>| is_reference(n)),
        ),
        string_map::increasing(r.deep_view()),
        r.deep_view().to_set() == names.deep_view().to_set().filter(
            |n: Seq<char>| is_reference(n),
        ),
{
    string_map::sorted_where(names, is_reference_file, Ghost(|n: Seq<char>| is_reference(n)))
}

/// A span of a skill.
pub open spec fn skill_span(id: Seq<char>, file: Seq<char>, content: Seq<char>) -> SpanView {
    SpanView {
        id: "skill:"@ + id + ":"@ + file,
        kind: SpanKindView::SkillActivation,
        content,
        retention: RetentionClass::Pinned,
        cacheable: RetentionClass::Pinned.stable(),
    }
}

/// The spans of a skill: its body, unless that is empty, and its references.
pub open spec fn skill_spans(
    id: Seq<char>,
    body: Seq<char>,
    references: Seq<(Seq<char>, Seq<char>)>,
) -> Seq<SpanView> {
    (if body.len() > 0 {
        seq![skill_span(id, "SKILL.md"@, body)]
    } else {
        Seq::empty()
    }) + references.map_values(
        |f: (Seq<char>, Seq<char>)| skill_span(id, "references/"@ + f.0, f.1),
    )
}

fn make_span(id: &str, file: &str, content: String) -> (r: Span)
    ensures
        r.deep_view() == skill_span(id@, file@, content@),
{
    let span_id = "skill:".to_owned().concat(id).concat(":").concat(file);
    Span::new(span_id, SpanKind::SkillActivation, content, RetentionClass::Pinned)
}

/// The skill of a directory, from its frontmatter, its body, and the names and contents of its
/// reference files in order.
pub fn assemble_skill(
    dir: &str,
    frontmatter: SkillFrontmatter,
    body: String,
    references: &Vec<(String, String)>,
) -> (r: LoadedSkill)
    ensures
        r.frontmatter == frontmatter,
        r.source_dir@ == dir@,
        r.skill.deep_view() == (SkillView {
            id: frontmatter.name@,
            spans: skill_spans(frontmatter.name@, body@, references.deep_view()),
        }),
{
    let id = frontmatter.name.clone();
    let ghost refs = references.deep_view();
    let ghost spans_of = refs.map_values(
        |f: (Seq<char>, Seq<char>)| skill_span(id@, "references/"@ + f.0, f.1),
    );
    let ghost head = if body@.len() > 0 {
        seq![skill_span(id@, "SKILL.md"@, body@)]
    } else {
        Seq::empty()
    };
    let mut spans: Vec<Span> = Vec::new();
    if body.as_str().unicode_len() > 0 {
        spans.push(make_span(&id, "SKILL.md", body));
    }
    proof {
        assert(spans.deep_view() =~= head);
        assert(head + spans_of.take(0) =~= head);
    }
    let mut i: usize = 0;
    while i < references.len()
        invariant
            i <= references@.len(),
            refs == references.deep_view(),
            spans_of == refs.map_values(
                |f: (Seq<char>, Seq<char>)| skill_span(id@, "references/"@ + f.0, f.1),
            ),
            spans.deep_view() == head + spans_of.take(i as int),
        decreases references@.len() - i,
    {
        let ghost before = spans.deep_view();
        let file = "references/".to_owned().concat(&references[i].0);
        spans.push(make_span(&id, &file, references[i].1.clone()));
        proof {
            assert(refs[i as int] == (references@[i as int].0@, references@[i as int].1@));
            assert(spans.deep_view() =~= before.push(spans_of[i as int]));
            assert(head + spans_of.take(i + 1) =~= before.push(spans_of[i as int]));
        }
        i += 1;
    }
    proof {
        assert(spans_of.take(spans_of.len() as int) =~= spans_of);
    }
    LoadedSkill { skill: Skill::new(id, spans), frontmatter, source_dir: dir.to_owned() }
}

/// The skill of a directory whose `SKILL.md` holds `content`. `frontmatter` is what its first part
/// was read as; `references` are the names and contents of its reference files in order.
pub fn load_skill_dir(
    dir: &str,
    content: &str,
    frontmatter: Result<SkillFrontmatter, String>,
    references: &Vec<(String, String)>,
) -> (r: Result<LoadedSkill, LoadError>)
    ensures
        match r {
            Ok(s) => split_view(content@) is Some && frontmatter is Ok && s.frontmatter
                == frontmatter->Ok_0 && s.source_dir@ == dir@ && s.skill.deep_view() == (SkillView {
                id: frontmatter->Ok_0.name@,
                spans: skill_spans(
                    frontmatter->Ok_0.name@,
                    body_of(content@),
                    references.deep_view(),
                ),
            }),
            Err(e) => is_parsed(
                Err::<(SkillFrontmatter, String), LoadError>(e),
                content@,
                paths::joined(dir@, "SKILL.md"@),
                frontmatter,
            ),
        },
{
    let path = paths::join(dir, "SKILL.md");
    match parse_skill_md(content, &path, frontmatter) {
        Ok((fm, body)) => Ok(assemble_skill(dir, fm, body, references)),
        Err(e) => Err(e),
    }
}

/// The directory of skills in `base`, if that is known.
pub open spec fn skills_in(base: Option<Seq<char>>, name: Seq<char>) -> Seq<Seq<char>> {
    match base {
        Some(b) => seq![paths::joined(b, name)],
        None => Seq::empty(),
    }
}

/// A path that may be absent.
pub open spec fn path_view(p: Option<&str>) -> Option<Seq<char>> {
    match p {
        Some(p) => Some(p@),
        None => None,
    }
}

fn push_dir(dirs: &mut Vec<String>, base: Option<&str>, name: &str)
    ensures
        final(dirs).deep_view() == old(dirs).deep_view() + skills_in(path_view(base), name@),
{
    let ghost before = dirs.deep_view();
    if let Some(b) = base {
        dirs.push(paths::join(b, name));
    }
    proof {
        assert(dirs.deep_view() =~= before + skills_in(path_view(base), name@));
    }
}

/// The directory of the skills of another tool, below the home directory.
pub open spec fn tool_skills(tool: Seq<char>) -> Seq<char> {
    "."@ + tool + "-personal/skills"@
}

/// The directory of the skills of `tool`, another program, for the user whose home directory is
/// `home`.
pub fn tool_skills_dir(home: &str, tool: &str) -> (r: String)
    ensures
        r@ == paths::joined(home@, tool_skills(tool@)),
{
    paths::join(home, &".".to_owned().concat(tool).concat("-personal/skills"))
}

/// The directories in which skills are looked for, in order: that of the project, that of the
/// user's configuration, and that of `tool` in the user's home directory, all as far as they are
/// known.
pub fn default_search_dirs(
    project_root: Option<&str>,
    config_dir: Option<&str>,
    home_dir: Option<&str>,
    tool: &str,
) -> (r: Vec<String>)
    ensures
        r.deep_view() == skills_in(path_view(project_root), ".mu/skills"@) + skills_in(
            path_view(config_dir),
            "mu/skills"@,
        ) + skills_in(path_view(home_dir), tool_skills(tool@)),
{
    let mut dirs: Vec<String> = Vec::new();
    push_dir(&mut dirs, project_root, ".mu/skills");
    push_dir(&mut dirs, config_dir, "mu/skills");
    let ghost before = dirs.deep_view();
    if let Some(home) = home_dir {
        dirs.push(tool_skills_dir(home, tool));
    }
    proof {
        assert(dirs.deep_view() =~= before + skills_in(path_view(home_dir), tool_skills(tool@)));
        assert(dirs.deep_view() =~= skills_in(path_view(project_root), ".mu/skills"@) + skills_in(
            path_view(config_dir),
            "mu/skills"@,
        ) + skills_in(path_view(home_dir), tool_skills(tool@)));
    }
    dirs
}

/// The first of `found` with a name.
pub open spec fn first_named(found: Seq<LoadedSkill>, name: Seq<char>) -> Option<LoadedSkill>
    decreases found.len(),
{
    if found.len() == 0 {
        None
    } else {
        match first_named(found.drop_last(), name) {
            Some(s) => Some(s),
            None => if found.last().frontmatter.name@ == name {
                Some(found.last())
            } else {
                None
            },
        }
    }
}

/// The names of skills.
pub open spec fn names_of(skills: Seq<LoadedSkill>) -> Seq<Seq<char>> {
    skills.map_values(|s: LoadedSkill| s.frontmatter.name@)
}

/// The skills of several directories, `found` being those of each directory in turn: of skills with
/// the same name the first is kept. They are ordered by name.
pub fn discover_skills(found: Vec<LoadedSkill>) -> (r: Vec<LoadedSkill>)
    ensures
        string_map::increasing(names_of(r@)),
        forall|i: int|
            0 <= i < r@.len() ==> first_named(found@, names_of(r@)[i]) == Some(#[trigger] r@[i]),
        forall|name: Seq<char>|
            names_of(r@).contains(name) <==> #[trigger] first_named(found@, name) is Some,
{
    let mut seen: StringMap<LoadedSkill> = StringMap::new();
    let ghost all = found@;
    proof {
        assert(all.take(0) =~= Seq::empty());
    }
    for loaded in it: found
        invariant
            it.seq() == all,
            forall|name: Seq<char>|
                seen@.contains_key(name) <==> #[trigger] first_named(
                    all.take(it.index() as int),
                    name,
                ) is Some,
            forall|name: Seq<char>| #[trigger]
                seen@.contains_key(name) ==> Some(seen@[name]) == first_named(
                    all.take(it.index() as int),
                    name,
                ),
    {
        let ghost k = it.index() as int;
        proof {
            seqs::lemma_take_step(all, k);
        }
        let name = loaded.frontmatter.name.clone();
        let ghost before = seen@;
        if !seen.contains_key(&name) {
            seen.insert(name, loaded);
        }
        proof {
            assert forall|n: Seq<char>| seen@.contains_key(n) <==> #[trigger] first_named(
                all.take(k + 1),
                n,
            ) is Some by {
                assert(before.contains_key(n) <==> first_named(all.take(k), n) is Some);
            }
            assert forall|n: Seq<char>| #[trigger] seen@.contains_key(n) implies Some(seen@[n])
                == first_named(all.take(k + 1), n) by {
                assert(before.contains_key(n) <==> first_named(all.take(k), n) is Some);
            }
        }
    }
    let ghost m = seen@;
    let ghost p = seen.pairs();
    let r = seen.into_values();
    proof {
        assert(all.take(all.len() as int) =~= all);
        string_map::lemma_pairs_keys(p);
        assert forall|i: int| 0 <= i < r@.len() implies names_of(r@)[i] == (#[trigger] p[i]).0
            && first_named(all, names_of(r@)[i]) == Some(r@[i]) by {
            string_map::lemma_pairs_map_at(p, i);
            assert(m.contains_key(p[i].0));
            assert(m[p[i].0] == p[i].1);
            lemma_first_has_name(all, p[i].0);
        }
        assert forall|name: Seq<char>|
            names_of(r@).contains(name) <==> #[trigger] first_named(all, name) is Some by {
            if names_of(r@).contains(name) {
                let i = choose|i: int| 0 <= i < names_of(r@).len() && names_of(r@)[i] == name;
                assert(names_of(r@)[i] == p[i].0);
            }
            if first_named(all, name) is Some {
                assert(m.contains_key(name));
                let i = choose|i: int| 0 <= i < p.len() && #[trigger] p[i].0 == name;
                assert(names_of(r@)[i] == name);
            }
        }
        assert forall|a: int, b: int|
            0 <= a < b < names_of(r@).len() implies text::str_lt(
            #[trigger] names_of(r@)[a],
            #[trigger] names_of(r@)[b],
        ) by {
            assert(names_of(r@)[a] == p[a].0 && names_of(r@)[b] == p[b].0);
        }
    }
    r
}

proof fn lemma_first_has_name(found: Seq<LoadedSkill>, name: Seq<char>)
    ensures
        first_named(found, name) matches Some(s) ==> s.frontmatter.name@ == name && found.contains(
            s,
        ),
    decreases found.len(),
{
    if found.len() > 0 {
        lemma_first_has_name(found.drop_last(), name);
        if first_named(found.drop_last(), name) is Some {
            let s = first_named(found.drop_last(), name)->0;
            let i = choose|i: int| 0 <= i < found.drop_last().len() && found.drop_last()[i] == s;
            assert(found[i] == s);
        } else {
            assert(found[found.len() - 1] == found.last());
        }
    }
}

/// Skills of a directory that comes first shadow those of the same name in later ones: what is
/// found later changes nothing for a name that was found before.
pub proof fn law_first_directory_wins(
    a: Seq<LoadedSkill>,
    b: Seq<LoadedSkill>,
    name: Seq<char>,
)
    requires
        first_named(a, name) is Some,
    ensures
        first_named(a + b, name) == first_named(a, name),
    decreases b.len(),
{
    if b.len() == 0 {
        assert(a + b =~= a);
    } else {
        assert((a + b).drop_last() =~= a + b.drop_last());
        law_first_directory_wins(a, b.drop_last(), name);
    }
}

/// Every span of a skill is pinned, comes with its activation, and carries its name.
pub proof fn law_skill_spans_are_pinned(
    id: Seq<char>,
    body: Seq<char>,
    references: Seq<(Seq<char>, Seq<char>)>,
    i: int,
)
    requires
        0 <= i < skill_spans(id, body, references).len(),
    ensures
        skill_spans(id, body, references)[i].retention is Pinned,
        skill_spans(id, body, references)[i].kind is SkillActivation,
        text::has_prefix(skill_spans(id, body, references)[i].id, "skill:"@ + id + ":"@),
{
    let s = skill_spans(id, body, references)[i];
    let p = "skill:"@ + id + ":"@;
    assert(exists|file: Seq<char>| s.id == p + file) by {
        if body.len() > 0 && i == 0 {
            assert(s.id == p + "SKILL.md"@);
        } else {
            let k = if body.len() > 0 {
                i - 1
            } else {
                i
            };
            assert(s.id == p + ("references/"@ + references[k].0));
        }
    }
    let file = choose|file: Seq<char>| s.id == p + file;
    assert(s.id.take(p.len() as int) =~= p);
}

/// A skill file is its opening delimiter, the frontmatter, the closing delimiter at the beginning of
/// a line, line breaks, and the body: the parts make up the file, the closing delimiter is the
/// first, and the body does not begin with a line break.
pub proof fn law_parts_make_up_the_file(content: Seq<char>)
    ensures
        ({
            let t = text::trim_start_view(content);
            match split_view(content) {
                Some((yaml, body)) => {
                    let tail = "\n---"@;
                    let k = 3 + yaml.len() + 4;
                    &&& t.len() >= k + body.len()
                    &&& t.take(3) == "---"@
                    &&& t.subrange(3, 3 + yaml.len() as int) == yaml
                    &&& t.subrange(3 + yaml.len() as int, k as int) == tail
                    &&& t.skip(t.len() - body.len()) == body
                    &&& forall|i: int| k <= i < t.len() - body.len() ==> #[trigger] t[i] == '\n'
                    &&& body.len() > 0 ==> body[0] != '\n'
                    &&& forall|j: int|
                        3 <= j < 3 + yaml.len() ==> #[trigger] t.subrange(j, j + 4) != tail
                },
                None => !text::has_prefix(t, "---"@) || forall|j: int|
                    3 <= j <= t.len() - 4 ==> #[trigger] t.subrange(j, j + 4) != "\n---"@,
            }
        }),
{
    reveal_strlit("---");
    reveal_strlit("\n---");
    let t = text::trim_start_view(content);
    if text::has_prefix(t, "---"@) {
        let rest = t.skip(3);
        let tail = "\n---"@;
        text::law_the_first_place_is_found(rest, tail, 0);
        assert forall|j: int| 3 <= j && j + 4 <= t.len() implies #[trigger] t.subrange(j, j + 4)
            =~= rest.subrange(j - 3, j + 1) by {}
        match text::occurrence_from(rest, tail, 0) {
            Some(k) => {
                let (yaml, body) = split_view(content)->0;
                let p = |c: char| c == '\n';
                let after = rest.skip(k + 4);
                text::law_stripping_takes_one_end(after, p);
                assert(t.subrange(3, 3 + yaml.len() as int) =~= yaml);
                assert(t.subrange(3 + k, 3 + k + 4) == tail);
                assert(t.skip(t.len() - body.len()) =~= body);
                assert forall|i: int| 3 + k + 4 <= i < t.len() - body.len() implies #[trigger] t[i]
                    == '\n' by {
                    assert(p(after[i - (3 + k + 4)]));
                    assert(after[i - (3 + k + 4)] == t[i]);
                }
                assert forall|j: int| 3 <= j < 3 + yaml.len() implies #[trigger] t.subrange(
                    j,
                    j + 4,
                ) != tail by {
                    let i = j - 3;
                    assert(rest.subrange(i, i + 4) != tail);
                    assert(t.subrange(j, j + 4) =~= rest.subrange(i, i + 4));
                }
            },
            None => {
                assert forall|j: int| 3 <= j <= t.len() - 4 implies #[trigger] t.subrange(j, j + 4)
                    != tail by {
                    let i = j - 3;
                    assert(rest.subrange(i, i + 4) != tail);
                    assert(t.subrange(j, j + 4) =~= rest.subrange(i, i + 4));
                }
            },
        }
    }
}

/// A skill is read exactly if its file has both delimiters and its frontmatter could be read; it
/// then has that frontmatter, and the body of the file. The error names the file otherwise.
pub proof fn law_skills_are_read_or_refused(
    r: Result<(SkillFrontmatter, String), LoadError>,
    content: Seq<char>,
    path: Seq<char>,
    frontmatter: Result<SkillFrontmatter, String>,
)
    requires
        is_parsed(r, content, path, frontmatter),
    ensures
        r is Ok <==> split_view(content) is Some && frontmatter is Ok,
        r is Ok ==> r->Ok_0.0 == frontmatter->Ok_0 && r->Ok_0.1@ == body_of(content),
        split_view(content) matches Some(parts) ==> body_of(content) == parts.1,
        split_view(content) is None ==> r is Err && r->Err_0 is NoFrontmatter
            && r->Err_0->NoFrontmatter_0@ == path,
        split_view(content) is Some && frontmatter is Err ==> r is Err && r->Err_0 is Yaml
            && r->Err_0->Yaml_path@ == path && r->Err_0->Yaml_source@ == frontmatter->Err_0@,
{
}

/// The references are the files with something before the extension `md`.
pub proof fn law_references_are_markdown(stem: Seq<char>, name: Seq<char>)
    ensures
        stem.len() > 0 ==> is_reference(stem + ".md"@),
        !is_reference(".md"@),
        is_reference(name) ==> name.len() > 3 && name.skip(name.len() - 3) == ".md"@,
{
    reveal_strlit(".md");
    let s = stem + ".md"@;
    assert(s.skip(s.len() - 3) =~= ".md"@);
}

/// A skill brings its body first, unless that is empty, and then its references in order, each
/// under a name of its own with its own content.
pub proof fn law_skills_bring_body_and_references(
    id: Seq<char>,
    body: Seq<char>,
    references: Seq<(Seq<char>, Seq<char>)>,
    k: int,
)
    requires
        0 <= k < references.len(),
    ensures
        ({
            let spans = skill_spans(id, body, references);
            let first: int = if body.len() > 0 {
                1
            } else {
                0
            };
            &&& spans.len() == references.len() + first
            &&& body.len() > 0 ==> spans[0].id == "skill:"@ + id + ":"@ + "SKILL.md"@
                && spans[0].content == body
            &&& spans[first + k].id == "skill:"@ + id + ":"@ + ("references/"@ + references[k].0)
            &&& spans[first + k].content == references[k].1
            &&& spans[first + k].retention is Pinned
            &&& spans[first + k].cacheable
        }),
{
}

/// The first skill of a name is the one before which none has that name.
pub proof fn law_the_first_of_a_name_is_kept(found: Seq<LoadedSkill>, name: Seq<char>, i: int)
    requires
        -1 <= i < found.len(),
        i >= 0 ==> found[i].frontmatter.name@ == name,
        forall|j: int|
            0 <= j < (if i >= 0 {
                i
            } else {
                found.len() as int
            }) ==> (#[trigger] found[j]).frontmatter.name@ != name,
    ensures
        i >= 0 ==> first_named(found, name) == Some(found[i]),
        i == -1 ==> first_named(found, name) is None,
    decreases found.len(),
{
    if found.len() > 0 {
        let t = found.drop_last();
        let n = found.len() - 1;
        assert forall|j: int| 0 <= j < t.len() implies #[trigger] t[j] == found[j] by {}
        assert(found[n] == found.last());
        if 0 <= i < n {
            law_the_first_of_a_name_is_kept(t, name, i);
        } else {
            law_the_first_of_a_name_is_kept(t, name, -1);
        }
    }
}

/// The skills of a directory are looked for below it, and nowhere without one; those of another
/// tool are in a hidden directory of that tool.
pub proof fn law_skills_are_looked_for_below(base: Seq<char>, name: Seq<char>, tool: Seq<char>)
    ensures
        skills_in(Some(base), name) == seq![paths::joined(base, name)],
        skills_in(None, name).len() == 0,
        text::has_prefix(tool_skills(tool), seq!['.'] + tool),
        text::has_suffix(tool_skills(tool), "-personal/skills"@),
        tool_skills(tool).len() == 1 + tool.len() + "-personal/skills"@.len(),
{
    reveal_strlit(".");
    let s = tool_skills(tool);
    assert(s.take(1 + tool.len() as int) =~= seq!['.'] + tool);
    assert(s.skip(s.len() - "-personal/skills"@.len()) =~= "-personal/skills"@);
}

/// A skill file that is not there is named by its directory, and one that cannot be read by its
/// path with what went wrong.
pub proof fn law_unread_skill_files_are_named(
    dir: &str,
    not_found: bool,
    source: &str,
    r: LoadError,
)
    requires
        call_ensures(read_error, (dir, not_found, source), r),
    ensures
        r is NoSkillFile <==> not_found,
        r is NoSkillFile ==> r->NoSkillFile_0@ == dir@,
        !not_found ==> r is Io && r->Io_path@ == paths::joined(dir@, "SKILL.md"@) && r->Io_source@
            == source@,
{
}

/// A loaded skill has the frontmatter that was read, stands in its directory, is named as its
/// frontmatter says, and brings the body of its file and its references.
pub proof fn law_loaded_skills_are_named_by_their_frontmatter(
    dir: &str,
    content: &str,
    frontmatter: Result<SkillFrontmatter, String>,
    references: &Vec<(String, String)>,
    r: Result<LoadedSkill, LoadError>,
)
    requires
        call_ensures(load_skill_dir, (dir, content, frontmatter, references), r),
    ensures
        r is Ok <==> split_view(content@) is Some && frontmatter is Ok,
        r matches Ok(s) ==> s.frontmatter == frontmatter->Ok_0 && s.source_dir@ == dir@
            && s.skill.id@ == frontmatter->Ok_0.name@ && s.skill.deep_view().spans == skill_spans(
            frontmatter->Ok_0.name@,
            body_of(content@),
            references.deep_view(),
        ),
        split_view(content@) is None ==> r is Err && r->Err_0 is NoFrontmatter
            && r->Err_0->NoFrontmatter_0@ == paths::joined(dir@, "SKILL.md"@),
{
}

/// Skills are looked for in the project first, then in the configuration of the user, then with the
/// other tool.
pub proof fn law_skills_are_looked_for_in_order(
    project: &str,
    config: &str,
    home: &str,
    tool: &str,
    r: Vec<String>,
    none: Vec<String>,
)
    requires
        call_ensures(default_search_dirs, (Some(project), Some(config), Some(home), tool), r),
        call_ensures(default_search_dirs, (None, None, None, tool), none),
    ensures
        r@.len() == 3,
        r@[0]@ == paths::joined(project@, ".mu/skills"@),
        r@[1]@ == paths::joined(config@, "mu/skills"@),
        r@[2]@ == paths::joined(home@, tool_skills(tool@)),
        none@.len() == 0,
{
    assert(r.deep_view().len() == r@.len());
    assert(none.deep_view().len() == none@.len());
    assert(r.deep_view()[0] == r@[0]@);
    assert(r.deep_view()[1] == r@[1]@);
    assert(r.deep_view()[2] == r@[2]@);
}

/// Of the skills that are found one of each name is kept, the first, in the order of their names.
pub proof fn law_one_skill_of_each_name_is_kept(
    found: Vec<LoadedSkill>,
    r: Vec<LoadedSkill>,
    i: int,
    j: int,
)
    requires
        call_ensures(discover_skills, (found,), r),
        0 <= i < found@.len(),
    ensures
        exists|k: int|
            0 <= k < r@.len() && (#[trigger] r@[k]).frontmatter.name@ == found@[i].frontmatter.name@,
        0 <= j < r@.len() ==> first_named(found@, r@[j].frontmatter.name@) == Some(r@[j]),
        0 < j < r@.len() ==> text::str_lt(
            r@[j - 1].frontmatter.name@,
            r@[j].frontmatter.name@,
        ),
{
    let name = found@[i].frontmatter.name@;
    lemma_some_has_name(found@, i);
    assert(first_named(found@, name) is Some);
    let k = choose|k: int| 0 <= k < names_of(r@).len() && names_of(r@)[k] == name;
    assert(r@[k].frontmatter.name@ == name);
    if 0 <= j < r@.len() {
        assert(names_of(r@)[j] == r@[j].frontmatter.name@);
        assert(first_named(found@, names_of(r@)[j]) == Some(r@[j]));
    }
    if 0 < j < r@.len() {
        assert(names_of(r@)[j - 1] == r@[j - 1].frontmatter.name@);
    }
}

proof fn lemma_some_has_name(found: Seq<LoadedSkill>, i: int)
    requires
        0 <= i < found.len(),
    ensures
        first_named(found, found[i].frontmatter.name@) is Some,
    decreases found.len(),
{
    if i < found.len() - 1 {
        lemma_some_has_name(found.drop_last(), i);
        assert(found.drop_last()[i] == found[i]);
    }
}

} // verus!
