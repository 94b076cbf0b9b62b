//! Tool registry whose schemas are spans of the retained rope.
use vstd::prelude::*;

use crate::agent::ToolSpec;
use crate::capability::Capability;
use crate::context::rope;
use crate::context::rope::{RetainedRope, RetentionClass, Span, SpanKind, SpanKindView, SpanView};
use crate::json;
use crate::string_map;
use crate::string_map::StringMap;
use crate::text;

verus! {

/// The span identifier of the schema of the tool `tool_name`.
pub fn tool_schema_span_id(tool_name: &str) -> (r: String)
    ensures
        r@ == "tool-schema:"@ + tool_name@,
{
    "tool-schema:".to_owned().concat(tool_name)
}

/// The JSON text of a schema: an object with the members `description`, `input_schema` and `name`.
/// `schema` is the JSON text of the input schema.
pub open spec fn schema_text(
    name: Seq<char>,
    description: Seq<char>,
    schema: Seq<char>,
) -> Seq<char> {
    "{\"description\":"@ + description + ",\"input_schema\":"@ + schema + ",\"name\":"@ + name
        + "}"@
}

/// The JSON text of the schema of a tool, or what is wrong with its input schema if that is no
/// JSON.
pub open spec fn schema_json(
    name: Seq<char>,
    description: Seq<char>,
    input_schema: Seq<char>,
) -> Seq<char> {
    match json::compacted(input_schema) {
        Ok(schema) => schema_text(json::quoted(name), json::quoted(description), schema),
        Err(e) => schema_error_text(e),
    }
}

/// What stands for a schema that failed with the message `e`.
pub open spec fn schema_error_text(e: Seq<char>) -> Seq<char> {
    "<schema-serialize-error: "@ + e + ">"@
}

/// Puts the JSON text of a schema together from the JSON texts of its members.
pub fn assemble_schema(name: &str, description: &str, schema: &str) -> (r: String)
    ensures
        r@ == schema_text(name@, description@, schema@),
{
    "{\"description\":".to_owned().concat(description).concat(",\"input_schema\":").concat(
        schema,
    ).concat(",\"name\":").concat(name).concat("}")
}

/// What stands for a schema that failed with the message `e`.
pub fn schema_error(e: &str) -> (r: String)
    ensures
        r@ == schema_error_text(e@),
{
    "<schema-serialize-error: ".to_owned().concat(e).concat(">")
}

/// The JSON text of the schema of a tool, or what is wrong with its input schema if that is no
/// JSON.
pub fn serialize_schema(spec: &ToolSpec) -> (r: String)
    ensures
        r@ == schema_json(spec.name@, spec.description@, spec.input_schema@),
{
    match json::compact(&spec.input_schema) {
        Ok(schema) => {
            let name = json::quote(&spec.name);
            let description = json::quote(&spec.description);
            assemble_schema(&name, &description, &schema)
        },
        Err(e) => schema_error(&e),
    }
}

/// The span that holds the schema of the tool described by `spec`, given the JSON text of it.
pub open spec fn schema_span(name: Seq<char>, json: Seq<char>) -> SpanView {
    SpanView {
        id: "tool-schema:"@ + name,
        kind: SpanKindView::ToolSchema,
        content: json,
        retention: RetentionClass::Hot,
        cacheable: true,
    }
}

/// Makes the schema span of the tool `name` with the schema text `json`.
pub fn make_schema_span(name: &str, json: String) -> (r: Span)
    ensures
        r.deep_view() == schema_span(name@, json@),
{
    Span::new(tool_schema_span_id(name), SpanKind::ToolSchema, json, RetentionClass::Hot)
}

/// Catalog of registered tools, each held as a handle `T`.
#[derive(Debug)]
pub struct ToolRegistry<T> {
    tools: StringMap<T>,
}

impl<T> View for ToolRegistry<T> {
    type V = Map<Seq<char>, T>;

    closed spec fn view(&self) -> Map<Seq<char>, T> {
        self.tools@
    }
}

impl<T> Default for ToolRegistry<T> {
    fn default() -> (r: Self)
        ensures
            r@ == Map::<Seq<char>, T>::empty(),
    {
        ToolRegistry::new()
    }
}

/// The tool names of `m` that `cap` permits.
pub open spec fn permitted<T>(m: Map<Seq<char>, T>, cap: &Capability) -> Set<Seq<char>> {
    m.dom().filter(|n: Seq<char>| cap.permits(n))
}

/// The registered names that `cap` permits, in increasing order.
pub open spec fn permitted_names<T>(m: Map<Seq<char>, T>, cap: &Capability) -> Seq<Seq<char>> {
    string_map::sorted_keys(permitted(m, cap))
}

/// The tools registered under `names`, one for each name.
pub open spec fn tools_of<T>(m: Map<Seq<char>, T>, names: Seq<Seq<char>>) -> Seq<T> {
    names.map_values(|n: Seq<char>| m[n])
}

/// The tools whose name `cap` permits, in the order of their names. A tool that is registered under
/// several such names comes once for each.
pub open spec fn permitted_tools<T>(m: Map<Seq<char>, T>, cap: &Capability) -> Seq<T> {
    tools_of(m, permitted_names(m, cap))
}

/// Whether a schema span with identifier `id` belongs to a registered tool that `cap` permits.
pub open spec fn shows<T>(m: Map<Seq<char>, T>, cap: &Capability, id: Seq<char>) -> bool {
    text::has_prefix(id, "tool-schema:"@) && m.contains_key(id.skip("tool-schema:"@.len() as int))
        && cap.permits(id.skip("tool-schema:"@.len() as int))
}

impl<T> ToolRegistry<T> {
    /// The empty registry.
    pub fn new() -> (r: Self)
        ensures
            r@ == Map::<Seq<char>, T>::empty(),
    {
        ToolRegistry { tools: StringMap::new() }
    }

    /// Stores a tool under the name in `spec` and registers its schema span in the rope. A tool of
    /// the same name is replaced; its schema span stays in the rope.
    pub fn register(&mut self, tool: T, spec: &ToolSpec, rope: &mut RetainedRope)
        ensures
            final(self)@ == old(self)@.insert(spec.name@, tool),
            final(rope)@ == old(rope)@.registered(
                spec.name@,
                schema_span(
                    spec.name@,
                    schema_json(spec.name@, spec.description@, spec.input_schema@),
                ),
            ),
            old(rope)@.valid() ==> final(rope)@.valid(),
    {
        let schema = serialize_schema(spec);
        self.register_with_schema(tool, &spec.name, schema, rope)
    }

    /// Stores a tool under `name` and registers the schema text `json` as its span in the rope.
    pub fn register_with_schema(
        &mut self,
        tool: T,
        name: &str,
        json: String,
        rope: &mut RetainedRope,
    )
        ensures
            final(self)@ == old(self)@.insert(name@, tool),
            final(rope)@ == old(rope)@.registered(name@, schema_span(name@, json@)),
            old(rope)@.valid() ==> final(rope)@.valid(),
    {
        let span = make_schema_span(name, json);
        rope.register_tool_schema(name.to_owned(), span);
        self.tools.insert(name.to_owned(), tool);
    }

    /// Takes a tool out of the catalog and its schema span out of the rope.
    pub fn unregister(&mut self, tool_name: &str, rope: &mut RetainedRope) -> (r: Option<T>)
        ensures
            final(self)@ == old(self)@.remove(tool_name@),
            final(rope)@ == old(rope)@.unregistered(tool_name@),
            match r {
                Some(t) => old(self)@.contains_key(tool_name@) && t == old(self)@[tool_name@],
                None => !old(self)@.contains_key(tool_name@),
            },
            old(rope)@.valid() ==> final(rope)@.valid(),
    {
        rope.unregister_tool_schema(tool_name);
        self.tools.remove(tool_name)
    }

    /// The tool registered under `name`.
    pub fn get(&self, name: &str) -> (r: Option<&T>)
        ensures
            match r {
                Some(t) => self@.contains_key(name@) && *t == self@[name@],
                None => !self@.contains_key(name@),
            },
    {
        self.tools.get(name)
    }

    /// The registered names, each once, in increasing order.
    pub fn names(&self) -> (r: Vec<&str>)
        ensures
            r.deep_view().no_duplicates(),
            r.deep_view().to_set() == self@.dom(),
            r.deep_view() == string_map::sorted_keys(self@.dom()),
    {
        self.tools.keys()
    }

    /// The registered tools, in the order of their names.
    pub fn iter(&self) -> (r: Vec<&T>)
        ensures
            r@.unref() == tools_of(self@, string_map::sorted_keys(self@.dom())),
    {
        proof {
            assert(permitted(self@, &Capability { allowed_tools: None }) =~= self@.dom());
        }
        self.attenuate_with(&Capability::root())
    }

    /// The number of registered tools.
    pub fn len(&self) -> (n: usize)
        ensures
            n == self@.dom().len(),
    {
        self.tools.len()
    }

    /// Whether no tool is registered.
    pub fn is_empty(&self) -> (r: bool)
        ensures
            r == (self@ == Map::<Seq<char>, T>::empty()),
    {
        let n: usize = self.tools.len();
        proof {
            if n == 0 {
                assert(self@.dom() =~= Set::empty());
                assert(self@ =~= Map::empty());
            }
        }
        n == 0
    }

    /// The registered tools whose name `cap` permits, in the order of their names: those of
    /// [`attenuated_names`](Self::attenuated_names).
    pub fn attenuate_with(&self, cap: &Capability) -> (r: Vec<&T>)
        ensures
            r@.unref() == permitted_tools(self@, cap),
    {
        let names = self.attenuated_names(cap);
        let mut r: Vec<&T> = Vec::new();
        let mut i: usize = 0;
        while i < names.len()
            invariant
                i <= names@.len(),
                r@.len() == i,
                names.deep_view().to_set() == permitted(self@, cap),
                forall|j: int| 0 <= j < i ==> *#[trigger] r@[j] == self@[names.deep_view()[j]],
            decreases names@.len() - i,
        {
            proof {
                assert(names.deep_view()[i as int] == names@[i as int]@);
                assert(names.deep_view().to_set().contains(names@[i as int]@));
            }
            match self.tools.get(names[i]) {
                Some(t) => {
                    r.push(t);
                },
                None => {},
            }
            i += 1;
        }
        proof {
            assert(r@.unref() =~= tools_of(self@, names.deep_view()));
        }
        r
    }

    /// The registered names that `cap` permits, each once, in increasing order.
    pub fn attenuated_names(&self, cap: &Capability) -> (r: Vec<&str>)
        ensures
            r.deep_view().no_duplicates(),
            r.deep_view().to_set() == permitted(self@, cap),
            r.deep_view() == permitted_names(self@, cap),
    {
        let names = self.tools.keys();
        let ghost all = names.deep_view();
        let ghost p = |n: Seq<char>| cap.permits(n);
        let mut r: Vec<&str> = Vec::new();
        let mut i: usize = 0;
        proof {
            crate::seqs::lemma_filter_start(all, p);
            assert(r.deep_view() =~= Seq::empty());
        }
        while i < names.len()
            invariant
                i <= names@.len(),
                all == names.deep_view(),
                p == (|n: Seq<char>| cap.permits(n)),
                r.deep_view() == all.take(i as int).filter(p),
            decreases names@.len() - i,
        {
            let ghost sofar = r.deep_view();
            proof {
                assert(all[i as int] == names@[i as int]@);
                crate::seqs::lemma_filter_step(all, i as int, p);
            }
            if cap.check_allow(names[i]) {
                r.push(names[i]);
                proof {
                    assert(r.deep_view() =~= sofar.push(all[i as int]));
                }
            }
            i += 1;
        }
        proof {
            crate::seqs::lemma_filter_start(all, p);
            crate::seqs::lemma_filter_no_duplicates(all, p);
            crate::seqs::lemma_filter_to_set(all, p);
            assert(r.deep_view().to_set() =~= permitted(self@, cap));
            string_map::lemma_filter_increasing(all, p);
            string_map::lemma_sorted_keys(r.deep_view(), permitted(self@, cap));
        }
        r
    }

    /// The active schema spans of registered tools that `cap` permits, in rope order.
    pub fn filter_tool_spans<'r>(&self, rope: &'r RetainedRope, cap: &Capability) -> (r: Vec<
        &'r Span,
    >)
        ensures
            r@.unref() == rope.spans_seq().filter(
                |s: Span| s.kind is ToolSchema && shows(self@, cap, s.id@),
            ),
    {
        let pred = |span: &Span| -> (b: bool)
            ensures
                b == shows(self@, cap, span.id@),
            {
                match text::strip_prefix(&span.id, "tool-schema:") {
                    Some(name) => self.tools.contains_key(name) && cap.check_allow(name),
                    None => false,
                }
            };
        let r = rope.filter_tools(pred);
        proof {
            let p = |s: Span| shows(self@, cap, s.id@);
            let accepted = choose|accepted: Seq<bool>|
                accepted.len() == rope@.spans.len() && rope::chosen(
                    pred,
                    rope.spans_seq(),
                    accepted,
                ) && r@.unref() == #[trigger] rope::pick(rope.spans_seq(), accepted);
            rope.lemma_spans_len();
            rope::law_filter_tools_is_a_set_difference(pred, p, rope.spans_seq(), accepted);
            crate::seqs::lemma_filter_agrees(
                rope.spans_seq(),
                |s: Span| s.kind is ToolSchema && p(s),
                |s: Span| s.kind is ToolSchema && shows(self@, cap, s.id@),
            );
        }
        r
    }
}

/// What attenuation leaves out is exactly what the capability does not permit.
pub proof fn law_attenuation_is_a_set_difference<T>(m: Map<Seq<char>, T>, cap: &Capability)
    requires
        m.dom().finite(),
    ensures
        m.dom().difference(permitted(m, cap)) == m.dom().filter(|n: Seq<char>| !cap.permits(n)),
        permitted(m, cap).len() + m.dom().filter(|n: Seq<char>| !cap.permits(n)).len()
            == m.dom().len(),
{
    let denied = m.dom().filter(|n: Seq<char>| !cap.permits(n));
    assert(m.dom().difference(permitted(m, cap)) =~= denied);
    assert(permitted(m, cap) + denied =~= m.dom());
    assert(permitted(m, cap).disjoint(denied));
    vstd::set_lib::lemma_set_disjoint_lens(permitted(m, cap), denied);
}

/// Attenuation gives one tool for each permitted name, and so as often as it is registered under
/// such names.
pub proof fn law_attenuation_keeps_one_tool_per_name<T>(m: Map<Seq<char>, T>, cap: &Capability, t: T)
    requires
        m.dom().finite(),
    ensures
        permitted_tools(m, cap).len() == permitted(m, cap).len(),
        permitted_tools(m, cap).contains(t) <==> exists|n: Seq<char>| #[trigger]
            m.contains_key(n) && cap.permits(n) && m[n] == t,
        permitted_tools(m, cap).to_multiset().count(t) == permitted(m, cap).filter(
            |n: Seq<char>| m[n] == t,
        ).len(),
{
    let names = permitted_names(m, cap);
    let tools = permitted_tools(m, cap);
    string_map::lemma_sorted_keys_exist(permitted(m, cap));
    string_map::lemma_increasing_distinct(names);
    names.unique_seq_to_set();
    if tools.contains(t) {
        let i = choose|i: int| 0 <= i < tools.len() && tools[i] == t;
        assert(names.to_set().contains(names[i]));
        assert(m.contains_key(names[i]));
    }
    if exists|n: Seq<char>| #[trigger] m.contains_key(n) && cap.permits(n) && m[n] == t {
        let n = choose|n: Seq<char>| #[trigger] m.contains_key(n) && cap.permits(n) && m[n] == t;
        assert(names.to_set().contains(n));
        let i = choose|i: int| 0 <= i < names.len() && names[i] == n;
        assert(tools[i] == t);
    }
    lemma_count(m, names, t);
    let p = |n: Seq<char>| m[n] == t;
    crate::seqs::lemma_filter_no_duplicates(names, p);
    crate::seqs::lemma_filter_to_set(names, p);
    names.filter(p).unique_seq_to_set();
}

/// How often a tool comes is how many of the names it is registered under.
proof fn lemma_count<T>(m: Map<Seq<char>, T>, names: Seq<Seq<char>>, t: T)
    ensures
        tools_of(m, names).to_multiset().count(t) == names.filter(
            |n: Seq<char>| m[n] == t,
        ).len(),
    decreases names.len(),
{
    broadcast use vstd::seq_lib::group_to_multiset_ensures;

    let p = |n: Seq<char>| m[n] == t;
    reveal(Seq::filter);
    if names.len() == 0 {
        assert(tools_of(m, names) =~= Seq::empty());
    } else {
        let rest = names.drop_last();
        lemma_count(m, rest, t);
        assert(tools_of(m, names) =~= tools_of(m, rest).push(m[names.last()]));
    }
}

/// The schema span of a tool that is not registered is not shown, whatever the rope holds.
pub proof fn law_stale_schema_spans_are_hidden<T>(
    m: Map<Seq<char>, T>,
    cap: &Capability,
    name: Seq<char>,
)
    requires
        !m.contains_key(name),
    ensures
        !shows(m, cap, "tool-schema:"@ + name),
{
    let p = "tool-schema:"@;
    assert((p + name).skip(p.len() as int) =~= name);
}

/// The schema span of a registered tool is shown exactly if the capability permits the tool.
pub proof fn law_schema_spans_follow_permission<T>(
    m: Map<Seq<char>, T>,
    cap: &Capability,
    name: Seq<char>,
)
    requires
        m.contains_key(name),
    ensures
        shows(m, cap, "tool-schema:"@ + name) == cap.permits(name),
{
    let p = "tool-schema:"@;
    assert((p + name).skip(p.len() as int) =~= name);
    assert((p + name).take(p.len() as int) =~= p);
}

/// A member of a JSON object in its text.
pub open spec fn member(name: Seq<char>, value: Seq<char>) -> Seq<char> {
    seq!['"'] + name + seq!['"', ':'] + value
}

/// A schema carries the name, the description and the input schema of its tool, each under its
/// name; an input schema that is no JSON is reported in its place.
pub proof fn law_schemas_carry_named_values(
    name: Seq<char>,
    description: Seq<char>,
    schema: Seq<char>,
    input: Seq<char>,
)
    ensures
        schema_text(name, description, schema) == seq!['{'] + member("description"@, description)
            + seq![','] + member("input_schema"@, schema) + seq![','] + member("name"@, name)
            + seq!['}'],
        json::compacted(input) == Ok::<Seq<char>, Seq<char>>(schema) ==> schema_json(
            name,
            description,
            input,
        ) == schema_text(json::quoted(name), json::quoted(description), schema),
        json::compacted(input) matches Err(e) ==> schema_json(name, description, input)
            == "<schema-serialize-error: "@ + e + ">"@,
{
    reveal_strlit("{\"description\":");
    reveal_strlit(",\"input_schema\":");
    reveal_strlit(",\"name\":");
    reveal_strlit("}");
    reveal_strlit("description");
    reveal_strlit("input_schema");
    reveal_strlit("name");
    assert(schema_text(name, description, schema) =~= seq!['{'] + member(
        "description"@,
        description,
    ) + seq![','] + member("input_schema"@, schema) + seq![','] + member("name"@, name) + seq!['}']);
}

/// The schema of a tool is a hot span of its own kind, under a name that no other tool has.
pub proof fn law_schema_spans_are_told_apart(a: Seq<char>, b: Seq<char>, json: Seq<char>)
    ensures
        schema_span(a, json).id == schema_span(b, json).id ==> a == b,
        schema_span(a, json).kind is ToolSchema,
        schema_span(a, json).content == json,
        schema_span(a, json).retention is Hot,
        schema_span(a, json).cacheable,
        text::has_prefix(schema_span(a, json).id, "tool-schema:"@),
{
    let p = "tool-schema:"@;
    assert((p + a).skip(p.len() as int) =~= a);
    assert((p + b).skip(p.len() as int) =~= b);
    assert((p + a).take(p.len() as int) =~= p);
}

/// The tools that a capability permits come in the order of their names, each name once.
pub proof fn law_permitted_tools_come_by_name<T>(m: Map<Seq<char>, T>, cap: &Capability, i: int)
    requires
        m.dom().finite(),
        0 <= i < permitted_names(m, cap).len(),
    ensures
        permitted_tools(m, cap).len() == permitted_names(m, cap).len(),
        permitted_tools(m, cap)[i] == m[permitted_names(m, cap)[i]],
        m.contains_key(permitted_names(m, cap)[i]),
        cap.permits(permitted_names(m, cap)[i]),
        forall|j: int|
            0 <= j < i ==> text::str_lt(
                #[trigger] permitted_names(m, cap)[j],
                permitted_names(m, cap)[i],
            ),
{
    let names = permitted_names(m, cap);
    string_map::lemma_sorted_keys_exist(permitted(m, cap));
    assert(names.to_set().contains(names[i]));
}

/// A registered tool is found under its name, in place of an earlier one of that name, and its
/// schema is the last span of the rope; the others stay.
pub proof fn law_registered_tools_are_found<T>(
    registry: &mut ToolRegistry<T>,
    tool: T,
    spec: &ToolSpec,
    rope: &mut RetainedRope,
    name: Seq<char>,
)
    requires
        call_ensures(ToolRegistry::<T>::register, (registry, tool, spec, rope), ()),
    ensures
        final(registry)@.contains_key(spec.name@),
        final(registry)@[spec.name@] == tool,
        name != spec.name@ ==> (final(registry)@.contains_key(name) <==> old(
            registry,
        )@.contains_key(name)) && final(registry)@[name] == old(registry)@[name],
        final(rope)@.spans.len() == old(rope)@.spans.len() + 1,
        final(rope)@.spans.drop_last() == old(rope)@.spans,
        final(rope)@.spans.last().id == "tool-schema:"@ + spec.name@,
        final(rope)@.spans.last().content == schema_json(
            spec.name@,
            spec.description@,
            spec.input_schema@,
        ),
{
    assert(final(rope)@.spans.drop_last() =~= old(rope)@.spans);
}

/// An unregistered tool is given back and not found any more; the others stay.
pub proof fn law_unregistered_tools_are_gone<T>(
    registry: &mut ToolRegistry<T>,
    tool_name: &str,
    rope: &mut RetainedRope,
    r: Option<T>,
    name: Seq<char>,
)
    requires
        call_ensures(ToolRegistry::<T>::unregister, (registry, tool_name, rope), r),
    ensures
        !final(registry)@.contains_key(tool_name@),
        r is Some <==> old(registry)@.contains_key(tool_name@),
        r is Some ==> r->0 == old(registry)@[tool_name@],
        name != tool_name@ ==> (final(registry)@.contains_key(name) <==> old(
            registry,
        )@.contains_key(name)) && final(registry)@[name] == old(registry)@[name],
        final(rope)@ == old(rope)@.unregistered(tool_name@),
{
}

/// Of the spans of a rope those are shown that are schemas of registered tools that the capability
/// permits, and no others.
pub proof fn law_permitted_schemas_are_shown<T>(
    registry: &ToolRegistry<T>,
    rope: &RetainedRope,
    cap: &Capability,
    r: Vec<&Span>,
    s: Span,
    tools: Vec<&T>,
)
    requires
        call_ensures(ToolRegistry::<T>::filter_tool_spans, (registry, rope, cap), r),
        call_ensures(ToolRegistry::<T>::attenuate_with, (registry, cap), tools),
    ensures
        r@.unref().contains(s) <==> rope.spans_seq().contains(s) && s.kind is ToolSchema && shows(
            registry@,
            cap,
            s.id@,
        ),
        tools@.unref() == permitted_tools(registry@, cap),
{
    crate::seqs::lemma_filter_contains(
        rope.spans_seq(),
        |s: Span| s.kind is ToolSchema && shows(registry@, cap, s.id@),
    );
}

} // verus!
