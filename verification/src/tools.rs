//! What an agent's tools are to the loop: their specs, whether they may run
//! beside one another, and whether they need a say-so.
use vstd::prelude::*;
use vstd::string::*;
use crate::agent::Risk;
use crate::json::Json;
use crate::message::{copy_text, FunctionDefinition};
use crate::seqs::{group_views, view_of, views};
use crate::text::{decimal, push_decimal};

verus! {

broadcast use group_views;

/// The name of the built-in tool that finds deferred tools.
pub const SEARCH_TOOL: &'static str = "search_tools";

/// What the model is told of a tool.
#[derive(Debug, PartialEq, Eq)]
pub struct ToolSpec {
    /// What the model calls it by.
    pub name: String,
    /// What it is for.
    pub description: String,
    /// The schema of its arguments.
    pub input_schema: Json,
}

/// A tool's spec, mathematically.
pub struct SpecView {
    pub name: Seq<char>,
    pub description: Seq<char>,
    pub input_schema: Seq<char>,
}

impl View for ToolSpec {
    type V = SpecView;

    open spec fn view(&self) -> SpecView {
        SpecView {
            name: self.name@,
            description: self.description@,
            input_schema: self.input_schema@,
        }
    }
}

impl Clone for ToolSpec {
    fn clone(&self) -> (out: Self)
        ensures
            out@ == self@,
    {
        ToolSpec {
            name: self.name.clone(),
            description: self.description.clone(),
            input_schema: self.input_schema.clone(),
        }
    }
}

/// When the model sees a tool.
#[derive(Debug, Clone, Copy, PartialEq, Eq, Structural)]
pub enum ToolLoading {
    /// From the first turn.
    Resident,
    /// Once search surfaced it.
    Deferred,
}

/// How deferred tools are found.
#[derive(Debug, Clone, Copy, PartialEq, Eq, Structural)]
pub enum ToolSearch {
    /// By the words of the query.
    Bm25,
    /// By meaning.
    Semantic,
    /// By both.
    Hybrid,
}

impl ToolSearch {
    /// Whether the search compares embeddings.
    pub fn needs_embedder(&self) -> (out: bool)
        ensures
            out == (*self != ToolSearch::Bm25),
    {
        match self {
            ToolSearch::Bm25 => false,
            ToolSearch::Semantic => true,
            ToolSearch::Hybrid => true,
        }
    }
}

/// A tool, as the loop sees it.
#[derive(Debug, PartialEq, Eq)]
pub struct ToolEntry {
    /// What the model is told.
    pub spec: ToolSpec,
    /// Whether it may run beside other calls.
    pub parallel_safe: bool,
    /// Whether it needs a human's say-so.
    pub risk: Risk,
}

/// A tool as the loop sees it, mathematically.
pub struct EntryView {
    pub spec: SpecView,
    pub parallel_safe: bool,
    pub risk: Risk,
}

impl View for ToolEntry {
    type V = EntryView;

    open spec fn view(&self) -> EntryView {
        EntryView { spec: self.spec@, parallel_safe: self.parallel_safe, risk: self.risk }
    }
}

impl Clone for ToolEntry {
    fn clone(&self) -> (out: Self)
        ensures
            out@ == self@,
    {
        ToolEntry {
            spec: self.spec.clone(),
            parallel_safe: self.parallel_safe,
            risk: self.risk,
        }
    }
}

/// Several tools, registered together.
#[derive(Debug, PartialEq, Eq)]
pub struct ToolBundle {
    pub tools: Vec<ToolEntry>,
}

impl View for ToolBundle {
    type V = Seq<EntryView>;

    open spec fn view(&self) -> Seq<EntryView> {
        views(self.tools@)
    }
}

impl Clone for ToolBundle {
    fn clone(&self) -> (out: Self)
        ensures
            out@ == self@,
    {
        let tools = self.tools.clone();
        assert(views(tools@) =~= views(self.tools@));
        ToolBundle { tools }
    }
}

impl ToolBundle {
    /// No tools.
    pub fn new() -> (out: Self)
        ensures
            out@ == Seq::<EntryView>::empty(),
    {
        let out = ToolBundle { tools: Vec::new() };
        assert(out@ =~= Seq::<EntryView>::empty());
        out
    }

    /// With one more tool.
    pub fn add(self, tool: ToolEntry) -> (out: Self)
        ensures
            out@ == self@.push(tool@),
    {
        let ghost before = self@;
        let mut tools = self.tools;
        tools.push(tool);
        assert(views(tools@) =~= before.push(tool@));
        ToolBundle { tools }
    }

    /// With several more tools.
    pub fn extend(self, more: Vec<ToolEntry>) -> (out: Self)
        ensures
            out@ == self@ + views(more@),
    {
        let ghost before = self@;
        let ghost added = views(more@);
        let mut tools = self.tools;
        let mut more = more;
        tools.append(&mut more);
        assert(views(tools@) =~= before + added);
        ToolBundle { tools }
    }

    /// The tools' names, in order.
    pub fn names(&self) -> (out: Vec<String>)
        ensures
            views(out@) == self@.map_values(|e: EntryView| e.spec.name),
    {
        let mut out: Vec<String> = Vec::new();
        let mut i: usize = 0;
        while i < self.tools.len()
            invariant
                i <= self.tools.len(),
                out.len() == i,
                forall|k: int| 0 <= k < i ==> (#[trigger] out@[k])@ == self.tools@[k].spec.name@,
            decreases self.tools.len() - i,
        {
            out.push(self.tools[i].spec.name.clone());
            i += 1;
        }
        assert(views(out@) =~= self@.map_values(|e: EntryView| e.spec.name));
        out
    }

    /// How many tools.
    pub fn len(&self) -> (out: usize)
        ensures
            out == self@.len(),
    {
        self.tools.len()
    }

    /// Whether there are none.
    pub fn is_empty(&self) -> (out: bool)
        ensures
            out == (self@.len() == 0),
    {
        self.tools.len() == 0
    }
}

// ── What goes to the model ──────────────────────────────────────────────────

/// A tool as a request lists it.
#[derive(Debug, PartialEq, Eq)]
pub struct WireToolSpec {
    pub kind: String,
    pub function: FunctionDefinition,
}

/// A listed tool, mathematically.
pub struct WireView {
    pub kind: Seq<char>,
    pub name: Seq<char>,
    pub description: Option<Seq<char>>,
    pub arguments: Seq<char>,
}

impl View for WireToolSpec {
    type V = WireView;

    open spec fn view(&self) -> WireView {
        WireView {
            kind: self.kind@,
            name: self.function.name@,
            description: view_of(self.function.description),
            arguments: self.function.arguments@,
        }
    }
}

impl Clone for WireToolSpec {
    fn clone(&self) -> (out: Self)
        ensures
            out@ == self@,
    {
        WireToolSpec {
            kind: self.kind.clone(),
            function: FunctionDefinition {
                description: copy_text(&self.function.description),
                name: self.function.name.clone(),
                arguments: self.function.arguments.clone(),
            },
        }
    }
}

/// A spec as a request lists it.
pub open spec fn on_wire(spec: SpecView) -> WireView {
    WireView {
        kind: "function"@,
        name: spec.name,
        description: Some(spec.description),
        arguments: spec.input_schema,
    }
}

/// What the model is told of the search tool.
pub open spec fn search_on_wire() -> WireView {
    WireView {
        kind: "function"@,
        name: SEARCH_TOOL@,
        description: Some(
            "Find tools that are not listed above. Describe what you need to do; matching tools become available to call."@,
        ),
        arguments: crate::json::lenient(
            "{\"type\":\"object\",\"properties\":{\"query\":{\"type\":\"string\",\"description\":\"What you need to do\"}},\"required\":[\"query\"]}"@,
        ),
    }
}

fn as_wire_spec(spec: &ToolSpec) -> (out: WireToolSpec)
    ensures
        out@ == on_wire(spec@),
{
    WireToolSpec {
        kind: "function".to_owned(),
        function: FunctionDefinition {
            name: spec.name.clone(),
            description: Some(spec.description.clone()),
            arguments: spec.input_schema.clone(),
        },
    }
}

fn search_tool_spec() -> (out: WireToolSpec)
    ensures
        out@ == search_on_wire(),
{
    WireToolSpec {
        kind: "function".to_owned(),
        function: FunctionDefinition {
            name: SEARCH_TOOL.to_owned(),
            description: Some(
                "Find tools that are not listed above. Describe what you need to do; matching tools become available to call.".to_owned(),
            ),
            arguments: Json::lenient(
                "{\"type\":\"object\",\"properties\":{\"query\":{\"type\":\"string\",\"description\":\"What you need to do\"}},\"required\":[\"query\"]}",
            ),
        },
    }
}

/// Specs the model should see this turn: everything visible, plus the search
/// tool when there is a way to search and something to find.
pub fn wire_specs(visible: &Vec<ToolSpec>, can_search: bool, any_deferred: bool) -> (out: Vec<
    WireToolSpec,
>)
    ensures
        views(out@) == views(visible@).map_values(|s: SpecView| on_wire(s)) + (if can_search
            && any_deferred {
            seq![search_on_wire()]
        } else {
            Seq::empty()
        }),
{
    let mut out: Vec<WireToolSpec> = Vec::new();
    let mut i: usize = 0;
    while i < visible.len()
        invariant
            i <= visible.len(),
            out.len() == i,
            forall|k: int| 0 <= k < i ==> (#[trigger] out@[k])@ == on_wire(visible@[k]@),
        decreases visible.len() - i,
    {
        out.push(as_wire_spec(&visible[i]));
        i += 1;
    }
    let ghost listed = views(visible@).map_values(|s: SpecView| on_wire(s));
    assert(views(out@) =~= listed);
    if can_search && any_deferred {
        out.push(search_tool_spec());
        assert(views(out@) =~= listed + seq![search_on_wire()]);
    } else {
        assert(listed + Seq::<WireView>::empty() =~= listed);
    }
    out
}

// ── Searching ───────────────────────────────────────────────────────────────

/// One found tool, as the model reads it.
pub open spec fn found_line(spec: SpecView) -> Seq<char> {
    spec.name + ": "@ + spec.description + " — arguments: "@ + spec.input_schema
}

/// Found tools, one a line.
pub open spec fn found_lines(found: Seq<SpecView>) -> Seq<char>
    decreases found.len(),
{
    if found.len() == 0 {
        Seq::empty()
    } else if found.len() == 1 {
        found_line(found[0])
    } else {
        found_lines(found.drop_last()) + "\n"@ + found_line(found.last())
    }
}

/// What the model reads of a search.
pub open spec fn search_words(query: Seq<char>, found: Seq<SpecView>) -> Seq<char> {
    if found.len() == 0 {
        "No tools match '"@ + query + "'."@
    } else {
        "Found "@ + decimal(found.len()) + " tool(s), now available to call:\n"@ + found_lines(found)
    }
}

/// What a search call asks for, given the text it holds as its `query`.
pub fn query_found(query: Option<String>) -> (out: Result<String, String>)
    ensures
        match query {
            Some(query) => out == Ok::<String, String>(query),
            None => out matches Err(words) && words@ == "expected a 'query' string"@,
        },
{
    match query {
        Some(query) => Ok(query),
        None => Err("expected a 'query' string".to_owned()),
    }
}

/// What a search call asks for: its `query`, where it has one that is a text.
pub fn search_query(arguments: &Json) -> (out: Result<String, String>)
    ensures
        match crate::json::field_of(arguments@, "query"@) {
            Some(query) => out matches Ok(q) && q@ == query,
            None => out matches Err(words) && words@ == "expected a 'query' string"@,
        },
{
    query_found(arguments.field("query"))
}

/// What the model reads of a search. The specs found join the conversation,
/// never the prompt.
pub fn search_text(query: &str, found: &Vec<ToolSpec>) -> (out: String)
    ensures
        out@ == search_words(query@, views(found@)),
{
    let ghost all = views(found@);
    if found.len() == 0 {
        return "No tools match '".to_owned().concat(query).concat("'.");
    }
    let mut out = "Found ".to_owned();
    push_decimal(&mut out, found.len() as u64);
    out.append(" tool(s), now available to call:\n");
    let ghost head = out@;
    let mut i: usize = 0;
    assert(all.take(0) =~= Seq::empty());
    assert(head + Seq::<char>::empty() =~= head);
    while i < found.len()
        invariant
            i <= found.len(),
            all == views(found@),
            out@ == head + found_lines(all.take(i as int)),
        decreases found.len() - i,
    {
        let ghost before = out@;
        let ghost spec = found@[i as int]@;
        assert(all.take(i + 1).drop_last() =~= all.take(i as int));
        assert(all.take(i + 1).last() == spec);
        assert(i == 0 ==> all.take(i + 1)[0] == spec);
        if i > 0 {
            out.append("\n");
        }
        out.append(found[i].name.as_str());
        out.append(": ");
        out.append(found[i].description.as_str());
        out.append(" — arguments: ");
        out.append(found[i].input_schema.as_str());
        assert(out@ =~= head + found_lines(all.take(i + 1)));
        i += 1;
    }
    assert(all.take(found.len() as int) =~= all);
    assert(out@ =~= search_words(query@, all));
    out
}

// ── Laws ────────────────────────────────────────────────────────────────────

/// A tool is listed under its own name, with its own words and schema.
pub proof fn a_tool_is_listed_as_it_is(spec: SpecView)
    ensures
        on_wire(spec).name == spec.name,
        on_wire(spec).description == Some(spec.description),
        on_wire(spec).arguments == spec.input_schema,
        on_wire(spec).kind == "function"@,
        search_on_wire().kind == "function"@,
        search_on_wire().name == SEARCH_TOOL@,
{
}

/// Every tool found is told on a line of its own, in order.
pub proof fn found_tools_are_told_in_order(a: Seq<SpecView>, b: Seq<SpecView>)
    ensures
        a.len() == 1 ==> found_lines(a) == a[0].name + ": "@ + a[0].description + " — arguments: "@
            + a[0].input_schema,
        a.len() > 0 && b.len() > 0 ==> found_lines(a + b) == found_lines(a) + "\n"@ + found_lines(b),
    decreases b.len(),
{
    if a.len() > 0 && b.len() > 0 {
        assert((a + b).drop_last() =~= a + b.drop_last());
        if b.len() == 1 {
            assert(a + b.drop_last() =~= a);
        } else {
            found_tools_are_told_in_order(a, b.drop_last());
            assert(found_lines(a + b) =~= found_lines(a) + "\n"@ + found_lines(b));
        }
    }
}

} // verus!
