//! Tools as data: what the model is told it may call.
use vstd::prelude::*;
use crate::json::{alike, Json};
use crate::message::{copy_text, same_option};
use crate::seqs::{first_at, first_at_index, first_at_is_first, group_views, view_of, views};
use crate::text::same_text;

verus! {

broadcast use group_views;

/// One tool the model is offered.
#[derive(Debug, PartialEq, Eq)]
pub struct ToolDefinition {
    pub name: String,
    pub description: Option<String>,
    /// The schema of the arguments, where one was given.
    pub input: Option<Json>,
}

/// A tool definition, mathematically.
pub struct ToolView {
    pub name: Seq<char>,
    pub description: Option<Seq<char>>,
    pub input: Option<Seq<char>>,
}

impl ToolView {
    /// Whether two definitions are equal: all the same, and the schemas equal
    /// values.
    pub open spec fn alike(self, other: ToolView) -> bool {
        &&& self.name == other.name
        &&& self.description == other.description
        &&& match (self.input, other.input) {
            (Some(a), Some(b)) => alike(a, b),
            (a, b) => a == b,
        }
    }
}

/// Whether definitions are equal, one by one.
pub open spec fn tools_alike(a: Seq<ToolView>, b: Seq<ToolView>) -> bool {
    &&& a.len() == b.len()
    &&& forall|i: int| 0 <= i < a.len() ==> (#[trigger] a[i]).alike(b[i])
}

impl View for ToolDefinition {
    type V = ToolView;

    open spec fn view(&self) -> ToolView {
        ToolView {
            name: self.name@,
            description: view_of(self.description),
            input: view_of(self.input),
        }
    }
}

/// The names in a list of tools.
pub open spec fn names(tools: Seq<ToolView>) -> Seq<Seq<char>> {
    tools.map_values(|t: ToolView| t.name)
}

/// Where the tool with a name stands.
pub open spec fn named(tools: Seq<ToolView>, name: Seq<char>) -> Option<int> {
    first_at(names(tools), name)
}

/// The list with a tool added: in the place of the one with the same name,
/// else at the end.
pub open spec fn with_tool(tools: Seq<ToolView>, tool: ToolView) -> Seq<ToolView> {
    match named(tools, tool.name) {
        Some(i) => tools.update(i, tool),
        None => tools.push(tool),
    }
}

/// The list without the tool of a name.
pub open spec fn without_tool(tools: Seq<ToolView>, name: Seq<char>) -> Seq<ToolView> {
    match named(tools, name) {
        Some(i) => tools.remove(i),
        None => tools,
    }
}

/// The list with each of `more` added in turn.
pub open spec fn with_all(tools: Seq<ToolView>, more: Seq<ToolView>) -> Seq<ToolView>
    decreases more.len(),
{
    if more.len() == 0 {
        tools
    } else {
        with_tool(with_all(tools, more.drop_last()), more.last())
    }
}

/// Adding a tool keeps the names distinct.
pub proof fn with_tool_keeps_names_distinct(tools: Seq<ToolView>, tool: ToolView)
    requires
        names(tools).no_duplicates(),
    ensures
        names(with_tool(tools, tool)).no_duplicates(),
        names(with_tool(tools, tool)).contains(tool.name),
{
    let before = names(tools);
    first_at_is_first(before, tool.name);
    let after = names(with_tool(tools, tool));
    match named(tools, tool.name) {
        Some(i) => {
            assert(after =~= before);
            assert(after[i] == tool.name);
        },
        None => {
            assert(after =~= before.push(tool.name));
            assert(after[before.len() as int] == tool.name);
            assert forall|i: int, j: int|
                0 <= i < after.len() && 0 <= j < after.len() && i != j implies after[i]
                != after[j] by {
                if i == before.len() {
                    assert(before[j] != tool.name) by {
                        if before[j] == tool.name {
                            assert(before.contains(tool.name));
                        }
                    }
                } else if j == before.len() {
                    assert(before[i] != tool.name) by {
                        if before[i] == tool.name {
                            assert(before.contains(tool.name));
                        }
                    }
                } else {
                    assert(before[i] != before[j]);
                }
            }
        },
    }
}

/// Removing a tool keeps the names distinct and leaves none of that name.
pub proof fn without_tool_removes_the_name(tools: Seq<ToolView>, name: Seq<char>)
    requires
        names(tools).no_duplicates(),
    ensures
        names(without_tool(tools, name)).no_duplicates(),
        !names(without_tool(tools, name)).contains(name),
{
    let before = names(tools);
    first_at_is_first(before, name);
    match named(tools, name) {
        Some(i) => {
            let after = names(tools.remove(i));
            assert(after =~= before.remove(i));
            assert forall|k: int| 0 <= k < after.len() implies after[k] != name by {
                let at = if k < i {
                    k
                } else {
                    k + 1
                };
                assert(before[at] == after[k]);
                assert(before[at] != before[i]);
            }
            assert forall|a: int, b: int|
                0 <= a < after.len() && 0 <= b < after.len() && a != b implies after[a]
                != after[b] by {
                let x = if a < i {
                    a
                } else {
                    a + 1
                };
                let y = if b < i {
                    b
                } else {
                    b + 1
                };
                assert(before[x] != before[y]);
            }
        },
        None => {},
    }
}

impl Clone for ToolDefinition {
    fn clone(&self) -> (out: Self)
        ensures
            out@ == self@,
    {
        ToolDefinition {
            name: self.name.clone(),
            description: copy_text(&self.description),
            input: match &self.input {
                Some(schema) => Some(schema.clone()),
                None => None,
            },
        }
    }
}

impl ToolDefinition {
    /// A tool by name, with nothing said about it yet.
    pub fn new(name: &str) -> (out: Self)
        ensures
            out@ == (ToolView { name: name@, description: None, input: None }),
    {
        ToolDefinition { name: name.to_owned(), description: None, input: None }
    }

    /// What the tool does, for the model to read.
    pub fn description(self, text: &str) -> (out: Self)
        ensures
            out@ == (ToolView { description: Some(text@), ..self@ }),
    {
        let mut out = self;
        out.description = Some(text.to_owned());
        out
    }

    /// The schema of the arguments.
    pub fn input(self, schema: Json) -> (out: Self)
        ensures
            out@ == (ToolView { input: Some(schema@), ..self@ }),
    {
        let mut out = self;
        out.input = Some(schema);
        out
    }

    /// Whether two definitions are equal.
    pub fn same(&self, other: &ToolDefinition) -> (out: bool)
        ensures
            out == self@.alike(other@),
    {
        let same_input = match (&self.input, &other.input) {
            (Some(a), Some(b)) => a.same(b),
            (None, None) => true,
            _ => false,
        };
        same_text(self.name.as_str(), other.name.as_str()) && same_option(
            &self.description,
            &other.description,
        ) && same_input
    }
}

/// The tools the model is offered, in a fixed order, no name twice.
#[derive(Debug, PartialEq, Eq)]
pub struct ToolSet {
    tools: Vec<ToolDefinition>,
}

impl View for ToolSet {
    type V = Seq<ToolView>;

    closed spec fn view(&self) -> Seq<ToolView> {
        views(self.tools@)
    }
}

impl Clone for ToolSet {
    fn clone(&self) -> (out: Self)
        ensures
            out@ == self@,
    {
        let tools = self.tools.clone();
        assert(views(tools@) =~= views(self.tools@));
        ToolSet { tools }
    }
}

impl ToolSet {
    /// No tools.
    pub fn new() -> (out: Self)
        ensures
            out@ == Seq::<ToolView>::empty(),
    {
        ToolSet { tools: Vec::new() }
    }

    fn find(&self, name: &str) -> (out: Option<usize>)
        ensures
            match out {
                Some(i) => named(self@, name@) == Some(i as int) && i < self.tools.len(),
                None => named(self@, name@) is None,
            },
    {
        let mut i: usize = 0;
        while i < self.tools.len()
            invariant
                i <= self.tools.len(),
                forall|k: int| 0 <= k < i ==> (#[trigger] self.tools@[k]).name@ != name@,
            decreases self.tools.len() - i,
        {
            if same_text(self.tools[i].name.as_str(), name) {
                proof {
                    let all = names(self@);
                    assert(all[i as int] == name@);
                    assert forall|k: int| 0 <= k < i implies all.take(i as int)[k] != name@ by {
                        assert(self.tools@[k].name@ != name@);
                    }
                    first_at_index(all, name@, i as int);
                }
                return Some(i);
            }
            i += 1;
        }
        proof {
            let all = names(self@);
            first_at_is_first(all, name@);
            assert forall|k: int| 0 <= k < all.len() implies all[k] != name@ by {
                assert(self.tools@[k].name@ != name@);
            }
        }
        None
    }

    /// Adds a tool, in the place of the one with the same name if there is
    /// one.
    pub fn add(&mut self, tool: ToolDefinition)
        ensures
            final(self)@ == with_tool(old(self)@, tool@),
    {
        match self.find(tool.name.as_str()) {
            Some(i) => {
                self.tools.set(i, tool);
            },
            None => {
                self.tools.push(tool);
            },
        }
    }

    /// The set with a tool added.
    pub fn with(self, tool: ToolDefinition) -> (out: Self)
        ensures
            out@ == with_tool(self@, tool@),
    {
        let mut out = self;
        out.add(tool);
        out
    }

    /// The set with each of the given tools added in turn.
    pub fn extend(self, more: Vec<ToolDefinition>) -> (out: Self)
        ensures
            out@ == with_all(self@, views(more@)),
    {
        let mut out = self;
        let mut i: usize = 0;
        assert(views(more@).take(0) =~= Seq::empty());
        while i < more.len()
            invariant
                i <= more.len(),
                out@ == with_all(self@, views(more@).take(i as int)),
            decreases more.len() - i,
        {
            assert(views(more@).take(i + 1).drop_last() =~= views(more@).take(i as int));
            out.add(more[i].clone());
            i += 1;
        }
        assert(views(more@).take(more.len() as int) =~= views(more@));
        out
    }

    /// Takes out the tool of a name, and hands it back if it was there.
    pub fn remove(&mut self, name: &str) -> (out: Option<ToolDefinition>)
        ensures
            final(self)@ == without_tool(old(self)@, name@),
            match named(old(self)@, name@) {
                Some(i) => out matches Some(t) && t@ == old(self)@[i],
                None => out is None,
            },
    {
        match self.find(name) {
            Some(i) => Some(self.tools.remove(i)),
            None => None,
        }
    }

    /// The tool of a name.
    pub fn get(&self, name: &str) -> (out: Option<&ToolDefinition>)
        ensures
            match named(self@, name@) {
                Some(i) => out matches Some(t) && t@ == self@[i],
                None => out is None,
            },
    {
        match self.find(name) {
            Some(i) => Some(&self.tools[i]),
            None => None,
        }
    }

    /// The tools, in order.
    pub fn definitions(&self) -> (out: &[ToolDefinition])
        ensures
            views(out@) == self@,
    {
        self.tools.as_slice()
    }

    /// The names, in order.
    pub fn names(&self) -> (out: Vec<String>)
        ensures
            views(out@) == names(self@),
    {
        let mut out: Vec<String> = Vec::new();
        let mut i: usize = 0;
        while i < self.tools.len()
            invariant
                i <= self.tools.len(),
                out.len() == i,
                forall|k: int| 0 <= k < i ==> (#[trigger] out@[k])@ == self.tools@[k].name@,
            decreases self.tools.len() - i,
        {
            out.push(self.tools[i].name.clone());
            i += 1;
        }
        assert(views(out@) =~= names(self@));
        out
    }

    /// How many tools there are.
    pub fn len(&self) -> (out: usize)
        ensures
            out == self@.len(),
    {
        self.tools.len()
    }

    /// Whether there are no tools.
    pub fn is_empty(&self) -> (out: bool)
        ensures
            out == (self@.len() == 0),
    {
        self.tools.len() == 0
    }

    /// Whether two sets hold equal tools in the same order.
    pub fn same(&self, other: &ToolSet) -> (out: bool)
        ensures
            out == tools_alike(self@, other@),
    {
        if self.tools.len() != other.tools.len() {
            assert(self@.len() != other@.len());
            return false;
        }
        let mut i: usize = 0;
        while i < self.tools.len()
            invariant
                i <= self.tools.len(),
                self.tools.len() == other.tools.len(),
                forall|k: int| 0 <= k < i ==> (#[trigger] self@[k]).alike(other@[k]),
            decreases self.tools.len() - i,
        {
            if !self.tools[i].same(&other.tools[i]) {
                assert(!self@[i as int].alike(other@[i as int]));
                return false;
            }
            i += 1;
        }
        true
    }
}

/// A tool added takes the place of the first one of its name; where there is
/// none it comes last. Every other tool stands where it stood.
pub proof fn a_tool_takes_the_place_of_its_name(tools: Seq<ToolView>, tool: ToolView)
    ensures
        (forall|i: int| 0 <= i < tools.len() ==> (#[trigger] tools[i]).name != tool.name)
            ==> with_tool(tools, tool) == tools.push(tool),
        forall|k: int|
            0 <= k < tools.len() && (#[trigger] tools[k]).name == tool.name && (forall|j: int|
                0 <= j < k ==> (#[trigger] tools[j]).name != tool.name) ==> with_tool(tools, tool)
                == tools.update(k, tool),
{
    first_at_is_first(names(tools), tool.name);
    assert forall|k: int|
        0 <= k < tools.len() && (#[trigger] tools[k]).name == tool.name && (forall|j: int|
            0 <= j < k ==> (#[trigger] tools[j]).name != tool.name) implies with_tool(tools, tool)
        == tools.update(k, tool) by {
        first_at_index(names(tools), tool.name, k);
    }
}

/// Removing a name takes out the first tool of that name and no other.
pub proof fn a_name_is_taken_out_once(tools: Seq<ToolView>, name: Seq<char>)
    ensures
        (forall|i: int| 0 <= i < tools.len() ==> (#[trigger] tools[i]).name != name)
            ==> without_tool(tools, name) == tools,
        forall|k: int|
            0 <= k < tools.len() && (#[trigger] tools[k]).name == name && (forall|j: int|
                0 <= j < k ==> (#[trigger] tools[j]).name != name) ==> without_tool(tools, name)
                == tools.remove(k),
{
    first_at_is_first(names(tools), name);
    assert forall|k: int|
        0 <= k < tools.len() && (#[trigger] tools[k]).name == name && (forall|j: int|
            0 <= j < k ==> (#[trigger] tools[j]).name != name) implies without_tool(tools, name)
        == tools.remove(k) by {
        first_at_index(names(tools), name, k);
    }
}

/// Tools added together are added one after another.
pub proof fn tools_are_added_in_turn(tools: Seq<ToolView>, a: Seq<ToolView>, b: Seq<ToolView>)
    ensures
        with_all(tools, a + b) == with_all(with_all(tools, a), b),
        with_all(tools, Seq::empty()) == tools,
        a.len() == 1 ==> with_all(tools, a) == with_tool(tools, a[0]),
    decreases b.len(),
{
    if a.len() == 1 {
        assert(a.drop_last() =~= Seq::empty());
        assert(with_all(tools, a.drop_last()) == tools);
    }
    if b.len() == 0 {
        assert(a + b =~= a);
    } else {
        tools_are_added_in_turn(tools, a, b.drop_last());
        assert((a + b).drop_last() =~= a + b.drop_last());
    }
}

} // verus!
