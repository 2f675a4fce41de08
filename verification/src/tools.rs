//! AI tool protocol: tool definitions, the tool registry, tool calls and
//! their validation against granted permissions.
use vstd::prelude::*;

use crate::keyed::{
    has_key, key_index, keyed_map, keys_unique, lemma_keyed_absent, lemma_keyed_at, lemma_keyed_insert,
    lemma_keyed_len, lemma_keyed_update,
};
use crate::text::{
    chars_of, push_str, lemma_lt_irreflexive, lemma_lt_transitive, lemma_lt_trichotomy, seq_lt, seq_lt_exec, str_eq,
};

verus! {

/// Permission required to invoke a tool.
#[derive(Debug, Clone, Copy, PartialEq, Eq, Hash, Structural)]
pub enum ToolPermission {
    /// Read scene hierarchy and component summaries.
    SceneRead,
    /// Apply typed scene write operations.
    SceneWrite,
    /// Read asset metadata.
    AssetRead,
    /// Mutate asset blobs or manifests.
    AssetWrite,
}

/// Whether a tool mutates external state.
#[derive(Debug, Clone, Copy, PartialEq, Eq, Structural)]
pub enum ToolSideEffect {
    /// Read-only query.
    ReadOnly,
    /// Produces scene write operations requiring approval.
    SceneWrite,
}

/// Metadata describing one AI-callable tool.
#[derive(Debug, Clone, PartialEq, Eq)]
pub struct ToolDefinition {
    /// Stable tool identifier.
    pub name: String,
    /// Human-readable description for model routing.
    pub description: String,
    /// Permissions required to invoke the tool, in the order they are checked.
    pub permissions: Vec<ToolPermission>,
    /// Side effect classification.
    pub side_effect: ToolSideEffect,
    /// Whether the tool supports dry-run preview.
    pub supports_preview: bool,
}

/// Mathematical content of a [`ToolDefinition`].
pub struct ToolDefinitionView {
    pub name: Seq<char>,
    pub description: Seq<char>,
    pub permissions: Seq<ToolPermission>,
    pub side_effect: ToolSideEffect,
    pub supports_preview: bool,
}

impl View for ToolDefinition {
    type V = ToolDefinitionView;

    open spec fn view(&self) -> ToolDefinitionView {
        ToolDefinitionView {
            name: self.name@,
            description: self.description@,
            permissions: self.permissions@,
            side_effect: self.side_effect,
            supports_preview: self.supports_preview,
        }
    }
}

impl ToolDefinition {
    /// Returns true when the tool only reads scene state.
    pub fn is_read_only(&self) -> (r: bool)
        ensures
            r == (self.side_effect == ToolSideEffect::ReadOnly),
    {
        match self.side_effect {
            ToolSideEffect::ReadOnly => true,
            ToolSideEffect::SceneWrite => false,
        }
    }

    /// A copy of this definition with the same content.
    pub fn duplicate(&self) -> (r: ToolDefinition)
        ensures
            r@ == self@,
    {
        let mut permissions: Vec<ToolPermission> = Vec::new();
        let mut i: usize = 0;
        while i < self.permissions.len()
            invariant
                i <= self.permissions.len(),
                permissions@ == self.permissions@.subrange(0, i as int),
            decreases self.permissions.len() - i,
        {
            permissions.push(self.permissions[i]);
            i += 1;
        }
        assert(self.permissions@.subrange(0, i as int) == self.permissions@);
        ToolDefinition {
            name: self.name.clone(),
            description: self.description.clone(),
            permissions,
            side_effect: self.side_effect,
            supports_preview: self.supports_preview,
        }
    }
}

/// Registry of AI-callable tools, kept in name order.
#[derive(Debug, PartialEq, Eq)]
pub struct ToolRegistry {
    tools: Vec<ToolDefinition>,
}

pub open spec fn definition_entries(s: Seq<ToolDefinition>) -> Seq<(Seq<char>, ToolDefinitionView)> {
    s.map_values(|d: ToolDefinition| (d.name@, d@))
}

pub open spec fn names_sorted(s: Seq<ToolDefinition>) -> bool {
    forall|i: int, j: int| 0 <= i < j < s.len() ==> seq_lt((#[trigger] s[i]).name@, (#[trigger] s[j]).name@)
}

proof fn lemma_sorted_unique(s: Seq<ToolDefinition>)
    requires
        names_sorted(s),
    ensures
        keys_unique(definition_entries(s)),
{
    let e = definition_entries(s);
    assert forall|i: int, j: int|
        0 <= i < e.len() && 0 <= j < e.len() && i != j implies (#[trigger] e[i]).0 != (#[trigger] e[j]).0 by {
        if i < j {
            assert(seq_lt(s[i].name@, s[j].name@));
            lemma_lt_irreflexive(s[i].name@);
        } else {
            assert(seq_lt(s[j].name@, s[i].name@));
            lemma_lt_irreflexive(s[j].name@);
        }
    }
}

impl ToolRegistry {
    #[verifier::type_invariant]
    spec fn sorted(self) -> bool {
        names_sorted(self.tools@)
    }

    /// Registered definitions in name order.
    pub closed spec fn definitions(self) -> Seq<ToolDefinition> {
        self.tools@
    }

    /// Registered definitions in name order, by content.
    pub closed spec fn listing(self) -> Seq<ToolDefinitionView> {
        self.tools@.map_values(|d: ToolDefinition| d@)
    }

    /// Registered tool names in name order.
    pub closed spec fn names(self) -> Seq<Seq<char>> {
        self.tools@.map_values(|d: ToolDefinition| d.name@)
    }

    /// The registry as a map from tool name to definition.
    pub closed spec fn tool_map(self) -> Map<Seq<char>, ToolDefinitionView> {
        keyed_map(definition_entries(self.tools@))
    }

    /// Create an empty registry.
    pub fn new() -> (r: Self)
        ensures
            r.tool_map() == Map::<Seq<char>, ToolDefinitionView>::empty(),
    {
        let r = ToolRegistry { tools: Vec::new() };
        assert(keyed_map(definition_entries(r.tools@)) =~= Map::<Seq<char>, ToolDefinitionView>::empty());
        r
    }

    /// Register a tool definition, replacing any tool of the same name.
    pub fn register(&mut self, tool: ToolDefinition)
        ensures
            final(self).tool_map() == old(self).tool_map().insert(tool.name@, tool@),
    {
        proof {
            use_type_invariant(&*self);
        }
        let name = chars_of(tool.name.as_str());
        let n = self.tools.len();
        let mut p: usize = 0;
        let mut done = false;
        while !done && p < n
            invariant
                n == self.tools.len(),
                name@ == tool.name@,
                p <= n,
                forall|i: int| 0 <= i < p ==> seq_lt((#[trigger] self.tools@[i]).name@, name@),
                done ==> p < n && !seq_lt(self.tools@[p as int].name@, name@),
            decreases n - p + (if done { 0int } else { 1int }),
        {
            let current = chars_of(self.tools[p].name.as_str());
            if seq_lt_exec(&current, &name) {
                p += 1;
            } else {
                done = true;
            }
        }
        let ghost old_tools = self.tools@;
        proof {
            lemma_sorted_unique(old_tools);
        }
        let mut tools: Vec<ToolDefinition> = Vec::new();
        std::mem::swap(&mut tools, &mut self.tools);
        if p < n && str_eq(tools[p].name.as_str(), tool.name.as_str()) {
            proof {
                assert(definition_entries(old_tools.update(p as int, tool)) == definition_entries(
                    old_tools,
                ).update(p as int, (definition_entries(old_tools)[p as int].0, tool@)));
                lemma_keyed_update(definition_entries(old_tools), p as int, tool@);
            }
            tools.set(p, tool);
            proof {
                assert(names_sorted(tools@)) by {
                    assert forall|i: int, j: int| 0 <= i < j < tools@.len() implies seq_lt(
                        (#[trigger] tools@[i]).name@,
                        (#[trigger] tools@[j]).name@,
                    ) by {
                        assert(seq_lt(old_tools[i].name@, old_tools[j].name@));
                    }
                }
            }
        } else {
            proof {
                // Every name at or after `p` is above the new name.
                assert forall|j: int| p <= j < n implies seq_lt(name@, (#[trigger] old_tools[j]).name@) by {
                    lemma_lt_trichotomy(old_tools[p as int].name@, name@);
                    if j > p {
                        lemma_lt_transitive(name@, old_tools[p as int].name@, old_tools[j].name@);
                    }
                }
                assert forall|j: int| 0 <= j < n implies (#[trigger] definition_entries(old_tools)[j]).0 != name@ by {
                    if j < p {
                        lemma_lt_irreflexive(name@);
                    } else {
                        lemma_lt_irreflexive(name@);
                    }
                }
                assert(definition_entries(old_tools.insert(p as int, tool)) == definition_entries(
                    old_tools,
                ).insert(p as int, (tool.name@, tool@)));
                lemma_keyed_insert(definition_entries(old_tools), p as int, (tool.name@, tool@));
            }
            tools.insert(p, tool);
            proof {
                assert(names_sorted(tools@)) by {
                    assert forall|i: int, j: int| 0 <= i < j < tools@.len() implies seq_lt(
                        (#[trigger] tools@[i]).name@,
                        (#[trigger] tools@[j]).name@,
                    ) by {
                        if i < p && j < p {
                            assert(seq_lt(old_tools[i].name@, old_tools[j].name@));
                        } else if i < p && j == p {
                        } else if i < p {
                            lemma_lt_transitive(old_tools[i].name@, name@, old_tools[j - 1].name@);
                        } else if i == p {
                        } else {
                            assert(seq_lt(old_tools[i - 1].name@, old_tools[j - 1].name@));
                        }
                    }
                }
            }
        }
        self.tools = tools;
    }

    /// Lookup a tool by name.
    pub fn get(&self, name: &str) -> (r: Option<&ToolDefinition>)
        ensures
            match r {
                Some(d) => self.tool_map().contains_key(name@) && d@ == self.tool_map()[name@],
                None => !self.tool_map().contains_key(name@),
            },
    {
        proof {
            use_type_invariant(self);
            lemma_sorted_unique(self.tools@);
        }
        let mut i: usize = 0;
        while i < self.tools.len()
            invariant
                i <= self.tools.len(),
                keys_unique(definition_entries(self.tools@)),
                forall|j: int| 0 <= j < i ==> (#[trigger] self.tools@[j]).name@ != name@,
            decreases self.tools.len() - i,
        {
            if str_eq(self.tools[i].name.as_str(), name) {
                proof {
                    lemma_keyed_at(definition_entries(self.tools@), i as int);
                }
                return Some(&self.tools[i]);
            }
            i += 1;
        }
        proof {
            lemma_keyed_absent(definition_entries(self.tools@), name@);
        }
        None
    }

    /// Registered tools in name order.
    pub fn tools(&self) -> (r: Vec<ToolDefinition>)
        ensures
            r.len() == self.definitions().len(),
            r@.map_values(|d: ToolDefinition| d@) == self.listing(),
            forall|i: int| 0 <= i < r.len() ==> (#[trigger] r@[i])@ == self.definitions()[i]@,
            forall|i: int|
                0 <= i < r.len() ==> #[trigger] self.tool_map().contains_key(r@[i].name@)
                    && self.tool_map()[r@[i].name@] == r@[i]@,
            forall|k: Seq<char>|
                self.tool_map().contains_key(k) ==> exists|i: int|
                    0 <= i < r.len() && (#[trigger] r@[i]).name@ == k,
            names_sorted(r@),
    {
        proof {
            use_type_invariant(self);
            lemma_sorted_unique(self.tools@);
        }
        let mut r: Vec<ToolDefinition> = Vec::new();
        let mut i: usize = 0;
        while i < self.tools.len()
            invariant
                i <= self.tools.len(),
                r.len() == i,
                forall|j: int| 0 <= j < i ==> (#[trigger] r@[j])@ == self.tools@[j]@,
            decreases self.tools.len() - i,
        {
            r.push(self.tools[i].duplicate());
            i += 1;
        }
        proof {
            assert forall|i: int| 0 <= i < r.len() implies #[trigger] self.tool_map().contains_key(r@[i].name@)
                && self.tool_map()[r@[i].name@] == r@[i]@ by {
                lemma_keyed_at(definition_entries(self.tools@), i);
            }
            assert forall|k: Seq<char>| self.tool_map().contains_key(k) implies exists|i: int|
                0 <= i < r.len() && (#[trigger] r@[i]).name@ == k by {
                let j = choose|j: int| 0 <= j < definition_entries(self.tools@).len() && (#[trigger] definition_entries(self.tools@)[j]).0 == k;
                assert(r@[j].name@ == k);
            }
            assert(r@.map_values(|d: ToolDefinition| d@) =~= self.listing());
            assert(names_sorted(r@)) by {
                assert forall|i: int, j: int| 0 <= i < j < r@.len() implies seq_lt(
                    (#[trigger] r@[i]).name@,
                    (#[trigger] r@[j]).name@,
                ) by {
                    assert(seq_lt(self.tools@[i].name@, self.tools@[j].name@));
                }
            }
        }
        r
    }

    /// Tool names in name order.
    pub fn tool_names(&self) -> (r: Vec<String>)
        ensures
            r.len() == self.definitions().len(),
            r.len() == self.tool_map().dom().len(),
            self.tool_map().dom().finite(),
            r@.map_values(|s: String| s@) == self.names(),
            forall|i: int|
                0 <= i < r.len() ==> #[trigger] self.tool_map().contains_key(r@[i]@),
            forall|k: Seq<char>|
                self.tool_map().contains_key(k) ==> exists|i: int|
                    0 <= i < r.len() && (#[trigger] r@[i])@ == k,
            forall|i: int, j: int| 0 <= i < j < r.len() ==> seq_lt((#[trigger] r@[i])@, (#[trigger] r@[j])@),
    {
        proof {
            use_type_invariant(self);
            lemma_sorted_unique(self.tools@);
        }
        let mut r: Vec<String> = Vec::new();
        let mut i: usize = 0;
        while i < self.tools.len()
            invariant
                i <= self.tools.len(),
                r.len() == i,
                forall|j: int| 0 <= j < i ==> (#[trigger] r@[j])@ == self.tools@[j].name@,
            decreases self.tools.len() - i,
        {
            r.push(self.tools[i].name.clone());
            i += 1;
        }
        proof {
            assert forall|i: int| 0 <= i < r.len() implies #[trigger] self.tool_map().contains_key(r@[i]@) by {
                lemma_keyed_at(definition_entries(self.tools@), i);
            }
            assert forall|k: Seq<char>| self.tool_map().contains_key(k) implies exists|i: int|
                0 <= i < r.len() && (#[trigger] r@[i])@ == k by {
                let j = choose|j: int| 0 <= j < definition_entries(self.tools@).len() && (#[trigger] definition_entries(self.tools@)[j]).0 == k;
                assert(r@[j]@ == k);
            }
            assert forall|i: int, j: int| 0 <= i < j < r.len() implies seq_lt((#[trigger] r@[i])@, (#[trigger] r@[j])@) by {
                assert(seq_lt(self.tools@[i].name@, self.tools@[j].name@));
            }
            assert(r@.map_values(|s: String| s@) =~= self.names());
            lemma_keyed_len(definition_entries(self.tools@));
        }
        r
    }
}

/// [`ToolRegistry::register`] lists one more name in
/// [`ToolRegistry::tool_names`] when the name is new, and as many when it
/// replaces a definition of that name.
pub proof fn law_register_count(before: Map<Seq<char>, ToolDefinitionView>, tool: ToolDefinitionView)
    requires
        before.dom().finite(),
    ensures
        before.insert(tool.name, tool).dom().finite(),
        before.insert(tool.name, tool).dom().len() == before.dom().len() + if before.contains_key(tool.name) {
            0int
        } else {
            1int
        },
{
    assert(before.insert(tool.name, tool).dom() =~= before.dom().insert(tool.name));
}

/// [`ToolRegistry::tools`] and [`ToolRegistry::tool_names`] list the same
/// tools: the names, in order, are those of the listed definitions.
pub proof fn law_names_follow_tools(registry: ToolRegistry)
    ensures
        registry.names() == registry.listing().map_values(|d: ToolDefinitionView| d.name),
{
    assert(registry.names() =~= registry.listing().map_values(|d: ToolDefinitionView| d.name));
}

/// The built-in tool set, in registration order.
pub open spec fn builtin_views() -> Seq<ToolDefinitionView> {
    seq![
        ToolDefinitionView {
            name: "scene.list_entities"@,
            description: "List entity ids and names in the scene."@,
            permissions: seq![ToolPermission::SceneRead],
            side_effect: ToolSideEffect::ReadOnly,
            supports_preview: false,
        },
        ToolDefinitionView {
            name: "scene.inspect_selection"@,
            description: "Summarize currently selected entities."@,
            permissions: seq![ToolPermission::SceneRead],
            side_effect: ToolSideEffect::ReadOnly,
            supports_preview: false,
        },
        ToolDefinitionView {
            name: "scene.summarize"@,
            description: "Return a compact scene overview."@,
            permissions: seq![ToolPermission::SceneRead],
            side_effect: ToolSideEffect::ReadOnly,
            supports_preview: false,
        },
        ToolDefinitionView {
            name: "scene.translate_selection"@,
            description: "Translate selected entities by a delta vector."@,
            permissions: seq![ToolPermission::SceneRead, ToolPermission::SceneWrite],
            side_effect: ToolSideEffect::SceneWrite,
            supports_preview: true,
        },
        ToolDefinitionView {
            name: "scene.set_entity_name"@,
            description: "Rename one entity."@,
            permissions: seq![ToolPermission::SceneRead, ToolPermission::SceneWrite],
            side_effect: ToolSideEffect::SceneWrite,
            supports_preview: true,
        },
        ToolDefinitionView {
            name: "scene.create_entity"@,
            description: "Create a named empty entity at the origin."@,
            permissions: seq![ToolPermission::SceneWrite],
            side_effect: ToolSideEffect::SceneWrite,
            supports_preview: true,
        },
    ]
}

/// The map obtained by registering the definitions of `s` in order.
pub open spec fn registered(s: Seq<ToolDefinitionView>) -> Map<Seq<char>, ToolDefinitionView>
    decreases s.len(),
{
    if s.len() == 0 {
        Map::empty()
    } else {
        registered(s.drop_last()).insert(s.last().name, s.last())
    }
}

/// The registry content of [`ToolRegistry::builtins`].
pub open spec fn builtin_map() -> Map<Seq<char>, ToolDefinitionView> {
    registered(builtin_views())
}

fn definition(
    name: &str,
    description: &str,
    permissions: Vec<ToolPermission>,
    side_effect: ToolSideEffect,
    supports_preview: bool,
) -> (r: ToolDefinition)
    ensures
        r@ == (ToolDefinitionView {
            name: name@,
            description: description@,
            permissions: permissions@,
            side_effect,
            supports_preview,
        }),
{
    ToolDefinition {
        name: name.to_owned(),
        description: description.to_owned(),
        permissions,
        side_effect,
        supports_preview,
    }
}

/// The built-in tool set.
pub fn builtin_tools() -> (r: Vec<ToolDefinition>)
    ensures
        r.len() == builtin_views().len(),
        forall|i: int| 0 <= i < r.len() ==> (#[trigger] r@[i])@ == builtin_views()[i],
{
    let p0 = vec![ToolPermission::SceneRead];
    assert(p0@ == builtin_views()[0].permissions);
    let d0 = definition("scene.list_entities", "List entity ids and names in the scene.", p0, ToolSideEffect::ReadOnly, false);
    assert(d0@ == builtin_views()[0]);
    let p1 = vec![ToolPermission::SceneRead];
    assert(p1@ == builtin_views()[1].permissions);
    let d1 = definition("scene.inspect_selection", "Summarize currently selected entities.", p1, ToolSideEffect::ReadOnly, false);
    assert(d1@ == builtin_views()[1]);
    let p2 = vec![ToolPermission::SceneRead];
    assert(p2@ == builtin_views()[2].permissions);
    let d2 = definition("scene.summarize", "Return a compact scene overview.", p2, ToolSideEffect::ReadOnly, false);
    assert(d2@ == builtin_views()[2]);
    let p3 = vec![ToolPermission::SceneRead, ToolPermission::SceneWrite];
    assert(p3@ == builtin_views()[3].permissions);
    let d3 = definition("scene.translate_selection", "Translate selected entities by a delta vector.", p3, ToolSideEffect::SceneWrite, true);
    assert(d3@ == builtin_views()[3]);
    let p4 = vec![ToolPermission::SceneRead, ToolPermission::SceneWrite];
    assert(p4@ == builtin_views()[4].permissions);
    let d4 = definition("scene.set_entity_name", "Rename one entity.", p4, ToolSideEffect::SceneWrite, true);
    assert(d4@ == builtin_views()[4]);
    let p5 = vec![ToolPermission::SceneWrite];
    assert(p5@ == builtin_views()[5].permissions);
    let d5 = definition("scene.create_entity", "Create a named empty entity at the origin.", p5, ToolSideEffect::SceneWrite, true);
    assert(d5@ == builtin_views()[5]);
    let r = vec![d0, d1, d2, d3, d4, d5];
    r
}

impl ToolRegistry {
    /// Register the built-in tool set.
    pub fn builtins() -> (r: Self)
        ensures
            r.tool_map() == builtin_map(),
    {
        let mut registry = Self::new();
        let tools = builtin_tools();
        let mut i: usize = 0;
        while i < tools.len()
            invariant
                i <= tools.len(),
                tools.len() == builtin_views().len(),
                forall|j: int| 0 <= j < tools.len() ==> (#[trigger] tools@[j])@ == builtin_views()[j],
                registry.tool_map() == registered(builtin_views().take(i as int)),
            decreases tools.len() - i,
        {
            registry.register(tools[i].duplicate());
            assert(builtin_views().take(i + 1).drop_last() == builtin_views().take(i as int));
            i += 1;
        }
        assert(builtin_views().take(i as int) == builtin_views());
        registry
    }
}

/// A JSON argument value as the tool protocol reads it: numbers are kept as
/// the bit pattern of their `f64` value.
#[derive(Debug, Clone, PartialEq)]
pub enum ArgValue {
    /// A JSON number, as the bits of its `f64` value.
    Number(u64),
    /// A JSON string.
    Text(String),
    /// Any other JSON value (null, boolean, array, object).
    Other,
}

/// Mathematical content of an [`ArgValue`].
pub enum ArgModel {
    Number(u64),
    Text(Seq<char>),
    Other,
}

impl View for ArgValue {
    type V = ArgModel;

    open spec fn view(&self) -> ArgModel {
        match self {
            ArgValue::Number(bits) => ArgModel::Number(*bits),
            ArgValue::Text(s) => ArgModel::Text(s@),
            ArgValue::Other => ArgModel::Other,
        }
    }
}

impl ArgValue {
    /// A copy of this value with the same content.
    pub fn duplicate(&self) -> (r: ArgValue)
        ensures
            r@ == self@,
    {
        match self {
            ArgValue::Number(bits) => ArgValue::Number(*bits),
            ArgValue::Text(s) => ArgValue::Text(s.clone()),
            ArgValue::Other => ArgValue::Other,
        }
    }
}

/// The argument object of a tool call: each key at most once.
#[derive(Debug, PartialEq)]
pub struct ToolArguments {
    entries: Vec<(String, ArgValue)>,
}

pub open spec fn argument_entries(s: Seq<(String, ArgValue)>) -> Seq<(Seq<char>, ArgModel)> {
    s.map_values(|e: (String, ArgValue)| (e.0@, e.1@))
}

/// The number stored under `key`, if the value there is a number.
pub open spec fn arg_number(args: Map<Seq<char>, ArgModel>, key: Seq<char>) -> Option<u64> {
    if args.contains_key(key) {
        match args[key] {
            ArgModel::Number(bits) => Some(bits),
            _ => None,
        }
    } else {
        None
    }
}

/// The string stored under `key`, if the value there is a string.
pub open spec fn arg_text(args: Map<Seq<char>, ArgModel>, key: Seq<char>) -> Option<Seq<char>> {
    if args.contains_key(key) {
        match args[key] {
            ArgModel::Text(s) => Some(s),
            _ => None,
        }
    } else {
        None
    }
}

impl ToolArguments {
    #[verifier::type_invariant]
    spec fn unique_keys(self) -> bool {
        keys_unique(argument_entries(self.entries@))
    }

    /// The arguments as a map from key to value.
    pub closed spec fn arg_map(self) -> Map<Seq<char>, ArgModel> {
        keyed_map(argument_entries(self.entries@))
    }

    /// An empty argument object.
    pub fn new() -> (r: Self)
        ensures
            r.arg_map() == Map::<Seq<char>, ArgModel>::empty(),
    {
        let r = ToolArguments { entries: Vec::new() };
        assert(keyed_map(argument_entries(r.entries@)) =~= Map::<Seq<char>, ArgModel>::empty());
        r
    }

    /// Store `value` under `key`, replacing an earlier value of that key.
    pub fn set(&mut self, key: &str, value: ArgValue)
        ensures
            final(self).arg_map() == old(self).arg_map().insert(key@, value@),
    {
        proof {
            use_type_invariant(&*self);
        }
        let mut entries: Vec<(String, ArgValue)> = Vec::new();
        std::mem::swap(&mut entries, &mut self.entries);
        let ghost old_entries = entries@;
        let mut i: usize = 0;
        while i < entries.len()
            invariant
                i <= entries.len(),
                entries@ == old_entries,
                keys_unique(argument_entries(old_entries)),
                old(self).arg_map() == keyed_map(argument_entries(old_entries)),
                forall|j: int| 0 <= j < i ==> (#[trigger] entries@[j]).0@ != key@,
            decreases entries.len() - i,
        {
            if str_eq(entries[i].0.as_str(), key) {
                let k = entries[i].0.clone();
                proof {
                    assert(argument_entries(old_entries.update(i as int, (k, value))) =~= argument_entries(
                        old_entries,
                    ).update(i as int, (argument_entries(old_entries)[i as int].0, value@)));
                    lemma_keyed_update(argument_entries(old_entries), i as int, value@);
                }
                entries.set(i, (k, value));
                self.entries = entries;
                return;
            }
            i += 1;
        }
        let k = key.to_owned();
        proof {
            assert(!has_key(argument_entries(old_entries), key@));
            assert(argument_entries(old_entries.push((k, value))) =~= argument_entries(old_entries).insert(
                old_entries.len() as int,
                (key@, value@),
            ));
            lemma_keyed_insert(
                argument_entries(old_entries),
                old_entries.len() as int,
                (key@, value@),
            );
        }
        entries.push((k, value));
        self.entries = entries;
    }

    /// The value stored under `key`.
    pub fn get(&self, key: &str) -> (r: Option<&ArgValue>)
        ensures
            match r {
                Some(v) => self.arg_map().contains_key(key@) && v@ == self.arg_map()[key@],
                None => !self.arg_map().contains_key(key@),
            },
    {
        proof {
            use_type_invariant(self);
        }
        let mut i: usize = 0;
        while i < self.entries.len()
            invariant
                i <= self.entries.len(),
                keys_unique(argument_entries(self.entries@)),
                forall|j: int| 0 <= j < i ==> (#[trigger] self.entries@[j]).0@ != key@,
            decreases self.entries.len() - i,
        {
            if str_eq(self.entries[i].0.as_str(), key) {
                proof {
                    lemma_keyed_at(argument_entries(self.entries@), i as int);
                }
                return Some(&self.entries[i].1);
            }
            i += 1;
        }
        proof {
            lemma_keyed_absent(argument_entries(self.entries@), key@);
        }
        None
    }

    /// The number under `key` (`value.get(key).and_then(as_f64)`), as `f64` bits.
    pub fn number(&self, key: &str) -> (r: Option<u64>)
        ensures
            r == arg_number(self.arg_map(), key@),
    {
        match self.get(key) {
            Some(ArgValue::Number(bits)) => Some(*bits),
            _ => None,
        }
    }

    /// The string under `key` (`value.get(key).and_then(as_str)`).
    pub fn text(&self, key: &str) -> (r: Option<&String>)
        ensures
            match r {
                Some(s) => arg_text(self.arg_map(), key@) == Some(s@),
                None => arg_text(self.arg_map(), key@) is None,
            },
    {
        match self.get(key) {
            Some(ArgValue::Text(s)) => Some(s),
            _ => None,
        }
    }

    /// A copy of these arguments with the same content.
    pub fn duplicate(&self) -> (r: Self)
        ensures
            r.arg_map() == self.arg_map(),
    {
        proof {
            use_type_invariant(self);
        }
        let mut entries: Vec<(String, ArgValue)> = Vec::new();
        let mut i: usize = 0;
        while i < self.entries.len()
            invariant
                i <= self.entries.len(),
                argument_entries(entries@) == argument_entries(self.entries@).take(i as int),
            decreases self.entries.len() - i,
        {
            let k = self.entries[i].0.clone();
            let v = self.entries[i].1.duplicate();
            let ghost before = entries@;
            entries.push((k, v));
            proof {
                let all = argument_entries(self.entries@);
                assert(argument_entries(entries@) =~= argument_entries(before).push((k@, v@)));
                assert(all[i as int] == (self.entries@[i as int].0@, self.entries@[i as int].1@));
                assert(all.take(i + 1) =~= all.take(i as int).push(all[i as int]));
            }
            i += 1;
        }
        assert(argument_entries(self.entries@).take(i as int) == argument_entries(self.entries@));
        ToolArguments { entries }
    }

    /// Keys and values in insertion order.
    pub fn entries(&self) -> (r: &Vec<(String, ArgValue)>)
        ensures
            keyed_map(argument_entries(r@)) == self.arg_map(),
            keys_unique(argument_entries(r@)),
    {
        proof {
            use_type_invariant(self);
        }
        &self.entries
    }
}

/// One AI tool invocation with its arguments.
#[derive(Debug, PartialEq)]
pub struct ToolCall {
    /// Registered tool name.
    pub tool: String,
    /// Tool-specific arguments.
    pub arguments: ToolArguments,
}

impl ToolCall {
    /// Create a tool call with empty object arguments.
    pub fn new(tool: &str) -> (r: Self)
        ensures
            r.tool@ == tool@,
            r.arguments.arg_map() == Map::<Seq<char>, ArgModel>::empty(),
    {
        ToolCall { tool: tool.to_owned(), arguments: ToolArguments::new() }
    }

    /// A copy of this call with the same tool and arguments.
    pub fn duplicate(&self) -> (r: Self)
        ensures
            r.tool@ == self.tool@,
            r.arguments.arg_map() == self.arguments.arg_map(),
    {
        ToolCall { tool: self.tool.clone(), arguments: self.arguments.duplicate() }
    }

    /// Create a tool call with the given arguments.
    pub fn with_arguments(tool: &str, arguments: ToolArguments) -> (r: Self)
        ensures
            r.tool@ == tool@,
            r.arguments == arguments,
    {
        ToolCall { tool: tool.to_owned(), arguments }
    }
}

/// Errors raised while validating or dispatching AI tool calls.
#[derive(Debug, Clone, PartialEq, Eq)]
pub enum ToolProtocolError {
    /// The requested tool is not registered.
    UnknownTool(String),
    /// The caller lacks a required permission.
    MissingPermission(ToolPermission),
    /// Tool arguments failed validation.
    InvalidArguments {
        /// Tool name.
        tool: String,
        /// Validation message.
        message: String,
    },
}

/// Mathematical content of a [`ToolProtocolError`].
pub enum ProtocolErrorModel {
    UnknownTool(Seq<char>),
    MissingPermission(ToolPermission),
    InvalidArguments { tool: Seq<char>, message: Seq<char> },
}

impl View for ToolProtocolError {
    type V = ProtocolErrorModel;

    open spec fn view(&self) -> ProtocolErrorModel {
        match self {
            ToolProtocolError::UnknownTool(t) => ProtocolErrorModel::UnknownTool(t@),
            ToolProtocolError::MissingPermission(p) => ProtocolErrorModel::MissingPermission(*p),
            ToolProtocolError::InvalidArguments { tool, message } => ProtocolErrorModel::InvalidArguments {
                tool: tool@,
                message: message@,
            },
        }
    }
}

impl ToolProtocolError {
    /// The error as display text.
    pub fn message(&self) -> (r: String)
        ensures
            r@ == protocol_error_text(self@),
    {
        match self {
            ToolProtocolError::UnknownTool(tool) => {
                let mut r = "unknown tool: ".to_owned();
                push_str(&mut r, tool.as_str());
                r
            },
            ToolProtocolError::MissingPermission(p) => {
                let mut r = "missing permission: ".to_owned();
                push_str(&mut r, permission_name(*p));
                r
            },
            ToolProtocolError::InvalidArguments { tool, message } => {
                let mut r = "invalid arguments for ".to_owned();
                push_str(&mut r, tool.as_str());
                push_str(&mut r, ": ");
                push_str(&mut r, message.as_str());
                r
            },
        }
    }
}

/// Debug name of a permission.
pub fn permission_name(p: ToolPermission) -> (r: &'static str)
    ensures
        r@ == permission_text(p),
{
    match p {
        ToolPermission::SceneRead => "SceneRead",
        ToolPermission::SceneWrite => "SceneWrite",
        ToolPermission::AssetRead => "AssetRead",
        ToolPermission::AssetWrite => "AssetWrite",
    }
}

pub open spec fn permission_text(p: ToolPermission) -> Seq<char> {
    match p {
        ToolPermission::SceneRead => "SceneRead"@,
        ToolPermission::SceneWrite => "SceneWrite"@,
        ToolPermission::AssetRead => "AssetRead"@,
        ToolPermission::AssetWrite => "AssetWrite"@,
    }
}

pub open spec fn protocol_error_text(e: ProtocolErrorModel) -> Seq<char> {
    match e {
        ProtocolErrorModel::UnknownTool(t) => "unknown tool: "@ + t,
        ProtocolErrorModel::MissingPermission(p) => "missing permission: "@ + permission_text(p),
        ProtocolErrorModel::InvalidArguments { tool, message } => "invalid arguments for "@ + tool
            + ": "@ + message,
    }
}

/// The first required permission that is not granted.
pub open spec fn first_missing(required: Seq<ToolPermission>, granted: Seq<ToolPermission>) -> Option<
    ToolPermission,
>
    decreases required.len(),
{
    if required.len() == 0 {
        None
    } else if !granted.contains(required[0]) {
        Some(required[0])
    } else {
        first_missing(required.drop_first(), granted)
    }
}

/// Outcome of the per-tool argument check.
pub open spec fn arguments_outcome(tool: Seq<char>, args: Map<Seq<char>, ArgModel>) -> Result<
    (),
    ProtocolErrorModel,
> {
    if tool == "scene.translate_selection"@ {
        if arg_number(args, "x"@) is Some && arg_number(args, "y"@) is Some && arg_number(args, "z"@) is Some {
            Ok(())
        } else {
            Err(ProtocolErrorModel::InvalidArguments { tool, message: "expected numeric x, y, z fields"@ })
        }
    } else if tool == "scene.set_entity_name"@ {
        if arg_text(args, "entity_id"@) is Some && arg_text(args, "name"@) is Some {
            Ok(())
        } else {
            Err(ProtocolErrorModel::InvalidArguments { tool, message: "expected entity_id and name strings"@ })
        }
    } else if tool == "scene.create_entity"@ {
        if arg_text(args, "name"@) is Some {
            Ok(())
        } else {
            Err(ProtocolErrorModel::InvalidArguments { tool, message: "expected name string"@ })
        }
    } else if tool == "scene.list_entities"@ || tool == "scene.inspect_selection"@ || tool
        == "scene.summarize"@ {
        Ok(())
    } else {
        Err(ProtocolErrorModel::UnknownTool(tool))
    }
}

/// Outcome of validating a call of `tool` with `args` when `granted` is held.
pub open spec fn validation_outcome(
    registry: Map<Seq<char>, ToolDefinitionView>,
    tool: Seq<char>,
    args: Map<Seq<char>, ArgModel>,
    granted: Seq<ToolPermission>,
) -> Result<(), ProtocolErrorModel> {
    if !registry.contains_key(tool) {
        Err(ProtocolErrorModel::UnknownTool(tool))
    } else {
        match first_missing(registry[tool].permissions, granted) {
            Some(p) => Err(ProtocolErrorModel::MissingPermission(p)),
            None => arguments_outcome(tool, args),
        }
    }
}

pub open spec fn outcome_of(r: Result<(), ToolProtocolError>) -> Result<(), ProtocolErrorModel> {
    match r {
        Ok(()) => Ok(()),
        Err(e) => Err(e@),
    }
}

fn permission_granted(granted: &[ToolPermission], p: ToolPermission) -> (r: bool)
    ensures
        r == granted@.contains(p),
{
    let mut i: usize = 0;
    while i < granted.len()
        invariant
            i <= granted.len(),
            forall|j: int| 0 <= j < i ==> granted@[j] != p,
        decreases granted.len() - i,
    {
        if granted[i] == p {
            return true;
        }
        i += 1;
    }
    false
}

/// Validate a tool call against the registry and granted permissions.
pub fn validate_tool_call(registry: &ToolRegistry, call: &ToolCall, granted: &[ToolPermission]) -> (r:
    Result<(), ToolProtocolError>)
    ensures
        outcome_of(r) == validation_outcome(
            registry.tool_map(),
            call.tool@,
            call.arguments.arg_map(),
            granted@,
        ),
{
    let definition = match registry.get(call.tool.as_str()) {
        Some(d) => d,
        None => {
            return Err(ToolProtocolError::UnknownTool(call.tool.clone()));
        },
    };
    let ghost required = definition.permissions@;
    assert(required.skip(0) == required);
    let mut i: usize = 0;
    while i < definition.permissions.len()
        invariant
            i <= definition.permissions.len(),
            required == definition.permissions@,
            registry.tool_map().contains_key(call.tool@),
            registry.tool_map()[call.tool@].permissions == required,
            first_missing(required, granted@) == first_missing(required.skip(i as int), granted@),
        decreases definition.permissions.len() - i,
    {
        let p = definition.permissions[i];
        assert(required.skip(i as int).drop_first() == required.skip(i + 1));
        assert(required.skip(i as int)[0] == p);
        if !permission_granted(granted, p) {
            return Err(ToolProtocolError::MissingPermission(p));
        }
        i += 1;
    }
    assert(required.skip(i as int).len() == 0);
    validate_arguments(call)
}

fn invalid(tool: &String, message: &str) -> (r: ToolProtocolError)
    ensures
        r@ == (ProtocolErrorModel::InvalidArguments { tool: tool@, message: message@ }),
{
    ToolProtocolError::InvalidArguments { tool: tool.clone(), message: message.to_owned() }
}

fn validate_arguments(call: &ToolCall) -> (r: Result<(), ToolProtocolError>)
    ensures
        outcome_of(r) == arguments_outcome(call.tool@, call.arguments.arg_map()),
{
    let tool = call.tool.as_str();
    if str_eq(tool, "scene.translate_selection") {
        let x = call.arguments.number("x");
        let y = call.arguments.number("y");
        let z = call.arguments.number("z");
        if x.is_none() || y.is_none() || z.is_none() {
            return Err(invalid(&call.tool, "expected numeric x, y, z fields"));
        }
    } else if str_eq(tool, "scene.set_entity_name") {
        let entity_id = call.arguments.text("entity_id");
        let name = call.arguments.text("name");
        if entity_id.is_none() || name.is_none() {
            return Err(invalid(&call.tool, "expected entity_id and name strings"));
        }
    } else if str_eq(tool, "scene.create_entity") {
        let name = call.arguments.text("name");
        if name.is_none() {
            return Err(invalid(&call.tool, "expected name string"));
        }
    } else if str_eq(tool, "scene.list_entities") || str_eq(tool, "scene.inspect_selection")
        || str_eq(tool, "scene.summarize") {
    } else {
        return Err(ToolProtocolError::UnknownTool(call.tool.clone()));
    }
    Ok(())
}


/// What [`ToolRegistry::get`] returns after [`ToolRegistry::register`]: the
/// registered tool under its name, and for any other name what was there
/// before.
pub proof fn law_register_then_get(
    before: Map<Seq<char>, ToolDefinitionView>,
    tool: ToolDefinitionView,
    other: Seq<char>,
)
    ensures
        before.insert(tool.name, tool).contains_key(tool.name),
        before.insert(tool.name, tool)[tool.name] == tool,
        other != tool.name ==> (before.insert(tool.name, tool).contains_key(other)
            == before.contains_key(other)),
        other != tool.name && before.contains_key(other) ==> before.insert(tool.name, tool)[other]
            == before[other],
{
}

/// A translation call that holds its permissions is accepted exactly when
/// each of `x`, `y` and `z` is a number; when any one is missing or not a
/// number it is refused as invalid arguments with the shape it expects.
pub proof fn law_translate_needs_all_axes(
    registry: Map<Seq<char>, ToolDefinitionView>,
    args: Map<Seq<char>, ArgModel>,
    granted: Seq<ToolPermission>,
)
    requires
        registry.contains_key("scene.translate_selection"@),
        first_missing(registry["scene.translate_selection"@].permissions, granted) is None,
    ensures
        validation_outcome(registry, "scene.translate_selection"@, args, granted) is Ok <==> {
            &&& args.contains_key("x"@) && args["x"@] is Number
            &&& args.contains_key("y"@) && args["y"@] is Number
            &&& args.contains_key("z"@) && args["z"@] is Number
        },
        !(args.contains_key("x"@) && args["x"@] is Number) || !(args.contains_key("y"@) && args["y"@] is Number)
            || !(args.contains_key("z"@) && args["z"@] is Number) ==> validation_outcome(
            registry,
            "scene.translate_selection"@,
            args,
            granted,
        ) == Err::<(), ProtocolErrorModel>(
            ProtocolErrorModel::InvalidArguments {
                tool: "scene.translate_selection"@,
                message: "expected numeric x, y, z fields"@,
            },
        ),
{
}

} // verus!
