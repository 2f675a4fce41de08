//! Copilot: the context handed to model providers, the deterministic local
//! model's reading of a prompt, and edit proposals compiled from tool calls.
//!
//! Entity ids are carried as their text form. Translation deltas are carried
//! as the bit patterns of their `f64` values; the numbers themselves (parsing
//! an amount out of a prompt, formatting it with two decimals) are computed
//! around these functions.
use vstd::prelude::*;

use crate::text::{
    chars_of, contains, contains_exec, decimal, decimal_string, join, join_strings,
    lowercase_chars, push_str, split_second, split_second_exec, starts_with, str_eq,
    string_from_chars, string_views, to_ascii_lower, trim, trim_char, trim_chars,
    trim_matches_char, trim_char_end, trim_end_char, occurs_at_exec, lemma_string_views_push, lemma_take_push,
};
use crate::tools::{
    arg_number, arg_text, builtin_map, validate_tool_call, validation_outcome, ArgModel, ArgValue,
    ProtocolErrorModel, ToolArguments, ToolCall, ToolPermission, ToolProtocolError, ToolRegistry,
};

verus! {

/// Entity counts of a scene, as the context summary reports them.
#[derive(Debug, Clone, Copy, PartialEq, Eq)]
pub struct SceneStats {
    /// Number of entities in the scene.
    pub entity_count: usize,
    /// Entities with a name.
    pub named: usize,
    /// Entities with a mesh.
    pub meshes: usize,
    /// Entities with a point cloud.
    pub point_clouds: usize,
    /// Entities with a Gaussian splat asset.
    pub gaussian_splats: usize,
}

/// Compact context delivered to model providers.
#[derive(Debug, Clone, PartialEq, Eq)]
pub struct ContextPack {
    /// Number of entities in the scene.
    pub scene_entity_count: usize,
    /// Short natural-language scene summary.
    pub scene_summary: String,
    /// Optional summary of the current selection.
    pub selection_summary: Option<String>,
    /// Selected entity ids (text form), if any.
    pub selection: Vec<String>,
    /// Tool names the agent is allowed to call.
    pub available_tools: Vec<String>,
}

/// Mathematical content of a [`ContextPack`].
pub struct ContextModel {
    pub entity_count: nat,
    pub scene_summary: Seq<char>,
    pub selection_summary: Option<Seq<char>>,
    pub selection: Seq<Seq<char>>,
    pub available_tools: Seq<Seq<char>>,
}

pub open spec fn opt_view(o: Option<String>) -> Option<Seq<char>> {
    match o {
        Some(s) => Some(s@),
        None => None,
    }
}

impl View for ContextPack {
    type V = ContextModel;

    open spec fn view(&self) -> ContextModel {
        ContextModel {
            entity_count: self.scene_entity_count as nat,
            scene_summary: self.scene_summary@,
            selection_summary: opt_view(self.selection_summary),
            selection: string_views(self.selection@),
            available_tools: string_views(self.available_tools@),
        }
    }
}

/// The scene summary line of a context pack.
pub open spec fn scene_summary_text(s: SceneStats) -> Seq<char> {
    "Scene has "@ + decimal(s.entity_count as nat) + " entities ("@ + decimal(s.named as nat)
        + " named, "@ + decimal(s.meshes as nat) + " meshes, "@ + decimal(s.point_clouds as nat)
        + " point clouds, "@ + decimal(s.gaussian_splats as nat) + " gaussian splats)."@
}

/// One part of the selection summary: the description of a selected entity
/// that exists, or a note that it is missing.
pub open spec fn selection_part(id: Seq<char>, description: Option<Seq<char>>) -> Seq<char> {
    match description {
        Some(d) => d,
        None => "missing entity "@ + id,
    }
}

pub open spec fn selection_parts(ids: Seq<Seq<char>>, descriptions: Seq<Option<Seq<char>>>) -> Seq<
    Seq<char>,
> {
    Seq::new(ids.len(), |i: int| selection_part(ids[i], descriptions[i]))
}

/// The selection summary: the count, then the parts separated by `"; "`.
pub open spec fn selection_summary_text(
    ids: Seq<Seq<char>>,
    descriptions: Seq<Option<Seq<char>>>,
) -> Seq<char> {
    "Selected "@ + decimal(ids.len()) + " entity/entities: "@ + join(
        selection_parts(ids, descriptions),
        "; "@,
    )
}

pub open spec fn opt_views(v: Seq<Option<String>>) -> Seq<Option<Seq<char>>> {
    v.map_values(|o: Option<String>| opt_view(o))
}

/// Whether `names` lists the keys of `tools` in name order, each once.
pub open spec fn lists_tools(
    names: Seq<Seq<char>>,
    tools: Map<Seq<char>, crate::tools::ToolDefinitionView>,
) -> bool {
    &&& forall|i: int| 0 <= i < names.len() ==> #[trigger] tools.contains_key(names[i])
    &&& forall|k: Seq<char>|
        tools.contains_key(k) ==> exists|i: int| 0 <= i < names.len() && #[trigger] names[i] == k
    &&& forall|i: int, j: int|
        0 <= i < j < names.len() ==> crate::text::seq_lt(#[trigger] names[i], #[trigger] names[j])
}

/// Builds compact AI context from scene state.
#[derive(Debug, Default, Clone, Copy)]
pub struct ContextBuilder;

impl ContextBuilder {
    /// Build a context pack from the scene's entity counts and the selection.
    ///
    /// `descriptions[i]` describes the entity `selection[i]` (name, id and
    /// position) when the scene holds it, and is `None` when it does not.
    pub fn build(
        stats: &SceneStats,
        selection: &Vec<String>,
        descriptions: &Vec<Option<String>>,
        registry: &ToolRegistry,
    ) -> (r: ContextPack)
        requires
            descriptions.len() == selection.len(),
        ensures
            r.scene_entity_count == stats.entity_count,
            r.scene_summary@ == scene_summary_text(*stats),
            selection.len() == 0 ==> r.selection_summary is None,
            selection.len() > 0 ==> r.selection_summary is Some && r.selection_summary->0@
                == selection_summary_text(string_views(selection@), opt_views(descriptions@)),
            string_views(r.selection@) == string_views(selection@),
            lists_tools(string_views(r.available_tools@), registry.tool_map()),
    {
        let scene_summary = scene_summary_line(stats);
        let selection_summary = if selection.len() == 0 {
            None
        } else {
            Some(format_selection(selection, descriptions))
        };
        let mut ids: Vec<String> = Vec::new();
        let mut i: usize = 0;
        while i < selection.len()
            invariant
                i <= selection.len(),
                string_views(ids@) == string_views(selection@).take(i as int),
            decreases selection.len() - i,
        {
            let ghost before = ids@;
            let id = selection[i].clone();
            ids.push(id);
            proof {
                lemma_string_views_push(before, id);
                lemma_take_push(string_views(selection@), i as int);
            }
            i += 1;
        }
        assert(string_views(selection@).take(i as int) == string_views(selection@));
        let tools = registry.tool_names();
        proof {
            let names = string_views(tools@);
            assert forall|i: int| 0 <= i < names.len() implies #[trigger] registry.tool_map().contains_key(
                names[i],
            ) by {
                assert(names[i] == tools@[i]@);
            }
            assert forall|k: Seq<char>| registry.tool_map().contains_key(k) implies exists|i: int|
                0 <= i < names.len() && #[trigger] names[i] == k by {
                let i = choose|i: int| 0 <= i < tools.len() && (#[trigger] tools@[i])@ == k;
                assert(names[i] == k);
            }
            assert forall|i: int, j: int| 0 <= i < j < names.len() implies crate::text::seq_lt(
                #[trigger] names[i],
                #[trigger] names[j],
            ) by {
                assert(crate::text::seq_lt(tools@[i]@, tools@[j]@));
            }
        }
        ContextPack {
            scene_entity_count: stats.entity_count,
            scene_summary,
            selection_summary,
            selection: ids,
            available_tools: tools,
        }
    }
}

fn push_count(s: &mut String, n: usize)
    ensures
        final(s)@ == old(s)@ + decimal(n as nat),
{
    let d = decimal_string(n as u64);
    push_str(s, d.as_str());
}

fn scene_summary_line(stats: &SceneStats) -> (r: String)
    ensures
        r@ == scene_summary_text(*stats),
{
    let mut r = "Scene has ".to_owned();
    push_count(&mut r, stats.entity_count);
    push_str(&mut r, " entities (");
    push_count(&mut r, stats.named);
    push_str(&mut r, " named, ");
    push_count(&mut r, stats.meshes);
    push_str(&mut r, " meshes, ");
    push_count(&mut r, stats.point_clouds);
    push_str(&mut r, " point clouds, ");
    push_count(&mut r, stats.gaussian_splats);
    push_str(&mut r, " gaussian splats).");
    r
}

fn format_selection(selection: &Vec<String>, descriptions: &Vec<Option<String>>) -> (r: String)
    requires
        descriptions.len() == selection.len(),
    ensures
        r@ == selection_summary_text(string_views(selection@), opt_views(descriptions@)),
{
    let mut parts: Vec<String> = Vec::new();
    let mut i: usize = 0;
    let ghost all = selection_parts(string_views(selection@), opt_views(descriptions@));
    while i < selection.len()
        invariant
            i <= selection.len(),
            descriptions.len() == selection.len(),
            all == selection_parts(string_views(selection@), opt_views(descriptions@)),
            string_views(parts@) == all.take(i as int),
        decreases selection.len() - i,
    {
        let part = match &descriptions[i] {
            Some(d) => d.clone(),
            None => {
                let mut m = "missing entity ".to_owned();
                push_str(&mut m, selection[i].as_str());
                m
            },
        };
        assert(part@ == all[i as int]);
        let ghost before = parts@;
        let ghost pv = part@;
        parts.push(part);
        proof {
            assert(string_views(parts@) =~= string_views(before).push(pv));
            lemma_take_push(all, i as int);
        }
        i += 1;
    }
    assert(all.take(i as int) == all);
    let mut r = "Selected ".to_owned();
    push_count(&mut r, selection.len());
    push_str(&mut r, " entity/entities: ");
    let joined = join_strings(&parts, "; ");
    push_str(&mut r, joined.as_str());
    r
}


/// What the deterministic local model makes of a (trimmed, lowercased) prompt.
#[derive(Debug, Clone, Copy, PartialEq, Eq)]
pub enum PromptIntent {
    /// A question about how many entities there are.
    SceneCount,
    /// A question about the selection.
    Selection,
    /// A request to list the entities.
    ListEntities,
    /// A request to move the selection.
    Translate,
    /// A request to rename the selected entity.
    Rename,
    /// A request to create an entity.
    Create,
    /// Anything else: the local model answers with what it can do.
    Help,
}

/// The intent of a lowercased prompt: the first matching rule wins.
pub open spec fn prompt_intent(lower: Seq<char>) -> PromptIntent {
    if contains(lower, "how many"@) || contains(lower, "count"@) {
        PromptIntent::SceneCount
    } else if contains(lower, "selected"@) || contains(lower, "selection"@) {
        PromptIntent::Selection
    } else if contains(lower, "list"@) && contains(lower, "entit"@) {
        PromptIntent::ListEntities
    } else if contains(lower, "move"@) || contains(lower, "translate"@) {
        PromptIntent::Translate
    } else if starts_with(lower, "rename"@) || contains(lower, "rename to"@) {
        PromptIntent::Rename
    } else if contains(lower, "create"@) && contains(lower, "entity"@) {
        PromptIntent::Create
    } else {
        PromptIntent::Help
    }
}

fn has(s: &Vec<char>, pat: &str) -> (r: bool)
    ensures
        r == contains(s@, pat@),
{
    let p = chars_of(pat);
    contains_exec(s, &p)
}

/// The intent of an already lowercased prompt.
pub fn intent_of_lower(lower: &Vec<char>) -> (r: PromptIntent)
    ensures
        r == prompt_intent(lower@),
{
    if has(lower, "how many") || has(lower, "count") {
        PromptIntent::SceneCount
    } else if has(lower, "selected") || has(lower, "selection") {
        PromptIntent::Selection
    } else if has(lower, "list") && has(lower, "entit") {
        PromptIntent::ListEntities
    } else if has(lower, "move") || has(lower, "translate") {
        PromptIntent::Translate
    } else if occurs_at_exec(lower, &chars_of("rename"), 0) || has(lower, "rename to") {
        PromptIntent::Rename
    } else if has(lower, "create") && has(lower, "entity") {
        PromptIntent::Create
    } else {
        PromptIntent::Help
    }
}

/// The intent the local model reads in `prompt` (trimmed, then ASCII-lowercased).
pub fn classify_prompt(prompt: &str) -> (r: PromptIntent)
    ensures
        r == prompt_intent(to_ascii_lower(trim(prompt@))),
{
    let c = chars_of(prompt);
    let t = trim_chars(&c);
    let lower = lowercase_chars(&t);
    intent_of_lower(&lower)
}

/// A name taken from text after a marker: trimmed, nonempty, then stripped
/// of surrounding double and then single quotes.
pub open spec fn cleaned_name(part: Option<Seq<char>>) -> Option<Seq<char>> {
    match part {
        Some(v) => if trim(v).len() > 0 {
            Some(trim_char(trim_char(trim(v), '"'), '\''))
        } else {
            None
        },
        None => None,
    }
}

/// The new name in a rename request: the text after `rename to`, or else
/// after `rename` (case-sensitive).
pub open spec fn rename_target(prompt: Seq<char>) -> Option<Seq<char>> {
    let part = match split_second(prompt, "rename to"@) {
        Some(p) => Some(p),
        None => split_second(prompt, "rename"@),
    };
    cleaned_name(part)
}

/// The name in a create request: the text after `create entity` (case-sensitive).
pub open spec fn create_target(prompt: Seq<char>) -> Option<Seq<char>> {
    cleaned_name(split_second(prompt, "create entity"@))
}

fn cleaned_name_exec(part: Option<Vec<char>>) -> (r: Option<String>)
    ensures
        opt_view(r) == cleaned_name(match part {
            Some(v) => Some(v@),
            None => None,
        }),
{
    match part {
        Some(v) => {
            let t = trim_chars(&v);
            if t.len() > 0 {
                let a = trim_matches_char(&t, '"');
                let b = trim_matches_char(&a, '\'');
                Some(string_from_chars(&b))
            } else {
                None
            }
        },
        None => None,
    }
}

/// The new name in a rename request, if the prompt names one.
pub fn parse_rename_target(prompt: &str) -> (r: Option<String>)
    ensures
        opt_view(r) == rename_target(prompt@),
{
    let c = chars_of(prompt);
    let marker = chars_of("rename to");
    proof {
        reveal_strlit("rename to");
        reveal_strlit("rename");
    }
    let part = match split_second_exec(&c, &marker) {
        Some(p) => Some(p),
        None => {
            let short = chars_of("rename");
            split_second_exec(&c, &short)
        },
    };
    cleaned_name_exec(part)
}

/// The entity name in a create request, if the prompt names one.
pub fn parse_create_name(prompt: &str) -> (r: Option<String>)
    ensures
        opt_view(r) == create_target(prompt@),
{
    let c = chars_of(prompt);
    let marker = chars_of("create entity");
    proof {
        reveal_strlit("create entity");
    }
    cleaned_name_exec(split_second_exec(&c, &marker))
}


/// A typed scene edit, as previewed and committed.
#[derive(Debug, Clone, PartialEq, Eq)]
pub enum SceneOperation {
    /// Translate an entity by a delta (each axis as the bits of an `f64`).
    Translate { entity_id: String, x: u64, y: u64, z: u64 },
    /// Set the name of an entity.
    SetName { entity_id: String, name: String },
    /// Create a named empty entity at the origin.
    CreateEntity { entity_id: String, name: String },
}

/// Mathematical content of a [`SceneOperation`].
pub enum OperationModel {
    Translate { entity_id: Seq<char>, x: u64, y: u64, z: u64 },
    SetName { entity_id: Seq<char>, name: Seq<char> },
    CreateEntity { entity_id: Seq<char>, name: Seq<char> },
}

impl View for SceneOperation {
    type V = OperationModel;

    open spec fn view(&self) -> OperationModel {
        match self {
            SceneOperation::Translate { entity_id, x, y, z } => OperationModel::Translate {
                entity_id: entity_id@,
                x: *x,
                y: *y,
                z: *z,
            },
            SceneOperation::SetName { entity_id, name } => OperationModel::SetName {
                entity_id: entity_id@,
                name: name@,
            },
            SceneOperation::CreateEntity { entity_id, name } => OperationModel::CreateEntity {
                entity_id: entity_id@,
                name: name@,
            },
        }
    }
}

/// Who proposed an edit, from which prompt, with which model and tools.
#[derive(Debug, Clone, PartialEq, Eq)]
pub struct TransactionProvenance {
    /// Agent name.
    pub agent: String,
    /// The prompt that led to the edit.
    pub user_prompt: String,
    /// Model identifier.
    pub model_id: String,
    /// Names of the tools that produced the edit.
    pub tool_names: Vec<String>,
}

/// Scene edit plan produced by Copilot.
#[derive(Debug, PartialEq)]
pub struct CopilotProposal {
    /// Short summary shown in the approval UI.
    pub summary: String,
    /// Tool calls that produced the plan.
    pub tool_calls: Vec<ToolCall>,
    /// Typed scene operations to preview/commit.
    pub operations: Vec<SceneOperation>,
    /// Provenance attached on commit.
    pub provenance: TransactionProvenance,
}

/// Response returned by a model provider.
#[derive(Debug, PartialEq)]
pub enum CopilotResponse {
    /// Read-only answer for the user.
    Answer(String),
    /// Scene edit proposal requiring preview and approval.
    Proposal(CopilotProposal),
}

/// Errors raised by Copilot orchestration.
#[derive(Debug, Clone, PartialEq, Eq)]
pub enum CopilotError {
    /// Tool protocol validation failed.
    ToolProtocol(ToolProtocolError),
    /// Copilot could not interpret the request.
    Unsupported(String),
    /// Identifier parsing failed.
    InvalidInput(String),
    /// Remote model provider failed.
    Remote(String),
}

/// A tool call as its tool name and argument map.
pub struct CallModel {
    pub tool: Seq<char>,
    pub args: Map<Seq<char>, ArgModel>,
}

pub open spec fn call_model(c: ToolCall) -> CallModel {
    CallModel { tool: c.tool@, args: c.arguments.arg_map() }
}

/// Mathematical content of a [`CopilotProposal`].
pub struct ProposalModel {
    pub summary: Seq<char>,
    pub calls: Seq<CallModel>,
    pub operations: Seq<OperationModel>,
    pub agent: Seq<char>,
    pub user_prompt: Seq<char>,
    pub model_id: Seq<char>,
    pub tool_names: Seq<Seq<char>>,
}

pub open spec fn proposal_model(p: CopilotProposal) -> ProposalModel {
    ProposalModel {
        summary: p.summary@,
        calls: p.tool_calls@.map_values(|c: ToolCall| call_model(c)),
        operations: p.operations@.map_values(|o: SceneOperation| o@),
        agent: p.provenance.agent@,
        user_prompt: p.provenance.user_prompt@,
        model_id: p.provenance.model_id@,
        tool_names: string_views(p.provenance.tool_names@),
    }
}

/// Mathematical content of a [`CopilotResponse`].
pub enum ResponseModel {
    Answer(Seq<char>),
    Proposal(ProposalModel),
}

/// Mathematical content of a [`CopilotError`].
pub enum CopilotErrorModel {
    ToolProtocol(ProtocolErrorModel),
    Unsupported(Seq<char>),
    InvalidInput(Seq<char>),
    Remote(Seq<char>),
}

impl View for CopilotError {
    type V = CopilotErrorModel;

    open spec fn view(&self) -> CopilotErrorModel {
        match self {
            CopilotError::ToolProtocol(e) => CopilotErrorModel::ToolProtocol(e@),
            CopilotError::Unsupported(m) => CopilotErrorModel::Unsupported(m@),
            CopilotError::InvalidInput(m) => CopilotErrorModel::InvalidInput(m@),
            CopilotError::Remote(m) => CopilotErrorModel::Remote(m@),
        }
    }
}

pub open spec fn response_model(r: CopilotResponse) -> ResponseModel {
    match r {
        CopilotResponse::Answer(a) => ResponseModel::Answer(a@),
        CopilotResponse::Proposal(p) => ResponseModel::Proposal(proposal_model(p)),
    }
}

pub open spec fn outcome<T, M>(r: Result<T, CopilotError>, f: spec_fn(T) -> M) -> Result<
    M,
    CopilotErrorModel,
> {
    match r {
        Ok(v) => Ok(f(v)),
        Err(e) => Err(e@),
    }
}

/// The permissions a write proposal is validated with.
pub open spec fn write_permissions() -> Seq<ToolPermission> {
    seq![ToolPermission::SceneRead, ToolPermission::SceneWrite]
}

/// The number under `key`, or the bits of `0.0`.
pub open spec fn number_or_zero(args: Map<Seq<char>, ArgModel>, key: Seq<char>) -> u64 {
    match arg_number(args, key) {
        Some(b) => b,
        None => 0,
    }
}

/// The scene operations a write call compiles to, for the given selection;
/// `new_id` is the id a created entity receives.
pub open spec fn compiled_write(c: CallModel, selection: Seq<Seq<char>>, new_id: Seq<char>) -> Result<
    Seq<OperationModel>,
    CopilotErrorModel,
> {
    match validation_outcome(builtin_map(), c.tool, c.args, write_permissions()) {
        Err(e) => Err(CopilotErrorModel::ToolProtocol(e)),
        Ok(()) => if c.tool == "scene.translate_selection"@ {
            if selection.len() == 0 {
                Err(CopilotErrorModel::Unsupported("Select at least one entity to translate."@))
            } else {
                Ok(
                    selection.map_values(
                        |id: Seq<char>|
                            OperationModel::Translate {
                                entity_id: id,
                                x: number_or_zero(c.args, "x"@),
                                y: number_or_zero(c.args, "y"@),
                                z: number_or_zero(c.args, "z"@),
                            },
                    ),
                )
            }
        } else if c.tool == "scene.set_entity_name"@ {
            match arg_text(c.args, "entity_id"@) {
                None => Err(CopilotErrorModel::InvalidInput("entity_id required"@)),
                Some(id) => match arg_text(c.args, "name"@) {
                    None => Err(CopilotErrorModel::InvalidInput("name required"@)),
                    Some(n) => Ok(seq![OperationModel::SetName { entity_id: id, name: n }]),
                },
            }
        } else if c.tool == "scene.create_entity"@ {
            match arg_text(c.args, "name"@) {
                None => Err(CopilotErrorModel::InvalidInput("name required"@)),
                Some(n) => Ok(seq![OperationModel::CreateEntity { entity_id: new_id, name: n }]),
            }
        } else {
            Err(CopilotErrorModel::Unsupported("write tool not implemented: "@ + c.tool))
        },
    }
}

/// The proposal built from a write call: validated, compiled, and attributed
/// to the Copilot agent.
pub open spec fn proposal_for(
    prompt: Seq<char>,
    c: CallModel,
    summary: Seq<char>,
    selection: Seq<Seq<char>>,
    model_id: Seq<char>,
    new_id: Seq<char>,
) -> Result<ProposalModel, CopilotErrorModel> {
    match compiled_write(c, selection, new_id) {
        Err(e) => Err(e),
        Ok(ops) => Ok(
            ProposalModel {
                summary,
                calls: seq![c],
                operations: ops,
                agent: "copilot"@,
                user_prompt: prompt,
                model_id,
                tool_names: seq![c.tool],
            },
        ),
    }
}

fn write_granted() -> (r: Vec<ToolPermission>)
    ensures
        r@ == write_permissions(),
{
    let mut r = Vec::new();
    r.push(ToolPermission::SceneRead);
    r.push(ToolPermission::SceneWrite);
    assert(r@ =~= write_permissions());
    r
}

/// An entity as `scene.list_entities` lists it.
#[derive(Debug, Clone, PartialEq, Eq)]
pub struct EntityEntry {
    /// Entity id (text form).
    pub id: String,
    /// Its name, if any.
    pub name: Option<String>,
}

/// Structured output of a read-only tool.
#[derive(Debug, Clone, PartialEq, Eq)]
pub enum ReadOutput {
    /// `scene.list_entities`: every entity of the scene.
    Entities(Vec<EntityEntry>),
    /// `scene.inspect_selection`: the selected entity ids.
    Selection(Vec<String>),
    /// `scene.summarize`: the scene summary and the selection summary.
    Summary { summary: String, selection: Option<String> },
}

/// Output from a read-only tool execution.
#[derive(Debug, Clone, PartialEq, Eq)]
pub struct ToolExecutionResult {
    /// Structured tool output.
    pub output: ReadOutput,
}

/// Mathematical content of a [`ReadOutput`].
pub enum ReadModel {
    Entities(Seq<(Seq<char>, Option<Seq<char>>)>),
    Selection(Seq<Seq<char>>),
    Summary { summary: Seq<char>, selection: Option<Seq<char>> },
}

pub open spec fn entry_model(e: EntityEntry) -> (Seq<char>, Option<Seq<char>>) {
    (e.id@, opt_view(e.name))
}

pub open spec fn read_model(r: ToolExecutionResult) -> ReadModel {
    match r.output {
        ReadOutput::Entities(v) => ReadModel::Entities(v@.map_values(|e: EntityEntry| entry_model(e))),
        ReadOutput::Selection(v) => ReadModel::Selection(string_views(v@)),
        ReadOutput::Summary { summary, selection } => ReadModel::Summary {
            summary: summary@,
            selection: opt_view(selection),
        },
    }
}

/// What a read call returns for a scene with `entities` (id and name),
/// its entity counts `stats`, and the selection with the descriptions of
/// the selected entities.
pub open spec fn read_result(
    c: CallModel,
    entities: Seq<(Seq<char>, Option<Seq<char>>)>,
    stats: SceneStats,
    selection: Seq<Seq<char>>,
    descriptions: Seq<Option<Seq<char>>>,
) -> Result<ReadModel, CopilotErrorModel> {
    match validation_outcome(builtin_map(), c.tool, c.args, seq![ToolPermission::SceneRead]) {
        Err(e) => Err(CopilotErrorModel::ToolProtocol(e)),
        Ok(()) => if c.tool == "scene.list_entities"@ {
            Ok(ReadModel::Entities(entities))
        } else if c.tool == "scene.inspect_selection"@ {
            Ok(ReadModel::Selection(selection))
        } else if c.tool == "scene.summarize"@ {
            Ok(
                ReadModel::Summary {
                    summary: scene_summary_text(stats),
                    selection: if selection.len() == 0 {
                        None
                    } else {
                        Some(selection_summary_text(selection, descriptions))
                    },
                },
            )
        } else {
            Err(CopilotErrorModel::Unsupported("read tool not implemented: "@ + c.tool))
        },
    }
}

fn copy_entries(entities: &Vec<EntityEntry>) -> (r: Vec<EntityEntry>)
    ensures
        r@.map_values(|e: EntityEntry| entry_model(e)) == entities@.map_values(|e: EntityEntry| entry_model(e)),
{
    let mut r: Vec<EntityEntry> = Vec::new();
    let mut i: usize = 0;
    while i < entities.len()
        invariant
            i <= entities.len(),
            r@.map_values(|e: EntityEntry| entry_model(e)) == entities@.take(i as int).map_values(
                |e: EntityEntry| entry_model(e),
            ),
        decreases entities.len() - i,
    {
        let e = &entities[i];
        let name = match &e.name {
            Some(n) => Some(n.clone()),
            None => None,
        };
        let ghost before = r@;
        let entry = EntityEntry { id: e.id.clone(), name };
        r.push(entry);
        proof {
            assert(r@.map_values(|e: EntityEntry| entry_model(e)) =~= before.map_values(
                |e: EntityEntry| entry_model(e),
            ).push(entry_model(entry)));
            assert(entities@.take(i + 1).map_values(|e: EntityEntry| entry_model(e)) =~= entities@.take(
                i as int,
            ).map_values(|e: EntityEntry| entry_model(e)).push(entry_model(entities@[i as int])));
        }
        i = i + 1;
    }
    assert(entities@.take(i as int) =~= entities@);
    r
}

fn copy_strings(v: &Vec<String>) -> (r: Vec<String>)
    ensures
        string_views(r@) == string_views(v@),
{
    let mut r: Vec<String> = Vec::new();
    let mut i: usize = 0;
    while i < v.len()
        invariant
            i <= v.len(),
            string_views(r@) == string_views(v@).take(i as int),
        decreases v.len() - i,
    {
        let ghost before = r@;
        let s = v[i].clone();
        r.push(s);
        proof {
            lemma_string_views_push(before, s);
            assert(string_views(v@).take(i + 1) =~= string_views(v@).take(i as int).push(v@[i as int]@));
        }
        i = i + 1;
    }
    assert(string_views(v@).take(i as int) =~= string_views(v@));
    r
}

/// Executes validated tool calls against scene state.
#[derive(Debug, Default, Clone, Copy)]
pub struct ToolExecutor;

impl ToolExecutor {
    /// Execute a read-only tool call on a scene given by its entities (id
    /// and name, in scene order) and entity counts; `descriptions[i]`
    /// describes the selected entity `selection[i]`.
    pub fn execute_read(
        call: &ToolCall,
        entities: &Vec<EntityEntry>,
        stats: &SceneStats,
        selection: &Vec<String>,
        descriptions: &Vec<Option<String>>,
    ) -> (r: Result<ToolExecutionResult, CopilotError>)
        requires
            descriptions.len() == selection.len(),
        ensures
            outcome(r, |x: ToolExecutionResult| read_model(x)) == read_result(
                call_model(*call),
                entities@.map_values(|e: EntityEntry| entry_model(e)),
                *stats,
                string_views(selection@),
                opt_views(descriptions@),
            ),
    {
        let registry = ToolRegistry::builtins();
        let mut granted: Vec<ToolPermission> = Vec::new();
        granted.push(ToolPermission::SceneRead);
        assert(granted@ =~= seq![ToolPermission::SceneRead]);
        match validate_tool_call(&registry, call, granted.as_slice()) {
            Err(e) => {
                return Err(CopilotError::ToolProtocol(e));
            },
            Ok(()) => {},
        }
        let tool = call.tool.as_str();
        let output = if str_eq(tool, "scene.list_entities") {
            ReadOutput::Entities(copy_entries(entities))
        } else if str_eq(tool, "scene.inspect_selection") {
            ReadOutput::Selection(copy_strings(selection))
        } else if str_eq(tool, "scene.summarize") {
            let pack = ContextBuilder::build(stats, selection, descriptions, &registry);
            ReadOutput::Summary { summary: pack.scene_summary, selection: pack.selection_summary }
        } else {
            let mut m = "read tool not implemented: ".to_owned();
            push_str(&mut m, tool);
            return Err(CopilotError::Unsupported(m));
        };
        Ok(ToolExecutionResult { output })
    }

    /// Compile a write tool call into scene operations on the selected
    /// entities; a created entity receives `new_entity_id`.
    pub fn compile_write(call: &ToolCall, selection: &Vec<String>, new_entity_id: &str) -> (r:
        Result<Vec<SceneOperation>, CopilotError>)
        ensures
            outcome(r, |v: Vec<SceneOperation>| v@.map_values(|o: SceneOperation| o@))
                == compiled_write(call_model(*call), string_views(selection@), new_entity_id@),
    {
        let registry = ToolRegistry::builtins();
        let granted = write_granted();
        match validate_tool_call(&registry, call, granted.as_slice()) {
            Err(e) => {
                return Err(CopilotError::ToolProtocol(e));
            },
            Ok(()) => {},
        }
        let tool = call.tool.as_str();
        if str_eq(tool, "scene.translate_selection") {
            if selection.len() == 0 {
                return Err(CopilotError::Unsupported("Select at least one entity to translate.".to_owned()));
            }
            let x = match call.arguments.number("x") {
                Some(b) => b,
                None => 0,
            };
            let y = match call.arguments.number("y") {
                Some(b) => b,
                None => 0,
            };
            let z = match call.arguments.number("z") {
                Some(b) => b,
                None => 0,
            };
            let ghost want = string_views(selection@).map_values(
                |id: Seq<char>| OperationModel::Translate { entity_id: id, x, y, z },
            );
            let mut ops: Vec<SceneOperation> = Vec::new();
            let mut i: usize = 0;
            while i < selection.len()
                invariant
                    i <= selection.len(),
                    want == string_views(selection@).map_values(
                        |id: Seq<char>| OperationModel::Translate { entity_id: id, x, y, z },
                    ),
                    ops@.map_values(|o: SceneOperation| o@) == want.take(i as int),
                decreases selection.len() - i,
            {
                let op = SceneOperation::Translate { entity_id: selection[i].clone(), x, y, z };
                let ghost before = ops@;
                ops.push(op);
                proof {
                    assert(ops@.map_values(|o: SceneOperation| o@) =~= before.map_values(
                        |o: SceneOperation| o@,
                    ).push(op@));
                    lemma_take_push(want, i as int);
                }
                i += 1;
            }
            assert(want.take(i as int) == want);
            Ok(ops)
        } else if str_eq(tool, "scene.set_entity_name") {
            let entity_id = match call.arguments.text("entity_id") {
                Some(v) => v.clone(),
                None => {
                    return Err(CopilotError::InvalidInput("entity_id required".to_owned()));
                },
            };
            let name = match call.arguments.text("name") {
                Some(v) => v.clone(),
                None => {
                    return Err(CopilotError::InvalidInput("name required".to_owned()));
                },
            };
            let mut ops: Vec<SceneOperation> = Vec::new();
            ops.push(SceneOperation::SetName { entity_id, name });
            assert(ops@.map_values(|o: SceneOperation| o@) =~= seq![ops@[0]@]);
            Ok(ops)
        } else if str_eq(tool, "scene.create_entity") {
            let name = match call.arguments.text("name") {
                Some(v) => v.clone(),
                None => {
                    return Err(CopilotError::InvalidInput("name required".to_owned()));
                },
            };
            let mut ops: Vec<SceneOperation> = Vec::new();
            ops.push(SceneOperation::CreateEntity { entity_id: new_entity_id.to_owned(), name });
            assert(ops@.map_values(|o: SceneOperation| o@) =~= seq![ops@[0]@]);
            Ok(ops)
        } else {
            let mut m = "write tool not implemented: ".to_owned();
            push_str(&mut m, tool);
            Err(CopilotError::Unsupported(m))
        }
    }
}

/// Build a validated scene edit proposal from a tool call.
pub fn build_proposal(
    prompt: &str,
    call: ToolCall,
    summary: String,
    context: &ContextPack,
    model_id: &str,
    new_entity_id: &str,
) -> (r: Result<CopilotProposal, CopilotError>)
    ensures
        outcome(r, |p: CopilotProposal| proposal_model(p)) == proposal_for(
            prompt@,
            call_model(call),
            summary@,
            context@.selection,
            model_id@,
            new_entity_id@,
        ),
{
    let registry = ToolRegistry::builtins();
    let granted = write_granted();
    match validate_tool_call(&registry, &call, granted.as_slice()) {
        Err(e) => {
            return Err(CopilotError::ToolProtocol(e));
        },
        Ok(()) => {},
    }
    let operations = match ToolExecutor::compile_write(&call, &context.selection, new_entity_id) {
        Ok(ops) => ops,
        Err(e) => {
            return Err(e);
        },
    };
    let tool = call.tool.clone();
    let mut tool_calls: Vec<ToolCall> = Vec::new();
    let ghost cm = call_model(call);
    tool_calls.push(call);
    let mut tool_names: Vec<String> = Vec::new();
    tool_names.push(tool);
    let p = CopilotProposal {
        summary,
        tool_calls,
        operations,
        provenance: TransactionProvenance {
            agent: "copilot".to_owned(),
            user_prompt: prompt.to_owned(),
            model_id: model_id.to_owned(),
            tool_names,
        },
    };
    assert(proposal_model(p).calls =~= seq![cm]);
    assert(proposal_model(p).tool_names =~= seq![cm.tool]);
    Ok(p)
}


/// The translation a prompt asks for, worked out from its numbers: the delta
/// per axis (as `f64` bits) and the summary that states it.
#[derive(Debug, Clone, PartialEq, Eq)]
pub struct TranslationPlan {
    /// Delta along x.
    pub x: u64,
    /// Delta along y.
    pub y: u64,
    /// Delta along z.
    pub z: u64,
    /// Summary line shown in the approval UI.
    pub summary: String,
}

/// Mathematical content of a [`TranslationPlan`].
pub struct TranslationModel {
    pub x: u64,
    pub y: u64,
    pub z: u64,
    pub summary: Seq<char>,
}

impl View for TranslationPlan {
    type V = TranslationModel;

    open spec fn view(&self) -> TranslationModel {
        TranslationModel { x: self.x, y: self.y, z: self.z, summary: self.summary@ }
    }
}

pub open spec fn translate_call(plan: TranslationModel) -> CallModel {
    CallModel {
        tool: "scene.translate_selection"@,
        args: Map::<Seq<char>, ArgModel>::empty().insert("x"@, ArgModel::Number(plan.x)).insert(
            "y"@,
            ArgModel::Number(plan.y),
        ).insert("z"@, ArgModel::Number(plan.z)),
    }
}

pub open spec fn rename_call(entity_id: Seq<char>, name: Seq<char>) -> CallModel {
    CallModel {
        tool: "scene.set_entity_name"@,
        args: Map::<Seq<char>, ArgModel>::empty().insert("entity_id"@, ArgModel::Text(entity_id)).insert(
            "name"@,
            ArgModel::Text(name),
        ),
    }
}

pub open spec fn create_call(name: Seq<char>) -> CallModel {
    CallModel {
        tool: "scene.create_entity"@,
        args: Map::<Seq<char>, ArgModel>::empty().insert("name"@, ArgModel::Text(name)),
    }
}

pub open spec fn as_response(r: Result<ProposalModel, CopilotErrorModel>) -> Result<
    ResponseModel,
    CopilotErrorModel,
> {
    match r {
        Ok(p) => Ok(ResponseModel::Proposal(p)),
        Err(e) => Err(e),
    }
}

pub open spec fn help_text(scene_summary: Seq<char>) -> Seq<char> {
    "I can summarize the scene, describe the selection, translate selection (e.g. \"move up 1\"), rename selection (\"rename to Lamp\"), or create an entity (\"create entity Marker\"). Context: "@
        + scene_summary
}

/// The name a rename proposal uses.
pub open spec fn rename_name(prompt: Seq<char>) -> Seq<char> {
    match rename_target(prompt) {
        Some(n) => n,
        None => "Renamed"@,
    }
}

/// The name a create proposal uses.
pub open spec fn create_name(prompt: Seq<char>) -> Seq<char> {
    match create_target(prompt) {
        Some(n) => n,
        None => "New Entity"@,
    }
}

/// What the local model answers to `prompt` in `ctx`: `plan` is the
/// translation the prompt's numbers describe, `new_id` the id a created
/// entity receives.
pub open spec fn mock_outcome(
    prompt: Seq<char>,
    ctx: ContextModel,
    plan: TranslationModel,
    new_id: Seq<char>,
) -> Result<ResponseModel, CopilotErrorModel> {
    let p = trim(prompt);
    match prompt_intent(to_ascii_lower(p)) {
        PromptIntent::SceneCount => Ok(ResponseModel::Answer(ctx.scene_summary)),
        PromptIntent::Selection => Ok(
            ResponseModel::Answer(
                match ctx.selection_summary {
                    Some(s) => s,
                    None => "Nothing is selected."@,
                },
            ),
        ),
        PromptIntent::ListEntities => Ok(
            ResponseModel::Answer(
                "The scene currently contains "@ + decimal(ctx.entity_count) + " entities."@,
            ),
        ),
        PromptIntent::Translate => as_response(
            proposal_for(p, translate_call(plan), plan.summary, ctx.selection, "mock-local"@, new_id),
        ),
        PromptIntent::Rename => if ctx.selection.len() == 0 {
            Err(CopilotErrorModel::Unsupported("Select an entity to rename."@))
        } else {
            let name = rename_name(p);
            as_response(
                proposal_for(
                    p,
                    rename_call(ctx.selection[0], name),
                    "Rename selected entity to \""@ + name + "\"."@,
                    ctx.selection,
                    "mock-local"@,
                    new_id,
                ),
            )
        },
        PromptIntent::Create => {
            let name = create_name(p);
            as_response(
                proposal_for(
                    p,
                    create_call(name),
                    "Create entity \""@ + name + "\"."@,
                    ctx.selection,
                    "mock-local"@,
                    new_id,
                ),
            )
        },
        PromptIntent::Help => Ok(ResponseModel::Answer(help_text(ctx.scene_summary))),
    }
}

fn wrap_proposal(r: Result<CopilotProposal, CopilotError>) -> (out: Result<CopilotResponse, CopilotError>)
    ensures
        outcome(out, |x: CopilotResponse| response_model(x)) == as_response(
            outcome(r, |p: CopilotProposal| proposal_model(p)),
        ),
{
    match r {
        Ok(p) => Ok(CopilotResponse::Proposal(p)),
        Err(e) => Err(e),
    }
}

/// Deterministic local model provider.
#[derive(Debug, Default, Clone, Copy)]
pub struct MockModelProvider;

impl MockModelProvider {
    /// Produce an answer or edit proposal from user input and context.
    pub fn complete(
        &self,
        prompt: &str,
        context: &ContextPack,
        translation: &TranslationPlan,
        new_entity_id: &str,
    ) -> (r: Result<CopilotResponse, CopilotError>)
        ensures
            outcome(r, |x: CopilotResponse| response_model(x)) == mock_outcome(
                prompt@,
                context@,
                translation@,
                new_entity_id@,
            ),
    {
        let c = chars_of(prompt);
        let t = trim_chars(&c);
        let lower = lowercase_chars(&t);
        let trimmed = string_from_chars(&t);
        match intent_of_lower(&lower) {
            PromptIntent::SceneCount => Ok(CopilotResponse::Answer(context.scene_summary.clone())),
            PromptIntent::Selection => Ok(
                CopilotResponse::Answer(
                    match &context.selection_summary {
                        Some(s) => s.clone(),
                        None => "Nothing is selected.".to_owned(),
                    },
                ),
            ),
            PromptIntent::ListEntities => {
                let mut a = "The scene currently contains ".to_owned();
                push_count(&mut a, context.scene_entity_count);
                push_str(&mut a, " entities.");
                Ok(CopilotResponse::Answer(a))
            },
            PromptIntent::Translate => {
                let mut args = ToolArguments::new();
                args.set("x", ArgValue::Number(translation.x));
                args.set("y", ArgValue::Number(translation.y));
                args.set("z", ArgValue::Number(translation.z));
                let call = ToolCall::with_arguments("scene.translate_selection", args);
                let ghost cm = call_model(call);
                assert(cm.args == translate_call(translation@).args);
                wrap_proposal(
                    build_proposal(
                        trimmed.as_str(),
                        call,
                        translation.summary.clone(),
                        context,
                        "mock-local",
                        new_entity_id,
                    ),
                )
            },
            PromptIntent::Rename => {
                let name = match parse_rename_target(trimmed.as_str()) {
                    Some(n) => n,
                    None => "Renamed".to_owned(),
                };
                if context.selection.len() == 0 {
                    return Err(CopilotError::Unsupported("Select an entity to rename.".to_owned()));
                }
                let mut args = ToolArguments::new();
                args.set("entity_id", ArgValue::Text(context.selection[0].clone()));
                args.set("name", ArgValue::Text(name.clone()));
                let call = ToolCall::with_arguments("scene.set_entity_name", args);
                let mut summary = "Rename selected entity to \"".to_owned();
                push_str(&mut summary, name.as_str());
                push_str(&mut summary, "\".");
                assert(string_views(context.selection@)[0] == context.selection@[0]@);
                wrap_proposal(
                    build_proposal(
                        trimmed.as_str(),
                        call,
                        summary,
                        context,
                        "mock-local",
                        new_entity_id,
                    ),
                )
            },
            PromptIntent::Create => {
                let name = match parse_create_name(trimmed.as_str()) {
                    Some(n) => n,
                    None => "New Entity".to_owned(),
                };
                let mut args = ToolArguments::new();
                args.set("name", ArgValue::Text(name.clone()));
                let call = ToolCall::with_arguments("scene.create_entity", args);
                let mut summary = "Create entity \"".to_owned();
                push_str(&mut summary, name.as_str());
                push_str(&mut summary, "\".");
                wrap_proposal(
                    build_proposal(
                        trimmed.as_str(),
                        call,
                        summary,
                        context,
                        "mock-local",
                        new_entity_id,
                    ),
                )
            },
            PromptIntent::Help => {
                let mut a = "I can summarize the scene, describe the selection, translate selection (e.g. \"move up 1\"), rename selection (\"rename to Lamp\"), or create an entity (\"create entity Marker\"). Context: ".to_owned();
                push_str(&mut a, context.scene_summary.as_str());
                Ok(CopilotResponse::Answer(a))
            },
        }
    }
}


/// `o` when it holds a string that is not blank.
pub open spec fn nonblank(o: Option<Seq<char>>) -> Option<Seq<char>> {
    match o {
        Some(v) => if trim(v).len() > 0 {
            Some(v)
        } else {
            None
        },
        None => None,
    }
}

fn is_blank(s: &String) -> (r: bool)
    ensures
        r == (trim(s@).len() == 0),
{
    let c = chars_of(s.as_str());
    let t = trim_chars(&c);
    t.len() == 0
}

fn keep_nonblank(o: Option<String>) -> (r: Option<String>)
    ensures
        opt_view(r) == nonblank(opt_view(o)),
{
    match o {
        Some(v) => if is_blank(&v) {
            None
        } else {
            Some(v)
        },
        None => None,
    }
}

/// The answer text of the remote stub when an API key is configured.
pub open spec fn annotated(r: Result<ResponseModel, CopilotErrorModel>) -> Result<
    ResponseModel,
    CopilotErrorModel,
> {
    match r {
        Ok(ResponseModel::Answer(a)) => Ok(
            ResponseModel::Answer("[remote stub: API key configured, local mock execution]\n"@ + a),
        ),
        other => other,
    }
}

fn annotate_remote_stub(response: CopilotResponse) -> (r: CopilotResponse)
    ensures
        annotated(Ok(response_model(response))) == Ok::<ResponseModel, CopilotErrorModel>(
            response_model(r),
        ),
{
    match response {
        CopilotResponse::Answer(answer) => {
            let mut a = "[remote stub: API key configured, local mock execution]\n".to_owned();
            push_str(&mut a, answer.as_str());
            CopilotResponse::Answer(a)
        },
        other => other,
    }
}

/// Remote provider stub that accepts an API key and delegates to the local model.
#[derive(Debug, Clone)]
pub struct RemoteStubProvider {
    api_key: Option<String>,
    mock: MockModelProvider,
}

impl RemoteStubProvider {
    /// The configured API key, if any.
    pub closed spec fn key(self) -> Option<Seq<char>> {
        opt_view(self.api_key)
    }

    /// Create a provider using an optional API key; a blank key counts as none.
    pub fn new(api_key: Option<String>) -> (r: Self)
        ensures
            r.key() == nonblank(opt_view(api_key)),
    {
        RemoteStubProvider { api_key: keep_nonblank(api_key), mock: MockModelProvider }
    }

    /// The local model's response, with answers marked as coming from the stub
    /// when an API key is configured.
    pub fn complete(
        &self,
        prompt: &str,
        context: &ContextPack,
        translation: &TranslationPlan,
        new_entity_id: &str,
    ) -> (r: Result<CopilotResponse, CopilotError>)
        ensures
            outcome(r, |x: CopilotResponse| response_model(x)) == (if self.key() is Some {
                annotated(mock_outcome(prompt@, context@, translation@, new_entity_id@))
            } else {
                mock_outcome(prompt@, context@, translation@, new_entity_id@)
            }),
    {
        let response = match self.mock.complete(prompt, context, translation, new_entity_id) {
            Ok(r) => r,
            Err(e) => {
                return Err(e);
            },
        };
        if self.api_key.is_some() {
            Ok(annotate_remote_stub(response))
        } else {
            Ok(response)
        }
    }
}

/// Configuration for an OpenAI-compatible chat completions endpoint.
#[derive(Debug, Clone, PartialEq, Eq)]
pub struct RemoteLlmConfig {
    /// Bearer token for the remote API.
    pub api_key: String,
    /// API base URL, without trailing slash.
    pub base_url: String,
    /// Model identifier passed to the chat completions endpoint.
    pub model: String,
}

/// An override, or else the environment's value, when not blank.
pub open spec fn setting(given: Option<Seq<char>>, env: Option<Seq<char>>) -> Option<Seq<char>> {
    nonblank(
        match given {
            Some(v) => Some(v),
            None => env,
        },
    )
}

fn pick_setting(given: Option<String>, env: Option<String>) -> (r: Option<String>)
    ensures
        opt_view(r) == setting(opt_view(given), opt_view(env)),
{
    let chosen = match given {
        Some(v) => Some(v),
        None => env,
    };
    keep_nonblank(chosen)
}

proof fn lemma_trim_end_last(s: Seq<char>, c: char)
    ensures
        trim_char_end(s, c).len() == 0 || trim_char_end(s, c).last() != c,
    decreases s.len(),
{
    if s.len() > 0 && s.last() == c {
        lemma_trim_end_last(s.drop_last(), c);
    }
}

impl RemoteLlmConfig {
    /// Build configuration from optional overrides, falling back to the
    /// environment's values (`env_*`), then to the default endpoint and
    /// model; the base URL is kept without trailing slashes. There is no
    /// configuration without an API key.
    pub fn from_parts(
        api_key: Option<String>,
        base_url: Option<String>,
        model: Option<String>,
        env_api_key: Option<String>,
        env_base_url: Option<String>,
        env_model: Option<String>,
    ) -> (r: Option<Self>)
        ensures
            r is Some <==> setting(opt_view(api_key), opt_view(env_api_key)) is Some,
            r matches Some(c) ==> {
                &&& Some(c.api_key@) == setting(opt_view(api_key), opt_view(env_api_key))
                &&& c.base_url@ == trim_char_end(
                    match setting(opt_view(base_url), opt_view(env_base_url)) {
                        Some(u) => u,
                        None => "https://api.openai.com/v1"@,
                    },
                    '/',
                )
                &&& (c.base_url@.len() == 0 || c.base_url@.last() != '/')
                &&& c.model@ == match setting(opt_view(model), opt_view(env_model)) {
                    Some(m) => m,
                    None => "gpt-4o-mini"@,
                }
            },
    {
        let api_key = match pick_setting(api_key, env_api_key) {
            Some(k) => k,
            None => {
                return None;
            },
        };
        let chosen_url = match pick_setting(base_url, env_base_url) {
            Some(u) => u,
            None => "https://api.openai.com/v1".to_owned(),
        };
        let trimmed = trim_end_char(&chars_of(chosen_url.as_str()), '/');
        let base_url = string_from_chars(&trimmed);
        proof {
            lemma_trim_end_last(chosen_url@, '/');
        }
        let model = match pick_setting(model, env_model) {
            Some(m) => m,
            None => "gpt-4o-mini".to_owned(),
        };
        Some(RemoteLlmConfig { api_key, base_url, model })
    }
}

/// Whether `tool` is one of the write tools a remote model may call.
pub open spec fn write_tool(tool: Seq<char>) -> bool {
    tool == "scene.translate_selection"@ || tool == "scene.set_entity_name"@ || tool
        == "scene.create_entity"@
}

/// Whether `tool` is one of the write tools a remote model may call.
pub fn is_write_tool(tool: &str) -> (r: bool)
    ensures
        r == write_tool(tool@),
{
    str_eq(tool, "scene.translate_selection") || str_eq(tool, "scene.set_entity_name") || str_eq(
        tool,
        "scene.create_entity",
    )
}

/// The arguments of a call after filling in a missing `entity_id` of a
/// rename with the first selected entity.
pub open spec fn normalized_args(c: CallModel, selection: Seq<Seq<char>>) -> Map<
    Seq<char>,
    ArgModel,
> {
    if c.tool == "scene.set_entity_name"@ && !c.args.contains_key("entity_id"@) && selection.len() > 0 {
        c.args.insert("entity_id"@, ArgModel::Text(selection[0]))
    } else {
        c.args
    }
}

/// Fill in a rename call's missing `entity_id` with the first selected entity.
pub fn normalize_write_call(call: &mut ToolCall, context: &ContextPack)
    ensures
        final(call).tool@ == old(call).tool@,
        final(call).arguments.arg_map() == normalized_args(call_model(*old(call)), context@.selection),
{
    if str_eq(call.tool.as_str(), "scene.set_entity_name") && call.arguments.get("entity_id").is_none()
        && context.selection.len() > 0 {
        assert(string_views(context.selection@)[0] == context.selection@[0]@);
        call.arguments.set("entity_id", ArgValue::Text(context.selection[0].clone()));
    }
}


/// The arguments of a tool call in a chat reply.
#[derive(Debug, PartialEq)]
pub enum ChatArguments {
    /// No `arguments` field.
    Absent,
    /// An argument object: given directly, or as a string holding JSON.
    Object(ToolArguments),
    /// A string that is not valid JSON, with the parser's error text.
    Invalid(String),
}

/// The `function` of a tool call in a chat reply.
#[derive(Debug, PartialEq)]
pub struct ChatFunction {
    /// The tool name, when `name` is a string.
    pub name: Option<String>,
    /// The arguments.
    pub arguments: ChatArguments,
}

/// One tool call in a chat reply.
#[derive(Debug, PartialEq)]
pub struct ChatToolCall {
    /// The `function` payload, when present.
    pub function: Option<ChatFunction>,
}

/// The first choice's message of a chat completions reply.
#[derive(Debug, PartialEq)]
pub struct ChatMessage {
    /// The tool calls, when `tool_calls` is an array.
    pub tool_calls: Option<Vec<ChatToolCall>>,
    /// The content, when it is a string.
    pub content: Option<String>,
}

pub enum ChatArgumentsModel {
    Absent,
    Object(Map<Seq<char>, ArgModel>),
    Invalid(Seq<char>),
}

pub struct ChatFunctionModel {
    pub name: Option<Seq<char>>,
    pub arguments: ChatArgumentsModel,
}

pub struct ChatMessageModel {
    pub tool_calls: Option<Seq<Option<ChatFunctionModel>>>,
    pub content: Option<Seq<char>>,
}

pub open spec fn chat_arguments_model(a: ChatArguments) -> ChatArgumentsModel {
    match a {
        ChatArguments::Absent => ChatArgumentsModel::Absent,
        ChatArguments::Object(args) => ChatArgumentsModel::Object(args.arg_map()),
        ChatArguments::Invalid(e) => ChatArgumentsModel::Invalid(e@),
    }
}

pub open spec fn chat_function_model(f: Option<ChatFunction>) -> Option<ChatFunctionModel> {
    match f {
        Some(f) => Some(
            ChatFunctionModel { name: opt_view(f.name), arguments: chat_arguments_model(f.arguments) },
        ),
        None => None,
    }
}

pub open spec fn chat_message_model(m: ChatMessage) -> ChatMessageModel {
    ChatMessageModel {
        tool_calls: match m.tool_calls {
            Some(v) => Some(v@.map_values(|t: ChatToolCall| chat_function_model(t.function))),
            None => None,
        },
        content: opt_view(m.content),
    }
}

/// The call a tool call of a chat reply describes, with a rename's missing
/// `entity_id` filled in from the selection.
pub open spec fn chat_call(f: Option<ChatFunctionModel>, selection: Seq<Seq<char>>) -> Result<
    CallModel,
    CopilotErrorModel,
> {
    match f {
        None => Err(CopilotErrorModel::Remote("tool call missing function payload"@)),
        Some(f) => match f.name {
            None => Err(CopilotErrorModel::Remote("tool call missing name"@)),
            Some(tool) => match f.arguments {
                ChatArgumentsModel::Invalid(e) => Err(
                    CopilotErrorModel::Remote("invalid tool arguments JSON: "@ + e),
                ),
                ChatArgumentsModel::Absent => Ok(
                    CallModel {
                        tool,
                        args: normalized_args(
                            CallModel { tool, args: Map::empty() },
                            selection,
                        ),
                    },
                ),
                ChatArgumentsModel::Object(args) => Ok(
                    CallModel { tool, args: normalized_args(CallModel { tool, args }, selection) },
                ),
            },
        },
    }
}

/// The summary of a proposal from a remote tool call; `translation` states
/// the delta of a translation.
pub open spec fn call_summary(c: CallModel, translation: Seq<char>) -> Seq<char> {
    if c.tool == "scene.translate_selection"@ {
        translation
    } else if c.tool == "scene.set_entity_name"@ {
        "Rename entity to \""@ + match arg_text(c.args, "name"@) {
            Some(n) => n,
            None => "Renamed"@,
        } + "\"."@
    } else if c.tool == "scene.create_entity"@ {
        "Create entity \""@ + match arg_text(c.args, "name"@) {
            Some(n) => n,
            None => "New Entity"@,
        } + "\"."@
    } else {
        "Apply tool "@ + c.tool + "."@
    }
}

/// What a remote chat reply amounts to: a proposal for its first tool call
/// when that is a write tool, else its nonblank content as the answer.
pub open spec fn chat_outcome(
    prompt: Seq<char>,
    ctx: ContextModel,
    message: Option<ChatMessageModel>,
    model_id: Seq<char>,
    translation: Seq<char>,
    new_id: Seq<char>,
) -> Result<ResponseModel, CopilotErrorModel> {
    match message {
        None => Err(CopilotErrorModel::Remote("chat response missing message"@)),
        Some(m) => {
            let first = match m.tool_calls {
                Some(calls) => if calls.len() > 0 {
                    Some(chat_call(calls[0], ctx.selection))
                } else {
                    None
                },
                None => None,
            };
            match first {
                Some(Err(e)) => Err(e),
                Some(Ok(c)) if write_tool(c.tool) => as_response(
                    proposal_for(
                        prompt,
                        c,
                        call_summary(c, translation),
                        ctx.selection,
                        model_id,
                        new_id,
                    ),
                ),
                _ => match m.content {
                    Some(t) => if trim(t).len() > 0 {
                        Ok(ResponseModel::Answer(trim(t)))
                    } else {
                        Err(CopilotErrorModel::Remote("chat response missing content"@))
                    },
                    None => Err(CopilotErrorModel::Remote("chat response missing content"@)),
                },
            }
        },
    }
}

fn parse_tool_call(value: &ChatToolCall, context: &ContextPack) -> (r: Result<ToolCall, CopilotError>)
    ensures
        outcome(r, |c: ToolCall| call_model(c)) == chat_call(
            chat_function_model(value.function),
            context@.selection,
        ),
{
    let function = match &value.function {
        Some(f) => f,
        None => {
            return Err(CopilotError::Remote("tool call missing function payload".to_owned()));
        },
    };
    let tool = match &function.name {
        Some(n) => n,
        None => {
            return Err(CopilotError::Remote("tool call missing name".to_owned()));
        },
    };
    let arguments = match &function.arguments {
        ChatArguments::Absent => ToolArguments::new(),
        ChatArguments::Object(a) => a.duplicate(),
        ChatArguments::Invalid(e) => {
            let mut m = "invalid tool arguments JSON: ".to_owned();
            push_str(&mut m, e.as_str());
            return Err(CopilotError::Remote(m));
        },
    };
    let mut call = ToolCall::with_arguments(tool.as_str(), arguments);
    normalize_write_call(&mut call, context);
    Ok(call)
}

/// The summary of a proposal from a remote tool call; `translation` states
/// the delta of a translation.
pub fn tool_call_summary(call: &ToolCall, translation: &str) -> (r: String)
    ensures
        r@ == call_summary(call_model(*call), translation@),
{
    let tool = call.tool.as_str();
    if str_eq(tool, "scene.translate_selection") {
        translation.to_owned()
    } else if str_eq(tool, "scene.set_entity_name") {
        let mut r = "Rename entity to \"".to_owned();
        match call.arguments.text("name") {
            Some(n) => push_str(&mut r, n.as_str()),
            None => push_str(&mut r, "Renamed"),
        }
        push_str(&mut r, "\".");
        r
    } else if str_eq(tool, "scene.create_entity") {
        let mut r = "Create entity \"".to_owned();
        match call.arguments.text("name") {
            Some(n) => push_str(&mut r, n.as_str()),
            None => push_str(&mut r, "New Entity"),
        }
        push_str(&mut r, "\".");
        r
    } else {
        let mut r = "Apply tool ".to_owned();
        push_str(&mut r, tool);
        push_str(&mut r, ".");
        r
    }
}

/// The response a remote chat reply amounts to. `translation` is the summary
/// of the delta of the first tool call when that is a translation; a created
/// entity receives `new_entity_id`.
pub fn parse_chat_response(
    prompt: &str,
    context: &ContextPack,
    message: Option<&ChatMessage>,
    model_id: &str,
    translation: &str,
    new_entity_id: &str,
) -> (r: Result<CopilotResponse, CopilotError>)
    ensures
        outcome(r, |x: CopilotResponse| response_model(x)) == chat_outcome(
            prompt@,
            context@,
            match message {
                Some(m) => Some(chat_message_model(*m)),
                None => None,
            },
            model_id@,
            translation@,
            new_entity_id@,
        ),
{
    let message = match message {
        Some(m) => m,
        None => {
            return Err(CopilotError::Remote("chat response missing message".to_owned()));
        },
    };
    match &message.tool_calls {
        Some(calls) => {
            if calls.len() > 0 {
                let call = match parse_tool_call(&calls[0], context) {
                    Ok(c) => c,
                    Err(e) => {
                        return Err(e);
                    },
                };
                if is_write_tool(call.tool.as_str()) {
                    let summary = tool_call_summary(&call, translation);
                    return wrap_proposal(
                        build_proposal(prompt, call, summary, context, model_id, new_entity_id),
                    );
                }
            }
        },
        None => {},
    }
    match &message.content {
        Some(t) => {
            let c = chars_of(t.as_str());
            let trimmed = trim_chars(&c);
            if trimmed.len() > 0 {
                Ok(CopilotResponse::Answer(string_from_chars(&trimmed)))
            } else {
                Err(CopilotError::Remote("chat response missing content".to_owned()))
            }
        },
        None => Err(CopilotError::Remote("chat response missing content".to_owned())),
    }
}

/// Every edit the local model proposes is one call of a write tool that
/// passes validation with read and write permission; the proposal names that
/// tool in its provenance and is attributed to the Copilot agent and the
/// local model.
pub proof fn law_mock_proposals_validated(
    prompt: Seq<char>,
    ctx: ContextModel,
    plan: TranslationModel,
    new_id: Seq<char>,
)
    ensures
        mock_outcome(prompt, ctx, plan, new_id) matches Ok(ResponseModel::Proposal(p)) ==> {
            &&& p.calls.len() == 1
            &&& write_tool(p.calls[0].tool)
            &&& validation_outcome(builtin_map(), p.calls[0].tool, p.calls[0].args, write_permissions()) is Ok
            &&& p.tool_names == seq![p.calls[0].tool]
            &&& p.agent == "copilot"@
            &&& p.model_id == "mock-local"@
            &&& p.user_prompt == trim(prompt)
        },
{
}

/// How the local model reads a lowercased prompt, rule by rule: counting
/// questions first, then selection questions, listing requests, move or
/// translate requests, rename requests, create requests, and help for the
/// rest.
pub proof fn law_prompt_rules(lower: Seq<char>)
    ensures
        contains(lower, "how many"@) || contains(lower, "count"@) ==> prompt_intent(lower)
            == PromptIntent::SceneCount,
        !contains(lower, "how many"@) && !contains(lower, "count"@) && (contains(lower, "selected"@) || contains(
            lower,
            "selection"@,
        )) ==> prompt_intent(lower) == PromptIntent::Selection,
        !contains(lower, "how many"@) && !contains(lower, "count"@) && !contains(lower, "selected"@) && !contains(
            lower,
            "selection"@,
        ) ==> {
            &&& contains(lower, "list"@) && contains(lower, "entit"@) ==> prompt_intent(lower)
                == PromptIntent::ListEntities
            &&& !(contains(lower, "list"@) && contains(lower, "entit"@)) && (contains(lower, "move"@) || contains(
                lower,
                "translate"@,
            )) ==> prompt_intent(lower) == PromptIntent::Translate
            &&& !(contains(lower, "list"@) && contains(lower, "entit"@)) && !contains(lower, "move"@) && !contains(
                lower,
                "translate"@,
            ) ==> {
                &&& starts_with(lower, "rename"@) || contains(lower, "rename to"@) ==> prompt_intent(lower)
                    == PromptIntent::Rename
                &&& !starts_with(lower, "rename"@) && !contains(lower, "rename to"@) ==> (prompt_intent(lower)
                    == if contains(lower, "create"@) && contains(lower, "entity"@) {
                    PromptIntent::Create
                } else {
                    PromptIntent::Help
                })
            }
        },
{
}

} // verus!
