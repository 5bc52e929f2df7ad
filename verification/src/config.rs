//! The server's configuration: which workflows are exposed, and how each of
//! their API parameters maps onto a field of a workflow node.
use vstd::prelude::*;

use crate::text::{
    chars_of, eq_ignore_ascii_case, eq_ignore_ascii_case_chars, find, find_chars, split_chars,
    split_on, string_of, trim, trim_chars,
};

verus! {

broadcast use vstd::string::group_string_axioms;

/// An OpenAI-compatible endpoint used to suggest field mappings.
#[derive(Debug, Clone)]
pub struct LlmConfig {
    pub base_url: String,
    pub model: Option<String>,
    pub api_key: Option<String>,
}

/// How the value of a mapped parameter reaches the workflow.
#[derive(Debug, Clone, Copy, PartialEq, Eq, Structural)]
pub enum FieldInputTarget {
    Text,
    ImageBase64,
    ImageUrl,
    ComfyUpload,
}

impl Default for FieldInputTarget {
    fn default() -> (r: Self)
        ensures
            r == FieldInputTarget::Text,
    {
        FieldInputTarget::Text
    }
}

/// One API parameter of a workflow and the node field it sets.
#[derive(Debug, Clone)]
pub struct WorkflowFieldMap {
    pub original_node_id: String,
    pub original_field_name: String,
    pub exposed_as: String,
    pub required: bool,
    pub input_target: FieldInputTarget,
    pub is_value_map: bool,
    pub map_keys: String,
    pub map_values: String,
    pub randomize: bool,
}

/// A workflow file and the parameters it exposes.
#[derive(Debug, Clone)]
pub struct WorkflowConfig {
    pub active: bool,
    pub file_name: String,
    pub exposed_fields: Vec<WorkflowFieldMap>,
}

/// The whole configuration. `workflows` maps a workflow name to its
/// configuration; a name is looked up at its first entry.
#[derive(Debug, Clone)]
pub struct Config {
    pub comfyui_url: String,
    pub llm: Option<LlmConfig>,
    pub workflows: Vec<(String, WorkflowConfig)>,
    pub enable_openai_compat: bool,
}

impl Default for Config {
    fn default() -> (r: Self)
        ensures
            r.comfyui_url@ == "http://127.0.0.1:8188"@,
            r.llm is None,
            r.workflows@.len() == 0,
            !r.enable_openai_compat,
            r.well_formed(),
    {
        Config {
            comfyui_url: String::from_str("http://127.0.0.1:8188"),
            llm: None,
            workflows: Vec::new(),
            enable_openai_compat: false,
        }
    }
}

/// No two workflows share a name, as in the configuration file, where the
/// workflows are a table keyed by name.
pub open spec fn names_distinct(workflows: Seq<(String, WorkflowConfig)>) -> bool {
    forall|i: int, j: int| 0 <= i < j < workflows.len() ==> workflows[i].0@ != workflows[j].0@
}

impl Config {
    /// The configuration is well formed: its workflow names are distinct.
    pub open spec fn well_formed(&self) -> bool {
        names_distinct(self.workflows@)
    }
}

/// The position of the first workflow named `name`.
pub open spec fn workflow_index(workflows: Seq<(String, WorkflowConfig)>, name: Seq<char>) -> Option<int>
    decreases workflows.len(),
{
    if workflows.len() == 0 {
        None
    } else if workflows[0].0@ == name {
        Some(0)
    } else {
        match workflow_index(workflows.drop_first(), name) {
            Some(i) => Some(i + 1),
            None => None,
        }
    }
}

/// What `workflow_index` returns is the first entry with that name.
pub proof fn lemma_workflow_index(workflows: Seq<(String, WorkflowConfig)>, name: Seq<char>)
    ensures
        workflow_index(workflows, name) matches Some(i) ==> 0 <= i < workflows.len()
            && workflows[i].0@ == name && forall|j: int| 0 <= j < i ==> workflows[j].0@ != name,
        workflow_index(workflows, name) is None ==> forall|j: int|
            0 <= j < workflows.len() ==> workflows[j].0@ != name,
    decreases workflows.len(),
{
    if workflows.len() > 0 && workflows[0].0@ != name {
        lemma_workflow_index(workflows.drop_first(), name);
        assert forall|j: int| 1 <= j < workflows.len() implies workflows[j] == workflows.drop_first()[j
            - 1] by {}
    }
}

proof fn lemma_workflow_index_at(workflows: Seq<(String, WorkflowConfig)>, name: Seq<char>, i: int)
    requires
        0 <= i < workflows.len(),
        workflows[i].0@ == name,
        forall|j: int| 0 <= j < i ==> workflows[j].0@ != name,
    ensures
        workflow_index(workflows, name) == Some(i),
    decreases workflows.len(),
{
    if i > 0 {
        lemma_workflow_index_at(workflows.drop_first(), name, i - 1);
    }
}

proof fn lemma_workflow_index_none(workflows: Seq<(String, WorkflowConfig)>, name: Seq<char>)
    requires
        forall|j: int| 0 <= j < workflows.len() ==> workflows[j].0@ != name,
    ensures
        workflow_index(workflows, name) is None,
    decreases workflows.len(),
{
    if workflows.len() > 0 {
        lemma_workflow_index_none(workflows.drop_first(), name);
    }
}

/// The position of the workflow named `name` (`HashMap::get`).
pub fn find_workflow(workflows: &Vec<(String, WorkflowConfig)>, name: &str) -> (r: Option<usize>)
    ensures
        r matches Some(i) ==> workflow_index(workflows@, name@) == Some(i as int) && i < workflows@.len(),
        r is None ==> workflow_index(workflows@, name@) is None,
{
    let name_s = String::from_str(name);
    let mut i: usize = 0;
    while i < workflows.len()
        invariant
            i <= workflows@.len(),
            name_s@ == name@,
            forall|j: int| 0 <= j < i ==> workflows@[j].0@ != name@,
        decreases workflows.len() - i,
    {
        if workflows[i].0 == name_s {
            proof {
                lemma_workflow_index_at(workflows@, name@, i as int);
            }
            return Some(i);
        }
        i = i + 1;
    }
    proof {
        lemma_workflow_index_none(workflows@, name@);
    }
    None
}

// ---------------------------------------------------------------------------
// Start-up decisions
// ---------------------------------------------------------------------------

/// `p` occurs somewhere in `s`.
pub open spec fn contains_text(s: Seq<char>, p: Seq<char>) -> bool {
    find(s, p) is Some
}

/// A configuration file written before parameters had an input target: it
/// configures workflows but never mentions `input_target`.
pub open spec fn is_legacy_config_text(content: Seq<char>) -> bool {
    contains_text(content, "workflows"@) && !contains_text(content, "input_target"@)
}

/// Whether a configuration file has the old format, which the server
/// offers to migrate at start-up.
pub fn is_legacy_config(content: &str) -> (r: bool)
    ensures
        r == is_legacy_config_text(content@),
{
    let c = chars_of(content);
    find_chars(&c, &chars_of("workflows")).is_some() && find_chars(&c, &chars_of("input_target")).is_none()
}

/// Whether an answer to a yes/no question on the console is yes: `y` in
/// either case, surrounded by any whitespace.
pub fn answer_is_yes(input: &str) -> (r: bool)
    ensures
        r == eq_ignore_ascii_case(trim(input@), "y"@),
{
    eq_ignore_ascii_case_chars(&trim_chars(&chars_of(input)), &chars_of("y"))
}

/// The API keys listed in a comma-separated setting, each trimmed, empty
/// ones dropped, in order.
pub open spec fn api_keys_of(pieces: Seq<Seq<char>>) -> Seq<Seq<char>>
    decreases pieces.len(),
{
    if pieces.len() == 0 {
        Seq::empty()
    } else {
        let prev = api_keys_of(pieces.drop_last());
        if trim(pieces.last()).len() > 0 {
            prev.push(trim(pieces.last()))
        } else {
            prev
        }
    }
}

/// Reads the `API_KEYS` setting: a comma-separated list of keys. An empty
/// or unset setting gives no keys, which leaves the generation endpoints
/// open.
pub fn parse_api_keys(setting: &str) -> (r: Vec<String>)
    ensures
        r@.len() == api_keys_of(split_on(setting@, ',')).len(),
        forall|k: int| 0 <= k < r@.len() ==> #[trigger] r@[k]@ == api_keys_of(split_on(setting@, ','))[k],
{
    let pieces = split_chars(&chars_of(setting), ',');
    let ghost pv = split_on(setting@, ',');
    let mut keys: Vec<String> = Vec::new();
    let mut i: usize = 0;
    assert(pv.take(0) =~= Seq::<Seq<char>>::empty());
    while i < pieces.len()
        invariant
            i <= pieces@.len() == pv.len(),
            forall|m: int| 0 <= m < pieces@.len() ==> #[trigger] pieces@[m]@ == pv[m],
            keys@.len() == api_keys_of(pv.take(i as int)).len(),
            forall|k: int| 0 <= k < keys@.len() ==> #[trigger] keys@[k]@ == api_keys_of(pv.take(i as int))[k],
        decreases pieces@.len() - i,
    {
        assert(pv.take(i + 1).drop_last() =~= pv.take(i as int));
        assert(pv.take(i + 1).last() == pieces@[i as int]@);
        let t = trim_chars(&pieces[i]);
        if t.len() > 0 {
            let ghost before = keys@;
            keys.push(string_of(&t));
            assert forall|k: int| 0 <= k < keys@.len() implies #[trigger] keys@[k]@ == api_keys_of(pv.take(i + 1))[k] by {
                if k < before.len() {
                    assert(keys@[k] == before[k]);
                }
            }
        }
        i = i + 1;
    }
    assert(pv.take(pv.len() as int) =~= pv);
    keys
}

} // verus!
