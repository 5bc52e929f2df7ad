//! Filling a workflow from an API request: the value that each mapped
//! parameter gives its node field, the workflow that a model name selects,
//! and the random seeds of the OpenAI-compatible endpoints.
use vstd::prelude::*;

use crate::config::{
    find_workflow, lemma_workflow_index, names_distinct, workflow_index, FieldInputTarget,
    WorkflowConfig, WorkflowFieldMap,
};
use crate::json::{
    find_member, input_of, input_settable, inputs_not_object, inputs_writable, json_clone,
    lemma_member_index, lemma_member_index_at, lemma_set_input_keeps_settable, lemma_set_input_reads_back, member_index,
    members_view, set_input, workflow_with_input, Json, JsonValue,
};
use crate::json_text::{json_parse, json_serialize, json_text, parse_json};
use crate::text::{
    chars_of, contains_string, eq_chars, join_str, replace_all, replace_chars, split_chars,
    split_on, str_eq, string_clone, string_of, strings_view, text_opt, trim, trim_chars,
};

verus! {

broadcast use vstd::string::group_string_axioms;

// ---------------------------------------------------------------------------
// Numbers as text
// ---------------------------------------------------------------------------

/// The decimal digit `d`.
pub open spec fn digit_char(d: nat) -> char {
    "0123456789"@[d as int]
}

/// The decimal text of `n`, as `u64`'s `Display` writes it.
pub open spec fn decimal(n: nat) -> Seq<char>
    decreases n,
{
    if n < 10 {
        seq![digit_char(n)]
    } else {
        decimal(n / 10).push(digit_char(n % 10))
    }
}

/// Appends the decimal text of `n`.
fn push_decimal(out: &mut Vec<char>, n: u64)
    ensures
        final(out)@ == old(out)@ + decimal(n as nat),
    decreases n,
{
    let digits = chars_of("0123456789");
    proof {
        reveal_strlit("0123456789");
    }
    if n >= 10 {
        push_decimal(out, n / 10);
    }
    out.push(digits[(n % 10) as usize]);
    assert(out@ =~= old(out)@ + decimal(n as nat));
}

/// The JSON number `n`.
pub fn number_value(n: u64) -> (r: JsonValue)
    ensures
        r@ == Json::Number(decimal(n as nat)),
{
    let mut out: Vec<char> = Vec::new();
    push_decimal(&mut out, n);
    assert(out@ =~= decimal(n as nat));
    JsonValue::Number(string_of(&out))
}

// ---------------------------------------------------------------------------
// Outside code: rand
// ---------------------------------------------------------------------------

/// `rand::random::<u64>()`: a number drawn from the thread-local generator.
/// Nothing is claimed of it.
#[verifier::external_body]
fn random_u64() -> (r: u64) {
    rand::random::<u64>()
}

// ---------------------------------------------------------------------------
// The value of one mapped parameter
// ---------------------------------------------------------------------------

/// The text of an incoming value: a string as it is, a boolean as `true` or
/// `false`, a number as its own text, anything else as its compact JSON
/// text.
pub open spec fn incoming_text(v: Json) -> Seq<char> {
    match v {
        Json::Str(s) => s,
        Json::Bool(b) => if b {
            "true"@
        } else {
            "false"@
        },
        Json::Number(t) => t,
        _ => json_serialize(v),
    }
}

/// The text of an incoming value.
pub fn incoming_string(v: &JsonValue) -> (r: String)
    ensures
        r@ == incoming_text(v@),
{
    match v {
        JsonValue::Str(s) => string_clone(s),
        JsonValue::Bool(b) => if *b {
            String::from_str("true")
        } else {
            String::from_str("false")
        },
        JsonValue::Number(t) => string_clone(t),
        _ => json_text(v),
    }
}

/// The entries of a comma-separated list of a value map, each trimmed.
pub open spec fn map_entries(s: Seq<char>) -> Seq<Seq<char>> {
    split_on(s, ',').map_values(|p: Seq<char>| trim(p))
}

/// The first position at or after `i` where `x` is among `items`.
pub open spec fn position_from(items: Seq<Seq<char>>, x: Seq<char>, i: int) -> Option<int>
    decreases items.len() - i,
{
    if i < 0 || i >= items.len() {
        None
    } else if items[i] == x {
        Some(i)
    } else {
        position_from(items, x, i + 1)
    }
}

/// The value that a value map gives an incoming text: the entry of
/// `map_values` at the position of the first entry of `map_keys` equal to
/// it, when there is one.
pub open spec fn mapped_value(map_keys: Seq<char>, map_values: Seq<char>, incoming: Seq<char>) -> Option<
    Seq<char>,
> {
    let keys = map_entries(map_keys);
    let values = map_entries(map_values);
    match position_from(keys, incoming, 0) {
        Some(i) => if i < values.len() {
            Some(values[i])
        } else {
            None
        },
        None => None,
    }
}

/// The entries of a comma-separated list, each trimmed.
fn entries_of(s: &String) -> (r: Vec<Vec<char>>)
    ensures
        r@.len() == map_entries(s@).len(),
        forall|k: int| 0 <= k < r@.len() ==> #[trigger] r@[k]@ == map_entries(s@)[k],
{
    let pieces = split_chars(&chars_of(s.as_str()), ',');
    let mut out: Vec<Vec<char>> = Vec::new();
    let mut i: usize = 0;
    while i < pieces.len()
        invariant
            i <= pieces@.len() == split_on(s@, ',').len(),
            forall|k: int| 0 <= k < pieces@.len() ==> #[trigger] pieces@[k]@ == split_on(s@, ',')[k],
            out@.len() == i,
            forall|k: int| 0 <= k < i ==> #[trigger] out@[k]@ == trim(split_on(s@, ',')[k]),
        decreases pieces@.len() - i,
    {
        out.push(trim_chars(&pieces[i]));
        i = i + 1;
    }
    out
}

/// The value that the value map of `field` gives `incoming`.
fn lookup_mapped(field: &WorkflowFieldMap, incoming: &String) -> (r: Option<String>)
    ensures
        r matches Some(t) ==> mapped_value(field.map_keys@, field.map_values@, incoming@) == Some(t@),
        r is None ==> mapped_value(field.map_keys@, field.map_values@, incoming@) is None,
{
    let keys = entries_of(&field.map_keys);
    let values = entries_of(&field.map_values);
    let ghost kv = map_entries(field.map_keys@);
    let inc = chars_of(incoming.as_str());
    let mut i: usize = 0;
    while i < keys.len()
        invariant
            i <= keys@.len() == kv.len(),
            kv == map_entries(field.map_keys@),
            forall|k: int| 0 <= k < keys@.len() ==> #[trigger] keys@[k]@ == kv[k],
            values@.len() == map_entries(field.map_values@).len(),
            forall|k: int| 0 <= k < values@.len() ==> #[trigger] values@[k]@ == map_entries(field.map_values@)[k],
            inc@ == incoming@,
            position_from(kv, incoming@, 0) == position_from(kv, incoming@, i as int),
        decreases keys@.len() - i,
    {
        if eq_chars(&keys[i], &inc) {
            if i < values.len() {
                return Some(string_of(&values[i]));
            } else {
                return None;
            }
        }
        i = i + 1;
    }
    None
}

/// The JSON value written in a text, or the text itself as a string when
/// it is not JSON.
pub open spec fn parsed_or_text(t: Seq<char>) -> Json {
    match json_parse(t) {
        Some(j) => j,
        None => Json::Str(t),
    }
}

/// The JSON value written in `t`, or `t` as a string when it is not JSON.
pub fn parse_or_text(t: String) -> (r: JsonValue)
    ensures
        r@ == parsed_or_text(t@),
{
    match parse_json(t.as_str()) {
        Some(v) => v,
        None => JsonValue::Str(t),
    }
}

/// What a mapped parameter asks of the workflow, as plain values.
pub enum FieldPlan {
    Missing(Seq<char>),
    Skip,
    Assign(Json),
    Image(Seq<char>),
}

/// What to do with one mapped parameter of a generation request.
pub enum FieldAction {
    /// A required parameter is missing: the request is refused with this
    /// message.
    Missing(String),
    /// The parameter was not given: the field keeps its value.
    Skip,
    /// The field gets this value.
    Assign(JsonValue),
    /// The parameter is an image: the field gets what processing this text
    /// for the field's target gives.
    Image(String),
}

impl View for FieldAction {
    type V = FieldPlan;

    open spec fn view(&self) -> FieldPlan {
        match self {
            FieldAction::Missing(m) => FieldPlan::Missing(m@),
            FieldAction::Skip => FieldPlan::Skip,
            FieldAction::Assign(v) => FieldPlan::Assign(v@),
            FieldAction::Image(t) => FieldPlan::Image(t@),
        }
    }
}

/// What the request parameters `params` ask of the field mapped by
/// `field`: a missing required parameter refuses the request, a missing
/// optional one leaves the field alone; an image parameter is processed
/// from its text; a value map turns a listed text into the JSON value (or
/// else the text) of the matching entry;
/// any other value is set as it is.
pub open spec fn field_plan(field: WorkflowFieldMap, params: Seq<(Seq<char>, Json)>) -> FieldPlan {
    match member_index(params, field.exposed_as@) {
        None => if field.required {
            FieldPlan::Missing("Missing required parameter: "@ + field.exposed_as@)
        } else {
            FieldPlan::Skip
        },
        Some(i) => {
            let val = params[i].1;
            if field.input_target != FieldInputTarget::Text {
                FieldPlan::Image(incoming_text(val))
            } else if field.is_value_map {
                match mapped_value(field.map_keys@, field.map_values@, incoming_text(val)) {
                    Some(t) => FieldPlan::Assign(parsed_or_text(t)),
                    None => FieldPlan::Assign(val),
                }
            } else {
                FieldPlan::Assign(val)
            }
        },
    }
}

/// Decides what the request parameters ask of one mapped field. The
/// parameters are the members of the request's `params` object.
pub fn field_action(field: &WorkflowFieldMap, params: &Vec<(String, JsonValue)>) -> (r: FieldAction)
    ensures
        r@ == field_plan(*field, members_view(params@)),
{
    proof {
        lemma_member_index(members_view(params@), field.exposed_as@);
    }
    match find_member(params, field.exposed_as.as_str()) {
        None => {
            if field.required {
                FieldAction::Missing(join_str("Missing required parameter: ", field.exposed_as.as_str()))
            } else {
                FieldAction::Skip
            }
        },
        Some(i) => {
            let val = &params[i].1;
            if field.input_target != FieldInputTarget::Text {
                FieldAction::Image(incoming_string(val))
            } else if field.is_value_map {
                let incoming = incoming_string(val);
                match lookup_mapped(field, &incoming) {
                    Some(t) => FieldAction::Assign(parse_or_text(t)),
                    None => FieldAction::Assign(json_clone(val)),
                }
            } else {
                FieldAction::Assign(json_clone(val))
            }
        },
    }
}

/// Law: a request is refused for a field exactly when the field is required
/// and no parameter carries its exposed name; a parameter that is given is
/// never reported missing, whether or not the field is required.
pub proof fn lemma_missing_iff_required_and_absent(
    field: WorkflowFieldMap,
    params: Seq<(Seq<char>, Json)>,
)
    ensures
        (field_plan(field, params) is Missing) <==> (field.required && forall|j: int|
            0 <= j < params.len() ==> params[j].0 != field.exposed_as@),
        (field_plan(field, params) is Skip) <==> (!field.required && forall|j: int|
            0 <= j < params.len() ==> params[j].0 != field.exposed_as@),
{
    lemma_member_index(params, field.exposed_as@);
}

/// Law: when the parameter named like the field is given (its first
/// occurrence at `i`), a plain text field is set to exactly the given value,
/// whether or not the field is required, and an image field is handed the
/// value's text to process.
pub proof fn lemma_given_parameter_applied(
    field: WorkflowFieldMap,
    params: Seq<(Seq<char>, Json)>,
    i: int,
)
    requires
        0 <= i < params.len(),
        params[i].0 == field.exposed_as@,
        forall|j: int| 0 <= j < i ==> params[j].0 != field.exposed_as@,
    ensures
        !(field_plan(field, params) is Missing),
        !(field_plan(field, params) is Skip),
        field.input_target == FieldInputTarget::Text && !field.is_value_map ==> field_plan(
            field,
            params,
        ) == FieldPlan::Assign(params[i].1),
        field.input_target != FieldInputTarget::Text ==> field_plan(field, params)
            == FieldPlan::Image(incoming_text(params[i].1)),
{
    lemma_member_index_at(params, field.exposed_as@, i);
}

/// The message of a failed image parameter.
pub fn image_failure_message(exposed_as: &str, error: &str) -> (r: String)
    ensures
        r@ == "Image processing failed for "@ + exposed_as@ + ": "@ + error@,
{
    let mut m = join_str("Image processing failed for ", exposed_as);
    m.append(": ");
    m.append(error);
    m
}

/// An outcome as plain values.
pub open spec fn outcome_view(r: Result<String, String>) -> Result<Seq<char>, Seq<char>> {
    match r {
        Ok(s) => Ok(s@),
        Err(e) => Err(e@),
    }
}

/// Outcomes as plain values.
pub open spec fn outcomes_view(v: Seq<Result<String, String>>) -> Seq<Result<Seq<char>, Seq<char>>> {
    v.map_values(|x: Result<String, String>| outcome_view(x))
}

/// A filled workflow as plain values.
pub open spec fn filled_view(r: Option<Result<JsonValue, String>>) -> Option<Result<Json, Seq<char>>> {
    match r {
        Some(Ok(w)) => Some(Ok(w@)),
        Some(Err(m)) => Some(Err(m@)),
        None => None,
    }
}

/// Writes `val` into input `field` of node `node_id`, or `None` when that
/// node's `inputs` member is not an object and cannot take it.
pub open spec fn write_input(wf: Json, node_id: Seq<char>, field: Seq<char>, val: Json) -> Option<
    Result<Json, Seq<char>>,
> {
    if inputs_not_object(wf, node_id) {
        None
    } else {
        Some(Ok(set_input(wf, node_id, field, val)))
    }
}

/// One field of the generate endpoint: `image` is what processing the
/// field's image gave, when the field is an image parameter.
pub open spec fn generate_step(
    wf: Json,
    f: WorkflowFieldMap,
    params: Seq<(Seq<char>, Json)>,
    image: Result<Seq<char>, Seq<char>>,
) -> Option<Result<Json, Seq<char>>> {
    match field_plan(f, params) {
        FieldPlan::Missing(m) => Some(Err(m)),
        FieldPlan::Skip => Some(Ok(wf)),
        FieldPlan::Assign(v) => write_input(wf, f.original_node_id@, f.original_field_name@, v),
        FieldPlan::Image(_) => match image {
            Ok(t) => write_input(wf, f.original_node_id@, f.original_field_name@, Json::Str(t)),
            Err(e) => Some(Err("Image processing failed for "@ + f.exposed_as@ + ": "@ + e)),
        },
    }
}

/// The workflow that the generate endpoint submits: the fields set in
/// order, the first refusal ending it (`Err`), and `None` where a write
/// meets a node whose `inputs` is not an object.
pub open spec fn generate_fill(
    wf: Json,
    fields: Seq<WorkflowFieldMap>,
    params: Seq<(Seq<char>, Json)>,
    images: Seq<Result<Seq<char>, Seq<char>>>,
) -> Option<Result<Json, Seq<char>>>
    decreases fields.len(),
{
    if fields.len() == 0 {
        Some(Ok(wf))
    } else {
        let n = fields.len() - 1;
        match generate_fill(wf, fields.drop_last(), params, images) {
            Some(Ok(prev)) => generate_step(prev, fields[n], params, images[n]),
            other => other,
        }
    }
}

/// Writes `val` into a field, or `None` where the node's `inputs` is not
/// an object.
fn write_field(wf: JsonValue, f: &WorkflowFieldMap, val: JsonValue) -> (r: Option<Result<JsonValue, String>>)
    ensures
        filled_view(r) == write_input(wf@, f.original_node_id@, f.original_field_name@, val@),
{
    if inputs_writable(&wf, f.original_node_id.as_str()) {
        Some(Ok(workflow_with_input(wf, f.original_node_id.as_str(), string_clone(&f.original_field_name), val)))
    } else {
        None
    }
}

/// Fills a workflow for the generate endpoint from the request parameters
/// `params` and the outcome of processing each image parameter
/// (`images[i]` for field `i`; ignored for other fields). Returns the
/// refusal of the first missing required parameter or failed image, and
/// `None` where a write meets a node whose `inputs` is not an object.
pub fn fill_generate(
    wf: JsonValue,
    fields: &Vec<WorkflowFieldMap>,
    params: &Vec<(String, JsonValue)>,
    images: &Vec<Result<String, String>>,
) -> (r: Option<Result<JsonValue, String>>)
    requires
        images@.len() == fields@.len(),
    ensures
        filled_view(r) == generate_fill(
            wf@,
            fields@,
            members_view(params@),
            outcomes_view(images@),
        ),
{
    let ghost wf0 = wf@;
    let ghost pv = members_view(params@);
    let ghost iv = outcomes_view(images@);
    let mut cur = wf;
    let mut i: usize = 0;
    assert(fields@.take(0) =~= Seq::<WorkflowFieldMap>::empty());
    while i < fields.len()
        invariant
            i <= fields@.len() == images@.len(),
            pv == members_view(params@),
            iv == outcomes_view(images@),
            wf0 == wf@,
            generate_fill(wf0, fields@.take(i as int), pv, iv) == Some(Ok::<Json, Seq<char>>(cur@)),
        decreases fields.len() - i,
    {
        let f = &fields[i];
        let ghost t = fields@.take(i + 1);
        assert(t.drop_last() =~= fields@.take(i as int));
        assert(t[i as int] == fields@[i as int]);
        assert(iv[i as int] == outcome_view(images@[i as int]));
        let ghost before = cur@;
        let step = match field_action(f, params) {
            FieldAction::Missing(m) => Some(Err(m)),
            FieldAction::Skip => Some(Ok(cur)),
            FieldAction::Assign(v) => write_field(cur, f, v),
            FieldAction::Image(_) => match &images[i] {
                Ok(text) => write_field(cur, f, JsonValue::Str(string_clone(text))),
                Err(e) => Some(Err(image_failure_message(f.exposed_as.as_str(), e.as_str()))),
            },
        };
        assert(filled_view(step) == generate_step(before, fields@[i as int], pv, iv[i as int]));
        assert(generate_fill(wf0, t, pv, iv) == generate_step(before, fields@[i as int], pv, iv[i as int]));
        match step {
            Some(Ok(next)) => {
                cur = next;
            },
            other => {
                proof {
                    lemma_fill_stops_generate(wf0, fields@, pv, iv, i as int + 1);
                }
                assert(filled_view(other) == generate_fill(wf0, t, pv, iv));
                assert(generate_fill(wf0, fields@, pv, iv) == generate_fill(wf0, t, pv, iv));
                return other;
            },
        }
        i = i + 1;
    }
    assert(fields@.take(fields@.len() as int) =~= fields@);
    Some(Ok(cur))
}

/// Once filling stops, it stays stopped.
proof fn lemma_fill_stops_generate(
    wf: Json,
    fields: Seq<WorkflowFieldMap>,
    params: Seq<(Seq<char>, Json)>,
    images: Seq<Result<Seq<char>, Seq<char>>>,
    k: int,
)
    requires
        0 <= k <= fields.len(),
        !(generate_fill(wf, fields.take(k), params, images) matches Some(Ok(_))),
    ensures
        generate_fill(wf, fields, params, images) == generate_fill(wf, fields.take(k), params, images),
    decreases fields.len() - k,
{
    if k < fields.len() {
        assert(fields.take(k + 1).drop_last() =~= fields.take(k));
        lemma_fill_stops_generate(wf, fields, params, images, k + 1);
    } else {
        assert(fields.take(k) =~= fields);
    }
}

// ---------------------------------------------------------------------------
// Which workflow a request names
// ---------------------------------------------------------------------------

/// The position of the first active workflow at or after `i`.
pub open spec fn first_active_from(ws: Seq<(String, WorkflowConfig)>, i: int) -> Option<int>
    decreases ws.len() - i,
{
    if i < 0 || i >= ws.len() {
        None
    } else if ws[i].1.active {
        Some(i)
    } else {
        first_active_from(ws, i + 1)
    }
}

/// The name a client may have meant when it wrote `-` for `_`.
pub open spec fn slug_fallback(name: Seq<char>) -> Seq<char> {
    replace_all(name, "-"@, "_"@)
}

/// The outcome of choosing a workflow, as plain values.
pub enum Selection {
    Chosen(Seq<char>, int),
    NoActive,
    Inactive,
    NotFound(Seq<char>),
}

/// The choice for the fallback name of `target`.
pub open spec fn fallback_selection(ws: Seq<(String, WorkflowConfig)>, target: Seq<char>) -> Selection {
    let alt = slug_fallback(target);
    match workflow_index(ws, alt) {
        Some(j) => if ws[j].1.active {
            Selection::Chosen(alt, j)
        } else {
            Selection::Inactive
        },
        None => Selection::NotFound(target),
    }
}

/// The choice for a named target: the workflow of that name when it is
/// active, else the fallback name.
pub open spec fn target_selection(ws: Seq<(String, WorkflowConfig)>, target: Seq<char>) -> Selection {
    match workflow_index(ws, target) {
        Some(i) => if ws[i].1.active {
            Selection::Chosen(target, i)
        } else {
            fallback_selection(ws, target)
        },
        None => fallback_selection(ws, target),
    }
}

/// The workflow that the OpenAI-compatible endpoints use for a request:
/// the requested model, or else the first active workflow.
pub open spec fn selection(ws: Seq<(String, WorkflowConfig)>, model: Option<Seq<char>>) -> Selection {
    match model {
        Some(m) => target_selection(ws, m),
        None => match first_active_from(ws, 0) {
            Some(i) => target_selection(ws, ws[i].0@),
            None => Selection::NoActive,
        },
    }
}

/// Why no workflow was chosen.
pub enum SelectError {
    /// No model was named and no workflow is active.
    NoActive,
    /// The workflow found is not active.
    Inactive,
    /// No workflow has the requested name.
    NotFound(String),
}

/// The outcome of `select_workflow` as plain values.
pub open spec fn selection_of(r: Result<(String, usize), SelectError>) -> Selection {
    match r {
        Ok((n, i)) => Selection::Chosen(n@, i as int),
        Err(SelectError::NoActive) => Selection::NoActive,
        Err(SelectError::Inactive) => Selection::Inactive,
        Err(SelectError::NotFound(t)) => Selection::NotFound(t@),
    }
}

impl SelectError {
    /// The message of the image generation endpoint.
    pub fn generation_message(&self) -> (r: String)
        ensures
            r@ == (match self {
                SelectError::NoActive => "No active workflows configured"@,
                _ => "Workflow not active or not found"@,
            }),
    {
        match self {
            SelectError::NoActive => String::from_str("No active workflows configured"),
            _ => String::from_str("Workflow not active or not found"),
        }
    }

    /// The message of the image edit endpoint.
    pub fn edit_message(&self) -> (r: String)
        ensures
            r@ == (match self {
                SelectError::NoActive => "No active workflows configured"@,
                SelectError::Inactive => "Workflow is inactive"@,
                SelectError::NotFound(t) => "Workflow '"@ + t@ + "' not found"@,
            }),
    {
        match self {
            SelectError::NoActive => String::from_str("No active workflows configured"),
            SelectError::Inactive => String::from_str("Workflow is inactive"),
            SelectError::NotFound(t) => {
                let mut m = join_str("Workflow '", t.as_str());
                m.append("' not found");
                m
            },
        }
    }
}

/// The position of the first active workflow.
fn first_active(workflows: &Vec<(String, WorkflowConfig)>) -> (r: Option<usize>)
    ensures
        r matches Some(i) ==> first_active_from(workflows@, 0) == Some(i as int) && i < workflows@.len(),
        r is None ==> first_active_from(workflows@, 0) is None,
{
    let mut i: usize = 0;
    while i < workflows.len()
        invariant
            i <= workflows@.len(),
            first_active_from(workflows@, 0) == first_active_from(workflows@, i as int),
        decreases workflows.len() - i,
    {
        if workflows[i].1.active {
            return Some(i);
        }
        i = i + 1;
    }
    None
}

/// Chooses the workflow named `target`, or the one its fallback name names.
fn select_target(workflows: &Vec<(String, WorkflowConfig)>, target: String) -> (r: Result<(String, usize), SelectError>)
    ensures
        selection_of(r) == target_selection(workflows@, target@),
        r matches Ok((_, i)) ==> i < workflows@.len(),
{
    match find_workflow(workflows, target.as_str()) {
        Some(i) => {
            if workflows[i].1.active {
                return Ok((target, i));
            }
        },
        None => {},
    }
    let dash = chars_of("-");
    proof {
        reveal_strlit("-");
    }
    let alt = string_of(&replace_chars(&chars_of(target.as_str()), &dash, &chars_of("_")));
    match find_workflow(workflows, alt.as_str()) {
        Some(j) => {
            if workflows[j].1.active {
                Ok((alt, j))
            } else {
                Err(SelectError::Inactive)
            }
        },
        None => Err(SelectError::NotFound(target)),
    }
}

/// Chooses the workflow for an OpenAI-compatible request: the requested
/// model, or the first active workflow when none is named. A model that is
/// missing or inactive is retried with each `-` read as `_`, as clients
/// that slugify names write them. Returns the name used and its position.
pub fn select_workflow(workflows: &Vec<(String, WorkflowConfig)>, model: Option<String>) -> (r: Result<
    (String, usize),
    SelectError,
>)
    ensures
        selection_of(r) == selection(workflows@, text_opt(model)),
        r matches Ok((_, i)) ==> i < workflows@.len(),
{
    match model {
        Some(m) => select_target(workflows, m),
        None => match first_active(workflows) {
            Some(i) => select_target(workflows, string_clone(&workflows[i].0)),
            None => Err(SelectError::NoActive),
        },
    }
}

/// The position of the workflow named `name` when it is active.
pub fn active_workflow(workflows: &Vec<(String, WorkflowConfig)>, name: &str) -> (r: Option<usize>)
    ensures
        r matches Some(i) ==> workflow_index(workflows@, name@) == Some(i as int) && i < workflows@.len()
            && workflows@[i as int].1.active,
        r is None ==> match workflow_index(workflows@, name@) {
            Some(i) => !workflows@[i].1.active,
            None => true,
        },
{
    match find_workflow(workflows, name) {
        Some(i) => if workflows[i].1.active {
            Some(i)
        } else {
            None
        },
        None => None,
    }
}

// ---------------------------------------------------------------------------
// The OpenAI-compatible endpoints
// ---------------------------------------------------------------------------

/// The parameter that carries the prompt.
pub open spec fn is_prompt_field(f: WorkflowFieldMap) -> bool {
    f.exposed_as@ == "prompt"@
}

/// A prompt parameter mapped onto an image input, which the generation
/// endpoint refuses.
pub open spec fn prompt_on_image(f: WorkflowFieldMap) -> bool {
    is_prompt_field(f) && f.input_target != FieldInputTarget::Text
}

/// The message with which the generation endpoint refuses a prompt mapped
/// onto an image input.
pub open spec fn prompt_on_image_message() -> Seq<char> {
    "The prompt field is mapped to an image input, which is not supported by the /v1/images/generations endpoint."@
}

/// The value that the generation endpoint gives a mapped field: the prompt
/// for the prompt parameter, the seed for a randomized one.
pub open spec fn generation_value(f: WorkflowFieldMap, prompt: Seq<char>, seed: u64) -> Option<Json> {
    if is_prompt_field(f) {
        Some(Json::Str(prompt))
    } else if f.randomize {
        Some(Json::Number(decimal(seed as nat)))
    } else {
        None
    }
}

/// A generation request refused because a prompt is mapped onto an image.
pub open spec fn generation_refused(fields: Seq<WorkflowFieldMap>) -> bool {
    exists|i: int| 0 <= i < fields.len() && prompt_on_image(#[trigger] fields[i])
}

/// The workflow after the generation endpoint has set its fields in
/// order, field `i` drawing `seeds[i]`.
pub open spec fn apply_generation(
    wf: Json,
    fields: Seq<WorkflowFieldMap>,
    prompt: Seq<char>,
    seeds: Seq<u64>,
) -> Json
    decreases fields.len(),
{
    if fields.len() == 0 {
        wf
    } else {
        let n = fields.len() - 1;
        let prev = apply_generation(wf, fields.drop_last(), prompt, seeds);
        let f = fields[n];
        match generation_value(f, prompt, seeds[n]) {
            Some(v) => set_input(prev, f.original_node_id@, f.original_field_name@, v),
            None => prev,
        }
    }
}

/// A field to which the generation endpoint writes a value.
pub open spec fn generation_writes(f: WorkflowFieldMap) -> bool {
    (is_prompt_field(f) && f.input_target == FieldInputTarget::Text) || (!is_prompt_field(f)
        && f.randomize)
}

/// The generation endpoint would write into a node whose `inputs` member
/// is not an object before any refusal: the write fails.
pub open spec fn generation_breaks(wf: Json, fields: Seq<WorkflowFieldMap>) -> bool {
    exists|i: int|
        0 <= i < fields.len() && generation_writes(#[trigger] fields[i]) && inputs_not_object(
            wf,
            fields[i].original_node_id@,
        ) && forall|j: int| 0 <= j < i ==> !prompt_on_image(#[trigger] fields[j])
}

/// Whether the generation endpoint can fill `wf` through `fields` without
/// writing into a node whose `inputs` member is not an object.
pub fn generation_writable(wf: &JsonValue, fields: &Vec<WorkflowFieldMap>) -> (r: bool)
    ensures
        r == !generation_breaks(wf@, fields@),
{
    let mut i: usize = 0;
    while i < fields.len()
        invariant
            i <= fields@.len(),
            forall|k: int|
                0 <= k < i ==> !prompt_on_image(#[trigger] fields@[k]) && !(generation_writes(
                    fields@[k],
                ) && inputs_not_object(wf@, fields@[k].original_node_id@)),
        decreases fields.len() - i,
    {
        let f = &fields[i];
        let is_prompt = str_eq(f.exposed_as.as_str(), "prompt");
        if is_prompt && f.input_target != FieldInputTarget::Text {
            assert(prompt_on_image(fields@[i as int]));
            return true;
        }
        let writes = (is_prompt && f.input_target == FieldInputTarget::Text) || (!is_prompt
            && f.randomize);
        if writes && !inputs_writable(wf, f.original_node_id.as_str()) {
            assert(generation_writes(fields@[i as int]));
            return false;
        }
        i = i + 1;
    }
    true
}

/// Sets the fields of a workflow for the generation endpoint: the prompt
/// parameter gets the prompt, each randomized parameter the seed of its
/// position. A prompt mapped onto an image input refuses the request.
pub fn fill_generation(
    wf: JsonValue,
    fields: &Vec<WorkflowFieldMap>,
    prompt: &str,
    seeds: &Vec<u64>,
) -> (r: Result<JsonValue, String>)
    requires
        seeds@.len() == fields@.len(),
        !generation_breaks(wf@, fields@),
    ensures
        r is Err <==> generation_refused(fields@),
        r matches Err(m) ==> m@ == prompt_on_image_message(),
        r matches Ok(x) ==> x@ == apply_generation(wf@, fields@, prompt@, seeds@),
{
    let ghost wf0 = wf@;
    let mut wf = wf;
    let mut i: usize = 0;
    assert(fields@.take(0) =~= Seq::<WorkflowFieldMap>::empty());
    while i < fields.len()
        invariant
            i <= fields@.len() == seeds@.len(),
            wf@ == apply_generation(wf0, fields@.take(i as int), prompt@, seeds@),
            forall|k: int| 0 <= k < i ==> !prompt_on_image(#[trigger] fields@[k]),
        decreases fields.len() - i,
    {
        let f = &fields[i];
        assert(fields@.take(i + 1).drop_last() =~= fields@.take(i as int));
        assert(fields@.take(i + 1)[i as int] == fields@[i as int]);
        if str_eq(f.exposed_as.as_str(), "prompt") {
            if f.input_target != FieldInputTarget::Text {
                assert(prompt_on_image(fields@[i as int]));
                return Err(
                    String::from_str(
                        "The prompt field is mapped to an image input, which is not supported by the /v1/images/generations endpoint.",
                    ),
                );
            }
            wf = workflow_with_input(
                wf,
                f.original_node_id.as_str(),
                string_clone(&f.original_field_name),
                JsonValue::Str(String::from_str(prompt)),
            );
        } else if f.randomize {
            wf = workflow_with_input(
                wf,
                f.original_node_id.as_str(),
                string_clone(&f.original_field_name),
                number_value(seeds[i]),
            );
        }
        i = i + 1;
    }
    assert(fields@.take(fields@.len() as int) =~= fields@);
    Ok(wf)
}

/// Sets the fields of a workflow for the generation endpoint, drawing a
/// random seed for each randomized parameter.
pub fn generation_workflow(wf: JsonValue, fields: &Vec<WorkflowFieldMap>, prompt: &str) -> (r: Result<
    JsonValue,
    String,
>)
    requires
        !generation_breaks(wf@, fields@),
    ensures
        r is Err <==> generation_refused(fields@),
        r matches Err(m) ==> m@ == prompt_on_image_message(),
        r matches Ok(x) ==> exists|seeds: Seq<u64>|
            seeds.len() == fields@.len() && x@ == apply_generation(wf@, fields@, prompt@, seeds),
{
    let mut seeds: Vec<u64> = Vec::new();
    let mut i: usize = 0;
    while i < fields.len()
        invariant
            i <= fields@.len(),
            seeds@.len() == i,
        decreases fields.len() - i,
    {
        seeds.push(random_u64());
        i = i + 1;
    }
    fill_generation(wf, fields, prompt, &seeds)
}

/// What the edit endpoint does with a mapped field, as plain values.
pub enum EditPlan {
    Assign(Json),
    Image,
    Skip,
}

/// What the edit endpoint does with one mapped field.
pub enum EditAction {
    /// The field gets this value.
    Assign(JsonValue),
    /// The field gets what processing the uploaded image for the field's
    /// target gives.
    Image,
    /// The field keeps its value.
    Skip,
}

impl View for EditAction {
    type V = EditPlan;

    open spec fn view(&self) -> EditPlan {
        match self {
            EditAction::Assign(v) => EditPlan::Assign(v@),
            EditAction::Image => EditPlan::Image,
            EditAction::Skip => EditPlan::Skip,
        }
    }
}

/// The edit endpoint sets the prompt parameter to the prompt, the `image`
/// parameter to the processed upload, and a randomized parameter to a
/// seed.
pub open spec fn edit_plan(f: WorkflowFieldMap, prompt: Seq<char>, seed: u64) -> EditPlan {
    if is_prompt_field(f) {
        EditPlan::Assign(Json::Str(prompt))
    } else if f.exposed_as@ == "image"@ {
        EditPlan::Image
    } else if f.randomize {
        EditPlan::Assign(Json::Number(decimal(seed as nat)))
    } else {
        EditPlan::Skip
    }
}

/// What the edit endpoint does with field `f`, given the seed it draws.
pub fn edit_field_value(f: &WorkflowFieldMap, prompt: &str, seed: u64) -> (r: EditAction)
    ensures
        r@ == edit_plan(*f, prompt@, seed),
{
    if str_eq(f.exposed_as.as_str(), "prompt") {
        EditAction::Assign(JsonValue::Str(String::from_str(prompt)))
    } else if str_eq(f.exposed_as.as_str(), "image") {
        EditAction::Image
    } else if f.randomize {
        EditAction::Assign(number_value(seed))
    } else {
        EditAction::Skip
    }
}

/// The message of an uploaded image that could not be processed.
pub fn edit_image_failure_message(error: &str) -> (r: String)
    ensures
        r@ == "Failed to process image: "@ + error@,
{
    join_str("Failed to process image: ", error)
}


// ---------------------------------------------------------------------------
// Models
// ---------------------------------------------------------------------------

/// The positions, in order, of the workflows among the first `n` that are
/// active and whose workflow file is present.
pub open spec fn listed_workflows(ws: Seq<(String, WorkflowConfig)>, on_disk: Seq<Seq<char>>, n: int) -> Seq<
    int,
>
    decreases n,
{
    if n <= 0 {
        Seq::empty()
    } else {
        let prev = listed_workflows(ws, on_disk, n - 1);
        if ws[n - 1].1.active && on_disk.contains(ws[n - 1].0@) {
            prev.push(n - 1)
        } else {
            prev
        }
    }
}

/// The workflows offered as models: the active ones whose workflow file is
/// present, as positions in `workflows`, in order.
pub fn available_workflows(workflows: &Vec<(String, WorkflowConfig)>, on_disk: &Vec<String>) -> (r: Vec<
    usize,
>)
    ensures
        r@.len() == listed_workflows(workflows@, strings_view(on_disk@), workflows@.len() as int).len(),
        forall|k: int|
            0 <= k < r@.len() ==> #[trigger] r@[k] as int == listed_workflows(
                workflows@,
                strings_view(on_disk@),
                workflows@.len() as int,
            )[k],
{
    let ghost disk = strings_view(on_disk@);
    let mut out: Vec<usize> = Vec::new();
    let mut i: usize = 0;
    while i < workflows.len()
        invariant
            i <= workflows@.len(),
            disk == strings_view(on_disk@),
            out@.len() == listed_workflows(workflows@, disk, i as int).len(),
            forall|k: int|
                0 <= k < out@.len() ==> #[trigger] out@[k] as int == listed_workflows(
                    workflows@,
                    disk,
                    i as int,
                )[k],
        decreases workflows.len() - i,
    {
        if workflows[i].1.active && contains_string(on_disk, &workflows[i].0) {
            out.push(i);
        }
        i = i + 1;
    }
    out
}

// ---------------------------------------------------------------------------
// Laws
// ---------------------------------------------------------------------------

/// What `first_active_from` finds is an active workflow.
proof fn lemma_first_active(ws: Seq<(String, WorkflowConfig)>, i: int)
    ensures
        first_active_from(ws, i) matches Some(k) ==> 0 <= k < ws.len() && ws[k].1.active,
    decreases ws.len() - i,
{
    if 0 <= i < ws.len() && !ws[i].1.active {
        lemma_first_active(ws, i + 1);
    }
}

/// Law: the workflow that an OpenAI-compatible request is served by is
/// always an active one, found under the name that is reported.
pub proof fn lemma_selection_active(ws: Seq<(String, WorkflowConfig)>, model: Option<Seq<char>>)
    ensures
        selection(ws, model) matches Selection::Chosen(n, i) ==> 0 <= i < ws.len() && ws[i].1.active
            && ws[i].0@ == n,
{
    lemma_first_active(ws, 0);
    let target = match model {
        Some(m) => m,
        None => match first_active_from(ws, 0) {
            Some(i) => ws[i].0@,
            None => Seq::empty(),
        },
    };
    lemma_workflow_index(ws, target);
    lemma_workflow_index(ws, slug_fallback(target));
}

/// A field to which the generation endpoint gives a value.
pub open spec fn generation_sets(f: WorkflowFieldMap) -> bool {
    is_prompt_field(f) || f.randomize
}

/// The position of the last of `fields` through which the generation
/// endpoint writes input `field` of node `node_id`.
pub open spec fn last_writer(fields: Seq<WorkflowFieldMap>, node_id: Seq<char>, field: Seq<char>) -> Option<
    int,
>
    decreases fields.len(),
{
    if fields.len() == 0 {
        None
    } else {
        let k = fields.len() - 1;
        let f = fields[k];
        if generation_sets(f) && f.original_node_id@ == node_id && f.original_field_name@ == field {
            Some(k)
        } else {
            last_writer(fields.drop_last(), node_id, field)
        }
    }
}

/// What `last_writer` finds is one of the fields.
proof fn lemma_last_writer_range(fields: Seq<WorkflowFieldMap>, node_id: Seq<char>, field: Seq<char>)
    ensures
        last_writer(fields, node_id, field) matches Some(k) ==> 0 <= k < fields.len(),
    decreases fields.len(),
{
    if fields.len() > 0 {
        lemma_last_writer_range(fields.drop_last(), node_id, field);
    }
}

/// Filling never changes which nodes can take inputs.
proof fn lemma_generation_keeps_settable(
    wf: Json,
    fields: Seq<WorkflowFieldMap>,
    prompt: Seq<char>,
    seeds: Seq<u64>,
    node_id: Seq<char>,
)
    ensures
        input_settable(apply_generation(wf, fields, prompt, seeds), node_id) == input_settable(wf, node_id),
    decreases fields.len(),
{
    if fields.len() > 0 {
        let n = fields.len() - 1;
        let prev = apply_generation(wf, fields.drop_last(), prompt, seeds);
        lemma_generation_keeps_settable(wf, fields.drop_last(), prompt, seeds, node_id);
        let f = fields[n];
        if let Some(v) = generation_value(f, prompt, seeds[n]) {
            lemma_set_input_keeps_settable(prev, f.original_node_id@, f.original_field_name@, v, node_id);
        }
    }
}

/// Law: after the generation endpoint has filled a workflow, each input
/// reads the value of the last mapped field that writes it (the prompt,
/// or that field's seed), when its node can take inputs; every other input
/// reads as before.
pub proof fn lemma_generation_reads_back(
    wf: Json,
    fields: Seq<WorkflowFieldMap>,
    prompt: Seq<char>,
    seeds: Seq<u64>,
    node_id: Seq<char>,
    field: Seq<char>,
)
    requires
        fields.len() <= seeds.len(),
    ensures
        input_of(apply_generation(wf, fields, prompt, seeds), node_id, field) == match last_writer(
            fields,
            node_id,
            field,
        ) {
            Some(k) => if input_settable(wf, node_id) {
                generation_value(fields[k], prompt, seeds[k])
            } else {
                input_of(wf, node_id, field)
            },
            None => input_of(wf, node_id, field),
        },
    decreases fields.len(),
{
    if fields.len() > 0 {
        let n = fields.len() - 1;
        let rest = fields.drop_last();
        let prev = apply_generation(wf, rest, prompt, seeds);
        lemma_generation_reads_back(wf, rest, prompt, seeds, node_id, field);
        lemma_generation_keeps_settable(wf, rest, prompt, seeds, node_id);
        let f = fields[n];
        if let Some(v) = generation_value(f, prompt, seeds[n]) {
            lemma_set_input_reads_back(prev, f.original_node_id@, f.original_field_name@, v, node_id, field);
        }
        lemma_last_writer_range(rest, node_id, field);
        if let Some(k) = last_writer(rest, node_id, field) {
            assert(rest[k] == fields[k]);
        }
    }
}

/// The positions offered as models are increasing and within range.
proof fn lemma_listed_increasing(ws: Seq<(String, WorkflowConfig)>, on_disk: Seq<Seq<char>>, n: int)
    requires
        0 <= n <= ws.len(),
    ensures
        forall|a: int| 0 <= a < listed_workflows(ws, on_disk, n).len() ==> 0 <= #[trigger] listed_workflows(ws, on_disk, n)[a] < n,
        forall|a: int, b: int|
            0 <= a < b < listed_workflows(ws, on_disk, n).len() ==> #[trigger] listed_workflows(ws, on_disk, n)[a]
                < #[trigger] listed_workflows(ws, on_disk, n)[b],
    decreases n,
{
    if n > 0 {
        lemma_listed_increasing(ws, on_disk, n - 1);
        let prev = listed_workflows(ws, on_disk, n - 1);
        let l = listed_workflows(ws, on_disk, n);
        assert forall|a: int| 0 <= a < l.len() implies 0 <= #[trigger] l[a] < n by {
            if a < prev.len() {
                assert(l[a] == prev[a]);
            }
        }
        assert forall|a: int, b: int| 0 <= a < b < l.len() implies #[trigger] l[a] < #[trigger] l[b] by {
            assert(l[a] == prev[a]);
            if b < prev.len() {
                assert(l[b] == prev[b]);
            } else {
                assert(prev[a] < n - 1);
            }
        }
    }
}

/// Law: with distinct workflow names, the models offered have distinct ids.
pub proof fn lemma_models_distinct(ws: Seq<(String, WorkflowConfig)>, on_disk: Seq<Seq<char>>)
    requires
        names_distinct(ws),
    ensures
        forall|a: int, b: int|
            0 <= a < b < listed_workflows(ws, on_disk, ws.len() as int).len() ==> ws[listed_workflows(
                ws,
                on_disk,
                ws.len() as int,
            )[a]].0@ != ws[listed_workflows(ws, on_disk, ws.len() as int)[b]].0@,
{
    lemma_listed_increasing(ws, on_disk, ws.len() as int);
    let l = listed_workflows(ws, on_disk, ws.len() as int);
    assert forall|a: int, b: int| 0 <= a < b < l.len() implies ws[l[a]].0@ != ws[l[b]].0@ by {
        assert(l[a] < l[b]);
        assert(0 <= l[a] && l[b] < ws.len());
    }
}

/// The positions among the first `n` that are listed are exactly those of
/// active workflows whose file is present.
proof fn lemma_listed_members(ws: Seq<(String, WorkflowConfig)>, on_disk: Seq<Seq<char>>, n: int)
    requires
        0 <= n <= ws.len(),
    ensures
        forall|i: int|
            #[trigger] listed_workflows(ws, on_disk, n).contains(i) <==> (0 <= i < n
                && ws[i].1.active && on_disk.contains(ws[i].0@)),
    decreases n,
{
    if n > 0 {
        lemma_listed_members(ws, on_disk, n - 1);
        lemma_listed_increasing(ws, on_disk, n - 1);
        let prev = listed_workflows(ws, on_disk, n - 1);
        let l = listed_workflows(ws, on_disk, n);
        assert forall|i: int| #[trigger] l.contains(i) <==> (0 <= i < n && ws[i].1.active
            && on_disk.contains(ws[i].0@)) by {
            if ws[n - 1].1.active && on_disk.contains(ws[n - 1].0@) {
                assert(l == prev.push(n - 1));
                if l.contains(i) {
                    let k = choose|k: int| 0 <= k < l.len() && l[k] == i;
                    if k < prev.len() {
                        assert(prev[k] == i);
                        assert(prev.contains(i));
                    }
                }
                if prev.contains(i) {
                    let k = choose|k: int| 0 <= k < prev.len() && prev[k] == i;
                    assert(l[k] == i);
                }
                if i == n - 1 {
                    assert(l[prev.len() as int] == i);
                }
            } else {
                assert(l == prev);
                if prev.contains(n - 1) {
                    let k = choose|k: int| 0 <= k < prev.len() && prev[k] == n - 1;
                    assert(prev[k] < n - 1);
                }
            }
        }
    }
}

/// Law: the models offered are exactly the active workflows whose workflow
/// file is present, each once, in the order of the configuration.
pub proof fn lemma_models_complete(ws: Seq<(String, WorkflowConfig)>, on_disk: Seq<Seq<char>>)
    ensures
        forall|i: int|
            0 <= i < ws.len() ==> (#[trigger] listed_workflows(ws, on_disk, ws.len() as int).contains(i)
                <==> (ws[i].1.active && on_disk.contains(ws[i].0@))),
        forall|a: int|
            0 <= a < listed_workflows(ws, on_disk, ws.len() as int).len() ==> 0
                <= #[trigger] listed_workflows(ws, on_disk, ws.len() as int)[a] < ws.len(),
        forall|a: int, b: int|
            0 <= a < b < listed_workflows(ws, on_disk, ws.len() as int).len() ==> #[trigger] listed_workflows(
                ws,
                on_disk,
                ws.len() as int,
            )[a] < #[trigger] listed_workflows(ws, on_disk, ws.len() as int)[b],
{
    lemma_listed_members(ws, on_disk, ws.len() as int);
    lemma_listed_increasing(ws, on_disk, ws.len() as int);
}

/// Whether the edit endpoint fills field `f` with the processed upload.
pub fn edit_takes_image(f: &WorkflowFieldMap) -> (r: bool)
    ensures
        r == (edit_plan(*f, ""@, 0) is Image),
        forall|p: Seq<char>, seed: u64| r == (#[trigger] edit_plan(*f, p, seed) is Image),
{
    !str_eq(f.exposed_as.as_str(), "prompt") && str_eq(f.exposed_as.as_str(), "image")
}

/// One field of the edit endpoint: `image` is what processing the upload
/// for the field's target gave, when the field takes the image.
pub open spec fn edit_step(
    wf: Json,
    f: WorkflowFieldMap,
    prompt: Seq<char>,
    seed: u64,
    image: Result<Seq<char>, Seq<char>>,
) -> Option<Result<Json, Seq<char>>> {
    match edit_plan(f, prompt, seed) {
        EditPlan::Assign(v) => write_input(wf, f.original_node_id@, f.original_field_name@, v),
        EditPlan::Image => match image {
            Ok(t) => write_input(wf, f.original_node_id@, f.original_field_name@, Json::Str(t)),
            Err(e) => Some(Err("Failed to process image: "@ + e)),
        },
        EditPlan::Skip => Some(Ok(wf)),
    }
}

/// The workflow that the edit endpoint submits: the fields set in order,
/// field `i` drawing `seeds[i]` and taking `images[i]`, the first failed
/// image ending it (`Err`), and `None` where a write meets a node whose
/// `inputs` is not an object.
pub open spec fn edit_fill(
    wf: Json,
    fields: Seq<WorkflowFieldMap>,
    prompt: Seq<char>,
    seeds: Seq<u64>,
    images: Seq<Result<Seq<char>, Seq<char>>>,
) -> Option<Result<Json, Seq<char>>>
    decreases fields.len(),
{
    if fields.len() == 0 {
        Some(Ok(wf))
    } else {
        let n = fields.len() - 1;
        match edit_fill(wf, fields.drop_last(), prompt, seeds, images) {
            Some(Ok(prev)) => edit_step(prev, fields[n], prompt, seeds[n], images[n]),
            other => other,
        }
    }
}

/// Once filling stops, it stays stopped.
proof fn lemma_fill_stops_edit(
    wf: Json,
    fields: Seq<WorkflowFieldMap>,
    prompt: Seq<char>,
    seeds: Seq<u64>,
    images: Seq<Result<Seq<char>, Seq<char>>>,
    k: int,
)
    requires
        0 <= k <= fields.len(),
        !(edit_fill(wf, fields.take(k), prompt, seeds, images) matches Some(Ok(_))),
    ensures
        edit_fill(wf, fields, prompt, seeds, images) == edit_fill(wf, fields.take(k), prompt, seeds, images),
    decreases fields.len() - k,
{
    if k < fields.len() {
        assert(fields.take(k + 1).drop_last() =~= fields.take(k));
        lemma_fill_stops_edit(wf, fields, prompt, seeds, images, k + 1);
    } else {
        assert(fields.take(k) =~= fields);
    }
}

/// Fills a workflow for the edit endpoint, field `i` drawing `seeds[i]`
/// and taking `images[i]`, the outcome of processing the upload for it
/// (ignored for fields that do not take the image).
pub fn fill_edit(
    wf: JsonValue,
    fields: &Vec<WorkflowFieldMap>,
    prompt: &str,
    seeds: &Vec<u64>,
    images: &Vec<Result<String, String>>,
) -> (r: Option<Result<JsonValue, String>>)
    requires
        seeds@.len() == fields@.len(),
        images@.len() == fields@.len(),
    ensures
        filled_view(r) == edit_fill(wf@, fields@, prompt@, seeds@, outcomes_view(images@)),
{
    let ghost wf0 = wf@;
    let ghost iv = outcomes_view(images@);
    let mut cur = wf;
    let mut i: usize = 0;
    assert(fields@.take(0) =~= Seq::<WorkflowFieldMap>::empty());
    while i < fields.len()
        invariant
            i <= fields@.len() == images@.len() == seeds@.len(),
            iv == outcomes_view(images@),
            wf0 == wf@,
            edit_fill(wf0, fields@.take(i as int), prompt@, seeds@, iv) == Some(Ok::<Json, Seq<char>>(cur@)),
        decreases fields.len() - i,
    {
        let f = &fields[i];
        let ghost t = fields@.take(i + 1);
        assert(t.drop_last() =~= fields@.take(i as int));
        assert(t[i as int] == fields@[i as int]);
        assert(iv[i as int] == outcome_view(images@[i as int]));
        let ghost before = cur@;
        let step = match edit_field_value(f, prompt, seeds[i]) {
            EditAction::Assign(v) => write_field(cur, f, v),
            EditAction::Image => match &images[i] {
                Ok(text) => write_field(cur, f, JsonValue::Str(string_clone(text))),
                Err(e) => Some(Err(edit_image_failure_message(e.as_str()))),
            },
            EditAction::Skip => Some(Ok(cur)),
        };
        assert(filled_view(step) == edit_step(before, fields@[i as int], prompt@, seeds@[i as int], iv[i as int]));
        assert(edit_fill(wf0, t, prompt@, seeds@, iv) == edit_step(before, fields@[i as int], prompt@, seeds@[i as int], iv[i as int]));
        match step {
            Some(Ok(next)) => {
                cur = next;
            },
            other => {
                proof {
                    lemma_fill_stops_edit(wf0, fields@, prompt@, seeds@, iv, i as int + 1);
                }
                return other;
            },
        }
        i = i + 1;
    }
    assert(fields@.take(fields@.len() as int) =~= fields@);
    Some(Ok(cur))
}

/// Fills a workflow for the edit endpoint, drawing a random seed for each
/// field.
pub fn edit_workflow(
    wf: JsonValue,
    fields: &Vec<WorkflowFieldMap>,
    prompt: &str,
    images: &Vec<Result<String, String>>,
) -> (r: Option<Result<JsonValue, String>>)
    requires
        images@.len() == fields@.len(),
    ensures
        exists|seeds: Seq<u64>|
            seeds.len() == fields@.len() && filled_view(r) == edit_fill(
                wf@,
                fields@,
                prompt@,
                seeds,
                outcomes_view(images@),
            ),
{
    let mut seeds: Vec<u64> = Vec::new();
    let mut i: usize = 0;
    while i < fields.len()
        invariant
            i <= fields@.len(),
            seeds@.len() == i,
        decreases fields.len() - i,
    {
        seeds.push(random_u64());
        i = i + 1;
    }
    fill_edit(wf, fields, prompt, &seeds, images)
}

} // verus!
