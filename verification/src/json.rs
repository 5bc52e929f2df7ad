//! JSON documents as the proxy reads and edits them: workflows, job
//! histories and websocket messages. Numbers are kept as their text, and an
//! object keeps its members in order, a key being looked up at its first
//! member (objects built from parsed JSON have unique keys).
use vstd::prelude::*;

verus! {

broadcast use vstd::string::group_string_axioms;

/// A JSON value as a mathematical object.
pub enum Json {
    Null,
    Bool(bool),
    Number(Seq<char>),
    Str(Seq<char>),
    Array(Seq<Json>),
    Object(Seq<(Seq<char>, Json)>),
}

/// A JSON value.
#[derive(Debug)]
pub enum JsonValue {
    Null,
    Bool(bool),
    Number(String),
    Str(String),
    Array(Vec<JsonValue>),
    Object(Vec<(String, JsonValue)>),
}

/// The mathematical value of a `JsonValue`.
pub open spec fn json_view(v: JsonValue) -> Json
    decreases v,
{
    match v {
        JsonValue::Null => Json::Null,
        JsonValue::Bool(b) => Json::Bool(b),
        JsonValue::Number(n) => Json::Number(n@),
        JsonValue::Str(s) => Json::Str(s@),
        JsonValue::Array(a) => Json::Array(
            Seq::new(a@.len(), |i: int| if 0 <= i < a@.len() { json_view(a@[i]) } else { Json::Null }),
        ),
        JsonValue::Object(o) => Json::Object(
            Seq::new(
                o@.len(),
                |i: int|
                    if 0 <= i < o@.len() {
                        (o@[i].0@, json_view(o@[i].1))
                    } else {
                        (Seq::<char>::empty(), Json::Null)
                    },
            ),
        ),
    }
}

impl View for JsonValue {
    type V = Json;

    open spec fn view(&self) -> Json {
        json_view(*self)
    }
}

/// The members of an object, as plain values.
pub open spec fn members_view(o: Seq<(String, JsonValue)>) -> Seq<(Seq<char>, Json)> {
    Seq::new(o.len(), |i: int| (o[i].0@, json_view(o[i].1)))
}

/// The view of an object is the view of its members.
pub proof fn lemma_object_view(o: Vec<(String, JsonValue)>)
    ensures
        json_view(JsonValue::Object(o)) == Json::Object(members_view(o@)),
{
    let jo = json_view(JsonValue::Object(o));
    match jo {
        Json::Object(m) => {
            assert(m =~= members_view(o@));
        },
        _ => {},
    }
}

/// The view of an array is the sequence of the views of its items.
pub proof fn lemma_array_view(a: Vec<JsonValue>)
    ensures
        json_view(JsonValue::Array(a)) == Json::Array(Seq::new(a@.len(), |i: int| json_view(a@[i]))),
{
    let ja = json_view(JsonValue::Array(a));
    match ja {
        Json::Array(m) => {
            assert(m =~= Seq::new(a@.len(), |i: int| json_view(a@[i])));
        },
        _ => {},
    }
}

/// The position of the first member named `key`.
pub open spec fn member_index(members: Seq<(Seq<char>, Json)>, key: Seq<char>) -> Option<int>
    decreases members.len(),
{
    if members.len() == 0 {
        None
    } else if members[0].0 == key {
        Some(0)
    } else {
        match member_index(members.drop_first(), key) {
            Some(i) => Some(i + 1),
            None => None,
        }
    }
}

/// The member `key` of an object (`Value::get` with a `&str`).
pub open spec fn get(v: Json, key: Seq<char>) -> Option<Json> {
    match v {
        Json::Object(m) => match member_index(m, key) {
            Some(i) => Some(m[i].1),
            None => None,
        },
        _ => None,
    }
}

/// The member `key` of an object, `Null` when there is none (`Value`'s
/// `Index` with a `&str`).
pub open spec fn index(v: Json, key: Seq<char>) -> Json {
    match get(v, key) {
        Some(x) => x,
        None => Json::Null,
    }
}

/// The text of a string value (`Value::as_str`).
pub open spec fn as_str(v: Json) -> Option<Seq<char>> {
    match v {
        Json::Str(s) => Some(s),
        _ => None,
    }
}

/// The members with `key` set to `val`: the first member named `key` is
/// replaced, or a member is added at the end (`Map::insert`).
pub open spec fn insert_member(members: Seq<(Seq<char>, Json)>, key: Seq<char>, val: Json) -> Seq<
    (Seq<char>, Json),
> {
    match member_index(members, key) {
        Some(i) => members.update(i, (key, val)),
        None => members.push((key, val)),
    }
}

/// What `member_index` returns is the first member with that key.
pub proof fn lemma_member_index(members: Seq<(Seq<char>, Json)>, key: Seq<char>)
    ensures
        member_index(members, key) matches Some(i) ==> 0 <= i < members.len() && members[i].0
            == key && forall|j: int| 0 <= j < i ==> members[j].0 != key,
        member_index(members, key) is None ==> forall|j: int|
            0 <= j < members.len() ==> members[j].0 != key,
    decreases members.len(),
{
    if members.len() > 0 && members[0].0 != key {
        lemma_member_index(members.drop_first(), key);
        assert forall|j: int| 1 <= j < members.len() implies members[j] == members.drop_first()[j
            - 1] by {}
    }
}

/// A key that is first found at `i` is found there.
pub proof fn lemma_member_index_at(members: Seq<(Seq<char>, Json)>, key: Seq<char>, i: int)
    requires
        0 <= i < members.len(),
        members[i].0 == key,
        forall|j: int| 0 <= j < i ==> members[j].0 != key,
    ensures
        member_index(members, key) == Some(i),
    decreases members.len(),
{
    if i > 0 {
        lemma_member_index_at(members.drop_first(), key, i - 1);
    }
}

/// A key that no member has is not found.
pub proof fn lemma_member_index_none(members: Seq<(Seq<char>, Json)>, key: Seq<char>)
    requires
        forall|j: int| 0 <= j < members.len() ==> members[j].0 != key,
    ensures
        member_index(members, key) is None,
    decreases members.len(),
{
    if members.len() > 0 {
        lemma_member_index_none(members.drop_first(), key);
    }
}

/// The position of the first member named `key`.
pub fn find_member(members: &Vec<(String, JsonValue)>, key: &str) -> (r: Option<usize>)
    ensures
        r matches Some(i) ==> member_index(members_view(members@), key@) == Some(i as int),
        r is None ==> member_index(members_view(members@), key@) is None,
{
    let ghost mv = members_view(members@);
    let key_s = String::from_str(key);
    let mut i: usize = 0;
    while i < members.len()
        invariant
            i <= members@.len() == mv.len(),
            mv == members_view(members@),
            key_s@ == key@,
            forall|j: int| 0 <= j < i ==> mv[j].0 != key@,
        decreases members.len() - i,
    {
        if members[i].0 == key_s {
            proof {
                lemma_member_index_at(mv, key@, i as int);
            }
            return Some(i);
        }
        i = i + 1;
    }
    proof {
        lemma_member_index_none(mv, key@);
    }
    None
}

/// The member `key` of `v`, when `v` is an object that has one.
pub fn get_member<'a>(v: &'a JsonValue, key: &str) -> (r: Option<&'a JsonValue>)
    ensures
        r matches Some(x) ==> get(v@, key@) == Some(x@),
        r is None ==> get(v@, key@) is None,
{
    match v {
        JsonValue::Object(members) => {
            proof {
                lemma_object_view(*members);
                lemma_member_index(members_view(members@), key@);
            }
            match find_member(members, key) {
                Some(i) => Some(&members[i].1),
                None => None,
            }
        },
        _ => None,
    }
}

/// The text of `v` when it is a string.
pub fn as_text(v: &JsonValue) -> (r: Option<&String>)
    ensures
        r matches Some(s) ==> as_str(v@) == Some(s@),
        r is None ==> as_str(v@) is None,
{
    match v {
        JsonValue::Str(s) => Some(s),
        _ => None,
    }
}

/// The text of member `key` of `v`, when it is a string.
pub fn member_text<'a>(v: &'a JsonValue, key: &str) -> (r: Option<&'a String>)
    ensures
        r matches Some(s) ==> as_str(index(v@, key@)) == Some(s@),
        r is None ==> as_str(index(v@, key@)) is None,
{
    match get_member(v, key) {
        Some(x) => as_text(x),
        None => None,
    }
}

/// Sets member `key` of an object to `val` (`Map::insert`).
pub fn insert_into(members: &mut Vec<(String, JsonValue)>, key: String, val: JsonValue)
    ensures
        members_view(final(members)@) == insert_member(members_view(old(members)@), key@, val@),
{
    let ghost kv = key@;
    let ghost vv = val@;
    proof {
        lemma_member_index(members_view(members@), key@);
    }
    match find_member(members, key.as_str()) {
        Some(i) => {
            members.set(i, (key, val));
            assert(members_view(members@) =~= members_view(old(members)@).update(
                i as int,
                (kv, vv),
            ));
        },
        None => {
            members.push((key, val));
            assert(members_view(members@) =~= members_view(old(members)@).push((kv, vv)));
        },
    }
}

/// `node` with member `field` of its `inputs` object set to `val`; `node`
/// itself when it is not an object or has no `inputs` object.
pub open spec fn with_input(node: Json, field: Seq<char>, val: Json) -> Json {
    match node {
        Json::Object(m) => match member_index(m, "inputs"@) {
            Some(j) => match m[j].1 {
                Json::Object(inp) => Json::Object(
                    m.update(j, (m[j].0, Json::Object(insert_member(inp, field, val)))),
                ),
                _ => node,
            },
            None => node,
        },
        _ => node,
    }
}

/// The member `key` of an object exists and is not an object.
pub open spec fn member_not_object(v: Json, key: Seq<char>) -> bool {
    match get(v, key) {
        Some(Json::Object(_)) => false,
        Some(_) => true,
        None => false,
    }
}

/// Node `node_id` of the workflow has an `inputs` member that is not an
/// object: writing one of its inputs would fail.
pub open spec fn inputs_not_object(wf: Json, node_id: Seq<char>) -> bool {
    match get(wf, node_id) {
        Some(node) => member_not_object(node, "inputs"@),
        None => false,
    }
}

/// The workflow with input `field` of node `node_id` set to `val`, when
/// that node exists and has an `inputs` object; the workflow unchanged
/// otherwise.
pub open spec fn set_input(wf: Json, node_id: Seq<char>, field: Seq<char>, val: Json) -> Json {
    match wf {
        Json::Object(nodes) => match member_index(nodes, node_id) {
            Some(i) => Json::Object(nodes.update(i, (nodes[i].0, with_input(nodes[i].1, field, val)))),
            None => wf,
        },
        _ => wf,
    }
}

/// The members with the value of member `i` replaced.
proof fn lemma_replace_member(
    old_m: Seq<(String, JsonValue)>,
    new_m: Seq<(String, JsonValue)>,
    i: int,
    key: String,
    v: JsonValue,
)
    requires
        0 <= i < old_m.len(),
        old_m[i].0 == key,
        new_m == old_m.remove(i).insert(i, (key, v)),
    ensures
        members_view(new_m) == members_view(old_m).update(i, (key@, json_view(v))),
{
    assert(members_view(new_m) =~= members_view(old_m).update(i, (key@, json_view(v))));
}

/// `node` with member `field` of its `inputs` object set to `val`.
pub fn node_with_input(node: JsonValue, field: String, val: JsonValue) -> (r: JsonValue)
    ensures
        r@ == with_input(node@, field@, val@),
{
    let ghost nv = node@;
    match node {
        JsonValue::Object(mut m) => {
            proof {
                lemma_object_view(m);
                lemma_member_index(members_view(m@), "inputs"@);
            }
            let ghost m0 = m@;
            match find_member(&m, "inputs") {
                Some(j) => {
                    let (ikey, inputs) = m.remove(j);
                    match inputs {
                        JsonValue::Object(mut inp) => {
                            proof {
                                lemma_object_view(inp);
                            }
                            let ghost iv = members_view(inp@);
                            insert_into(&mut inp, field, val);
                            let new_inputs = JsonValue::Object(inp);
                            proof {
                                lemma_object_view(inp);
                            }
                            m.insert(j, (ikey, new_inputs));
                            proof {
                                lemma_replace_member(m0, m@, j as int, ikey, new_inputs);
                                lemma_object_view(m);
                            }
                            JsonValue::Object(m)
                        },
                        other => {
                            m.insert(j, (ikey, other));
                            assert(m@ =~= m0);
                            JsonValue::Object(m)
                        },
                    }
                },
                None => JsonValue::Object(m),
            }
        },
        other => other,
    }
}

/// The workflow with input `field` of node `node_id` set to `val`.
pub fn workflow_with_input(wf: JsonValue, node_id: &str, field: String, val: JsonValue) -> (r:
    JsonValue)
    ensures
        r@ == set_input(wf@, node_id@, field@, val@),
{
    match wf {
        JsonValue::Object(mut nodes) => {
            proof {
                lemma_object_view(nodes);
                lemma_member_index(members_view(nodes@), node_id@);
            }
            let ghost n0 = nodes@;
            match find_member(&nodes, node_id) {
                Some(i) => {
                    let (nkey, node) = nodes.remove(i);
                    let node2 = node_with_input(node, field, val);
                    nodes.insert(i, (nkey, node2));
                    proof {
                        lemma_replace_member(n0, nodes@, i as int, nkey, node2);
                        lemma_object_view(nodes);
                    }
                    JsonValue::Object(nodes)
                },
                None => JsonValue::Object(nodes),
            }
        },
        other => other,
    }
}

/// A copy of a JSON value.
pub fn json_clone(v: &JsonValue) -> (r: JsonValue)
    ensures
        r@ == v@,
    decreases v,
{
    match v {
        JsonValue::Null => JsonValue::Null,
        JsonValue::Bool(b) => JsonValue::Bool(*b),
        JsonValue::Number(n) => JsonValue::Number(String::from_str(n.as_str())),
        JsonValue::Str(s) => JsonValue::Str(String::from_str(s.as_str())),
        JsonValue::Array(a) => {
            let mut out: Vec<JsonValue> = Vec::new();
            let mut i: usize = 0;
            while i < a.len()
                invariant
                    *v == JsonValue::Array(*a),
                    i <= a@.len(),
                    out@.len() == i,
                    forall|k: int| 0 <= k < i ==> #[trigger] json_view(out@[k]) == json_view(a@[k]),
                decreases a@.len() - i,
            {
                proof {
                    vstd::std_specs::vec::axiom_vec_index_decreases(*a, i as int);
                    assert(decreases_to!(*v => (*v)->Array_0));
                }
                out.push(json_clone(&a[i]));
                i = i + 1;
            }
            proof {
                lemma_array_view(*a);
                lemma_array_view(out);
                assert(Seq::new(out@.len(), |i: int| json_view(out@[i])) =~= Seq::new(
                    a@.len(),
                    |i: int| json_view(a@[i]),
                ));
            }
            JsonValue::Array(out)
        },
        JsonValue::Object(o) => {
            let mut out: Vec<(String, JsonValue)> = Vec::new();
            let mut i: usize = 0;
            while i < o.len()
                invariant
                    *v == JsonValue::Object(*o),
                    i <= o@.len(),
                    out@.len() == i,
                    forall|k: int| 0 <= k < i ==> #[trigger] members_view(out@)[k] == members_view(o@)[k],
                decreases o@.len() - i,
            {
                proof {
                    vstd::std_specs::vec::axiom_vec_index_decreases(*o, i as int);
                    assert(decreases_to!(*v => (*v)->Object_0));
                    assert(decreases_to!(o[i as int] => o[i as int].1));
                }
                let key = String::from_str(o[i].0.as_str());
                let val = json_clone(&o[i].1);
                let ghost prev = out@;
                out.push((key, val));
                proof {
                    assert forall|k: int| 0 <= k < i + 1 implies #[trigger] members_view(out@)[k]
                        == members_view(o@)[k] by {
                        if k < i {
                            assert(out@[k] == prev[k]);
                            assert(members_view(prev)[k] == members_view(o@)[k]);
                        }
                    }
                }
                i = i + 1;
            }
            proof {
                lemma_object_view(*o);
                lemma_object_view(out);
                assert(members_view(out@) =~= members_view(o@));
            }
            JsonValue::Object(out)
        },
    }
}

/// Whether input values can be written into node `node_id`: it is absent,
/// or its `inputs` member, if any, is an object.
pub fn inputs_writable(wf: &JsonValue, node_id: &str) -> (r: bool)
    ensures
        r == !inputs_not_object(wf@, node_id@),
{
    match get_member(wf, node_id) {
        Some(node) => match get_member(node, "inputs") {
            Some(JsonValue::Object(_)) => true,
            Some(_) => false,
            None => true,
        },
        None => true,
    }
}

/// Members with the same keys, in the same order, find a key at the same
/// position.
pub proof fn lemma_member_index_same_keys(
    a: Seq<(Seq<char>, Json)>,
    b: Seq<(Seq<char>, Json)>,
    key: Seq<char>,
)
    requires
        a.len() == b.len(),
        forall|k: int| 0 <= k < a.len() ==> #[trigger] a[k].0 == b[k].0,
    ensures
        member_index(a, key) == member_index(b, key),
    decreases a.len(),
{
    if a.len() > 0 {
        assert(a[0].0 == b[0].0);
        lemma_member_index_same_keys(a.drop_first(), b.drop_first(), key);
    }
}

/// The member found after appending one: an earlier member keeps being
/// found first.
proof fn lemma_member_index_push(m: Seq<(Seq<char>, Json)>, e: (Seq<char>, Json), key: Seq<char>)
    ensures
        member_index(m.push(e), key) == match member_index(m, key) {
            Some(i) => Some(i),
            None => if e.0 == key {
                Some(m.len() as int)
            } else {
                None
            },
        },
    decreases m.len(),
{
    if m.len() > 0 {
        assert(m.push(e).drop_first() =~= m.drop_first().push(e));
        assert(m.push(e)[0] == m[0]);
        lemma_member_index_push(m.drop_first(), e, key);
    } else {
        assert(m.push(e).drop_first() =~= Seq::<(Seq<char>, Json)>::empty());
        assert(m.push(e)[0] == e);
        assert(member_index(Seq::<(Seq<char>, Json)>::empty(), key) is None);
    }
}

/// Reading a member after `insert_member`.
pub proof fn lemma_get_insert(m: Seq<(Seq<char>, Json)>, key: Seq<char>, val: Json, other: Seq<char>)
    ensures
        get(Json::Object(insert_member(m, key, val)), other) == if other == key {
            Some(val)
        } else {
            get(Json::Object(m), other)
        },
{
    lemma_member_index(m, key);
    lemma_member_index(m, other);
    match member_index(m, key) {
        Some(j) => {
            let m2 = m.update(j, (key, val));
            lemma_member_index_same_keys(m, m2, other);
        },
        None => {
            lemma_member_index_push(m, (key, val), other);
        },
    }
}

/// Reading a member after replacing the value of the member found first
/// under its key.
pub proof fn lemma_get_replace(m: Seq<(Seq<char>, Json)>, j: int, x: Json, other: Seq<char>)
    requires
        0 <= j < m.len(),
        member_index(m, m[j].0) == Some(j),
    ensures
        get(Json::Object(m.update(j, (m[j].0, x))), other) == if other == m[j].0 {
            Some(x)
        } else {
            get(Json::Object(m), other)
        },
{
    let m2 = m.update(j, (m[j].0, x));
    lemma_member_index_same_keys(m, m2, other);
    lemma_member_index(m, other);
}

/// The value of input `field` of node `node_id`.
pub open spec fn input_of(wf: Json, node_id: Seq<char>, field: Seq<char>) -> Option<Json> {
    match get(wf, node_id) {
        Some(node) => match get(node, "inputs"@) {
            Some(inputs) => get(inputs, field),
            None => None,
        },
        None => None,
    }
}

/// Node `node_id` exists and has an `inputs` object, so its inputs can be
/// set.
pub open spec fn input_settable(wf: Json, node_id: Seq<char>) -> bool {
    match get(wf, node_id) {
        Some(node) => get(node, "inputs"@) matches Some(Json::Object(_)),
        None => false,
    }
}

/// Law: after input `field` of node `node_id` is set to `val`, reading that
/// input gives `val` back, when the node exists and has an `inputs` object;
/// every other input of every node reads as before.
pub proof fn lemma_set_input_reads_back(
    wf: Json,
    node_id: Seq<char>,
    field: Seq<char>,
    val: Json,
    other_node: Seq<char>,
    other_field: Seq<char>,
)
    ensures
        input_of(set_input(wf, node_id, field, val), other_node, other_field) == if other_node
            == node_id && other_field == field && input_settable(wf, node_id) {
            Some(val)
        } else {
            input_of(wf, other_node, other_field)
        },
{
    match wf {
        Json::Object(nodes) => match member_index(nodes, node_id) {
            Some(i) => {
                lemma_member_index(nodes, node_id);
                let node = nodes[i].1;
                lemma_get_replace(nodes, i, with_input(node, field, val), other_node);
                assert(get(wf, node_id) == Some(node));
                if other_node == node_id {
                    match node {
                        Json::Object(m) => match member_index(m, "inputs"@) {
                            Some(j) => {
                                lemma_member_index(m, "inputs"@);
                                match m[j].1 {
                                    Json::Object(inp) => {
                                        lemma_get_replace(
                                            m,
                                            j,
                                            Json::Object(insert_member(inp, field, val)),
                                            "inputs"@,
                                        );
                                        lemma_get_insert(inp, field, val, other_field);
                                    },
                                    _ => {
                                        assert(m.update(j, (m[j].0, m[j].1)) =~= m);
                                    },
                                }
                            },
                            None => {},
                        },
                        _ => {},
                    }
                }
            },
            None => {},
        },
        _ => {},
    }
}

/// Setting an input never changes which nodes can take inputs.
pub proof fn lemma_set_input_keeps_settable(
    wf: Json,
    node_id: Seq<char>,
    field: Seq<char>,
    val: Json,
    other: Seq<char>,
)
    ensures
        input_settable(set_input(wf, node_id, field, val), other) == input_settable(wf, other),
{
    match wf {
        Json::Object(nodes) => match member_index(nodes, node_id) {
            Some(i) => {
                lemma_member_index(nodes, node_id);
                let node = nodes[i].1;
                lemma_get_replace(nodes, i, with_input(node, field, val), other);
                assert(get(wf, node_id) == Some(node));
                if other == node_id {
                    match node {
                        Json::Object(m) => match member_index(m, "inputs"@) {
                            Some(j) => {
                                lemma_member_index(m, "inputs"@);
                                match m[j].1 {
                                    Json::Object(inp) => {
                                        lemma_get_replace(
                                            m,
                                            j,
                                            Json::Object(insert_member(inp, field, val)),
                                            "inputs"@,
                                        );
                                    },
                                    _ => {
                                        assert(m.update(j, (m[j].0, m[j].1)) =~= m);
                                    },
                                }
                            },
                            None => {},
                        },
                        _ => {},
                    }
                }
            },
            None => {},
        },
        _ => {},
    }
}

} // verus!
