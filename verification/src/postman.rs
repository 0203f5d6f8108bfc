//! Import and export of collections in an interchange format: a collection
//! travels as a structured value with an `info` block, an `item` list and an
//! optional `variable` list.

use vstd::prelude::*;

use crate::collections::{Collection, CollectionV};
use crate::json::{
    lemma_jv_pairs, lemma_jv_seq, spec_obj_get, spec_parse_json, JsonValue, JsonVal,
};
use crate::text::{lower, str_eq, to_lower};

verus! {

/// The name, description and enabled variables an imported document
/// describes, when it is well-formed: an object whose `info` holds a string
/// `name` and an optional string `description`, whose `item` is a list, and
/// whose optional `variable` list holds objects with string `key` and
/// `value` and an optional `disabled` flag. Disabled variables are skipped;
/// later values win on key collisions. The items themselves describe saved
/// requests and are not interpreted here.
pub open spec fn spec_import(v: JsonVal) -> Option<
    (Seq<char>, Option<Seq<char>>, Seq<(Seq<char>, Seq<char>)>),
> {
    if !(v is Obj) {
        None
    } else {
        match spec_obj_get(v, "info"@) {
            Some(info) => {
                let name = spec_obj_get(info, "name"@);
                if !(info is Obj) || !(name matches Some(JsonVal::Str(_))) {
                    None
                } else {
                    let description = match spec_obj_get(info, "description"@) {
                        Some(JsonVal::Str(d)) => Some(Some(d)),
                        Some(JsonVal::Null) => Some(None),
                        Some(_) => None,
                        None => Some(None),
                    };
                    if !(spec_obj_get(v, "item"@) matches Some(JsonVal::Arr(_))) || description
                        is None {
                        None
                    } else {
                        match spec_obj_get(v, "variable"@) {
                            Some(JsonVal::Arr(vars)) => match spec_import_vars(
                                vars,
                                Seq::empty(),
                            ) {
                                Some(pairs) => Some(
                                    (name->0->Str_0, description->0, pairs),
                                ),
                                None => None,
                            },
                            Some(JsonVal::Null) => Some(
                                (name->0->Str_0, description->0, Seq::empty()),
                            ),
                            Some(_) => None,
                            None => Some((name->0->Str_0, description->0, Seq::empty())),
                        }
                    }
                }
            },
            None => None,
        }
    }
}

/// Folds the variable entries over an accumulated mapping.
pub open spec fn spec_import_vars(
    vars: Seq<JsonVal>,
    acc: Seq<(Seq<char>, Seq<char>)>,
) -> Option<Seq<(Seq<char>, Seq<char>)>>
    decreases vars.len(),
{
    if vars.len() == 0 {
        Some(acc)
    } else {
        let e = vars[0];
        if !(e is Obj) {
            None
        } else if !(spec_obj_get(e, "key"@) matches Some(JsonVal::Str(_))) || !(spec_obj_get(
            e,
            "value"@,
        ) matches Some(JsonVal::Str(_))) {
            None
        } else {
            let skipped = spec_obj_get(e, "disabled"@) == Some(JsonVal::Bool(true));
            let acc2 = if skipped {
                acc
            } else {
                crate::spec_env_set(
                    acc,
                    spec_obj_get(e, "key"@)->0->Str_0,
                    spec_obj_get(e, "value"@)->0->Str_0,
                )
            };
            spec_import_vars(vars.drop_first(), acc2)
        }
    }
}

/// Sets a variable, replacing the value under an exactly matching key.
#[verifier::loop_isolation(false)]
fn set_var(vars: &mut Vec<(String, String)>, key: &str, value: &str)
    ensures
        final(vars).deep_view() == crate::spec_env_set(old(vars).deep_view(), key@, value@),
{
    let ghost dv = vars.deep_view();
    let n = vars.len();
    let mut i: usize = 0;
    while i < n
        invariant
            n == vars@.len(),
            i <= n,
            *vars == *old(vars),
            forall|j: int| 0 <= j < i ==> dv[j].0 != key@,
        decreases n - i,
    {
        if str_eq(vars[i].0.as_str(), key) {
            vars.set(i, (String::from_str(key), String::from_str(value)));
            proof {
                lemma_env_set_replaces(dv, key@, value@, i as int);
                assert(vars.deep_view() =~= dv.update(i as int, (key@, value@)));
            }
            return ;
        }
        i = i + 1;
    }
    vars.push((String::from_str(key), String::from_str(value)));
    proof {
        lemma_env_set_appends(dv, key@, value@);
        assert(vars.deep_view() =~= dv.push((key@, value@)));
    }
}

/// `spec_env_set` replaces in place at the first exact match.
proof fn lemma_env_set_replaces(
    env: Seq<(Seq<char>, Seq<char>)>,
    k: Seq<char>,
    v: Seq<char>,
    i: int,
)
    requires
        0 <= i < env.len(),
        env[i].0 == k,
        forall|j: int| 0 <= j < i ==> env[j].0 != k,
    ensures
        crate::spec_env_set(env, k, v) == env.update(i, (k, v)),
    decreases i,
{
    if i == 0 {
        assert(crate::spec_env_set(env, k, v) =~= env.update(0, (k, v)));
    } else {
        lemma_env_set_replaces(env.drop_first(), k, v, i - 1);
        assert(crate::spec_env_set(env, k, v) =~= env.update(i, (k, v)));
    }
}

/// `spec_env_set` appends when no key matches exactly.
proof fn lemma_env_set_appends(env: Seq<(Seq<char>, Seq<char>)>, k: Seq<char>, v: Seq<char>)
    requires
        forall|j: int| 0 <= j < env.len() ==> env[j].0 != k,
    ensures
        crate::spec_env_set(env, k, v) == env.push((k, v)),
    decreases env.len(),
{
    if env.len() == 0 {
        assert(crate::spec_env_set(env, k, v) =~= env.push((k, v)));
    } else {
        lemma_env_set_appends(env.drop_first(), k, v);
        assert(crate::spec_env_set(env, k, v) =~= env.push((k, v)));
    }
}

/// Imports one document in the interchange format: parses it, reads the
/// `info` block and the enabled variables, and yields a fresh collection
/// carrying them. Fails exactly when the text does not parse or does not
/// have the expected shape.
#[verifier::loop_isolation(false)]
pub fn import_postman_collection(content: &str) -> (r: Result<Collection, String>)
    ensures
        match spec_parse_json(content@) {
            Some(v) => match spec_import(v) {
                Some(m) => r is Ok && {
                    let c = r->Ok_0@;
                    &&& c.name == m.0
                    &&& c.description == m.1
                    &&& c.variables == m.2
                    &&& c.requests.len() == 0
                    &&& c.folders.len() == 0
                    &&& c.id.len() == 36
                },
                None => r is Err,
            },
            None => r is Err,
        },
{
    let parsed = match crate::json::parse_json(content) {
        Some(v) => v,
        None => {
            return Err(String::from_str("the document does not parse"));
        },
    };
    let info = match parsed.obj_get("info") {
        Some(i) => i,
        None => {
            return Err(String::from_str("the document has no info block"));
        },
    };
    match info {
        JsonValue::Obj(_) => {},
        _ => {
            return Err(String::from_str("the info block is not an object"));
        },
    }
    let name: String = match info.obj_get("name") {
        Some(JsonValue::Str(n)) => n.clone(),
        _ => {
            return Err(String::from_str("the info block has no name"));
        },
    };
    let description: Option<String> = match info.obj_get("description") {
        Some(JsonValue::Str(d)) => Some(d.clone()),
        Some(JsonValue::Null) => None,
        Some(_) => {
            return Err(String::from_str("the description is not text"));
        },
        None => None,
    };
    match parsed.obj_get("item") {
        Some(JsonValue::Arr(_)) => {},
        _ => {
            return Err(String::from_str("the document has no item list"));
        },
    }
    let mut variables: Vec<(String, String)> = Vec::new();
    proof {
        assert(variables.deep_view() =~= Seq::<(Seq<char>, Seq<char>)>::empty());
    }
    match parsed.obj_get("variable") {
        Some(vs) => {
            match vs {
                JsonValue::Arr(entries) => {
                    proof {
                        lemma_jv_seq(entries@);
                    }
                    let ghost model = vs@->Arr_0;
                    proof {
                        assert(model.skip(0) =~= model);
                    }
                    let n = entries.len();
                    let mut i: usize = 0;
                    while i < n
                        invariant
                            n == entries@.len(),
                            model == crate::json::jv_seq(entries@),
                            model.len() == n,
                            forall|k: int| 0 <= k < n ==> model[k] == crate::json::jv(
                                entries@[k],
                            ),
                            i <= n,
                            spec_import_vars(model, Seq::empty()) == spec_import_vars(
                                model.skip(i as int),
                                variables.deep_view(),
                            ),
                        decreases n - i,
                    {
                        let e = &entries[i];
                        proof {
                            assert(model.skip(i as int)[0] == model[i as int]);
                        }
                        match e {
                            JsonValue::Obj(_) => {},
                            _ => {
                                proof {
                                    assert(spec_import_vars(
                                        model.skip(i as int),
                                        variables.deep_view(),
                                    ) is None);
                                }
                                return Err(
                                    String::from_str("a variable entry is not an object"),
                                );
                            },
                        }
                        let key: String = match e.obj_get("key") {
                            Some(JsonValue::Str(k)) => k.clone(),
                            _ => {
                                proof {
                                    assert(spec_import_vars(
                                        model.skip(i as int),
                                        variables.deep_view(),
                                    ) is None);
                                }
                                return Err(String::from_str("a variable entry has no key"));
                            },
                        };
                        let value: String = match e.obj_get("value") {
                            Some(JsonValue::Str(v)) => v.clone(),
                            _ => {
                                proof {
                                    assert(spec_import_vars(
                                        model.skip(i as int),
                                        variables.deep_view(),
                                    ) is None);
                                }
                                return Err(
                                    String::from_str("a variable entry has no value"),
                                );
                            },
                        };
                        let skipped = match e.obj_get("disabled") {
                            Some(JsonValue::Bool(true)) => true,
                            _ => false,
                        };
                        if !skipped {
                            set_var(&mut variables, key.as_str(), value.as_str());
                        }
                        proof {
                            assert(model.skip(i as int)[0] == model[i as int]);
                            assert(model.skip(i as int).drop_first() =~= model.skip(i + 1));
                        }
                        i = i + 1;
                    }
                    proof {
                        assert(model.skip(n as int) =~= Seq::<JsonVal>::empty());
                    }
                },
                JsonValue::Null => {},
                _ => {
                    return Err(String::from_str("the variable list is not a list"));
                },
            }
        },
        None => {},
    }
    let id = crate::ident::fresh_id();
    Ok(
        Collection {
            id,
            name,
            description,
            requests: Vec::new(),
            folders: Vec::new(),
            variables,
        },
    )
}

/// The structured form a collection is exported as.
pub open spec fn spec_collection_json(c: CollectionV) -> JsonVal {
    JsonVal::Obj(
        seq![
            ("id"@, JsonVal::Str(c.id)),
            ("name"@, JsonVal::Str(c.name)),
            (
                "description"@,
                match c.description {
                    Some(d) => JsonVal::Str(d),
                    None => JsonVal::Null,
                },
            ),
            ("requests"@, JsonVal::Arr(str_elems(c.requests))),
            ("folders"@, JsonVal::Arr(str_elems(c.folders))),
            ("variables"@, JsonVal::Obj(pair_members(c.variables))),
        ],
    )
}

/// Identifier lists as structured string lists.
pub open spec fn str_elems(ids: Seq<Seq<char>>) -> Seq<JsonVal> {
    Seq::new(ids.len(), |i: int| JsonVal::Str(ids[i]))
}

/// Variable mappings as structured object members.
pub open spec fn pair_members(vars: Seq<(Seq<char>, Seq<char>)>) -> Seq<(Seq<char>, JsonVal)> {
    Seq::new(vars.len(), |i: int| (vars[i].0, JsonVal::Str(vars[i].1)))
}

/// The structured form a collection is exported as in the interchange
/// format: an `info` block carrying name, description, original identifier
/// and schema, an empty `item` list, and the variables as a `variable` list.
pub open spec fn spec_postman_json(c: CollectionV) -> JsonVal {
    let info = JsonVal::Obj(
        seq![
            ("name"@, JsonVal::Str(c.name)),
            (
                "description"@,
                match c.description {
                    Some(d) => JsonVal::Str(d),
                    None => JsonVal::Null,
                },
            ),
            ("_postman_id"@, JsonVal::Str(c.id)),
            (
                "schema"@,
                JsonVal::Str(
                    "https://schema.getpostman.com/json/collection/v2.1.0/collection.json"@,
                ),
            ),
        ],
    );
    JsonVal::Obj(
        seq![
            ("info"@, info),
            ("item"@, JsonVal::Arr(Seq::empty())),
            ("variable"@, JsonVal::Arr(var_entries(c.variables))),
        ],
    )
}

/// Variable mappings as interchange-format entries.
pub open spec fn var_entries(vars: Seq<(Seq<char>, Seq<char>)>) -> Seq<JsonVal> {
    Seq::new(
        vars.len(),
        |i: int| JsonVal::Obj(
            seq![
                ("key"@, JsonVal::Str(vars[i].0)),
                ("value"@, JsonVal::Str(vars[i].1)),
                ("type"@, JsonVal::Str("string"@)),
            ],
        ),
    )
}

/// Identifier lists as structured values.
#[verifier::loop_isolation(false)]
fn ids_to_json(ids: &Vec<String>) -> (r: Vec<JsonValue>)
    ensures
        crate::json::jv_seq(r@) == str_elems(ids.deep_view()),
{
    let mut out: Vec<JsonValue> = Vec::new();
    let mut i: usize = 0;
    while i < ids.len()
        invariant
            i <= ids@.len(),
            out@.len() == i,
            forall|j: int| 0 <= j < i ==> crate::json::jv(out@[j]) == JsonVal::Str(ids@[j]@),
        decreases ids@.len() - i,
    {
        out.push(JsonValue::Str(ids[i].clone()));
        i = i + 1;
    }
    proof {
        lemma_jv_seq(out@);
        assert(crate::json::jv_seq(out@) =~= str_elems(ids.deep_view()));
    }
    out
}

/// The plain structured form of a collection.
#[verifier::loop_isolation(false)]
pub fn collection_to_json(c: &Collection) -> (r: JsonValue)
    ensures
        r@ == spec_collection_json(c@),
{
    let mut vars: Vec<(String, JsonValue)> = Vec::new();
    let mut i: usize = 0;
    while i < c.variables.len()
        invariant
            i <= c.variables@.len(),
            vars@.len() == i,
            forall|j: int| 0 <= j < i ==> vars@[j].0@ == c.variables@[j].0@ && crate::json::jv(
                vars@[j].1,
            ) == JsonVal::Str(c.variables@[j].1@),
        decreases c.variables@.len() - i,
    {
        let key = c.variables[i].0.clone();
        let val = JsonValue::Str(c.variables[i].1.clone());
        vars.push((key, val));
        i = i + 1;
    }
    let variables = JsonValue::Obj(vars);
    proof {
        lemma_jv_pairs(variables->Obj_0@);
        assert(variables@->Obj_0 =~= pair_members(c@.variables));
    }
    let mut ms: Vec<(String, JsonValue)> = Vec::new();
    ms.push((String::from_str("id"), JsonValue::Str(c.id.clone())));
    ms.push((String::from_str("name"), JsonValue::Str(c.name.clone())));
    ms.push(
        (
            String::from_str("description"),
            match &c.description {
                Some(d) => JsonValue::Str(d.clone()),
                None => JsonValue::Null,
            },
        ),
    );
    ms.push((String::from_str("requests"), JsonValue::Arr(ids_to_json(&c.requests))));
    ms.push((String::from_str("folders"), JsonValue::Arr(ids_to_json(&c.folders))));
    ms.push((String::from_str("variables"), variables));
    let r = JsonValue::Obj(ms);
    proof {
        lemma_jv_pairs(r->Obj_0@);
        assert(r@->Obj_0 =~= spec_collection_json(c@)->Obj_0);
    }
    r
}

/// The interchange form of a collection; the saved requests and folders are
/// not expanded into items.
#[verifier::loop_isolation(false)]
pub fn convert_to_postman(c: &Collection) -> (r: JsonValue)
    ensures
        r@ == spec_postman_json(c@),
{
    let mut entries: Vec<JsonValue> = Vec::new();
    let mut i: usize = 0;
    while i < c.variables.len()
        invariant
            i <= c.variables@.len(),
            entries@.len() == i,
            forall|j: int| 0 <= j < i ==> crate::json::jv(entries@[j]) == var_entries(
                c@.variables,
            )[j],
        decreases c.variables@.len() - i,
    {
        let mut e: Vec<(String, JsonValue)> = Vec::new();
        e.push((String::from_str("key"), JsonValue::Str(c.variables[i].0.clone())));
        e.push((String::from_str("value"), JsonValue::Str(c.variables[i].1.clone())));
        e.push((String::from_str("type"), JsonValue::str_of("string")));
        let entry = JsonValue::Obj(e);
        proof {
            lemma_jv_pairs(entry->Obj_0@);
            assert(entry@->Obj_0 =~= var_entries(c@.variables)[i as int]->Obj_0);
        }
        entries.push(entry);
        i = i + 1;
    }
    proof {
        lemma_jv_seq(entries@);
        assert(crate::json::jv_seq(entries@) =~= var_entries(c@.variables));
    }
    let mut info: Vec<(String, JsonValue)> = Vec::new();
    info.push((String::from_str("name"), JsonValue::Str(c.name.clone())));
    info.push(
        (
            String::from_str("description"),
            match &c.description {
                Some(d) => JsonValue::Str(d.clone()),
                None => JsonValue::Null,
            },
        ),
    );
    info.push((String::from_str("_postman_id"), JsonValue::Str(c.id.clone())));
    info.push(
        (
            String::from_str("schema"),
            JsonValue::str_of(
                "https://schema.getpostman.com/json/collection/v2.1.0/collection.json",
            ),
        ),
    );
    let info_obj = JsonValue::Obj(info);
    proof {
        lemma_jv_pairs(info_obj->Obj_0@);
        assert(info_obj@->Obj_0 =~= spec_postman_json(c@)->Obj_0[0].1->Obj_0);
    }
    let mut ms: Vec<(String, JsonValue)> = Vec::new();
    ms.push((String::from_str("info"), info_obj));
    ms.push((String::from_str("item"), JsonValue::Arr(Vec::new())));
    ms.push((String::from_str("variable"), JsonValue::Arr(entries)));
    let r = JsonValue::Obj(ms);
    proof {
        lemma_jv_pairs(r->Obj_0@);
        assert(crate::json::jv_seq(Seq::<JsonValue>::empty()) =~= Seq::<JsonVal>::empty());
        assert(r@->Obj_0 =~= spec_postman_json(c@)->Obj_0);
    }
    r
}

/// Imports one document in the given format; only the interchange format is
/// accepted, compared case-insensitively.
pub fn import_collection(format: &str, content: &str) -> (r: Result<Collection, String>)
    ensures
        lower(format@) != "postman"@ ==> r is Err,
{
    let f = to_lower(format);
    if str_eq(f.as_str(), "postman") {
        import_postman_collection(content)
    } else {
        Err(String::from_str("this format is not supported"))
    }
}

/// Exports a collection in the given format, compared case-insensitively:
/// its plain structured form, or the interchange format.
pub fn export_collection(collection: &Collection, format: &str) -> (r: Result<String, String>)
    ensures
        lower(format@) == "json"@ ==> r is Ok && r->Ok_0@ == crate::json::json_text(
            spec_collection_json(collection@),
        ),
        lower(format@) == "postman"@ ==> r is Ok && r->Ok_0@ == crate::json::json_text(
            spec_postman_json(collection@),
        ),
        lower(format@) != "json"@ && lower(format@) != "postman"@ ==> r is Err,
{
    proof {
        reveal_strlit("json");
        reveal_strlit("postman");
        assert("json"@.len() == 4);
        assert("postman"@.len() == 7);
        assert("json"@ != "postman"@);
    }
    let f = to_lower(format);
    if str_eq(f.as_str(), "json") {
        let v = collection_to_json(collection);
        Ok(crate::json::to_json_text(&v))
    } else if str_eq(f.as_str(), "postman") {
        let v = convert_to_postman(collection);
        Ok(crate::json::to_json_text(&v))
    } else {
        Err(String::from_str("this format is not supported"))
    }
}

} // verus!
