//! Reading the JSON answer of an indexer through the dot-paths the user
//! configured (`data.results`, `name`, …): the answer is parsed with
//! `serde_json` one level at a time into a `JsonValue`, then the array of
//! results is found and each result's fields read.
use vstd::prelude::*;
use crate::text::{chars_of, find_char, find_char_exec, lemma_find_char, push_all, string_of};
use crate::iptv::opt_view;
use crate::indexers::{IndexerResult, JsonPaths, ResultModel};

verus! {

/// A JSON value as the indexer logic reads it, with the value's own JSON
/// text (compact, as `serde_json` writes it).
pub struct JsonValue {
    pub kind: JsonKind,
    pub text: String,
}

/// The shape of a JSON value.
pub enum JsonKind {
    Str(String),
    Array(Vec<JsonValue>),
    Object(Vec<(String, JsonValue)>),
    Other,
}

/// A JSON value as plain sequences.
pub struct JsonModel {
    pub kind: JsonKindModel,
    pub text: Seq<char>,
}

/// The shape of a JSON value as plain sequences.
pub enum JsonKindModel {
    Str(Seq<char>),
    Array(Seq<JsonModel>),
    Object(Seq<(Seq<char>, JsonModel)>),
    Other,
}

/// The model of a JSON value.
pub open spec fn json_model(v: JsonValue) -> JsonModel
    decreases v,
{
    JsonModel {
        kind: match v.kind {
            JsonKind::Str(s) => JsonKindModel::Str(s@),
            JsonKind::Array(a) => JsonKindModel::Array(models_of(a@)),
            JsonKind::Object(es) => JsonKindModel::Object(entry_models(es@)),
            JsonKind::Other => JsonKindModel::Other,
        },
        text: v.text@,
    }
}

/// The models of some JSON values, in order.
pub open spec fn models_of(s: Seq<JsonValue>) -> Seq<JsonModel>
    decreases s,
{
    if s.len() == 0 {
        seq![]
    } else {
        models_of(s.subrange(0, s.len() - 1)).push(json_model(s[s.len() - 1]))
    }
}

/// The models of the entries of an object, in order.
pub open spec fn entry_models(s: Seq<(String, JsonValue)>) -> Seq<(Seq<char>, JsonModel)>
    decreases s,
{
    if s.len() == 0 {
        seq![]
    } else {
        entry_models(s.subrange(0, s.len() - 1)).push((s[s.len() - 1].0@, json_model(s[s.len() - 1].1)))
    }
}

/// The value under `key` among the entries of an object, from entry `i`
/// on.
pub open spec fn entry_from(entries: Seq<(Seq<char>, JsonModel)>, key: Seq<char>, i: int) -> Option<JsonModel>
    decreases entries.len() - i,
{
    if i < 0 || i >= entries.len() {
        None
    } else if entries[i].0 == key {
        Some(entries[i].1)
    } else {
        entry_from(entries, key, i + 1)
    }
}

/// `Value::get(key)`: the member `key` of an object; `None` for any other
/// value.
pub open spec fn json_get(v: JsonModel, key: Seq<char>) -> Option<JsonModel> {
    match v.kind {
        JsonKindModel::Object(entries) => entry_from(entries, key, 0),
        _ => None,
    }
}

/// The `.`-separated segments of `s` from `i` on (`str::split('.')`).
pub open spec fn split_dots(s: Seq<char>, i: int) -> Seq<Seq<char>>
    decreases s.len() - i,
{
    if i < 0 || i > s.len() {
        seq![]
    } else {
        let e = find_char(s, '.', i, s.len() as int);
        proof {
            lemma_find_char(s, '.', i, s.len() as int);
        }
        if e >= s.len() {
            seq![s.subrange(i, s.len() as int)]
        } else {
            seq![s.subrange(i, e)] + split_dots(s, e + 1)
        }
    }
}

/// The value reached from `v` through the keys, in order.
pub open spec fn dig_keys(v: JsonModel, keys: Seq<Seq<char>>) -> Option<JsonModel>
    decreases keys.len(),
{
    if keys.len() == 0 {
        Some(v)
    } else {
        match json_get(v, keys[0]) {
            Some(w) => dig_keys(w, keys.drop_first()),
            None => None,
        }
    }
}

/// The value at the dot-path `path` of `v`.
pub open spec fn dig(v: JsonModel, path: Seq<char>) -> Option<JsonModel> {
    dig_keys(v, split_dots(path, 0))
}

/// The text of a field: a string as it is, any other value as its JSON.
pub open spec fn value_text(v: JsonModel) -> Seq<char> {
    match v.kind {
        JsonKindModel::Str(s) => s,
        _ => v.text,
    }
}

/// The string at a dot-path, if the value there is a string.
pub open spec fn dig_str(v: JsonModel, path: Seq<char>) -> Option<Seq<char>> {
    match dig(v, path) {
        Some(w) => match w.kind {
            JsonKindModel::Str(s) => Some(s),
            _ => None,
        },
        None => None,
    }
}

/// An optional field's text.
pub open spec fn optional_field(v: JsonModel, field: Option<String>) -> Option<Seq<char>> {
    match field {
        Some(f) => match dig(v, f@) {
            Some(w) => Some(value_text(w)),
            None => None,
        },
        None => None,
    }
}

/// The result an item gives: it needs a string title and a string magnet.
pub open spec fn json_item(v: JsonModel, p: JsonPaths) -> Option<ResultModel> {
    match (dig_str(v, p.title_field@), dig_str(v, p.magnet_field@)) {
        (Some(t), Some(m)) => Some(
            ResultModel {
                title: t,
                magnet: m,
                size: optional_field(v, p.size_field),
                seeders: optional_field(v, p.seeders_field),
                source_indexer: seq![],
            },
        ),
        _ => None,
    }
}

pub open spec fn json_items(items: Seq<JsonModel>, p: JsonPaths) -> Seq<ResultModel>
    decreases items.len(),
{
    if items.len() == 0 {
        seq![]
    } else {
        let prev = json_items(items.drop_last(), p);
        match json_item(items.last(), p) {
            Some(r) => prev.push(r),
            None => prev,
        }
    }
}

/// What reading an answer gives for the parsed answer and the paths.
pub open spec fn json_of(parsed: Result<JsonModel, Seq<char>>, paths: Option<JsonPaths>) -> Result<Seq<ResultModel>, Seq<char>> {
    match paths {
        None => Err("indexer JSON sin json_paths configurado"@),
        Some(p) => match parsed {
            Err(e) => Err(e),
            Ok(root) => {
                let items = if p.items_path@.len() == 0 {
                    Some(root)
                } else {
                    dig(root, p.items_path@)
                };
                match items {
                    None => Err("items_path '"@ + p.items_path@ + "' no encontrado"@),
                    Some(it) => match it.kind {
                        JsonKindModel::Array(a) => Ok(json_items(a, p)),
                        _ => Err("items_path '"@ + p.items_path@ + "' no apunta a un array"@),
                    },
                }
            },
        },
    }
}

proof fn lemma_models_of(s: Seq<JsonValue>)
    ensures
        models_of(s).len() == s.len(),
        forall|i: int| 0 <= i < s.len() ==> #[trigger] models_of(s)[i] == json_model(s[i]),
        forall|k: int| 0 <= k <= s.len() ==> #[trigger] models_of(s).take(k) == models_of(s.take(k)),
    decreases s.len(),
{
    if s.len() > 0 {
        let w = s.subrange(0, s.len() - 1);
        lemma_models_of(w);
        assert forall|k: int| 0 <= k <= s.len() implies #[trigger] models_of(s).take(k) == models_of(s.take(k)) by {
            if k < s.len() {
                assert(s.take(k) =~= w.take(k));
                assert(models_of(s).take(k) =~= models_of(w).take(k));
            } else {
                assert(s.take(k) =~= s);
                assert(models_of(s).take(k) =~= models_of(s));
            }
        }
    } else {
        assert forall|k: int| 0 <= k <= s.len() implies #[trigger] models_of(s).take(k) == models_of(s.take(k)) by {
            assert(s.take(k) =~= s);
        }
    }
}

proof fn lemma_entry_models(s: Seq<(String, JsonValue)>)
    ensures
        entry_models(s).len() == s.len(),
        forall|i: int| 0 <= i < s.len() ==> #[trigger] entry_models(s)[i] == (s[i].0@, json_model(s[i].1)),
    decreases s.len(),
{
    if s.len() > 0 {
        lemma_entry_models(s.subrange(0, s.len() - 1));
    }
}

fn get_exec<'a>(v: &'a JsonValue, key: &Vec<char>) -> (r: Option<&'a JsonValue>)
    ensures
        match r {
            Some(w) => json_get(json_model(*v), key@) == Some(json_model(*w)),
            None => json_get(json_model(*v), key@) is None,
        },
{
    let k = string_of(key, 0, key.len());
    assert(key@.subrange(0, key@.len() as int) =~= key@);
    match &v.kind {
        JsonKind::Object(entries) => {
            proof {
                lemma_entry_models(entries@);
            }
            let ghost em = entry_models(entries@);
            let mut i: usize = 0;
            while i < entries.len()
                invariant
                    i <= entries@.len(),
                    k@ == key@,
                    em == entry_models(entries@),
                    em.len() == entries@.len(),
                    forall|j: int| 0 <= j < entries@.len() ==> #[trigger] em[j] == (entries@[j].0@, json_model(entries@[j].1)),
                    json_get(json_model(*v), key@) == entry_from(em, key@, i as int),
                decreases entries@.len() - i,
            {
                if entries[i].0 == k {
                    assert(entries@[i as int].0@ == key@);
                    return Some(&entries[i].1);
                }
                i += 1;
            }
            None
        },
        _ => None,
    }
}

/// The value at a dot-path.
fn dig_exec<'a>(v: &'a JsonValue, path: &str) -> (r: Option<&'a JsonValue>)
    ensures
        match r {
            Some(w) => dig(json_model(*v), path@) == Some(json_model(*w)),
            None => dig(json_model(*v), path@) is None,
        },
{
    let p = chars_of(path);
    let n = p.len();
    let mut cur: &JsonValue = v;
    let mut pos: usize = 0;
    loop
        invariant
            pos <= n == p@.len(),
            p@ == path@,
            dig(json_model(*v), path@) == dig_keys(json_model(*cur), split_dots(p@, pos as int)),
        decreases n - pos,
    {
        let e = find_char_exec(&p, '.', pos, n);
        let key = crate::text::sub_vec(&p, pos, e);
        let ghost segs = split_dots(p@, pos as int);
        proof {
            if e < n {
                assert(segs.drop_first() =~= split_dots(p@, e + 1));
            }
        }
        match get_exec(cur, &key) {
            None => {
                return None;
            },
            Some(w) => {
                if e >= n {
                    proof {
                        assert(segs.len() == 1);
                        assert(segs.drop_first() =~= Seq::<Seq<char>>::empty());
                        assert(dig_keys(json_model(*w), Seq::<Seq<char>>::empty()) == Some(json_model(*w)));
                    }
                    return Some(w);
                }
                cur = w;
                pos = e + 1;
            },
        }
    }
}

fn value_text_exec(v: &JsonValue) -> (r: String)
    ensures
        r@ == value_text(json_model(*v)),
{
    match &v.kind {
        JsonKind::Str(s) => s.clone(),
        _ => v.text.clone(),
    }
}

fn dig_str_exec(v: &JsonValue, path: &str) -> (r: Option<String>)
    ensures
        opt_view(r) == dig_str(json_model(*v), path@),
{
    match dig_exec(v, path) {
        Some(w) => match &w.kind {
            JsonKind::Str(s) => Some(s.clone()),
            _ => None,
        },
        None => None,
    }
}

fn optional_field_exec(v: &JsonValue, field: &Option<String>) -> (r: Option<String>)
    ensures
        opt_view(r) == optional_field(json_model(*v), *field),
{
    match field {
        Some(f) => match dig_exec(v, f.as_str()) {
            Some(w) => Some(value_text_exec(w)),
            None => None,
        },
        None => None,
    }
}

/// The results of a parsed JSON answer read through the configured paths
/// (`items_path` to the array of results, empty when the answer is the
/// array; each result's title and magnet must be strings, size and
/// seeders are optional and given as text). `parsed` is the answer as
/// `parse_json` read it, or the parser's message.
pub fn json_results(parsed: Result<JsonValue, String>, paths: Option<&JsonPaths>) -> (r: Result<Vec<IndexerResult>, String>)
    ensures
        match r {
            Ok(v) => json_of(
                match parsed {
                    Ok(x) => Ok(json_model(x)),
                    Err(e) => Err(e@),
                },
                match paths {
                    Some(p) => Some(*p),
                    None => None,
                },
            ) == Ok::<Seq<ResultModel>, Seq<char>>(v@.map_values(|x: IndexerResult| x@)),
            Err(e) => json_of(
                match parsed {
                    Ok(x) => Ok(json_model(x)),
                    Err(e) => Err(e@),
                },
                match paths {
                    Some(p) => Some(*p),
                    None => None,
                },
            ) == Err::<Seq<ResultModel>, Seq<char>>(e@),
        },
{
    let p = match paths {
        Some(p) => p,
        None => {
            return Err("indexer JSON sin json_paths configurado".to_owned());
        },
    };
    let root = match parsed {
        Ok(root) => root,
        Err(e) => {
            return Err(e);
        },
    };
    let items = if p.items_path.as_str().is_empty() {
        &root
    } else {
        match dig_exec(&root, p.items_path.as_str()) {
            Some(it) => it,
            None => {
                let mut e = "items_path '".to_owned();
                push_all(&mut e, p.items_path.as_str());
                push_all(&mut e, "' no encontrado");
                return Err(e);
            },
        }
    };
    match &items.kind {
        JsonKind::Array(a) => {
            proof {
                lemma_models_of(a@);
            }
            let mut out: Vec<IndexerResult> = Vec::new();
            let mut i: usize = 0;
            while i < a.len()
                invariant
                    i <= a@.len(),
                    forall|j: int| 0 <= j < a@.len() ==> #[trigger] models_of(a@)[j] == json_model(a@[j]),
                    forall|k: int| 0 <= k <= a@.len() ==> #[trigger] models_of(a@).take(k) == models_of(a@.take(k)),
                    models_of(a@).len() == a@.len(),
                    out@.map_values(|x: IndexerResult| x@) == json_items(models_of(a@).take(i as int), *p),
                decreases a@.len() - i,
            {
                proof {
                    let ms = models_of(a@);
                    assert(ms.take(i + 1).drop_last() =~= ms.take(i as int));
                    assert(ms.take(i + 1).last() == json_model(a@[i as int]));
                }
                let item = &a[i];
                let title = dig_str_exec(item, p.title_field.as_str());
                let magnet = dig_str_exec(item, p.magnet_field.as_str());
                match (title, magnet) {
                    (Some(t), Some(m)) => {
                        let r = IndexerResult {
                            title: t,
                            magnet: m,
                            size: optional_field_exec(item, &p.size_field),
                            seeders: optional_field_exec(item, &p.seeders_field),
                            source_indexer: String::new(),
                        };
                        let ghost before = out@.map_values(|x: IndexerResult| x@);
                        let ghost rv = r@;
                        out.push(r);
                        assert(out@.map_values(|x: IndexerResult| x@) =~= before.push(rv));
                    },
                    _ => {},
                }
                i += 1;
            }
            assert(models_of(a@).take(i as int) =~= models_of(a@));
            Ok(out)
        },
        _ => {
            let mut e = "items_path '".to_owned();
            push_all(&mut e, p.items_path.as_str());
            push_all(&mut e, "' no apunta a un array");
            Err(e)
        },
    }
}


/// One level of a parsed JSON document: its shape, with the compact JSON
/// text of each element or member, and its own compact text.
pub struct JsonNode {
    pub kind: NodeKind,
    pub text: String,
}

/// The shape of one level of a JSON document.
pub enum NodeKind {
    Str(String),
    Array(Vec<String>),
    Object(Vec<(String, String)>),
    Other,
}

/// One level of a JSON document as plain sequences.
pub struct NodeModel {
    pub kind: NodeKindModel,
    pub text: Seq<char>,
}

pub enum NodeKindModel {
    Str(Seq<char>),
    Array(Seq<Seq<char>>),
    Object(Seq<(Seq<char>, Seq<char>)>),
    Other,
}

pub open spec fn strings_model(v: Seq<String>) -> Seq<Seq<char>> {
    v.map_values(|x: String| x@)
}

pub open spec fn pairs_model(v: Seq<(String, String)>) -> Seq<(Seq<char>, Seq<char>)> {
    v.map_values(|x: (String, String)| (x.0@, x.1@))
}

impl View for JsonNode {
    type V = NodeModel;

    open spec fn view(&self) -> NodeModel {
        NodeModel {
            kind: match self.kind {
                NodeKind::Str(s) => NodeKindModel::Str(s@),
                NodeKind::Array(a) => NodeKindModel::Array(strings_model(a@)),
                NodeKind::Object(o) => NodeKindModel::Object(pairs_model(o@)),
                NodeKind::Other => NodeKindModel::Other,
            },
            text: self.text@,
        }
    }
}

/// What `serde_json::from_str::<Value>` reads from a text, seen one level
/// deep: the value's shape, the compact text (`Value::to_string`) of each
/// element or member, and the value's own compact text; or the parser's
/// message.
pub uninterp spec fn json_node(text: Seq<char>) -> Result<NodeModel, Seq<char>>;

/// Parses a text with `serde_json::from_str` into a `serde_json::Value`
/// and hands back its first level: a string, the texts of an array's
/// elements, the keys and texts of an object's members (in the map's
/// order), and the value's compact text; or the parser's message.
#[verifier::external_body]
pub fn parse_node(text: &str) -> (r: Result<JsonNode, String>)
    ensures
        match r {
            Ok(n) => json_node(text@) == Ok::<NodeModel, Seq<char>>(n@),
            Err(e) => json_node(text@) == Err::<NodeModel, Seq<char>>(e@),
        },
{
    let v: serde_json::Value = serde_json::from_str(text).map_err(|e| e.to_string())?;
    let kind = match &v {
        serde_json::Value::String(s) => NodeKind::Str(s.clone()),
        serde_json::Value::Array(a) => NodeKind::Array(a.iter().map(|x| x.to_string()).collect()),
        serde_json::Value::Object(o) => NodeKind::Object(o.iter().map(|(k, x)| (k.clone(), x.to_string())).collect()),
        _ => NodeKind::Other,
    };
    Ok(JsonNode { kind, text: v.to_string() })
}

/// A value known only by its text.
pub open spec fn leaf(text: Seq<char>) -> JsonModel {
    JsonModel { kind: JsonKindModel::Other, text }
}

/// A JSON document parsed as a whole: its first level, then each element
/// or member parsed from its own text in turn (a text that is not
/// shorter than its parent's, or does not parse, is kept as text only;
/// `serde_json` writes neither).
pub open spec fn json_parsed(text: Seq<char>) -> Result<JsonModel, Seq<char>>
    decreases text.len(), 1int, 0int,
{
    match json_node(text) {
        Err(e) => Err(e),
        Ok(n) => Ok(
            JsonModel {
                kind: match n.kind {
                    NodeKindModel::Str(s) => JsonKindModel::Str(s),
                    NodeKindModel::Array(cs) => JsonKindModel::Array(child_models(cs, text.len() as int)),
                    NodeKindModel::Object(ms) => JsonKindModel::Object(member_models(ms, text.len() as int)),
                    NodeKindModel::Other => JsonKindModel::Other,
                },
                text: n.text,
            },
        ),
    }
}

/// The value a child's text gives under a parent of length `bound`.
pub open spec fn child_model(ct: Seq<char>, bound: int) -> JsonModel
    decreases bound, 0int, 0int,
{
    if ct.len() < bound {
        match json_parsed(ct) {
            Ok(m) => m,
            Err(_) => leaf(ct),
        }
    } else {
        leaf(ct)
    }
}

pub open spec fn child_models(cs: Seq<Seq<char>>, bound: int) -> Seq<JsonModel>
    decreases bound, 0int, cs.len() + 1,
{
    if cs.len() == 0 {
        seq![]
    } else {
        child_models(cs.drop_last(), bound).push(child_model(cs.last(), bound))
    }
}

pub open spec fn member_models(ms: Seq<(Seq<char>, Seq<char>)>, bound: int) -> Seq<(Seq<char>, JsonModel)>
    decreases bound, 0int, ms.len() + 1,
{
    if ms.len() == 0 {
        seq![]
    } else {
        member_models(ms.drop_last(), bound).push((ms.last().0, child_model(ms.last().1, bound)))
    }
}

fn leaf_exec(text: &String) -> (r: JsonValue)
    ensures
        json_model(r) == leaf(text@),
{
    JsonValue { kind: JsonKind::Other, text: text.clone() }
}

/// Parses a JSON document as a whole (see `json_parsed`).
pub fn parse_json(text: &str) -> (r: Result<JsonValue, String>)
    ensures
        match r {
            Ok(v) => json_parsed(text@) == Ok::<JsonModel, Seq<char>>(json_model(v)),
            Err(e) => json_parsed(text@) == Err::<JsonModel, Seq<char>>(e@),
        },
    decreases text@.len(),
{
    let n = match parse_node(text) {
        Ok(n) => n,
        Err(e) => {
            return Err(e);
        },
    };
    let bound = chars_of(text).len();
    let ghost nv = n@;
    let kind = match n.kind {
        NodeKind::Str(s) => JsonKind::Str(s),
        NodeKind::Array(cs) => {
            let mut out: Vec<JsonValue> = Vec::new();
            let mut i: usize = 0;
            while i < cs.len()
                invariant
                    i <= cs@.len(),
                    bound == text@.len(),
                    models_of(out@) == child_models(strings_model(cs@).take(i as int), bound as int),
                decreases cs@.len() - i,
            {
                let ct = &cs[i];
                let v = if chars_of(ct.as_str()).len() < bound {
                    match parse_json(ct.as_str()) {
                        Ok(v) => v,
                        Err(_) => leaf_exec(ct),
                    }
                } else {
                    leaf_exec(ct)
                };
                proof {
                    let sm = strings_model(cs@);
                    assert(sm.take(i + 1).drop_last() =~= sm.take(i as int));
                    assert(sm.take(i + 1).last() == ct@);
                    assert(json_model(v) == child_model(ct@, bound as int));
                }
                let ghost before = out@;
                out.push(v);
                assert(out@.subrange(0, out@.len() - 1) =~= before);
                i += 1;
            }
            assert(strings_model(cs@).take(i as int) =~= strings_model(cs@));
            JsonKind::Array(out)
        },
        NodeKind::Object(ms) => {
            let mut out: Vec<(String, JsonValue)> = Vec::new();
            let mut i: usize = 0;
            while i < ms.len()
                invariant
                    i <= ms@.len(),
                    bound == text@.len(),
                    entry_models(out@) == member_models(pairs_model(ms@).take(i as int), bound as int),
                decreases ms@.len() - i,
            {
                let (k, ct) = (&ms[i].0, &ms[i].1);
                let v = if chars_of(ct.as_str()).len() < bound {
                    match parse_json(ct.as_str()) {
                        Ok(v) => v,
                        Err(_) => leaf_exec(ct),
                    }
                } else {
                    leaf_exec(ct)
                };
                proof {
                    let pm = pairs_model(ms@);
                    assert(pm.take(i + 1).drop_last() =~= pm.take(i as int));
                    assert(pm.take(i + 1).last() == (k@, ct@));
                    assert(json_model(v) == child_model(ct@, bound as int));
                }
                let ghost before = out@;
                out.push((k.clone(), v));
                assert(out@.subrange(0, out@.len() - 1) =~= before);
                i += 1;
            }
            assert(pairs_model(ms@).take(i as int) =~= pairs_model(ms@));
            JsonKind::Object(out)
        },
        NodeKind::Other => JsonKind::Other,
    };
    let r = JsonValue { kind, text: n.text };
    assert(json_parsed(text@) == Ok::<JsonModel, Seq<char>>(json_model(r)));
    Ok(r)
}

/// An indexer answering in JSON, from its raw answer: the body parsed as
/// JSON (see `json_parsed`), then read through the configured paths (see
/// `json_results`).
pub fn json(body: &str, paths: Option<&JsonPaths>) -> (r: Result<Vec<IndexerResult>, String>)
    ensures
        match r {
            Ok(v) => json_of(json_parsed(body@), match paths {
                Some(p) => Some(*p),
                None => None,
            }) == Ok::<Seq<ResultModel>, Seq<char>>(v@.map_values(|x: IndexerResult| x@)),
            Err(e) => json_of(json_parsed(body@), match paths {
                Some(p) => Some(*p),
                None => None,
            }) == Err::<Seq<ResultModel>, Seq<char>>(e@),
        },
{
    json_results(parse_json(body), paths)
}

} // verus!
