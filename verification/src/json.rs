use vstd::prelude::*;
use vstd::string::StrSliceExecFns;
use vstd::string::StringExecFns;

verus! {

/// A parsed JSON document, holding as plain values everything the
/// artifact reader looks at. Object entries keep the order in which the
/// parser hands them over; a number carries its 64-bit value, when it
/// has one, beside its textual form.
pub enum JsonValue {
    Null,
    Bool(bool),
    Num(Option<u64>, String),
    Str(String),
    Arr(Vec<JsonValue>),
    Obj(Vec<(String, JsonValue)>),
}

/// The value under `key` in the entries `es`, from position `i` on:
/// the first entry whose key matches.
pub open spec fn obj_lookup_from(es: Seq<(String, JsonValue)>, key: Seq<char>, i: int) -> Option<
    JsonValue,
>
    decreases es.len() - i,
{
    if i < 0 || i >= es.len() {
        None
    } else if es[i].0@ == key {
        Some(es[i].1)
    } else {
        obj_lookup_from(es, key, i + 1)
    }
}

/// The value under `key` when `v` is an object, else nothing.
pub open spec fn json_get(v: JsonValue, key: Seq<char>) -> Option<JsonValue> {
    match v {
        JsonValue::Obj(es) => obj_lookup_from(es@, key, 0),
        _ => None,
    }
}

impl JsonValue {
    /// Look `key` up in this value, if it is an object.
    pub fn get<'a>(&'a self, key: &str) -> (r: Option<&'a JsonValue>)
        ensures
            match r {
                Some(v) => json_get(*self, key@) == Some(*v),
                None => json_get(*self, key@) is None,
            },
    {
        match self {
            JsonValue::Obj(es) => {
                proof {
                    assert(json_get(*self, key@) == obj_lookup_from(es@, key@, 0));
                }
                let n = es.len();
                let mut i: usize = 0;
                while i < n
                    invariant
                        n == es@.len(),
                        0 <= i <= n,
                        *self == JsonValue::Obj(*es),
                        json_get(*self, key@) == obj_lookup_from(es@, key@, i as int),
                    decreases n - i,
                {
                    if str_eq(es[i].0.as_str(), key) {
                        proof {
                            assert(obj_lookup_from(es@, key@, i as int) == Some(es@[i as int].1));
                        }
                        return Some(&es[i].1);
                    }
                    proof {
                        assert(obj_lookup_from(es@, key@, i as int) == obj_lookup_from(
                            es@,
                            key@,
                            i + 1,
                        ));
                    }
                    i += 1;
                }
                None
            },
            _ => None,
        }
    }
}

/// Character-for-character equality of two string slices.
pub fn str_eq(a: &str, b: &str) -> (r: bool)
    ensures
        r == (a@ == b@),
{
    let n = a.unicode_len();
    let m = b.unicode_len();
    if n != m {
        return false;
    }
    let mut i: usize = 0;
    while i < n
        invariant
            n == a@.len() == b@.len(),
            0 <= i <= n,
            forall|k: int| 0 <= k < i ==> a@[k] == b@[k],
        decreases n - i,
    {
        if a.get_char(i) != b.get_char(i) {
            return false;
        }
        i += 1;
    }
    proof {
        assert(a@ =~= b@);
    }
    true
}

/// What stands after the last dot of `s`; all of `s` when it has no dot.
pub open spec fn last_segment(s: Seq<char>) -> Seq<char>
    decreases s.len(),
{
    if s.len() == 0 {
        s
    } else if s.last() == '.' {
        Seq::empty()
    } else {
        last_segment(s.drop_last()).push(s.last())
    }
}

proof fn lemma_last_segment_no_dot(s: Seq<char>)
    requires
        forall|m: int| 0 <= m < s.len() ==> s[m] != '.',
    ensures
        last_segment(s) == s,
    decreases s.len(),
{
    if s.len() > 0 {
        lemma_last_segment_no_dot(s.drop_last());
        assert(last_segment(s.drop_last()).push(s.last()) =~= s);
    }
}

proof fn lemma_last_segment_after_dot(s: Seq<char>, k: int)
    requires
        0 <= k < s.len(),
        s[k] == '.',
        forall|m: int| k < m < s.len() ==> s[m] != '.',
    ensures
        last_segment(s) == s.subrange(k + 1, s.len() as int),
    decreases s.len(),
{
    if k == s.len() - 1 {
        assert(s.last() == '.');
        assert(last_segment(s) =~= s.subrange(k + 1, s.len() as int));
    } else {
        assert(s.last() != '.');
        lemma_last_segment_after_dot(s.drop_last(), k);
        assert(last_segment(s) == last_segment(s.drop_last()).push(s.last()));
        assert(last_segment(s) =~= s.subrange(k + 1, s.len() as int));
    }
}

/// The part of `name` after its last dot, as its own string.
pub fn last_segment_of(name: &str) -> (r: String)
    ensures
        r@ == last_segment(name@),
{
    let n = name.unicode_len();
    let mut i: usize = n;
    while i > 0
        invariant
            n == name@.len(),
            0 <= i <= n,
            forall|m: int| i <= m < n ==> name@[m] != '.',
        decreases i,
    {
        if name.get_char(i - 1) == '.' {
            let r = name.substring_char(i, n).to_owned();
            proof {
                lemma_last_segment_after_dot(name@, i - 1);
            }
            return r;
        }
        i -= 1;
    }
    proof {
        lemma_last_segment_no_dot(name@);
    }
    name.to_owned()
}

/// The text that a scalar value prints as: a string's characters, a
/// number's own text, `true` or `false`, and `null` for anything else.
pub open spec fn render_scalar_opt(v: Option<JsonValue>) -> Seq<char> {
    match v {
        Some(JsonValue::Str(s)) => s@,
        Some(JsonValue::Num(u, text)) => text@,
        Some(JsonValue::Bool(b)) => if b {
            "true"@
        } else {
            "false"@
        },
        _ => "null"@,
    }
}

/// The text that a scalar value prints as.
pub fn render_scalar(v: Option<&JsonValue>) -> (r: String)
    ensures
        r@ == render_scalar_opt(
            match v {
                Some(x) => Some(*x),
                None => None,
            },
        ),
{
    match v {
        Some(JsonValue::Str(s)) => s.clone(),
        Some(JsonValue::Num(_, text)) => text.clone(),
        Some(JsonValue::Bool(b)) => {
            if *b {
                "true".to_owned()
            } else {
                "false".to_owned()
            }
        },
        _ => "null".to_owned(),
    }
}

/// What the artifact promises about one callable function.
#[derive(Clone, Debug)]
pub struct Function {
    pub name: String,
    pub entrypoint: String,
    pub num_args: u64,
    pub type_args: Vec<String>,
    pub hints: bool,
    pub decorators: Vec<String>,
}

/// Whether the artifact carries at least one hint.
pub open spec fn hints_flag(doc: JsonValue) -> bool {
    match json_get(doc, "hints"@) {
        Some(JsonValue::Obj(es)) => es@.len() != 0,
        _ => false,
    }
}

/// The identifier key under which a function's argument record stands.
pub open spec fn args_key(key: Seq<char>) -> Seq<char> {
    key + ".Args"@
}

/// The declared argument types of a members object, one per entry, in
/// entry order.
pub open spec fn type_args_of(mem: Seq<(String, JsonValue)>) -> Seq<Seq<char>> {
    mem.map_values(|e: (String, JsonValue)| render_scalar_opt(json_get(e.1, "cairo_type"@)))
}

/// Whether identifier entry `i` is the searched function: its key ends in
/// the function name, it is typed `function`, and its argument record is
/// complete (a `size` with a 64-bit value and a `members` object).
pub open spec fn full_match(
    es: Seq<(String, JsonValue)>,
    ids: JsonValue,
    fname: Seq<char>,
    i: int,
) -> bool {
    &&& last_segment(es[i].0@) == fname
    &&& (match json_get(es[i].1, "type"@) {
        Some(JsonValue::Str(s)) => s@ == "function"@,
        _ => false,
    })
    &&& (match json_get(ids, args_key(es[i].0@)) {
        Some(a) => {
            &&& (match json_get(a, "size"@) {
                Some(JsonValue::Num(u, _)) => u is Some,
                _ => false,
            })
            &&& (match json_get(a, "members"@) {
                Some(JsonValue::Obj(_)) => true,
                _ => false,
            })
        },
        None => false,
    })
}

/// The first full match at or after position `i`.
pub open spec fn first_match_from(
    es: Seq<(String, JsonValue)>,
    ids: JsonValue,
    fname: Seq<char>,
    i: int,
) -> Option<int>
    decreases es.len() - i,
{
    if i < 0 || i >= es.len() {
        None
    } else if full_match(es, ids, fname, i) {
        Some(i)
    } else {
        first_match_from(es, ids, fname, i + 1)
    }
}

/// How the fields of a found function relate to the matched entry.
pub open spec fn function_fields_match(
    f: Function,
    es: Seq<(String, JsonValue)>,
    ids: JsonValue,
    doc: JsonValue,
    i: int,
) -> bool {
    &&& f.name@ == last_segment(es[i].0@)
    &&& f.entrypoint@ == render_scalar_opt(json_get(es[i].1, "pc"@))
    &&& (match json_get(ids, args_key(es[i].0@)) {
        Some(a) => {
            &&& (match json_get(a, "size"@) {
                Some(JsonValue::Num(u, _)) => u matches Some(n) && f.num_args == n,
                _ => false,
            })
            &&& (match json_get(a, "members"@) {
                Some(JsonValue::Obj(mem)) => f.type_args@.map_values(|s: String| s@)
                    == type_args_of(mem@),
                _ => false,
            })
        },
        None => false,
    })
    &&& f.hints == hints_flag(doc)
    &&& f.decorators@.len() == 0
}

/// The whole contract of the artifact search: a function is returned if
/// and only if the identifiers object holds a full match, and the first
/// full match determines every field.
pub open spec fn function_result_matches(
    doc: JsonValue,
    fname: Seq<char>,
    r: Option<Function>,
) -> bool {
    match json_get(doc, "identifiers"@) {
        Some(JsonValue::Obj(es)) => match first_match_from(es@, JsonValue::Obj(es), fname, 0) {
            Some(i) => match r {
                Some(f) => function_fields_match(f, es@, JsonValue::Obj(es), doc, i),
                None => false,
            },
            None => r is None,
        },
        _ => r is None,
    }
}

/// The declared argument types of the function: one text per member, in
/// member order.
pub fn get_type_args(members: &JsonValue) -> (r: Vec<String>)
    ensures
        match *members {
            JsonValue::Obj(es) => r@.map_values(|s: String| s@) == type_args_of(es@),
            _ => r@.len() == 0,
        },
{
    match members {
        JsonValue::Obj(es) => {
            let mut r: Vec<String> = Vec::new();
            let n = es.len();
            let mut i: usize = 0;
            while i < n
                invariant
                    n == es@.len(),
                    0 <= i <= n,
                    *members == JsonValue::Obj(*es),
                    r@.len() == i,
                    forall|k: int| 0 <= k < i ==> r@[k]@ == type_args_of(es@)[k],
                decreases n - i,
            {
                r.push(render_scalar(es[i].1.get("cairo_type")));
                i += 1;
            }
            proof {
                assert(r@.map_values(|s: String| s@) =~= type_args_of(es@));
            }
            r
        },
        _ => Vec::new(),
    }
}

/// Search the artifact for the named function and read its descriptor:
/// name, entrypoint text, argument count and argument types, and whether
/// the artifact carries hints.
pub fn find_function(doc: &JsonValue, function_name: &String) -> (r: Option<Function>)
    ensures
        function_result_matches(*doc, function_name@, r),
{
    let hints = match doc.get("hints") {
        Some(h) => match h {
            JsonValue::Obj(hs) => hs.len() != 0,
            _ => false,
        },
        None => false,
    };
    let ids = match doc.get("identifiers") {
        Some(v) => v,
        None => {
            return None;
        },
    };
    let es = match ids {
        JsonValue::Obj(es) => es,
        _ => {
            return None;
        },
    };
    let n = es.len();
    let mut i: usize = 0;
    while i < n
        invariant
            n == es@.len(),
            0 <= i <= n,
            json_get(*doc, "identifiers"@) == Some(*ids),
            *ids == JsonValue::Obj(*es),
            hints == hints_flag(*doc),
            first_match_from(es@, *ids, function_name@, 0) == first_match_from(
                es@,
                *ids,
                function_name@,
                i as int,
            ),
        decreases n - i,
    {
        let key = &es[i].0;
        let value = &es[i].1;
        let name = last_segment_of(key.as_str());
        let type_ok = match value.get("type") {
            Some(t) => match t {
                JsonValue::Str(s) => str_eq(s.as_str(), "function"),
                _ => false,
            },
            None => false,
        };
        if type_ok && str_eq(name.as_str(), function_name.as_str()) {
            let ak = key.clone().concat(".Args");
            let args = ids.get(ak.as_str());
            if let Some(a) = args {
                let size_val: Option<u64> = match a.get("size") {
                    Some(s) => match s {
                        JsonValue::Num(Some(nn), _) => Some(*nn),
                        _ => None,
                    },
                    None => None,
                };
                let members_ok = match a.get("members") {
                    Some(m) => match m {
                        JsonValue::Obj(_) => Some(m),
                        _ => None,
                    },
                    None => None,
                };
                if size_val.is_some() && members_ok.is_some() {
                    let num_args = size_val.unwrap();
                    let members = members_ok.unwrap();
                    let type_args = get_type_args(members);
                    let entrypoint = render_scalar(value.get("pc"));
                    let f = Function {
                        name,
                        entrypoint,
                        num_args,
                        type_args,
                        hints,
                        decorators: Vec::new(),
                    };
                    proof {
                        assert(full_match(es@, *ids, function_name@, i as int));
                        assert(first_match_from(es@, *ids, function_name@, i as int) == Some(
                            i as int,
                        ));
                        assert(function_fields_match(
                            f,
                            es@,
                            *ids,
                            *doc,
                            i as int,
                        ));
                    }
                    return Some(f);
                }
            }
        }
        proof {
            assert(!full_match(es@, *ids, function_name@, i as int));
            assert(first_match_from(es@, *ids, function_name@, i as int) == first_match_from(
                es@,
                *ids,
                function_name@,
                i + 1,
            ));
        }
        i += 1;
    }
    None
}

#[verifier::external_type_specification]
#[verifier::external_body]
pub struct ExValue(serde_json::Value);

/// The parsed form of a JSON text, carried over into the library's own
/// tree: what the outside parser yields is a function of the text alone,
/// with object entries ordered by key.
pub uninterp spec fn json_doc_of(s: Seq<char>) -> Option<JsonValue>;

/// Relies on serde_json::from_str: whether a text parses, and what it
/// parses to, depends on the text alone.
#[verifier::external_body]
fn parse_document(s: &str) -> (r: Option<JsonValue>)
    ensures
        r == json_doc_of(s@),
{
    serde_json::from_str::<serde_json::Value>(s).ok().map(convert_value)
}

/// Relies on serde_json::Value: each variant is moved into the library's
/// tree one arm at a time; a number keeps its 64-bit value, when it has
/// one, beside its own text.
#[verifier::external_body]
fn convert_value(v: serde_json::Value) -> JsonValue {
    match v {
        serde_json::Value::Null => JsonValue::Null,
        serde_json::Value::Bool(b) => JsonValue::Bool(b),
        serde_json::Value::Number(n) => JsonValue::Num(n.as_u64(), n.to_string()),
        serde_json::Value::String(s) => JsonValue::Str(s),
        serde_json::Value::Array(a) => JsonValue::Arr(a.into_iter().map(convert_value).collect()),
        serde_json::Value::Object(m) => JsonValue::Obj(
            m.into_iter().map(|(k, x)| (k, convert_value(x))).collect(),
        ),
    }
}

/// Parse the artifact text and search it for the named function.
pub fn parse_json(data: &String, function_name: &String) -> (r: Option<Function>)
    ensures
        match json_doc_of(data@) {
            Some(doc) => function_result_matches(doc, function_name@, r),
            None => r is None,
        },
{
    match parse_document(data.as_str()) {
        Some(doc) => find_function(&doc, function_name),
        None => None,
    }
}

} // verus!
