//! JSON values as the library sees them, and the minimal JSON-object contract checker.

use vstd::prelude::*;

verus! {

/// A JSON value. Numbers keep their textual form; object members keep their order.
#[derive(Debug, PartialEq, Eq)]
pub enum JsonValue {
    Null,
    Bool(bool),
    Number(String),
    Str(String),
    Array(Vec<JsonValue>),
    Object(Vec<(String, JsonValue)>),
}

/// The mathematical content of a `JsonValue`.
pub enum JsonView {
    Null,
    Bool(bool),
    Number(Seq<char>),
    Str(Seq<char>),
    Array(Seq<JsonView>),
    Object(Seq<(Seq<char>, JsonView)>),
}

impl View for JsonValue {
    type V = JsonView;

    open spec fn view(&self) -> JsonView
        decreases self,
    {
        match self {
            JsonValue::Null => JsonView::Null,
            JsonValue::Bool(b) => JsonView::Bool(*b),
            JsonValue::Number(n) => JsonView::Number(n@),
            JsonValue::Str(t) => JsonView::Str(t@),
            JsonValue::Array(items) => JsonView::Array(items_view(items@)),
            JsonValue::Object(entries) => JsonView::Object(entries_view(entries@)),
        }
    }
}

/// The views of a sequence of values.
pub open spec fn items_view(s: Seq<JsonValue>) -> Seq<JsonView>
    decreases s,
{
    if s.len() == 0 {
        Seq::empty()
    } else {
        items_view(s.drop_last()).push(s.last().view())
    }
}

/// The views of a sequence of object members.
pub open spec fn entries_view(s: Seq<(String, JsonValue)>) -> Seq<(Seq<char>, JsonView)>
    decreases s,
{
    if s.len() == 0 {
        Seq::empty()
    } else {
        entries_view(s.drop_last()).push((s.last().0@, s.last().1.view()))
    }
}

impl Clone for JsonValue {
    fn clone(&self) -> (r: Self)
        ensures
            r@ == self@,
        decreases self,
    {
        match self {
            JsonValue::Null => {
                assert(*self is Null);
                JsonValue::Null
            },
            JsonValue::Bool(b) => JsonValue::Bool(*b),
            JsonValue::Number(n) => JsonValue::Number(n.clone()),
            JsonValue::Str(t) => JsonValue::Str(t.clone()),
            JsonValue::Array(items) => {
                let mut out: Vec<JsonValue> = Vec::new();
                let mut i: usize = 0;
                while i < items.len()
                    invariant
                        i <= items@.len(),
                        items_view(out@) == items_view(items@.subrange(0, i as int)),
                        decreases_to!(*self => items@),
                    decreases items.len() - i,
                {
                    proof {
                        assert(decreases_to!(items@ => items@[i as int]));
                    }
                    let c = items[i].clone();
                    let ghost before = out@;
                    out.push(c);
                    proof {
                        assert(out@.drop_last() =~= before);
                        let next = items@.subrange(0, i + 1);
                        assert(next.drop_last() =~= items@.subrange(0, i as int));
                        assert(items_view(out@) == items_view(next));
                    }
                    i = i + 1;
                }
                assert(items@.subrange(0, items@.len() as int) =~= items@);
                JsonValue::Array(out)
            },
            JsonValue::Object(entries) => {
                let mut out: Vec<(String, JsonValue)> = Vec::new();
                let mut i: usize = 0;
                while i < entries.len()
                    invariant
                        i <= entries@.len(),
                        entries_view(out@) == entries_view(entries@.subrange(0, i as int)),
                        decreases_to!(*self => entries@),
                    decreases entries.len() - i,
                {
                    proof {
                        assert(decreases_to!(entries@ => entries@[i as int].1));
                    }
                    let v = entries[i].1.clone();
                    let ghost before = out@;
                    out.push((entries[i].0.clone(), v));
                    proof {
                        assert(out@.drop_last() =~= before);
                        let next = entries@.subrange(0, i + 1);
                        assert(next.drop_last() =~= entries@.subrange(0, i as int));
                        assert(entries_view(out@) == entries_view(next));
                    }
                    i = i + 1;
                }
                assert(entries@.subrange(0, entries@.len() as int) =~= entries@);
                JsonValue::Object(out)
            },
        }
    }
}

/// `entries_view` keeps length and order.
pub proof fn lemma_entries_view(s: Seq<(String, JsonValue)>)
    ensures
        entries_view(s).len() == s.len(),
        forall|i: int| 0 <= i < s.len() ==> #[trigger] entries_view(s)[i] == (s[i].0@, s[i].1@),
    decreases s.len(),
{
    if s.len() > 0 {
        assert(entries_view(s) == entries_view(s.drop_last()).push((s.last().0@, s.last().1@)));
        lemma_entries_view(s.drop_last());
        assert forall|i: int| 0 <= i < s.len() implies #[trigger] entries_view(s)[i] == (
            s[i].0@,
            s[i].1@,
        ) by {
            if i < s.len() - 1 {
                assert(s.drop_last()[i] == s[i]);
            }
        }
    }
}

/// `items_view` keeps length and order.
pub proof fn lemma_items_view(s: Seq<JsonValue>)
    ensures
        items_view(s).len() == s.len(),
        forall|i: int| 0 <= i < s.len() ==> #[trigger] items_view(s)[i] == s[i]@,
    decreases s.len(),
{
    if s.len() > 0 {
        assert(items_view(s) == items_view(s.drop_last()).push(s.last()@));
        lemma_items_view(s.drop_last());
        assert forall|i: int| 0 <= i < s.len() implies #[trigger] items_view(s)[i] == s[i]@ by {
            if i < s.len() - 1 {
                assert(s.drop_last()[i] == s[i]);
            }
        }
    }
}

/// Index of the first member of `entries` named `key`, or -1.
pub open spec fn member_pos(entries: Seq<(Seq<char>, JsonView)>, key: Seq<char>) -> int
    decreases entries.len(),
{
    if entries.len() == 0 {
        -1
    } else if entries[0].0 == key {
        0
    } else {
        let p = member_pos(entries.drop_first(), key);
        if p < 0 {
            -1
        } else {
            p + 1
        }
    }
}

/// The value of the first member of `entries` named `key`.
pub open spec fn member_of(entries: Seq<(Seq<char>, JsonView)>, key: Seq<char>) -> Option<JsonView> {
    let p = member_pos(entries, key);
    if p < 0 {
        None
    } else {
        Some(entries[p].1)
    }
}

/// `member_pos` is the first index holding `key`, or -1 when none does.
pub proof fn lemma_member_pos(entries: Seq<(Seq<char>, JsonView)>, key: Seq<char>)
    ensures
        -1 <= member_pos(entries, key) < entries.len(),
        member_pos(entries, key) >= 0 ==> entries[member_pos(entries, key)].0 == key,
        forall|j: int|
            0 <= j < entries.len() && (member_pos(entries, key) < 0 || j < member_pos(
                entries,
                key,
            )) ==> #[trigger] entries[j].0 != key,
    decreases entries.len(),
{
    if entries.len() > 0 && entries[0].0 != key {
        let t = entries.drop_first();
        lemma_member_pos(t, key);
        assert forall|j: int|
            0 <= j < entries.len() && (member_pos(entries, key) < 0 || j < member_pos(
                entries,
                key,
            )) implies #[trigger] entries[j].0 != key by {
            if j > 0 {
                assert(entries[j] == t[j - 1]);
            }
        }
    }
}

/// A first index holding `key` is `member_pos`.
proof fn lemma_member_pos_unique(entries: Seq<(Seq<char>, JsonView)>, key: Seq<char>, i: int)
    requires
        -1 <= i < entries.len(),
        i >= 0 ==> entries[i].0 == key,
        forall|j: int| 0 <= j < entries.len() && (i < 0 || j < i) ==> #[trigger] entries[j].0 != key,
    ensures
        member_pos(entries, key) == i,
{
    lemma_member_pos(entries, key);
    let p = member_pos(entries, key);
    if p >= 0 && i >= 0 && p != i {
        if p < i {
            assert(entries[p].0 != key);
        } else {
            assert(entries[i].0 != key);
        }
    }
    if p < 0 && i >= 0 {
        assert(entries[i].0 != key);
    }
    if p >= 0 && i < 0 {
        assert(entries[p].0 != key);
    }
}

/// Index of the first member of `entries` named `key`.
pub fn find_member(entries: &Vec<(String, JsonValue)>, key: &String) -> (r: Option<usize>)
    ensures
        match r {
            Some(i) => i as int == member_pos(entries_view(entries@), key@) && i < entries@.len()
                && entries@[i as int].0@ == key@,
            None => member_pos(entries_view(entries@), key@) == -1,
        },
{
    proof {
        lemma_entries_view(entries@);
    }
    let ghost ev = entries_view(entries@);
    let mut i: usize = 0;
    while i < entries.len()
        invariant
            i <= entries@.len(),
            ev == entries_view(entries@),
            ev.len() == entries@.len(),
            forall|j: int| 0 <= j < entries@.len() ==> #[trigger] ev[j] == (entries@[j].0@, entries@[j].1@),
            forall|j: int| 0 <= j < i ==> #[trigger] ev[j].0 != key@,
        decreases entries.len() - i,
    {
        if entries[i].0 == *key {
            proof {
                assert(ev[i as int].0 == key@);
                lemma_member_pos_unique(ev, key@, i as int);
            }
            return Some(i);
        }
        assert(ev[i as int].0 != key@);
        i = i + 1;
    }
    proof {
        lemma_member_pos_unique(ev, key@, -1);
    }
    None
}

/// The schema's declared type: its `type` member when that is a string, else `object`.
pub open spec fn schema_type(s: Seq<(Seq<char>, JsonView)>) -> Seq<char> {
    match member_of(s, "type"@) {
        Some(JsonView::Str(t)) => t,
        _ => "object"@,
    }
}

/// The first string in `required` that names no member of `m`.
pub open spec fn first_missing(required: Seq<JsonView>, m: Seq<(Seq<char>, JsonView)>) -> Option<
    Seq<char>,
>
    decreases required.len(),
{
    if required.len() == 0 {
        None
    } else {
        match required[0] {
            JsonView::Str(name) => if member_pos(m, name) < 0 {
                Some(name)
            } else {
                first_missing(required.drop_first(), m)
            },
            _ => first_missing(required.drop_first(), m),
        }
    }
}

/// The names listed by the schema's `required` array (nothing when it has none).
pub open spec fn required_of(s: Seq<(Seq<char>, JsonView)>) -> Seq<JsonView> {
    match member_of(s, "required"@) {
        Some(JsonView::Array(r)) => r,
        _ => Seq::empty(),
    }
}

/// What `validate_against_schema(value, schema)` gives: `Ok` when `value` meets `schema`,
/// else the message of the first violation found.
pub open spec fn schema_check(value: JsonView, schema: JsonView) -> Result<(), Seq<char>>
    decreases schema,
{
    match schema {
        JsonView::Object(s) => {
            let t = schema_type(s);
            if t == "object"@ {
                match value {
                    JsonView::Object(m) => match first_missing(required_of(s), m) {
                        Some(name) => Err("missing required field `"@ + name + "`"@),
                        None => {
                            let p = member_pos(s, "properties"@);
                            if 0 <= p < s.len() {
                                match s[p].1 {
                                    JsonView::Object(props) => properties_check(m, props),
                                    _ => Ok(()),
                                }
                            } else {
                                Ok(())
                            }
                        },
                    },
                    _ => Err("expected object"@),
                }
            } else if t == "string"@ {
                if value is Str {
                    Ok(())
                } else {
                    Err("expected string"@)
                }
            } else if t == "number"@ {
                if value is Number {
                    Ok(())
                } else {
                    Err("expected number"@)
                }
            } else if t == "boolean"@ {
                if value is Bool {
                    Ok(())
                } else {
                    Err("expected boolean"@)
                }
            } else {
                Err("unsupported schema type `"@ + t + "`"@)
            }
        },
        _ => Ok(()),
    }
}

/// Each property schema in `props`, in order, checks the field of the same name when `m` has it;
/// the first failure is the result.
pub open spec fn properties_check(m: Seq<(Seq<char>, JsonView)>, props: Seq<(Seq<char>, JsonView)>) -> Result<
    (),
    Seq<char>,
>
    decreases props,
{
    if props.len() == 0 {
        Ok(())
    } else {
        let p = member_pos(m, props[0].0);
        let first = if 0 <= p < m.len() {
            schema_check(m[p].1, props[0].1)
        } else {
            Ok(())
        };
        match first {
            Err(e) => Err(e),
            Ok(()) => properties_check(m, props.subrange(1, props.len() as int)),
        }
    }
}

/// The property schemas an object schema's `properties` member lists (none when it has no such
/// object member).
pub open spec fn property_schemas(s: Seq<(Seq<char>, JsonView)>) -> Seq<(Seq<char>, JsonView)> {
    let p = member_pos(s, "properties"@);
    if 0 <= p < s.len() {
        match s[p].1 {
            JsonView::Object(props) => props,
            _ => Seq::empty(),
        }
    } else {
        Seq::empty()
    }
}

/// Object `m` has every field that `required` names.
pub open spec fn has_required(required: Seq<JsonView>, m: Seq<(Seq<char>, JsonView)>) -> bool {
    forall|k: int|
        0 <= k < required.len() ==> (#[trigger] required[k] matches JsonView::Str(n) ==> member_pos(m, n) >= 0)
}

/// Each field of object `m` that a schema of `props` describes passes that schema.
pub open spec fn fields_pass(m: Seq<(Seq<char>, JsonView)>, props: Seq<(Seq<char>, JsonView)>) -> bool {
    forall|k: int|
        0 <= k < props.len() ==> {
            let p = member_pos(m, (#[trigger] props[k]).0);
            0 <= p < m.len() ==> schema_check(m[p].1, props[k].1) is Ok
        }
}

proof fn lemma_first_missing_none(required: Seq<JsonView>, m: Seq<(Seq<char>, JsonView)>)
    ensures
        first_missing(required, m) is None <==> has_required(required, m),
    decreases required.len(),
{
    if required.len() > 0 {
        let t = required.drop_first();
        lemma_first_missing_none(t, m);
        assert forall|k: int| 0 <= k < t.len() implies #[trigger] t[k] == required[k + 1] by {}
        if has_required(required, m) {
            assert forall|k: int| 0 <= k < t.len() implies (#[trigger] t[k] matches JsonView::Str(n) ==> member_pos(m, n) >= 0) by {
                assert(required[k + 1] == t[k]);
            }
        }
        if first_missing(required, m) is None {
            assert forall|k: int| 0 <= k < required.len() implies (#[trigger] required[k] matches JsonView::Str(n)
                ==> member_pos(m, n) >= 0) by {
                if k > 0 {
                    assert(t[k - 1] == required[k]);
                }
            }
        }
    }
}

proof fn lemma_fields_pass(m: Seq<(Seq<char>, JsonView)>, props: Seq<(Seq<char>, JsonView)>)
    ensures
        properties_check(m, props) is Ok <==> fields_pass(m, props),
    decreases props.len(),
{
    if props.len() > 0 {
        let t = props.subrange(1, props.len() as int);
        lemma_fields_pass(m, t);
        if fields_pass(m, props) {
            assert forall|k: int| 0 <= k < t.len() implies {
                let p = member_pos(m, (#[trigger] t[k]).0);
                0 <= p < m.len() ==> schema_check(m[p].1, t[k].1) is Ok
            } by {
                assert(t[k] == props[k + 1]);
            }
        }
        if properties_check(m, props) is Ok {
            assert forall|k: int| 0 <= k < props.len() implies {
                let p = member_pos(m, (#[trigger] props[k]).0);
                0 <= p < m.len() ==> schema_check(m[p].1, props[k].1) is Ok
            } by {
                if k > 0 {
                    assert(t[k - 1] == props[k]);
                }
            }
        }
    }
}

/// A value passes an object schema exactly when it is an object that has every field the
/// schema's `required` list names and each of whose fields described under `properties`
/// passes its property schema.
pub proof fn law_object_schema(value: JsonView, s: Seq<(Seq<char>, JsonView)>)
    requires
        schema_type(s) == "object"@,
    ensures
        schema_check(value, JsonView::Object(s)) is Ok <==> (value matches JsonView::Object(m) && has_required(
            required_of(s),
            m,
        ) && fields_pass(m, property_schemas(s))),
{
    if let JsonView::Object(m) = value {
        lemma_first_missing_none(required_of(s), m);
        lemma_fields_pass(m, property_schemas(s));
    }
}

/// A schema of type `string` accepts exactly the JSON strings; any other value is refused
/// with `expected string`. Likewise `number` accepts exactly numbers and `boolean` exactly
/// booleans.
pub proof fn law_scalar_schemas(value: JsonView, s: Seq<(Seq<char>, JsonView)>)
    ensures
        member_of(s, "type"@) == Some(JsonView::Str("string"@)) ==> (schema_check(value, JsonView::Object(s))
            is Ok <==> value is Str) && (!(value is Str) ==> schema_check(value, JsonView::Object(s))
            == Err::<(), Seq<char>>("expected string"@)),
        member_of(s, "type"@) == Some(JsonView::Str("number"@)) ==> (schema_check(value, JsonView::Object(s))
            is Ok <==> value is Number) && (!(value is Number) ==> schema_check(value, JsonView::Object(s))
            == Err::<(), Seq<char>>("expected number"@)),
        member_of(s, "type"@) == Some(JsonView::Str("boolean"@)) ==> (schema_check(value, JsonView::Object(s))
            is Ok <==> value is Bool) && (!(value is Bool) ==> schema_check(value, JsonView::Object(s))
            == Err::<(), Seq<char>>("expected boolean"@)),
{
    reveal_strlit("string");
    reveal_strlit("number");
    reveal_strlit("boolean");
    reveal_strlit("object");
    assert("string"@[0] != "object"@[0]);
    assert("number"@[0] != "object"@[0] && "number"@[0] != "string"@[0]);
    assert("boolean"@[0] != "object"@[0] && "boolean"@[0] != "string"@[0] && "boolean"@[0] != "number"@[0]);
}

/// A check outcome with its message as text.
pub open spec fn check_view(r: Result<(), String>) -> Result<(), Seq<char>> {
    match r {
        Ok(()) => Ok(()),
        Err(e) => Err(e@),
    }
}

/// The first name in `required` missing from `m` (see `first_missing`).
fn find_missing(required: &Vec<JsonValue>, m: &Vec<(String, JsonValue)>) -> (r: Option<String>)
    ensures
        match r {
            Some(n) => first_missing(items_view(required@), entries_view(m@)) == Some(n@),
            None => first_missing(items_view(required@), entries_view(m@)) == None::<Seq<char>>,
        },
{
    proof {
        lemma_items_view(required@);
    }
    let ghost rv = items_view(required@);
    let ghost mv = entries_view(m@);
    let mut i: usize = 0;
    assert(rv.skip(0) =~= rv);
    while i < required.len()
        invariant
            i <= required@.len(),
            rv == items_view(required@),
            mv == entries_view(m@),
            rv.len() == required@.len(),
            forall|j: int| 0 <= j < required@.len() ==> #[trigger] rv[j] == required@[j]@,
            first_missing(rv, mv) == first_missing(rv.skip(i as int), mv),
        decreases required.len() - i,
    {
        assert(rv.skip(i as int).drop_first() =~= rv.skip(i + 1));
        assert(rv.skip(i as int)[0] == rv[i as int]);
        match &required[i] {
            JsonValue::Str(name) => {
                assert(rv[i as int] == JsonView::Str(name@));
                if find_member(m, name).is_none() {
                    return Some(name.clone());
                }
            },
            _ => {
                assert(!(rv[i as int] is Str));
            },
        }
        i = i + 1;
    }
    None
}

/// Checks `value` against the minimal JSON-object contract `schema`:
/// `{ "type": "object", "required": [...], "properties": { k: { "type": "string"|... } } }`.
/// A schema that is not an object accepts everything.
pub fn validate_against_schema(value: &JsonValue, schema: &JsonValue) -> (r: Result<(), String>)
    ensures
        check_view(r) == schema_check(value@, schema@),
    decreases schema,
{
    match schema {
        JsonValue::Object(s) => {
            proof {
                lemma_entries_view(s@);
            }
            let ghost sv = entries_view(s@);
            let type_key = String::from_str("type");
            let t: String = match find_member(s, &type_key) {
                Some(i) => match &s[i].1 {
                    JsonValue::Str(t) => t.clone(),
                    _ => String::from_str("object"),
                },
                None => String::from_str("object"),
            };
            assert(t@ == schema_type(sv));
            if t == String::from_str("object") {
                match value {
                    JsonValue::Object(m) => {
                        proof {
                            lemma_entries_view(m@);
                        }
                        let ghost mv = entries_view(m@);
                        let req_key = String::from_str("required");
                        let missing = match find_member(s, &req_key) {
                            Some(i) => match &s[i].1 {
                                JsonValue::Array(req) => find_missing(req, m),
                                _ => None,
                            },
                            None => None,
                        };
                        match missing {
                            Some(name) => {
                                return Err(
                                    String::from_str("missing required field `").concat(
                                        name.as_str(),
                                    ).concat("`"),
                                );
                            },
                            None => {},
                        }
                        let props_key = String::from_str("properties");
                        match find_member(s, &props_key) {
                            Some(pi) => match &s[pi].1 {
                                JsonValue::Object(props) => {
                                    proof {
                                        lemma_entries_view(props@);
                                    }
                                    let ghost pv = entries_view(props@);
                                    let mut k: usize = 0;
                                    assert(pv.subrange(0, pv.len() as int) =~= pv);
                                    assert(schema_check(value@, schema@) == properties_check(mv, pv));
                                    while k < props.len()
                                        invariant
                                            k <= props@.len(),
                                            pv == entries_view(props@),
                                            mv == entries_view(m@),
                                            pv.len() == props@.len(),
                                            mv.len() == m@.len(),
                                            forall|j: int| 0 <= j < props@.len() ==> #[trigger] pv[j] == (props@[j].0@, props@[j].1@),
                                            forall|j: int| 0 <= j < m@.len() ==> #[trigger] mv[j] == (m@[j].0@, m@[j].1@),
                                            decreases_to!(*schema => props@),
                                            schema_check(value@, schema@) == properties_check(mv, pv),
                                            properties_check(mv, pv) == properties_check(
                                                mv,
                                                pv.subrange(k as int, pv.len() as int),
                                            ),
                                        decreases props.len() - k,
                                    {
                                        let ghost rest = pv.subrange(k as int, pv.len() as int);
                                        assert(rest[0] == pv[k as int]);
                                        assert(rest.subrange(1, rest.len() as int) =~= pv.subrange(
                                            k + 1,
                                            pv.len() as int,
                                        ));
                                        match find_member(m, &props[k].0) {
                                            Some(fi) => {
                                                proof {
                                                    assert(decreases_to!(props@ => props@[k as int].1));
                                                }
                                                match validate_against_schema(&m[fi].1, &props[k].1) {
                                                    Err(e) => {
                                                        assert(properties_check(mv, rest) == Err::<(), Seq<char>>(e@));
                                                        return Err(e);
                                                    },
                                                    Ok(()) => {},
                                                }
                                            },
                                            None => {},
                                        }
                                        k = k + 1;
                                    }
                                    Ok(())
                                },
                                _ => Ok(()),
                            },
                            None => Ok(()),
                        }
                    },
                    _ => Err(String::from_str("expected object")),
                }
            } else if t == String::from_str("string") {
                match value {
                    JsonValue::Str(_) => Ok(()),
                    _ => Err(String::from_str("expected string")),
                }
            } else if t == String::from_str("number") {
                match value {
                    JsonValue::Number(_) => Ok(()),
                    _ => Err(String::from_str("expected number")),
                }
            } else if t == String::from_str("boolean") {
                match value {
                    JsonValue::Bool(_) => Ok(()),
                    _ => Err(String::from_str("expected boolean")),
                }
            } else {
                Err(String::from_str("unsupported schema type `").concat(t.as_str()).concat("`"))
            }
        },
        _ => Ok(()),
    }
}

} // verus!
