//! Project settings read from a project's JSON file: the file version and the
//! intersheet-reference display settings of the drawing section.

use vstd::prelude::*;

verus! {

/// A JSON value as the settings lookups read it. A number is kept as an integer where it
/// is one that fits an `i64`; any other number is only known to be a number. An object
/// is its members in order, each key once.
#[derive(Debug)]
pub enum JsonValue {
    Null,
    Bool(bool),
    Integer(i64),
    OtherNumber,
    Text(String),
    Array(Vec<JsonValue>),
    Object(Vec<JsonMember>),
}

/// A member of a JSON object: its key and value.
#[derive(Debug)]
pub struct JsonMember {
    pub key: String,
    pub value: JsonValue,
}

/// A project settings file: where it was read from and its content.
#[derive(Debug)]
pub struct LoadedProjectSettings {
    pub path: String,
    pub json: JsonValue,
}

/// Position of the first member with the key, from `i` on, or the number of members.
pub open spec fn member_from(m: Seq<JsonMember>, key: Seq<char>, i: int) -> int
    decreases m.len() - i,
{
    if 0 <= i < m.len() && m[i].key@ != key {
        member_from(m, key, i + 1)
    } else {
        i
    }
}

/// The member of an object with the key; nothing for a value that is no object.
pub open spec fn member(v: JsonValue, key: Seq<char>) -> Option<JsonValue> {
    match v {
        JsonValue::Object(m) => {
            let k = member_from(m@, key, 0);
            if 0 <= k < m@.len() {
                Some(m@[k].value)
            } else {
                None
            }
        },
        _ => None,
    }
}

/// The member with the key of the object in the section of the settings.
pub open spec fn setting(json: JsonValue, section: Seq<char>, key: Seq<char>) -> Option<JsonValue> {
    match member(json, section) {
        Some(s) => member(s, key),
        None => None,
    }
}

/// A value that is a boolean.
pub open spec fn bool_of(v: Option<JsonValue>) -> Option<bool> {
    match v {
        Some(JsonValue::Bool(b)) => Some(b),
        _ => None,
    }
}

/// A value that is a text.
pub open spec fn text_of(v: Option<JsonValue>) -> Option<Seq<char>> {
    match v {
        Some(JsonValue::Text(t)) => Some(t@),
        _ => None,
    }
}

/// A value that is an integer that fits an `i32`.
pub open spec fn i32_of(v: Option<JsonValue>) -> Option<i32> {
    match v {
        Some(JsonValue::Integer(i)) => if i32::MIN <= i <= i32::MAX {
            Some(i as i32)
        } else {
            None
        },
        _ => None,
    }
}

/// The member of an object with the key, where the value is an object that has one.
pub fn json_member<'a>(v: &'a JsonValue, key: &str) -> (r: Option<&'a JsonValue>)
    ensures
        match member(*v, key@) {
            Some(m) => r matches Some(x) && *x == m,
            None => r is None,
        },
{
    match v {
        JsonValue::Object(m) => {
            let mut i: usize = 0;
            while i < m.len()
                invariant
                    0 <= i <= m.len(),
                    *v == JsonValue::Object(*m),
                    member_from(m@, key@, 0) == member_from(m@, key@, i as int),
                decreases m.len() - i,
            {
                if crate::text::str_eq(m[i].key.as_str(), key) {
                    assert(member_from(m@, key@, i as int) == i);
                    return Some(&m[i].value);
                }
                i = i + 1;
            }
            None
        },
        _ => None,
    }
}

/// The member with the key of the object in the section.
fn setting_of<'a>(json: &'a JsonValue, section: &str, key: &str) -> (r: Option<&'a JsonValue>)
    ensures
        match setting(*json, section@, key@) {
            Some(m) => r matches Some(x) && *x == m,
            None => r is None,
        },
{
    match json_member(json, section) {
        Some(s) => json_member(s, key),
        None => None,
    }
}

fn bool_value(v: Option<&JsonValue>) -> (r: Option<bool>)
    ensures
        r == bool_of(
            match v {
                Some(x) => Some(*x),
                None => None,
            },
        ),
{
    match v {
        Some(JsonValue::Bool(b)) => Some(*b),
        _ => None,
    }
}

fn text_value(v: Option<&JsonValue>) -> (r: Option<String>)
    ensures
        match text_of(
            match v {
                Some(x) => Some(*x),
                None => None,
            },
        ) {
            Some(t) => r matches Some(s) && s@ == t,
            None => r is None,
        },
{
    match v {
        Some(JsonValue::Text(t)) => Some(t.clone()),
        _ => None,
    }
}

impl LoadedProjectSettings {
    /// The file version: `meta.version`, where it is an integer that fits an `i32`.
    pub fn meta_version(&self) -> (r: Option<i32>)
        ensures
            r == i32_of(setting(self.json, "meta"@, "version"@)),
    {
        match setting_of(&self.json, "meta", "version") {
            Some(JsonValue::Integer(i)) => {
                if i32::MIN as i64 <= *i && *i <= i32::MAX as i64 {
                    Some(*i as i32)
                } else {
                    None
                }
            },
            _ => None,
        }
    }

    /// Whether intersheet references are shown: `drawing.intersheets_ref_show`, where it
    /// is a boolean.
    pub fn intersheet_refs_show(&self) -> (r: Option<bool>)
        ensures
            r == bool_of(setting(self.json, "drawing"@, "intersheets_ref_show"@)),
    {
        bool_value(setting_of(&self.json, "drawing", "intersheets_ref_show"))
    }

    /// Whether intersheet references list the own page:
    /// `drawing.intersheets_ref_own_page`, where it is a boolean.
    pub fn intersheet_refs_own_page(&self) -> (r: Option<bool>)
        ensures
            r == bool_of(setting(self.json, "drawing"@, "intersheets_ref_own_page"@)),
    {
        bool_value(setting_of(&self.json, "drawing", "intersheets_ref_own_page"))
    }

    /// Whether intersheet references use the short form: `drawing.intersheets_ref_short`,
    /// where it is a boolean.
    pub fn intersheet_refs_short(&self) -> (r: Option<bool>)
        ensures
            r == bool_of(setting(self.json, "drawing"@, "intersheets_ref_short"@)),
    {
        bool_value(setting_of(&self.json, "drawing", "intersheets_ref_short"))
    }

    /// The text before intersheet references: `drawing.intersheets_ref_prefix`, where it
    /// is a text.
    pub fn intersheet_refs_prefix(&self) -> (r: Option<String>)
        ensures
            match text_of(setting(self.json, "drawing"@, "intersheets_ref_prefix"@)) {
                Some(t) => r matches Some(s) && s@ == t,
                None => r is None,
            },
    {
        text_value(setting_of(&self.json, "drawing", "intersheets_ref_prefix"))
    }

    /// The text after intersheet references: `drawing.intersheets_ref_suffix`, where it
    /// is a text.
    pub fn intersheet_refs_suffix(&self) -> (r: Option<String>)
        ensures
            match text_of(setting(self.json, "drawing"@, "intersheets_ref_suffix"@)) {
                Some(t) => r matches Some(s) && s@ == t,
                None => r is None,
            },
    {
        text_value(setting_of(&self.json, "drawing", "intersheets_ref_suffix"))
    }
}

} // verus!
