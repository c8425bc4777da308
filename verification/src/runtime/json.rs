//! What JSON texts hold. Reading them is left to `serde_json`.
use serde_json::value::RawValue;
use serde_json::Value;
use std::collections::BTreeMap;
use vstd::prelude::*;
use crate::contents;

verus! {

/// The string that a JSON text stands for, where it stands for one.
pub uninterp spec fn json_string(text: Seq<char>) -> Option<Seq<char>>;

/// `serde_json::from_str` for a string: the string that the text stands for, where it stands for
/// one. The rules of JSON strings are not restated.
#[verifier::external_body]
pub(crate) fn parse_json_string(text: &str) -> (r: Option<String>)
    ensures
        contents::view_option(r) == json_string(text@),
{
    serde_json::from_str::<String>(text).ok()
}

/// The strings that a JSON text stands for, where it stands for a list of strings.
pub uninterp spec fn json_strings(text: Seq<char>) -> Option<Seq<Seq<char>>>;

/// `serde_json::from_str` for a list of strings: the strings that the text stands for, where it
/// stands for a list of nothing but strings.
#[verifier::external_body]
pub(crate) fn parse_json_strings(text: &str) -> (r: Option<Vec<String>>)
    ensures
        contents::view_list(r) == json_strings(text@),
{
    serde_json::from_str::<Vec<String>>(text).ok()
}

/// The names of an object's fields, and the JSON text of each, where the text stands for an
/// object.
pub uninterp spec fn json_fields(text: Seq<char>) -> Option<Seq<(Seq<char>, Seq<char>)>>;

/// The contents of fields.
pub open spec fn field_views(fields: Seq<(String, String)>) -> Seq<(Seq<char>, Seq<char>)> {
    fields.map_values(|field: (String, String)| (field.0@, field.1@))
}

/// The contents of optional fields.
pub open spec fn view_fields(fields: Option<Vec<(String, String)>>) -> Option<
    Seq<(Seq<char>, Seq<char>)>,
> {
    match fields {
        Some(fields) => Some(field_views(fields@)),
        None => None,
    }
}

/// `serde_json::from_str` for a map of raw values: the names of an object's fields in order, and
/// the JSON text of each, where the text stands for an object. Of a field that is given twice the
/// last text counts.
#[verifier::external_body]
pub(crate) fn parse_json_fields(text: &str) -> (r: Option<Vec<(String, String)>>)
    ensures
        view_fields(r) == json_fields(text@),
{
    match serde_json::from_str::<BTreeMap<String, Box<RawValue>>>(text) {
        Ok(fields) => Some(
            fields.into_iter().map(|(name, value)| (name, value.get().to_string())).collect(),
        ),
        Err(_) => None,
    }
}

/// The JSON text of each item, where a JSON text stands for a list.
pub uninterp spec fn json_items(text: Seq<char>) -> Option<Seq<Seq<char>>>;

/// `serde_json::from_str` for a list of raw values: the JSON text of each item in order, where the
/// text stands for a list.
#[verifier::external_body]
pub(crate) fn parse_json_items(text: &str) -> (r: Option<Vec<String>>)
    ensures
        contents::view_list(r) == json_items(text@),
{
    match serde_json::from_str::<Vec<Box<RawValue>>>(text) {
        Ok(items) => Some(items.into_iter().map(|item| item.get().to_string()).collect()),
        Err(_) => None,
    }
}

/// A member of an object: its name, its text if it is a string, and its items if it is a list.
/// Of each item the text is given if it is a string.
pub type JsonMember = (String, Option<String>, Option<Vec<Option<String>>>);

/// Contents of a [`JsonMember`].
pub type MemberView = (Seq<char>, Option<Seq<char>>, Option<Seq<Option<Seq<char>>>>);

/// The contents of the items of a list.
pub open spec fn item_views(items: Seq<Option<String>>) -> Seq<Option<Seq<char>>> {
    items.map_values(|item: Option<String>| contents::view_option(item))
}

/// The contents of a member.
pub open spec fn member_view(member: JsonMember) -> MemberView {
    (
        member.0@,
        contents::view_option(member.1),
        match member.2 {
            Some(items) => Some(item_views(items@)),
            None => None,
        },
    )
}

/// The contents of members.
pub open spec fn member_views(members: Seq<JsonMember>) -> Seq<MemberView> {
    members.map_values(|member: JsonMember| member_view(member))
}

/// The contents of what a JSON text stands for: the members of an object, something else, or the
/// reason why it stands for nothing.
pub open spec fn view_members(value: Result<Option<Vec<JsonMember>>, String>) -> Result<
    Option<Seq<MemberView>>,
    Seq<char>,
> {
    match value {
        Ok(Some(members)) => Ok(Some(member_views(members@))),
        Ok(None) => Ok(None),
        Err(reason) => Err(reason@),
    }
}

/// The members of the object that a JSON text stands for, if it is one, or the reason why the text
/// is no JSON.
pub uninterp spec fn json_members(text: Seq<char>) -> Result<
    Option<Seq<(Seq<char>, Option<Seq<char>>, Option<Seq<Option<Seq<char>>>>)>>,
    Seq<char>,
>;

/// `serde_json::from_str` for any value: the members of the object that the text stands for, if it
/// is one, or what `serde_json` says of a text that is no JSON.
#[verifier::external_body]
pub(crate) fn parse_json_members(text: &str) -> (r: Result<Option<Vec<JsonMember>>, String>)
    ensures
        view_members(r) == json_members(text@),
{
    let item_text = |item: Value| if let Value::String(text) = item { Some(text) } else { None };
    match serde_json::from_str::<Value>(text) {
        Ok(Value::Object(members)) => Ok(Some(members.into_iter().map(|(name, value)| match value {
            Value::String(text) => (name, Some(text), None),
            Value::Array(items) => (name, None, Some(items.into_iter().map(item_text).collect())),
            _ => (name, None, None),
        }).collect())),
        Ok(_) => Ok(None),
        Err(error) => Err(error.to_string()),
    }
}

/// The first member from a position on that has the name.
pub open spec fn find_member(members: Seq<MemberView>, name: Seq<char>, i: int) -> Option<
    MemberView,
>
    decreases members.len() - i,
{
    if i >= members.len() {
        None
    } else if members[i].0 == name {
        Some(members[i])
    } else {
        find_member(members, name, i + 1)
    }
}

/// The first member that has the name.
pub fn member_named<'a>(members: &'a Vec<JsonMember>, name: &str) -> (r: Option<&'a JsonMember>)
    ensures
        match r {
            Some(member) => find_member(member_views(members@), name@, 0) == Some(
                member_view(*member),
            ),
            None => find_member(member_views(members@), name@, 0) is None,
        },
{
    let mut i: usize = 0;
    while i < members.len()
        invariant
            i <= members@.len(),
            find_member(member_views(members@), name@, 0) == find_member(
                member_views(members@),
                name@,
                i as int,
            ),
        decreases members@.len() - i,
    {
        assert(member_views(members@)[i as int] == member_view(members@[i as int]));
        if crate::text::same(&members[i].0, name) {
            return Some(&members[i]);
        }
        i = i + 1;
    }
    None
}

/// The first text from a position on that is given under the name.
pub open spec fn find_field(fields: Seq<(Seq<char>, Seq<char>)>, name: Seq<char>, i: int) -> Option<
    Seq<char>,
>
    decreases fields.len() - i,
{
    if i >= fields.len() {
        None
    } else if fields[i].0 == name {
        Some(fields[i].1)
    } else {
        find_field(fields, name, i + 1)
    }
}

/// The first text that is given under the name.
pub fn field_named(fields: &Vec<(String, String)>, name: &str) -> (r: Option<String>)
    ensures
        contents::view_option(r) == find_field(field_views(fields@), name@, 0),
{
    let mut i: usize = 0;
    while i < fields.len()
        invariant
            i <= fields@.len(),
            find_field(field_views(fields@), name@, 0) == find_field(
                field_views(fields@),
                name@,
                i as int,
            ),
        decreases fields@.len() - i,
    {
        assert(field_views(fields@)[i as int] == (fields@[i as int].0@, fields@[i as int].1@));
        if crate::text::same(&fields[i].0, name) {
            return Some(fields[i].1.clone());
        }
        i = i + 1;
    }
    None
}

} // verus!
