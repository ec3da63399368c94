//! The members of JSON objects.

use serde_json::Value;
use vstd::prelude::*;

verus! {

/// A member of a JSON object, as far as it is a non-negative integer or a text.
#[derive(Debug)]
pub enum JsonField {
    Number(u64),
    Text(String),
    Other,
}

/// A member as a mathematical value.
pub enum JsonFieldView {
    Number(u64),
    Text(Seq<char>),
    Other,
}

impl View for JsonField {
    type V = JsonFieldView;

    open spec fn view(&self) -> JsonFieldView {
        match self {
            JsonField::Number(number) => JsonFieldView::Number(*number),
            JsonField::Text(text) => JsonFieldView::Text(text@),
            JsonField::Other => JsonFieldView::Other,
        }
    }
}

/// Members with their names as mathematical values.
pub open spec fn members_view(members: Seq<(String, JsonField)>) -> Seq<
    (Seq<char>, JsonFieldView),
> {
    members.map_values(|member: (String, JsonField)| (member.0@, member.1@))
}

/// What `serde_json::from_str` makes of a text: the members of the object it
/// holds, none where it holds another value, or what is wrong with it.
pub uninterp spec fn json_members(text: Seq<char>) -> std::result::Result<
    Seq<(Seq<char>, JsonFieldView)>,
    Seq<char>,
>;

/// Parses `text` with `serde_json::from_str` and lists the members of the object
/// in the order of `serde_json::Map`: a number by `serde_json::Number::as_u64`, a
/// string by its text. The outcome depends on `text` alone; nothing more is
/// claimed of it.
#[verifier::external_body]
pub(crate) fn parse_object(text: &str) -> (members: std::result::Result<
    Vec<(String, JsonField)>,
    String,
>)
    ensures
        match members {
            Ok(members) => json_members(text@) == Ok::<Seq<(Seq<char>, JsonFieldView)>, Seq<char>>(
                members_view(members@),
            ),
            Err(message) => json_members(text@) == Err::<
                Seq<(Seq<char>, JsonFieldView)>,
                Seq<char>,
            >(message@),
        },
{
    match serde_json::from_str::<Value>(text) {
        Ok(Value::Object(members)) => {
            let fields = members.into_iter().map(|(name, value)| match value {
                Value::Number(number) => {
                    (name, number.as_u64().map_or(JsonField::Other, JsonField::Number))
                },
                Value::String(text) => (name, JsonField::Text(text)),
                _ => (name, JsonField::Other),
            });
            Ok(fields.collect())
        },
        Ok(_) => Ok(Vec::new()),
        Err(error) => Err(error.to_string()),
    }
}

/// The first member called `name`.
pub open spec fn member_of(
    members: Seq<(Seq<char>, JsonFieldView)>,
    name: Seq<char>,
) -> Option<JsonFieldView>
    decreases members.len(),
{
    if members.len() == 0 {
        None
    } else if members[0].0 == name {
        Some(members[0].1)
    } else {
        member_of(members.skip(1), name)
    }
}

/// The first member called `name`.
pub fn get<'a>(members: &'a Vec<(String, JsonField)>, name: &str) -> (field: Option<&'a JsonField>)
    ensures
        match field {
            Some(field) => member_of(members_view(members@), name@) == Some(field@),
            None => member_of(members_view(members@), name@) is None,
        },
{
    let ghost view = members_view(members@);
    let mut i: usize = 0;
    assert(view.skip(0) == view);
    while i < members.len()
        invariant
            i <= members@.len(),
            view == members_view(members@),
            member_of(view, name@) == member_of(view.skip(i as int), name@),
        decreases members@.len() - i,
    {
        assert(view.skip(i as int)[0] == view[i as int]);
        assert(view.skip(i as int).skip(1) == view.skip(i + 1));
        if crate::text::same_text(members[i].0.as_str(), name) {
            return Some(&members[i].1);
        }
        i += 1;
    }
    None
}

}
