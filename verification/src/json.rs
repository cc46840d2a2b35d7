//! A decoded JSON document, as a request body delivers it.

use vstd::prelude::*;
use crate::text::same_text;

verus! {

/// A JSON value. A number is held as the text of its literal.
#[derive(Debug, PartialEq, Eq)]
pub enum Json {
    Null,
    Bool(bool),
    Number(String),
    Text(String),
    Array(Vec<Json>),
    Object(Vec<Member>),
}

/// One member of a JSON object.
#[derive(Debug, PartialEq, Eq)]
pub struct Member {
    pub name: String,
    pub value: Json,
}

/// The value of the first of `members` that is called `key`.
pub open spec fn first_named(members: Seq<Member>, key: Seq<char>) -> Option<Json>
    decreases members.len(),
{
    if members.len() == 0 {
        None
    } else if members[0].name@ == key {
        Some(members[0].value)
    } else {
        first_named(members.drop_first(), key)
    }
}

impl Json {
    /// The member called `key`, where this is an object that has one. Of
    /// several members of that name the first counts.
    pub open spec fn member(self, key: Seq<char>) -> Option<Json> {
        match self {
            Json::Object(members) => first_named(members@, key),
            _ => None,
        }
    }

    /// The text of the member called `key`, where this is an object in
    /// which that member is a string.
    pub open spec fn text_member(self, key: Seq<char>) -> Option<Seq<char>> {
        match self.member(key) {
            Some(Json::Text(s)) => Some(s@),
            _ => None,
        }
    }

    /// Looks up a member of an object by its name. The result is `None`
    /// where this is no object, or an object without such a member.
    pub fn find(&self, key: &str) -> (r: Option<&Json>)
        ensures
            match r {
                Some(value) => self.member(key@) == Some(*value),
                None => self.member(key@) is None,
            },
    {
        match self {
            Json::Object(members) => {
                let mut i: usize = 0;
                assert(members@.skip(0) =~= members@);
                while i < members.len()
                    invariant
                        i <= members.len(),
                        self.member(key@) == first_named(members@, key@),
                        first_named(members@, key@) == first_named(
                            members@.skip(i as int),
                            key@,
                        ),
                    decreases members.len() - i,
                {
                    let ghost rest = members@.skip(i as int);
                    assert(rest[0] == members@[i as int]);
                    assert(rest.drop_first() =~= members@.skip(i + 1));
                    if same_text(members[i].name.as_str(), key) {
                        return Some(&members[i].value);
                    }
                    i += 1;
                }
                None
            },
            _ => None,
        }
    }

    /// Looks up a member of an object that must be a string, and hands out
    /// its text.
    pub fn find_text(&self, key: &str) -> (r: Option<&String>)
        ensures
            match r {
                Some(text) => self.text_member(key@) == Some(text@),
                None => self.text_member(key@) is None,
            },
    {
        match self.find(key) {
            Some(Json::Text(s)) => Some(s),
            _ => None,
        }
    }
}

} // verus!
