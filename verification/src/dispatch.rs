//! Search dispatch: the registered entity kinds, the typed queries they
//! translate to, and the mapping of what the routing layer answers.
//!
//! A search runs in two steps around the routing layer. [`prepare`] checks
//! the request and yields the query to route, or the reason why nothing is
//! routed. [`conclude`] takes what the routing layer answered and yields the
//! outcome for the caller.

use vstd::prelude::*;
use crate::text::{decimal_u64, parse_u64, same_text};

verus! {

/// Why an (attribute, value) pair is not a query for an entity kind.
#[derive(Clone, Copy, Debug, PartialEq, Eq, Structural)]
pub enum ValidationError {
    /// The entity kind has no attribute of that name.
    UnknownAttribute,
    /// The value is not written as the attribute requires.
    MalformedValue,
}

impl ValidationError {
    /// The text of [`ValidationError::message`].
    pub open spec fn spec_message(self) -> Seq<char> {
        match self {
            ValidationError::UnknownAttribute => "unrecognized search attribute"@,
            ValidationError::MalformedValue => "search value is not a valid identifier"@,
        }
    }

    /// A sentence for the caller that names the fault.
    pub fn message(&self) -> (r: String)
        ensures
            r@ == self.spec_message(),
    {
        match self {
            ValidationError::UnknownAttribute => "unrecognized search attribute".to_owned(),
            ValidationError::MalformedValue => "search value is not a valid identifier".to_owned(),
        }
    }
}

/// A query for one account, by its identifier.
#[derive(Clone, Copy, Debug, PartialEq, Eq, Structural)]
pub struct AccountSearch {
    pub id: u64,
}

/// The query that an (attribute, value) pair denotes for accounts: the
/// attribute must be `id`, and the value an unsigned decimal numeral that
/// fits the identifier.
pub open spec fn account_query(attr: Seq<char>, value: Seq<char>) -> Result<
    AccountSearch,
    ValidationError,
> {
    if attr != "id"@ {
        Err(ValidationError::UnknownAttribute)
    } else {
        match decimal_u64(value) {
            Some(id) => Ok(AccountSearch { id }),
            None => Err(ValidationError::MalformedValue),
        }
    }
}

impl AccountSearch {
    /// Builds the account query for an (attribute, value) pair.
    pub fn from_search_pair(key: &str, value: &str) -> (r: Result<AccountSearch, ValidationError>)
        ensures
            r == account_query(key@, value@),
    {
        if !same_text(key, "id") {
            return Err(ValidationError::UnknownAttribute);
        }
        match parse_u64(value) {
            Some(id) => Ok(AccountSearch { id }),
            None => Err(ValidationError::MalformedValue),
        }
    }
}

/// A typed query, ready for the routing layer.
#[derive(Clone, Copy, Debug, PartialEq, Eq, Structural)]
pub enum Query {
    Account(AccountSearch),
}

/// The kinds of entity that can be searched for.
///
/// This is the registry: a kind is registered by adding a variant, with its
/// name and its translation in the methods below.
#[derive(Clone, Copy, Debug, PartialEq, Eq, Structural)]
pub enum EntityKind {
    Account,
}

impl EntityKind {
    /// The name under which the kind is registered.
    pub open spec fn spec_name(self) -> Seq<char> {
        match self {
            EntityKind::Account => "account"@,
        }
    }

    /// The kind registered under `name`, if any.
    pub open spec fn named(name: Seq<char>) -> Option<EntityKind> {
        if name == EntityKind::Account.spec_name() {
            Some(EntityKind::Account)
        } else {
            None
        }
    }

    /// The query that the pair denotes for this kind.
    pub open spec fn query(self, attr: Seq<char>, value: Seq<char>) -> Result<
        Query,
        ValidationError,
    > {
        match self {
            EntityKind::Account => match account_query(attr, value) {
                Ok(search) => Ok(Query::Account(search)),
                Err(e) => Err(e),
            },
        }
    }

    /// The name under which the kind is registered.
    pub fn name(self) -> (r: &'static str)
        ensures
            r@ == self.spec_name(),
    {
        match self {
            EntityKind::Account => "account",
        }
    }

    /// Looks a kind up by its name.
    pub fn lookup(name: &str) -> (r: Option<EntityKind>)
        ensures
            r == EntityKind::named(name@),
    {
        if same_text(name, EntityKind::Account.name()) {
            Some(EntityKind::Account)
        } else {
            None
        }
    }

    /// Validates an (attribute, value) pair for this kind and translates it
    /// into the typed query.
    pub fn translate(self, attr: &str, value: &str) -> (r: Result<Query, ValidationError>)
        ensures
            r == self.query(attr@, value@),
    {
        match self {
            EntityKind::Account => match AccountSearch::from_search_pair(attr, value) {
                Ok(search) => Ok(Query::Account(search)),
                Err(e) => Err(e),
            },
        }
    }
}

/// An account, as the session service describes it.
#[derive(Clone, Debug, PartialEq, Eq)]
pub struct Account {
    pub id: u64,
    pub email: String,
    pub name: String,
}

/// What a search finds.
#[derive(Clone, Debug, PartialEq, Eq)]
pub enum Entity {
    Account(Account),
}

/// A failure that the routing layer or a service behind it reports.
#[derive(Clone, Debug, PartialEq, Eq)]
pub struct NetError {
    /// The service's own error code.
    pub code: u32,
    pub msg: String,
}

/// Why a search yields no entity.
#[derive(Clone, Debug, PartialEq, Eq)]
pub enum DispatchError {
    /// No entity kind is registered under the name given.
    UnknownEntity,
    /// The kind's translation refused the (attribute, value) pair.
    InvalidQuery(ValidationError),
    /// The routing layer, or the service behind it, failed.
    Backend(NetError),
}

/// What [`prepare`] yields for a request.
pub open spec fn prepared(entity: Seq<char>, attr: Seq<char>, value: Seq<char>) -> Result<
    Query,
    DispatchError,
> {
    match EntityKind::named(entity) {
        None => Err(DispatchError::UnknownEntity),
        Some(kind) => match kind.query(attr, value) {
            Ok(query) => Ok(query),
            Err(e) => Err(DispatchError::InvalidQuery(e)),
        },
    }
}

/// First step of a search: checks the request against the registry.
///
/// The result is the query to hand to the routing layer. On an error
/// nothing is to be routed: an entity kind that is not registered is
/// `UnknownEntity` whatever the attribute and value are, and a pair that
/// the kind refuses is `InvalidQuery`.
pub fn prepare(entity: &str, attr: &str, value: &str) -> (r: Result<Query, DispatchError>)
    ensures
        r == prepared(entity@, attr@, value@),
        EntityKind::named(entity@) is None ==> r == Err::<Query, DispatchError>(
            DispatchError::UnknownEntity,
        ),
{
    match EntityKind::lookup(entity) {
        None => Err(DispatchError::UnknownEntity),
        Some(kind) => match kind.translate(attr, value) {
            Ok(query) => Ok(query),
            Err(e) => Err(DispatchError::InvalidQuery(e)),
        },
    }
}

/// Second step of a search: maps what the routing layer answered. An entity
/// is passed on as it came; a failure becomes `Backend`, with the code and
/// message that were reported.
pub fn conclude(reply: Result<Entity, NetError>) -> (r: Result<Entity, DispatchError>)
    ensures
        r == match reply {
            Ok(entity) => Ok::<Entity, DispatchError>(entity),
            Err(e) => Err(DispatchError::Backend(e)),
        },
{
    match reply {
        Ok(entity) => Ok(entity),
        Err(e) => Err(DispatchError::Backend(e)),
    }
}

} // verus!
