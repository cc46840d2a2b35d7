//! The handlers of the HTTP surface, as functions on decoded requests.
//!
//! A handler never touches the network. One that needs the routing layer
//! yields a [`Step`]: either the message to route, or the response that
//! settles the request without routing. Once the message was routed, the
//! matching reply function turns the routing layer's answer into the
//! response.

use vstd::prelude::*;
use crate::dispatch::{
    account_query, conclude, prepare, AccountSearch, DispatchError, Entity, EntityKind, NetError,
    Query, ValidationError,
};
use crate::flags::{lemma_listing_of_all, listing, Feature};
use crate::json::Json;
use crate::text::{decimal_u32, decimal_u64, parse_u32};

verus! {

/// The statuses that the handlers choose themselves.
#[derive(Clone, Copy, Debug, PartialEq, Eq, Structural)]
pub enum Status {
    Success,
    NoContent,
    BadRequest,
    UnprocessableEntity,
}

impl Status {
    /// The number of the status.
    pub open spec fn spec_code(self) -> u16 {
        match self {
            Status::Success => 200,
            Status::NoContent => 204,
            Status::BadRequest => 400,
            Status::UnprocessableEntity => 422,
        }
    }

    /// The number of the status.
    #[verifier::when_used_as_spec(spec_code)]
    pub fn code(self) -> (r: u16)
        ensures
            r == self.spec_code(),
    {
        match self {
            Status::Success => 200,
            Status::NoContent => 204,
            Status::BadRequest => 400,
            Status::UnprocessableEntity => 422,
        }
    }
}

/// What a handler answers.
#[derive(Clone, Debug, PartialEq, Eq)]
pub enum Response {
    /// A status without a body.
    Status(Status),
    /// The request was understood but denotes no query: unprocessable, with
    /// the error's message as the body.
    Invalid(ValidationError),
    /// Success, with the entity as the body.
    Entity(Entity),
    /// Success, with the name and bit of each feature as the body.
    Features(Vec<Feature>),
    /// The routing layer failed. The status is for the transport boundary
    /// to pick from the error's code.
    Backend(NetError),
}

impl Response {
    /// The status of the response, where the handler chose it.
    pub open spec fn spec_status(self) -> Option<Status> {
        match self {
            Response::Status(status) => Some(status),
            Response::Invalid(_) => Some(Status::UnprocessableEntity),
            Response::Entity(_) => Some(Status::Success),
            Response::Features(_) => Some(Status::Success),
            Response::Backend(_) => None,
        }
    }

    /// The status of the response; `None` where the transport boundary
    /// derives it from a backend error.
    pub fn status(&self) -> (r: Option<Status>)
        ensures
            r == self.spec_status(),
    {
        match self {
            Response::Status(status) => Some(*status),
            Response::Invalid(_) => Some(Status::UnprocessableEntity),
            Response::Entity(_) => Some(Status::Success),
            Response::Features(_) => Some(Status::Success),
            Response::Backend(_) => None,
        }
    }
}

/// What is to happen next with a request.
#[derive(Clone, Debug, PartialEq, Eq)]
pub enum Step<M> {
    /// Hand the message to the routing layer, then give its answer to the
    /// handler's reply function.
    Route(M),
    /// Answer at once; the routing layer is not contacted.
    Respond(Response),
}

/// The body of a request that grants a flag: the teams to grant it to.
#[derive(Clone, Debug, PartialEq, Eq)]
pub struct TeamIdList {
    pub teams: Vec<u64>,
}

/// The message that asks the session service to grant a flag to teams.
#[derive(Clone, Debug, PartialEq, Eq)]
pub struct GrantFlagToTeams {
    pub flag: u32,
    pub teams: Vec<u64>,
}

/// The routing layer's answer to a message that yields nothing but success.
#[derive(Clone, Copy, Debug, PartialEq, Eq, Structural)]
pub struct NetOk {}

/// Liveness probe: always `Success`.
pub fn status() -> (r: Response)
    ensures
        r == Response::Status(Status::Success),
{
    Response::Status(Status::Success)
}

/// Shows the features of an account. They are not looked up yet: the
/// answer is `Success` without a body.
pub fn account_features_show() -> (r: Response)
    ensures
        r == Response::Status(Status::Success),
{
    Response::Status(Status::Success)
}

/// Shows one feature. The teams that hold it are not listed yet: the
/// answer is `Success` without a body.
pub fn feature_show() -> (r: Response)
    ensures
        r == Response::Status(Status::Success),
{
    Response::Status(Status::Success)
}

/// Lists every feature. The transport boundary writes the listing as a map
/// from each feature's name to its bit: `ADMIN` to 1 and `BUILDER` to 2.
pub fn features_list() -> (r: Response)
    ensures
        r matches Response::Features(list) && list@ == seq![Feature::Admin, Feature::Builder]
            && listing(list@) == map!["ADMIN"@ => 1u32, "BUILDER"@ => 2u32],
{
    proof {
        lemma_listing_of_all();
    }
    let mut list: Vec<Feature> = Vec::new();
    list.push(Feature::Admin);
    list.push(Feature::Builder);
    assert(list@ =~= seq![Feature::Admin, Feature::Builder]);
    Response::Features(list)
}

/// What [`account_show`] yields for the path parameter `id`.
pub open spec fn account_show_step(id: Seq<char>) -> Step<Query> {
    match decimal_u64(id) {
        Some(n) => Step::Route(Query::Account(AccountSearch { id: n })),
        None => Step::Respond(Response::Status(Status::BadRequest)),
    }
}

/// Fetches an account by the identifier in the request path.
///
/// An identifier that is no unsigned integer is a bad request; any other
/// yields the query for that account.
pub fn account_show(id: &str) -> (r: Step<Query>)
    ensures
        r == account_show_step(id@),
{
    match AccountSearch::from_search_pair("id", id) {
        Ok(search) => Step::Route(Query::Account(search)),
        Err(_) => Step::Respond(Response::Status(Status::BadRequest)),
    }
}

/// What [`feature_update`] yields for the path parameter `id` and the
/// decoded body.
pub open spec fn feature_update_step(id: Seq<char>, body: Option<TeamIdList>) -> Step<
    GrantFlagToTeams,
> {
    match decimal_u32(id) {
        None => Step::Respond(Response::Status(Status::BadRequest)),
        Some(flag) => match body {
            None => Step::Respond(Response::Status(Status::UnprocessableEntity)),
            Some(list) => Step::Route(GrantFlagToTeams { flag, teams: list.teams }),
        },
    }
}

/// Grants the flag in the request path to the teams in the body.
///
/// A flag that is no unsigned 32-bit integer is a bad request, whatever the
/// body holds. A body that is missing, or that did not decode into a list
/// of teams, is unprocessable. Otherwise the grant is to be routed.
pub fn feature_update(id: &str, body: Option<TeamIdList>) -> (r: Step<GrantFlagToTeams>)
    ensures
        r == feature_update_step(id@, body),
{
    let flag = match parse_u32(id) {
        Some(flag) => flag,
        None => {
            return Step::Respond(Response::Status(Status::BadRequest));
        },
    };
    match body {
        Some(list) => Step::Route(GrantFlagToTeams { flag, teams: list.teams }),
        None => Step::Respond(Response::Status(Status::UnprocessableEntity)),
    }
}

/// The response to a grant, from the routing layer's answer: no content on
/// success, the backend's error otherwise.
pub fn feature_update_reply(outcome: Result<NetOk, NetError>) -> (r: Response)
    ensures
        r == match outcome {
            Ok(_) => Response::Status(Status::NoContent),
            Err(e) => Response::Backend(e),
        },
{
    match outcome {
        Ok(_) => Response::Status(Status::NoContent),
        Err(e) => Response::Backend(e),
    }
}

/// What a search of kind `kind` yields for an (attribute, value) pair.
pub open spec fn kind_step(kind: EntityKind, attr: Seq<char>, value: Seq<char>) -> Step<Query> {
    match kind.query(attr, value) {
        Ok(query) => Step::Route(query),
        Err(e) => Step::Respond(Response::Invalid(e)),
    }
}

/// What [`search`] yields for a decoded body.
pub open spec fn search_step(body: Option<Json>) -> Step<Query> {
    match body {
        None => Step::Respond(Response::Status(Status::BadRequest)),
        Some(doc) => match (
            doc.text_member("attr"@),
            doc.text_member("value"@),
            doc.text_member("entity"@),
        ) {
            (Some(attr), Some(value), Some(entity)) => match EntityKind::named(entity) {
                Some(kind) => kind_step(kind, attr, value),
                None => Step::Respond(Response::Status(Status::UnprocessableEntity)),
            },
            _ => Step::Respond(Response::Status(Status::UnprocessableEntity)),
        },
    }
}

/// Generic search, over a body of the form `{attr, value, entity}`.
///
/// Without a decoded body the request is bad. The request is unprocessable
/// where one of the three members is missing or is no string, and where no
/// entity kind is registered under `entity`; none of these contacts the
/// routing layer. Otherwise the kind decides: the pair translates into the
/// query to route, or the request is unprocessable for the reason that the
/// translation gives.
pub fn search(body: Option<Json>) -> (r: Step<Query>)
    ensures
        r == search_step(body),
{
    let doc = match &body {
        Some(doc) => doc,
        None => {
            return Step::Respond(Response::Status(Status::BadRequest));
        },
    };
    let attr = match doc.find_text("attr") {
        Some(attr) => attr,
        None => {
            return Step::Respond(Response::Status(Status::UnprocessableEntity));
        },
    };
    let value = match doc.find_text("value") {
        Some(value) => value,
        None => {
            return Step::Respond(Response::Status(Status::UnprocessableEntity));
        },
    };
    let entity = match doc.find_text("entity") {
        Some(entity) => entity,
        None => {
            return Step::Respond(Response::Status(Status::UnprocessableEntity));
        },
    };
    match prepare(entity.as_str(), attr.as_str(), value.as_str()) {
        Ok(query) => Step::Route(query),
        Err(e) => Step::Respond(refusal(e)),
    }
}

/// The response for a search that yields no entity: unprocessable for a
/// request that was not routed, bare where the entity kind is unknown and
/// with the reason where the query is invalid; the backend's error for one
/// that was routed and failed.
pub fn refusal(error: DispatchError) -> (r: Response)
    ensures
        r == match error {
            DispatchError::UnknownEntity => Response::Status(Status::UnprocessableEntity),
            DispatchError::InvalidQuery(e) => Response::Invalid(e),
            DispatchError::Backend(e) => Response::Backend(e),
        },
{
    match error {
        DispatchError::UnknownEntity => Response::Status(Status::UnprocessableEntity),
        DispatchError::InvalidQuery(e) => Response::Invalid(e),
        DispatchError::Backend(e) => Response::Backend(e),
    }
}

/// Search for an account by an (attribute, value) pair: the query to route,
/// or the reason why the pair denotes none.
pub fn search_account(key: String, value: String) -> (r: Step<Query>)
    ensures
        r == kind_step(EntityKind::Account, key@, value@),
        r == match account_query(key@, value@) {
            Ok(search) => Step::Route(Query::Account(search)),
            Err(e) => Step::Respond(Response::Invalid(e)),
        },
{
    match AccountSearch::from_search_pair(key.as_str(), value.as_str()) {
        Ok(search) => Step::Route(Query::Account(search)),
        Err(e) => Step::Respond(Response::Invalid(e)),
    }
}

/// The response to a routed query, from the routing layer's answer: the
/// entity as it came, or the backend's error.
pub fn search_reply(outcome: Result<Entity, NetError>) -> (r: Response)
    ensures
        r == match outcome {
            Ok(entity) => Response::Entity(entity),
            Err(e) => Response::Backend(e),
        },
{
    match conclude(outcome) {
        Ok(entity) => Response::Entity(entity),
        Err(e) => refusal(e),
    }
}

} // verus!
