use builder_admin::dispatch::{
    Account, AccountSearch, DispatchError, Entity, NetError, Query, ValidationError,
};
use builder_admin::flags::Feature;
use builder_admin::handlers::{
    account_features_show, account_show, feature_show, feature_update, feature_update_reply,
    features_list, refusal, search, search_account, search_reply, status, GrantFlagToTeams,
    NetOk, Response, Status, Step, TeamIdList,
};
use builder_admin::json::{Json, Member};

fn body(attr: Json, value: Json, entity: Json) -> Json {
    Json::Object(vec![
        Member { name: "attr".to_string(), value: attr },
        Member { name: "value".to_string(), value },
        Member { name: "entity".to_string(), value: entity },
    ])
}

fn text(s: &str) -> Json {
    Json::Text(s.to_string())
}

fn bare(status: Status) -> Step<Query> {
    Step::Respond(Response::Status(status))
}

#[test]
fn status_codes() {
    assert_eq!(Status::Success.code(), 200);
    assert_eq!(Status::NoContent.code(), 204);
    assert_eq!(Status::BadRequest.code(), 400);
    assert_eq!(Status::UnprocessableEntity.code(), 422);
}

#[test]
fn status_is_always_success() {
    assert_eq!(status(), Response::Status(Status::Success));
    assert_eq!(status().status(), Some(Status::Success));
}

#[test]
fn stub_handlers_answer_success() {
    assert_eq!(account_features_show(), Response::Status(Status::Success));
    assert_eq!(feature_show(), Response::Status(Status::Success));
}

#[test]
fn features_list_names_admin_and_builder() {
    match features_list() {
        Response::Features(list) => {
            assert_eq!(list, vec![Feature::Admin, Feature::Builder]);
            let named: Vec<(&str, u32)> = list.iter().map(|f| (f.name(), f.bit())).collect();
            assert_eq!(named, vec![("ADMIN", 1), ("BUILDER", 2)]);
        }
        other => panic!("unexpected response {:?}", other),
    }
    assert_eq!(features_list().status(), Some(Status::Success));
}

#[test]
fn account_show_routes_a_valid_identifier() {
    assert_eq!(account_show("42"), Step::Route(Query::Account(AccountSearch { id: 42 })));
    assert_eq!(account_show("0"), Step::Route(Query::Account(AccountSearch { id: 0 })));
    assert_eq!(
        account_show("18446744073709551615"),
        Step::Route(Query::Account(AccountSearch { id: u64::MAX }))
    );
}

#[test]
fn account_show_refuses_an_invalid_identifier() {
    assert_eq!(account_show("forty-two"), bare(Status::BadRequest));
    assert_eq!(account_show(""), bare(Status::BadRequest));
    assert_eq!(account_show("-1"), bare(Status::BadRequest));
    assert_eq!(account_show("18446744073709551616"), bare(Status::BadRequest));
}

#[test]
fn feature_update_routes_the_grant() {
    let step = feature_update("2", Some(TeamIdList { teams: vec![7, 9, 7] }));
    assert_eq!(step, Step::Route(GrantFlagToTeams { flag: 2, teams: vec![7, 9, 7] }));
    let step = feature_update("4294967295", Some(TeamIdList { teams: vec![] }));
    assert_eq!(step, Step::Route(GrantFlagToTeams { flag: u32::MAX, teams: vec![] }));
}

#[test]
fn feature_update_refuses_an_invalid_flag() {
    let refused = Step::Respond(Response::Status(Status::BadRequest));
    assert_eq!(feature_update("admin", Some(TeamIdList { teams: vec![7] })), refused);
    assert_eq!(feature_update("4294967296", Some(TeamIdList { teams: vec![7] })), refused);
    assert_eq!(feature_update("", None), refused);
}

#[test]
fn feature_update_refuses_a_missing_body() {
    assert_eq!(
        feature_update("1", None),
        Step::Respond(Response::Status(Status::UnprocessableEntity))
    );
}

#[test]
fn feature_update_reply_maps_the_answer() {
    assert_eq!(feature_update_reply(Ok(NetOk {})), Response::Status(Status::NoContent));
    let failure = NetError { code: 3, msg: "rg:no-shard".to_string() };
    assert_eq!(feature_update_reply(Err(failure.clone())), Response::Backend(failure));
}

#[test]
fn search_routes_an_account_query() {
    let step = search(Some(body(text("id"), text("42"), text("account"))));
    assert_eq!(step, Step::Route(Query::Account(AccountSearch { id: 42 })));
}

#[test]
fn search_without_a_body_is_a_bad_request() {
    assert_eq!(search(None), bare(Status::BadRequest));
}

#[test]
fn search_with_missing_members_is_unprocessable() {
    let unprocessable = bare(Status::UnprocessableEntity);
    assert_eq!(search(Some(Json::Object(vec![]))), unprocessable);
    assert_eq!(search(Some(Json::Null)), unprocessable);
    assert_eq!(search(Some(Json::Array(vec![text("id")]))), unprocessable);
    let no_entity = Json::Object(vec![
        Member { name: "attr".to_string(), value: text("id") },
        Member { name: "value".to_string(), value: text("42") },
    ]);
    assert_eq!(search(Some(no_entity)), unprocessable);
    let no_attr = Json::Object(vec![
        Member { name: "value".to_string(), value: text("42") },
        Member { name: "entity".to_string(), value: text("account") },
    ]);
    assert_eq!(search(Some(no_attr)), unprocessable);
}

#[test]
fn search_with_members_of_the_wrong_type_is_unprocessable() {
    let unprocessable = bare(Status::UnprocessableEntity);
    let number = Json::Number("42".to_string());
    assert_eq!(search(Some(body(text("id"), number, text("account")))), unprocessable);
    assert_eq!(search(Some(body(Json::Null, text("42"), text("account")))), unprocessable);
    assert_eq!(search(Some(body(text("id"), text("42"), Json::Bool(true)))), unprocessable);
}

#[test]
fn search_of_an_unregistered_kind_is_unprocessable() {
    let unprocessable = bare(Status::UnprocessableEntity);
    assert_eq!(search(Some(body(text("id"), text("42"), text("widget")))), unprocessable);
    assert_eq!(search(Some(body(text("colour"), text("blue"), text("widget")))), unprocessable);
}

#[test]
fn search_reports_why_a_pair_is_no_query() {
    assert_eq!(
        search(Some(body(text("id"), text("not-a-number"), text("account")))),
        Step::Respond(Response::Invalid(ValidationError::MalformedValue))
    );
    assert_eq!(
        search(Some(body(text("name"), text("42"), text("account")))),
        Step::Respond(Response::Invalid(ValidationError::UnknownAttribute))
    );
}

#[test]
fn search_account_translates_the_pair() {
    assert_eq!(
        search_account("id".to_string(), "42".to_string()),
        Step::Route(Query::Account(AccountSearch { id: 42 }))
    );
    assert_eq!(
        search_account("id".to_string(), "x".to_string()),
        Step::Respond(Response::Invalid(ValidationError::MalformedValue))
    );
    assert_eq!(
        search_account("email".to_string(), "42".to_string()),
        Step::Respond(Response::Invalid(ValidationError::UnknownAttribute))
    );
}

#[test]
fn search_reply_maps_the_answer() {
    let found = Entity::Account(Account {
        id: 42,
        email: "ada@example.com".to_string(),
        name: "ada".to_string(),
    });
    assert_eq!(search_reply(Ok(found.clone())), Response::Entity(found));
    let failure = NetError { code: 4, msg: "account-search:none".to_string() };
    assert_eq!(search_reply(Err(failure.clone())), Response::Backend(failure));
}

#[test]
fn response_status() {
    let failure = NetError { code: 4, msg: "x".to_string() };
    assert_eq!(Response::Backend(failure).status(), None);
    assert_eq!(
        Response::Invalid(ValidationError::MalformedValue).status(),
        Some(Status::UnprocessableEntity)
    );
    assert_eq!(Response::Status(Status::NoContent).status(), Some(Status::NoContent));
    let found = Entity::Account(Account { id: 1, email: String::new(), name: String::new() });
    assert_eq!(Response::Entity(found).status(), Some(Status::Success));
}

fn backend(query: Query) -> Result<Entity, NetError> {
    match query {
        Query::Account(AccountSearch { id: 42 }) => Ok(Entity::Account(Account {
            id: 42,
            email: "ada@example.com".to_string(),
            name: "ada".to_string(),
        })),
        Query::Account(_) => Err(NetError { code: 4, msg: "account-search:none".to_string() }),
    }
}

fn run(step: Step<Query>) -> Response {
    match step {
        Step::Route(query) => search_reply(backend(query)),
        Step::Respond(response) => response,
    }
}

#[test]
fn search_answers_with_the_account_that_the_backend_has() {
    let response = run(search(Some(body(text("id"), text("42"), text("account")))));
    match response {
        Response::Entity(Entity::Account(account)) => {
            assert_eq!(account.id, 42);
            assert_eq!(account.name, "ada");
        }
        other => panic!("unexpected response {:?}", other),
    }
    let response = run(search(Some(body(text("id"), text("43"), text("account")))));
    assert_eq!(
        response,
        Response::Backend(NetError { code: 4, msg: "account-search:none".to_string() })
    );
}

#[test]
fn account_show_answers_with_the_account_that_the_backend_has() {
    assert_eq!(run(account_show("42")).status(), Some(Status::Success));
    assert_eq!(run(account_show("43")).status(), None);
    assert_eq!(run(account_show("4x")), Response::Status(Status::BadRequest));
}

#[test]
fn refusal_maps_each_error() {
    assert_eq!(
        refusal(DispatchError::UnknownEntity),
        Response::Status(Status::UnprocessableEntity)
    );
    assert_eq!(
        refusal(DispatchError::InvalidQuery(ValidationError::UnknownAttribute)),
        Response::Invalid(ValidationError::UnknownAttribute)
    );
    let failure = NetError { code: 1, msg: "rg:timeout".to_string() };
    assert_eq!(refusal(DispatchError::Backend(failure.clone())), Response::Backend(failure));
}
