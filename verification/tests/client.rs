use ordered_pubsub::client::{Client, Ensure, Reply, Request};
use ordered_pubsub::error::{Error, Fault};

#[test]
fn topic_name_is_placed_under_the_project() {
    let client = Client::new("local-project".to_string());
    assert_eq!(client.project(), "local-project");
    let topic = client.topic("Test_Topic");
    assert_eq!(topic.fully_qualified_name(), "projects/local-project/topics/Test_Topic");
}

#[test]
fn subscription_name_is_placed_under_the_project() {
    let client = Client::new("local-project".to_string());
    let subscription = client.subscription("Test_Topic-sub");
    assert_eq!(
        subscription.fully_qualified_name(),
        "projects/local-project/subscriptions/Test_Topic-sub"
    );
}

#[test]
fn name_with_a_slash_is_taken_as_qualified() {
    let client = Client::new("local-project".to_string());
    assert_eq!(
        client.topic("projects/other/topics/t").fully_qualified_name(),
        "projects/other/topics/t"
    );
    assert_eq!(
        client.subscription("projects/other/subscriptions/s").fully_qualified_name(),
        "projects/other/subscriptions/s"
    );
    assert_eq!(client.topic("a/b").fully_qualified_name(), "a/b");
    assert_eq!(client.topic("/").fully_qualified_name(), "/");
}

#[test]
fn names_outside_ascii_are_kept() {
    let client = Client::new("projet-é".to_string());
    assert_eq!(client.topic("thème").fully_qualified_name(), "projects/projet-é/topics/thème");
    assert_eq!(client.topic("thème/é").fully_qualified_name(), "thème/é");
}

#[test]
fn empty_identifier_is_placed_under_the_project() {
    let client = Client::new("p".to_string());
    assert_eq!(client.topic("").fully_qualified_name(), "projects/p/topics/");
}

#[test]
fn ensure_starts_by_looking() {
    let state = Ensure::begin();
    assert_eq!(state, Ensure::Checking);
    assert_eq!(state.request(), Some(Request::Exists));
    assert_eq!(state.result(), None);
}

#[test]
fn ensure_of_what_exists_asks_nothing_more() {
    let state = Ensure::begin().advance(Reply::Exists(true));
    assert_eq!(state, Ensure::Ready);
    assert_eq!(state.request(), None);
    assert_eq!(state.result(), Some(Ok(())));
}

#[test]
fn ensure_of_what_is_missing_creates() {
    let state = Ensure::begin().advance(Reply::Exists(false));
    assert_eq!(state, Ensure::Creating);
    assert_eq!(state.request(), Some(Request::Create));
    let state = state.advance(Reply::Created);
    assert_eq!(state, Ensure::Ready);
    assert_eq!(state.result(), Some(Ok(())));
}

#[test]
fn ensure_takes_already_exists_as_success() {
    let state = Ensure::begin()
        .advance(Reply::Exists(false))
        .advance(Reply::Refused(Error::AlreadyExists));
    assert_eq!(state, Ensure::Ready);
    assert_eq!(state.result(), Some(Ok(())));
}

#[test]
fn ensure_fails_when_the_look_fails() {
    let down = Fault { code: 14, message: "down".to_string() };
    let state = Ensure::begin().advance(Reply::Refused(Error::Transport(down.duplicate())));
    assert_eq!(state.request(), None);
    assert_eq!(state.result(), Some(Err(Error::Transport(down))));
}

#[test]
fn ensure_fails_when_creation_is_refused() {
    let state = Ensure::begin().advance(Reply::Exists(false)).advance(Reply::Refused(Error::NotFound));
    assert_eq!(state, Ensure::Failed(Error::NotFound));
    assert_eq!(state.result(), Some(Err(Error::NotFound)));
}

#[test]
fn ensure_ignores_answers_to_questions_not_asked() {
    assert_eq!(Ensure::begin().advance(Reply::Created), Ensure::Checking);
    assert_eq!(
        Ensure::begin().advance(Reply::Exists(false)).advance(Reply::Exists(true)),
        Ensure::Creating
    );
    assert_eq!(Ensure::Ready.advance(Reply::Refused(Error::NotFound)), Ensure::Ready);
    assert_eq!(
        Ensure::Failed(Error::NotFound).advance(Reply::Created),
        Ensure::Failed(Error::NotFound)
    );
}
