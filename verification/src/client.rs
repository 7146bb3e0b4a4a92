//! Naming topics and subscriptions, and making sure that they exist.

use crate::error::{Error, ErrorView};
use vstd::prelude::*;
use vstd::string::*;

verus! {

/// The name of a resource as the broker knows it: an identifier that holds
/// a `/` is taken to be fully qualified already; any other is placed under
/// the project, in the collection of its kind.
pub open spec fn qualified(project: Seq<char>, collection: Seq<char>, id: Seq<char>) -> Seq<char> {
    if id.contains('/') {
        id
    } else {
        "projects/"@ + project + collection + id
    }
}

/// The fully qualified name of topic `id` in `project`.
pub open spec fn topic_name(project: Seq<char>, id: Seq<char>) -> Seq<char> {
    qualified(project, "/topics/"@, id)
}

/// The fully qualified name of subscription `id` in `project`.
pub open spec fn subscription_name(project: Seq<char>, id: Seq<char>) -> Seq<char> {
    qualified(project, "/subscriptions/"@, id)
}

/// Whether `text` holds a `/`.
fn has_slash(text: &str) -> (found: bool)
    ensures
        found == text@.contains('/'),
{
    let n = text.unicode_len();
    let mut i: usize = 0;
    while i < n
        invariant
            n == text@.len(),
            i <= n,
            forall|k: int| 0 <= k < i ==> text@[k] != '/',
        decreases n - i,
    {
        if text.get_char(i) == '/' {
            return true;
        }
        i += 1;
    }
    false
}

/// Builds the name that [`qualified`] describes.
fn qualify(project: &String, collection: &str, id: &str) -> (name: String)
    ensures
        name@ == qualified(project@, collection@, id@),
{
    if has_slash(id) {
        String::from_str(id)
    } else {
        let mut name = String::from_str("projects/");
        name.append(project.as_str());
        name.append(collection);
        name.append(id);
        name
    }
}

/// The options of a subscription.
#[derive(Clone, Copy, Debug, PartialEq, Eq, Structural)]
pub struct SubscriptionConfig {
    /// Whether the broker delivers the messages of one ordering key in the
    /// order in which it got them.
    pub enable_message_ordering: bool,
}

/// A handle on a topic: its name, nothing more.
#[derive(Debug, PartialEq, Eq)]
pub struct Topic {
    name: String,
}

impl View for Topic {
    type V = Seq<char>;

    closed spec fn view(&self) -> Seq<char> {
        self.name@
    }
}

impl Topic {
    /// The name under which the broker knows the topic.
    pub fn fully_qualified_name(&self) -> (name: &String)
        ensures
            name@ == self@,
    {
        &self.name
    }
}

/// A handle on a subscription: its name, nothing more.
#[derive(Debug, PartialEq, Eq)]
pub struct Subscription {
    name: String,
}

impl View for Subscription {
    type V = Seq<char>;

    closed spec fn view(&self) -> Seq<char> {
        self.name@
    }
}

impl Subscription {
    /// The name under which the broker knows the subscription.
    pub fn fully_qualified_name(&self) -> (name: &String)
        ensures
            name@ == self@,
    {
        &self.name
    }
}

/// The context in which topics and subscriptions are named: a project.
#[derive(Debug, PartialEq, Eq)]
pub struct Client {
    project: String,
}

impl View for Client {
    type V = Seq<char>;

    closed spec fn view(&self) -> Seq<char> {
        self.project@
    }
}

impl Client {
    /// A client for `project`.
    pub fn new(project: String) -> (client: Client)
        ensures
            client@ == project@,
    {
        Client { project }
    }

    /// The project of the client.
    pub fn project(&self) -> (project: &String)
        ensures
            project@ == self@,
    {
        &self.project
    }

    /// A handle on topic `id`. Nothing is asked of the broker.
    pub fn topic(&self, id: &str) -> (topic: Topic)
        ensures
            topic@ == topic_name(self@, id@),
    {
        Topic { name: qualify(&self.project, "/topics/", id) }
    }

    /// A handle on subscription `id`. Nothing is asked of the broker.
    pub fn subscription(&self, id: &str) -> (subscription: Subscription)
        ensures
            subscription@ == subscription_name(self@, id@),
    {
        Subscription { name: qualify(&self.project, "/subscriptions/", id) }
    }
}

/// What the driver asks of the broker next while it makes sure that a
/// resource exists.
#[derive(Clone, Copy, Debug, PartialEq, Eq, Structural)]
pub enum Request {
    /// Ask whether the resource exists.
    Exists,
    /// Create the resource.
    Create,
}

/// What the broker answered.
#[derive(Debug, PartialEq, Eq)]
pub enum Reply {
    /// The answer to [`Request::Exists`].
    Exists(bool),
    /// The resource has been created.
    Created,
    /// The request failed.
    Refused(Error),
}

/// Mathematical value of a [`Reply`].
pub enum ReplyView {
    Exists(bool),
    Created,
    Refused(ErrorView),
}

impl View for Reply {
    type V = ReplyView;

    open spec fn view(&self) -> ReplyView {
        match self {
            Reply::Exists(there) => ReplyView::Exists(*there),
            Reply::Created => ReplyView::Created,
            Reply::Refused(error) => ReplyView::Refused(error@),
        }
    }
}

/// Making sure that a resource exists: look first, create if it is missing.
#[derive(Debug, PartialEq, Eq)]
pub enum Ensure {
    /// The question whether the resource exists is with the broker.
    Checking,
    /// The request to create it is with the broker.
    Creating,
    /// The resource exists.
    Ready,
    /// It could not be made sure of.
    Failed(Error),
}

/// Mathematical value of an [`Ensure`].
pub enum EnsuringView {
    Checking,
    Creating,
    Ready,
    Failed(ErrorView),
}

impl View for Ensure {
    type V = EnsuringView;

    open spec fn view(&self) -> EnsuringView {
        match self {
            Ensure::Checking => EnsuringView::Checking,
            Ensure::Creating => EnsuringView::Creating,
            Ensure::Ready => EnsuringView::Ready,
            Ensure::Failed(error) => EnsuringView::Failed(error@),
        }
    }
}

impl EnsuringView {
    /// What the driver asks next, if anything.
    pub open spec fn request(self) -> Option<Request> {
        match self {
            EnsuringView::Checking => Some(Request::Exists),
            EnsuringView::Creating => Some(Request::Create),
            _ => None,
        }
    }

    /// The state after the broker's answer. A resource that is there needs
    /// nothing; one that is missing is created; being told on creation that
    /// it already exists is as good as having created it; any other refusal
    /// fails. An answer to a question that was not asked changes nothing.
    pub open spec fn advance(self, reply: ReplyView) -> EnsuringView {
        match (self, reply) {
            (EnsuringView::Checking, ReplyView::Exists(true)) => EnsuringView::Ready,
            (EnsuringView::Checking, ReplyView::Exists(false)) => EnsuringView::Creating,
            (EnsuringView::Creating, ReplyView::Created) => EnsuringView::Ready,
            (EnsuringView::Creating, ReplyView::Refused(ErrorView::AlreadyExists)) => EnsuringView::Ready,
            (EnsuringView::Checking, ReplyView::Refused(error)) => EnsuringView::Failed(error),
            (EnsuringView::Creating, ReplyView::Refused(error)) => EnsuringView::Failed(error),
            _ => self,
        }
    }

    /// The result, once there is nothing more to ask.
    pub open spec fn result(self) -> Option<Result<(), ErrorView>> {
        match self {
            EnsuringView::Ready => Some(Ok(())),
            EnsuringView::Failed(error) => Some(Err(error)),
            _ => None,
        }
    }
}

impl Ensure {
    /// The start: nothing is known yet.
    pub fn begin() -> (state: Ensure)
        ensures
            state@ == EnsuringView::Checking,
    {
        Ensure::Checking
    }

    /// What to ask the broker next; `None` when nothing is left to ask.
    pub fn request(&self) -> (request: Option<Request>)
        ensures
            request == self@.request(),
    {
        match self {
            Ensure::Checking => Some(Request::Exists),
            Ensure::Creating => Some(Request::Create),
            _ => None,
        }
    }

    /// Takes the broker's answer.
    pub fn advance(self, reply: Reply) -> (next: Ensure)
        ensures
            next@ == self@.advance(reply@),
    {
        match self {
            Ensure::Checking => match reply {
                Reply::Exists(true) => Ensure::Ready,
                Reply::Exists(false) => Ensure::Creating,
                Reply::Refused(error) => Ensure::Failed(error),
                Reply::Created => Ensure::Checking,
            },
            Ensure::Creating => match reply {
                Reply::Created => Ensure::Ready,
                Reply::Refused(error) => {
                    if error.is_already_exists() {
                        Ensure::Ready
                    } else {
                        Ensure::Failed(error)
                    }
                },
                Reply::Exists(_) => Ensure::Creating,
            },
            Ensure::Ready => Ensure::Ready,
            Ensure::Failed(error) => Ensure::Failed(error),
        }
    }

    /// The result, once there is nothing more to ask.
    pub fn result(self) -> (result: Option<Result<(), Error>>)
        ensures
            match result {
                Some(Ok(_)) => self@.result() == Some(Ok::<(), ErrorView>(())),
                Some(Err(error)) => self@.result() == Some(Err::<(), ErrorView>(error@)),
                None => self@.result() is None,
            },
    {
        match self {
            Ensure::Ready => Some(Ok(())),
            Ensure::Failed(error) => Some(Err(error)),
            _ => None,
        }
    }
}

} // verus!
