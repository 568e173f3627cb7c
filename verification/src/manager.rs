//! The broker behind client tokens, for the line protocol.
//!
//! A client connects and gets a token. Every later call names the token and
//! returns the messages to enqueue, each with the key of the client it is
//! for. The caller keeps the queues, by key.

use std::sync::Arc;
use vstd::prelude::*;
use crate::bufpool::Buffer;
use crate::directory::{
    as_map, distinct_keys, lemma_as_map_entry, lemma_as_map_keys, lemma_as_map_push,
    lemma_as_map_update, lemma_as_map_with_values, with_values,
};
use crate::errors::Error;
use crate::protocol::{OutcomingMessage, OutcomingView};
use crate::sequences::{lemma_filter_contains, lemma_filter_keeps_all, lemma_push_contains};

verus! {

/// How many clients a new manager makes room for.
pub const CLIENTS_CAPACITY: usize = 64;

/// How many topics a new manager makes room for.
pub const TOPICS_CAPACITY: usize = 32;

#[verifier::external_type_specification]
#[verifier::external_body]
#[verifier::reject_recursive_types(T)]
pub struct ExSlab<T>(slab::Slab<T>);

/// What the broker keeps for a connected client: the names of the topics it
/// subscribed to, one entry per subscription.
pub struct Client {
    subscriptions: Vec<String>,
}

impl View for Client {
    type V = Seq<Seq<char>>;

    closed spec fn view(&self) -> Seq<Seq<char>> {
        Seq::new(self.subscriptions@.len(), |i: int| self.subscriptions@[i]@)
    }
}

/// What a slab of clients holds: under each key in use, the subscriptions
/// of the client stored there.
pub uninterp spec fn slab_clients(slab: slab::Slab<Client>) -> Map<usize, Seq<Seq<char>>>;

/// `slab::Slab::with_capacity`: the new slab holds nothing.
#[verifier::external_body]
fn slab_with_capacity(capacity: usize) -> (made: slab::Slab<Client>)
    ensures
        slab_clients(made) =~= Map::empty(),
{
    slab::Slab::with_capacity(capacity)
}

/// `slab::Slab::contains`: whether a client is stored under `key`.
#[verifier::external_body]
fn slab_contains(slab: &slab::Slab<Client>, key: usize) -> (found: bool)
    ensures
        found == slab_clients(*slab).contains_key(key),
{
    slab.contains(key)
}

/// `slab::Slab::insert`: stores `client` under a key that was not in use,
/// leaves the other clients alone and returns the key. Like `Vec::push`, it
/// gives up only when memory runs out.
#[verifier::external_body]
fn slab_insert(slab: &mut slab::Slab<Client>, client: Client) -> (key: usize)
    ensures
        !slab_clients(*old(slab)).contains_key(key),
        slab_clients(*final(slab)) == slab_clients(*old(slab)).insert(key, client@),
{
    slab.insert(client)
}

/// `slab::Slab::remove`: takes out and returns the client stored under
/// `key`, and leaves the others alone. It panics on a key that is not in
/// use, which the precondition rules out.
#[verifier::external_body]
fn slab_remove(slab: &mut slab::Slab<Client>, key: usize) -> (client: Client)
    requires
        slab_clients(*old(slab)).contains_key(key),
    ensures
        client@ == slab_clients(*old(slab))[key],
        slab_clients(*final(slab)) == slab_clients(*old(slab)).remove(key),
{
    slab.remove(key)
}

/// `slab::Slab::get_mut`: the client stored under `key`, to be changed in
/// place, or `None` when the key is not in use. Whatever the caller makes
/// of the client is what the slab then holds under `key`; nothing else
/// changes.
#[verifier::external_body]
fn slab_get_mut(slab: &mut slab::Slab<Client>, key: usize) -> (found: Option<&mut Client>)
    ensures
        match found {
            Some(client) => slab_clients(*old(slab)).contains_key(key) && client@ == slab_clients(
                *old(slab),
            )[key] && slab_clients(*final(slab)) == slab_clients(*old(slab)).insert(
                key,
                final(client)@,
            ),
            None => !slab_clients(*old(slab)).contains_key(key) && slab_clients(*final(slab))
                == slab_clients(*old(slab)),
        },
{
    slab.get_mut(key)
}

/// `Arc::clone`: another handle to the same buffer.
#[verifier::external_body]
fn share(payload: &Arc<Buffer>) -> (handle: Arc<Buffer>)
    ensures
        handle == *payload,
{
    Arc::clone(payload)
}

/// Names a connected client. Handed out by [`connect`] and surrendered to
/// [`disconnect`].
#[derive(Debug, PartialEq, Eq, Structural)]
pub struct ClientToken(usize);

impl ClientToken {
    /// The key under which the client's queue is kept.
    pub closed spec fn spec_key(&self) -> usize {
        self.0
    }

    /// The key under which the client's queue is kept.
    pub fn key(&self) -> (key: usize)
        ensures
            key == self.spec_key(),
    {
        self.0
    }
}

/// A message on its way to the queue of the client `client`.
#[derive(Debug, Clone)]
pub struct Outgoing {
    pub client: usize,
    pub message: OutcomingMessage,
}

/// The mathematical content of an [`Outgoing`].
pub struct OutgoingView {
    pub client: usize,
    pub message: OutcomingView,
}

impl View for Outgoing {
    type V = OutgoingView;

    open spec fn view(&self) -> OutgoingView {
        OutgoingView { client: self.client, message: self.message@ }
    }
}

/// The contents of a list of outgoing messages, in order.
pub open spec fn outgoing_view(list: Seq<Outgoing>) -> Seq<OutgoingView> {
    Seq::new(list.len(), |i: int| list[i]@)
}

/// The test that accepts every key but `key`.
pub open spec fn is_other_than(key: usize) -> spec_fn(usize) -> bool {
    |other: usize| other != key
}

/// The function that strikes `key` from a list of clients.
pub open spec fn without(key: usize) -> spec_fn(Seq<usize>) -> Seq<usize> {
    |clients: Seq<usize>| clients.filter(is_other_than(key))
}

/// The mathematical content of a [`Manager`].
pub struct ManagerView {
    /// Each connected client's key with the topic names it subscribed to.
    pub clients: Map<usize, Seq<Seq<char>>>,
    /// Each topic's name with the keys of its subscribers, in order.
    pub topics: Map<Seq<char>, Seq<usize>>,
}

impl ManagerView {
    /// Whether the topic `name` lists the client `key`.
    pub open spec fn lists(self, name: Seq<char>, key: usize) -> bool {
        self.topics.contains_key(name) && self.topics[name].contains(key)
    }

    /// Every client that a topic lists is connected and has the topic among
    /// its subscriptions: no topic keeps a client that has gone.
    pub open spec fn wf(self) -> bool {
        forall|name: Seq<char>, key: usize| #[trigger]
            self.lists(name, key) ==> self.clients.contains_key(key)
                && self.clients[key].contains(name)
    }

    /// After a client connected under `key`.
    pub open spec fn connected(self, key: usize) -> ManagerView {
        ManagerView { clients: self.clients.insert(key, Seq::empty()), topics: self.topics }
    }

    /// After `create(name)`: an existing topic keeps its subscribers.
    pub open spec fn created(self, name: Seq<char>) -> ManagerView {
        if self.topics.contains_key(name) {
            self
        } else {
            ManagerView { clients: self.clients, topics: self.topics.insert(name, Seq::empty()) }
        }
    }

    /// After the client `key` asked to subscribe to `name`: nothing changes
    /// unless the topic exists.
    pub open spec fn subscribed(self, name: Seq<char>, key: usize) -> ManagerView {
        if self.topics.contains_key(name) {
            ManagerView {
                clients: self.clients.insert(key, self.clients[key].push(name)),
                topics: self.topics.insert(name, self.topics[name].push(key)),
            }
        } else {
            self
        }
    }

    /// After the client `key` disconnected: it is no client any more, and
    /// every topic lost all its subscriptions.
    pub open spec fn disconnected(self, key: usize) -> ManagerView {
        ManagerView {
            clients: self.clients.remove(key),
            topics: self.topics.map_values(without(key)),
        }
    }

    /// The single message that answers the client `key`.
    pub open spec fn answer(key: usize, message: OutcomingView) -> Seq<OutgoingView> {
        seq![OutgoingView { client: key, message }]
    }

    /// What a subscribe by `key` enqueues.
    pub open spec fn subscribe_answer(self, name: Seq<char>, key: usize) -> Seq<OutgoingView> {
        if self.topics.contains_key(name) {
            Self::answer(key, OutcomingView::Okay)
        } else {
            Self::answer(key, OutcomingView::Failure(Error::UnknownTopic))
        }
    }

    /// What a publish by `key` enqueues: the payload for every subscription
    /// of the topic, in order, then `Okay` for the publisher; or the failure
    /// alone when the topic does not exist.
    pub open spec fn published(self, name: Seq<char>, key: usize, payload: Seq<u8>) -> Seq<
        OutgoingView,
    > {
        if self.topics.contains_key(name) {
            Seq::new(
                self.topics[name].len(),
                |i: int|
                    OutgoingView {
                        client: self.topics[name][i],
                        message: OutcomingView::Data { topic_name: name, payload },
                    },
            ).push(OutgoingView { client: key, message: OutcomingView::Okay })
        } else {
            Self::answer(key, OutcomingView::Failure(Error::UnknownTopic))
        }
    }
}

/// A topic of the manager: its name and the keys of its subscribers.
struct Topic {
    name: String,
    clients: Vec<usize>,
}

impl Topic {
    fn new(name: String) -> (topic: Topic)
        ensures
            topic.name == name,
            topic.clients@ == Seq::<usize>::empty(),
    {
        Topic { name, clients: Vec::with_capacity(1) }
    }
}

spec fn entries(topics: Seq<Topic>) -> Seq<(Seq<char>, Seq<usize>)> {
    Seq::new(topics.len(), |i: int| (topics[i].name@, topics[i].clients@))
}

spec fn model(clients: Map<usize, Seq<Seq<char>>>, topics: Seq<Topic>) -> ManagerView {
    ManagerView { clients, topics: as_map(entries(topics)) }
}

spec fn sound(clients: Map<usize, Seq<Seq<char>>>, topics: Seq<Topic>) -> bool {
    distinct_keys(entries(topics)) && model(clients, topics).wf()
}

/// The connected clients and the topics.
pub struct Manager {
    clients: slab::Slab<Client>,
    topics: Vec<Topic>,
}

impl View for Manager {
    type V = ManagerView;

    closed spec fn view(&self) -> ManagerView {
        model(slab_clients(self.clients), self.topics@)
    }
}

impl Manager {
    #[verifier::type_invariant]
    spec fn well_formed(&self) -> bool {
        sound(slab_clients(self.clients), self.topics@)
    }

    /// A manager with no client and no topic.
    pub fn new() -> (manager: Manager)
        ensures
            manager@.clients =~= Map::empty(),
            manager@.topics =~= Map::empty(),
            manager@.wf(),
    {
        let clients = slab_with_capacity(CLIENTS_CAPACITY);
        let topics: Vec<Topic> = Vec::with_capacity(TOPICS_CAPACITY);
        assert(entries(topics@) =~= Seq::empty());
        Manager { clients, topics }
    }

    /// Moves both tables out, to be changed and put back.
    fn take(&mut self) -> (tables: (slab::Slab<Client>, Vec<Topic>))
        ensures
            tables.0 == old(self).clients,
            tables.1 == old(self).topics,
            final(self).topics@.len() == 0,
    {
        let mut topics: Vec<Topic> = Vec::new();
        assert(entries(topics@) =~= Seq::empty());
        core::mem::swap(&mut self.topics, &mut topics);
        let mut clients = slab_with_capacity(0);
        core::mem::swap(&mut self.clients, &mut clients);
        (clients, topics)
    }

    /// Whether `token` names a connected client.
    pub fn is_connected(&self, token: &ClientToken) -> (found: bool)
        ensures
            found == self@.clients.contains_key(token.spec_key()),
    {
        slab_contains(&self.clients, token.0)
    }
}

/// Where the topic `name` stands in the list, if it exists.
fn position(topics: &Vec<Topic>, name: &String) -> (found: Option<usize>)
    ensures
        match found {
            Some(i) => i < topics@.len() && topics@[i as int].name@ == name@,
            None => !as_map(entries(topics@)).contains_key(name@),
        },
        found is Some <==> as_map(entries(topics@)).contains_key(name@),
{
    let mut i: usize = 0;
    while i < topics.len()
        invariant
            i <= topics@.len(),
            forall|j: int| 0 <= j < i ==> (#[trigger] topics@[j]).name@ != name@,
        decreases topics@.len() - i,
    {
        if topics[i].name == *name {
            assert(entries(topics@)[i as int].0 == name@);
            proof {
                lemma_as_map_keys(entries(topics@), name@);
            }
            return Some(i);
        }
        i += 1;
    }
    proof {
        assert forall|i: int| 0 <= i < entries(topics@).len() implies (#[trigger] entries(
            topics@,
        )[i]).0 != name@ by {
            assert(topics@[i].name@ != name@);
        }
        lemma_as_map_keys(entries(topics@), name@);
    }
    None
}

/// The single message `message` for the client `key`.
fn answer(key: usize, message: OutcomingMessage) -> (sent: Vec<Outgoing>)
    ensures
        outgoing_view(sent@) == ManagerView::answer(key, message@),
{
    let mut sent: Vec<Outgoing> = Vec::new();
    sent.push(Outgoing { client: key, message });
    assert(outgoing_view(sent@) =~= ManagerView::answer(key, message@));
    sent
}

/// Admits a client and returns its token. The key of the token is one that
/// no connected client has.
pub fn connect(manager: &mut Manager) -> (token: ClientToken)
    ensures
        !old(manager)@.clients.contains_key(token.spec_key()),
        final(manager)@ == old(manager)@.connected(token.spec_key()),
        final(manager)@.wf(),
{
    proof {
        use_type_invariant(&*manager);
    }
    let ghost before = manager@;
    let (mut clients, topics) = manager.take();
    let client = Client { subscriptions: Vec::with_capacity(2) };
    assert(client@ =~= Seq::empty());
    let key = slab_insert(&mut clients, client);
    proof {
        let after = model(slab_clients(clients), topics@);
        assert(after.clients =~= before.clients.insert(key, Seq::empty()));
        assert forall|name: Seq<char>, other: usize| #[trigger] after.lists(name, other) implies {
            after.clients.contains_key(other) && after.clients[other].contains(name)
        } by {
            assert(before.lists(name, other));
        }
    }
    assert(entries(manager.topics@) =~= Seq::empty());
    manager.clients = clients;
    manager.topics = topics;
    ClientToken(key)
}

/// Makes sure the topic `topic_name` exists and answers `Okay`.
pub fn create(manager: &mut Manager, token: &ClientToken, topic_name: String) -> (sent: Vec<
    Outgoing,
>)
    requires
        old(manager)@.clients.contains_key(token.spec_key()),
    ensures
        final(manager)@ == old(manager)@.created(topic_name@),
        final(manager)@.wf(),
        outgoing_view(sent@) == ManagerView::answer(token.spec_key(), OutcomingView::Okay),
{
    proof {
        use_type_invariant(&*manager);
    }
    let ghost before = manager@;
    if position(&manager.topics, &topic_name).is_none() {
        let (clients, mut topics) = manager.take();
        let ghost listed = entries(topics@);
        topics.push(Topic::new(topic_name));
        proof {
            lemma_as_map_push(listed, topic_name@, Seq::empty());
            assert(entries(topics@) =~= listed.push((topic_name@, Seq::empty())));
            let after = model(slab_clients(clients), topics@);
            assert(after.clients =~= before.clients);
            assert forall|name: Seq<char>, other: usize| #[trigger]
                after.lists(name, other) implies {
                after.clients.contains_key(other) && after.clients[other].contains(name)
            } by {
                if name == topic_name@ {
                    assert(!Seq::<usize>::empty().contains(other));
                } else {
                    assert(before.lists(name, other));
                }
            }
        }
        assert(entries(manager.topics@) =~= Seq::empty());
        manager.clients = clients;
        manager.topics = topics;
    }
    answer(token.0, OutcomingMessage::Okay)
}

/// Subscribes the client to the topic `topic_name` and answers `Okay`; or
/// changes nothing and answers `UnknownTopic` when there is no such topic.
/// A client that subscribes twice is listed twice.
pub fn subscribe(manager: &mut Manager, token: &ClientToken, topic_name: &str) -> (sent: Vec<
    Outgoing,
>)
    requires
        old(manager)@.clients.contains_key(token.spec_key()),
    ensures
        final(manager)@ == old(manager)@.subscribed(topic_name@, token.spec_key()),
        final(manager)@.wf(),
        outgoing_view(sent@) == old(manager)@.subscribe_answer(topic_name@, token.spec_key()),
{
    proof {
        use_type_invariant(&*manager);
    }
    let ghost before = manager@;
    let key = token.0;
    let name = topic_name.to_owned();
    match position(&manager.topics, &name) {
        Some(i) => {
            let (mut clients, mut topics) = manager.take();
            let ghost listed = entries(topics@);
            let ghost held = slab_clients(clients);
            proof {
                lemma_as_map_entry(listed, i as int);
                lemma_as_map_update(listed, i as int, listed[i as int].1.push(key));
            }
            topics[i].clients.push(key);
            assert(entries(topics@) =~= listed.update(
                i as int,
                (listed[i as int].0, listed[i as int].1.push(key)),
            ));
            match slab_get_mut(&mut clients, key) {
                Some(client) => {
                    client.subscriptions.push(name);
                },
                None => {},
            }
            proof {
                let after = model(slab_clients(clients), topics@);
                assert(slab_clients(clients)[key] =~= held[key].push(topic_name@));
                assert(after.clients =~= before.clients.insert(
                    key,
                    before.clients[key].push(topic_name@),
                ));
                assert forall|n: Seq<char>, other: usize| #[trigger] after.lists(n, other) implies {
                    after.clients.contains_key(other) && after.clients[other].contains(n)
                } by {
                    if n == topic_name@ {
                        lemma_push_contains(before.topics[n], key, other);
                    }
                    if other == key {
                        lemma_push_contains(before.clients[key], topic_name@, n);
                    }
                    if !(n == topic_name@ && other == key) {
                        assert(before.lists(n, other));
                    }
                }
            }
            assert(entries(manager.topics@) =~= Seq::empty());
            manager.clients = clients;
            manager.topics = topics;
            answer(key, OutcomingMessage::Okay)
        },
        None => answer(key, OutcomingMessage::Failure(Error::UnknownTopic)),
    }
}

/// Addresses `payload` to every subscription of the topic `topic_name`, in
/// the subscriptions' order, then answers `Okay`; or answers `UnknownTopic`
/// alone when there is no such topic. The subscribers share the one buffer.
pub fn publish(manager: &Manager, token: &ClientToken, topic_name: &str, payload: Buffer) -> (sent:
    Vec<Outgoing>)
    requires
        manager@.clients.contains_key(token.spec_key()),
    ensures
        outgoing_view(sent@) == manager@.published(topic_name@, token.spec_key(), payload@),
{
    proof {
        use_type_invariant(manager);
    }
    let key = token.0;
    let name = topic_name.to_owned();
    match position(&manager.topics, &name) {
        Some(i) => {
            proof {
                lemma_as_map_entry(entries(manager.topics@), i as int);
            }
            let topic = &manager.topics[i];
            let buffer = Arc::new(payload);
            let mut sent: Vec<Outgoing> = Vec::new();
            let mut j: usize = 0;
            while j < topic.clients.len()
                invariant
                    j <= topic.clients@.len(),
                    sent@.len() == j,
                    buffer == payload,
                    forall|k: int|
                        0 <= k < j ==> (#[trigger] sent@[k])@ == (OutgoingView {
                            client: topic.clients@[k],
                            message: OutcomingView::Data {
                                topic_name: topic_name@,
                                payload: payload@,
                            },
                        }),
                decreases topic.clients@.len() - j,
            {
                let message = OutcomingMessage::Data {
                    topic_name: topic_name.to_owned(),
                    payload: share(&buffer),
                };
                sent.push(Outgoing { client: topic.clients[j], message });
                j += 1;
            }
            sent.push(Outgoing { client: key, message: OutcomingMessage::Okay });
            assert(outgoing_view(sent@) =~= manager@.published(topic_name@, key, payload@));
            sent
        },
        None => answer(key, OutcomingMessage::Failure(Error::UnknownTopic)),
    }
}

/// Addresses `message` to the client itself.
pub fn bypass(manager: &Manager, token: &ClientToken, message: OutcomingMessage) -> (sent: Vec<
    Outgoing,
>)
    requires
        manager@.clients.contains_key(token.spec_key()),
    ensures
        outgoing_view(sent@) == ManagerView::answer(token.spec_key(), message@),
{
    answer(token.0, message)
}

/// The keys of `clients` other than `key`, in order.
fn others(clients: &Vec<usize>, key: usize) -> (kept: Vec<usize>)
    ensures
        kept@ == clients@.filter(is_other_than(key)),
{
    let mut kept: Vec<usize> = Vec::new();
    let mut i: usize = 0;
    proof {
        reveal(Seq::filter);
        assert(clients@.take(0) =~= Seq::empty());
    }
    while i < clients.len()
        invariant
            i <= clients@.len(),
            kept@ == clients@.take(i as int).filter(is_other_than(key)),
        decreases clients@.len() - i,
    {
        proof {
            reveal(Seq::filter);
            assert(clients@.take(i + 1).drop_last() =~= clients@.take(i as int));
        }
        if clients[i] != key {
            kept.push(clients[i]);
        }
        i += 1;
    }
    assert(clients@.take(i as int) =~= clients@);
    kept
}

/// Whether one of the first `count` names of `names` is `name`.
spec fn named_before(names: Seq<Seq<char>>, count: int, name: Seq<char>) -> bool {
    exists|k: int| 0 <= k < count && names[k] == name
}

/// Removes the client: it is connected no longer, and every topic it
/// subscribed to drops all its subscriptions. The token is used up.
pub fn disconnect(manager: &mut Manager, token: ClientToken)
    requires
        old(manager)@.clients.contains_key(token.spec_key()),
    ensures
        final(manager)@ == old(manager)@.disconnected(token.spec_key()),
        final(manager)@.wf(),
        forall|name: Seq<char>| !final(manager)@.lists(name, token.spec_key()),
{
    proof {
        use_type_invariant(&*manager);
    }
    let ghost before = manager@;
    let key = token.0;
    let (mut clients, mut topics) = manager.take();
    let ghost listed = entries(topics@);
    let client = slab_remove(&mut clients, key);
    let ghost names = client@;
    let mut j: usize = 0;
    while j < client.subscriptions.len()
        invariant
            j <= client.subscriptions@.len(),
            names == client@,
            listed == entries(old(manager).topics@),
            distinct_keys(listed),
            topics@.len() == listed.len(),
            forall|t: int|
                0 <= t < listed.len() ==> (#[trigger] topics@[t]).name@ == listed[t].0
                    && topics@[t].clients@ == if named_before(names, j as int, listed[t].0) {
                    listed[t].1.filter(is_other_than(key))
                } else {
                    listed[t].1
                },
        decreases client.subscriptions@.len() - j,
    {
        let ghost current = topics@;
        assert(entries(current) =~= Seq::new(
            listed.len(),
            |t: int| (current[t].name@, current[t].clients@),
        ));
        assert(names[j as int] == client.subscriptions@[j as int]@);
        match position(&topics, &client.subscriptions[j]) {
            Some(i) => {
                let kept = others(&topics[i].clients, key);
                proof {
                    if named_before(names, j as int, listed[i as int].0) {
                        let once = listed[i as int].1.filter(is_other_than(key));
                        assert forall|y: usize| once.contains(y) implies #[trigger] is_other_than(
                            key,
                        )(y) by {
                            lemma_filter_contains(listed[i as int].1, is_other_than(key), y);
                        }
                        lemma_filter_keeps_all(once, is_other_than(key));
                    }
                }
                topics[i].clients = kept;
                proof {
                    assert forall|t: int| 0 <= t < listed.len() implies (#[trigger] topics@[t]).name@
                        == listed[t].0 && topics@[t].clients@ == if named_before(
                        names,
                        j + 1,
                        listed[t].0,
                    ) {
                        listed[t].1.filter(is_other_than(key))
                    } else {
                        listed[t].1
                    } by {
                        assert(current[t].name@ == listed[t].0);
                        if t == i {
                            assert(names[j as int] == listed[t].0);
                        } else {
                            assert(topics@[t] == current[t]);
                            assert(listed[t].0 != listed[i as int].0);
                            if named_before(names, j + 1, listed[t].0) {
                                let k = choose|k: int| 0 <= k < j + 1 && names[k] == listed[t].0;
                                assert(k < j);
                            }
                        }
                    }
                }
            },
            None => {
                proof {
                    assert forall|t: int| 0 <= t < listed.len() implies named_before(
                        names,
                        j + 1,
                        listed[t].0,
                    ) == named_before(names, j as int, listed[t].0) by {
                        lemma_as_map_keys(entries(current), names[j as int]);
                        assert(entries(current)[t].0 == listed[t].0);
                        if named_before(names, j + 1, listed[t].0) {
                            let k = choose|k: int| 0 <= k < j + 1 && names[k] == listed[t].0;
                            assert(k < j);
                        }
                    }
                }
            },
        }
        j += 1;
    }
    proof {
        let struck = with_values(listed, without(key));
        lemma_as_map_with_values(listed, without(key));
        assert(entries(topics@) =~= struck) by {
            assert forall|t: int| 0 <= t < listed.len() implies #[trigger] entries(topics@)[t]
                == struck[t] by {
                assert(topics@[t].name@ == listed[t].0);
                if !named_before(names, j as int, listed[t].0) {
                    lemma_as_map_entry(listed, t);
                    assert forall|y: usize| listed[t].1.contains(y) implies #[trigger] is_other_than(
                        key,
                    )(y) by {
                        if y == key {
                            assert(before.lists(listed[t].0, key));
                            let k = choose|k: int|
                                0 <= k < names.len() && names[k] == listed[t].0;
                            assert(named_before(names, j as int, listed[t].0));
                        }
                    }
                    lemma_filter_keeps_all(listed[t].1, is_other_than(key));
                }
            }
        }
        let after = model(slab_clients(clients), topics@);
        assert(after.clients =~= before.clients.remove(key));
        assert(after.topics =~= before.topics.map_values(without(key)));
        assert forall|name: Seq<char>, other: usize| #[trigger] after.lists(name, other) implies {
            other != key && after.clients.contains_key(other) && after.clients[other].contains(
                name,
            )
        } by {
            lemma_filter_contains(before.topics[name], is_other_than(key), other);
            assert(before.lists(name, other));
        }
    }
    assert(entries(manager.topics@) =~= Seq::empty());
    manager.clients = clients;
    manager.topics = topics;
}

/// Creating a topic twice is creating it once, and the topic is there
/// afterwards with the subscribers it had.
pub proof fn lemma_create_is_idempotent(view: ManagerView, name: Seq<char>)
    ensures
        view.created(name).topics.contains_key(name),
        view.topics.contains_key(name) ==> view.created(name) == view,
        view.created(name).created(name) == view.created(name),
{
}

/// A subscribe or a publish that names a topic which does not exist changes
/// nothing and enqueues the failure alone, for the requester.
pub proof fn lemma_unknown_topic_changes_nothing(
    view: ManagerView,
    name: Seq<char>,
    key: usize,
    payload: Seq<u8>,
)
    requires
        !view.topics.contains_key(name),
    ensures
        view.subscribed(name, key) == view,
        view.subscribe_answer(name, key) == ManagerView::answer(
            key,
            OutcomingView::Failure(Error::UnknownTopic),
        ),
        view.published(name, key, payload) == ManagerView::answer(
            key,
            OutcomingView::Failure(Error::UnknownTopic),
        ),
{
}

/// A publish addresses connected clients only: one message per
/// subscription of the topic, then the answer to the publisher.
pub proof fn lemma_published_reaches_the_connected(
    view: ManagerView,
    name: Seq<char>,
    key: usize,
    payload: Seq<u8>,
)
    requires
        view.wf(),
        view.clients.contains_key(key),
    ensures
        forall|i: int|
            0 <= i < view.published(name, key, payload).len() ==> view.clients.contains_key(
                (#[trigger] view.published(name, key, payload)[i]).client,
            ),
        view.topics.contains_key(name) ==> view.published(name, key, payload).len()
            == view.topics[name].len() + 1,
{
    let sent = view.published(name, key, payload);
    assert forall|i: int| 0 <= i < sent.len() implies view.clients.contains_key(
        (#[trigger] sent[i]).client,
    ) by {
        if view.topics.contains_key(name) && i < view.topics[name].len() {
            assert(view.topics[name][i] == sent[i].client);
            assert(view.lists(name, sent[i].client));
        }
    }
}

/// Disconnect cleanup: once a client has gone it is connected no longer,
/// no topic lists it, and every topic lists every other client as before.
pub proof fn lemma_disconnected_is_gone(view: ManagerView, key: usize)
    requires
        view.wf(),
    ensures
        view.disconnected(key).wf(),
        !view.disconnected(key).clients.contains_key(key),
        view.disconnected(key).topics.dom() == view.topics.dom(),
        forall|name: Seq<char>| !view.disconnected(key).lists(name, key),
        forall|name: Seq<char>, other: usize|
            other != key ==> #[trigger] view.disconnected(key).lists(name, other) == view.lists(
                name,
                other,
            ),
{
    let after = view.disconnected(key);
    assert(after.topics.dom() =~= view.topics.dom());
    assert forall|name: Seq<char>, other: usize| #[trigger] after.lists(name, other) == (other
        != key && view.lists(name, other)) by {
        if view.topics.contains_key(name) {
            lemma_filter_contains(view.topics[name], is_other_than(key), other);
        }
    }
    assert forall|name: Seq<char>, other: usize| #[trigger] after.lists(name, other) implies {
        after.clients.contains_key(other) && after.clients[other].contains(name)
    } by {
        assert(view.lists(name, other));
    }
}

} // verus!
