//! The registry: which topics exist and who is subscribed to each.

use vstd::prelude::*;
use crate::peer::PeerId;
use crate::protocol::CorrelationId;
use crate::sequences::remove_first_match;
use crate::directory::{
    as_map, distinct_keys, lemma_as_map_entry, lemma_as_map_keys, lemma_as_map_push,
    lemma_as_map_size, lemma_as_map_update,
};
use crate::topic::{is_entry_of, Subscriber, Topic, TopicView};

verus! {

/// The mathematical content of the registry: each topic name with the
/// subscriptions of that topic, in their order.
pub type Registry = Map<Seq<u8>, Seq<Subscriber>>;

/// `registry` after `create(name)`: an existing topic keeps its
/// subscriptions, a new one starts with none.
pub open spec fn created(registry: Registry, name: Seq<u8>) -> Registry {
    if registry.contains_key(name) {
        registry
    } else {
        registry.insert(name, Seq::empty())
    }
}

/// `registry` after `peer` subscribed to the existing topic `name` with
/// `correlation`.
pub open spec fn subscribed(
    registry: Registry,
    name: Seq<u8>,
    peer: PeerId,
    correlation: CorrelationId,
) -> Registry
    recommends
        registry.contains_key(name),
{
    registry.insert(name, registry[name].push(Subscriber { peer, correlation }))
}

/// `registry` after the earliest subscription of `peer` to the existing
/// topic `name` was removed.
pub open spec fn unsubscribed(registry: Registry, name: Seq<u8>, peer: PeerId) -> Registry
    recommends
        registry.contains_key(name),
{
    registry.insert(name, remove_first_match(registry[name], is_entry_of(peer)))
}

/// The topics of a list as entries: name and subscriptions.
spec fn entries(topics: Seq<Topic>) -> Seq<(Seq<u8>, Seq<Subscriber>)> {
    Seq::new(topics.len(), |i: int| (topics[i]@.name, topics[i]@.subscribers))
}

/// The registry of topics. No two topics share a name.
pub struct State {
    topics: Vec<Topic>,
}

impl View for State {
    type V = Registry;

    closed spec fn view(&self) -> Registry {
        as_map(entries(self.topics@))
    }
}

impl Default for State {
    /// An empty registry.
    fn default() -> (state: State)
        ensures
            state@ =~= Map::empty(),
    {
        State::new()
    }
}

impl State {
    #[verifier::type_invariant]
    spec fn well_formed(&self) -> bool {
        distinct_keys(entries(self.topics@))
    }

    /// An empty registry.
    pub fn new() -> (state: State)
        ensures
            state@ =~= Map::empty(),
    {
        let state = State { topics: Vec::new() };
        assert(entries(state.topics@) =~= Seq::empty());
        state
    }

    /// Moves the list of topics out, to be changed and put back.
    fn take_topics(&mut self) -> (topics: Vec<Topic>)
        ensures
            topics == old(self).topics,
    {
        let mut topics: Vec<Topic> = Vec::new();
        assert(entries(topics@) =~= Seq::empty());
        core::mem::swap(&mut self.topics, &mut topics);
        topics
    }

    /// Where the topic `name` stands in the list, if it exists.
    fn position(&self, name: &Vec<u8>) -> (found: Option<usize>)
        ensures
            match found {
                Some(i) => i < self.topics@.len() && self.topics@[i as int]@.name == name@,
                None => !self@.contains_key(name@),
            },
            found is Some <==> self@.contains_key(name@),
    {
        let mut i: usize = 0;
        while i < self.topics.len()
            invariant
                i <= self.topics@.len(),
                forall|j: int| 0 <= j < i ==> (#[trigger] self.topics@[j])@.name != name@,
            decreases self.topics@.len() - i,
        {
            if *self.topics[i].name() == *name {
                assert(self.topics@[i as int]@.name =~= name@);
                assert(entries(self.topics@)[i as int].0 == name@);
                proof {
                    lemma_as_map_keys(entries(self.topics@), name@);
                }
                return Some(i);
            }
            i += 1;
        }
        proof {
            assert forall|i: int| 0 <= i < entries(self.topics@).len() implies (#[trigger] entries(
                self.topics@,
            )[i]).0 != name@ by {
                assert(self.topics@[i]@.name != name@);
            }
            lemma_as_map_keys(entries(self.topics@), name@);
        }
        None
    }

    /// The number of topics.
    pub fn len(&self) -> (count: usize)
        ensures
            self@.dom().finite(),
            count == self@.dom().len(),
    {
        proof {
            use_type_invariant(self);
            lemma_as_map_size(entries(self.topics@));
        }
        self.topics.len()
    }

    /// Whether the topic `name` exists.
    pub fn contains(&self, name: &Vec<u8>) -> (found: bool)
        ensures
            found == self@.contains_key(name@),
    {
        self.position(name).is_some()
    }

    /// Makes sure the topic `name` exists: creates it with no subscriber
    /// unless it is there already, in which case nothing changes. Returns
    /// whether it was created.
    pub fn create(&mut self, name: Vec<u8>) -> (fresh: bool)
        ensures
            fresh == !old(self)@.contains_key(name@),
            final(self)@ == created(old(self)@, name@),
            final(self)@.contains_key(name@),
    {
        proof {
            use_type_invariant(&*self);
        }
        match self.position(&name) {
            Some(_) => false,
            None => {
                let ghost before = entries(self.topics@);
                let mut topics = self.take_topics();
                topics.push(Topic::new(name));
                proof {
                    lemma_as_map_push(before, name@, Seq::empty());
                    assert(entries(topics@) =~= before.push((name@, Seq::empty())));
                }
                self.topics = topics;
                true
            },
        }
    }

    /// The topic `name`, if it exists.
    pub fn get(&self, name: &Vec<u8>) -> (found: Option<&Topic>)
        ensures
            match found {
                Some(topic) => self@.contains_key(name@) && topic@ == (TopicView {
                    name: name@,
                    subscribers: self@[name@],
                }),
                None => !self@.contains_key(name@),
            },
    {
        proof {
            use_type_invariant(self);
        }
        match self.position(name) {
            Some(i) => {
                proof {
                    lemma_as_map_entry(entries(self.topics@), i as int);
                }
                Some(&self.topics[i])
            },
            None => None,
        }
    }

    /// Appends a subscription of `peer` to the topic `name`. Returns `false`,
    /// and changes nothing, when no such topic exists.
    pub fn subscribe(&mut self, name: &Vec<u8>, peer: PeerId, correlation: CorrelationId) -> (known:
        bool)
        ensures
            known == old(self)@.contains_key(name@),
            known ==> final(self)@ == subscribed(old(self)@, name@, peer, correlation),
            !known ==> final(self)@ == old(self)@,
    {
        proof {
            use_type_invariant(&*self);
        }
        match self.position(name) {
            Some(i) => {
                let ghost before = entries(self.topics@);
                let ghost joined = before[i as int].1.push(Subscriber { peer, correlation });
                let mut topics = self.take_topics();
                topics[i].subscribe(peer, correlation);
                proof {
                    lemma_as_map_entry(before, i as int);
                    lemma_as_map_update(before, i as int, joined);
                    assert(entries(topics@) =~= before.update(i as int, (before[i as int].0, joined)));
                }
                self.topics = topics;
                true
            },
            None => false,
        }
    }

    /// Removes the earliest subscription of `peer` from the topic `name`.
    /// Returns `false`, and changes nothing, when no such topic exists.
    pub fn unsubscribe(&mut self, name: &Vec<u8>, peer: PeerId) -> (known: bool)
        ensures
            known == old(self)@.contains_key(name@),
            known ==> final(self)@ == unsubscribed(old(self)@, name@, peer),
            !known ==> final(self)@ == old(self)@,
    {
        proof {
            use_type_invariant(&*self);
        }
        match self.position(name) {
            Some(i) => {
                let ghost before = entries(self.topics@);
                let ghost remaining = remove_first_match(before[i as int].1, is_entry_of(peer));
                let mut topics = self.take_topics();
                topics[i].unsubscribe(peer);
                proof {
                    lemma_as_map_entry(before, i as int);
                    lemma_as_map_update(before, i as int, remaining);
                    assert(entries(topics@) =~= before.update(
                        i as int,
                        (before[i as int].0, remaining),
                    ));
                }
                self.topics = topics;
                true
            },
            None => false,
        }
    }
}

} // verus!
