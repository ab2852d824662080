use vstd::prelude::*;
use super::{Message, Observer, Response};
use crate::collections::{CrossJoinMap, keyed, map_of, has_first, lemma_map_of_index, lemma_map_of_push, lemma_map_of_remove};
use crate::common::ID;
use std::rc::Rc;

verus! {

/// The answers among `answers` that were given, in order.
pub open spec fn responses_given(answers: Seq<Option<Response>>) -> Seq<Response>
    decreases answers.len(),
{
    if answers.len() == 0 {
        Seq::empty()
    } else {
        let rest = responses_given(answers.drop_last());
        match answers.last() {
            Some(r) => rest.push(r),
            None => rest,
        }
    }
}

/// At most one response per answer is given.
proof fn lemma_responses_given_len(answers: Seq<Option<Response>>)
    ensures
        responses_given(answers).len() <= answers.len(),
    decreases answers.len(),
{
    if answers.len() > 0 {
        lemma_responses_given_len(answers.drop_last());
    }
}

/// The owner of every observer: it gives each an identifier, in order, and passes each message
/// to the observers subscribed to its kind.
#[derive(Debug)]
pub struct Handler<O: Observer> {
    id_observers: Vec<(ID, Rc<O>)>,
    message_observers: CrossJoinMap<ID, ID>,
    id: ID,
}

impl<O: Observer> Handler<O> {
    /// Each observer has one identifier, given before the next one.
    #[verifier::type_invariant]
    closed spec fn inv(self) -> bool {
        &&& keyed(self.id_observers@)
        &&& forall|i: int| 0 <= i < self.id_observers@.len() ==> (#[trigger] self.id_observers@[i]).0 < self.id
    }

    /// The registered observers, by identifier.
    pub closed spec fn observers(&self) -> Map<ID, Rc<O>> {
        map_of(self.id_observers@)
    }

    /// The subscriptions: pairs of a message kind and an observer.
    pub closed spec fn subscriptions(&self) -> Set<(ID, ID)> {
        self.message_observers.pairs()
    }

    /// The message kinds that have been subscribed to.
    pub closed spec fn kinds_known(&self) -> Set<ID> {
        self.message_observers.firsts()
    }

    /// The observers that have subscribed and not been deregistered since.
    pub closed spec fn subscribers_known(&self) -> Set<ID> {
        self.message_observers.seconds()
    }

    /// The observers subscribed to messages of kind `kind`.
    pub open spec fn subscribers(&self, kind: ID) -> Set<ID> {
        Set::new(|o: ID| self.subscriptions().contains((kind, o)))
    }

    /// The identifier the next observer gets.
    pub closed spec fn next_id(&self) -> ID {
        self.id
    }

    /// Creates a handler without observers.
    pub fn new() -> (handler: Self)
        ensures
            handler.observers() == Map::<ID, Rc<O>>::empty(),
            handler.subscriptions() == Set::<(ID, ID)>::empty(),
            handler.kinds_known() == Set::<ID>::empty(),
            handler.subscribers_known() == Set::<ID>::empty(),
            handler.next_id() == 0,
    {
        let handler = Self { id_observers: Vec::new(), message_observers: CrossJoinMap::new(), id: 0 };
        assert(handler.observers() =~= Map::<ID, Rc<O>>::empty());
        handler
    }

    /// Registers `observer` under the next identifier, which it is told (through
    /// `set_observer_id`) and which is returned.
    pub fn register(&mut self, observer: Rc<O>) -> (observer_id: ID)
        requires
            old(self).next_id() < usize::MAX,
        ensures
            observer_id == old(self).next_id(),
            final(self).next_id() == old(self).next_id() + 1,
            final(self).observers() == old(self).observers().insert(observer_id, observer),
            final(self).subscriptions() == old(self).subscriptions(),
            final(self).kinds_known() == old(self).kinds_known(),
            final(self).subscribers_known() == old(self).subscribers_known(),
            exists|told: bool| #[trigger] call_ensures(O::set_observer_id, (&*observer, observer_id), told),
    {
        proof {
            use_type_invariant(&*self);
        }
        let observer_id: ID = self.id;

        let told: bool = observer.set_observer_id(observer_id);
        proof {
            if has_first(self.id_observers@, observer_id) {
                let i = choose|i: int| 0 <= i < self.id_observers@.len() && (#[trigger] self.id_observers@[i]).0 == observer_id;
                assert(self.id_observers@[i].0 < self.id);
            }
            lemma_map_of_push(self.id_observers@, (observer_id, observer));
        }
        let mut handler: Self = Self::new();
        std::mem::swap(&mut handler, self);
        let Self { mut id_observers, message_observers, id } = handler;
        id_observers.push((observer_id, observer));
        *self = Self { id_observers, message_observers, id: id + 1 };

        observer_id
    }

    /// Deregisters the observer `observer_id` and ends its subscriptions; says whether it was
    /// registered. An observer that has subscribed must still hold a subscription.
    pub fn deregister(&mut self, observer_id: &ID) -> (is_deregistered: bool)
        requires
            old(self).subscribers_known().contains(*observer_id)
                ==> exists|kind: ID| old(self).subscriptions().contains((kind, *observer_id)),
        ensures
            is_deregistered == old(self).observers().contains_key(*observer_id),
            final(self).next_id() == old(self).next_id(),
            final(self).observers() == old(self).observers().remove(*observer_id),
            final(self).subscriptions() == old(self).subscriptions().filter(|p: (ID, ID)| p.1 != *observer_id),
            final(self).kinds_known() == old(self).kinds_known(),
            final(self).subscribers_known() == old(self).subscribers_known().remove(*observer_id),
    {
        proof {
            use_type_invariant(&*self);
        }
        let mut handler: Self = Self::new();
        std::mem::swap(&mut handler, self);
        let Self { mut id_observers, mut message_observers, id } = handler;

        message_observers.remove_second(observer_id);

        let mut i: usize = 0;
        while i < id_observers.len()
            invariant
                i <= id_observers@.len(),
                forall|j: int| 0 <= j < i ==> id_observers@[j].0 != *observer_id,
            ensures
                i <= id_observers@.len(),
                forall|j: int| 0 <= j < i ==> id_observers@[j].0 != *observer_id,
                i < id_observers@.len() ==> id_observers@[i as int].0 == *observer_id,
            decreases id_observers@.len() - i,
        {
            if id_observers[i].0 == *observer_id {
                break;
            }
            i += 1;
        }

        if i < id_observers.len() {
            proof {
                lemma_map_of_index(id_observers@, i as int);
                lemma_map_of_remove(id_observers@, i as int);
            }
            let ghost before: Seq<(ID, Rc<O>)> = id_observers@;
            id_observers.remove(i);
            proof {
                assert forall|k: int| 0 <= k < id_observers@.len() implies (#[trigger] id_observers@[k]).0 < id by {
                    let ks = if k < i { k } else { k + 1 };
                    assert(id_observers@[k] == before[ks]);
                }
            }
            *self = Self { id_observers, message_observers, id };

            true
        } else {
            proof {
                assert(!has_first(id_observers@, *observer_id));
                assert(map_of(id_observers@).remove(*observer_id) =~= map_of(id_observers@));
            }
            *self = Self { id_observers, message_observers, id };

            false
        }
    }

    /// Subscribes the observer `observer_id` to messages of kind `message_id`; says whether it
    /// was not subscribed yet.
    pub fn subscribe(&mut self, observer_id: ID, message_id: ID) -> (is_subscribed: bool)
        ensures
            is_subscribed == !old(self).subscriptions().contains((message_id, observer_id)),
            final(self).next_id() == old(self).next_id(),
            final(self).observers() == old(self).observers(),
            final(self).subscriptions() == old(self).subscriptions().insert((message_id, observer_id)),
            final(self).kinds_known() == old(self).kinds_known().insert(message_id),
            final(self).subscribers_known() == old(self).subscribers_known().insert(observer_id),
    {
        proof {
            use_type_invariant(&*self);
        }
        let mut handler: Self = Self::new();
        std::mem::swap(&mut handler, self);
        let Self { id_observers, mut message_observers, id } = handler;
        let is_subscribed: bool = message_observers.insert((message_id, observer_id));
        *self = Self { id_observers, message_observers, id };

        is_subscribed
    }

    /// Ends the subscription of the observer `observer_id` to messages of kind `message_id`;
    /// says whether there was one.
    pub fn unsubscribe(&mut self, observer_id: &ID, message_id: &ID) -> (is_unsubscribed: bool)
        ensures
            is_unsubscribed == old(self).subscriptions().contains((*message_id, *observer_id)),
            final(self).next_id() == old(self).next_id(),
            final(self).observers() == old(self).observers(),
            final(self).subscriptions() == old(self).subscriptions().remove((*message_id, *observer_id)),
            final(self).kinds_known() == old(self).kinds_known(),
            final(self).subscribers_known() == old(self).subscribers_known(),
    {
        proof {
            use_type_invariant(&*self);
        }
        let mut handler: Self = Self::new();
        std::mem::swap(&mut handler, self);
        let Self { id_observers, mut message_observers, id } = handler;
        let is_unsubscribed: bool = message_observers.remove(message_id, observer_id);
        *self = Self { id_observers, message_observers, id };

        is_unsubscribed
    }

    /// The registered observer `observer_id`.
    fn get_observer(&self, observer_id: &ID) -> (observer: &Rc<O>)
        requires
            self.observers().contains_key(*observer_id),
        ensures
            *observer == self.observers()[*observer_id],
    {
        proof {
            use_type_invariant(self);
        }
        let mut i: usize = 0;

        while i < self.id_observers.len()
            invariant
                i <= self.id_observers@.len(),
                forall|j: int| 0 <= j < i ==> self.id_observers@[j].0 != *observer_id,
                has_first(self.id_observers@, *observer_id),
                keyed(self.id_observers@),
            decreases self.id_observers@.len() - i,
        {
            if self.id_observers[i].0 == *observer_id {
                proof {
                    lemma_map_of_index(self.id_observers@, i as int);
                }
                return &self.id_observers[i].1;
            }
            i += 1;
        }
        proof {
            let k = choose|k: int| 0 <= k < self.id_observers@.len() && (#[trigger] self.id_observers@[k]).0 == *observer_id;
            assert(self.id_observers@[k].0 != *observer_id);
        }
        &self.id_observers[0].1
    }

    /// Whether `answers` are what the observers of `subs`, which are the subscribers to the kind
    /// of `message` each once, answered when asked `message`, in that order.
    pub open spec fn answered(&self, message: Message, subs: Seq<ID>, answers: Seq<Option<Response>>) -> bool {
        &&& subs.no_duplicates()
        &&& subs.to_set() == self.subscribers(message.kind())
        &&& answers.len() == subs.len()
        &&& forall|i: int| 0 <= i < subs.len()
            ==> call_ensures(O::respond, (&*self.observers()[subs[i]], message), #[trigger] answers[i])
    }

    /// Passes `message` to each observer subscribed to its kind, once, and gathers the answers
    /// given. Every subscriber must be registered.
    pub fn notify(&self, message: Message) -> (responses: Vec<Response>)
        requires
            forall|o: ID| #[trigger] self.subscriptions().contains((message.kind(), o)) ==> self.observers().contains_key(o),
        ensures
            exists|subs: Seq<ID>, answers: Seq<Option<Response>>| #[trigger] self.answered(message, subs, answers)
                && responses@ == responses_given(answers),
            responses@.len() <= self.subscribers(message.kind()).len(),
            !self.kinds_known().contains(message.kind()) ==> responses@.len() == 0,
    {
        let kind: ID = message.discriminant();

        match self.message_observers.get_first(&kind) {
            Some(c) => {
                let mut answers: Vec<Option<Response>> = Vec::new();
                let mut i: usize = 0;

                while i < c.len()
                    invariant
                        i <= c@.len(),
                        answers@.len() == i,
                        kind == message.kind(),
                        c@.to_set() == self.message_observers.collection_first(kind),
                        forall|o: ID| #[trigger] self.subscriptions().contains((message.kind(), o)) ==> self.observers().contains_key(o),
                        forall|j: int| 0 <= j < i
                            ==> call_ensures(O::respond, (&*self.observers()[c@[j]], message), #[trigger] answers@[j]),
                    decreases c@.len() - i,
                {
                    let observer_id: ID = c[i];
                    proof {
                        assert(c@.to_set().contains(c@[i as int]));
                        assert(self.subscriptions().contains((kind, observer_id)));
                    }
                    let observer: &Rc<O> = self.get_observer(&observer_id);
                    let answer: Option<Response> = observer.respond(message);
                    answers.push(answer);
                    i += 1;
                }

                proof {
                    c@.unique_seq_to_set();
                    assert(self.subscribers(kind) =~= self.message_observers.collection_first(kind));
                    lemma_responses_given_len(answers@);
                }
                let ghost given: Seq<Option<Response>> = answers@;
                let responses: Vec<Response> = Self::gather_responses(answers);
                proof {
                    assert(self.answered(message, c@, given));
                    assert(given.len() == self.subscribers(message.kind()).len() && responses@ == responses_given(given));
                }
                responses
            },
            None => {
                proof {
                    assert(self.subscribers(kind) =~= self.message_observers.collection_first(kind));
                    let none: Seq<Option<Response>> = Seq::empty();
                    let nobody: Seq<ID> = Seq::empty();
                    assert(responses_given(none) =~= Seq::<Response>::empty());
                    assert(nobody.to_set() =~= Set::<ID>::empty());
                    assert(self.answered(message, nobody, none));
                    assert(none.len() == self.subscribers(message.kind()).len());
                }
                Vec::new()
            },
        }
    }

    /// The answers that were given, in order.
    pub fn gather_responses(answers: Vec<Option<Response>>) -> (responses: Vec<Response>)
        ensures
            responses@ == responses_given(answers@),
    {
        let mut responses: Vec<Response> = Vec::new();
        let mut i: usize = 0;

        while i < answers.len()
            invariant
                i <= answers@.len(),
                responses@ == responses_given(answers@.take(i as int)),
            decreases answers@.len() - i,
        {
            proof {
                assert(answers@.take(i + 1).drop_last() =~= answers@.take(i as int));
            }
            match answers[i] {
                Some(r) => responses.push(r),
                None => {},
            }
            i += 1;
        }
        proof {
            assert(answers@.take(answers@.len() as int) =~= answers@);
        }

        responses
    }

    /// Gets the one response of `responses`, which must hold exactly one.
    pub fn reduce_responses(responses: &[Response]) -> (response: &Response)
        requires
            responses@.len() == 1,
        ensures
            *response == responses@[0],
    {
        &responses[0]
    }

    /// Gets whether `observer_id` is registered.
    pub fn contains_observer(&self, observer_id: &ID) -> (contains: bool)
        ensures
            contains == self.observers().contains_key(*observer_id),
    {
        proof {
            use_type_invariant(self);
        }
        let mut i: usize = 0;

        while i < self.id_observers.len()
            invariant
                i <= self.id_observers@.len(),
                forall|j: int| 0 <= j < i ==> self.id_observers@[j].0 != *observer_id,
            decreases self.id_observers@.len() - i,
        {
            if self.id_observers[i].0 == *observer_id {
                proof {
                    assert(has_first(self.id_observers@, *observer_id));
                }
                return true;
            }
            i += 1;
        }

        false
    }

    /// Gets the identifier the next observer gets.
    pub fn get_id(&self) -> (id: ID)
        ensures
            id == self.next_id(),
    {
        self.id
    }

    /// Gets the subscriptions, by message kind and observer.
    pub fn get_message_observers(&self) -> (message_observers: &CrossJoinMap<ID, ID>)
        ensures
            message_observers.pairs() == self.subscriptions(),
            message_observers.firsts() == self.kinds_known(),
            message_observers.seconds() == self.subscribers_known(),
    {
        &self.message_observers
    }
}

/// Unsubscribing from a subscription just made gives back the subscriptions.
pub proof fn law_subscribe_unsubscribe<O: Observer>(handler: Handler<O>, observer_id: ID, message_id: ID)
    requires
        !handler.subscriptions().contains((message_id, observer_id)),
    ensures
        handler.subscriptions().insert((message_id, observer_id)).remove((message_id, observer_id))
            == handler.subscriptions(),
{
    assert(handler.subscriptions().insert((message_id, observer_id)).remove((message_id, observer_id))
        =~= handler.subscriptions());
}

/// A subscriber is subscribed to the kinds it subscribed to, and deregistering removes it from
/// every kind's subscribers.
pub proof fn law_deregister_unsubscribes<O: Observer>(before: Handler<O>, after: Handler<O>, observer_id: ID, kind: ID)
    requires
        after.subscriptions() == before.subscriptions().filter(|p: (ID, ID)| p.1 != observer_id),
    ensures
        !after.subscribers(kind).contains(observer_id),
        forall|o: ID| o != observer_id ==> (#[trigger] after.subscribers(kind).contains(o) <==> before.subscribers(kind).contains(o)),
{
}

} // verus!
