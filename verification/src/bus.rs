use vstd::prelude::*;
use crate::dispatch::{first_failure, lemma_first_failure_all_ok};
use crate::error::BasuError;
use crate::event::Event;
use crate::handler::Handler;
use crate::registry::{HandlerId, HandlerMap, Registered};

verus! {

/// The abstract value of a bus: each known event-type name, as a sequence
/// of characters, mapped to the contents of its handler registry.
pub type BusView<T> = Map<Seq<char>, Map<HandlerId, Registered<T>>>;

/// The registry contents a bus associates with the event type `t`: empty
/// when `t` is unknown.
pub open spec fn registry_in<T>(m: BusView<T>, t: Seq<char>) -> Map<HandlerId, Registered<T>> {
    if m.contains_key(t) {
        m[t]
    } else {
        Map::empty()
    }
}

/// The bus after subscribing `handler` under the fresh key `id` to the event
/// type `t`: the type is known afterwards, and its registry gains one slot.
pub open spec fn with_subscription<T>(
    m: BusView<T>,
    t: Seq<char>,
    id: HandlerId,
    slot: Registered<T>,
) -> BusView<T> {
    m.insert(t, registry_in(m, t).insert(id, slot))
}

/// The bus after unsubscribing the key `id` from the event type `t`: the
/// slot under `id`, if any, leaves the registry of `t`; an unknown `t`
/// leaves the bus unchanged (the operation fails instead).
pub open spec fn without_subscription<T>(m: BusView<T>, t: Seq<char>, id: HandlerId) -> BusView<
    T,
> {
    if m.contains_key(t) {
        m.insert(t, m[t].remove(id))
    } else {
        m
    }
}

/// The mathematical content of the event-type table: each stored name, as a
/// sequence of characters, mapped to the contents of its registry, later
/// pairs winning.
pub open spec fn table_map<T>(s: Seq<(String, HandlerMap<T>)>) -> BusView<T>
    decreases s.len(),
{
    if s.len() == 0 {
        Map::empty()
    } else {
        table_map(s.drop_last()).insert(s.last().0@, s.last().1@)
    }
}

/// No two pairs of the table share a name.
pub open spec fn unique_names<T>(s: Seq<(String, HandlerMap<T>)>) -> bool {
    forall|i: int, j: int| 0 <= i < j < s.len() ==> s[i].0@ != s[j].0@
}

proof fn lemma_unique_names_drop_last<T>(s: Seq<(String, HandlerMap<T>)>)
    requires
        unique_names(s),
        s.len() > 0,
    ensures
        unique_names(s.drop_last()),
        forall|a: int| 0 <= a < s.len() - 1 ==> #[trigger] s.drop_last()[a] == s[a],
        forall|a: int| 0 <= a < s.len() - 1 ==> s[a].0@ != s.last().0@,
{
    assert(forall|a: int| 0 <= a < s.len() - 1 ==> #[trigger] s.drop_last()[a] == s[a]);
}

proof fn lemma_table_map_contains<T>(s: Seq<(String, HandlerMap<T>)>, t: Seq<char>)
    ensures
        table_map(s).contains_key(t) <==> exists|i: int| 0 <= i < s.len() && s[i].0@ == t,
    decreases s.len(),
{
    if s.len() > 0 {
        lemma_table_map_contains(s.drop_last(), t);
        assert(forall|a: int| 0 <= a < s.len() - 1 ==> #[trigger] s.drop_last()[a] == s[a]);
        if s.last().0@ == t {
            assert(s[s.len() - 1].0@ == t);
        } else if exists|i: int| 0 <= i < s.len() && s[i].0@ == t {
            let i = choose|i: int| 0 <= i < s.len() && s[i].0@ == t;
            assert(s.drop_last()[i] == s[i]);
        }
    }
}

proof fn lemma_table_map_finite<T>(s: Seq<(String, HandlerMap<T>)>)
    ensures
        table_map(s).dom().finite(),
    decreases s.len(),
{
    if s.len() > 0 {
        lemma_table_map_finite(s.drop_last());
    }
}

proof fn lemma_table_map_len<T>(s: Seq<(String, HandlerMap<T>)>)
    requires
        unique_names(s),
    ensures
        table_map(s).dom().finite(),
        table_map(s).len() == s.len(),
    decreases s.len(),
{
    lemma_table_map_finite(s);
    if s.len() > 0 {
        lemma_unique_names_drop_last(s);
        lemma_table_map_len(s.drop_last());
        lemma_table_map_contains(s.drop_last(), s.last().0@);
    }
}

proof fn lemma_table_map_index<T>(s: Seq<(String, HandlerMap<T>)>, i: int)
    requires
        unique_names(s),
        0 <= i < s.len(),
    ensures
        table_map(s).contains_key(s[i].0@),
        table_map(s)[s[i].0@] == s[i].1@,
    decreases s.len(),
{
    if i == s.len() - 1 {
    } else {
        lemma_unique_names_drop_last(s);
        assert(s.drop_last()[i] == s[i]);
        lemma_table_map_index(s.drop_last(), i);
        assert(s[i].0@ != s.last().0@);
    }
}

proof fn lemma_table_map_push<T>(s: Seq<(String, HandlerMap<T>)>, p: (String, HandlerMap<T>))
    ensures
        table_map(s.push(p)) == table_map(s).insert(p.0@, p.1@),
{
    assert(s.push(p).drop_last() =~= s);
    assert(s.push(p).last() == p);
}

proof fn lemma_table_map_remove_at<T>(s: Seq<(String, HandlerMap<T>)>, i: int)
    requires
        unique_names(s),
        0 <= i < s.len(),
    ensures
        table_map(s.remove(i)) == table_map(s).remove(s[i].0@),
    decreases s.len(),
{
    lemma_unique_names_drop_last(s);
    if i == s.len() - 1 {
        assert(s.remove(i) =~= s.drop_last());
        lemma_table_map_contains(s.drop_last(), s[i].0@);
        assert(table_map(s).remove(s[i].0@) =~= table_map(s.drop_last()));
    } else {
        lemma_table_map_remove_at(s.drop_last(), i);
        assert(s.remove(i).drop_last() =~= s.drop_last().remove(i));
        assert(s.remove(i).last() == s.last());
        assert(s.drop_last()[i] == s[i]);
        assert(s[i].0@ != s.last().0@);
        assert(table_map(s.remove(i)) == table_map(s.drop_last().remove(i)).insert(
            s.last().0@,
            s.last().1@,
        ));
        assert(table_map(s.drop_last().remove(i)) == table_map(s.drop_last()).remove(s[i].0@));
        assert(table_map(s.drop_last()).remove(s[i].0@).insert(s.last().0@, s.last().1@)
            =~= table_map(s).remove(s[i].0@));
    }
}

proof fn lemma_unique_names_push<T>(s: Seq<(String, HandlerMap<T>)>, p: (String, HandlerMap<T>))
    requires
        unique_names(s),
        forall|j: int| 0 <= j < s.len() ==> s[j].0@ != p.0@,
    ensures
        unique_names(s.push(p)),
{
    let s1 = s.push(p);
    assert(forall|j: int| 0 <= j < s.len() ==> s1[j] == s[j]);
    assert(s1[s.len() as int] == p);
    assert forall|a: int, b: int| 0 <= a < b < s1.len() implies s1[a].0@ != s1[b].0@ by {
        if b < s.len() {
            assert(s1[a] == s[a] && s1[b] == s[b]);
        } else {
            assert(s1[b] == p && s1[a] == s[a]);
        }
    }
}

proof fn lemma_unique_names_remove<T>(s: Seq<(String, HandlerMap<T>)>, k: int)
    requires
        unique_names(s),
        0 <= k < s.len(),
    ensures
        unique_names(s.remove(k)),
        forall|j: int| 0 <= j < s.len() - 1 ==> #[trigger] s.remove(k)[j].0@ != s[k].0@,
{
    let s1 = s.remove(k);
    assert(forall|a: int|
        0 <= a < s1.len() ==> #[trigger] s1[a] == (if a < k {
            s[a]
        } else {
            s[a + 1]
        }));
    assert forall|a: int, b: int| 0 <= a < b < s1.len() implies s1[a].0@ != s1[b].0@ by {
        let a0 = if a < k { a } else { a + 1 };
        let b0 = if b < k { b } else { b + 1 };
        assert(s1[a] == s[a0]);
        assert(s1[b] == s[b0]);
    }
    assert forall|j: int| 0 <= j < s.len() - 1 implies #[trigger] s1[j].0@ != s[k].0@ by {
        let j0 = if j < k { j } else { j + 1 };
        assert(s1[j] == s[j0]);
    }
}

proof fn lemma_subscribe_existing<T>(
    s0: Seq<(String, HandlerMap<T>)>,
    i: int,
    p: (String, HandlerMap<T>),
    id: HandlerId,
    slot: Registered<T>,
)
    requires
        unique_names(s0),
        0 <= i < s0.len(),
        p.0 == s0[i].0,
        p.1@ == s0[i].1@.insert(id, slot),
        !s0[i].1@.contains_key(id),
        s0[i].1@.dom().finite(),
    ensures
        unique_names(s0.remove(i).push(p)),
        table_map(s0.remove(i).push(p)) == with_subscription(table_map(s0), s0[i].0@, id, slot),
        table_map(s0.remove(i).push(p)).dom() == table_map(s0).dom().insert(s0[i].0@),
        table_map(s0.remove(i).push(p)).contains_key(s0[i].0@),
        table_map(s0)[s0[i].0@] == s0[i].1@,
        table_map(s0.remove(i).push(p))[s0[i].0@].len() == s0[i].1@.len() + 1,
        table_map(s0.remove(i).push(p))[s0[i].0@].contains_key(id),
        forall|other: HandlerId|
            s0[i].1@.contains_key(other) ==> table_map(s0.remove(i).push(p))[s0[i].0@].contains_key(
                other,
            ) && other != id,
{
    let t = s0[i].0@;
    lemma_unique_names_remove(s0, i);
    lemma_unique_names_push(s0.remove(i), p);
    lemma_table_map_remove_at(s0, i);
    lemma_table_map_push(s0.remove(i), p);
    lemma_table_map_index(s0, i);
    assert(table_map(s0.remove(i).push(p)) == table_map(s0).remove(t).insert(t, p.1@));
    assert(table_map(s0).remove(t).insert(t, p.1@) =~= table_map(s0).insert(t, p.1@));
    assert(registry_in(table_map(s0), t) == s0[i].1@);
    assert(table_map(s0).insert(t, p.1@).dom() =~= table_map(s0).dom().insert(t));
}

proof fn lemma_subscribe_new<T>(
    s0: Seq<(String, HandlerMap<T>)>,
    p: (String, HandlerMap<T>),
    id: HandlerId,
    slot: Registered<T>,
)
    requires
        unique_names(s0),
        forall|j: int| 0 <= j < s0.len() ==> s0[j].0@ != p.0@,
        p.1@ == Map::<HandlerId, Registered<T>>::empty().insert(id, slot),
    ensures
        unique_names(s0.push(p)),
        !table_map(s0).contains_key(p.0@),
        !registry_in(table_map(s0), p.0@).contains_key(id),
        table_map(s0.push(p)) == with_subscription(table_map(s0), p.0@, id, slot),
        table_map(s0.push(p)).dom() == table_map(s0).dom().insert(p.0@),
        table_map(s0.push(p)).contains_key(p.0@),
        registry_in(table_map(s0), p.0@).len() == 0,
        table_map(s0.push(p))[p.0@].len() == 1,
        table_map(s0.push(p))[p.0@].contains_key(id),
{
    lemma_unique_names_push(s0, p);
    lemma_table_map_push(s0, p);
    lemma_table_map_contains(s0, p.0@);
    assert(!table_map(s0).contains_key(p.0@));
    assert(registry_in(table_map(s0), p.0@) == Map::<HandlerId, Registered<T>>::empty());
    assert(table_map(s0).insert(p.0@, p.1@).dom() =~= table_map(s0).dom().insert(p.0@));
    assert(p.1@.dom() =~= Set::<HandlerId>::empty().insert(id));
    vstd::set_lib::lemma_set_insert_finite_iff(Set::<HandlerId>::empty(), id);
    assert(p.1@.len() == 1);
}

proof fn lemma_unsubscribe_at<T>(
    s0: Seq<(String, HandlerMap<T>)>,
    i: int,
    p: (String, HandlerMap<T>),
    id: HandlerId,
)
    requires
        unique_names(s0),
        0 <= i < s0.len(),
        p.0 == s0[i].0,
        p.1@ == s0[i].1@.remove(id),
        s0[i].1@.dom().finite(),
    ensures
        unique_names(s0.remove(i).push(p)),
        table_map(s0).contains_key(s0[i].0@),
        table_map(s0.remove(i).push(p)) == without_subscription(table_map(s0), s0[i].0@, id),
        table_map(s0.remove(i).push(p)).dom() == table_map(s0).dom(),
        table_map(s0)[s0[i].0@] == s0[i].1@,
        s0[i].1@.contains_key(id) ==> table_map(s0.remove(i).push(p))[s0[i].0@].len() == s0[i].1@.len() - 1,
        !table_map(s0.remove(i).push(p))[s0[i].0@].contains_key(id),
        !s0[i].1@.contains_key(id) ==> table_map(s0.remove(i).push(p)) == table_map(s0),
{
    let t = s0[i].0@;
    lemma_unique_names_remove(s0, i);
    lemma_unique_names_push(s0.remove(i), p);
    lemma_table_map_remove_at(s0, i);
    lemma_table_map_push(s0.remove(i), p);
    lemma_table_map_index(s0, i);
    assert(table_map(s0.remove(i).push(p)) == table_map(s0).remove(t).insert(t, p.1@));
    assert(table_map(s0).remove(t).insert(t, p.1@) =~= table_map(s0).insert(t, p.1@));
    assert(table_map(s0).insert(t, p.1@).dom() =~= table_map(s0).dom());
    if !s0[i].1@.contains_key(id) {
        assert(p.1@ =~= s0[i].1@);
        assert(table_map(s0).insert(t, p.1@) =~= table_map(s0));
    }
}

proof fn lemma_list_names<T>(s0: Seq<(String, HandlerMap<T>)>, names: Seq<String>)
    requires
        unique_names(s0),
        names.len() == s0.len(),
        forall|i: int| 0 <= i < s0.len() ==> names[i] == s0[i].0,
    ensures
        forall|i: int, j: int| 0 <= i < j < names.len() ==> names[i]@ != names[j]@,
        names.map_values(|x: String| x@).to_set() == table_map(s0).dom(),
        names.len() == table_map(s0).dom().len(),
{
    lemma_table_map_len(s0);
    let views = names.map_values(|x: String| x@);
    assert(forall|i: int| 0 <= i < names.len() ==> views[i] == s0[i].0@);
    assert forall|t: Seq<char>| views.to_set().contains(t) == table_map(s0).contains_key(t) by {
        lemma_table_map_contains(s0, t);
        if views.to_set().contains(t) {
            let i = choose|i: int| 0 <= i < views.len() && views[i] == t;
            assert(s0[i].0@ == t);
        }
        if table_map(s0).contains_key(t) {
            let i = choose|i: int| 0 <= i < s0.len() && s0[i].0@ == t;
            assert(views[i] == t);
        }
    }
    assert(views.to_set() =~= table_map(s0).dom());
}

proof fn lemma_empty_bus_view<T>()
    ensures
        table_map(Seq::<(String, HandlerMap<T>)>::empty()) == Map::<
            Seq<char>,
            Map<HandlerId, Registered<T>>,
        >::empty(),
        table_map(Seq::<(String, HandlerMap<T>)>::empty()).dom() == Set::<Seq<char>>::empty(),
        forall|t: Seq<char>| !table_map(Seq::<(String, HandlerMap<T>)>::empty()).contains_key(t),
{
    assert(Map::<Seq<char>, Map<HandlerId, Registered<T>>>::empty().dom() =~= Set::<
        Seq<char>,
    >::empty());
}

/// Subscribing a handler under a fresh key makes its event type known,
/// raises the handler count of that type by exactly one, keeps every key
/// that was already registered, and the new key differs from each of them:
/// the keys returned for one type are pairwise distinct.
pub proof fn lemma_subscribe_increments_count<T>(
    m: BusView<T>,
    t: Seq<char>,
    id: HandlerId,
    slot: Registered<T>,
)
    requires
        registry_in(m, t).dom().finite(),
        !registry_in(m, t).contains_key(id),
    ensures
        with_subscription(m, t, id, slot).dom() == m.dom().insert(t),
        registry_in(with_subscription(m, t, id, slot), t) == registry_in(m, t).insert(id, slot),
        registry_in(with_subscription(m, t, id, slot), t).len() == registry_in(m, t).len() + 1,
        registry_in(with_subscription(m, t, id, slot), t).contains_key(id),
        forall|other: HandlerId|
            registry_in(m, t).contains_key(other) ==> registry_in(
                with_subscription(m, t, id, slot),
                t,
            ).contains_key(other) && other != id,
{
}

/// Unsubscribing a previously returned key from its event type lowers the
/// handler count of that type by exactly one.
pub proof fn lemma_unsubscribe_decrements_count<T>(m: BusView<T>, t: Seq<char>, id: HandlerId)
    requires
        m.contains_key(t),
        m[t].dom().finite(),
        m[t].contains_key(id),
    ensures
        registry_in(without_subscription(m, t, id), t).len() == m[t].len() - 1,
{
}

/// Unsubscribing a key that is not registered under a known event type
/// leaves the bus exactly as it was: the removal is a silent no-op.
pub proof fn lemma_unsubscribe_absent_is_noop<T>(m: BusView<T>, t: Seq<char>, id: HandlerId)
    requires
        m.contains_key(t) ==> !m[t].contains_key(id),
    ensures
        without_subscription(m, t, id) == m,
{
    if m.contains_key(t) {
        assert(m[t].remove(id) =~= m[t]);
        assert(m.insert(t, m[t].remove(id)) =~= m);
    }
}

/// Unsubscribing the same key twice has the effect of unsubscribing it
/// once: the second removal changes nothing, whether or not the key was
/// ever registered.
pub proof fn lemma_unsubscribe_idempotent<T>(m: BusView<T>, t: Seq<char>, id: HandlerId)
    ensures
        without_subscription(without_subscription(m, t, id), t, id) == without_subscription(
            m,
            t,
            id,
        ),
{
    if m.contains_key(t) {
        let m1 = without_subscription(m, t, id);
        assert(m1.contains_key(t));
        assert(m1[t].remove(id) =~= m1[t]);
        assert(m1.insert(t, m1[t].remove(id)) =~= m1);
    }
}

/// An event bus: a table of named event types, each with its own handler
/// registry, together with the publish operation that dispatches one event
/// to every handler of its type.
#[verifier::reject_recursive_types(T)]
pub struct EventBus<T> {
    table: Vec<(String, HandlerMap<T>)>,
}

impl<T> View for EventBus<T> {
    type V = BusView<T>;

    closed spec fn view(&self) -> BusView<T> {
        table_map(self.table@)
    }
}

impl<T> EventBus<T> {
    #[verifier::type_invariant]
    spec fn wf(self) -> bool {
        unique_names(self.table@)
    }

    /// Create a new bus that knows no event types.
    pub fn new() -> (bus: EventBus<T>)
        ensures
            bus@ == Map::<Seq<char>, Map<HandlerId, Registered<T>>>::empty(),
            bus@.dom() == Set::<Seq<char>>::empty(),
            forall|t: Seq<char>| !bus@.contains_key(t),
    {
        proof {
            lemma_empty_bus_view::<T>();
        }
        EventBus { table: Vec::new() }
    }

    /// The position of the entry for `key`, if the event type is known.
    fn find_index(&self, key: &String) -> (r: Option<usize>)
        ensures
            match r {
                Some(i) => 0 <= i < self.table@.len() && self.table@[i as int].0@ == key@,
                None => forall|j: int| 0 <= j < self.table@.len() ==> self.table@[j].0@ != key@,
            },
    {
        let n = self.table.len();
        for k in 0..n
            invariant
                n == self.table@.len(),
                forall|j: int| 0 <= j < k ==> self.table@[j].0@ != key@,
        {
            if self.table[k].0 == *key {
                return Some(k);
            }
        }
        None
    }

    /// Subscribe a handler to an event type.
    ///
    /// The handler is stored under a key that is fresh for that type's
    /// registry, and the key is returned so the caller can later remove
    /// exactly this handler. An unknown event type becomes known, starting
    /// from an empty registry.
    pub fn subscribe(&mut self, event_type: &str, handler: Handler<T>) -> (r: Result<
        HandlerId,
        BasuError,
    >)
        ensures
            r is Ok,
            !registry_in(old(self)@, event_type@).contains_key(r->Ok_0),
            final(self)@ == with_subscription(
                old(self)@,
                event_type@,
                r->Ok_0,
                (Registered { handler }),
            ),
            final(self)@.dom() == old(self)@.dom().insert(event_type@),
            final(self)@.contains_key(event_type@),
            final(self)@[event_type@].len() == registry_in(old(self)@, event_type@).len() + 1,
            !old(self)@.contains_key(event_type@) ==> final(self)@[event_type@].len() == 1,
            final(self)@[event_type@].contains_key(r->Ok_0),
            forall|other: HandlerId|
                registry_in(old(self)@, event_type@).contains_key(other)
                    ==> final(self)@[event_type@].contains_key(other) && other != r->Ok_0,
    {
        proof {
            use_type_invariant(&*self);
        }
        let ghost s0 = self.table@;
        let key = event_type.to_string();
        match self.find_index(&key) {
            Some(i) => {
                let mut table: Vec<(String, HandlerMap<T>)> = Vec::new();
                std::mem::swap(&mut table, &mut self.table);
                let mut pair = table.remove(i);
                let id = pair.1.fresh_key();
                proof {
                    lemma_table_map_index(s0, i as int);
                    crate::registry::lemma_handler_map_view_finite(&pair.1);
                }
                let slot = Registered { handler };
                let ghost slot0 = slot;
                pair.1.insert_slot(id, slot);
                let ghost p = pair;
                table.push(pair);
                proof {
                    lemma_subscribe_existing(s0, i as int, p, id, slot0);
                }
                self.table = table;
                Ok(id)
            },
            None => {
                let id = HandlerId::new();
                let mut reg = HandlerMap::new();
                let slot = Registered { handler };
                let ghost slot0 = slot;
                reg.insert_slot(id, slot);
                let mut table: Vec<(String, HandlerMap<T>)> = Vec::new();
                std::mem::swap(&mut table, &mut self.table);
                let ghost p = (key, reg);
                table.push((key, reg));
                proof {
                    lemma_subscribe_new(s0, p, id, slot0);
                }
                self.table = table;
                Ok(id)
            },
        }
    }

    /// Unsubscribe the handler stored under `handler_id` from an event type.
    ///
    /// Removing a key that is not present is a silent no-op; only an event
    /// type that was never subscribed to is an error. The entry for the
    /// type remains known even when its registry becomes empty.
    pub fn unsubscribe(&mut self, event_type: &str, handler_id: &HandlerId) -> (r: Result<
        (),
        BasuError,
    >)
        ensures
            r is Ok <==> old(self)@.contains_key(event_type@),
            !(r is Ok) ==> r == Err::<(), BasuError>(BasuError::EventTypeNotFOUND),
            final(self)@ == without_subscription(old(self)@, event_type@, *handler_id),
            final(self)@.dom() == old(self)@.dom(),
            old(self)@.contains_key(event_type@) && old(self)@[event_type@].contains_key(
                *handler_id,
            ) ==> final(self)@[event_type@].len() == old(self)@[event_type@].len() - 1,
            old(self)@.contains_key(event_type@) && !old(self)@[event_type@].contains_key(
                *handler_id,
            ) ==> final(self)@ == old(self)@,
            old(self)@.contains_key(event_type@) ==> !final(self)@[event_type@].contains_key(
                *handler_id,
            ),
    {
        proof {
            use_type_invariant(&*self);
        }
        let ghost s0 = self.table@;
        let key = event_type.to_string();
        match self.find_index(&key) {
            Some(i) => {
                let mut table: Vec<(String, HandlerMap<T>)> = Vec::new();
                std::mem::swap(&mut table, &mut self.table);
                let mut pair = table.remove(i);
                proof {
                    crate::registry::lemma_handler_map_view_finite(&pair.1);
                }
                pair.1.remove(handler_id);
                let ghost p = pair;
                table.push(pair);
                proof {
                    lemma_unsubscribe_at(s0, i as int, p, *handler_id);
                }
                self.table = table;
                Ok(())
            },
            None => {
                proof {
                    lemma_table_map_contains(s0, event_type@);
                }
                Err(BasuError::EventTypeNotFOUND)
            },
        }
    }

    /// Publish an event to every handler subscribed to an event type.
    ///
    /// The registry of the type is read once, every handler present at that
    /// moment is invoked with read-only access to `event_data`, and the
    /// outcomes are folded into one: success when every handler succeeded
    /// (in particular when there are none), otherwise the first failure.
    pub fn publish(&self, event_type: &str, event_data: &Event<T>) -> (r: Result<(), BasuError>)
        ensures
            !self@.contains_key(event_type@) ==> r == Err::<(), BasuError>(
                BasuError::EventTypeNotFOUND,
            ),
            self@.contains_key(event_type@) && self@[event_type@].len() == 0 ==> r == Ok::<
                (),
                BasuError,
            >(()),
    {
        proof {
            use_type_invariant(&*self);
        }
        let key = event_type.to_string();
        match self.find_index(&key) {
            Some(i) => {
                proof {
                    lemma_table_map_index(self.table@, i as int);
                }
                let results = self.table[i].1.dispatch(event_data);
                let ghost outcomes = results@;
                proof {
                    if outcomes.len() == 0 {
                        lemma_first_failure_all_ok(outcomes);
                    }
                }
                first_failure(results)
            },
            None => {
                proof {
                    lemma_table_map_contains(self.table@, event_type@);
                }
                Err(BasuError::EventTypeNotFOUND)
            },
        }
    }

    /// List the names of all known event types, each exactly once, in no
    /// promised order.
    pub fn list(&self) -> (r: Result<Vec<String>, BasuError>)
        ensures
            r is Ok,
            (r->Ok_0)@.len() == self@.dom().len(),
            forall|i: int, j: int|
                0 <= i < j < (r->Ok_0)@.len() ==> (r->Ok_0)@[i]@ != (r->Ok_0)@[j]@,
            (r->Ok_0)@.map_values(|x: String| x@).to_set() == self@.dom(),
    {
        proof {
            use_type_invariant(&*self);
        }
        let mut names: Vec<String> = Vec::new();
        let n = self.table.len();
        for k in 0..n
            invariant
                n == self.table@.len(),
                names@.len() == k,
                forall|i: int| 0 <= i < k ==> names@[i] == self.table@[i].0,
        {
            names.push(self.table[k].0.clone());
        }
        proof {
            lemma_list_names(self.table@, names@);
        }
        Ok(names)
    }

    /// The number of handlers currently registered for an event type; an
    /// event type that was never subscribed to is an error.
    pub fn get_handler_count(&self, event_type: &str) -> (r: Result<usize, BasuError>)
        ensures
            self@.contains_key(event_type@) ==> r is Ok && r->Ok_0 == self@[event_type@].len(),
            !self@.contains_key(event_type@) ==> r == Err::<usize, BasuError>(
                BasuError::EventTypeNotFOUND,
            ),
    {
        proof {
            use_type_invariant(&*self);
        }
        let key = event_type.to_string();
        match self.find_index(&key) {
            Some(i) => {
                proof {
                    lemma_table_map_index(self.table@, i as int);
                }
                Ok(self.table[i].1.len())
            },
            None => {
                proof {
                    lemma_table_map_contains(self.table@, event_type@);
                }
                Err(BasuError::EventTypeNotFOUND)
            },
        }
    }

    /// Forget every event type and every handler: the bus is empty
    /// afterwards, as if freshly created.
    pub fn clear(&mut self) -> (r: Result<(), BasuError>)
        ensures
            r is Ok,
            final(self)@ == Map::<Seq<char>, Map<HandlerId, Registered<T>>>::empty(),
            final(self)@.dom() == Set::<Seq<char>>::empty(),
            forall|t: Seq<char>| !final(self)@.contains_key(t),
    {
        proof {
            lemma_empty_bus_view::<T>();
        }
        self.table = Vec::new();
        Ok(())
    }
}

} // verus!
