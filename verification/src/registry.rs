use vstd::prelude::*;
use vstd::set_lib::lemma_len_subset;
use crate::error::BasuError;
use crate::event::Event;
use crate::handler::Handler;

verus! {

/// The key under which one subscription is stored in a `HandlerMap`.
///
/// A token is minted when a handler is subscribed and is the caller's only
/// way to address that handler again, e.g. to unsubscribe it.
#[derive(PartialEq, Eq, Hash, Clone, Copy, Debug, Structural)]
pub struct HandlerId {
    id: u128,
}

impl HandlerId {
    /// Mint a token from a freshly drawn 128-bit identifier.
    ///
    /// Relies on `uuid::Uuid::new_v4` (backed by the operating system's
    /// random source) to draw the identifier. Nothing is assumed about the
    /// drawn value: a caller that needs a key absent from a registry checks
    /// for itself, as `HandlerMap::fresh_key` does.
    #[verifier::external_body]
    pub fn new() -> HandlerId {
        HandlerId { id: uuid::Uuid::new_v4().as_u128() }
    }
}

/// One registered handler, as held in a registry slot.
#[verifier::reject_recursive_types(T)]
pub struct Registered<T> {
    /// The subscribed handler itself.
    pub handler: Handler<T>,
}

/// The mathematical content of a sequence of (key, slot) pairs: the map that
/// takes each key to the slot stored with it, later pairs winning.
pub open spec fn entries_map<T>(s: Seq<(HandlerId, Registered<T>)>) -> Map<
    HandlerId,
    Registered<T>,
>
    decreases s.len(),
{
    if s.len() == 0 {
        Map::empty()
    } else {
        entries_map(s.drop_last()).insert(s.last().0, s.last().1)
    }
}

/// No two pairs of the sequence share a key.
pub open spec fn unique_ids<T>(s: Seq<(HandlerId, Registered<T>)>) -> bool {
    forall|i: int, j: int| 0 <= i < j < s.len() ==> s[i].0 != s[j].0
}

proof fn lemma_unique_ids_drop_last<T>(s: Seq<(HandlerId, Registered<T>)>)
    requires
        unique_ids(s),
        s.len() > 0,
    ensures
        unique_ids(s.drop_last()),
        forall|a: int| 0 <= a < s.len() - 1 ==> #[trigger] s.drop_last()[a] == s[a],
        forall|a: int| 0 <= a < s.len() - 1 ==> s[a].0 != s.last().0,
{
    assert(forall|a: int| 0 <= a < s.len() - 1 ==> #[trigger] s.drop_last()[a] == s[a]);
}

proof fn lemma_entries_map_contains<T>(s: Seq<(HandlerId, Registered<T>)>, id: HandlerId)
    ensures
        entries_map(s).contains_key(id) <==> exists|i: int| 0 <= i < s.len() && s[i].0 == id,
    decreases s.len(),
{
    if s.len() > 0 {
        lemma_entries_map_contains(s.drop_last(), id);
        assert(forall|a: int| 0 <= a < s.len() - 1 ==> #[trigger] s.drop_last()[a] == s[a]);
        if s.last().0 == id {
            assert(s[s.len() - 1].0 == id);
        } else if exists|i: int| 0 <= i < s.len() && s[i].0 == id {
            let i = choose|i: int| 0 <= i < s.len() && s[i].0 == id;
            assert(s.drop_last()[i] == s[i]);
        }
    }
}

proof fn lemma_entries_map_finite<T>(s: Seq<(HandlerId, Registered<T>)>)
    ensures
        entries_map(s).dom().finite(),
    decreases s.len(),
{
    if s.len() > 0 {
        lemma_entries_map_finite(s.drop_last());
    }
}

proof fn lemma_entries_map_len<T>(s: Seq<(HandlerId, Registered<T>)>)
    requires
        unique_ids(s),
    ensures
        entries_map(s).dom().finite(),
        entries_map(s).len() == s.len(),
    decreases s.len(),
{
    lemma_entries_map_finite(s);
    if s.len() > 0 {
        lemma_unique_ids_drop_last(s);
        lemma_entries_map_len(s.drop_last());
        lemma_entries_map_contains(s.drop_last(), s.last().0);
    }
}

proof fn lemma_entries_map_index<T>(s: Seq<(HandlerId, Registered<T>)>, i: int)
    requires
        unique_ids(s),
        0 <= i < s.len(),
    ensures
        entries_map(s).contains_key(s[i].0),
        entries_map(s)[s[i].0] == s[i].1,
    decreases s.len(),
{
    if i == s.len() - 1 {
    } else {
        lemma_unique_ids_drop_last(s);
        assert(s.drop_last()[i] == s[i]);
        lemma_entries_map_index(s.drop_last(), i);
        assert(s[i].0 != s.last().0);
    }
}

proof fn lemma_entries_map_push<T>(
    s: Seq<(HandlerId, Registered<T>)>,
    id: HandlerId,
    slot: Registered<T>,
)
    ensures
        entries_map(s.push((id, slot))) == entries_map(s).insert(id, slot),
{
    let p = (id, slot);
    assert(s.push(p).drop_last() =~= s);
    assert(s.push(p).last() == p);
}

proof fn lemma_entries_map_remove_at<T>(s: Seq<(HandlerId, Registered<T>)>, i: int)
    requires
        unique_ids(s),
        0 <= i < s.len(),
    ensures
        entries_map(s.remove(i)) == entries_map(s).remove(s[i].0),
    decreases s.len(),
{
    lemma_unique_ids_drop_last(s);
    if i == s.len() - 1 {
        assert(s.remove(i) =~= s.drop_last());
        lemma_entries_map_contains(s.drop_last(), s[i].0);
        assert(entries_map(s).remove(s[i].0) =~= entries_map(s.drop_last()));
    } else {
        lemma_entries_map_remove_at(s.drop_last(), i);
        assert(s.remove(i).drop_last() =~= s.drop_last().remove(i));
        assert(s.remove(i).last() == s.last());
        assert(s.drop_last()[i] == s[i]);
        assert(s[i].0 != s.last().0);
        assert(entries_map(s.remove(i)) == entries_map(s.drop_last().remove(i)).insert(
            s.last().0,
            s.last().1,
        ));
        assert(entries_map(s.drop_last().remove(i)) == entries_map(s.drop_last()).remove(s[i].0));
        assert(entries_map(s.drop_last()).remove(s[i].0).insert(s.last().0, s.last().1)
            =~= entries_map(s).remove(s[i].0));
    }
}

proof fn lemma_unique_ids_push<T>(s: Seq<(HandlerId, Registered<T>)>, p: (HandlerId, Registered<T>))
    requires
        unique_ids(s),
        forall|j: int| 0 <= j < s.len() ==> s[j].0 != p.0,
    ensures
        unique_ids(s.push(p)),
{
    let s1 = s.push(p);
    assert(forall|j: int| 0 <= j < s.len() ==> s1[j] == s[j]);
    assert(s1[s.len() as int] == p);
    assert forall|a: int, b: int| 0 <= a < b < s1.len() implies s1[a].0 != s1[b].0 by {
        if b < s.len() {
            assert(s1[a] == s[a] && s1[b] == s[b]);
        } else {
            assert(s1[b] == p && s1[a] == s[a]);
        }
    }
}

proof fn lemma_unique_ids_remove<T>(s: Seq<(HandlerId, Registered<T>)>, k: int)
    requires
        unique_ids(s),
        0 <= k < s.len(),
    ensures
        unique_ids(s.remove(k)),
{
    let s1 = s.remove(k);
    assert(forall|a: int|
        0 <= a < s1.len() ==> #[trigger] s1[a] == (if a < k {
            s[a]
        } else {
            s[a + 1]
        }));
    assert forall|a: int, b: int| 0 <= a < b < s1.len() implies s1[a].0 != s1[b].0 by {
        let a0 = if a < k { a } else { a + 1 };
        let b0 = if b < k { b } else { b + 1 };
        assert(s1[a] == s[a0]);
        assert(s1[b] == s[b0]);
    }
}

/// The contents of a registry form a finite map.
pub proof fn lemma_handler_map_view_finite<T>(m: &HandlerMap<T>)
    ensures
        m@.dom().finite(),
{
    lemma_entries_map_finite(m.entries@);
}

/// The set of tokens whose identifier lies below `k`.
spec fn ids_below(k: nat) -> Set<HandlerId> {
    Set::new(|h: HandlerId| h.id < k)
}

proof fn lemma_ids_below_len(k: nat)
    requires
        k <= u128::MAX + 1,
    ensures
        ids_below(k).finite(),
        ids_below(k).len() == k,
    decreases k,
{
    if k == 0 {
        assert(ids_below(0) =~= Set::empty());
    } else {
        lemma_ids_below_len((k - 1) as nat);
        let top = HandlerId { id: (k - 1) as u128 };
        assert(ids_below(k) =~= ids_below((k - 1) as nat).insert(top));
        assert(!ids_below((k - 1) as nat).contains(top));
    }
}

/// The per-event-type registry: a mapping from handler token to handler.
///
/// Keys are unique; insertion order carries no meaning, and the abstract
/// value of a registry is the map [`entries_map`] of its stored pairs.
#[verifier::reject_recursive_types(T)]
pub struct HandlerMap<T> {
    entries: Vec<(HandlerId, Registered<T>)>,
}

impl<T> View for HandlerMap<T> {
    type V = Map<HandlerId, Registered<T>>;

    closed spec fn view(&self) -> Map<HandlerId, Registered<T>> {
        entries_map(self.entries@)
    }
}

impl<T> HandlerMap<T> {
    #[verifier::type_invariant]
    spec fn wf(self) -> bool {
        unique_ids(self.entries@)
    }

    /// An empty registry.
    pub fn new() -> (m: HandlerMap<T>)
        ensures
            m@ == Map::<HandlerId, Registered<T>>::empty(),
    {
        HandlerMap { entries: Vec::new() }
    }

    /// The number of handlers currently registered.
    pub fn len(&self) -> (n: usize)
        ensures
            n == self@.len(),
    {
        proof {
            use_type_invariant(&*self);
            lemma_entries_map_len(self.entries@);
        }
        self.entries.len()
    }

    /// The position at which `id` is stored, if it is.
    fn index_of(&self, id: &HandlerId) -> (r: Option<usize>)
        ensures
            match r {
                Some(k) => 0 <= k < self.entries@.len() && self.entries@[k as int].0 == *id,
                None => forall|j: int| 0 <= j < self.entries@.len() ==> self.entries@[j].0 != *id,
            },
    {
        let n = self.entries.len();
        for k in 0..n
            invariant
                n == self.entries@.len(),
                forall|j: int| 0 <= j < k ==> self.entries@[j].0 != *id,
        {
            if self.entries[k].0 == *id {
                return Some(k);
            }
        }
        None
    }

    /// Whether a handler is stored under `id`.
    pub fn contains(&self, id: &HandlerId) -> (b: bool)
        ensures
            b == self@.contains_key(*id),
    {
        proof {
            lemma_entries_map_contains(self.entries@, *id);
        }
        match self.index_of(id) {
            Some(_) => true,
            None => false,
        }
    }

    /// Store the slot `slot` under the previously unused key `id`.
    pub fn insert_slot(&mut self, id: HandlerId, slot: Registered<T>)
        requires
            !old(self)@.contains_key(id),
        ensures
            final(self)@ == old(self)@.insert(id, slot),
    {
        proof {
            use_type_invariant(&*self);
            lemma_entries_map_contains(self.entries@, id);
            lemma_entries_map_push(self.entries@, id, slot);
        }
        let ghost s0 = self.entries@;
        let ghost p = (id, slot);
        let mut entries: Vec<(HandlerId, Registered<T>)> = Vec::new();
        std::mem::swap(&mut entries, &mut self.entries);
        entries.push((id, slot));
        proof {
            assert(entries@ == s0.push(p));
            assert(forall|j: int| 0 <= j < s0.len() ==> s0[j].0 != id);
            lemma_unique_ids_push(s0, p);
        }
        self.entries = entries;
    }

    /// Remove the handler stored under `id`; removing an unused key is a
    /// no-op.
    pub fn remove(&mut self, id: &HandlerId)
        ensures
            final(self)@ == old(self)@.remove(*id),
    {
        proof {
            use_type_invariant(&*self);
        }
        let ghost s0 = self.entries@;
        match self.index_of(id) {
            Some(k) => {
                proof {
                    lemma_entries_map_remove_at(s0, k as int);
                    lemma_unique_ids_remove(s0, k as int);
                }
                let mut entries: Vec<(HandlerId, Registered<T>)> = Vec::new();
                std::mem::swap(&mut entries, &mut self.entries);
                let _removed = entries.remove(k);
                self.entries = entries;
            }
            None => {
                proof {
                    lemma_entries_map_contains(s0, *id);
                    assert(entries_map(s0) =~= entries_map(s0).remove(*id));
                }
            }
        }
    }

    /// A key under which no handler is stored.
    ///
    /// A freshly minted token is taken if it is unused, which is all but
    /// certain; otherwise the registry's keys are probed in order, and among
    /// `len + 1` candidates one must be free.
    pub fn fresh_key(&self) -> (id: HandlerId)
        ensures
            !self@.contains_key(id),
    {
        let candidate = HandlerId::new();
        if !self.contains(&candidate) {
            return candidate;
        }
        proof {
            use_type_invariant(&*self);
            lemma_entries_map_len(self.entries@);
        }
        let n = self.entries.len();
        let mut c: u128 = 0;
        while c <= n as u128
            invariant
                n == self.entries@.len(),
                self@.len() == n,
                self@.dom().finite(),
                c <= n as u128 + 1,
                forall|d: u128| d < c ==> self@.contains_key(HandlerId { id: d }),
            decreases n as u128 + 1 - c,
        {
            let probe = HandlerId { id: c };
            if !self.contains(&probe) {
                return probe;
            }
            c += 1;
        }
        proof {
            lemma_ids_below_len((n + 1) as nat);
            assert(ids_below((n + 1) as nat).subset_of(self@.dom())) by {
                assert forall|h: HandlerId|
                    ids_below((n + 1) as nat).contains(h) implies self@.dom().contains(h) by {
                    assert(self@.contains_key(HandlerId { id: h.id }));
                    assert((HandlerId { id: h.id }) == h);
                }
            }
            lemma_len_subset(ids_below((n + 1) as nat), self@.dom());
            assert(false);
        }
        unreached()
    }

    /// Invoke every registered handler once with read-only access to `event`
    /// and collect the outcomes, one per handler, in registry order.
    pub fn dispatch(&self, event: &Event<T>) -> (results: Vec<Result<(), BasuError>>)
        ensures
            results@.len() == self@.len(),
    {
        proof {
            use_type_invariant(&*self);
            lemma_entries_map_len(self.entries@);
        }
        let mut results: Vec<Result<(), BasuError>> = Vec::new();
        let n = self.entries.len();
        for k in 0..n
            invariant
                n == self.entries@.len(),
                results@.len() == k,
        {
            let outcome = self.entries[k].1.handler.handle(event);
            results.push(outcome);
        }
        results
    }
}

} // verus!
