//! The hooks of one session: which hook waits for which kind of packet, in
//! the order in which they were registered. The closures themselves stay with
//! whoever runs them; the registry knows them by their identifiers.

use vstd::prelude::*;

verus! {

/// What a hook asks for when it has run.
#[derive(Debug, PartialEq, Eq)]
pub enum Hook {
    /// Register a new hook for this category.
    Register(String),
    /// Remove the hook with this identifier.
    Unregister(u64),
}

/// The registered hooks, oldest first, and the identifier handed out next.
#[derive(Debug, PartialEq, Eq)]
pub struct HookStorage {
    pub next: u64,
    pub hooks: Vec<(u64, String)>,
}

pub type HookModel = (u64, Seq<char>);

pub open spec fn hooks_model(v: Seq<(u64, String)>) -> Seq<HookModel> {
    Seq::new(v.len(), |i: int| (v[i].0, v[i].1@))
}

impl View for HookStorage {
    type V = Seq<HookModel>;

    open spec fn view(&self) -> Seq<HookModel> {
        hooks_model(self.hooks@)
    }
}

/// The identifiers of the hooks of `category`, in the order of registration.
pub open spec fn ids_in(hooks: Seq<HookModel>, category: Seq<char>) -> Seq<u64>
    decreases hooks.len(),
{
    if hooks.len() == 0 {
        Seq::empty()
    } else if hooks.last().1 == category {
        ids_in(hooks.drop_last(), category).push(hooks.last().0)
    } else {
        ids_in(hooks.drop_last(), category)
    }
}

/// The hooks without those that have the identifier `id`.
pub open spec fn without_id(hooks: Seq<HookModel>, id: u64) -> Seq<HookModel>
    decreases hooks.len(),
{
    if hooks.len() == 0 {
        Seq::empty()
    } else if hooks.last().0 == id {
        without_id(hooks.drop_last(), id)
    } else {
        without_id(hooks.drop_last(), id).push(hooks.last())
    }
}

impl HookStorage {
    /// A registry without hooks.
    pub fn new() -> (r: HookStorage)
        ensures
            r@.len() == 0,
            r.next == 0,
    {
        HookStorage { next: 0, hooks: Vec::new() }
    }

    /// Registers a hook for `category`, after all that are registered, and
    /// gives its identifier.
    pub fn register(&mut self, category: String) -> (id: u64)
        requires
            old(self).next < u64::MAX,
        ensures
            id == old(self).next,
            final(self).next == old(self).next + 1,
            final(self)@ == old(self)@.push((id, category@)),
    {
        let id = self.next;
        self.hooks.push((id, category));
        self.next = self.next + 1;
        assert(self@ =~= old(self)@.push((id, category@)));
        id
    }

    /// Removes the hook with the identifier `id`, if there is one.
    pub fn unregister(&mut self, id: u64)
        ensures
            final(self).next == old(self).next,
            final(self)@ == without_id(old(self)@, id),
    {
        let mut kept: Vec<(u64, String)> = Vec::new();
        let mut i: usize = 0;
        assert(self@.take(0) =~= Seq::<HookModel>::empty());
        assert(hooks_model(kept@) =~= Seq::<HookModel>::empty());
        while i < self.hooks.len()
            invariant
                i <= self.hooks@.len(),
                hooks_model(kept@) == without_id(self@.take(i as int), id),
            decreases self.hooks@.len() - i,
        {
            proof {
                let longer = self@.take(i + 1);
                assert(longer.drop_last() =~= self@.take(i as int));
                assert(longer.last() == self@[i as int]);
            }
            if self.hooks[i].0 != id {
                let ghost before = hooks_model(kept@);
                let entry = (self.hooks[i].0, self.hooks[i].1.clone());
                kept.push(entry);
                assert(hooks_model(kept@) =~= before.push(self@[i as int]));
            }
            i += 1;
        }
        assert(self@.take(i as int) =~= self@);
        self.hooks = kept;
    }

    /// The hooks to run for a packet of `category`, in the order in which they
    /// were registered.
    pub fn fire(&self, category: &String) -> (ids: Vec<u64>)
        ensures
            ids@ == ids_in(self@, category@),
    {
        let mut ids: Vec<u64> = Vec::new();
        let mut i: usize = 0;
        assert(self@.take(0) =~= Seq::<HookModel>::empty());
        while i < self.hooks.len()
            invariant
                i <= self.hooks@.len(),
                ids@ == ids_in(self@.take(i as int), category@),
            decreases self.hooks@.len() - i,
        {
            proof {
                let longer = self@.take(i + 1);
                assert(longer.drop_last() =~= self@.take(i as int));
                assert(longer.last() == self@[i as int]);
            }
            if self.hooks[i].1 == *category {
                ids.push(self.hooks[i].0);
            }
            i += 1;
        }
        assert(self@.take(i as int) =~= self@);
        ids
    }

    /// Carries out one request of a hook. A registration gives the new hook's
    /// identifier.
    pub fn apply(&mut self, hook: Hook) -> (r: Option<u64>)
        requires
            old(self).next < u64::MAX,
        ensures
            match hook {
                Hook::Register(category) => {
                    &&& r == Some(old(self).next)
                    &&& final(self).next == old(self).next + 1
                    &&& final(self)@ == old(self)@.push((old(self).next, category@))
                },
                Hook::Unregister(id) => {
                    &&& r is None
                    &&& final(self).next == old(self).next
                    &&& final(self)@ == without_id(old(self)@, id)
                },
            },
    {
        match hook {
            Hook::Register(category) => Some(self.register(category)),
            Hook::Unregister(id) => {
                self.unregister(id);
                None
            },
        }
    }
}

/// A removed hook never runs again, and the others run as before: after the
/// hook `id` is removed, no category lists it, and every category lists its
/// other hooks in their order.
pub proof fn lemma_unregistered_is_silent(hooks: Seq<HookModel>, id: u64, category: Seq<char>)
    ensures
        !ids_in(without_id(hooks, id), category).contains(id),
        ids_in(without_id(hooks, id), category) == ids_in(hooks, category).filter(
            |x: u64| x != id,
        ),
    decreases hooks.len(),
{
    let pred = |x: u64| x != id;
    if hooks.len() == 0 {
        assert(ids_in(hooks, category).filter(pred) =~= Seq::<u64>::empty());
    } else {
        let front = hooks.drop_last();
        let last = hooks.last();
        lemma_unregistered_is_silent(front, id, category);
        let kept = ids_in(without_id(front, id), category);
        if last.0 != id {
            assert(without_id(hooks, id).drop_last() =~= without_id(front, id));
        }
        if last.1 == category {
            let all = ids_in(front, category);
            assert(all.push(last.0).drop_last() =~= all);
            reveal_with_fuel(Seq::filter, 2);
        }
        if last.0 != id && last.1 == category {
            assert forall|k: int| 0 <= k < kept.push(last.0).len() implies kept.push(last.0)[k]
                != id by {
                if k < kept.len() {
                    assert(kept.contains(kept[k]));
                }
            }
        }
    }
}

} // verus!
