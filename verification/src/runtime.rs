//! Model of the component runtime: the external collaborator that mounts,
//! updates and destroys stateful component instances.
//!
//! The reconciler holds instances behind type-erased handles, so the model
//! keeps only what the reconciler can observe: an instance identifier, the
//! kind token of the component it instantiates, and its current properties.
//! Ghost counters record constructions, teardowns and the list reconciler's
//! per-position delegations, so that the lifecycle laws can be stated.

use vstd::prelude::*;
use crate::host::lowest_absent;
use vstd::pervasive::VecAdditionalExecFns;

verus! {

/// A live component instance as seen through its type-erased handle.
#[derive(Clone, Copy, PartialEq, Eq, Structural, Debug)]
pub struct Instance {
    /// The handle's identity.
    pub id: u64,
    /// The kind token of the component implementation.
    pub kind: u64,
    /// The properties most recently pushed onto the instance.
    pub props: u64,
}

/// The identifiers of a sequence of instances.
pub open spec fn ids_of(s: Seq<Instance>) -> Seq<u64> {
    s.map_values(|i: Instance| i.id)
}

/// The component runtime, tracking the live instances.
pub struct Runtime {
    /// All currently live instances.
    pub instances: Vec<Instance>,
    /// How many instances were ever constructed.
    pub created: Ghost<nat>,
    /// How many teardown actions ever ran.
    pub destroyed: Ghost<nat>,
    /// List-reconciler delegations of an update-in-place apply (both a new
    /// and an old node present at a position).
    pub paired_applies: Ghost<nat>,
    /// List-reconciler delegations of a pure-insert apply (new node only).
    pub insert_applies: Ghost<nat>,
    /// List-reconciler delegations of a pure-removal detach (old node only).
    pub surplus_detaches: Ghost<nat>,
}

impl Runtime {
    /// The live instances.
    pub open spec fn live(self) -> Seq<Instance> {
        self.instances@
    }

    /// The identifiers of the live instances.
    pub open spec fn live_ids(self) -> Seq<u64> {
        ids_of(self.instances@)
    }

    /// Whether an instance with this identifier is live.
    pub open spec fn is_live(self, id: u64) -> bool {
        self.live_ids().contains(id)
    }

    /// Live instances have distinct identifiers.
    pub open spec fn wf(self) -> bool {
        self.live_ids().no_duplicates()
    }

    /// The construction/teardown history, for stating lifecycle laws.
    pub open spec fn lifecycle(self) -> (nat, nat) {
        (self.created@, self.destroyed@)
    }

    /// The list reconciler's delegation history, for stating the
    /// positional-diff law.
    pub open spec fn delegations(self) -> (nat, nat, nat) {
        (self.paired_applies@, self.insert_applies@, self.surplus_detaches@)
    }

    /// A runtime with no live instance.
    pub fn new() -> (rt: Self)
        ensures
            rt.wf(),
            rt.live() == Seq::<Instance>::empty(),
            rt.lifecycle() == (0nat, 0nat),
            rt.delegations() == (0nat, 0nat, 0nat),
    {
        Runtime {
            instances: Vec::new(),
            created: Ghost(0),
            destroyed: Ghost(0),
            paired_applies: Ghost(0),
            insert_applies: Ghost(0),
            surplus_detaches: Ghost(0),
        }
    }

    /// The live identifiers, as a vector.
    fn id_vec(&self) -> (r: Vec<u64>)
        ensures
            r@ == self.live_ids(),
    {
        let mut r: Vec<u64> = Vec::new();
        let mut i: usize = 0;
        while i < self.instances.len()
            invariant
                i <= self.instances@.len(),
                r@.len() == i,
                forall|j: int| 0 <= j < i ==> r@[j] == self.instances@[j].id,
            decreases self.instances@.len() - i,
        {
            r.push(self.instances[i].id);
            i = i + 1;
        }
        proof {
            assert(r@ =~= self.live_ids());
        }
        r
    }

    /// The index of the live instance with this identifier.
    fn index_of(&self, id: u64) -> (i: usize)
        requires
            self.is_live(id),
        ensures
            i < self.live().len(),
            self.live()[i as int].id == id,
    {
        let mut i: usize = 0;
        while i < self.instances.len()
            invariant
                i <= self.live().len(),
                self.is_live(id),
                forall|j: int| 0 <= j < i ==> self.live()[j].id != id,
            decreases self.live().len() - i,
        {
            if self.instances[i].id == id {
                return i;
            }
            i = i + 1;
        }
        proof {
            let w = choose|w: int| 0 <= w < self.live_ids().len() && self.live_ids()[w] == id;
            assert(self.live()[w].id == id);
            assert(false);
        }
        0
    }

    /// Models `mount`: construct a fresh instance of the given kind with
    /// the given initial properties, and return its handle.
    pub fn mount(&mut self, kind: u64, props: u64) -> (inst: u64)
        requires
            old(self).wf(),
        ensures
            final(self).wf(),
            !old(self).is_live(inst),
            final(self).live() == old(self).live().push(
                Instance { id: inst, kind: kind, props: props },
            ),
            final(self).is_live(inst),
            forall|x: Instance| old(self).live().contains(x) ==> final(self).live().contains(x),
            forall|x: u64|
                old(self).live_ids().contains(x) ==> final(self).live_ids().contains(x),
            final(self).live_ids() == old(self).live_ids().push(inst),
            final(self).created@ == old(self).created@ + 1,
            final(self).destroyed@ == old(self).destroyed@,
            final(self).delegations() == old(self).delegations(),
    {
        let ids = self.id_vec();
        let inst = lowest_absent(&ids);
        let ghost pre = self.instances@;
        self.instances.push(Instance { id: inst, kind: kind, props: props });
        self.created = Ghost(self.created@ + 1);
        proof {
            assert(self.live_ids() =~= ids_of(pre).push(inst));
            lemma_push_fresh_distinct(ids_of(pre), inst);
            assert(self.live_ids()[pre.len() as int] == inst);
            assert forall|x: Instance| pre.contains(x) implies self.live().contains(x) by {
                let w = choose|w: int| 0 <= w < pre.len() && pre[w] == x;
                assert(self.live()[w] == x);
            }
            assert forall|x: u64| ids_of(pre).contains(x) implies self.live_ids().contains(x) by {
                let w = choose|w: int| 0 <= w < ids_of(pre).len() && ids_of(pre)[w] == x;
                assert(self.live_ids()[w] == x);
            }
        }
        inst
    }

    /// Models `updateProperties`: push new properties onto a live instance.
    pub fn update_properties(&mut self, inst: u64, props: u64)
        requires
            old(self).wf(),
            old(self).is_live(inst),
        ensures
            final(self).wf(),
            final(self).live_ids() == old(self).live_ids(),
            final(self).is_live(inst),
            exists|j: int|
                0 <= j < old(self).live().len() && #[trigger] old(self).live()[j].id == inst
                    && final(self).live() == old(self).live().update(
                    j,
                    Instance { id: inst, kind: old(self).live()[j].kind, props: props },
                ),
            forall|x: Instance|
                old(self).live().contains(x) && x.id != inst ==> final(self).live().contains(x),
            forall|x: Instance|
                final(self).live().contains(x) ==> x.id == inst || old(self).live().contains(x),
            final(self).lifecycle() == old(self).lifecycle(),
            final(self).delegations() == old(self).delegations(),
    {
        let i = self.index_of(inst);
        let kind = self.instances[i].kind;
        let ghost pre = self.instances@;
        self.instances.set(i, Instance { id: inst, kind: kind, props: props });
        proof {
            assert(self.live_ids() =~= ids_of(pre));
            assert forall|x: Instance| pre.contains(x) && x.id != inst implies self.live().contains(
                x,
            ) by {
                let w = choose|w: int| 0 <= w < pre.len() && pre[w] == x;
                assert(self.live()[w] == x);
            }
            assert forall|x: Instance| self.live().contains(x) implies x.id == inst
                || pre.contains(x) by {
                let w = choose|w: int| 0 <= w < self.live().len() && self.live()[w] == x;
                if w != i {
                    assert(pre[w] == x);
                }
            }
        }
    }

    /// Models `destroy`: the one-shot teardown of a live instance.
    pub fn destroy(&mut self, inst: u64)
        requires
            old(self).wf(),
            old(self).is_live(inst),
        ensures
            final(self).wf(),
            !final(self).is_live(inst),
            exists|j: int|
                0 <= j < old(self).live().len() && #[trigger] old(self).live()[j].id == inst
                    && final(self).live() == old(self).live().remove(j),
            forall|x: Instance|
                old(self).live().contains(x) && x.id != inst ==> final(self).live().contains(x),
            forall|x: Instance| final(self).live().contains(x) ==> old(self).live().contains(x),
            forall|x: u64|
                old(self).live_ids().contains(x) && x != inst ==> final(self).live_ids().contains(
                    x,
                ),
            forall|x: u64| final(self).live_ids().contains(x) ==> old(self).live_ids().contains(x),
            final(self).destroyed@ == old(self).destroyed@ + 1,
            final(self).created@ == old(self).created@,
            final(self).delegations() == old(self).delegations(),
    {
        let i = self.index_of(inst);
        let ghost pre = self.instances@;
        self.instances.remove(i);
        self.destroyed = Ghost(self.destroyed@ + 1);
        proof {
            assert(self.live() == pre.remove(i as int));
            assert(self.live_ids() =~= ids_of(pre).remove(i as int)) by {
                assert forall|j: int| 0 <= j < self.live_ids().len() implies self.live_ids()[j]
                    == ids_of(pre).remove(i as int)[j] by {}
            }
            crate::host::lemma_remove_keeps_distinct(ids_of(pre), i as int);
            assert(!self.is_live(inst)) by {
                if self.is_live(inst) {
                    let w = choose|w: int|
                        0 <= w < self.live_ids().len() && self.live_ids()[w] == inst;
                    let pw = if w < i { w } else { w + 1 };
                    assert(ids_of(pre)[pw] == inst && ids_of(pre)[i as int] == inst);
                }
            }
            assert forall|x: Instance| pre.contains(x) && x.id != inst implies self.live().contains(
                x,
            ) by {
                let w = choose|w: int| 0 <= w < pre.len() && pre[w] == x;
                if w < i {
                    assert(self.live()[w] == x);
                } else {
                    assert(pre[i as int].id == inst);
                    assert(self.live()[w - 1] == x);
                }
            }
            assert forall|x: Instance| self.live().contains(x) implies pre.contains(x) by {
                let w = choose|w: int| 0 <= w < self.live().len() && self.live()[w] == x;
                let pw = if w < i { w } else { w + 1 };
                assert(pre[pw] == x);
            }
            assert forall|x: u64| ids_of(pre).contains(x) && x != inst implies self.live_ids()
                .contains(x) by {
                let w = choose|w: int| 0 <= w < ids_of(pre).len() && ids_of(pre)[w] == x;
                assert(pre[w].id == x);
                assert(pre.contains(pre[w]) && pre[w].id != inst);
                assert(self.live().contains(pre[w]));
                let v = choose|v: int| 0 <= v < self.live().len() && self.live()[v] == pre[w];
                assert(self.live_ids()[v] == x);
            }
            assert forall|x: u64| self.live_ids().contains(x) implies ids_of(pre).contains(x) by {
                let w = choose|w: int| 0 <= w < self.live_ids().len() && self.live_ids()[w] == x;
                assert(self.live().contains(self.live()[w]));
                assert(pre.contains(self.live()[w]));
                let v = choose|v: int| 0 <= v < pre.len() && pre[v] == self.live()[w];
                assert(ids_of(pre)[v] == x);
            }
        }
    }
}

/// Pushing a fresh identifier keeps a distinct sequence distinct.
proof fn lemma_push_fresh_distinct(s: Seq<u64>, x: u64)
    requires
        s.no_duplicates(),
        !s.contains(x),
    ensures
        s.push(x).no_duplicates(),
{
    let t = s.push(x);
    assert forall|p: int, q: int|
        0 <= p < t.len() && 0 <= q < t.len() && p != q implies t[p] != t[q] by {
        if p < s.len() && q < s.len() {
            assert(t[p] == s[p] && t[q] == s[q]);
        } else if p < s.len() {
            assert(t[p] == s[p]);
        } else if q < s.len() {
            assert(t[q] == s[q]);
        }
    }
}

} // verus!
