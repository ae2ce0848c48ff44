//! State behind a wlr-foreign-toplevel handle: what each bound client was
//! told about one toplevel, and which protocol events a change calls for.
//! Protocol objects are identified by ids the caller assigns; the caller
//! sends the events to the instances the functions name.

use vstd::prelude::*;
use std::collections::HashMap;

verus! {

broadcast use vstd::std_specs::hash::group_hash_axioms;

/// `activated` entry of the protocol's state array.
pub const STATE_ACTIVATED: u32 = 2;

/// The state array announced for a toplevel: `[activated]` or empty.
pub open spec fn states_for(activated: bool) -> Seq<u32> {
    if activated {
        seq![STATE_ACTIVATED]
    } else {
        Seq::empty()
    }
}

pub fn activated_states(activated: bool) -> (s: Vec<u32>)
    ensures
        s@ == states_for(activated),
{
    let mut s = Vec::new();
    if activated {
        s.push(STATE_ACTIVATED);
    }
    assert(s@ =~= states_for(activated));
    s
}

/// What one toplevel has announced, and to which handle instances.
pub struct ForeignToplevelHandle {
    pub title: String,
    pub app_id: String,
    pub activated: bool,
    /// Ids of the protocol handle objects bound to this toplevel.
    pub instances: Vec<u64>,
    pub closed: bool,
}

/// Events sent to a freshly bound handle instance, in order.
pub struct InitialEvents {
    pub title: String,
    pub app_id: String,
    pub states: Vec<u32>,
}

impl ForeignToplevelHandle {
    pub fn new(title: String, app_id: String, activated: bool) -> (h: Self)
        ensures
            h.title == title,
            h.app_id == app_id,
            h.activated == activated,
            h.instances@ == Seq::<u64>::empty(),
            !h.closed,
    {
        ForeignToplevelHandle { title, app_id, activated, instances: Vec::new(), closed: false }
    }

    pub fn is_closed(&self) -> (b: bool)
        ensures
            b == self.closed,
    {
        self.closed
    }

    /// Records a new title. Returns whether it changed; only then is the
    /// title event sent to every instance.
    pub fn send_title(&mut self, title: &str) -> (changed: bool)
        ensures
            changed == (old(self).title@ != title@),
            final(self).title@ == title@,
            final(self).app_id == old(self).app_id,
            final(self).activated == old(self).activated,
            final(self).instances == old(self).instances,
            final(self).closed == old(self).closed,
    {
        let t = String::from_str(title);
        if self.title == t {
            return false;
        }
        self.title = t;
        true
    }

    /// Records a new app id. Returns whether it changed; only then is the
    /// app-id event sent to every instance.
    pub fn send_app_id(&mut self, app_id: &str) -> (changed: bool)
        ensures
            changed == (old(self).app_id@ != app_id@),
            final(self).app_id@ == app_id@,
            final(self).title == old(self).title,
            final(self).activated == old(self).activated,
            final(self).instances == old(self).instances,
            final(self).closed == old(self).closed,
    {
        let a = String::from_str(app_id);
        if self.app_id == a {
            return false;
        }
        self.app_id = a;
        true
    }

    /// Records the activation state. When it changed, returns the state
    /// array to send, followed by `done`, to every instance.
    pub fn send_activated(&mut self, activated: bool) -> (states: Option<Vec<u32>>)
        ensures
            final(self).activated == activated,
            old(self).activated == activated ==> states is None,
            old(self).activated != activated ==> (states matches Some(s) && s@ == states_for(activated)),
            final(self).title == old(self).title,
            final(self).app_id == old(self).app_id,
            final(self).instances == old(self).instances,
            final(self).closed == old(self).closed,
    {
        if self.activated == activated {
            return None;
        }
        self.activated = activated;
        Some(activated_states(activated))
    }

    /// Marks the toplevel closed. The first time, returns the instances that
    /// must be sent `closed` and forgets them; afterwards returns nothing.
    pub fn send_closed(&mut self) -> (notify: Vec<u64>)
        ensures
            final(self).closed,
            old(self).closed ==> notify@ == Seq::<u64>::empty() && final(self).instances
                == old(self).instances,
            !old(self).closed ==> notify@ == old(self).instances@ && final(self).instances@
                == Seq::<u64>::empty(),
            final(self).title == old(self).title,
            final(self).app_id == old(self).app_id,
            final(self).activated == old(self).activated,
    {
        if self.closed {
            return Vec::new();
        }
        self.closed = true;
        let mut drained: Vec<u64> = Vec::new();
        std::mem::swap(&mut drained, &mut self.instances);
        drained
    }

    /// Binds a new handle instance: returns the title, app id and state
    /// array to send it (then `done`), and remembers the instance.
    pub fn init_new_instance(&mut self, instance: u64) -> (events: InitialEvents)
        ensures
            events.title@ == old(self).title@,
            events.app_id@ == old(self).app_id@,
            events.states@ == states_for(old(self).activated),
            final(self).instances@ == old(self).instances@.push(instance),
            final(self).title == old(self).title,
            final(self).app_id == old(self).app_id,
            final(self).activated == old(self).activated,
            final(self).closed == old(self).closed,
    {
        let events = InitialEvents {
            title: self.title.clone(),
            app_id: self.app_id.clone(),
            states: activated_states(self.activated),
        };
        self.instances.push(instance);
        events
    }

    /// Forgets a destroyed handle instance.
    pub fn remove_instance(&mut self, instance: u64)
        ensures
            final(self).instances@ == old(self).instances@.filter(|i: u64| i != instance),
            final(self).title == old(self).title,
            final(self).app_id == old(self).app_id,
            final(self).activated == old(self).activated,
            final(self).closed == old(self).closed,
    {
        let ghost pred = |i: u64| i != instance;
        let mut kept: Vec<u64> = Vec::new();
        let mut k: usize = 0;
        while k < self.instances.len()
            invariant
                k <= self.instances.len(),
                pred == (|i: u64| i != instance),
                kept@ == self.instances@.subrange(0, k as int).filter(pred),
            decreases self.instances.len() - k,
        {
            proof {
                reveal(Seq::filter);
                assert(self.instances@.subrange(0, k + 1).drop_last() =~= self.instances@.subrange(0, k as int));
            }
            if self.instances[k] != instance {
                kept.push(self.instances[k]);
            }
            k = k + 1;
        }
        assert(self.instances@.subrange(0, self.instances.len() as int) =~= self.instances@);
        self.instances = kept;
    }
}

/// Whether a toplevel shows as activated: some node has focus and it is
/// the toplevel's node.
pub open spec fn toplevel_active(focused_node: Option<u64>, handle_node: Option<u64>) -> bool {
    focused_node is Some && focused_node == handle_node
}

/// A toplevel shows as activated exactly when some node has focus and the
/// toplevel belongs to that node: never without focus, never for a
/// toplevel without a node, and never for another node's toplevel.
pub proof fn lemma_toplevel_active(focused_node: Option<u64>, handle_node: Option<u64>)
    ensures
        focused_node is None ==> !toplevel_active(focused_node, handle_node),
        handle_node is None ==> !toplevel_active(focused_node, handle_node),
        focused_node matches Some(f) ==> (handle_node matches Some(n) ==> (toplevel_active(
            focused_node,
            handle_node,
        ) <==> f == n)),
{
}

pub fn is_toplevel_active(focused_node: Option<u64>, handle_node: Option<u64>) -> (b: bool)
    ensures
        b == toplevel_active(focused_node, handle_node),
{
    match (focused_node, handle_node) {
        (Some(f), Some(h)) => f == h,
        _ => false,
    }
}


// ---------------------------------------------------------------------------
// The protocol state: bound managers and the toplevels by surface
// ---------------------------------------------------------------------------

/// The node a surface belongs to, if any (`nodes` maps surfaces to nodes).
pub open spec fn node_of_surface(nodes: Map<u64, u64>, surface: u64) -> Option<u64> {
    if nodes.contains_key(surface) {
        Some(nodes[surface])
    } else {
        None
    }
}

/// A toplevel whose activation changed: send `states`, then `done`, to
/// each of its `instances`.
#[derive(Debug)]
pub struct ActivationChange {
    pub surface: u64,
    pub instances: Vec<u64>,
    pub states: Vec<u32>,
}

/// The wlr-foreign-toplevel manager state: the bound manager objects and
/// the handle of each toplevel, by surface id.
pub struct ForeignToplevelState {
    managers: Vec<u64>,
    toplevels: HashMap<u64, ForeignToplevelHandle>,
}

/// `g` is `h` with only its activation possibly changed, to `active`.
pub open spec fn reactivated(g: ForeignToplevelHandle, h: ForeignToplevelHandle, active: bool) -> bool {
    &&& g.activated == active
    &&& g.title == h.title
    &&& g.app_id == h.app_id
    &&& g.instances == h.instances
    &&& g.closed == h.closed
}

impl ForeignToplevelState {
    /// Bound manager objects, in bind order.
    pub closed spec fn bound_managers(&self) -> Seq<u64> {
        self.managers@
    }

    /// The handle of each toplevel, by surface id.
    pub closed spec fn toplevels(&self) -> Map<u64, ForeignToplevelHandle> {
        self.toplevels@
    }

    pub fn new() -> (st: Self)
        ensures
            st.bound_managers() == Seq::<u64>::empty(),
            st.toplevels() == Map::<u64, ForeignToplevelHandle>::empty(),
    {
        ForeignToplevelState { managers: Vec::new(), toplevels: HashMap::new() }
    }

    /// The bound manager objects, in bind order.
    pub fn managers(&self) -> (m: &[u64])
        ensures
            m@ == self.bound_managers(),
    {
        self.managers.as_slice()
    }

    /// The surfaces that have a toplevel, each once.
    fn surfaces(&self) -> (r: Vec<u64>)
        ensures
            r@.to_set() == self.toplevels().dom(),
            r@.no_duplicates(),
    {
        let mut out: Vec<u64> = Vec::new();
        for k in it: self.toplevels.keys()
            invariant
                out@ == it.seq().take(it.index() as int).map_values(|r: &u64| *r),
                it.seq().unref().to_set() == self.toplevels@.dom(),
                it.seq().unref() == it.seq().map_values(|r: &u64| *r),
                it.seq().map_values(|r: &u64| *r).no_duplicates(),
                it.index() == it.seq().len() ==> out@ == it.seq().map_values(|r: &u64| *r),
        {
            out.push(*k);
            assert(it.seq().take(it.index() + 1).map_values(|r: &u64| *r) =~= out@);
            assert(it.seq().take(it.seq().len() as int) =~= it.seq());
        }
        out
    }

    /// Remembers a newly bound manager object.
    pub fn add_manager(&mut self, manager: u64)
        ensures
            final(self).bound_managers() == old(self).bound_managers().push(manager),
            final(self).toplevels() == old(self).toplevels(),
    {
        self.managers.push(manager);
    }

    /// Forgets a manager object that stopped or was destroyed.
    pub fn remove_manager(&mut self, manager: u64)
        ensures
            final(self).bound_managers() == old(self).bound_managers().filter(|m: u64| m != manager),
            final(self).toplevels() == old(self).toplevels(),
    {
        let ghost pred = |m: u64| m != manager;
        let mut kept: Vec<u64> = Vec::new();
        let mut k: usize = 0;
        while k < self.managers.len()
            invariant
                k <= self.managers.len(),
                pred == (|m: u64| m != manager),
                kept@ == self.managers@.subrange(0, k as int).filter(pred),
            decreases self.managers.len() - k,
        {
            proof {
                reveal(Seq::filter);
                assert(self.managers@.subrange(0, k + 1).drop_last() =~= self.managers@.subrange(0, k as int));
            }
            if self.managers[k] != manager {
                kept.push(self.managers[k]);
            }
            k = k + 1;
        }
        assert(self.managers@.subrange(0, self.managers.len() as int) =~= self.managers@);
        self.managers = kept;
    }

    /// Records the handle of a new toplevel (replacing any earlier handle
    /// of the same surface).
    pub fn insert_toplevel(&mut self, surface: u64, handle: ForeignToplevelHandle)
        ensures
            final(self).toplevels() == old(self).toplevels().insert(surface, handle),
            final(self).bound_managers() == old(self).bound_managers(),
    {
        self.toplevels.insert(surface, handle);
    }

    /// Drops the toplevel of `surface` and closes it: returns the instances
    /// that must be sent `closed` (none when there was no such toplevel or
    /// it was closed already).
    pub fn remove_toplevel(&mut self, surface: u64) -> (notify: Vec<u64>)
        ensures
            final(self).toplevels() == old(self).toplevels().remove(surface),
            final(self).bound_managers() == old(self).bound_managers(),
            notify@ == (if old(self).toplevels().contains_key(surface) && !old(self).toplevels()[surface].closed {
                old(self).toplevels()[surface].instances@
            } else {
                Seq::<u64>::empty()
            }),
    {
        match self.toplevels.remove(&surface) {
            Some(handle) => {
                let mut handle = handle;
                handle.send_closed()
            },
            None => Vec::new(),
        }
    }

    /// Surfaces of the toplevels a newly bound manager is told about: those
    /// not closed yet, each once.
    pub fn bind_targets(&self) -> (surfaces: Vec<u64>)
        ensures
            surfaces@.no_duplicates(),
            forall|s: u64|
                surfaces@.contains(s) <==> (self.toplevels().contains_key(s) && !self.toplevels()[s].closed),
    {
        let keys = self.surfaces();
        let mut out: Vec<u64> = Vec::new();
        let mut i: usize = 0;
        while i < keys.len()
            invariant
                keys@.to_set() == self.toplevels().dom(),
                keys@.no_duplicates(),
                i <= keys.len(),
                out@.no_duplicates(),
                forall|s: u64|
                    out@.contains(s) <==> (keys@.subrange(0, i as int).contains(s) && !self.toplevels()[s].closed),
            decreases keys.len() - i,
        {
            let s = keys[i];
            let ghost old_out = out@;
            assert(keys@.subrange(0, i + 1) =~= keys@.subrange(0, i as int).push(s));
            assert(keys@.contains(s)) by {
                assert(keys@[i as int] == s);
            }
            assert(self.toplevels().contains_key(s)) by {
                assert(keys@.to_set().contains(s));
            }
            let closed = match self.toplevels.get(&s) {
                Some(h) => h.closed,
                None => true,
            };
            assert(closed == self.toplevels()[s].closed);
            if !closed {
                proof {
                    if out@.contains(s) {
                        let q = choose|q: int| 0 <= q < i && keys@.subrange(0, i as int)[q] == s;
                        assert(keys@[q] == keys@[i as int]);
                    }
                }
                out.push(s);
            }
            proof {
                assert forall|q: u64| out@.contains(q) <==> (keys@.subrange(0, i + 1).contains(q)
                    && !self.toplevels()[q].closed) by {
                    vstd::seq_lib::lemma_seq_contains_after_push(keys@.subrange(0, i as int), s, q);
                    vstd::seq_lib::lemma_seq_contains_after_push(old_out, s, q);
                }
            }
            i = i + 1;
        }
        assert(keys@.subrange(0, keys.len() as int) =~= keys@);
        proof {
            assert forall|s: u64| keys@.contains(s) == self.toplevels().contains_key(s) by {
                assert(keys@.to_set().contains(s) == keys@.contains(s));
            }
        }
        out
    }

    /// Updates the activation of every toplevel after a focus change: a
    /// toplevel is activated exactly when some node has focus and it is the
    /// toplevel's node (`nodes` maps surfaces to nodes). Returns the
    /// toplevels whose activation changed, each once, with what to send
    /// them.
    pub fn focus_changed(&mut self, focused_node: Option<u64>, nodes: &HashMap<u64, u64>) -> (changes: Vec<ActivationChange>)
        ensures
            final(self).bound_managers() == old(self).bound_managers(),
            final(self).toplevels().dom() == old(self).toplevels().dom(),
            forall|s: u64| #[trigger] final(self).toplevels().contains_key(s) ==> reactivated(
                final(self).toplevels()[s],
                old(self).toplevels()[s],
                toplevel_active(focused_node, node_of_surface(nodes@, s)),
            ),
            forall|k: int| 0 <= k < changes.len() ==> {
                let c = #[trigger] changes@[k];
                let h = old(self).toplevels()[c.surface];
                &&& old(self).toplevels().contains_key(c.surface)
                &&& h.activated != toplevel_active(focused_node, node_of_surface(nodes@, c.surface))
                &&& c.instances@ == h.instances@
                &&& c.states@ == states_for(toplevel_active(focused_node, node_of_surface(nodes@, c.surface)))
            },
            forall|s: u64|
                old(self).toplevels().contains_key(s) && old(self).toplevels()[s].activated != toplevel_active(
                    focused_node,
                    node_of_surface(nodes@, s),
                ) ==> exists|k: int| 0 <= k < changes.len() && (#[trigger] changes@[k]).surface == s,
            forall|k1: int, k2: int|
                0 <= k1 < k2 < changes.len() ==> (#[trigger] changes@[k1]).surface != (#[trigger] changes@[k2]).surface,
    {
        let keys = self.surfaces();
        let ghost old_map = self.toplevels@;
        let ghost nm = nodes@;
        let mut changes: Vec<ActivationChange> = Vec::new();
        let ghost mut orig: Seq<int> = Seq::empty();
        let ghost mut at: Seq<int> = Seq::empty();
        let mut j: usize = 0;
        while j < keys.len()
            invariant
                keys@.to_set() == old_map.dom(),
                keys@.no_duplicates(),
                j <= keys.len(),
                nm == nodes@,
                self.managers@ == old(self).managers@,
                self.toplevels@.dom() == old_map.dom(),
                forall|idx: int| 0 <= idx < j ==> reactivated(
                    self.toplevels@[#[trigger] keys@[idx]],
                    old_map[keys@[idx]],
                    toplevel_active(focused_node, node_of_surface(nm, keys@[idx])),
                ),
                forall|s: u64|
                    old_map.contains_key(s) && !keys@.subrange(0, j as int).contains(s) ==> #[trigger] self.toplevels@[s]
                        == old_map[s],
                orig.len() == changes@.len(),
                forall|k1: int, k2: int| 0 <= k1 < k2 < orig.len() ==> #[trigger] orig[k1] < #[trigger] orig[k2],
                forall|k: int| 0 <= k < changes@.len() ==> {
                    let c = changes@[k];
                    let idx = #[trigger] orig[k];
                    &&& 0 <= idx < j
                    &&& keys@[idx] == c.surface
                    &&& old_map[c.surface].activated != toplevel_active(focused_node, node_of_surface(nm, c.surface))
                    &&& c.instances@ == old_map[c.surface].instances@
                    &&& c.states@ == states_for(toplevel_active(focused_node, node_of_surface(nm, c.surface)))
                },
                at.len() == j,
                forall|idx: int| 0 <= idx < j && old_map[keys@[idx]].activated != toplevel_active(
                    focused_node,
                    node_of_surface(nm, keys@[idx]),
                ) ==> 0 <= #[trigger] at[idx] < changes@.len() && changes@[at[idx]].surface == keys@[idx],
            decreases keys.len() - j,
        {
            let surface = keys[j];
            let ghost before_map = self.toplevels@;
            assert(old_map.contains_key(surface)) by {
                assert(keys@.to_set().contains(surface));
            }
            assert(!keys@.subrange(0, j as int).contains(surface)) by {
                if keys@.subrange(0, j as int).contains(surface) {
                    let q = choose|q: int| 0 <= q < j && keys@.subrange(0, j as int)[q] == surface;
                    assert(keys@[q] == keys@[j as int]);
                }
            }
            assert(before_map[surface] == old_map[surface]);
            let removed = self.toplevels.remove(&surface);
            let mut handle = match removed {
                Some(h) => h,
                None => {
                    assert(false);
                    return changes;
                },
            };
            let handle_node = match nodes.get(&surface) {
                Some(n) => Some(*n),
                None => None,
            };
            assert(handle_node == node_of_surface(nm, surface));
            let active = is_toplevel_active(focused_node, handle_node);
            let ghost before_changes = changes@;
            let ghost before_orig = orig;
            match handle.send_activated(active) {
                Some(states) => {
                    let instances = handle.instances.clone();
                    changes.push(ActivationChange { surface, instances, states });
                    proof {
                        orig = orig.push(j as int);
                        at = at.push(before_changes.len() as int);
                        assert forall|k1: int, k2: int| 0 <= k1 < k2 < orig.len() implies #[trigger] orig[k1] < #[trigger] orig[k2] by {
                            assert(orig[k1] == before_orig[k1]);
                            if k2 < before_orig.len() {
                                assert(orig[k2] == before_orig[k2]);
                            }
                        }
                        assert forall|k: int| 0 <= k < changes@.len() implies {
                            let c = changes@[k];
                            let idx = #[trigger] orig[k];
                            &&& 0 <= idx < j + 1
                            &&& keys@[idx] == c.surface
                            &&& old_map[c.surface].activated != toplevel_active(focused_node, node_of_surface(nm, c.surface))
                            &&& c.instances@ == old_map[c.surface].instances@
                            &&& c.states@ == states_for(toplevel_active(focused_node, node_of_surface(nm, c.surface)))
                        } by {
                            if k < before_changes.len() {
                                assert(changes@[k] == before_changes[k]);
                                assert(orig[k] == before_orig[k]);
                            }
                        }
                        assert forall|idx: int| 0 <= idx < j + 1 && old_map[keys@[idx]].activated != toplevel_active(
                            focused_node,
                            node_of_surface(nm, keys@[idx]),
                        ) implies 0 <= #[trigger] at[idx] < changes@.len() && changes@[at[idx]].surface == keys@[idx] by {
                            if idx < j {
                                assert(changes@[at[idx]] == before_changes[at[idx]]);
                            }
                        }
                    }
                },
                None => {
                    proof {
                        at = at.push(-1);
                    }
                },
            }
            self.toplevels.insert(surface, handle);
            proof {
                assert(keys@.subrange(0, j + 1) =~= keys@.subrange(0, j as int).push(surface));
                assert(self.toplevels@ == before_map.remove(surface).insert(surface, handle));
                assert forall|idx: int| 0 <= idx < j + 1 implies reactivated(
                    self.toplevels@[#[trigger] keys@[idx]],
                    old_map[keys@[idx]],
                    toplevel_active(focused_node, node_of_surface(nm, keys@[idx])),
                ) by {
                    if idx < j {
                        assert(keys@[idx] != surface) by {
                            assert(keys@[idx] != keys@[j as int]);
                        }
                    }
                }
                assert forall|s: u64|
                    old_map.contains_key(s) && !keys@.subrange(0, j + 1).contains(s) implies #[trigger] self.toplevels@[s]
                        == old_map[s] by {
                    assert(s != surface) by {
                        assert(keys@.subrange(0, j + 1)[j as int] == surface);
                    }
                    if keys@.subrange(0, j as int).contains(s) {
                        let q = choose|q: int| 0 <= q < j && keys@.subrange(0, j as int)[q] == s;
                        assert(keys@.subrange(0, j + 1)[q] == s);
                    }
                }
                assert(self.toplevels@.dom() =~= old_map.dom());
            }
            j = j + 1;
        }
        proof {
            assert forall|s: u64| old_map.contains_key(s) implies exists|idx: int| 0 <= idx < keys.len() && keys@[idx] == s by {
                assert(keys@.to_set().contains(s));
            }
            assert forall|s: u64| #[trigger] self.toplevels@.contains_key(s) implies reactivated(
                self.toplevels@[s],
                old_map[s],
                toplevel_active(focused_node, node_of_surface(nodes@, s)),
            ) by {
                let idx = choose|idx: int| 0 <= idx < keys.len() && keys@[idx] == s;
                assert(reactivated(
                    self.toplevels@[keys@[idx]],
                    old_map[keys@[idx]],
                    toplevel_active(focused_node, node_of_surface(nm, keys@[idx])),
                ));
            }
            assert forall|s: u64|
                old_map.contains_key(s) && old_map[s].activated != toplevel_active(
                    focused_node,
                    node_of_surface(nodes@, s),
                ) implies exists|k: int| 0 <= k < changes.len() && (#[trigger] changes@[k]).surface == s by {
                let idx = choose|idx: int| 0 <= idx < keys.len() && keys@[idx] == s;
                assert(0 <= at[idx] < changes@.len());
                assert(changes@[at[idx]].surface == s);
            }
            assert forall|k1: int, k2: int| 0 <= k1 < k2 < changes.len() implies (#[trigger] changes@[k1]).surface
                != (#[trigger] changes@[k2]).surface by {
                assert(orig[k1] < orig[k2]);
                assert(keys@[orig[k1]] != keys@[orig[k2]]);
            }
            assert forall|k: int| 0 <= k < changes.len() implies {
                let c = #[trigger] changes@[k];
                let h = old_map[c.surface];
                &&& old_map.contains_key(c.surface)
                &&& h.activated != toplevel_active(focused_node, node_of_surface(nodes@, c.surface))
                &&& c.instances@ == h.instances@
                &&& c.states@ == states_for(toplevel_active(focused_node, node_of_surface(nodes@, c.surface)))
            } by {
                let idx = orig[k];
                assert(0 <= idx < keys.len());
                assert(keys@.contains(keys@[idx]));
                assert(keys@.to_set().contains(keys@[idx]));
            }
        }
        changes
    }

    /// Binds a new handle instance to the toplevel of `surface`: the events
    /// to send it, or `None` when there is no such toplevel.
    pub fn init_instance(&mut self, surface: u64, instance: u64) -> (events: Option<InitialEvents>)
        ensures
            final(self).bound_managers() == old(self).bound_managers(),
            !old(self).toplevels().contains_key(surface) ==> events is None && final(self).toplevels()
                == old(self).toplevels(),
            old(self).toplevels().contains_key(surface) ==> {
                let h = old(self).toplevels()[surface];
                let g = final(self).toplevels()[surface];
                &&& events matches Some(e)
                &&& e.title@ == h.title@
                &&& e.app_id@ == h.app_id@
                &&& e.states@ == states_for(h.activated)
                &&& final(self).toplevels() == old(self).toplevels().insert(surface, g)
                &&& g.instances@ == h.instances@.push(instance)
                &&& g.title == h.title && g.app_id == h.app_id && g.activated == h.activated && g.closed == h.closed
            },
    {
        let ghost before = self.toplevels@;
        match self.toplevels.remove(&surface) {
            Some(handle) => {
                let mut handle = handle;
                let events = handle.init_new_instance(instance);
                self.toplevels.insert(surface, handle);
                assert(self.toplevels@ =~= before.insert(surface, handle));
                Some(events)
            },
            None => {
                assert(self.toplevels@ =~= before);
                None
            },
        }
    }

    /// Records a new title for the toplevel of `surface`; returns the
    /// instances to send it to: all of them when it changed, none when it
    /// did not or there is no such toplevel.
    pub fn send_title(&mut self, surface: u64, title: &str) -> (notify: Vec<u64>)
        ensures
            final(self).bound_managers() == old(self).bound_managers(),
            !old(self).toplevels().contains_key(surface) ==> notify@ == Seq::<u64>::empty()
                && final(self).toplevels() == old(self).toplevels(),
            old(self).toplevels().contains_key(surface) ==> {
                let h = old(self).toplevels()[surface];
                let g = final(self).toplevels()[surface];
                &&& final(self).toplevels() == old(self).toplevels().insert(surface, g)
                &&& g.title@ == title@
                &&& notify@ == (if h.title@ != title@ { h.instances@ } else { Seq::<u64>::empty() })
                &&& g.app_id == h.app_id && g.activated == h.activated && g.instances == h.instances
                    && g.closed == h.closed
            },
    {
        let ghost before = self.toplevels@;
        match self.toplevels.remove(&surface) {
            Some(handle) => {
                let mut handle = handle;
                let notify = if handle.send_title(title) {
                    handle.instances.clone()
                } else {
                    Vec::new()
                };
                self.toplevels.insert(surface, handle);
                assert(self.toplevels@ =~= before.insert(surface, handle));
                notify
            },
            None => {
                assert(self.toplevels@ =~= before);
                Vec::new()
            },
        }
    }

    /// Records a new app id for the toplevel of `surface`; returns the
    /// instances to send it to: all of them when it changed, none when it
    /// did not or there is no such toplevel.
    pub fn send_app_id(&mut self, surface: u64, app_id: &str) -> (notify: Vec<u64>)
        ensures
            final(self).bound_managers() == old(self).bound_managers(),
            !old(self).toplevels().contains_key(surface) ==> notify@ == Seq::<u64>::empty()
                && final(self).toplevels() == old(self).toplevels(),
            old(self).toplevels().contains_key(surface) ==> {
                let h = old(self).toplevels()[surface];
                let g = final(self).toplevels()[surface];
                &&& final(self).toplevels() == old(self).toplevels().insert(surface, g)
                &&& g.app_id@ == app_id@
                &&& notify@ == (if h.app_id@ != app_id@ { h.instances@ } else { Seq::<u64>::empty() })
                &&& g.title == h.title && g.activated == h.activated && g.instances == h.instances
                    && g.closed == h.closed
            },
    {
        let ghost before = self.toplevels@;
        match self.toplevels.remove(&surface) {
            Some(handle) => {
                let mut handle = handle;
                let notify = if handle.send_app_id(app_id) {
                    handle.instances.clone()
                } else {
                    Vec::new()
                };
                self.toplevels.insert(surface, handle);
                assert(self.toplevels@ =~= before.insert(surface, handle));
                notify
            },
            None => {
                assert(self.toplevels@ =~= before);
                Vec::new()
            },
        }
    }

    /// Forgets a destroyed handle instance of the toplevel of `surface`.
    pub fn remove_instance(&mut self, surface: u64, instance: u64)
        ensures
            final(self).bound_managers() == old(self).bound_managers(),
            !old(self).toplevels().contains_key(surface) ==> final(self).toplevels() == old(self).toplevels(),
            old(self).toplevels().contains_key(surface) ==> {
                let h = old(self).toplevels()[surface];
                let g = final(self).toplevels()[surface];
                &&& final(self).toplevels() == old(self).toplevels().insert(surface, g)
                &&& g.instances@ == h.instances@.filter(|i: u64| i != instance)
                &&& g.title == h.title && g.app_id == h.app_id && g.activated == h.activated && g.closed == h.closed
            },
    {
        let ghost before = self.toplevels@;
        match self.toplevels.remove(&surface) {
            Some(handle) => {
                let mut handle = handle;
                handle.remove_instance(instance);
                self.toplevels.insert(surface, handle);
                assert(self.toplevels@ =~= before.insert(surface, handle));
            },
            None => {
                assert(self.toplevels@ =~= before);
            },
        }
    }
}

} // verus!
