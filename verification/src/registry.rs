use vstd::prelude::*;
use crate::brick::{Brick, BrickConfig, FirewallRule};
use crate::errors::{ApiError, Side};
use crate::graph::{
    brick_added, detached, lemma_remove_insert, link_post, preserves_others, unlink_pair_post,
    Graph,
};
use crate::names::{create_name, names_unique};

verus! {

/// One graph together with its running flag, shared between the registry
/// and the driver loop bound to it. The flag and the graph are guarded
/// together: a caller holds the handle exclusively while touching either.
pub struct GraphHandle {
    pub graph: Graph,
    pub running: bool,
}

impl GraphHandle {
    /// One iteration of the driver loop: check the running flag and,
    /// while it holds, drive the graph one poll step. The check and the
    /// poll happen under the same exclusive access, so a flag flip is
    /// observed no later than the next iteration. Returns whether the
    /// loop should go on.
    pub fn driver_step(&mut self) -> (cont: bool)
        ensures
            cont == old(self).running,
            *final(self) == *old(self),
    {
        if self.running {
            self.graph.poll();
            true
        } else {
            false
        }
    }
}

/// Does the sequence hold a handle whose graph has that name?
pub open spec fn handle_has(s: Seq<GraphHandle>, n: Seq<char>) -> bool {
    exists|i: int| 0 <= i < s.len() && s[i].graph.name@ == n
}

/// The position of the handle of that name (meaningful under
/// `handle_has` and `unique_graphs`).
pub open spec fn handle_index(s: Seq<GraphHandle>, n: Seq<char>) -> int {
    choose|i: int| 0 <= i < s.len() && s[i].graph.name@ == n
}

/// The handle of that name (meaningful under `handle_has` and
/// `unique_graphs`).
pub open spec fn handle_of(s: Seq<GraphHandle>, n: Seq<char>) -> GraphHandle {
    s[handle_index(s, n)]
}

/// Graph names are pairwise distinct.
pub open spec fn unique_graphs(s: Seq<GraphHandle>) -> bool {
    forall|i: int, j: int| 0 <= i < j < s.len() ==> s[i].graph.name@ != s[j].graph.name@
}

/// Handles other than the named one keep their membership and state; the
/// named one, if present, stays present with its name and flag.
pub open spec fn reg_frame(old_s: Seq<GraphHandle>, new_s: Seq<GraphHandle>, g: Seq<char>) -> bool {
    &&& forall|n: Seq<char>|
        #![trigger handle_has(new_s, n)]
        #![trigger handle_has(old_s, n)]
        n != g ==> {
            &&& (handle_has(new_s, n) <==> handle_has(old_s, n))
            &&& (handle_has(old_s, n) ==> handle_of(new_s, n) == handle_of(old_s, n))
        }
    &&& (handle_has(new_s, g) <==> handle_has(old_s, g))
    &&& (handle_has(old_s, g) ==> handle_of(new_s, g).running == handle_of(old_s, g).running
        && handle_of(new_s, g).graph.name == handle_of(old_s, g).graph.name)
}

/// Under unique names, a position holding the name is the position the
/// name resolves to.
pub proof fn lemma_handle_index_unique(s: Seq<GraphHandle>, i: int, n: Seq<char>)
    requires
        unique_graphs(s),
        0 <= i < s.len(),
        s[i].graph.name@ == n,
    ensures
        handle_has(s, n),
        handle_index(s, n) == i,
        handle_of(s, n) == s[i],
{
    assert(handle_has(s, n));
    let j = handle_index(s, n);
    assert(0 <= j < s.len() && s[j].graph.name@ == n);
    if j < i {
        assert(s[j].graph.name@ != s[i].graph.name@);
    } else if i < j {
        assert(s[i].graph.name@ != s[j].graph.name@);
    }
}

/// Removing a position keeps names unique, drops exactly that name, and
/// leaves every other name's handle unchanged.
pub proof fn lemma_handle_remove(s: Seq<GraphHandle>, i: int)
    requires
        unique_graphs(s),
        0 <= i < s.len(),
    ensures
        unique_graphs(s.remove(i)),
        !handle_has(s.remove(i), s[i].graph.name@),
        forall|n: Seq<char>| #![trigger handle_has(s.remove(i), n)] #![trigger handle_has(s, n)]
            n != s[i].graph.name@ ==> (handle_has(s.remove(i), n) <==> handle_has(s, n)),
        forall|n: Seq<char>|
            n != s[i].graph.name@ && handle_has(s, n) ==> #[trigger] handle_of(s.remove(i), n)
                == handle_of(s, n),
{
    let t = s.remove(i);
    assert(forall|k: int| 0 <= k < t.len() ==> t[k] == (if k < i {
        s[k]
    } else {
        s[k + 1]
    }));
    assert forall|n: Seq<char>| n != s[i].graph.name@ && handle_has(s, n) implies handle_has(
        t,
        n,
    ) by {
        let k = choose|k: int| 0 <= k < s.len() && s[k].graph.name@ == n;
        if k < i {
            assert(t[k].graph.name@ == n);
        } else {
            assert(k != i);
            assert(t[k - 1].graph.name@ == n);
        }
    }
    assert forall|n: Seq<char>| handle_has(t, n) implies handle_has(s, n) && n
        != s[i].graph.name@ by {
        let k = choose|k: int| 0 <= k < t.len() && t[k].graph.name@ == n;
        if k < i {
            assert(s[k].graph.name@ == n);
            assert(s[k].graph.name@ != s[i].graph.name@);
        } else {
            assert(s[k + 1].graph.name@ == n);
            assert(s[k + 1].graph.name@ != s[i].graph.name@);
        }
    }
    assert forall|n: Seq<char>| n != s[i].graph.name@ && handle_has(s, n) implies handle_of(t, n)
        == handle_of(s, n) by {
        let k = handle_index(s, n);
        assert(0 <= k < s.len() && s[k].graph.name@ == n);
        lemma_handle_index_unique(s, k, n);
        if k < i {
            lemma_handle_index_unique(t, k, n);
        } else {
            assert(t[k - 1].graph.name@ == n);
            lemma_handle_index_unique(t, k - 1, n);
        }
    }
}

/// Pushing a handle with a new name keeps names unique and leaves every
/// other name's handle unchanged.
pub proof fn lemma_handle_push(s: Seq<GraphHandle>, h: GraphHandle)
    requires
        unique_graphs(s),
        !handle_has(s, h.graph.name@),
    ensures
        unique_graphs(s.push(h)),
        handle_has(s.push(h), h.graph.name@),
        handle_of(s.push(h), h.graph.name@) == h,
        forall|n: Seq<char>| #![trigger handle_has(s.push(h), n)] #![trigger handle_has(s, n)]
            n != h.graph.name@ ==> (handle_has(s.push(h), n) <==> handle_has(s, n)),
        forall|n: Seq<char>|
            n != h.graph.name@ && handle_has(s, n) ==> #[trigger] handle_of(s.push(h), n)
                == handle_of(s, n),
{
    let t = s.push(h);
    assert(forall|k: int| 0 <= k < s.len() ==> t[k] == s[k]);
    assert(t[s.len() as int] == h);
    assert forall|i: int, j: int| 0 <= i < j < t.len() implies t[i].graph.name@
        != t[j].graph.name@ by {
        if j < s.len() {
        } else {
            assert(t[j] == h);
            assert(s[i].graph.name@ != h.graph.name@) by {
                if s[i].graph.name@ == h.graph.name@ {
                    assert(handle_has(s, h.graph.name@));
                }
            }
        }
    }
    lemma_handle_index_unique(t, s.len() as int, h.graph.name@);
    assert forall|n: Seq<char>| n != h.graph.name@ implies (handle_has(t, n) <==> handle_has(
        s,
        n,
    )) by {
        if handle_has(t, n) {
            let k = choose|k: int| 0 <= k < t.len() && t[k].graph.name@ == n;
            assert(k != s.len());
            assert(s[k].graph.name@ == n);
        }
        if handle_has(s, n) {
            let k = choose|k: int| 0 <= k < s.len() && s[k].graph.name@ == n;
            assert(t[k].graph.name@ == n);
        }
    }
    assert forall|n: Seq<char>| n != h.graph.name@ && handle_has(s, n) implies handle_of(t, n)
        == handle_of(s, n) by {
        let k = handle_index(s, n);
        assert(0 <= k < s.len() && s[k].graph.name@ == n);
        lemma_handle_index_unique(s, k, n);
        lemma_handle_index_unique(t, k, n);
    }
}

/// Replacing the handle at a position by one of the same name keeps
/// names unique and leaves every other name's handle unchanged.
pub proof fn lemma_handle_update(s: Seq<GraphHandle>, i: int, h: GraphHandle)
    requires
        unique_graphs(s),
        0 <= i < s.len(),
        h.graph.name@ == s[i].graph.name@,
    ensures
        unique_graphs(s.update(i, h)),
        handle_has(s.update(i, h), h.graph.name@),
        handle_of(s.update(i, h), h.graph.name@) == h,
        forall|n: Seq<char>| #![trigger handle_has(s.update(i, h), n)] #![trigger handle_has(s, n)]
            n != h.graph.name@ ==> (handle_has(s.update(i, h), n) <==> handle_has(s, n)),
        forall|n: Seq<char>|
            n != h.graph.name@ && handle_has(s, n) ==> #[trigger] handle_of(s.update(i, h), n)
                == handle_of(s, n),
{
    let t = s.update(i, h);
    assert(forall|k: int| 0 <= k < s.len() && k != i ==> t[k] == s[k]);
    assert(t[i] == h);
    assert forall|p: int, q: int| 0 <= p < q < t.len() implies t[p].graph.name@
        != t[q].graph.name@ by {
        assert(t[p].graph.name@ == s[p].graph.name@);
        assert(t[q].graph.name@ == s[q].graph.name@);
    }
    lemma_handle_index_unique(t, i, h.graph.name@);
    assert forall|n: Seq<char>| n != h.graph.name@ implies (handle_has(t, n) <==> handle_has(
        s,
        n,
    )) by {
        if handle_has(t, n) {
            let k = choose|k: int| 0 <= k < t.len() && t[k].graph.name@ == n;
            assert(k != i);
            assert(s[k].graph.name@ == n);
        }
        if handle_has(s, n) {
            let k = choose|k: int| 0 <= k < s.len() && s[k].graph.name@ == n;
            assert(k != i);
            assert(t[k].graph.name@ == n);
        }
    }
    assert forall|n: Seq<char>| n != h.graph.name@ && handle_has(s, n) implies handle_of(t, n)
        == handle_of(s, n) by {
        let k = handle_index(s, n);
        assert(0 <= k < s.len() && s[k].graph.name@ == n);
        lemma_handle_index_unique(s, k, n);
        assert(k != i);
        lemma_handle_index_unique(t, k, n);
    }
}

/// The read-only projection of one graph: its name and the names of the
/// bricks it contains.
pub struct GraphDescription {
    pub name: String,
    pub bricks: Vec<String>,
}

impl GraphDescription {
    /// Copies the graph's name and brick-name set out of a read borrow.
    pub fn new(graph: &Graph) -> (d: GraphDescription)
        ensures
            d.name@ == graph.name@,
            d.bricks@.len() == graph.bricks@.len(),
            forall|i: int| 0 <= i < graph.bricks@.len() ==> #[trigger] d.bricks@[i]@
                == graph.bricks@[i].name@,
    {
        let mut bricks: Vec<String> = Vec::new();
        let mut i: usize = 0;
        while i < graph.bricks.len()
            invariant
                i <= graph.bricks@.len(),
                bricks@.len() == i,
                forall|j: int| 0 <= j < i ==> #[trigger] bricks@[j]@ == graph.bricks@[j].name@,
            decreases graph.bricks@.len() - i,
        {
            bricks.push(graph.bricks[i].name.clone());
            i += 1;
        }
        GraphDescription { name: graph.name.clone(), bricks }
    }
}

/// The read-only projection of one brick: its name and kind tag.
pub struct BrickDescription {
    pub name: String,
    pub kind_name: String,
}

impl BrickDescription {
    /// Copies the brick's name and kind tag out of a read borrow.
    pub fn new(brick: &Brick) -> (d: BrickDescription)
        ensures
            d.name@ == brick.name@,
            d.kind_name@ == brick.kind_name(),
    {
        BrickDescription { name: brick.name.clone(), kind_name: brick.type_str() }
    }
}

/// The single entry point for all control operations: a mapping from
/// graph name to graph handle. A name maps to at most one handle at a
/// time.
pub struct Registry {
    pub handles: Vec<GraphHandle>,
}

impl Registry {
    /// The registry is well formed: graph names unique, every graph well
    /// formed.
    pub open spec fn wf(self) -> bool {
        &&& unique_graphs(self.handles@)
        &&& forall|i: int| 0 <= i < self.handles@.len() ==> (#[trigger] self.handles@[i]).graph.wf()
    }

    /// Is a graph of that name registered?
    pub open spec fn has_graph(self, n: Seq<char>) -> bool {
        handle_has(self.handles@, n)
    }

    /// The handle of that name (meaningful under `has_graph`).
    pub open spec fn graph_handle(self, n: Seq<char>) -> GraphHandle {
        handle_of(self.handles@, n)
    }

    /// The set of currently registered graph names.
    pub open spec fn name_set(self) -> Set<Seq<char>> {
        Set::new(|n: Seq<char>| handle_has(self.handles@, n))
    }

    /// The registry's graph-name column, in registration order.
    pub open spec fn graph_names(self) -> Seq<Seq<char>> {
        self.handles@.map_values(|h: GraphHandle| h.graph.name@)
    }

    /// The registry's uniqueness invariant, read on its name column: the
    /// form `lemma_create_twice` speaks of.
    pub proof fn lemma_graph_names_unique(self)
        requires
            self.wf(),
        ensures
            names_unique(self.graph_names()),
    {
        assert forall|i: int, j: int|
            0 <= i < j < self.graph_names().len() implies self.graph_names()[i]
            != self.graph_names()[j] by {
            assert(self.graph_names()[i] == self.handles@[i].graph.name@);
            assert(self.graph_names()[j] == self.handles@[j].graph.name@);
        }
    }

    /// An empty registry.
    pub fn new() -> (r: Registry)
        ensures
            r.wf(),
            r.handles@.len() == 0,
            r.name_set() =~= Set::<Seq<char>>::empty(),
    {
        Registry { handles: Vec::new() }
    }

    /// Finds the position of the named graph, if any.
    fn find_graph(&self, name: &String) -> (r: Option<usize>)
        ensures
            match r {
                Some(i) => i < self.handles@.len() && self.handles@[i as int].graph.name@ == name@,
                None => !handle_has(self.handles@, name@),
            },
    {
        let mut i: usize = 0;
        while i < self.handles.len()
            invariant
                i <= self.handles@.len(),
                forall|j: int| 0 <= j < i ==> self.handles@[j].graph.name@ != name@,
            decreases self.handles@.len() - i,
        {
            if self.handles[i].graph.name == *name {
                return Some(i);
            }
            i += 1;
        }
        None
    }

    /// The set of currently registered graph names, copied under a read
    /// borrow.
    pub fn graphs(&self) -> (r: Vec<String>)
        ensures
            r@.len() == self.handles@.len(),
            forall|i: int| 0 <= i < r@.len() ==> #[trigger] r@[i]@ == self.handles@[i].graph.name@,
    {
        let mut r: Vec<String> = Vec::new();
        let mut i: usize = 0;
        while i < self.handles.len()
            invariant
                i <= self.handles@.len(),
                r@.len() == i,
                forall|j: int| 0 <= j < i ==> #[trigger] r@[j]@ == self.handles@[j].graph.name@,
            decreases self.handles@.len() - i,
        {
            r.push(self.handles[i].graph.name.clone());
            i += 1;
        }
        r
    }

    /// Registers a new, empty graph under the name and marks it running;
    /// refused with AlreadyExists when the name is taken. The caller is
    /// expected to bind a driver loop to the new handle.
    pub fn graph_new(&mut self, name: String) -> (r: Result<(), ApiError>)
        requires
            old(self).wf(),
        ensures
            final(self).wf(),
            r is Ok <==> !old(self).has_graph(name@),
            r is Err ==> r == Err::<(), ApiError>(ApiError::GraphAlreadyExists) && final(self).handles@ == old(self).handles@,
            r is Ok ==> final(self).handles@.len() == old(self).handles@.len() + 1,
            r is Ok ==> forall|i: int|
                0 <= i < old(self).handles@.len() ==> final(self).handles@[i] == old(self).handles@[i],
            r is Ok ==> final(self).handles@.last().graph.name == name,
            r is Ok ==> final(self).handles@.last().graph.bricks@.len() == 0,
            r is Ok ==> final(self).handles@.last().running == true,
            final(self).has_graph(name@),
            final(self).name_set() =~= old(self).name_set().insert(name@),
            (r is Ok) == create_name(old(self).graph_names(), name@).1,
            final(self).graph_names() =~= create_name(old(self).graph_names(), name@).0,
    {
        match self.find_graph(&name) {
            Some(i) => {
                proof {
                    lemma_handle_index_unique(self.handles@, i as int, name@);
                    assert(self.graph_names()[i as int] == name@);
                    assert(self.graph_names().contains(name@));
                }
                Err(ApiError::GraphAlreadyExists)
            },
            None => {
                let h = GraphHandle { graph: Graph::new(name), running: true };
                proof {
                    lemma_handle_push(self.handles@, h);
                    assert(!self.graph_names().contains(h.graph.name@)) by {
                        if self.graph_names().contains(h.graph.name@) {
                            let i = choose|i: int|
                                0 <= i < self.graph_names().len() && self.graph_names()[i]
                                    == h.graph.name@;
                            assert(self.handles@[i].graph.name@ == h.graph.name@);
                            assert(handle_has(self.handles@, h.graph.name@));
                        }
                    }
                }
                self.handles.push(h);
                proof {
                    assert(self.graph_names() =~= old(self).graph_names().push(
                        self.handles@.last().graph.name@,
                    ));
                }
                Ok(())
            },
        }
    }

    /// The read-only projection of the named graph, or NotFound.
    pub fn graph_get(&self, name: &String) -> (r: Result<GraphDescription, ApiError>)
        requires
            self.wf(),
        ensures
            r is Ok <==> self.has_graph(name@),
            r is Err ==> r == Err::<GraphDescription, ApiError>(ApiError::GraphNotFound),
            r matches Ok(d) ==> d.name@ == name@,
            r matches Ok(d) ==> d.bricks@.len() == self.graph_handle(name@).graph.bricks@.len(),
            r matches Ok(d) ==> forall|i: int|
                0 <= i < d.bricks@.len() ==> #[trigger] d.bricks@[i]@ == self.graph_handle(
                    name@,
                ).graph.bricks@[i].name@,
    {
        match self.find_graph(name) {
            None => Err(ApiError::GraphNotFound),
            Some(i) => {
                proof {
                    lemma_handle_index_unique(self.handles@, i as int, name@);
                }
                Ok(GraphDescription::new(&self.handles[i].graph))
            },
        }
    }

    /// Unregisters the named graph and tells its driver loop to stop:
    /// the handle's flag is flipped under exclusive access and the
    /// stopped handle is handed back. Deletion does not wait for the
    /// driver loop to observe the flag. NotFound when the name is absent.
    pub fn graph_delete(&mut self, name: &String) -> (r: Option<GraphHandle>)
        requires
            old(self).wf(),
        ensures
            final(self).wf(),
            r is Some <==> old(self).has_graph(name@),
            r is None ==> final(self).handles@ == old(self).handles@,
            r matches Some(h) ==> h.running == false,
            r matches Some(h) ==> h.graph == old(self).graph_handle(name@).graph,
            r is Some ==> final(self).handles@ == old(self).handles@.remove(
                handle_index(old(self).handles@, name@),
            ),
            !final(self).has_graph(name@),
            r is Some ==> forall|n: Seq<char>|
                #![trigger handle_has(final(self).handles@, n)]
                n != name@ ==> ((handle_has(final(self).handles@, n) <==> handle_has(
                    old(self).handles@,
                    n,
                )) && (handle_has(old(self).handles@, n) ==> handle_of(final(self).handles@, n)
                    == handle_of(old(self).handles@, n))),
            final(self).name_set() =~= old(self).name_set().remove(name@),
    {
        match self.find_graph(name) {
            None => None,
            Some(i) => {
                proof {
                    lemma_handle_index_unique(self.handles@, i as int, name@);
                    lemma_handle_remove(self.handles@, i as int);
                }
                let mut h = self.handles.remove(i);
                h.running = false;
                Some(h)
            },
        }
    }

    /// One driver-loop iteration for the named graph, under the
    /// registry's exclusive access: false once the graph is gone or told
    /// to stop, so the caller's loop exits.
    pub fn poll_graph(&mut self, name: &String) -> (cont: bool)
        requires
            old(self).wf(),
        ensures
            final(self).wf(),
            final(self).handles@ == old(self).handles@,
            cont == (old(self).has_graph(name@) && old(self).graph_handle(name@).running),
    {
        let i = match self.find_graph(name) {
            None => {
                return false;
            },
            Some(i) => i,
        };
        proof {
            lemma_handle_index_unique(self.handles@, i as int, name@);
        }
        let ghost s0 = self.handles@;
        let mut h = self.handles.remove(i);
        let cont = h.driver_step();
        proof {
            lemma_remove_insert(s0, i as int, h);
        }
        self.handles.insert(i, h);
        proof {
            assert(s0.update(i as int, h) =~= s0);
        }
        cont
    }

    /// Creates a nop brick in the named graph.
    pub fn nop_new(&mut self, graph_name: &String, name: String) -> (r: Result<(), ApiError>)
        requires
            old(self).wf(),
        ensures
            final(self).wf(),
            !old(self).has_graph(graph_name@) ==> r == Err::<(), ApiError>(ApiError::GraphNotFound)
                && final(self).handles@ == old(self).handles@,
            old(self).has_graph(graph_name@) ==> reg_frame(
                old(self).handles@,
                final(self).handles@,
                graph_name@,
            ),
            old(self).has_graph(graph_name@) && old(self).graph_handle(
                graph_name@,
            ).graph.has_brick(name@) ==> r == Err::<(), ApiError>(ApiError::BrickAlreadyExists)
                && final(self).graph_handle(graph_name@).graph.bricks@ == old(self).graph_handle(
                graph_name@,
            ).graph.bricks@,
            old(self).has_graph(graph_name@) && !old(self).graph_handle(
                graph_name@,
            ).graph.has_brick(name@) ==> r is Ok && brick_added(
                old(self).graph_handle(graph_name@).graph.bricks@,
                final(self).graph_handle(graph_name@).graph.bricks@,
                name@,
                BrickConfig::Nop,
            ),
            r is Ok <==> old(self).has_graph(graph_name@) && !old(self).graph_handle(
                graph_name@,
            ).graph.has_brick(name@),
    {
        let i = match self.find_graph(graph_name) {
            None => {
                return Err(ApiError::GraphNotFound);
            },
            Some(i) => i,
        };
        proof {
            lemma_handle_index_unique(self.handles@, i as int, graph_name@);
        }
        let ghost s0 = self.handles@;
        let mut h = self.handles.remove(i);
        let r = h.graph.add_brick(Brick::new(name, BrickConfig::Nop));
        proof {
            lemma_remove_insert(s0, i as int, h);
            lemma_handle_update(s0, i as int, h);
        }
        self.handles.insert(i, h);
        proof {
            assert(self.handles@ =~= s0.update(i as int, h));
            assert forall|j: int|
                0 <= j < self.handles@.len() implies (#[trigger] self.handles@[j]).graph.wf() by {
                if j != i {
                    assert(s0[j].graph.wf());
                }
            }
        }
        r
    }

    /// Creates a tap brick in the named graph.
    pub fn tap_new(&mut self, graph_name: &String, name: String) -> (r: Result<(), ApiError>)
        requires
            old(self).wf(),
        ensures
            final(self).wf(),
            !old(self).has_graph(graph_name@) ==> r == Err::<(), ApiError>(ApiError::GraphNotFound)
                && final(self).handles@ == old(self).handles@,
            old(self).has_graph(graph_name@) ==> reg_frame(
                old(self).handles@,
                final(self).handles@,
                graph_name@,
            ),
            old(self).has_graph(graph_name@) && old(self).graph_handle(
                graph_name@,
            ).graph.has_brick(name@) ==> r == Err::<(), ApiError>(ApiError::BrickAlreadyExists)
                && final(self).graph_handle(graph_name@).graph.bricks@ == old(self).graph_handle(
                graph_name@,
            ).graph.bricks@,
            old(self).has_graph(graph_name@) && !old(self).graph_handle(
                graph_name@,
            ).graph.has_brick(name@) ==> r is Ok && brick_added(
                old(self).graph_handle(graph_name@).graph.bricks@,
                final(self).graph_handle(graph_name@).graph.bricks@,
                name@,
                BrickConfig::Tap,
            ),
            r is Ok <==> old(self).has_graph(graph_name@) && !old(self).graph_handle(
                graph_name@,
            ).graph.has_brick(name@),
    {
        let i = match self.find_graph(graph_name) {
            None => {
                return Err(ApiError::GraphNotFound);
            },
            Some(i) => i,
        };
        proof {
            lemma_handle_index_unique(self.handles@, i as int, graph_name@);
        }
        let ghost s0 = self.handles@;
        let mut h = self.handles.remove(i);
        let r = h.graph.add_brick(Brick::new(name, BrickConfig::Tap));
        proof {
            lemma_remove_insert(s0, i as int, h);
            lemma_handle_update(s0, i as int, h);
        }
        self.handles.insert(i, h);
        proof {
            assert(self.handles@ =~= s0.update(i as int, h));
            assert forall|j: int|
                0 <= j < self.handles@.len() implies (#[trigger] self.handles@[j]).graph.wf() by {
                if j != i {
                    assert(s0[j].graph.wf());
                }
            }
        }
        r
    }

    /// Creates a firewall brick in the named graph; its rule set starts
    /// empty.
    pub fn firewall_new(&mut self, graph_name: &String, name: String) -> (r: Result<(), ApiError>)
        requires
            old(self).wf(),
        ensures
            final(self).wf(),
            !old(self).has_graph(graph_name@) ==> r == Err::<(), ApiError>(ApiError::GraphNotFound)
                && final(self).handles@ == old(self).handles@,
            old(self).has_graph(graph_name@) ==> reg_frame(
                old(self).handles@,
                final(self).handles@,
                graph_name@,
            ),
            old(self).has_graph(graph_name@) && old(self).graph_handle(
                graph_name@,
            ).graph.has_brick(name@) ==> r == Err::<(), ApiError>(ApiError::BrickAlreadyExists)
                && final(self).graph_handle(graph_name@).graph.bricks@ == old(self).graph_handle(
                graph_name@,
            ).graph.bricks@,
            old(self).has_graph(graph_name@) && !old(self).graph_handle(
                graph_name@,
            ).graph.has_brick(name@) ==> r is Ok && brick_added(
                old(self).graph_handle(graph_name@).graph.bricks@,
                final(self).graph_handle(graph_name@).graph.bricks@,
                name@,
                BrickConfig::Firewall,
            ),
            r is Ok <==> old(self).has_graph(graph_name@) && !old(self).graph_handle(
                graph_name@,
            ).graph.has_brick(name@),
    {
        let i = match self.find_graph(graph_name) {
            None => {
                return Err(ApiError::GraphNotFound);
            },
            Some(i) => i,
        };
        proof {
            lemma_handle_index_unique(self.handles@, i as int, graph_name@);
        }
        let ghost s0 = self.handles@;
        let mut h = self.handles.remove(i);
        let r = h.graph.add_brick(Brick::new(name, BrickConfig::Firewall));
        proof {
            lemma_remove_insert(s0, i as int, h);
            lemma_handle_update(s0, i as int, h);
        }
        self.handles.insert(i, h);
        proof {
            assert(self.handles@ =~= s0.update(i as int, h));
            assert forall|j: int|
                0 <= j < self.handles@.len() implies (#[trigger] self.handles@[j]).graph.wf() by {
                if j != i {
                    assert(s0[j].graph.wf());
                }
            }
        }
        r
    }

    /// Creates a hub brick with the given port counts per side.
    pub fn hub_new(
        &mut self,
        graph_name: &String,
        name: String,
        west_ports: u32,
        east_ports: u32,
    ) -> (r: Result<(), ApiError>)
        requires
            old(self).wf(),
        ensures
            final(self).wf(),
            !old(self).has_graph(graph_name@) ==> r == Err::<(), ApiError>(ApiError::GraphNotFound)
                && final(self).handles@ == old(self).handles@,
            old(self).has_graph(graph_name@) ==> reg_frame(
                old(self).handles@,
                final(self).handles@,
                graph_name@,
            ),
            old(self).has_graph(graph_name@) && old(self).graph_handle(
                graph_name@,
            ).graph.has_brick(name@) ==> r == Err::<(), ApiError>(ApiError::BrickAlreadyExists)
                && final(self).graph_handle(graph_name@).graph.bricks@ == old(self).graph_handle(
                graph_name@,
            ).graph.bricks@,
            old(self).has_graph(graph_name@) && !old(self).graph_handle(
                graph_name@,
            ).graph.has_brick(name@) ==> r is Ok && brick_added(
                old(self).graph_handle(graph_name@).graph.bricks@,
                final(self).graph_handle(graph_name@).graph.bricks@,
                name@,
                (BrickConfig::Hub { west_ports, east_ports }),
            ),
            r is Ok <==> old(self).has_graph(graph_name@) && !old(self).graph_handle(
                graph_name@,
            ).graph.has_brick(name@),
    {
        let i = match self.find_graph(graph_name) {
            None => {
                return Err(ApiError::GraphNotFound);
            },
            Some(i) => i,
        };
        proof {
            lemma_handle_index_unique(self.handles@, i as int, graph_name@);
        }
        let ghost s0 = self.handles@;
        let mut h = self.handles.remove(i);
        let r = h.graph.add_brick(Brick::new(name, BrickConfig::Hub { west_ports, east_ports }));
        proof {
            lemma_remove_insert(s0, i as int, h);
            lemma_handle_update(s0, i as int, h);
        }
        self.handles.insert(i, h);
        proof {
            assert(self.handles@ =~= s0.update(i as int, h));
            assert forall|j: int|
                0 <= j < self.handles@.len() implies (#[trigger] self.handles@[j]).graph.wf() by {
                if j != i {
                    assert(s0[j].graph.wf());
                }
            }
        }
        r
    }

    /// Creates a switch brick. The side selector must be "west" or
    /// "east"; anything else is refused with InvalidArgument before the
    /// graph is even resolved, and nothing is inserted.
    pub fn switch_new(
        &mut self,
        graph_name: &String,
        name: String,
        west_ports: u32,
        east_ports: u32,
        side_sel: &String,
    ) -> (r: Result<(), ApiError>)
        requires
            old(self).wf(),
        ensures
            final(self).wf(),
            !(side_sel@ == "west"@ || side_sel@ == "east"@) ==> r == Err::<(), ApiError>(
                ApiError::InvalidSide,
            ) && final(self).handles@ == old(self).handles@,
            (side_sel@ == "west"@ || side_sel@ == "east"@) && !old(self).has_graph(graph_name@)
                ==> r == Err::<(), ApiError>(ApiError::GraphNotFound) && final(self).handles@
                == old(self).handles@,
            (side_sel@ == "west"@ || side_sel@ == "east"@) && old(self).has_graph(graph_name@)
                ==> reg_frame(old(self).handles@, final(self).handles@, graph_name@),
            (side_sel@ == "west"@ || side_sel@ == "east"@) && old(self).has_graph(graph_name@)
                && old(self).graph_handle(graph_name@).graph.has_brick(name@) ==> r == Err::<
                (),
                ApiError,
            >(ApiError::BrickAlreadyExists) && final(self).graph_handle(graph_name@).graph.bricks@
                == old(self).graph_handle(graph_name@).graph.bricks@,
            (side_sel@ == "west"@ || side_sel@ == "east"@) && old(self).has_graph(graph_name@)
                && !old(self).graph_handle(graph_name@).graph.has_brick(name@) ==> r is Ok
                && brick_added(
                old(self).graph_handle(graph_name@).graph.bricks@,
                final(self).graph_handle(graph_name@).graph.bricks@,
                name@,
                (BrickConfig::Switch {
                    west_ports,
                    east_ports,
                    side: if side_sel@ == "west"@ {
                        Side::West
                    } else {
                        Side::East
                    },
                }),
            ),
            r is Ok <==> ((side_sel@ == "west"@ || side_sel@ == "east"@) && old(self).has_graph(
                graph_name@,
            ) && !old(self).graph_handle(graph_name@).graph.has_brick(name@)),
    {
        let side = match Side::from_str(side_sel) {
            None => {
                return Err(ApiError::InvalidSide);
            },
            Some(s) => s,
        };
        let i = match self.find_graph(graph_name) {
            None => {
                return Err(ApiError::GraphNotFound);
            },
            Some(i) => i,
        };
        proof {
            lemma_handle_index_unique(self.handles@, i as int, graph_name@);
        }
        let ghost s0 = self.handles@;
        let mut h = self.handles.remove(i);
        let r = h.graph.add_brick(
            Brick::new(name, BrickConfig::Switch { west_ports, east_ports, side }),
        );
        proof {
            lemma_remove_insert(s0, i as int, h);
            lemma_handle_update(s0, i as int, h);
        }
        self.handles.insert(i, h);
        proof {
            assert(self.handles@ =~= s0.update(i as int, h));
            assert forall|j: int|
                0 <= j < self.handles@.len() implies (#[trigger] self.handles@[j]).graph.wf() by {
                if j != i {
                    assert(s0[j].graph.wf());
                }
            }
        }
        r
    }

    /// Creates a nic brick. Exactly one of a virtual-device identifier
    /// and a physical port index must be given; both or neither is
    /// refused with InvalidArgument. Acquiring the device or port is the
    /// brick capability's own (external) concern.
    pub fn nic_new(
        &mut self,
        graph_name: &String,
        name: String,
        vdev: Option<String>,
        port: Option<u8>,
    ) -> (r: Result<(), ApiError>)
        requires
            old(self).wf(),
        ensures
            final(self).wf(),
            !old(self).has_graph(graph_name@) ==> r == Err::<(), ApiError>(ApiError::GraphNotFound)
                && final(self).handles@ == old(self).handles@,
            old(self).has_graph(graph_name@) && (vdev is Some <==> port is Some) ==> r == Err::<
                (),
                ApiError,
            >(ApiError::NicParameters) && final(self).handles@ == old(self).handles@,
            old(self).has_graph(graph_name@) ==> reg_frame(
                old(self).handles@,
                final(self).handles@,
                graph_name@,
            ),
            old(self).has_graph(graph_name@) && !(vdev is Some <==> port is Some) && old(self).graph_handle(graph_name@).graph.has_brick(name@) ==> r == Err::<(), ApiError>(
                ApiError::BrickAlreadyExists,
            ) && final(self).graph_handle(graph_name@).graph.bricks@ == old(self).graph_handle(
                graph_name@,
            ).graph.bricks@,
            old(self).has_graph(graph_name@) && !(vdev is Some <==> port is Some) && !old(self).graph_handle(graph_name@).graph.has_brick(name@) ==> r is Ok && brick_added(
                old(self).graph_handle(graph_name@).graph.bricks@,
                final(self).graph_handle(graph_name@).graph.bricks@,
                name@,
                (BrickConfig::Nic { vdev: vdev, port: port }),
            ),
            r is Ok <==> (old(self).has_graph(graph_name@) && !(vdev is Some <==> port is Some)
                && !old(self).graph_handle(graph_name@).graph.has_brick(name@)),
    {
        let i = match self.find_graph(graph_name) {
            None => {
                return Err(ApiError::GraphNotFound);
            },
            Some(i) => i,
        };
        proof {
            lemma_handle_index_unique(self.handles@, i as int, graph_name@);
        }
        if vdev.is_some() == port.is_some() {
            return Err(ApiError::NicParameters);
        }
        let ghost s0 = self.handles@;
        let mut h = self.handles.remove(i);
        let r = h.graph.add_brick(Brick::new(name, BrickConfig::Nic { vdev, port }));
        proof {
            lemma_remove_insert(s0, i as int, h);
            lemma_handle_update(s0, i as int, h);
        }
        self.handles.insert(i, h);
        proof {
            assert(self.handles@ =~= s0.update(i as int, h));
            assert forall|j: int|
                0 <= j < self.handles@.len() implies (#[trigger] self.handles@[j]).graph.wf() by {
                if j != i {
                    assert(s0[j].graph.wf());
                }
            }
        }
        r
    }

    /// The read-only projection of one brick, or NotFound.
    pub fn brick_get(&self, graph_name: &String, brick_name: &String) -> (r: Result<
        BrickDescription,
        ApiError,
    >)
        requires
            self.wf(),
        ensures
            !self.has_graph(graph_name@) ==> r == Err::<BrickDescription, ApiError>(
                ApiError::GraphNotFound,
            ),
            self.has_graph(graph_name@) && !self.graph_handle(graph_name@).graph.has_brick(
                brick_name@,
            ) ==> r == Err::<BrickDescription, ApiError>(ApiError::BrickNotFound),
            r is Ok <==> (self.has_graph(graph_name@) && self.graph_handle(
                graph_name@,
            ).graph.has_brick(brick_name@)),
            r matches Ok(d) ==> d.name@ == brick_name@ && d.kind_name@ == self.graph_handle(
                graph_name@,
            ).graph.brick(brick_name@).kind_name(),
    {
        let i = match self.find_graph(graph_name) {
            None => {
                return Err(ApiError::GraphNotFound);
            },
            Some(i) => i,
        };
        proof {
            lemma_handle_index_unique(self.handles@, i as int, graph_name@);
        }
        let j = match self.handles[i].graph.find_brick(brick_name) {
            None => {
                return Err(ApiError::BrickNotFound);
            },
            Some(j) => j,
        };
        proof {
            crate::graph::lemma_index_of_unique(
                self.handles@[i as int].graph.bricks@,
                j as int,
                brick_name@,
            );
        }
        Ok(BrickDescription::new(&self.handles[i].graph.bricks[j]))
    }

    /// Removes one brick from the named graph, or NotFound.
    pub fn brick_delete(&mut self, graph_name: &String, brick_name: &String) -> (r: Result<
        (),
        ApiError,
    >)
        requires
            old(self).wf(),
        ensures
            final(self).wf(),
            !old(self).has_graph(graph_name@) ==> r == Err::<(), ApiError>(ApiError::GraphNotFound)
                && final(self).handles@ == old(self).handles@,
            old(self).has_graph(graph_name@) ==> reg_frame(
                old(self).handles@,
                final(self).handles@,
                graph_name@,
            ),
            old(self).has_graph(graph_name@) && !old(self).graph_handle(
                graph_name@,
            ).graph.has_brick(brick_name@) ==> r == Err::<(), ApiError>(ApiError::BrickNotFound)
                && final(self).graph_handle(graph_name@).graph.bricks@ == old(self).graph_handle(
                graph_name@,
            ).graph.bricks@,
            old(self).has_graph(graph_name@) && old(self).graph_handle(graph_name@).graph.has_brick(
                brick_name@,
            ) ==> r is Ok && !final(self).graph_handle(graph_name@).graph.has_brick(brick_name@)
                && preserves_others(
                old(self).graph_handle(graph_name@).graph.bricks@,
                final(self).graph_handle(graph_name@).graph.bricks@,
                brick_name@,
                brick_name@,
            ),
            r is Ok <==> (old(self).has_graph(graph_name@) && old(self).graph_handle(
                graph_name@,
            ).graph.has_brick(brick_name@)),
    {
        let i = match self.find_graph(graph_name) {
            None => {
                return Err(ApiError::GraphNotFound);
            },
            Some(i) => i,
        };
        proof {
            lemma_handle_index_unique(self.handles@, i as int, graph_name@);
        }
        let ghost s0 = self.handles@;
        let mut h = self.handles.remove(i);
        let r = h.graph.brick_delete(brick_name);
        proof {
            lemma_remove_insert(s0, i as int, h);
            lemma_handle_update(s0, i as int, h);
        }
        self.handles.insert(i, h);
        proof {
            assert(self.handles@ =~= s0.update(i as int, h));
            assert forall|j: int|
                0 <= j < self.handles@.len() implies (#[trigger] self.handles@[j]).graph.wf() by {
                if j != i {
                    assert(s0[j].graph.wf());
                }
            }
        }
        r
    }

    /// Links two bricks of the named graph west-to-east, under the
    /// two-sided protocol of `Graph::link`.
    pub fn link(&mut self, graph_name: &String, west: &String, east: &String) -> (r: Result<
        (),
        ApiError,
    >)
        requires
            old(self).wf(),
        ensures
            final(self).wf(),
            !old(self).has_graph(graph_name@) ==> r == Err::<(), ApiError>(ApiError::GraphNotFound)
                && final(self).handles@ == old(self).handles@,
            old(self).has_graph(graph_name@) ==> reg_frame(
                old(self).handles@,
                final(self).handles@,
                graph_name@,
            ),
            old(self).has_graph(graph_name@) ==> link_post(
                old(self).graph_handle(graph_name@).graph,
                final(self).graph_handle(graph_name@).graph,
                west@,
                east@,
                r,
            ),
    {
        let i = match self.find_graph(graph_name) {
            None => {
                return Err(ApiError::GraphNotFound);
            },
            Some(i) => i,
        };
        proof {
            lemma_handle_index_unique(self.handles@, i as int, graph_name@);
        }
        let ghost s0 = self.handles@;
        let mut h = self.handles.remove(i);
        let r = h.graph.link(west, east);
        proof {
            lemma_remove_insert(s0, i as int, h);
            lemma_handle_update(s0, i as int, h);
        }
        self.handles.insert(i, h);
        proof {
            assert(self.handles@ =~= s0.update(i as int, h));
            assert forall|j: int|
                0 <= j < self.handles@.len() implies (#[trigger] self.handles@[j]).graph.wf() by {
                if j != i {
                    assert(s0[j].graph.wf());
                }
            }
        }
        r
    }

    /// Unlinks two bricks of the named graph, under the two-sided
    /// protocol of `Graph::unlink_from`.
    pub fn unlink_from(&mut self, graph_name: &String, west: &String, east: &String) -> (r: Result<
        (),
        ApiError,
    >)
        requires
            old(self).wf(),
        ensures
            final(self).wf(),
            !old(self).has_graph(graph_name@) ==> r == Err::<(), ApiError>(ApiError::GraphNotFound)
                && final(self).handles@ == old(self).handles@,
            old(self).has_graph(graph_name@) ==> reg_frame(
                old(self).handles@,
                final(self).handles@,
                graph_name@,
            ),
            old(self).has_graph(graph_name@) ==> unlink_pair_post(
                old(self).graph_handle(graph_name@).graph,
                final(self).graph_handle(graph_name@).graph,
                west@,
                east@,
                r,
            ),
    {
        let i = match self.find_graph(graph_name) {
            None => {
                return Err(ApiError::GraphNotFound);
            },
            Some(i) => i,
        };
        proof {
            lemma_handle_index_unique(self.handles@, i as int, graph_name@);
        }
        let ghost s0 = self.handles@;
        let mut h = self.handles.remove(i);
        let r = h.graph.unlink_from(west, east);
        proof {
            lemma_remove_insert(s0, i as int, h);
            lemma_handle_update(s0, i as int, h);
        }
        self.handles.insert(i, h);
        proof {
            assert(self.handles@ =~= s0.update(i as int, h));
            assert forall|j: int|
                0 <= j < self.handles@.len() implies (#[trigger] self.handles@[j]).graph.wf() by {
                if j != i {
                    assert(s0[j].graph.wf());
                }
            }
        }
        r
    }

    /// Detaches one brick of the named graph from every peer; always
    /// succeeds once the graph and the brick are found.
    pub fn unlink(&mut self, graph_name: &String, brick_name: &String) -> (r: Result<(), ApiError>)
        requires
            old(self).wf(),
        ensures
            final(self).wf(),
            !old(self).has_graph(graph_name@) ==> r == Err::<(), ApiError>(ApiError::GraphNotFound)
                && final(self).handles@ == old(self).handles@,
            old(self).has_graph(graph_name@) ==> reg_frame(
                old(self).handles@,
                final(self).handles@,
                graph_name@,
            ),
            old(self).has_graph(graph_name@) && !old(self).graph_handle(
                graph_name@,
            ).graph.has_brick(brick_name@) ==> r == Err::<(), ApiError>(ApiError::BrickNotFound)
                && final(self).graph_handle(graph_name@).graph.bricks@ == old(self).graph_handle(
                graph_name@,
            ).graph.bricks@,
            old(self).has_graph(graph_name@) && old(self).graph_handle(graph_name@).graph.has_brick(
                brick_name@,
            ) ==> r is Ok && final(self).graph_handle(graph_name@).graph.bricks@.len() == old(self).graph_handle(graph_name@).graph.bricks@.len() && (forall|k: int|
                0 <= k < old(self).graph_handle(graph_name@).graph.bricks@.len() ==> detached(
                    old(self).graph_handle(graph_name@).graph.bricks@[k],
                    #[trigger] final(self).graph_handle(graph_name@).graph.bricks@[k],
                    brick_name@,
                )),
            r is Ok <==> (old(self).has_graph(graph_name@) && old(self).graph_handle(
                graph_name@,
            ).graph.has_brick(brick_name@)),
    {
        let i = match self.find_graph(graph_name) {
            None => {
                return Err(ApiError::GraphNotFound);
            },
            Some(i) => i,
        };
        proof {
            lemma_handle_index_unique(self.handles@, i as int, graph_name@);
        }
        let ghost s0 = self.handles@;
        let mut h = self.handles.remove(i);
        let r = h.graph.unlink(brick_name);
        proof {
            lemma_remove_insert(s0, i as int, h);
            lemma_handle_update(s0, i as int, h);
        }
        self.handles.insert(i, h);
        proof {
            assert(self.handles@ =~= s0.update(i as int, h));
            assert forall|j: int|
                0 <= j < self.handles@.len() implies (#[trigger] self.handles@[j]).graph.wf() by {
                if j != i {
                    assert(s0[j].graph.wf());
                }
            }
        }
        r
    }

    /// Adds a firewall rule to one brick of the named graph, under the
    /// checks of `Graph::firewall_rule_add`.
    pub fn firewall_rule_add(
        &mut self,
        graph_name: &String,
        brick_name: &String,
        filter: String,
        side_sel: &String,
    ) -> (r: Result<(), ApiError>)
        requires
            old(self).wf(),
        ensures
            final(self).wf(),
            !old(self).has_graph(graph_name@) ==> r == Err::<(), ApiError>(ApiError::GraphNotFound)
                && final(self).handles@ == old(self).handles@,
            old(self).has_graph(graph_name@) ==> reg_frame(
                old(self).handles@,
                final(self).handles@,
                graph_name@,
            ),
            old(self).has_graph(graph_name@) && !old(self).graph_handle(
                graph_name@,
            ).graph.has_brick(brick_name@) ==> r == Err::<(), ApiError>(ApiError::BrickNotFound)
                && final(self).graph_handle(graph_name@).graph.bricks@ == old(self).graph_handle(
                graph_name@,
            ).graph.bricks@,
            old(self).has_graph(graph_name@) && old(self).graph_handle(graph_name@).graph.has_brick(
                brick_name@,
            ) && !(old(self).graph_handle(graph_name@).graph.brick(brick_name@).config is Firewall)
                ==> r == Err::<(), ApiError>(ApiError::WrongBrickKind) && final(self).graph_handle(
                graph_name@,
            ).graph.bricks@ == old(self).graph_handle(graph_name@).graph.bricks@,
            old(self).has_graph(graph_name@) && old(self).graph_handle(graph_name@).graph.has_brick(
                brick_name@,
            ) && old(self).graph_handle(graph_name@).graph.brick(brick_name@).config is Firewall
                && !(side_sel@ == "west"@ || side_sel@ == "east"@) ==> r == Err::<(), ApiError>(
                ApiError::InvalidSide,
            ) && final(self).graph_handle(graph_name@).graph.bricks@ == old(self).graph_handle(
                graph_name@,
            ).graph.bricks@,
            old(self).has_graph(graph_name@) && old(self).graph_handle(graph_name@).graph.has_brick(
                brick_name@,
            ) && old(self).graph_handle(graph_name@).graph.brick(brick_name@).config is Firewall
                && (side_sel@ == "west"@ || side_sel@ == "east"@) ==> r is Ok && final(self).graph_handle(graph_name@).graph.brick(brick_name@).rules@ == old(self).graph_handle(
                graph_name@,
            ).graph.brick(brick_name@).rules@.push(
                FirewallRule {
                    filter: filter,
                    side: if side_sel@ == "west"@ {
                        Side::West
                    } else {
                        Side::East
                    },
                },
            ),
            r is Ok <==> (old(self).has_graph(graph_name@) && old(self).graph_handle(
                graph_name@,
            ).graph.has_brick(brick_name@) && old(self).graph_handle(graph_name@).graph.brick(
                brick_name@,
            ).config is Firewall && (side_sel@ == "west"@ || side_sel@ == "east"@)),
    {
        let i = match self.find_graph(graph_name) {
            None => {
                return Err(ApiError::GraphNotFound);
            },
            Some(i) => i,
        };
        proof {
            lemma_handle_index_unique(self.handles@, i as int, graph_name@);
        }
        let ghost s0 = self.handles@;
        let mut h = self.handles.remove(i);
        let r = h.graph.firewall_rule_add(brick_name, filter, side_sel);
        proof {
            lemma_remove_insert(s0, i as int, h);
            lemma_handle_update(s0, i as int, h);
        }
        self.handles.insert(i, h);
        proof {
            assert(self.handles@ =~= s0.update(i as int, h));
            assert forall|j: int|
                0 <= j < self.handles@.len() implies (#[trigger] self.handles@[j]).graph.wf() by {
                if j != i {
                    assert(s0[j].graph.wf());
                }
            }
        }
        r
    }

    /// Clears every rule of one firewall brick of the named graph.
    pub fn firewall_flush(&mut self, graph_name: &String, brick_name: &String) -> (r: Result<
        (),
        ApiError,
    >)
        requires
            old(self).wf(),
        ensures
            final(self).wf(),
            !old(self).has_graph(graph_name@) ==> r == Err::<(), ApiError>(ApiError::GraphNotFound)
                && final(self).handles@ == old(self).handles@,
            old(self).has_graph(graph_name@) ==> reg_frame(
                old(self).handles@,
                final(self).handles@,
                graph_name@,
            ),
            old(self).has_graph(graph_name@) && !old(self).graph_handle(
                graph_name@,
            ).graph.has_brick(brick_name@) ==> r == Err::<(), ApiError>(ApiError::BrickNotFound)
                && final(self).graph_handle(graph_name@).graph.bricks@ == old(self).graph_handle(
                graph_name@,
            ).graph.bricks@,
            old(self).has_graph(graph_name@) && old(self).graph_handle(graph_name@).graph.has_brick(
                brick_name@,
            ) && !(old(self).graph_handle(graph_name@).graph.brick(brick_name@).config is Firewall)
                ==> r == Err::<(), ApiError>(ApiError::WrongBrickKind) && final(self).graph_handle(
                graph_name@,
            ).graph.bricks@ == old(self).graph_handle(graph_name@).graph.bricks@,
            old(self).has_graph(graph_name@) && old(self).graph_handle(graph_name@).graph.has_brick(
                brick_name@,
            ) && old(self).graph_handle(graph_name@).graph.brick(brick_name@).config is Firewall
                ==> r is Ok && final(self).graph_handle(graph_name@).graph.brick(
                brick_name@,
            ).rules@.len() == 0,
            r is Ok <==> (old(self).has_graph(graph_name@) && old(self).graph_handle(
                graph_name@,
            ).graph.has_brick(brick_name@) && old(self).graph_handle(graph_name@).graph.brick(
                brick_name@,
            ).config is Firewall),
    {
        let i = match self.find_graph(graph_name) {
            None => {
                return Err(ApiError::GraphNotFound);
            },
            Some(i) => i,
        };
        proof {
            lemma_handle_index_unique(self.handles@, i as int, graph_name@);
        }
        let ghost s0 = self.handles@;
        let mut h = self.handles.remove(i);
        let r = h.graph.firewall_flush(brick_name);
        proof {
            lemma_remove_insert(s0, i as int, h);
            lemma_handle_update(s0, i as int, h);
        }
        self.handles.insert(i, h);
        proof {
            assert(self.handles@ =~= s0.update(i as int, h));
            assert forall|j: int|
                0 <= j < self.handles@.len() implies (#[trigger] self.handles@[j]).graph.wf() by {
                if j != i {
                    assert(s0[j].graph.wf());
                }
            }
        }
        r
    }

    /// Reapplies the active rule set of one firewall brick of the named
    /// graph; the stored control-plane state is unchanged.
    pub fn firewall_reload(&mut self, graph_name: &String, brick_name: &String) -> (r: Result<
        (),
        ApiError,
    >)
        requires
            old(self).wf(),
        ensures
            final(self).wf(),
            !old(self).has_graph(graph_name@) ==> r == Err::<(), ApiError>(ApiError::GraphNotFound)
                && final(self).handles@ == old(self).handles@,
            old(self).has_graph(graph_name@) ==> reg_frame(
                old(self).handles@,
                final(self).handles@,
                graph_name@,
            ),
            old(self).has_graph(graph_name@) ==> final(self).graph_handle(graph_name@).graph == old(self).graph_handle(graph_name@).graph,
            old(self).has_graph(graph_name@) && !old(self).graph_handle(
                graph_name@,
            ).graph.has_brick(brick_name@) ==> r == Err::<(), ApiError>(ApiError::BrickNotFound),
            old(self).has_graph(graph_name@) && old(self).graph_handle(graph_name@).graph.has_brick(
                brick_name@,
            ) && !(old(self).graph_handle(graph_name@).graph.brick(brick_name@).config is Firewall)
                ==> r == Err::<(), ApiError>(ApiError::WrongBrickKind),
            r is Ok <==> (old(self).has_graph(graph_name@) && old(self).graph_handle(
                graph_name@,
            ).graph.has_brick(brick_name@) && old(self).graph_handle(graph_name@).graph.brick(
                brick_name@,
            ).config is Firewall),
    {
        let i = match self.find_graph(graph_name) {
            None => {
                return Err(ApiError::GraphNotFound);
            },
            Some(i) => i,
        };
        proof {
            lemma_handle_index_unique(self.handles@, i as int, graph_name@);
        }
        let ghost s0 = self.handles@;
        let mut h = self.handles.remove(i);
        let r = h.graph.firewall_reload(brick_name);
        proof {
            lemma_remove_insert(s0, i as int, h);
            lemma_handle_update(s0, i as int, h);
        }
        self.handles.insert(i, h);
        proof {
            assert(self.handles@ =~= s0.update(i as int, h));
            assert forall|j: int|
                0 <= j < self.handles@.len() implies (#[trigger] self.handles@[j]).graph.wf() by {
                if j != i {
                    assert(s0[j].graph.wf());
                }
            }
        }
        r
    }
}

} // verus!
