use vstd::prelude::*;
use crate::brick::{Brick, BrickConfig, FirewallRule};
use crate::errors::{ApiError, Side};
use crate::names::{create_name, names_unique};

verus! {

/// Does the sequence hold a brick of that name?
pub open spec fn has_name(s: Seq<Brick>, n: Seq<char>) -> bool {
    exists|i: int| 0 <= i < s.len() && s[i].name@ == n
}

/// The position of the brick of that name (meaningful under `has_name`
/// and `unique_names`).
pub open spec fn index_of(s: Seq<Brick>, n: Seq<char>) -> int {
    choose|i: int| 0 <= i < s.len() && s[i].name@ == n
}

/// The brick of that name (meaningful under `has_name` and `unique_names`).
pub open spec fn brick_of(s: Seq<Brick>, n: Seq<char>) -> Brick {
    s[index_of(s, n)]
}

/// Brick names are pairwise distinct.
pub open spec fn unique_names(s: Seq<Brick>) -> bool {
    forall|i: int, j: int| 0 <= i < j < s.len() ==> s[i].name@ != s[j].name@
}

/// Every brick of the sequence is well formed.
pub open spec fn all_wf(s: Seq<Brick>) -> bool {
    forall|i: int| 0 <= i < s.len() ==> (#[trigger] s[i]).wf()
}

/// Bricks other than the two named ones keep their membership and state.
pub open spec fn preserves_others(
    old_s: Seq<Brick>,
    new_s: Seq<Brick>,
    a: Seq<char>,
    b: Seq<char>,
) -> bool {
    forall|n: Seq<char>|
        #![trigger has_name(new_s, n)]
        #![trigger has_name(old_s, n)]
        n != a && n != b ==> {
            &&& (has_name(new_s, n) <==> has_name(old_s, n))
            &&& (has_name(old_s, n) ==> brick_of(new_s, n) == brick_of(old_s, n))
        }
}

/// The peer list with every entry of that name dropped.
pub open spec fn strip_name(s: Seq<String>, n: Seq<char>) -> Seq<String>
    decreases s.len(),
{
    if s.len() == 0 {
        s
    } else if s.last()@ == n {
        strip_name(s.drop_last(), n)
    } else {
        strip_name(s.drop_last(), n).push(s.last())
    }
}

/// Stripping entries never lengthens a peer list.
pub proof fn lemma_strip_name_len(s: Seq<String>, n: Seq<char>)
    ensures
        strip_name(s, n).len() <= s.len(),
    decreases s.len(),
{
    if s.len() > 0 {
        lemma_strip_name_len(s.drop_last(), n);
    }
}

/// Under unique names, a position holding the name is the position the
/// name resolves to.
pub proof fn lemma_index_of_unique(s: Seq<Brick>, i: int, n: Seq<char>)
    requires
        unique_names(s),
        0 <= i < s.len(),
        s[i].name@ == n,
    ensures
        has_name(s, n),
        index_of(s, n) == i,
        brick_of(s, n) == s[i],
{
    assert(has_name(s, n));
    let j = index_of(s, n);
    assert(0 <= j < s.len() && s[j].name@ == n);
    if j < i {
        assert(s[j].name@ != s[i].name@);
    } else if i < j {
        assert(s[i].name@ != s[j].name@);
    }
}

/// Removing a position keeps names unique, drops exactly that name, and
/// leaves every other name's brick unchanged.
pub proof fn lemma_remove_unique(s: Seq<Brick>, i: int)
    requires
        unique_names(s),
        0 <= i < s.len(),
    ensures
        unique_names(s.remove(i)),
        !has_name(s.remove(i), s[i].name@),
        forall|n: Seq<char>| #![trigger has_name(s.remove(i), n)] #![trigger has_name(s, n)]
            n != s[i].name@ ==> (has_name(s.remove(i), n) <==> has_name(s, n)),
        forall|n: Seq<char>|
            n != s[i].name@ && has_name(s, n) ==> #[trigger] brick_of(s.remove(i), n) == brick_of(
                s,
                n,
            ),
{
    let t = s.remove(i);
    assert(forall|k: int| 0 <= k < t.len() ==> t[k] == (if k < i {
        s[k]
    } else {
        s[k + 1]
    }));
    assert forall|n: Seq<char>| n != s[i].name@ && has_name(s, n) implies has_name(t, n) by {
        let k = choose|k: int| 0 <= k < s.len() && s[k].name@ == n;
        if k < i {
            assert(t[k].name@ == n);
        } else {
            assert(k != i);
            assert(t[k - 1].name@ == n);
        }
    }
    assert forall|n: Seq<char>| has_name(t, n) implies has_name(s, n) && n != s[i].name@ by {
        let k = choose|k: int| 0 <= k < t.len() && t[k].name@ == n;
        if k < i {
            assert(s[k].name@ == n);
            assert(k != i);
            assert(s[k].name@ != s[i].name@);
        } else {
            assert(s[k + 1].name@ == n);
            assert(s[k + 1].name@ != s[i].name@);
        }
    }
    assert forall|n: Seq<char>| n != s[i].name@ && has_name(s, n) implies brick_of(t, n)
        == brick_of(s, n) by {
        let k = index_of(s, n);
        assert(0 <= k < s.len() && s[k].name@ == n);
        lemma_index_of_unique(s, k, n);
        if k < i {
            lemma_index_of_unique(t, k, n);
        } else {
            assert(t[k - 1].name@ == n);
            lemma_index_of_unique(t, k - 1, n);
        }
    }
}

/// Pushing a brick with a new name keeps names unique and leaves every
/// other name's brick unchanged.
pub proof fn lemma_push_unique(s: Seq<Brick>, b: Brick)
    requires
        unique_names(s),
        !has_name(s, b.name@),
    ensures
        unique_names(s.push(b)),
        has_name(s.push(b), b.name@),
        brick_of(s.push(b), b.name@) == b,
        forall|n: Seq<char>| #![trigger has_name(s.push(b), n)] #![trigger has_name(s, n)]
            n != b.name@ ==> (has_name(s.push(b), n) <==> has_name(s, n)),
        forall|n: Seq<char>|
            n != b.name@ && has_name(s, n) ==> #[trigger] brick_of(s.push(b), n) == brick_of(s, n),
{
    let t = s.push(b);
    assert(forall|k: int| 0 <= k < s.len() ==> t[k] == s[k]);
    assert(t[s.len() as int] == b);
    assert forall|i: int, j: int| 0 <= i < j < t.len() implies t[i].name@ != t[j].name@ by {
        if j < s.len() {
        } else {
            assert(t[j] == b);
            assert(s[i].name@ != b.name@) by {
                if s[i].name@ == b.name@ {
                    assert(has_name(s, b.name@));
                }
            }
        }
    }
    lemma_index_of_unique(t, s.len() as int, b.name@);
    assert forall|n: Seq<char>| n != b.name@ implies (has_name(t, n) <==> has_name(s, n)) by {
        if has_name(t, n) {
            let k = choose|k: int| 0 <= k < t.len() && t[k].name@ == n;
            assert(k != s.len());
            assert(s[k].name@ == n);
        }
        if has_name(s, n) {
            let k = choose|k: int| 0 <= k < s.len() && s[k].name@ == n;
            assert(t[k].name@ == n);
        }
    }
    assert forall|n: Seq<char>| n != b.name@ && has_name(s, n) implies brick_of(t, n) == brick_of(
        s,
        n,
    ) by {
        let k = index_of(s, n);
        assert(0 <= k < s.len() && s[k].name@ == n);
        lemma_index_of_unique(s, k, n);
        lemma_index_of_unique(t, k, n);
    }
}

/// Replacing the brick at a position by one of the same name keeps names
/// unique and leaves every other name's brick unchanged.
pub proof fn lemma_update_unique(s: Seq<Brick>, i: int, b: Brick)
    requires
        unique_names(s),
        0 <= i < s.len(),
        b.name@ == s[i].name@,
    ensures
        unique_names(s.update(i, b)),
        has_name(s.update(i, b), b.name@),
        brick_of(s.update(i, b), b.name@) == b,
        forall|n: Seq<char>| #![trigger has_name(s.update(i, b), n)] #![trigger has_name(s, n)]
            n != b.name@ ==> (has_name(s.update(i, b), n) <==> has_name(s, n)),
        forall|n: Seq<char>|
            n != b.name@ && has_name(s, n) ==> #[trigger] brick_of(s.update(i, b), n) == brick_of(
                s,
                n,
            ),
{
    let t = s.update(i, b);
    assert(forall|k: int| 0 <= k < s.len() && k != i ==> t[k] == s[k]);
    assert(t[i] == b);
    assert forall|p: int, q: int| 0 <= p < q < t.len() implies t[p].name@ != t[q].name@ by {
        assert(t[p].name@ == s[p].name@);
        assert(t[q].name@ == s[q].name@);
    }
    lemma_index_of_unique(t, i, b.name@);
    assert forall|n: Seq<char>| n != b.name@ implies (has_name(t, n) <==> has_name(s, n)) by {
        if has_name(t, n) {
            let k = choose|k: int| 0 <= k < t.len() && t[k].name@ == n;
            assert(k != i);
            assert(s[k].name@ == n);
        }
        if has_name(s, n) {
            let k = choose|k: int| 0 <= k < s.len() && s[k].name@ == n;
            assert(k != i);
            assert(t[k].name@ == n);
        }
    }
    assert forall|n: Seq<char>| n != b.name@ && has_name(s, n) implies brick_of(t, n) == brick_of(
        s,
        n,
    ) by {
        let k = index_of(s, n);
        assert(0 <= k < s.len() && s[k].name@ == n);
        lemma_index_of_unique(s, k, n);
        assert(k != i);
        lemma_index_of_unique(t, k, n);
    }
}

/// A named, mutable collection of bricks. Brick names are unique within
/// their graph; a brick belongs to exactly one graph at a time.
pub struct Graph {
    pub name: String,
    pub bricks: Vec<Brick>,
}

/// What `link` guarantees, for every graph state and every pair of names.
/// Whenever both bricks were found, both are present afterwards, whether
/// the link attempt succeeded or not; when only one was found, it is left
/// unchanged and the result names the missing side.
pub open spec fn link_post(og: Graph, ng: Graph, w: Seq<char>, e: Seq<char>, r: Result<
    (),
    ApiError,
>) -> bool {
    let s0 = og.bricks@;
    let s1 = ng.bricks@;
    &&& ng.name == og.name
    &&& preserves_others(s0, s1, w, e)
    &&& (!has_name(s0, w) && !has_name(s0, e)) ==> r == Err::<(), ApiError>(
        ApiError::WestAndEastBricksNotFound,
    ) && s1 == s0
    &&& (!has_name(s0, w) && has_name(s0, e)) ==> r == Err::<(), ApiError>(
        ApiError::WestBrickNotFound,
    ) && s1 == s0
    &&& (has_name(s0, w) && (w == e || !has_name(s0, e))) ==> r == Err::<(), ApiError>(
        ApiError::EastBrickNotFound,
    ) && s1 == s0
    &&& (has_name(s0, w) && has_name(s0, e) && w != e) ==> {
        let wb = brick_of(s0, w);
        let eb = brick_of(s0, e);
        &&& has_name(s1, w)
        &&& has_name(s1, e)
        &&& (r is Ok <==> wb.east_peers@.len() < wb.east_capacity() && eb.west_peers@.len()
            < eb.west_capacity())
        &&& (r is Err ==> r == Err::<(), ApiError>(ApiError::PortsExhausted) && brick_of(s1, w)
            == wb && brick_of(s1, e) == eb)
        &&& (r is Ok ==> {
            let wb2 = brick_of(s1, w);
            let eb2 = brick_of(s1, e);
            &&& wb2.east_peers@ == wb.east_peers@.push(eb.name)
            &&& wb2.name == wb.name && wb2.config == wb.config && wb2.rules == wb.rules
                && wb2.west_peers == wb.west_peers
            &&& eb2.west_peers@ == eb.west_peers@.push(wb.name)
            &&& eb2.name == eb.name && eb2.config == eb.config && eb2.rules == eb.rules
                && eb2.east_peers == eb.east_peers
        })
    }
}

/// Is `n` listed in the peer list?
pub open spec fn peer_listed(peers: Seq<String>, n: Seq<char>) -> bool {
    exists|i: int| 0 <= i < peers.len() && peers[i]@ == n
}

/// What `unlink_from` guarantees: the same removal/classification/
/// reinsertion protocol as `link`, with one matching peer entry dropped
/// on each side on success.
pub open spec fn unlink_pair_post(og: Graph, ng: Graph, w: Seq<char>, e: Seq<char>, r: Result<
    (),
    ApiError,
>) -> bool {
    let s0 = og.bricks@;
    let s1 = ng.bricks@;
    &&& ng.name == og.name
    &&& preserves_others(s0, s1, w, e)
    &&& (!has_name(s0, w) && !has_name(s0, e)) ==> r == Err::<(), ApiError>(
        ApiError::WestAndEastBricksNotFound,
    ) && s1 == s0
    &&& (!has_name(s0, w) && has_name(s0, e)) ==> r == Err::<(), ApiError>(
        ApiError::WestBrickNotFound,
    ) && s1 == s0
    &&& (has_name(s0, w) && (w == e || !has_name(s0, e))) ==> r == Err::<(), ApiError>(
        ApiError::EastBrickNotFound,
    ) && s1 == s0
    &&& (has_name(s0, w) && has_name(s0, e) && w != e) ==> {
        let wb = brick_of(s0, w);
        let eb = brick_of(s0, e);
        &&& has_name(s1, w)
        &&& has_name(s1, e)
        &&& (r is Ok <==> peer_listed(wb.east_peers@, e) && peer_listed(eb.west_peers@, w))
        &&& (r is Err ==> r == Err::<(), ApiError>(ApiError::NotLinked) && brick_of(s1, w) == wb
            && brick_of(s1, e) == eb)
        &&& (r is Ok ==> {
            let wb2 = brick_of(s1, w);
            let eb2 = brick_of(s1, e);
            &&& (exists|i: int|
                0 <= i < wb.east_peers@.len() && wb.east_peers@[i]@ == e && wb2.east_peers@
                    == wb.east_peers@.remove(i))
            &&& wb2.name == wb.name && wb2.config == wb.config && wb2.rules == wb.rules
                && wb2.west_peers == wb.west_peers
            &&& (exists|j: int|
                0 <= j < eb.west_peers@.len() && eb.west_peers@[j]@ == w && eb2.west_peers@
                    == eb.west_peers@.remove(j))
            &&& eb2.name == eb.name && eb2.config == eb.config && eb2.rules == eb.rules
                && eb2.east_peers == eb.east_peers
        })
    }
}

impl Graph {
    /// The graph is well formed: names unique, every brick well formed.
    pub open spec fn wf(self) -> bool {
        &&& unique_names(self.bricks@)
        &&& all_wf(self.bricks@)
    }

    /// Does the graph hold a brick of that name?
    pub open spec fn has_brick(self, n: Seq<char>) -> bool {
        has_name(self.bricks@, n)
    }

    /// The brick of that name (meaningful under `has_brick`).
    pub open spec fn brick(self, n: Seq<char>) -> Brick {
        brick_of(self.bricks@, n)
    }

    /// The graph's brick-name column, in insertion order.
    pub open spec fn brick_names(self) -> Seq<Seq<char>> {
        self.bricks@.map_values(|b: Brick| b.name@)
    }

    /// The graph's uniqueness invariant, read on its name column: the
    /// form `lemma_create_twice` speaks of.
    pub proof fn lemma_brick_names_unique(self)
        requires
            self.wf(),
        ensures
            names_unique(self.brick_names()),
    {
        assert forall|i: int, j: int|
            0 <= i < j < self.brick_names().len() implies self.brick_names()[i]
            != self.brick_names()[j] by {
            assert(self.brick_names()[i] == self.bricks@[i].name@);
            assert(self.brick_names()[j] == self.bricks@[j].name@);
        }
    }

    /// Creates an empty graph of that name.
    pub fn new(name: String) -> (g: Graph)
        ensures
            g.wf(),
            g.name == name,
            g.bricks@.len() == 0,
    {
        Graph { name, bricks: Vec::new() }
    }

    /// Finds the position of the named brick, if any.
    pub(crate) fn find_brick(&self, name: &String) -> (r: Option<usize>)
        ensures
            match r {
                Some(i) => i < self.bricks@.len() && self.bricks@[i as int].name@ == name@,
                None => !has_name(self.bricks@, name@),
            },
    {
        let mut i: usize = 0;
        while i < self.bricks.len()
            invariant
                i <= self.bricks@.len(),
                forall|j: int| 0 <= j < i ==> self.bricks@[j].name@ != name@,
            decreases self.bricks@.len() - i,
        {
            if self.bricks[i].name == *name {
                return Some(i);
            }
            i += 1;
        }
        None
    }

    /// Inserts a brick under its own name; refused with AlreadyExists
    /// when the name is taken, and the graph is then unchanged.
    pub fn add_brick(&mut self, b: Brick) -> (r: Result<(), ApiError>)
        requires
            old(self).wf(),
            b.wf(),
        ensures
            final(self).wf(),
            final(self).name == old(self).name,
            r is Ok <==> !old(self).has_brick(b.name@),
            r is Err ==> r == Err::<(), ApiError>(ApiError::BrickAlreadyExists) && final(self).bricks@
                == old(self).bricks@,
            r is Ok ==> final(self).bricks@ == old(self).bricks@.push(b),
            (r is Ok) == create_name(old(self).brick_names(), b.name@).1,
            final(self).brick_names() =~= create_name(old(self).brick_names(), b.name@).0,
    {
        match self.find_brick(&b.name) {
            Some(i) => {
                proof {
                    assert(self.brick_names()[i as int] == b.name@);
                    assert(self.brick_names().contains(b.name@));
                }
                Err(ApiError::BrickAlreadyExists)
            },
            None => {
                proof {
                    lemma_push_unique(self.bricks@, b);
                    assert(!self.brick_names().contains(b.name@)) by {
                        if self.brick_names().contains(b.name@) {
                            let i = choose|i: int|
                                0 <= i < self.brick_names().len() && self.brick_names()[i]
                                    == b.name@;
                            assert(self.bricks@[i].name@ == b.name@);
                            assert(has_name(self.bricks@, b.name@));
                        }
                    }
                }
                self.bricks.push(b);
                proof {
                    assert(self.brick_names() =~= old(self).brick_names().push(b.name@));
                }
                Ok(())
            },
        }
    }

    /// Removes the named brick; refused with NotFound when absent.
    pub fn brick_delete(&mut self, name: &String) -> (r: Result<(), ApiError>)
        requires
            old(self).wf(),
        ensures
            final(self).wf(),
            final(self).name == old(self).name,
            r is Ok <==> old(self).has_brick(name@),
            r is Err ==> r == Err::<(), ApiError>(ApiError::BrickNotFound) && final(self).bricks@
                == old(self).bricks@,
            r is Ok ==> {
                &&& !final(self).has_brick(name@)
                &&& final(self).bricks@ == old(self).bricks@.remove(
                    index_of(old(self).bricks@, name@),
                )
                &&& preserves_others(old(self).bricks@, final(self).bricks@, name@, name@)
            },
    {
        match self.find_brick(name) {
            None => Err(ApiError::BrickNotFound),
            Some(i) => {
                proof {
                    lemma_index_of_unique(self.bricks@, i as int, name@);
                    lemma_remove_unique(self.bricks@, i as int);
                }
                self.bricks.remove(i);
                Ok(())
            },
        }
    }

    /// The two-sided link protocol: both names are taken out of the map,
    /// classified by presence, linked when both were found, and always
    /// reinserted whatever the link attempt returned.
    pub fn link(&mut self, west: &String, east: &String) -> (r: Result<(), ApiError>)
        requires
            old(self).wf(),
        ensures
            final(self).wf(),
            link_post(*old(self), *final(self), west@, east@, r),
    {
        let wi = match self.find_brick(west) {
            None => {
                let r = match self.find_brick(east) {
                    Some(_) => Err(ApiError::WestBrickNotFound),
                    None => Err(ApiError::WestAndEastBricksNotFound),
                };
                return r;
            },
            Some(wi) => wi,
        };
        proof {
            lemma_index_of_unique(self.bricks@, wi as int, west@);
            lemma_remove_unique(self.bricks@, wi as int);
        }
        let ghost s0 = self.bricks@;
        let mut w = self.bricks.remove(wi);
        let ei = match self.find_brick(east) {
            None => {
                proof {
                    lemma_remove_insert(s0, wi as int, w);
                    assert(s0.update(wi as int, w) =~= s0);
                }
                self.bricks.insert(wi, w);
                assert(self.bricks@ == s0);
                return Err(ApiError::EastBrickNotFound);
            },
            Some(ei) => ei,
        };
        proof {
            lemma_index_of_unique(self.bricks@, ei as int, east@);
            lemma_remove_unique(self.bricks@, ei as int);
        }
        let mut e = self.bricks.remove(ei);
        let r = w.link(&mut e);
        proof {
            lemma_push_unique(self.bricks@, w);
            lemma_push_unique(self.bricks@.push(w), e);
        }
        self.bricks.push(w);
        self.bricks.push(e);
        proof {
            lemma_index_of_unique(s0, wi as int, west@);
        }
        r
    }

    /// The structural mirror of `link`: the same protocol, dropping one
    /// matching peer entry on each side instead of adding one.
    pub fn unlink_from(&mut self, west: &String, east: &String) -> (r: Result<(), ApiError>)
        requires
            old(self).wf(),
        ensures
            final(self).wf(),
            unlink_pair_post(*old(self), *final(self), west@, east@, r),
    {
        let wi = match self.find_brick(west) {
            None => {
                let r = match self.find_brick(east) {
                    Some(_) => Err(ApiError::WestBrickNotFound),
                    None => Err(ApiError::WestAndEastBricksNotFound),
                };
                return r;
            },
            Some(wi) => wi,
        };
        proof {
            lemma_index_of_unique(self.bricks@, wi as int, west@);
            lemma_remove_unique(self.bricks@, wi as int);
        }
        let ghost s0 = self.bricks@;
        let mut w = self.bricks.remove(wi);
        let ei = match self.find_brick(east) {
            None => {
                proof {
                    lemma_remove_insert(s0, wi as int, w);
                    assert(s0.update(wi as int, w) =~= s0);
                }
                self.bricks.insert(wi, w);
                assert(self.bricks@ == s0);
                return Err(ApiError::EastBrickNotFound);
            },
            Some(ei) => ei,
        };
        proof {
            lemma_index_of_unique(self.bricks@, ei as int, east@);
            lemma_remove_unique(self.bricks@, ei as int);
        }
        let mut e = self.bricks.remove(ei);
        let r = w.unlink_from(&mut e);
        proof {
            lemma_push_unique(self.bricks@, w);
            lemma_push_unique(self.bricks@.push(w), e);
        }
        self.bricks.push(w);
        self.bricks.push(e);
        proof {
            lemma_index_of_unique(s0, wi as int, west@);
        }
        r
    }

    /// Detaches the named brick from every peer: its own peer lists are
    /// cleared and its name is dropped from every other brick's lists.
    /// Always succeeds once the brick is found.
    pub fn unlink(&mut self, name: &String) -> (r: Result<(), ApiError>)
        requires
            old(self).wf(),
        ensures
            final(self).wf(),
            final(self).name == old(self).name,
            r is Ok <==> old(self).has_brick(name@),
            r is Err ==> r == Err::<(), ApiError>(ApiError::BrickNotFound) && final(self).bricks@
                == old(self).bricks@,
            r is Ok ==> final(self).bricks@.len() == old(self).bricks@.len(),
            r is Ok ==> forall|i: int|
                0 <= i < old(self).bricks@.len() ==> detached(
                    old(self).bricks@[i],
                    #[trigger] final(self).bricks@[i],
                    name@,
                ),
    {
        if self.find_brick(name).is_none() {
            return Err(ApiError::BrickNotFound);
        }
        let ghost s0 = self.bricks@;
        let ghost gname = self.name;
        let n = self.bricks.len();
        let mut i: usize = 0;
        while i < n
            invariant
                n == s0.len(),
                i <= n,
                self.name == gname,
                self.bricks@.len() == n,
                unique_names(s0),
                all_wf(s0),
                forall|j: int| i <= j < n ==> self.bricks@[j] == s0[j],
                forall|j: int| 0 <= j < i ==> detached(s0[j], #[trigger] self.bricks@[j], name@),
            decreases n - i,
        {
            let ghost cur = self.bricks@;
            let mut b = self.bricks.remove(i);
            if b.name == *name {
                b.west_peers = Vec::new();
                b.east_peers = Vec::new();
            } else {
                b.west_peers = strip_peers(&b.west_peers, name);
                b.east_peers = strip_peers(&b.east_peers, name);
                proof {
                    lemma_strip_name_len(s0[i as int].west_peers@, name@);
                    lemma_strip_name_len(s0[i as int].east_peers@, name@);
                }
            }
            proof {
                lemma_remove_insert(cur, i as int, b);
            }
            self.bricks.insert(i, b);
            proof {
                assert(self.bricks@ =~= cur.update(i as int, b));
            }
            i += 1;
        }
        proof {
            assert forall|p: int, q: int|
                0 <= p < q < self.bricks@.len() implies self.bricks@[p].name@
                != self.bricks@[q].name@ by {
                assert(self.bricks@[p].name == s0[p].name);
                assert(self.bricks@[q].name == s0[q].name);
            }
            assert forall|j: int| 0 <= j < self.bricks@.len() implies (#[trigger] self.bricks@[j]).wf() by {
                assert(detached(s0[j], self.bricks@[j], name@));
                assert(s0[j].wf());
                lemma_strip_name_len(s0[j].west_peers@, name@);
                lemma_strip_name_len(s0[j].east_peers@, name@);
            }
        }
        Ok(())
    }

    /// Adds a firewall rule to the named brick. The graph and brick must
    /// exist, the brick must be a firewall, and the side selector must
    /// parse; the rule is then appended to the brick's rule set.
    pub fn firewall_rule_add(&mut self, name: &String, filter: String, side_sel: &String) -> (r:
        Result<(), ApiError>)
        requires
            old(self).wf(),
        ensures
            final(self).wf(),
            final(self).name == old(self).name,
            !old(self).has_brick(name@) ==> r == Err::<(), ApiError>(ApiError::BrickNotFound)
                && final(self).bricks@ == old(self).bricks@,
            old(self).has_brick(name@) && !(old(self).brick(name@).config is Firewall) ==> r
                == Err::<(), ApiError>(ApiError::WrongBrickKind) && final(self).bricks@ == old(self).bricks@,
            old(self).has_brick(name@) && old(self).brick(name@).config is Firewall && !(side_sel@
                == "west"@ || side_sel@ == "east"@) ==> r == Err::<(), ApiError>(
                ApiError::InvalidSide,
            ) && final(self).bricks@ == old(self).bricks@,
            old(self).has_brick(name@) && old(self).brick(name@).config is Firewall && (side_sel@
                == "west"@ || side_sel@ == "east"@) ==> r is Ok && final(self).has_brick(name@)
                && preserves_others(
                old(self).bricks@,
                final(self).bricks@,
                name@,
                name@,
            ),
            old(self).has_brick(name@) && old(self).brick(name@).config is Firewall && (side_sel@
                == "west"@ || side_sel@ == "east"@) ==> final(self).brick(name@).rules@ == old(self).brick(name@).rules@.push(
                FirewallRule {
                    filter: filter,
                    side: if side_sel@ == "west"@ {
                        Side::West
                    } else {
                        Side::East
                    },
                },
            ),
            old(self).has_brick(name@) && old(self).brick(name@).config is Firewall && (side_sel@
                == "west"@ || side_sel@ == "east"@) ==> final(self).brick(name@).name == old(self).brick(name@).name && final(self).brick(name@).config == old(self).brick(name@).config
                && final(self).brick(name@).west_peers == old(self).brick(name@).west_peers
                && final(self).brick(name@).east_peers == old(self).brick(name@).east_peers,
    {
        let i = match self.find_brick(name) {
            None => {
                return Err(ApiError::BrickNotFound);
            },
            Some(i) => i,
        };
        proof {
            lemma_index_of_unique(self.bricks@, i as int, name@);
        }
        if !self.bricks[i].is_firewall() {
            return Err(ApiError::WrongBrickKind);
        }
        let side = match Side::from_str(side_sel) {
            None => {
                return Err(ApiError::InvalidSide);
            },
            Some(s) => s,
        };
        let ghost s0 = self.bricks@;
        let mut b = self.bricks.remove(i);
        let res = b.rule_add(filter, side);
        proof {
            lemma_remove_insert(s0, i as int, b);
            lemma_update_unique(s0, i as int, b);
        }
        self.bricks.insert(i, b);
        proof {
            assert(self.bricks@ =~= s0.update(i as int, b));
            assert(b.name@ == name@);
            assert(has_name(self.bricks@, name@));
            assert(brick_of(self.bricks@, name@) == b);
            assert forall|j: int| 0 <= j < self.bricks@.len() implies (#[trigger] self.bricks@[j]).wf() by {
                assert(s0[j].wf());
            }
        }
        res
    }

    /// Clears every rule of the named firewall brick; always succeeds
    /// once the graph and a firewall brick of that name are found.
    pub fn firewall_flush(&mut self, name: &String) -> (r: Result<(), ApiError>)
        requires
            old(self).wf(),
        ensures
            final(self).wf(),
            final(self).name == old(self).name,
            !old(self).has_brick(name@) ==> r == Err::<(), ApiError>(ApiError::BrickNotFound)
                && final(self).bricks@ == old(self).bricks@,
            old(self).has_brick(name@) && !(old(self).brick(name@).config is Firewall) ==> r
                == Err::<(), ApiError>(ApiError::WrongBrickKind) && final(self).bricks@ == old(self).bricks@,
            old(self).has_brick(name@) && old(self).brick(name@).config is Firewall ==> r is Ok
                && final(self).has_brick(name@) && preserves_others(
                old(self).bricks@,
                final(self).bricks@,
                name@,
                name@,
            ),
            old(self).has_brick(name@) && old(self).brick(name@).config is Firewall ==> final(self).brick(name@).rules@.len() == 0,
            old(self).has_brick(name@) && old(self).brick(name@).config is Firewall ==> final(self).brick(name@).name == old(self).brick(name@).name && final(self).brick(name@).config
                == old(self).brick(name@).config && final(self).brick(name@).west_peers == old(self).brick(name@).west_peers && final(self).brick(name@).east_peers == old(self).brick(
                name@,
            ).east_peers,
    {
        let i = match self.find_brick(name) {
            None => {
                return Err(ApiError::BrickNotFound);
            },
            Some(i) => i,
        };
        proof {
            lemma_index_of_unique(self.bricks@, i as int, name@);
        }
        if !self.bricks[i].is_firewall() {
            return Err(ApiError::WrongBrickKind);
        }
        let ghost s0 = self.bricks@;
        let mut b = self.bricks.remove(i);
        let res = b.flush();
        proof {
            lemma_remove_insert(s0, i as int, b);
            lemma_update_unique(s0, i as int, b);
        }
        self.bricks.insert(i, b);
        proof {
            assert(self.bricks@ =~= s0.update(i as int, b));
            assert(b.name@ == name@);
            assert(has_name(self.bricks@, name@));
            assert(brick_of(self.bricks@, name@) == b);
            assert forall|j: int| 0 <= j < self.bricks@.len() implies (#[trigger] self.bricks@[j]).wf() by {
                assert(s0[j].wf());
            }
        }
        res
    }

    /// Reapplies the named firewall brick's active rule set. The
    /// recompilation itself is the brick capability's own (external)
    /// concern; the stored control-plane state is unchanged.
    pub fn firewall_reload(&mut self, name: &String) -> (r: Result<(), ApiError>)
        requires
            old(self).wf(),
        ensures
            final(self).wf(),
            *final(self) == *old(self),
            !old(self).has_brick(name@) ==> r == Err::<(), ApiError>(ApiError::BrickNotFound),
            old(self).has_brick(name@) && !(old(self).brick(name@).config is Firewall) ==> r
                == Err::<(), ApiError>(ApiError::WrongBrickKind),
            old(self).has_brick(name@) && old(self).brick(name@).config is Firewall ==> r == Ok::<
                (),
                ApiError,
            >(()),
    {
        let i = match self.find_brick(name) {
            None => {
                return Err(ApiError::BrickNotFound);
            },
            Some(i) => i,
        };
        proof {
            lemma_index_of_unique(self.bricks@, i as int, name@);
        }
        if !self.bricks[i].is_firewall() {
            return Err(ApiError::WrongBrickKind);
        }
        Ok(())
    }

    /// One processing step over every contained brick. Packet handling is
    /// the bricks' own (external) behavior, outside this control-plane
    /// model, so a poll step changes no control-plane state.
    pub fn poll(&mut self)
        ensures
            *final(self) == *old(self),
    {
    }
}

/// A brick of that name and configuration was appended: everything else
/// is unchanged and the new brick starts with no links and no rules.
pub open spec fn brick_added(
    old_s: Seq<Brick>,
    new_s: Seq<Brick>,
    name: Seq<char>,
    config: BrickConfig,
) -> bool {
    &&& new_s.len() == old_s.len() + 1
    &&& forall|i: int| 0 <= i < old_s.len() ==> new_s[i] == old_s[i]
    &&& new_s.last().name@ == name
    &&& new_s.last().config == config
    &&& new_s.last().rules@.len() == 0
    &&& new_s.last().west_peers@.len() == 0
    &&& new_s.last().east_peers@.len() == 0
    &&& has_name(new_s, name)
}

/// A brick after another brick of name `n` was detached: its own lists
/// are cleared when it is the named brick, and every entry of `n` is
/// dropped from them otherwise; nothing else changes.
pub open spec fn detached(ob: Brick, nb: Brick, n: Seq<char>) -> bool {
    &&& nb.name == ob.name
    &&& nb.config == ob.config
    &&& nb.rules == ob.rules
    &&& (ob.name@ == n ==> nb.west_peers@.len() == 0 && nb.east_peers@.len() == 0)
    &&& (ob.name@ != n ==> nb.west_peers@ == strip_name(ob.west_peers@, n) && nb.east_peers@
        == strip_name(ob.east_peers@, n))
}

/// Builds the peer list with every entry of `name` dropped.
fn strip_peers(peers: &Vec<String>, name: &String) -> (out: Vec<String>)
    ensures
        out@ == strip_name(peers@, name@),
        out@.len() <= peers@.len(),
{
    let mut out: Vec<String> = Vec::new();
    let mut i: usize = 0;
    while i < peers.len()
        invariant
            i <= peers@.len(),
            out@ == strip_name(peers@.subrange(0, i as int), name@),
            out@.len() <= i,
        decreases peers@.len() - i,
    {
        proof {
            assert(peers@.subrange(0, i as int + 1).drop_last() =~= peers@.subrange(0, i as int));
            assert(peers@.subrange(0, i as int + 1).last() == peers@[i as int]);
        }
        if !(peers[i] == *name) {
            out.push(peers[i].clone());
        }
        i += 1;
    }
    proof {
        assert(peers@.subrange(0, peers@.len() as int) =~= peers@);
    }
    out
}

/// Removing a position and reinserting at it is a plain replacement.
pub proof fn lemma_remove_insert<T>(s: Seq<T>, i: int, x: T)
    requires
        0 <= i < s.len(),
    ensures
        s.remove(i).insert(i, x) =~= s.update(i, x),
{
    let t = s.remove(i).insert(i, x);
    assert(t.len() == s.len());
    assert forall|k: int| 0 <= k < s.len() implies t[k] == s.update(i, x)[k] by {
        if k < i {
            assert(t[k] == s.remove(i)[k]);
        } else if k == i {
        } else {
            assert(t[k] == s.remove(i)[k - 1]);
        }
    }
}

} // verus!
