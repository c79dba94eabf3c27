use vstd::prelude::*;

verus! {

/// Names in a registration column, pairwise distinct: the uniqueness
/// invariant both the registry and every graph maintain.
pub open spec fn names_unique(s: Seq<Seq<char>>) -> bool {
    forall|i: int, j: int| 0 <= i < j < s.len() ==> s[i] != s[j]
}

/// How many entries of the column hold the name.
pub open spec fn count_name(s: Seq<Seq<char>>, n: Seq<char>) -> int
    decreases s.len(),
{
    if s.len() == 0 {
        0
    } else {
        count_name(s.drop_last(), n) + if s.last() == n {
            1int
        } else {
            0int
        }
    }
}

/// The create transition on a registration column: refused when the
/// name is taken, appended otherwise — the shape `Registry::graph_new`
/// and `Graph::add_brick` ensure of their name columns.
pub open spec fn create_name(s: Seq<Seq<char>>, n: Seq<char>) -> (Seq<Seq<char>>, bool) {
    if s.contains(n) {
        (s, false)
    } else {
        (s.push(n), true)
    }
}

/// A column holds the name exactly when its count is positive.
pub proof fn lemma_count_zero(s: Seq<Seq<char>>, n: Seq<char>)
    ensures
        count_name(s, n) == 0 <==> !s.contains(n),
        count_name(s, n) >= 0,
    decreases s.len(),
{
    if s.len() > 0 {
        lemma_count_zero(s.drop_last(), n);
        if s.contains(n) {
            let i = choose|i: int| 0 <= i < s.len() && s[i] == n;
            if i < s.len() - 1 {
                assert(s.drop_last()[i] == n);
                assert(s.drop_last().contains(n));
            }
        }
        if s.drop_last().contains(n) {
            let i = choose|i: int| 0 <= i < s.drop_last().len() && s.drop_last()[i] == n;
            assert(s[i] == n);
        }
    }
}

/// Under unique names, a present name is counted exactly once.
pub proof fn lemma_count_unique(s: Seq<Seq<char>>, n: Seq<char>)
    requires
        names_unique(s),
        s.contains(n),
    ensures
        count_name(s, n) == 1,
    decreases s.len(),
{
    let front = s.drop_last();
    assert(forall|i: int| 0 <= i < front.len() ==> front[i] == s[i]);
    if s.last() == n {
        assert(!front.contains(n)) by {
            if front.contains(n) {
                let i = choose|i: int| 0 <= i < front.len() && front[i] == n;
                assert(s[i] == s[s.len() - 1]);
            }
        }
        lemma_count_zero(front, n);
    } else {
        assert(front.contains(n)) by {
            let i = choose|i: int| 0 <= i < s.len() && s[i] == n;
            assert(i != s.len() - 1);
            assert(front[i] == n);
        }
        lemma_count_unique(front, n);
    }
}

/// Creating the same name twice in a row: the second attempt is always
/// refused, it changes nothing, and exactly one entry of that name
/// remains — the refusal `Registry::graph_new` and the brick
/// constructors surface as AlreadyExists.
pub proof fn lemma_create_twice(s: Seq<Seq<char>>, n: Seq<char>)
    requires
        names_unique(s),
    ensures
        !create_name(create_name(s, n).0, n).1,
        create_name(create_name(s, n).0, n).0 == create_name(s, n).0,
        count_name(create_name(s, n).0, n) == 1,
        names_unique(create_name(s, n).0),
{
    if s.contains(n) {
        lemma_count_unique(s, n);
    } else {
        let t = s.push(n);
        assert(t[s.len() as int] == n);
        assert(t.contains(n));
        assert forall|i: int, j: int| 0 <= i < j < t.len() implies t[i] != t[j] by {
            if j == s.len() {
                assert(t[i] == s[i]);
                assert(!s.contains(n));
                if s[i] == n {
                    assert(s.contains(n));
                }
            }
        }
        lemma_count_unique(t, n);
    }
}

} // verus!
