use vstd::prelude::*;

verus! {

/// Pushing `v` adds exactly `v` to what a sequence contains.
pub proof fn lemma_push_contains<A>(s: Seq<A>, v: A, c: A)
    ensures
        s.push(v).contains(c) <==> (s.contains(c) || c == v),
{
    if s.contains(c) {
        let i = choose|i: int| 0 <= i < s.len() && s[i] == c;
        assert(s.push(v)[i] == c);
    }
    if c == v {
        assert(s.push(v)[s.len() as int] == c);
    }
    if s.push(v).contains(c) && c != v {
        let i = choose|i: int| 0 <= i < s.push(v).len() && s.push(v)[i] == c;
        assert(s[i] == c);
    }
}

/// Pushing a new element keeps a sequence free of duplicates.
pub proof fn lemma_push_no_duplicates<A>(s: Seq<A>, v: A)
    requires
        s.no_duplicates(),
        !s.contains(v),
    ensures
        s.push(v).no_duplicates(),
{
    assert forall|i: int, j: int| 0 <= i < j < s.push(v).len() implies s.push(v)[i] != s.push(v)[j] by {
        if j == s.len() {
            assert(s[i] == s.push(v)[i]);
        }
    }
}

} // verus!
