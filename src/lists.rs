use vstd::prelude::*;

verus! {

/// `i` is the first position of `x` in `s`.
pub open spec fn first_at(s: Seq<usize>, x: usize, i: int) -> bool {
    &&& 0 <= i < s.len()
    &&& s[i] == x
    &&& forall|j: int| 0 <= j < i ==> s[j] != x
}

/// `s` with the first occurrence of `x` taken out; `s` itself when `x` does
/// not occur.
pub open spec fn without_first(s: Seq<usize>, x: usize) -> Seq<usize> {
    if exists|i: int| first_at(s, x, i) {
        s.remove(choose|i: int| first_at(s, x, i))
    } else {
        s
    }
}

/// The first position of `x` in `v`, if any.
pub fn position_of(v: &Vec<usize>, x: usize) -> (r: Option<usize>)
    ensures
        match r {
            Some(i) => first_at(v@, x, i as int),
            None => !v@.contains(x),
        },
{
    let mut i: usize = 0;
    while i < v.len()
        invariant
            i <= v@.len(),
            forall|j: int| 0 <= j < i ==> v@[j] != x,
        decreases v@.len() - i,
    {
        if v[i] == x {
            return Some(i);
        }
        i = i + 1;
    }
    None
}

proof fn lemma_first_at_unique(s: Seq<usize>, x: usize, i: int, j: int)
    requires
        first_at(s, x, i),
        first_at(s, x, j),
    ensures
        i == j,
{
    if i < j {
        assert(s[i] != x);
    }
    if j < i {
        assert(s[j] != x);
    }
}

/// Takes the first occurrence of `x` out of `v`; does nothing if there is none.
pub fn remove_first(v: &mut Vec<usize>, x: usize)
    ensures
        final(v)@ == without_first(old(v)@, x),
{
    match position_of(v, x) {
        Some(i) => {
            proof {
                let j = choose|j: int| first_at(old(v)@, x, j);
                lemma_first_at_unique(old(v)@, x, i as int, j);
            }
            v.remove(i);
        },
        None => {
            assert forall|i: int| !first_at(old(v)@, x, i) by {
                if 0 <= i < old(v)@.len() && old(v)@[i] == x {
                    assert(old(v)@.contains(x));
                }
            }
        },
    }
}

/// What taking out the first `x` leaves: every other value that was there,
/// nothing new, and no repetition where there was none.
pub proof fn lemma_without_first(s: Seq<usize>, x: usize)
    ensures
        forall|y: usize| #[trigger] without_first(s, x).contains(y) ==> s.contains(y),
        forall|y: usize| y != x && s.contains(y) ==> #[trigger] without_first(s, x).contains(y),
        s.no_duplicates() ==> without_first(s, x).no_duplicates(),
        s.no_duplicates() ==> !without_first(s, x).contains(x),
        !s.contains(x) ==> without_first(s, x) == s,
{
    if exists|i: int| first_at(s, x, i) {
        let i = choose|i: int| first_at(s, x, i);
        let r = s.remove(i);
        assert forall|y: usize| #[trigger] r.contains(y) implies s.contains(y) by {
            let k = choose|k: int| 0 <= k < r.len() && r[k] == y;
            if k < i {
                assert(s[k] == y);
            } else {
                assert(s[k + 1] == y);
            }
        }
        assert forall|y: usize| y != x && s.contains(y) implies #[trigger] r.contains(y) by {
            let k = choose|k: int| 0 <= k < s.len() && s[k] == y;
            if k < i {
                assert(r[k] == y);
            } else {
                assert(k != i);
                assert(r[k - 1] == y);
            }
        }
        if s.no_duplicates() {
            assert forall|a: int, b: int|
                0 <= a < r.len() && 0 <= b < r.len() && a != b implies r[a] != r[b] by {
                let sa = if a < i {
                    a
                } else {
                    a + 1
                };
                let sb = if b < i {
                    b
                } else {
                    b + 1
                };
                assert(r[a] == s[sa] && r[b] == s[sb]);
            }
            assert forall|k: int| 0 <= k < r.len() implies r[k] != x by {
                if k < i {
                    assert(s[k] == r[k]);
                } else {
                    assert(s[k + 1] == r[k]);
                    assert(k + 1 != i);
                }
            }
        }
    } else {
        if s.contains(x) {
            let k = choose|k: int| 0 <= k < s.len() && s[k] == x;
            lemma_some_first(s, x, k);
        }
    }
}

/// A value that occurs has a first position.
proof fn lemma_some_first(s: Seq<usize>, x: usize, k: int)
    requires
        0 <= k < s.len(),
        s[k] == x,
    ensures
        exists|i: int| first_at(s, x, i),
    decreases k,
{
    if exists|j: int| 0 <= j < k && s[j] == x {
        let j = choose|j: int| 0 <= j < k && s[j] == x;
        lemma_some_first(s, x, j);
    } else {
        assert(first_at(s, x, k));
    }
}

/// Putting `x` in front of a sequence without it keeps it free of repetition.
pub proof fn lemma_push_front(s: Seq<usize>, x: usize)
    ensures
        forall|y: usize| #[trigger] (seq![x] + s).contains(y) <==> y == x || s.contains(y),
        s.no_duplicates() && !s.contains(x) ==> (seq![x] + s).no_duplicates(),
{
    let r = seq![x] + s;
    assert forall|y: usize| #[trigger] r.contains(y) <==> y == x || s.contains(y) by {
        if r.contains(y) {
            let k = choose|k: int| 0 <= k < r.len() && r[k] == y;
            if k > 0 {
                assert(s[k - 1] == y);
            }
        }
        if y == x {
            assert(r[0] == y);
        }
        if s.contains(y) {
            let k = choose|k: int| 0 <= k < s.len() && s[k] == y;
            assert(r[k + 1] == y);
        }
    }
    if s.no_duplicates() && !s.contains(x) {
        assert forall|a: int, b: int|
            0 <= a < r.len() && 0 <= b < r.len() && a != b implies r[a] != r[b] by {
            if a > 0 && b > 0 {
                assert(r[a] == s[a - 1] && r[b] == s[b - 1]);
            } else if a == 0 {
                assert(r[b] == s[b - 1]);
            } else {
                assert(r[a] == s[a - 1]);
            }
        }
    }
}

} // verus!
