//! Ascending order for lists of distinct identifiers.
use vstd::prelude::*;

verus! {

/// The elements of `s` are strictly increasing.
pub open spec fn strictly_increasing(s: Seq<usize>) -> bool {
    forall|i: int, j: int| 0 <= i < j < s.len() ==> s[i] < s[j]
}

/// The distinct elements of `v`, each once, in increasing order.
pub fn sorted_unique(v: &Vec<usize>) -> (r: Vec<usize>)
    ensures
        r@.to_set() == v@.to_set(),
        r@.no_duplicates(),
        strictly_increasing(r@),
{
    let mut r: Vec<usize> = Vec::new();
    let mut i: usize = 0;
    while i < v.len()
        invariant
            0 <= i <= v.len(),
            strictly_increasing(r@),
            r@.to_set() == v@.subrange(0, i as int).to_set(),
        decreases v.len() - i,
    {
        let x = v[i];
        let mut k: usize = 0;
        while k < r.len() && r[k] < x
            invariant
                0 <= k <= r.len(),
                forall|j: int| 0 <= j < k ==> r@[j] < x,
            decreases r.len() - k,
        {
            k = k + 1;
        }
        if k < r.len() && r[k] == x {
            proof {
                assert(v@.subrange(0, i + 1) == v@.subrange(0, i as int).push(x));
                assert(r@.to_set().contains(x)) by { assert(r@.contains(r@[k as int])); }
                assert(v@.subrange(0, i + 1).to_set() =~= v@.subrange(0, i as int).to_set().insert(x)) by {
                    assert forall|y: usize| v@.subrange(0, i + 1).to_set().contains(y) implies
                        v@.subrange(0, i as int).to_set().insert(x).contains(y) by {
                        let ip: int = i + 1;
                        let j = choose|j: int| 0 <= j < ip && #[trigger] v@.subrange(0, ip)[j] == y;
                        if j < i { assert(v@.subrange(0, i as int)[j] == y); }
                    }
                    assert forall|y: usize| v@.subrange(0, i as int).to_set().insert(x).contains(y) implies
                        v@.subrange(0, i + 1).to_set().contains(y) by {
                        if y == x {
                            assert(v@.subrange(0, i + 1)[i as int] == x);
                        } else {
                            let j = choose|j: int| 0 <= j < i && v@.subrange(0, i as int)[j] == y;
                            assert(v@.subrange(0, i + 1)[j] == y);
                        }
                    }
                }
                assert(r@.to_set().insert(x) =~= r@.to_set());
            }
            i = i + 1;
            continue;
        }
        proof {
            assert(!r@.contains(x)) by {
                if r@.contains(x) {
                    let j = choose|j: int| 0 <= j < r@.len() && r@[j] == x;
                    if j < k {
                    } else if j > k {
                        assert(r@[k as int] < r@[j]);
                    }
                }
            }
        }
        let ghost old_r = r@;
        r.insert(k, x);
        proof {
            assert(k < old_r.len() ==> old_r[k as int] > x);
            assert(r@ == old_r.subrange(0, k as int).push(x) + old_r.subrange(k as int, old_r.len() as int));
            assert(strictly_increasing(r@)) by {
                assert forall|a: int, b: int| 0 <= a < b < r@.len() implies r@[a] < r@[b] by {
                    if b < k {
                    } else if b == k {
                    } else if a < k {
                        assert(r@[b] == old_r[b - 1]);
                    } else if a == k {
                        assert(r@[b] == old_r[b - 1]);
                        assert(old_r[k as int] <= old_r[b - 1]);
                    } else {
                        assert(r@[a] == old_r[a - 1]);
                        assert(r@[b] == old_r[b - 1]);
                    }
                }
            }
            assert(v@.subrange(0, i + 1) == v@.subrange(0, i as int).push(x));
            assert(r@.to_set() =~= old_r.to_set().insert(x)) by {
                assert forall|y: usize| r@.to_set().contains(y) implies old_r.to_set().insert(x).contains(y) by {
                    let j = choose|j: int| 0 <= j < r@.len() && r@[j] == y;
                    if j < k { assert(old_r[j] == y); } else if j > k { assert(old_r[j - 1] == y); }
                }
                assert forall|y: usize| old_r.to_set().insert(x).contains(y) implies r@.to_set().contains(y) by {
                    if y == x {
                        assert(r@[k as int] == x);
                    } else {
                        let j = choose|j: int| 0 <= j < old_r.len() && old_r[j] == y;
                        if j < k { assert(r@[j] == y); } else { assert(r@[j + 1] == y); }
                    }
                }
            }
            assert(v@.subrange(0, i + 1).to_set() =~= v@.subrange(0, i as int).to_set().insert(x)) by {
                assert forall|y: usize| v@.subrange(0, i + 1).to_set().contains(y) implies
                    v@.subrange(0, i as int).to_set().insert(x).contains(y) by {
                    let ip: int = i + 1;
                    let j = choose|j: int| 0 <= j < ip && #[trigger] v@.subrange(0, ip)[j] == y;
                    if j < i { assert(v@.subrange(0, i as int)[j] == y); }
                }
                assert forall|y: usize| v@.subrange(0, i as int).to_set().insert(x).contains(y) implies
                    v@.subrange(0, i + 1).to_set().contains(y) by {
                    if y == x {
                        assert(v@.subrange(0, i + 1)[i as int] == x);
                    } else {
                        let j = choose|j: int| 0 <= j < i && v@.subrange(0, i as int)[j] == y;
                        assert(v@.subrange(0, i + 1)[j] == y);
                    }
                }
            }
        }
        i = i + 1;
    }
    proof {
        assert(v@.subrange(0, v@.len() as int) == v@);
        assert(r@.no_duplicates()) by {
            assert forall|a: int, b: int| 0 <= a < r@.len() && 0 <= b < r@.len() && a != b implies r@[a] != r@[b] by {
                if a < b { } else { }
            }
        }
    }
    r
}

} // verus!
