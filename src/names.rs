use vstd::prelude::*;

verus! {

/// The identifiers held by a list of strings, as character sequences.
pub open spec fn ids_of(v: Seq<String>) -> Seq<Seq<char>> {
    v.map_values(|s: String| s@)
}

/// Whether `v` lists `x`.
pub fn list_contains(v: &Vec<String>, x: &str) -> (r: bool)
    ensures
        r == ids_of(v@).contains(x@),
{
    let k = x.to_owned();
    let mut i: usize = 0;
    while i < v.len()
        invariant
            k@ == x@,
            0 <= i <= v.len(),
            forall|j: int| 0 <= j < i ==> v@[j]@ != x@,
        decreases v.len() - i,
    {
        if v[i] == k {
            assert(ids_of(v@)[i as int] == x@);
            return true;
        }
        i = i + 1;
    }
    assert forall|j: int| 0 <= j < ids_of(v@).len() implies ids_of(v@)[j] != x@ by {
        assert(ids_of(v@)[j] == v@[j]@);
    }
    false
}

/// Removes the first entry of `v` equal to `x`, if there is one.
pub fn list_remove_first(v: &mut Vec<String>, x: &str)
    ensures
        ids_of(final(v)@) == ids_of(old(v)@).remove_value(x@),
{
    let ghost s = ids_of(v@);
    let k = x.to_owned();
    let mut i: usize = 0;
    while i < v.len()
        invariant
            k@ == x@,
            s == ids_of(v@),
            v@ == old(v)@,
            0 <= i <= v.len(),
            forall|j: int| 0 <= j < i ==> s[j] != x@,
        decreases v.len() - i,
    {
        if v[i] == k {
            proof {
                s.index_of_first_ensures(x@);
                assert(s[i as int] == x@);
                assert(s.contains(x@));
                let f = s.index_of_first(x@)->0;
                assert(f == i);
            }
            v.remove(i);
            assert(ids_of(v@) =~= s.remove(i as int));
            return;
        }
        assert(s[i as int] == v@[i as int]@);
        i = i + 1;
    }
    proof {
        s.index_of_first_ensures(x@);
    }
    assert(!s.contains(x@));
}

/// A copy of a list of identifiers.
pub fn copy_list(v: &Vec<String>) -> (r: Vec<String>)
    ensures
        ids_of(r@) == ids_of(v@),
{
    let mut r: Vec<String> = Vec::new();
    let mut i: usize = 0;
    while i < v.len()
        invariant
            0 <= i <= v.len(),
            r.len() == i,
            ids_of(r@) == ids_of(v@).subrange(0, i as int),
        decreases v.len() - i,
    {
        let c = v[i].clone();
        assert(c@ == ids_of(v@)[i as int]);
        let ghost prev = r@;
        r.push(c);
        assert forall|j: int| 0 <= j <= i implies ids_of(r@)[j] == ids_of(v@)[j] by {
            if j < i {
                assert(r@[j] == prev[j]);
                assert(ids_of(prev)[j] == ids_of(v@)[j]);
            }
        }
        assert(ids_of(r@) =~= ids_of(v@).subrange(0, i + 1));
        i = i + 1;
    }
    assert(ids_of(v@).subrange(0, v.len() as int) =~= ids_of(v@));
    r
}

/// Appending `x` adds `x` and nothing else.
pub proof fn lemma_push_contains(s: Seq<Seq<char>>, x: Seq<char>, y: Seq<char>)
    ensures
        s.push(x).contains(y) <==> s.contains(y) || y == x,
{
    if s.contains(y) {
        let j = choose|j: int| 0 <= j < s.len() && s[j] == y;
        assert(s.push(x)[j] == y);
    }
    if y == x {
        assert(s.push(x)[s.len() as int] == y);
    }
    if s.push(x).contains(y) && y != x {
        let j = choose|j: int| 0 <= j < s.push(x).len() && s.push(x)[j] == y;
        assert(s[j] == y);
    }
}

/// Taking an entry out of a list without repeats leaves a list without repeats
/// that no longer holds it.
pub proof fn lemma_remove_value_no_duplicates(s: Seq<Seq<char>>, x: Seq<char>)
    requires
        s.no_duplicates(),
    ensures
        s.remove_value(x).no_duplicates(),
        !s.remove_value(x).contains(x),
        forall|y: Seq<char>| y != x ==> (#[trigger] s.remove_value(x).contains(y) <==> s.contains(y)),
{
    s.index_of_first_ensures(x);
    match s.index_of_first(x) {
        Some(i) => {
            let t = s.remove(i);
            assert forall|a: int, b: int| 0 <= a < t.len() && 0 <= b < t.len() && a != b
                implies t[a] != t[b] by {
                let a2 = if a < i { a } else { a + 1 };
                let b2 = if b < i { b } else { b + 1 };
                assert(t[a] == s[a2]);
                assert(t[b] == s[b2]);
            }
            assert forall|j: int| 0 <= j < t.len() implies t[j] != x by {
                let j2 = if j < i { j } else { j + 1 };
                assert(t[j] == s[j2]);
            }
            assert forall|y: Seq<char>| y != x implies (#[trigger] t.contains(y) <==> s.contains(y)) by {
                if s.contains(y) {
                    let j = choose|j: int| 0 <= j < s.len() && s[j] == y;
                    assert(j != i);
                    let j2 = if j < i { j } else { j - 1 };
                    assert(t[j2] == y);
                }
                if t.contains(y) {
                    let j = choose|j: int| 0 <= j < t.len() && t[j] == y;
                    let j2 = if j < i { j } else { j + 1 };
                    assert(s[j2] == y);
                }
            }
        },
        None => {},
    }
}

} // verus!
