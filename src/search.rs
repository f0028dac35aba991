use vstd::prelude::*;

verus! {

/// `i` is the least index below `len` at which `f` holds.
pub open spec fn is_least(len: nat, f: spec_fn(int) -> bool, i: int) -> bool {
    &&& 0 <= i < len
    &&& f(i)
    &&& forall|k: int| 0 <= k < i ==> !#[trigger] f(k)
}

/// The least index below `len` at which `f` holds, if any.
pub open spec fn first_where(len: nat, f: spec_fn(int) -> bool) -> Option<int> {
    if exists|i: int| is_least(len, f, i) {
        Some(choose|i: int| is_least(len, f, i))
    } else {
        None
    }
}

pub proof fn lemma_first_where_some(len: nat, f: spec_fn(int) -> bool, i: int)
    requires
        is_least(len, f, i),
    ensures
        first_where(len, f) == Some(i),
{
    let j = choose|j: int| is_least(len, f, j);
    assert(is_least(len, f, j));
    if j < i {
        assert(!f(j));
    } else if i < j {
        assert(!f(i));
    }
}

pub proof fn lemma_first_where_none(len: nat, f: spec_fn(int) -> bool)
    requires
        forall|i: int| 0 <= i < len ==> !#[trigger] f(i),
    ensures
        first_where(len, f) is None,
{
}

/// If `f` holds anywhere below `len`, it holds at a least index.
pub proof fn lemma_first_where_exists(len: nat, f: spec_fn(int) -> bool, i: int)
    requires
        0 <= i < len,
        f(i),
    ensures
        first_where(len, f) is Some,
    decreases i,
{
    if forall|k: int| 0 <= k < i ==> !#[trigger] f(k) {
        lemma_first_where_some(len, f, i);
    } else {
        let k = choose|k: int| 0 <= k < i && #[trigger] f(k);
        lemma_first_where_exists(len, f, k);
    }
}

/// Position `i` of `s` holds `x`.
pub open spec fn name_at(s: Seq<Seq<char>>, x: Seq<char>) -> spec_fn(int) -> bool {
    |i: int| s[i] == x
}

/// Position of the first occurrence of `x` in `s`.
pub open spec fn first_index(s: Seq<Seq<char>>, x: Seq<char>) -> Option<int> {
    first_where(s.len(), name_at(s, x))
}

/// An optional position as a mathematical integer.
pub open spec fn opt_index(o: Option<usize>) -> Option<int> {
    match o {
        Some(i) => Some(i as int),
        None => None,
    }
}

/// The views of a vector of strings.
pub open spec fn views(v: Seq<String>) -> Seq<Seq<char>> {
    v.map_values(|s: String| s@)
}

/// Finds the first string in `v` equal to `x`.
pub(crate) fn find_name(v: &Vec<String>, x: &String) -> (r: Option<usize>)
    ensures
        opt_index(r) == first_index(views(v@), x@),
        r is None ==> !views(v@).contains(x@),
        r matches Some(i) ==> i < v@.len() && views(v@)[i as int] == x@,
{
    let ghost s = views(v@);
    let ghost f = name_at(s, x@);
    let mut i: usize = 0;
    while i < v.len()
        invariant
            0 <= i <= v@.len(),
            s == views(v@),
            f == name_at(s, x@),
            forall|k: int| 0 <= k < i ==> !#[trigger] f(k),
        decreases v@.len() - i,
    {
        if v[i] == *x {
            proof {
                lemma_first_where_some(s.len(), f, i as int);
            }
            return Some(i);
        }
        i = i + 1;
    }
    proof {
        lemma_first_where_none(s.len(), f);
        assert forall|k: int| 0 <= k < s.len() implies s[k] != x@ by {
            assert(!f(k));
        }
    }
    None
}

/// Some name occurs in `s` before position `i`.
pub open spec fn repeats_earlier(s: Seq<Seq<char>>, i: int) -> bool {
    exists|j: int| 0 <= j < i && s[j] == s[i]
}

/// Position `i` of `s` repeats an earlier name.
pub open spec fn repeat_at(s: Seq<Seq<char>>) -> spec_fn(int) -> bool {
    |i: int| repeats_earlier(s, i)
}

/// The first position whose name occurs earlier in `s`.
pub open spec fn first_repeat(s: Seq<Seq<char>>) -> Option<int> {
    first_where(s.len(), repeat_at(s))
}

/// In a sequence without repeats, each name is first found where it stands.
pub proof fn lemma_unique_index(s: Seq<Seq<char>>, i: int)
    requires
        first_repeat(s) is None,
        0 <= i < s.len(),
    ensures
        first_index(s, s[i]) == Some(i),
{
    assert forall|k: int| 0 <= k < i implies !#[trigger] name_at(s, s[i])(k) by {
        if s[k] == s[i] {
            assert(repeat_at(s)(i));
            lemma_first_where_exists(s.len(), repeat_at(s), i);
        }
    }
    lemma_first_where_some(s.len(), name_at(s, s[i]), i);
}

/// Finds the first name of `v` that repeats an earlier one.
pub(crate) fn find_repeat(v: &Vec<String>) -> (r: Option<usize>)
    ensures
        opt_index(r) == first_repeat(views(v@)),
{
    let ghost s = views(v@);
    let ghost f = repeat_at(s);
    let mut i: usize = 0;
    while i < v.len()
        invariant
            0 <= i <= v@.len(),
            s == views(v@),
            f == repeat_at(s),
            forall|k: int| 0 <= k < i ==> !#[trigger] f(k),
        decreases v@.len() - i,
    {
        let mut j: usize = 0;
        while j < i
            invariant
                0 <= j <= i < v@.len(),
                s == views(v@),
                forall|k: int| 0 <= k < j ==> s[k] != s[i as int],
                f == repeat_at(s),
                forall|k: int| 0 <= k < i ==> !#[trigger] f(k),
            decreases i - j,
        {
            if v[j] == v[i] {
                proof {
                    assert(s[j as int] == s[i as int]);
                    assert(repeats_earlier(s, i as int));
                    assert(f(i as int));
                    lemma_first_where_some(s.len(), f, i as int);
                }
                return Some(i);
            }
            j = j + 1;
        }
        assert(!f(i as int));
        i = i + 1;
    }
    proof {
        lemma_first_where_none(s.len(), f);
    }
    None
}

} // verus!
