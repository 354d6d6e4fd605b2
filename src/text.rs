//! Character-level text search used by the manifest scanners.
use vstd::prelude::*;

verus! {

/// `t` occurs in `s` starting at position `i`.
pub open spec fn occurs_at(s: Seq<char>, t: Seq<char>, i: int) -> bool {
    0 <= i && i + t.len() <= s.len() && s.subrange(i, i + t.len()) == t
}

/// The first position at or after `from` where `t` occurs in `s`, if any.
pub open spec fn find_from(s: Seq<char>, t: Seq<char>, from: int) -> Option<int>
    decreases s.len() + 1 - from,
{
    if from < 0 || from + t.len() > s.len() {
        None
    } else if s.subrange(from, from + t.len()) == t {
        Some(from)
    } else {
        find_from(s, t, from + 1)
    }
}

/// `t` occurs somewhere in `s`.
pub open spec fn has_text(s: Seq<char>, t: Seq<char>) -> bool {
    find_from(s, t, 0) is Some
}

/// What `find_from` returns: a first occurrence at or after `from`, or none there at all.
pub proof fn lemma_find_from(s: Seq<char>, t: Seq<char>, from: int)
    requires
        0 <= from,
    ensures
        match find_from(s, t, from) {
            Some(i) => occurs_at(s, t, i) && from <= i && forall|j: int|
                from <= j < i ==> !occurs_at(s, t, j),
            None => forall|j: int| from <= j ==> !occurs_at(s, t, j),
        },
    decreases s.len() + 1 - from,
{
    if from + t.len() > s.len() {
    } else if s.subrange(from, from + t.len()) == t {
    } else {
        lemma_find_from(s, t, from + 1);
    }
}

/// An occurrence with none before it, from `from` on, is what `find_from` returns.
pub proof fn lemma_find_from_first(s: Seq<char>, t: Seq<char>, from: int, i: int)
    requires
        0 <= from <= i,
        occurs_at(s, t, i),
        forall|j: int| from <= j < i ==> !occurs_at(s, t, j),
    ensures
        find_from(s, t, from) == Some(i),
    decreases i - from,
{
    if from < i {
        assert(!occurs_at(s, t, from));
        lemma_find_from_first(s, t, from + 1, i);
    }
}

/// The first of `items`, at or after `from`, that contains `t`.
pub open spec fn first_containing(items: Seq<Seq<char>>, t: Seq<char>, from: int) -> Option<int>
    decreases items.len() - from,
{
    if from < 0 || from >= items.len() {
        None
    } else if has_text(items[from], t) {
        Some(from)
    } else {
        first_containing(items, t, from + 1)
    }
}

/// `first_containing` finds an item exactly when one of them contains `t`, and it finds one
/// that does.
pub proof fn lemma_first_containing(items: Seq<Seq<char>>, t: Seq<char>, from: int)
    requires
        0 <= from,
    ensures
        first_containing(items, t, from) is Some <==> exists|i: int|
            from <= i < items.len() && has_text(#[trigger] items[i], t),
        first_containing(items, t, from) is Some ==> ({
            let k = first_containing(items, t, from)->Some_0;
            from <= k < items.len() && has_text(items[k], t)
        }),
    decreases items.len() - from,
{
    if from < items.len() && !has_text(items[from], t) {
        lemma_first_containing(items, t, from + 1);
    }
}

/// The characters of `s`, in order.
pub fn chars_of(s: &str) -> (r: Vec<char>)
    ensures
        r@ == s@,
{
    let n = s.unicode_len();
    let mut r: Vec<char> = Vec::new();
    let mut i: usize = 0;
    while i < n
        invariant
            n == s@.len(),
            i <= n,
            r@ == s@.subrange(0, i as int),
        decreases n - i,
    {
        r.push(s.get_char(i));
        i = i + 1;
    }
    assert(r@ =~= s@);
    r
}

/// Whether `t` occurs in `s` at position `i`.
pub fn matches_at(s: &Vec<char>, t: &Vec<char>, i: usize) -> (r: bool)
    ensures
        r == occurs_at(s@, t@, i as int),
{
    if i > s.len() || t.len() > s.len() - i {
        return false;
    }
    let mut j: usize = 0;
    while j < t.len()
        invariant
            i + t.len() <= s.len(),
            j <= t.len(),
            forall|k: int| 0 <= k < j ==> s@[i + k] == t@[k],
        decreases t.len() - j,
    {
        if s[i + j] != t[j] {
            assert(s@.subrange(i as int, i + t.len())[j as int] != t@[j as int]);
            return false;
        }
        j = j + 1;
    }
    assert(s@.subrange(i as int, i + t.len()) =~= t@);
    true
}

/// The first position at or after `from` where `t` occurs in `s`.
pub fn find_text_from(s: &Vec<char>, t: &Vec<char>, from: usize) -> (r: Option<usize>)
    ensures
        match r {
            Some(i) => find_from(s@, t@, from as int) == Some(i as int),
            None => find_from(s@, t@, from as int) is None,
        },
{
    let mut i: usize = from;
    while i <= s.len() && t.len() <= s.len() - i
        invariant
            from <= i,
            find_from(s@, t@, from as int) == find_from(s@, t@, i as int),
        decreases s.len() + 1 - i,
    {
        if matches_at(s, t, i) {
            return Some(i);
        }
        if i == s.len() {
            assert(find_from(s@, t@, i + 1) is None);
            return None;
        }
        i = i + 1;
    }
    None
}

} // verus!
