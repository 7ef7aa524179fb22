//! Association lists in specification: keyed sequences, first-match
//! lookup, and in-place binding.

use vstd::prelude::*;

verus! {

/// The index of the first entry keyed `key`, if any.
pub open spec fn find_key<T>(s: Seq<(Seq<char>, T)>, key: Seq<char>) -> Option<int>
    decreases s.len(),
{
    if s.len() == 0 {
        None
    } else if s[0].0 == key {
        Some(0int)
    } else {
        match find_key(s.drop_first(), key) {
            Some(i) => Some(i + 1),
            None => None,
        }
    }
}

/// Bind `key` to `value`: overwrite the entry in place when the key is
/// present, append a fresh entry otherwise.
pub open spec fn assoc_set<T>(s: Seq<(Seq<char>, T)>, key: Seq<char>, value: T) -> Seq<
    (Seq<char>, T),
> {
    match find_key(s, key) {
        Some(i) => s.update(i, (key, value)),
        None => s.push((key, value)),
    }
}

pub proof fn lemma_find_key_some<T>(s: Seq<(Seq<char>, T)>, key: Seq<char>, i: int)
    requires
        0 <= i < s.len(),
        s[i].0 == key,
        forall|j: int| 0 <= j < i ==> s[j].0 != key,
    ensures
        find_key(s, key) == Some(i),
    decreases s.len(),
{
    if i > 0 {
        lemma_find_key_some(s.drop_first(), key, i - 1);
    }
}

pub proof fn lemma_find_key_none<T>(s: Seq<(Seq<char>, T)>, key: Seq<char>)
    requires
        forall|j: int| 0 <= j < s.len() ==> s[j].0 != key,
    ensures
        find_key(s, key) is None,
    decreases s.len(),
{
    if s.len() > 0 {
        lemma_find_key_none(s.drop_first(), key);
    }
}



pub proof fn lemma_find_key_exists<T>(s: Seq<(Seq<char>, T)>, key: Seq<char>)
    requires
        (exists|i: int| 0 <= i < s.len() && (#[trigger] s[i]).0 == key),
    ensures
        (find_key(s, key) is Some),
    decreases s.len(),
{
    if s.len() > 0 && s[0].0 != key {
        let i = choose|i: int| 0 <= i < s.len() && (#[trigger] s[i]).0 == key;
        assert(s.drop_first()[i - 1].0 == key);
        lemma_find_key_exists(s.drop_first(), key);
    }
}
pub proof fn lemma_find_key_in_range<T>(s: Seq<(Seq<char>, T)>, key: Seq<char>)
    ensures
        find_key(s, key) matches Some(i) ==> 0 <= i < s.len() && s[i].0 == key,
    decreases s.len(),
{
    if s.len() > 0 && s[0].0 != key {
        lemma_find_key_in_range(s.drop_first(), key);
    }
}

pub proof fn lemma_find_key_none_char<T>(s: Seq<(Seq<char>, T)>, key: Seq<char>)
    requires
        (find_key(s, key) is None),
    ensures
        forall|j: int| 0 <= j < s.len() ==> (#[trigger] s[j]).0 != key,
    decreases s.len(),
{
    if s.len() > 0 {
        lemma_find_key_none_char(s.drop_first(), key);
        assert(forall|j: int|
            1 <= j < s.len() ==> (#[trigger] s[j]) == s.drop_first()[j - 1]);
    }
}

} // verus!
