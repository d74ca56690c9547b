//! Character-level helpers on strings: conversion to characters, appending,
//! and the lexicographic order of keys (the order of `String`'s `Ord`).
use vstd::prelude::*;

verus! {

/// The characters of `s`, in order.
pub fn chars_of(s: &str) -> (v: Vec<char>)
    ensures
        v@ == s@,
{
    let mut v: Vec<char> = Vec::new();
    broadcast use vstd::string::group_string_axioms;

    for c in it: s.chars()
        invariant
            it.seq() == s@,
            v@ == s@.take(it.index() as int),
    {
        v.push(c);
    }
    assert(v@ == s@.take(s@.len() as int));
    v
}

/// Appends one character; calls `String::push`.
/// Trusted: `String::push` appends `c` at the end and changes nothing else.
#[verifier::external_body]
pub(crate) fn push_char(s: &mut String, c: char)
    ensures
        final(s)@ == old(s)@.push(c),
{
    s.push(c);
}

/// Appends `t` at the end of `s`.
pub fn push_str(s: &mut String, t: &str)
    ensures
        final(s)@ == old(s)@ + t@,
{
    s.append(t);
}

/// A string made of the characters of `v` from `lo` up to `hi`.
pub fn string_of_range(v: &Vec<char>, lo: usize, hi: usize) -> (s: String)
    requires
        lo <= hi <= v@.len(),
    ensures
        s@ == v@.subrange(lo as int, hi as int),
{
    let mut s = String::new();
    let mut i: usize = lo;
    while i < hi
        invariant
            lo <= i <= hi,
            hi <= v@.len(),
            s@ == v@.subrange(lo as int, i as int),
        decreases hi - i,
    {
        push_char(&mut s, v[i]);
        i = i + 1;
        assert(s@ =~= v@.subrange(lo as int, i as int));
    }
    s
}

/// Every character of `s` is ASCII.
pub open spec fn all_ascii(s: Seq<char>) -> bool {
    forall|i: int| 0 <= i < s.len() ==> (#[trigger] s[i] as int) < 128
}

/// The characters of an optional string.
pub open spec fn opt_view(o: Option<String>) -> Option<Seq<char>> {
    match o {
        Some(s) => Some(s@),
        None => None,
    }
}

/// Lexicographic order of `a` and `b` compared from position `i` on:
/// characters by code point, a proper prefix before the longer string.
pub open spec fn key_lt_from(a: Seq<char>, b: Seq<char>, i: int) -> bool
    decreases a.len() - i,
{
    if i < 0 || i >= b.len() {
        false
    } else if i >= a.len() {
        true
    } else if a[i] != b[i] {
        (a[i] as int) < (b[i] as int)
    } else {
        key_lt_from(a, b, i + 1)
    }
}

/// `a` comes strictly before `b` (the order of `String` and of `BTreeMap` keys).
pub open spec fn key_lt(a: Seq<char>, b: Seq<char>) -> bool {
    key_lt_from(a, b, 0)
}

pub proof fn lemma_key_lt_from_irreflexive(a: Seq<char>, i: int)
    requires
        0 <= i,
    ensures
        !key_lt_from(a, a, i),
    decreases a.len() - i,
{
    if i < a.len() {
        lemma_key_lt_from_irreflexive(a, i + 1);
    }
}

pub proof fn lemma_key_lt_from_transitive(a: Seq<char>, b: Seq<char>, c: Seq<char>, i: int)
    requires
        0 <= i,
        key_lt_from(a, b, i),
        key_lt_from(b, c, i),
    ensures
        key_lt_from(a, c, i),
    decreases a.len() - i,
{
    if i < a.len() && i < b.len() && i < c.len() && a[i] == b[i] && b[i] == c[i] {
        lemma_key_lt_from_transitive(a, b, c, i + 1);
    }
}

pub proof fn lemma_key_lt_from_total(a: Seq<char>, b: Seq<char>, i: int)
    requires
        0 <= i <= a.len(),
        i <= b.len(),
        !key_lt_from(a, b, i),
        !key_lt_from(b, a, i),
    ensures
        a.len() == b.len(),
        forall|j: int| i <= j < a.len() ==> a[j] == b[j],
    decreases a.len() - i,
{
    if i < a.len() && i < b.len() {
        if a[i] == b[i] {
            lemma_key_lt_from_total(a, b, i + 1);
        } else {
            assert((a[i] as int) != (b[i] as int));
        }
    }
}

/// No key comes before itself.
pub proof fn lemma_key_lt_irreflexive(a: Seq<char>)
    ensures
        !key_lt(a, a),
{
    lemma_key_lt_from_irreflexive(a, 0);
}

/// The key order is transitive.
pub proof fn lemma_key_lt_transitive(a: Seq<char>, b: Seq<char>, c: Seq<char>)
    requires
        key_lt(a, b),
        key_lt(b, c),
    ensures
        key_lt(a, c),
{
    lemma_key_lt_from_transitive(a, b, c, 0);
}

/// Two distinct keys are always ordered one way or the other.
pub proof fn lemma_key_lt_total(a: Seq<char>, b: Seq<char>)
    ensures
        a == b || key_lt(a, b) || key_lt(b, a),
{
    if !key_lt(a, b) && !key_lt(b, a) {
        lemma_key_lt_from_total(a, b, 0);
        assert(a =~= b);
    }
}

/// The outcome of comparing two keys.
#[derive(PartialEq, Eq, Structural, Clone, Copy, Debug)]
pub enum KeyOrder {
    Less,
    Equal,
    Greater,
}

/// Compares two keys in the order of `key_lt`.
pub fn compare_keys(a: &str, b: &str) -> (r: KeyOrder)
    ensures
        r == KeyOrder::Less <==> key_lt(a@, b@),
        r == KeyOrder::Equal <==> a@ == b@,
        r == KeyOrder::Greater <==> key_lt(b@, a@),
{
    let av = chars_of(a);
    let bv = chars_of(b);
    proof {
        lemma_key_lt_irreflexive(a@);
    }
    let mut i: usize = 0;
    while i < av.len() && i < bv.len()
        invariant
            av@ == a@,
            bv@ == b@,
            i <= av.len(),
            i <= bv.len(),
            forall|j: int| 0 <= j < i ==> av@[j] == bv@[j],
            key_lt(a@, b@) == key_lt_from(a@, b@, i as int),
            key_lt(b@, a@) == key_lt_from(b@, a@, i as int),
        decreases av.len() - i,
    {
        let x = av[i];
        let y = bv[i];
        if x != y {
            proof {
                if a@ == b@ {
                    assert(a@[i as int] == b@[i as int]);
                }
            }
            if x < y {
                return KeyOrder::Less;
            } else {
                return KeyOrder::Greater;
            }
        }
        i = i + 1;
    }
    if av.len() == bv.len() {
        assert(a@ =~= b@);
        KeyOrder::Equal
    } else if av.len() < bv.len() {
        KeyOrder::Less
    } else {
        KeyOrder::Greater
    }
}

} // verus!
