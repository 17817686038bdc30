use vstd::prelude::*;
use vstd::string::*;

verus! {

/// Lexicographic strict order on character sequences, by Unicode scalar value.
/// File identities are kept in this order so that every assembly run lays the
/// package out the same way.
pub open spec fn lex_lt(a: Seq<char>, b: Seq<char>) -> bool
    decreases a.len(),
{
    if b.len() == 0 {
        false
    } else if a.len() == 0 {
        true
    } else if a[0] != b[0] {
        (a[0] as u32) < (b[0] as u32)
    } else {
        lex_lt(a.skip(1), b.skip(1))
    }
}

pub proof fn lemma_lex_lt_asymmetric(a: Seq<char>, b: Seq<char>)
    ensures
        !(lex_lt(a, b) && lex_lt(b, a)),
    decreases a.len(),
{
    if a.len() > 0 && b.len() > 0 && a[0] == b[0] {
        lemma_lex_lt_asymmetric(a.skip(1), b.skip(1));
    }
}

pub proof fn lemma_lex_lt_irreflexive(a: Seq<char>)
    ensures
        !lex_lt(a, a),
{
    lemma_lex_lt_asymmetric(a, a);
}

/// Two sequences neither of which precedes the other are equal.
pub proof fn lemma_lex_lt_connected(a: Seq<char>, b: Seq<char>)
    requires
        !lex_lt(a, b),
        !lex_lt(b, a),
    ensures
        a == b,
    decreases a.len(),
{
    if a.len() == 0 {
        assert(b.len() == 0);
        assert(a =~= b);
    } else {
        assert(b.len() > 0);
        if a[0] != b[0] {
            assert(a[0] as u32 == b[0] as u32);
            vstd::utf8::char_u32_cast(a[0], a[0] as u32);
            vstd::utf8::char_u32_cast(b[0], b[0] as u32);
            assert(false);
        }
        lemma_lex_lt_connected(a.skip(1), b.skip(1));
        assert(a =~= b) by {
            assert(forall|i: int| 1 <= i < a.len() ==> a[i] == a.skip(1)[i - 1]);
            assert(forall|i: int| 1 <= i < b.len() ==> b[i] == b.skip(1)[i - 1]);
        }
    }
}

pub proof fn lemma_lex_lt_transitive(a: Seq<char>, b: Seq<char>, c: Seq<char>)
    requires
        lex_lt(a, b),
        lex_lt(b, c),
    ensures
        lex_lt(a, c),
    decreases a.len(),
{
    if a.len() > 0 {
        if a[0] == b[0] && b[0] == c[0] {
            lemma_lex_lt_transitive(a.skip(1), b.skip(1), c.skip(1));
        }
    }
}

/// When the first `k` characters agree, the order is decided by the suffixes.
pub proof fn lemma_lex_lt_common_prefix(a: Seq<char>, b: Seq<char>, k: int)
    requires
        0 <= k <= a.len(),
        k <= b.len(),
        forall|i: int| 0 <= i < k ==> a[i] == b[i],
    ensures
        lex_lt(a, b) == lex_lt(a.skip(k), b.skip(k)),
    decreases k,
{
    if k == 0 {
        assert(a.skip(0) =~= a);
        assert(b.skip(0) =~= b);
    } else {
        assert(a[0] == b[0]);
        lemma_lex_lt_common_prefix(a.skip(1), b.skip(1), k - 1);
        assert(a.skip(1).skip(k - 1) =~= a.skip(k));
        assert(b.skip(1).skip(k - 1) =~= b.skip(k));
    }
}

/// Executable lexicographic comparison of two strings.
pub fn str_lt(a: &str, b: &str) -> (r: bool)
    ensures
        r == lex_lt(a@, b@),
{
    let alen = a.unicode_len();
    let blen = b.unicode_len();
    let mut i: usize = 0;
    loop
        invariant
            i <= alen,
            i <= blen,
            alen == a@.len(),
            blen == b@.len(),
            forall|j: int| 0 <= j < i ==> a@[j] == b@[j],
        decreases alen - i,
    {
        proof {
            lemma_lex_lt_common_prefix(a@, b@, i as int);
        }
        if i == alen {
            return i < blen;
        }
        if i == blen {
            return false;
        }
        let ca = a.get_char(i);
        let cb = b.get_char(i);
        if ca != cb {
            return (ca as u32) < (cb as u32);
        }
        i = i + 1;
    }
}

/// Inserting an element into a sequence adds exactly that element to its set
/// of members.
pub proof fn lemma_insert_to_set<T>(s: Seq<T>, i: int, x: T)
    requires
        0 <= i <= s.len(),
    ensures
        s.insert(i, x).to_set() == s.to_set().insert(x),
{
    let t = s.insert(i, x);
    assert forall|y: T| t.to_set().contains(y) implies s.to_set().insert(x).contains(y) by {
        let k = choose|k: int| 0 <= k < t.len() && t[k] == y;
        if k < i {
            assert(s[k] == y);
        } else if k > i {
            assert(s[k - 1] == y);
        }
    }
    assert forall|y: T| s.to_set().insert(x).contains(y) implies t.to_set().contains(y) by {
        if y == x {
            assert(t[i] == y);
        } else {
            let k = choose|k: int| 0 <= k < s.len() && s[k] == y;
            if k < i {
                assert(t[k] == y);
            } else {
                assert(t[k + 1] == y);
            }
        }
    }
    assert(t.to_set() =~= s.to_set().insert(x));
}

/// Two sequences that are both strictly sorted under `lex_lt` on a key and
/// hold the same set of elements are the same sequence: sorting makes the
/// layout canonical, whatever order the elements arrived in.
pub proof fn lemma_sorted_by_key_unique<T>(s1: Seq<T>, s2: Seq<T>, key: spec_fn(T) -> Seq<char>)
    requires
        forall|i: int, j: int| 0 <= i < j < s1.len() ==> lex_lt(key(s1[i]), key(s1[j])),
        forall|i: int, j: int| 0 <= i < j < s2.len() ==> lex_lt(key(s2[i]), key(s2[j])),
        s1.to_set() == s2.to_set(),
    ensures
        s1 == s2,
    decreases s1.len(),
{
    if s1.len() == 0 {
        if s2.len() > 0 {
            assert(s2.to_set().contains(s2[0]));
            assert(false);
        }
        assert(s1 =~= s2);
    } else if s2.len() == 0 {
        assert(s1.to_set().contains(s1[0]));
        assert(false);
    } else {
        assert(s1.to_set().contains(s1[0]));
        assert(s2.to_set().contains(s2[0]));
        let i = choose|i: int| 0 <= i < s1.len() && s1[i] == s2[0];
        let j = choose|j: int| 0 <= j < s2.len() && s2[j] == s1[0];
        if i > 0 && j > 0 {
            assert(lex_lt(key(s1[0]), key(s2[0])));
            assert(lex_lt(key(s2[0]), key(s1[0])));
            lemma_lex_lt_asymmetric(key(s1[0]), key(s2[0]));
            assert(false);
        }
        assert(s1[0] == s2[0]);
        assert(s1.skip(1).to_set() =~= s1.to_set().remove(s1[0])) by {
            lemma_head_not_in_tail(s1, key);
        }
        assert(s2.skip(1).to_set() =~= s2.to_set().remove(s2[0])) by {
            lemma_head_not_in_tail(s2, key);
        }
        lemma_sorted_by_key_unique(s1.skip(1), s2.skip(1), key);
        assert(s1 =~= s2) by {
            assert(forall|k: int| 1 <= k < s1.len() ==> s1[k] == s1.skip(1)[k - 1]);
            assert(forall|k: int| 1 <= k < s2.len() ==> s2[k] == s2.skip(1)[k - 1]);
        }
    }
}

/// In a sequence strictly sorted on a key, the first element does not recur,
/// so the tail's member set is the whole set minus the head.
proof fn lemma_head_not_in_tail<T>(s: Seq<T>, key: spec_fn(T) -> Seq<char>)
    requires
        s.len() > 0,
        forall|i: int, j: int| 0 <= i < j < s.len() ==> lex_lt(key(s[i]), key(s[j])),
    ensures
        s.skip(1).to_set() == s.to_set().remove(s[0]),
{
    let t = s.skip(1);
    assert forall|y: T| t.to_set().contains(y) implies s.to_set().remove(s[0]).contains(y) by {
        let k = choose|k: int| 0 <= k < t.len() && t[k] == y;
        assert(s[k + 1] == y);
        if y == s[0] {
            assert(lex_lt(key(s[0]), key(s[k + 1])));
            lemma_lex_lt_irreflexive(key(s[0]));
            assert(false);
        }
    }
    assert forall|y: T| s.to_set().remove(s[0]).contains(y) implies t.to_set().contains(y) by {
        let k = choose|k: int| 0 <= k < s.len() && s[k] == y;
        if k == 0 {
            assert(false);
        } else {
            assert(t[k - 1] == y);
        }
    }
    assert(t.to_set() =~= s.to_set().remove(s[0]));
}

/// Relies on String::push from std: appends the one character at the end.
#[verifier::external_body]
pub(crate) fn push_char(s: &mut String, c: char)
    ensures
        final(s)@ == old(s)@.push(c),
{
    s.push(c);
}

} // verus!
