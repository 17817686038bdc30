use vstd::prelude::*;
use vstd::string::*;

use crate::text::{
    lex_lt, lemma_insert_to_set, lemma_lex_lt_connected, lemma_lex_lt_transitive,
    lemma_sorted_by_key_unique, str_lt,
};

verus! {

/// A sequence of character sequences in strictly ascending lexicographic
/// order: a canonical layout for a set of names.
pub open spec fn strictly_sorted(s: Seq<Seq<char>>) -> bool {
    forall|i: int, j: int| 0 <= i < j < s.len() ==> lex_lt(s[i], s[j])
}

/// The set of capability flags a declaration needs in order to compile.
/// Stored sorted and duplicate-free, so that equal flag sets are equal
/// values and render to the same gate.
pub struct CapabilitySet {
    flags: Vec<String>,
}

impl View for CapabilitySet {
    type V = Seq<Seq<char>>;

    closed spec fn view(&self) -> Seq<Seq<char>> {
        self.flags@.map_values(|f: String| f@)
    }
}

impl CapabilitySet {
    pub open spec fn wf(&self) -> bool {
        strictly_sorted(self@)
    }

    pub fn new() -> (r: CapabilitySet)
        ensures
            r@ == Seq::<Seq<char>>::empty(),
            r.wf(),
    {
        let r = CapabilitySet { flags: Vec::new() };
        proof {
            assert(r@ =~= Seq::<Seq<char>>::empty());
        }
        r
    }

    /// Adds one flag, keeping the canonical sorted, duplicate-free layout.
    pub fn insert(&mut self, flag: String)
        requires
            old(self).wf(),
        ensures
            final(self).wf(),
            final(self)@.to_set() == old(self)@.to_set().insert(flag@),
    {
        let ghost olds = self@;
        let n = self.flags.len();
        let mut i: usize = 0;
        while i < n && str_lt(self.flags[i].as_str(), flag.as_str())
            invariant
                i <= n,
                n == self.flags.len(),
                self@ == olds,
                strictly_sorted(self@),
                forall|j: int| 0 <= j < i ==> lex_lt(self@[j], flag@),
            decreases n - i,
        {
            i = i + 1;
        }
        if i < self.flags.len() && self.flags[i] == flag {
            proof {
                assert(self@[i as int] == flag@);
                assert(self@.to_set().contains(flag@));
                assert(olds.to_set().insert(flag@) =~= olds.to_set());
            }
            return;
        }
        proof {
            if i < olds.len() {
                if !lex_lt(flag@, olds[i as int]) {
                    lemma_lex_lt_connected(olds[i as int], flag@);
                    assert(false);
                }
                assert forall|j: int| i <= j < olds.len() implies lex_lt(flag@, olds[j]) by {
                    if j > i {
                        lemma_lex_lt_transitive(flag@, olds[i as int], olds[j]);
                    }
                }
            }
        }
        self.flags.insert(i, flag);
        proof {
            assert(self@ =~= olds.insert(i as int, flag@));
            lemma_insert_to_set(olds, i as int, flag@);
            assert forall|p: int, q: int| 0 <= p < q < self@.len() implies lex_lt(
                self@[p],
                self@[q],
            ) by {
                let s = self@;
                if q < i {
                    assert(s[p] == olds[p] && s[q] == olds[q]);
                } else if p > i {
                    assert(s[p] == olds[p - 1] && s[q] == olds[q - 1]);
                } else if p < i && q == i {
                    assert(s[p] == olds[p] && s[q] == flag@);
                } else if p < i && q > i {
                    assert(s[p] == olds[p] && s[q] == olds[q - 1]);
                } else if p == i {
                    assert(s[p] == flag@ && s[q] == olds[q - 1]);
                }
            }
        }
    }

    /// Builds the set from flags in any order; the result is canonical.
    pub fn from_flags(flags: Vec<String>) -> (r: CapabilitySet)
        ensures
            r.wf(),
            r@.to_set() == flags@.map_values(|f: String| f@).to_set(),
    {
        let ghost target = flags@.map_values(|f: String| f@);
        let mut r = CapabilitySet::new();
        let mut i: usize = 0;
        proof {
            assert(r@.to_set() =~= target.take(0).to_set());
        }
        while i < flags.len()
            invariant
                i <= flags.len(),
                r.wf(),
                r@.to_set() == target.take(i as int).to_set(),
                target == flags@.map_values(|f: String| f@),
            decreases flags.len() - i,
        {
            let f = flags[i].clone();
            r.insert(f);
            proof {
                assert(target[i as int] == flags@[i as int]@);
                assert(target.take(i + 1) =~= target.take(i as int).insert(
                    i as int,
                    target[i as int],
                ));
                lemma_insert_to_set(target.take(i as int), i as int, target[i as int]);
            }
            i = i + 1;
        }
        proof {
            assert(target.take(flags@.len() as int) =~= target);
        }
        r
    }

    pub fn len(&self) -> (r: usize)
        ensures
            r == self@.len(),
    {
        self.flags.len()
    }
}

/// Two well-formed capability sets holding the same flags are the same
/// value, so everything rendered from them is identical.
pub proof fn lemma_capability_set_canonical(a: CapabilitySet, b: CapabilitySet)
    requires
        a.wf(),
        b.wf(),
        a@.to_set() == b@.to_set(),
    ensures
        a@ == b@,
{
    lemma_sorted_by_key_unique(a@, b@, |s: Seq<char>| s);
}

/// One `feature = "NAME"` clause of a gate.
pub open spec fn spec_feature_clause(flag: Seq<char>) -> Seq<char> {
    "feature = \""@ + flag + "\""@
}

/// The clauses after the first, each preceded by a separator.
pub open spec fn spec_feature_tail(flags: Seq<Seq<char>>) -> Seq<char>
    decreases flags.len(),
{
    if flags.len() == 0 {
        Seq::empty()
    } else {
        ", "@ + spec_feature_clause(flags[0]) + spec_feature_tail(flags.skip(1))
    }
}

proof fn lemma_feature_tail_push(flags: Seq<Seq<char>>, x: Seq<char>)
    ensures
        spec_feature_tail(flags.push(x)) == spec_feature_tail(flags) + ", "@
            + spec_feature_clause(x),
    decreases flags.len(),
{
    if flags.len() == 0 {
        let p = flags.push(x);
        assert(p[0] == x);
        assert(p.skip(1) =~= Seq::<Seq<char>>::empty());
        assert(spec_feature_tail(p) == ", "@ + spec_feature_clause(p[0]) + spec_feature_tail(
            p.skip(1),
        ));
        assert(spec_feature_tail(p.skip(1)) =~= Seq::<char>::empty());
        assert(spec_feature_tail(flags) =~= Seq::<char>::empty());
        assert(spec_feature_tail(p) =~= spec_feature_tail(flags) + ", "@ + spec_feature_clause(x));
    } else {
        let p = flags.push(x);
        assert(p[0] == flags[0]);
        assert(p.skip(1) =~= flags.skip(1).push(x));
        lemma_feature_tail_push(flags.skip(1), x);
        assert(spec_feature_tail(p) == ", "@ + spec_feature_clause(p[0]) + spec_feature_tail(
            p.skip(1),
        ));
        assert(spec_feature_tail(p.skip(1)) == spec_feature_tail(flags.skip(1)) + ", "@
            + spec_feature_clause(x));
        assert(spec_feature_tail(p) =~= spec_feature_tail(flags) + ", "@ + spec_feature_clause(x));
    }
}

/// The conditional-compilation prefix for a set of required capabilities:
/// nothing when the set is empty, a single-feature gate for one flag, and an
/// `all(...)` conjunction over every flag otherwise.
pub open spec fn spec_cfg_gate(flags: Seq<Seq<char>>) -> Seq<char> {
    if flags.len() == 0 {
        Seq::empty()
    } else if flags.len() == 1 {
        "#[cfg("@ + spec_feature_clause(flags[0]) + ")]\n"@
    } else {
        "#[cfg(all("@ + spec_feature_clause(flags[0]) + spec_feature_tail(flags.skip(1)) + "))]\n"@
    }
}

impl CapabilitySet {
    /// Renders this set's gate line, with its trailing newline.
    pub fn cfg_gate_ln(&self) -> (r: String)
        ensures
            r@ == spec_cfg_gate(self@),
    {
        let n = self.flags.len();
        if n == 0 {
            let r = String::new();
            proof {
                assert(r@ =~= spec_cfg_gate(self@));
            }
            return r;
        }
        let mut out = String::new();
        if n == 1 {
            out.append("#[cfg(");
        } else {
            out.append("#[cfg(all(");
        }
        out.append("feature = \"");
        out.append(self.flags[0].as_str());
        out.append("\"");
        proof {
            assert(self@[0] == self.flags@[0]@);
        }
        let mut i: usize = 1;
        while i < n
            invariant
                1 <= i <= n,
                n == self.flags.len(),
                self@.len() == n,
                n >= 2 ==> out@ == "#[cfg(all("@ + spec_feature_clause(self@[0])
                    + spec_feature_tail(self@.skip(1).take(i - 1)),
                n == 1 ==> out@ == "#[cfg("@ + spec_feature_clause(self@[0]),
            decreases n - i,
        {
            out.append(", ");
            out.append("feature = \"");
            out.append(self.flags[i].as_str());
            out.append("\"");
            proof {
                let rest = self@.skip(1);
                assert(rest.take(i as int) =~= rest.take(i - 1).push(rest[i - 1]));
                lemma_feature_tail_push(rest.take(i - 1), rest[i - 1]);
                assert(rest[i - 1] == self@[i as int]);
            }
            i = i + 1;
        }
        if n == 1 {
            out.append(")]\n");
        } else {
            out.append("))]\n");
            proof {
                assert(self@.skip(1).take(n - 1) =~= self@.skip(1));
            }
        }
        out
    }
}

} // verus!
