use vstd::prelude::*;
use vstd::string::*;

use crate::text::push_char;

verus! {

/// The sanitized form of a header-derived file name: every `+` (legal in
/// native header names, illegal in module identifiers) becomes `_`.
pub open spec fn sanitized(s: Seq<char>) -> Seq<char> {
    s.map_values(|c: char| if c == '+' { '_' } else { c })
}

/// Some SDK files have '+' in the file name, so we change those to `_`.
pub fn clean_file_name(name: &str) -> (r: String)
    ensures
        r@ == sanitized(name@),
{
    let n = name.unicode_len();
    let mut out = String::new();
    let mut i: usize = 0;
    while i < n
        invariant
            i <= n,
            n == name@.len(),
            out@ == sanitized(name@.take(i as int)),
        decreases n - i,
    {
        let c = name.get_char(i);
        if c == '+' {
            push_char(&mut out, '_');
        } else {
            push_char(&mut out, c);
        }
        proof {
            assert(sanitized(name@.take(i + 1)) =~= sanitized(name@.take(i as int)).push(
                if name@[i as int] == '+' {
                    '_'
                } else {
                    name@[i as int]
                },
            ));
        }
        i = i + 1;
    }
    proof {
        assert(name@.take(n as int) =~= name@);
    }
    out
}

/// Sanitizing a second time changes nothing: the substitute character is
/// itself a legal identifier character.
pub proof fn lemma_sanitized_idempotent(s: Seq<char>)
    ensures
        sanitized(sanitized(s)) == sanitized(s),
{
    assert(sanitized(sanitized(s)) =~= sanitized(s));
}

/// The visibility of a re-exported symbol: a name that begins with the
/// reserved marker `_` is private native API surface and gets
/// package-internal visibility; every other name is public.
pub open spec fn spec_visibility(name: Seq<char>) -> Seq<char> {
    if name.len() > 0 && name[0] == '_' {
        "pub(crate)"@
    } else {
        "pub"@
    }
}

pub fn visibility_for(name: &str) -> (r: &'static str)
    ensures
        r@ == spec_visibility(name@),
{
    if name.unicode_len() > 0 && name.get_char(0) == '_' {
        "pub(crate)"
    } else {
        "pub"
    }
}

} // verus!
