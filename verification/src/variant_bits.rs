//! Resolving a variant name, as written in a candidate, to its bit in
//! the variant bitmask.
use vstd::prelude::*;
use crate::arbitrary::{family_from, family_spec, strip_family_prefix};
use crate::offsets::{var_or, Offsets, VarBits, VAR_BITS_ZERO};
use crate::text::{chars_of, string_from_range};

verus! {

/// Bitwise OR of two masks, word by word.
pub open spec fn bits_or(a: VarBits, b: VarBits) -> VarBits {
    [a[0] | b[0], a[1] | b[1]]
}

/// The registered bit of `name`, or the empty mask.
pub open spec fn bit_or_zero(m: Map<Seq<char>, VarBits>, name: Seq<char>) -> VarBits {
    if m.contains_key(name) {
        m[name]
    } else {
        VAR_BITS_ZERO
    }
}

/// The first `/` at or after `i`, or the length when there is none.
pub open spec fn first_slash(s: Seq<char>, i: int) -> int
    decreases s.len() - i,
{
    if i < 0 || i >= s.len() {
        s.len() as int
    } else if s[i] == '/' {
        i
    } else {
        first_slash(s, i + 1)
    }
}

/// The last `[` before `j`, or -1 when there is none.
pub open spec fn last_open(s: Seq<char>, j: int) -> int
    decreases j,
{
    if j <= 0 {
        -1
    } else if s[j - 1] == '[' {
        j - 1
    } else {
        last_open(s, j - 1)
    }
}

/// The name without a trailing `/modifier`.
pub open spec fn bare_name(name: Seq<char>) -> Seq<char> {
    name.take(first_slash(name, 0))
}

/// The bitmask of a variant name. In turn: the registered name; the
/// name without its `/modifier`; for `<base>-[<x>]`, the bit of `<base>`
/// alone; for a parametric family (`group-`, `peer-`, ...), the family's
/// bit together with the bit of what follows the family (looked up
/// as written when it is an `[...]` value, resolved the same way
/// otherwise). Unknown names give the empty mask.
pub open spec fn resolve_bits_spec(m: Map<Seq<char>, VarBits>, name: Seq<char>) -> VarBits
    decreases name.len(),
{
    if m.contains_key(name) {
        m[name]
    } else {
        let bare = bare_name(name);
        if bare != name && m.contains_key(bare) {
            m[bare]
        } else {
            let k = last_open(bare, bare.len() as int);
            if bare.len() > 0 && bare.last() == ']' && k > 0 && bare[k - 1] == '-' {
                bit_or_zero(m, bare.take(k - 1))
            } else {
                match family_spec(bare) {
                    None => VAR_BITS_ZERO,
                    Some(f) => {
                        proof {
                            lemma_first_slash_bounds(name, 0);
                            lemma_family_prefix(bare);
                        }
                        let inner = bare.skip(f.len() + 1int);
                        let inner_bits = if inner.len() == 0 {
                            VAR_BITS_ZERO
                        } else if inner[0] == '[' && inner.last() == ']' {
                            bit_or_zero(m, inner)
                        } else {
                            resolve_bits_spec(m, inner)
                        };
                        bits_or(bit_or_zero(m, f), inner_bits)
                    },
                }
            }
        }
    }
}

pub proof fn lemma_first_slash_bounds(s: Seq<char>, i: int)
    requires
        0 <= i,
    ensures
        i <= first_slash(s, i) <= s.len() || (i > s.len() && first_slash(s, i) == s.len()),
        first_slash(s, i) <= s.len(),
        first_slash(s, i) < s.len() ==> s[first_slash(s, i)] == '/',
        forall|j: int| i <= j < first_slash(s, i) ==> s[j] != '/',
    decreases s.len() - i,
{
    if i < s.len() && s[i] != '/' {
        lemma_first_slash_bounds(s, i + 1);
    }
}

proof fn lemma_last_open_bounds(s: Seq<char>, j: int)
    requires
        j <= s.len(),
    ensures
        -1 <= last_open(s, j) < j || (j <= 0 && last_open(s, j) == -1),
        last_open(s, j) >= 0 ==> s[last_open(s, j)] == '[',
        forall|q: int| last_open(s, j) < q < j ==> s[q] != '[',
    decreases j,
{
    if j > 0 && s[j - 1] != '[' {
        lemma_last_open_bounds(s, j - 1);
    }
}

pub proof fn lemma_family_from_prefix(name: Seq<char>, fams: Seq<Seq<char>>, k: int)
    ensures
        match family_from(name, fams, k) {
            Some(f) => f.len() + 1 <= name.len() && name.take(f.len() + 1int) == f + seq!['-'],
            None => true,
        },
    decreases fams.len() - k,
{
    if 0 <= k < fams.len() {
        let p = fams[k] + seq!['-'];
        if !(p.len() <= name.len() && name.take(p.len() as int) == p) {
            lemma_family_from_prefix(name, fams, k + 1);
        }
    }
}

/// A family found in a name is followed there by a `-`.
pub proof fn lemma_family_prefix(name: Seq<char>)
    ensures
        match family_spec(name) {
            Some(f) => f.len() + 1 <= name.len() && name.take(f.len() + 1int) == f + seq!['-'],
            None => true,
        },
{
    let fams = seq!["group"@, "peer"@, "aria"@, "data"@, "has"@, "supports"@, "min"@, "max"@];
    lemma_family_from_prefix(name, fams, 0);
}

/// The registered bit of `name`, or the empty mask.
fn registered_or_zero(offsets: &Offsets, name: &str) -> (r: VarBits)
    ensures
        r == bit_or_zero(offsets.variants_map(), name@),
{
    match offsets.variant_bit(name) {
        Some(b) => b,
        None => VAR_BITS_ZERO,
    }
}

/// The bitmask of a variant name as a candidate writes it
/// (`resolve_bits_spec` over the registered variants).
pub fn resolve_variant_bits(name: &str, offsets: &Offsets) -> (r: VarBits)
    ensures
        r == resolve_bits_spec(offsets.variants_map(), name@),
    decreases name@.len(),
{
    let ghost m = offsets.variants_map();
    if let Some(bit) = offsets.variant_bit(name) {
        return bit;
    }
    let n = chars_of(name);
    let mut i: usize = 0;
    while i < n.len() && n[i] != '/'
        invariant
            i <= n@.len(),
            first_slash(n@, i as int) == first_slash(n@, 0),
        decreases n@.len() - i,
    {
        i += 1;
    }
    proof {
        lemma_first_slash_bounds(n@, 0);
    }
    assert(first_slash(n@, 0) == i);
    let bare = string_from_range(&n, 0, i);
    assert(bare@ =~= bare_name(name@));
    if i < n.len() {
        assert(bare@.len() != name@.len());
        if let Some(bit) = offsets.variant_bit(bare.as_str()) {
            return bit;
        }
    } else {
        assert(bare@ =~= name@);
    }
    let b = chars_of(bare.as_str());
    if b.len() > 0 && b[b.len() - 1] == ']' {
        let mut j: usize = b.len();
        while j > 0 && b[j - 1] != '['
            invariant
                j <= b@.len(),
                last_open(b@, j as int) == last_open(b@, b@.len() as int),
            decreases j,
        {
            j -= 1;
        }
        if j > 0 {
            let k = j - 1;
            assert(last_open(b@, b@.len() as int) == k);
            if k > 0 && b[k - 1] == '-' {
                let base = string_from_range(&b, 0, k - 1);
                assert(base@ =~= bare@.take(k - 1));
                return registered_or_zero(offsets, base.as_str());
            }
        } else {
            assert(last_open(b@, b@.len() as int) == -1);
        }
    }
    proof {
        lemma_last_open_bounds(b@, b@.len() as int);
    }
    match strip_family_prefix(bare.as_str()) {
        None => VAR_BITS_ZERO,
        Some(family) => {
            proof {
                lemma_family_prefix(bare@);
            }
            let family_bit = registered_or_zero(offsets, family.as_str());
            let f = chars_of(family.as_str());
            let inner = string_from_range(&b, f.len() + 1, b.len());
            assert(inner@ =~= bare@.skip(f@.len() + 1int));
            let c = chars_of(inner.as_str());
            let inner_bits = if c.len() == 0 {
                VAR_BITS_ZERO
            } else if c[0] == '[' && c[c.len() - 1] == ']' {
                registered_or_zero(offsets, inner.as_str())
            } else {
                resolve_variant_bits(inner.as_str(), offsets)
            };
            let r = var_or(family_bit, inner_bits);
            assert(r =~= bits_or(family_bit, inner_bits));
            r
        },
    }
}

} // verus!
