//! Rule offsets: the sort keys that decide the emission order of
//! generated rules.
//!
//! The variant bitmask is 256 bits stored as `[u128; 2]` in `[high, low]`
//! order, so comparing the two words lexicographically compares the
//! bitmask as a single unsigned 256-bit integer.
use rustc_hash::FxHashMap;
use smallvec::SmallVec;
use vstd::prelude::*;
use vstd::multiset::Multiset;
use crate::text::{chars_of, lemma_lex_total, lemma_lex_transitive, lex_lt, str_lt};

verus! {

/// 256-bit variant bitmask: `[0]` holds the high 128 bits, `[1]` the low.
pub type VarBits = [u128; 2];

/// All-zero bitmask.
pub const VAR_BITS_ZERO: VarBits = [0u128, 0u128];

/// Bit `p` of a 128-bit word.
pub open spec fn word_bit(w: u128, p: int) -> bool {
    0 <= p < 128 && (w >> (p as u128)) & 1 == 1
}

/// Bit `p` of the 256-bit mask (bit 0 is the lowest bit of the low word).
pub open spec fn bit(a: VarBits, p: int) -> bool {
    if 0 <= p < 128 {
        word_bit(a[1], p)
    } else if 128 <= p < 256 {
        word_bit(a[0], p - 128)
    } else {
        false
    }
}

/// The mask as an unsigned integer.
pub open spec fn var_value(a: VarBits) -> int {
    a[0] * 0x1_0000_0000_0000_0000_0000_0000_0000_0000int + a[1]
}

proof fn lemma_word_or(x: u128, y: u128, p: u128)
    by (bit_vector)
    requires
        p < 128,
    ensures
        ((x | y) >> p) & 1 == 1 <==> ((x >> p) & 1 == 1 || (y >> p) & 1 == 1),
{
}

proof fn lemma_word_and(x: u128, y: u128, p: u128)
    by (bit_vector)
    requires
        p < 128,
    ensures
        ((x & y) >> p) & 1 == 1 <==> ((x >> p) & 1 == 1 && (y >> p) & 1 == 1),
{
}

proof fn lemma_word_andnot(x: u128, y: u128, p: u128)
    by (bit_vector)
    requires
        p < 128,
    ensures
        ((x & !y) >> p) & 1 == 1 <==> ((x >> p) & 1 == 1 && !((y >> p) & 1 == 1)),
{
}

proof fn lemma_word_one(n: u128, p: u128)
    by (bit_vector)
    requires
        p < 128,
        n < 128,
    ensures
        ((1u128 << n) >> p) & 1 == 1 <==> p == n,
{
}

proof fn lemma_word_zero(p: u128)
    by (bit_vector)
    requires
        p < 128,
    ensures
        !((0u128 >> p) & 1 == 1),
{
}

/// Bit `p` of the mask after combining the words of `a` and `b` with one
/// bitwise operation per word.
proof fn lemma_bits_or(a: VarBits, b: VarBits, r: VarBits)
    requires
        r[0] == a[0] | b[0],
        r[1] == a[1] | b[1],
    ensures
        forall|p: int| #[trigger] bit(r, p) == (bit(a, p) || bit(b, p)),
{
    assert forall|p: int| #[trigger] bit(r, p) == (bit(a, p) || bit(b, p)) by {
        if 0 <= p < 128 {
            lemma_word_or(a[1], b[1], p as u128);
        } else if 128 <= p < 256 {
            lemma_word_or(a[0], b[0], (p - 128) as u128);
        }
    }
}

/// The words of `1 << position` (saturating at the top bit).
pub open spec fn var_bit_spec(position: u32) -> VarBits {
    if position >= 256 {
        [1u128 << 127u128, 0u128]
    } else if position < 128 {
        [0u128, 1u128 << position]
    } else {
        [1u128 << (position - 128), 0u128]
    }
}

/// `1 << position` as a 256-bit mask. A position past the top saturates
/// at the top bit.
pub fn var_bit(position: u32) -> (r: VarBits)
    ensures
        r == var_bit_spec(position),
        forall|p: int| #[trigger]
            bit(r, p) <==> p == (if position >= 256 {
                255
            } else {
                position as int
            }),
{
    let r: VarBits = if position >= 256 {
        [1u128 << 127u32, 0u128]
    } else if position < 128 {
        [0u128, 1u128 << position]
    } else {
        [1u128 << (position - 128), 0u128]
    };
    proof {
        assert forall|p: int| #[trigger]
            bit(r, p) <==> p == (if position >= 256 {
                255
            } else {
                position as int
            }) by {
            if 0 <= p < 128 {
                if position < 128 {
                    lemma_word_one(position as u128, p as u128);
                } else {
                    lemma_word_zero(p as u128);
                }
            } else if 128 <= p < 256 {
                if position >= 256 {
                    lemma_word_one(127, (p - 128) as u128);
                } else if position >= 128 {
                    lemma_word_one((position - 128) as u128, (p - 128) as u128);
                } else {
                    lemma_word_zero((p - 128) as u128);
                }
            }
        }
    }
    assert(r =~= var_bit_spec(position));
    r
}

/// Bitwise OR of two masks.
pub fn var_or(a: VarBits, b: VarBits) -> (r: VarBits)
    ensures
        r[0] == a[0] | b[0],
        r[1] == a[1] | b[1],
        forall|p: int| #[trigger] bit(r, p) == (bit(a, p) || bit(b, p)),
{
    let r = [a[0] | b[0], a[1] | b[1]];
    proof {
        lemma_bits_or(a, b, r);
    }
    r
}

/// Bitwise AND of two masks.
pub fn var_and(a: VarBits, b: VarBits) -> (r: VarBits)
    ensures
        r[0] == a[0] & b[0],
        r[1] == a[1] & b[1],
        forall|p: int| #[trigger] bit(r, p) == (bit(a, p) && bit(b, p)),
{
    let r = [a[0] & b[0], a[1] & b[1]];
    proof {
        assert forall|p: int| #[trigger] bit(r, p) == (bit(a, p) && bit(b, p)) by {
            if 0 <= p < 128 {
                lemma_word_and(a[1], b[1], p as u128);
            } else if 128 <= p < 256 {
                lemma_word_and(a[0], b[0], (p - 128) as u128);
            }
        }
    }
    r
}

/// The bits of `a` that are not in `b`.
pub fn var_andnot(a: VarBits, b: VarBits) -> (r: VarBits)
    ensures
        r[0] == a[0] & !b[0],
        r[1] == a[1] & !b[1],
        forall|p: int| #[trigger] bit(r, p) == (bit(a, p) && !bit(b, p)),
{
    let r = [a[0] & !b[0], a[1] & !b[1]];
    proof {
        assert forall|p: int| #[trigger] bit(r, p) == (bit(a, p) && !bit(b, p)) by {
            if 0 <= p < 128 {
                lemma_word_andnot(a[1], b[1], p as u128);
            } else if 128 <= p < 256 {
                lemma_word_andnot(a[0], b[0], (p - 128) as u128);
            }
        }
    }
    r
}

/// No bit set.
pub fn var_is_zero(a: VarBits) -> (r: bool)
    ensures
        r == (a[0] == 0 && a[1] == 0),
        r ==> forall|p: int| !#[trigger] bit(a, p),
{
    let r = a[0] == 0 && a[1] == 0;
    proof {
        if r {
            assert forall|p: int| !#[trigger] bit(a, p) by {
                if 0 <= p < 128 {
                    lemma_word_zero(p as u128);
                } else if 128 <= p < 256 {
                    lemma_word_zero((p - 128) as u128);
                }
            }
        }
    }
    r
}

/// The two masks are equal.
pub fn var_eq(a: VarBits, b: VarBits) -> (r: bool)
    ensures
        r == (a[0] == b[0] && a[1] == b[1]),
        r == (var_value(a) == var_value(b)),
{
    a[0] == b[0] && a[1] == b[1]
}

/// Compare two masks as unsigned 256-bit integers.
pub fn var_cmp(a: VarBits, b: VarBits) -> (r: core::cmp::Ordering)
    ensures
        r == core::cmp::Ordering::Less <==> var_value(a) < var_value(b),
        r == core::cmp::Ordering::Equal <==> var_value(a) == var_value(b),
        r == core::cmp::Ordering::Greater <==> var_value(a) > var_value(b),
{
    if a[0] < b[0] {
        core::cmp::Ordering::Less
    } else if a[0] > b[0] {
        core::cmp::Ordering::Greater
    } else if a[1] < b[1] {
        core::cmp::Ordering::Less
    } else if a[1] > b[1] {
        core::cmp::Ordering::Greater
    } else {
        core::cmp::Ordering::Equal
    }
}


proof fn lemma_word_shl(x: u128, n: u128, p: u128)
    by (bit_vector)
    requires
        p < 128,
        n < 128,
    ensures
        ((x << n) >> p) & 1 == 1 <==> (p >= n && ((x >> ((p - n) as u128)) & 1 == 1)),
{
}

proof fn lemma_word_shl_carry(x0: u128, x1: u128, n: u128, q: u128)
    by (bit_vector)
    requires
        q < 128,
        0 < n < 128,
    ensures
        (((x0 << n) | (x1 >> ((128 - n) as u128))) >> q) & 1 == 1 <==> (if q >= n {
            ((x0 >> ((q - n) as u128)) & 1 == 1)
        } else {
            ((x1 >> ((128 + q - n) as u128)) & 1 == 1)
        }),
{
}

/// 256-bit left shift; bits shifted past the top are dropped.
fn shift_left(num: VarBits, n: u32) -> (r: VarBits)
    ensures
        forall|p: int| #[trigger] bit(r, p) == (n <= p < 256 && bit(num, p - n)),
{
    if n >= 256 {
        let r = VAR_BITS_ZERO;
        proof {
            assert forall|p: int| #[trigger] bit(r, p) == (n <= p < 256 && bit(num, p - n)) by {
                if 0 <= p < 128 {
                    lemma_word_zero(p as u128);
                } else if 128 <= p < 256 {
                    lemma_word_zero((p - 128) as u128);
                }
            }
        }
        return r;
    }
    if n == 0 {
        return num;
    }
    if n < 128 {
        let low = num[1] << n;
        let high = (num[0] << n) | (num[1] >> (128 - n));
        let r = [high, low];
        proof {
            assert forall|p: int| #[trigger] bit(r, p) == (n <= p < 256 && bit(num, p - n)) by {
                if 0 <= p < 128 {
                    lemma_word_shl(num[1], n as u128, p as u128);
                } else if 128 <= p < 256 {
                    lemma_word_shl_carry(num[0], num[1], n as u128, (p - 128) as u128);
                }
            }
        }
        r
    } else {
        let high = num[1] << (n - 128);
        let r = [high, 0u128];
        proof {
            assert forall|p: int| #[trigger] bit(r, p) == (n <= p < 256 && bit(num, p - n)) by {
                if 0 <= p < 128 {
                    lemma_word_zero(p as u128);
                } else if 128 <= p < 256 {
                    lemma_word_shl(num[1], (n - 128) as u128, (p - 128) as u128);
                }
            }
        }
        r
    }
}

/// The masks a remapping builds: the old bits of every entry whose old
/// bits meet `num`, and the new bits of the same entries.
pub open spec fn remap_masks(num: VarBits, m: Seq<(VarBits, VarBits)>) -> (VarBits, VarBits)
    decreases m.len(),
{
    if m.len() == 0 {
        ([0u128, 0u128], [0u128, 0u128])
    } else {
        let prev = remap_masks(num, m.drop_last());
        let e = m.last();
        if !((num[0] & e.0[0]) == 0 && (num[1] & e.0[1]) == 0) {
            (
                [prev.0[0] | e.0[0], prev.0[1] | e.0[1]],
                [prev.1[0] | e.1[0], prev.1[1] | e.1[1]],
            )
        } else {
            prev
        }
    }
}

/// `num` with the bits of every matching entry's old mask replaced by that
/// entry's new mask: `(num & !old_mask) | new_mask`.
pub open spec fn remap_spec(num: VarBits, m: Seq<(VarBits, VarBits)>) -> VarBits {
    let masks = remap_masks(num, m);
    [(num[0] & !masks.0[0]) | masks.1[0], (num[1] & !masks.0[1]) | masks.1[1]]
}

/// Remap the bits of `num` through `mapping` (pairs of old and new bits).
fn remap_bitfield(num: VarBits, mapping: &[(VarBits, VarBits)]) -> (r: VarBits)
    ensures
        r == remap_spec(num, mapping@),
{
    let mut old_mask: VarBits = VAR_BITS_ZERO;
    let mut new_mask: VarBits = VAR_BITS_ZERO;
    let mut i: usize = 0;
    while i < mapping.len()
        invariant
            i <= mapping@.len(),
            (old_mask, new_mask) == remap_masks(num, mapping@.take(i as int)),
        decreases mapping@.len() - i,
    {
        let (old, new) = mapping[i];
        proof {
            assert(mapping@.take(i + 1).drop_last() =~= mapping@.take(i as int));
        }
        if !var_is_zero(var_and(num, old)) {
            old_mask = var_or(old_mask, old);
            new_mask = var_or(new_mask, new);
        }
        i += 1;
        proof {
            assert(old_mask =~= remap_masks(num, mapping@.take(i as int)).0);
            assert(new_mask =~= remap_masks(num, mapping@.take(i as int)).1);
        }
    }
    assert(mapping@.take(i as int) =~= mapping@);
    let r = var_or(var_andnot(num, old_mask), new_mask);
    assert(r =~= remap_spec(num, mapping@));
    r
}

/// Tailwind's six logical layers, in sort order:
/// `defaults < base < components < utilities < user < variants`.
#[derive(Clone, Copy, Debug, PartialEq, Eq, Hash, Structural)]
pub enum Layer {
    Defaults,
    Base,
    Components,
    Utilities,
    /// User CSS (e.g. rules defined alongside `@apply`); sorts after
    /// utilities.
    User,
    Variants,
}

pub open spec fn layer_rank(l: Layer) -> u8 {
    match l {
        Layer::Defaults => 0,
        Layer::Base => 1,
        Layer::Components => 2,
        Layer::Utilities => 3,
        Layer::User => 4,
        Layer::Variants => 5,
    }
}

impl Layer {
    /// Sort key of the layer.
    pub fn position(self) -> (r: u8)
        ensures
            r == layer_rank(self),
    {
        match self {
            Layer::Defaults => 0,
            Layer::Base => 1,
            Layer::Components => 2,
            Layer::Utilities => 3,
            Layer::User => 4,
            Layer::Variants => 5,
        }
    }
}

#[verifier::external_type_specification]
#[verifier::external_body]
pub struct ExFxBuildHasher(rustc_hash::FxBuildHasher);

/// Per-variant metadata carried on a rule's option stack.
#[derive(Debug)]
pub struct VariantOption {
    /// Unique id per `matchVariant` group. Two options are compared by
    /// the group's sort comparator only when their ids match.
    pub id: u32,
    /// Whether the group supplies a sort comparator (screens do).
    pub sort: bool,
    /// Variant value (`'768px'` for `sm`, the raw arg for `min-[600px]`).
    pub value: Option<String>,
    /// Modifier: the part after a `/` in `group-hover/sidebar`.
    pub modifier: Option<String>,
    /// The variant's bitmask, captured when the option is applied.
    pub variant: VarBits,
}

fn clone_opt_string(o: &Option<String>) -> (r: Option<String>)
    ensures
        r == *o,
{
    match o {
        Some(s) => Some(s.clone()),
        None => None,
    }
}

impl Clone for VariantOption {
    fn clone(&self) -> (r: Self)
        ensures
            r == *self,
    {
        VariantOption {
            id: self.id,
            sort: self.sort,
            value: clone_opt_string(&self.value),
            modifier: clone_opt_string(&self.modifier),
            variant: self.variant,
        }
    }
}

/// A rule's stack of variant options, held in a `SmallVec`.
#[verifier::external_body]
pub struct OptionStack {
    stack: SmallVec<[VariantOption; 4]>,
}

impl OptionStack {
    /// An empty stack.
    pub fn new() -> (r: Self)
        ensures
            option_stack(r) == Seq::<VariantOption>::empty(),
    {
        options_new()
    }
}

impl Default for VariantOption {
    fn default() -> (r: Self)
        ensures
            r.id == 0,
            !r.sort,
            r.value is None,
            r.modifier is None,
            r.variant == VAR_BITS_ZERO,
    {
        VariantOption { id: 0, sort: false, value: None, modifier: None, variant: VAR_BITS_ZERO }
    }
}

/// The options on a rule's option stack, front first.
pub uninterp spec fn option_stack(v: OptionStack) -> Seq<VariantOption>;

/// The registered variant names and their bits.
pub uninterp spec fn variant_table(m: FxHashMap<String, VarBits>) -> Map<Seq<char>, VarBits>;

/// `SmallVec::new`: an empty option stack.
#[verifier::external_body]
fn options_new() -> (r: OptionStack)
    ensures
        option_stack(r) == Seq::<VariantOption>::empty(),
{
    OptionStack { stack: SmallVec::new() }
}

/// `SmallVec::insert` at index 0: the option goes in front.
#[verifier::external_body]
fn options_push_front(v: &mut OptionStack, o: VariantOption)
    ensures
        option_stack(*final(v)) == seq![o] + option_stack(*old(v)),
{
    v.stack.insert(0, o)
}

/// `SmallVec::len`.
#[verifier::external_body]
fn options_len(v: &OptionStack) -> (n: usize)
    ensures
        n == option_stack(*v).len(),
{
    v.stack.len()
}

/// Indexing into a `SmallVec`.
#[verifier::external_body]
fn options_get(v: &OptionStack, i: usize) -> (o: &VariantOption)
    requires
        i < option_stack(*v).len(),
    ensures
        *o == option_stack(*v)[i as int],
{
    &v.stack[i]
}

/// `SmallVec::clone`: clones every option in order.
#[verifier::external_body]
fn options_clone(v: &OptionStack) -> (r: OptionStack)
    ensures
        option_stack(r) == option_stack(*v),
{
    OptionStack { stack: v.stack.clone() }
}

/// `FxHashMap::default`: an empty table.
#[verifier::external_body]
fn table_new() -> (r: FxHashMap<String, VarBits>)
    ensures
        variant_table(r) =~= Map::empty(),
{
    FxHashMap::default()
}

/// `HashMap::insert`: `name` now maps to `bit`.
#[verifier::external_body]
fn table_insert(m: &mut FxHashMap<String, VarBits>, name: &str, bit: VarBits)
    ensures
        variant_table(*final(m)) == variant_table(*old(m)).insert(name@, bit),
{
    m.insert(name.to_string(), bit);
}

/// `HashMap::get`.
#[verifier::external_body]
fn table_get(m: &FxHashMap<String, VarBits>, name: &str) -> (r: Option<VarBits>)
    ensures
        r == (if variant_table(*m).contains_key(name@) {
            Some(variant_table(*m)[name@])
        } else {
            None
        }),
{
    m.get(name).copied()
}

/// `HashMap::iter`: every entry exactly once, in an order the map does
/// not promise.
#[verifier::external_body]
fn table_entries(m: &FxHashMap<String, VarBits>) -> (r: Vec<(String, VarBits)>)
    ensures
        forall|i: int|
            0 <= i < r@.len() ==> variant_table(*m).contains_key((#[trigger] r@[i]).0@)
                && variant_table(*m)[r@[i].0@] == r@[i].1,
        forall|k: Seq<char>| #[trigger]
            variant_table(*m).contains_key(k) ==> exists|i: int|
                0 <= i < r@.len() && (#[trigger] r@[i]).0@ == k,
        forall|i: int, j: int|
            0 <= i < j < r@.len() ==> (#[trigger] r@[i]).0@ != (#[trigger] r@[j]).0@,
{
    m.iter().map(|(k, v)| (k.clone(), *v)).collect()
}

/// Per-rule sort key.
pub struct RuleOffset {
    pub layer: Layer,
    /// The rule's layer before any variant moved it into
    /// `Layer::Variants`.
    pub parent_layer: Layer,
    /// 1 for an arbitrary property (`[grid-template-columns:...]`), else 0.
    pub arbitrary: u8,
    /// Variant bitmask; lower bits emit earlier.
    pub variants: VarBits,
    /// Index among the parallel rules one utility yields (keyframes get 0
    /// so they emit before the utility that uses them).
    pub parallel_index: u32,
    /// Per-layer registration counter, the final tiebreaker.
    pub index: u64,
    /// Alphabetic rank of the arbitrary property name (0 when none).
    pub property_offset: u32,
    /// Arbitrary property name, empty when `arbitrary == 0`.
    pub property: String,
    /// Options of the applied variants that carry a sort comparator, the
    /// most recently applied first.
    pub options: OptionStack,
}

impl Clone for RuleOffset {
    fn clone(&self) -> (r: Self)
        ensures
            r.layer == self.layer,
            r.parent_layer == self.parent_layer,
            r.arbitrary == self.arbitrary,
            r.variants == self.variants,
            r.parallel_index == self.parallel_index,
            r.index == self.index,
            r.property_offset == self.property_offset,
            r.property@ == self.property@,
            option_stack(r.options) == option_stack(self.options),
    {
        RuleOffset {
            layer: self.layer,
            parent_layer: self.parent_layer,
            arbitrary: self.arbitrary,
            variants: self.variants,
            parallel_index: self.parallel_index,
            index: self.index,
            property_offset: self.property_offset,
            property: self.property.clone(),
            options: options_clone(&self.options),
        }
    }
}

/// A fresh offset for `layer` with registration index `index`.
pub open spec fn is_fresh_offset(r: RuleOffset, layer: Layer, index: u64) -> bool {
    &&& r.layer == layer
    &&& r.parent_layer == layer
    &&& r.arbitrary == 0
    &&& r.variants == VAR_BITS_ZERO
    &&& r.parallel_index == 0
    &&& r.index == index
    &&& r.property_offset == 0
    &&& r.property@ == Seq::<char>::empty()
    &&& option_stack(r.options) == Seq::<VariantOption>::empty()
}

impl RuleOffset {
    fn default_for(layer: Layer) -> (r: Self)
        ensures
            is_fresh_offset(r, layer, 0),
    {
        RuleOffset {
            layer,
            parent_layer: layer,
            arbitrary: 0,
            variants: VAR_BITS_ZERO,
            parallel_index: 0,
            index: 0,
            property_offset: 0,
            property: String::new(),
            options: options_new(),
        }
    }
}

/// The registry of one compile: per-layer counters and the variant bits.
pub struct Offsets {
    next_index: [u64; 6],
    reserved_variant_bits: u32,
    variant_offsets: FxHashMap<String, VarBits>,
    /// Set on the first variant that found the 256-bit budget used up.
    pub overflow: bool,
}

/// What registering variants keeps track of: the registered bits, the bits
/// reserved so far, whether the budget overflowed, and the next index of
/// the variants layer.
pub type RegModel = (Map<Seq<char>, VarBits>, int, bool, int);

/// The position of the next variant bit: the reserved count, saturating
/// at the top bit.
pub open spec fn next_bit_pos(reserved: int) -> u32 {
    if reserved >= 256 {
        255u32
    } else {
        reserved as u32
    }
}

/// The reserved count after reserving `fn_count` bits (at least one),
/// saturating at `u32::MAX`.
pub open spec fn reserve_after(reserved: int, fn_count: u32) -> int {
    let n: int = if fn_count == 0 {
        1
    } else {
        fn_count as int
    };
    if reserved + n > u32::MAX {
        u32::MAX as int
    } else {
        reserved + n
    }
}

/// Registering one variant: a new name gets the next bit; a known name
/// changes nothing.
pub open spec fn register_one(st: RegModel, name: Seq<char>, fn_count: u32) -> RegModel {
    if st.0.contains_key(name) {
        st
    } else {
        (
            st.0.insert(name, var_bit_spec(next_bit_pos(st.1))),
            reserve_after(st.1, fn_count),
            st.2 || st.1 >= 256,
            st.3 + 1,
        )
    }
}

/// Registering the variants in order.
pub open spec fn register_all(st: RegModel, vs: Seq<(Seq<char>, u32)>) -> RegModel
    decreases vs.len(),
{
    if vs.len() == 0 {
        st
    } else {
        register_one(register_all(st, vs.drop_last()), vs.last().0, vs.last().1)
    }
}

impl Offsets {
    /// The index the next rule created in `l` gets.
    pub closed spec fn next_index_of(&self, l: Layer) -> u64 {
        self.next_index[layer_rank(l) as int]
    }

    /// Variant bits handed out so far.
    pub closed spec fn reserved(&self) -> u32 {
        self.reserved_variant_bits
    }

    /// Whether some variant found the bit budget used up.
    pub closed spec fn overflowed(&self) -> bool {
        self.overflow
    }

    /// The registered variants and their bits.
    pub closed spec fn variants_map(&self) -> Map<Seq<char>, VarBits> {
        variant_table(self.variant_offsets)
    }

    /// The registration state (`RegModel`).
    pub open spec fn reg_state(&self) -> RegModel {
        (
            self.variants_map(),
            self.reserved() as int,
            self.overflowed(),
            self.next_index_of(Layer::Variants) as int,
        )
    }

    /// Variant bits handed out so far.
    pub fn reserved_variant_bits(&self) -> (r: u32)
        ensures
            r == self.reserved(),
    {
        self.reserved_variant_bits
    }

    pub fn new() -> (r: Self)
        ensures
            forall|l: Layer| #[trigger] r.next_index_of(l) == 0,
            r.reserved() == 0,
            r.variants_map() =~= Map::empty(),
            !r.overflowed(),
    {
        Offsets {
            next_index: [0u64, 0u64, 0u64, 0u64, 0u64, 0u64],
            reserved_variant_bits: 0,
            variant_offsets: table_new(),
            overflow: false,
        }
    }

    /// A fresh rule offset in `layer`, with the layer's counter bumped.
    pub fn create(&mut self, layer: Layer) -> (r: RuleOffset)
        requires
            old(self).next_index_of(layer) < u64::MAX,
        ensures
            is_fresh_offset(r, layer, old(self).next_index_of(layer)),
            final(self).next_index_of(layer) == old(self).next_index_of(layer) + 1,
            forall|l: Layer|
                l != layer ==> #[trigger] final(self).next_index_of(l) == old(self).next_index_of(l),
            final(self).reserved() == old(self).reserved(),
            final(self).variants_map() == old(self).variants_map(),
            final(self).overflowed() == old(self).overflowed(),
    {
        let mut offset = RuleOffset::default_for(layer);
        let slot = layer.position() as usize;
        offset.index = self.next_index[slot];
        self.next_index[slot] = self.next_index[slot] + 1;
        offset
    }

    /// A fresh utilities offset for the arbitrary property `name`.
    pub fn arbitrary_property(&mut self, name: &str) -> (r: RuleOffset)
        requires
            old(self).next_index_of(Layer::Utilities) < u64::MAX,
        ensures
            r.layer == Layer::Utilities,
            r.parent_layer == Layer::Utilities,
            r.arbitrary == 1,
            r.variants == VAR_BITS_ZERO,
            r.parallel_index == 0,
            r.index == old(self).next_index_of(Layer::Utilities),
            r.property_offset == 0,
            r.property@ == name@,
            option_stack(r.options) == Seq::<VariantOption>::empty(),
            final(self).next_index_of(Layer::Utilities) == old(self).next_index_of(
                Layer::Utilities,
            ) + 1,
            forall|l: Layer|
                l != Layer::Utilities ==> #[trigger] final(self).next_index_of(l) == old(
                    self,
                ).next_index_of(l),
            final(self).reserved() == old(self).reserved(),
            final(self).variants_map() == old(self).variants_map(),
            final(self).overflowed() == old(self).overflowed(),
    {
        let mut offset = self.create(Layer::Utilities);
        offset.arbitrary = 1;
        offset.property = name.to_owned();
        offset
    }

    /// Register `name` with the next free variant bit and reserve
    /// `fn_count` bits (at least one) for it. Past the 256-bit budget every
    /// variant shares the top bit and `overflow` is set.
    pub fn record_variant(&mut self, name: &str, fn_count: u32) -> (r: RuleOffset)
        requires
            old(self).next_index_of(Layer::Variants) < u64::MAX,
        ensures
            ({
                let pos = if old(self).reserved() >= 256 {
                    255u32
                } else {
                    old(self).reserved()
                };
                &&& final(self).variants_map() == old(self).variants_map().insert(
                    name@,
                    var_bit_spec(pos),
                )
                &&& r.variants == var_bit_spec(pos)
            }),
            final(self).reserved() == (if old(self).reserved() + (if fn_count == 0 {
                1
            } else {
                fn_count
            }) > u32::MAX {
                u32::MAX as int
            } else {
                old(self).reserved() + (if fn_count == 0 {
                    1
                } else {
                    fn_count
                })
            }),
            final(self).overflowed() == (old(self).overflowed() || old(self).reserved() >= 256),
            r.layer == Layer::Variants,
            r.parent_layer == Layer::Variants,
            r.arbitrary == 0,
            r.parallel_index == 0,
            r.index == old(self).next_index_of(Layer::Variants),
            r.property_offset == 0,
            r.property@ == Seq::<char>::empty(),
            option_stack(r.options) == Seq::<VariantOption>::empty(),
            final(self).next_index_of(Layer::Variants) == old(self).next_index_of(Layer::Variants)
                + 1,
            forall|l: Layer|
                l != Layer::Variants ==> #[trigger] final(self).next_index_of(l) == old(
                    self,
                ).next_index_of(l),
    {
        let fn_count = if fn_count == 0 {
            1
        } else {
            fn_count
        };
        let bit = if self.reserved_variant_bits >= 256 {
            self.overflow = true;
            var_bit(255)
        } else {
            var_bit(self.reserved_variant_bits)
        };
        table_insert(&mut self.variant_offsets, name, bit);
        self.reserved_variant_bits = self.reserved_variant_bits.saturating_add(fn_count);
        let mut offset = self.create(Layer::Variants);
        offset.variants = bit;
        offset
    }

    /// The bit of `name`, registering it first when it is new.
    pub fn record_variant_bit(&mut self, name: &str, fn_count: u32) -> (r: VarBits)
        requires
            old(self).next_index_of(Layer::Variants) < u64::MAX,
        ensures
            old(self).variants_map().contains_key(name@) ==> r == old(self).variants_map()[name@]
                && *final(self) == *old(self),
            !old(self).variants_map().contains_key(name@) ==> r == var_bit_spec(
                next_bit_pos(old(self).reserved() as int),
            ),
            final(self).reg_state() == register_one(old(self).reg_state(), name@, fn_count),
            forall|l: Layer|
                l != Layer::Variants ==> #[trigger] final(self).next_index_of(l) == old(
                    self,
                ).next_index_of(l),
            final(self).variants_map().contains_key(name@),
            final(self).variants_map()[name@] == r,
    {
        match table_get(&self.variant_offsets, name) {
            Some(existing) => existing,
            None => {
                let offset = self.record_variant(name, fn_count);
                offset.variants
            },
        }
    }

    /// Register each `(name, fn_count)` in order; a name already
    /// registered keeps its first bit.
    pub fn record_variants(&mut self, vs: Vec<(&str, u32)>)
        requires
            old(self).next_index_of(Layer::Variants) + vs@.len() < u64::MAX,
        ensures
            forall|i: int|
                0 <= i < vs@.len() ==> #[trigger] final(self).variants_map().contains_key(
                    vs@[i].0@,
                ),
            forall|k: Seq<char>| #[trigger]
                old(self).variants_map().contains_key(k) ==> final(self).variants_map().contains_key(
                    k,
                ) && final(self).variants_map()[k] == old(self).variants_map()[k],
            final(self).reg_state() == register_all(
                old(self).reg_state(),
                vs@.map_values(|v: (&str, u32)| (v.0@, v.1)),
            ),
            forall|l: Layer|
                l != Layer::Variants ==> #[trigger] final(self).next_index_of(l) == old(
                    self,
                ).next_index_of(l),
    {
        let ghost vv = vs@.map_values(|v: (&str, u32)| (v.0@, v.1));
        let mut i: usize = 0;
        while i < vs.len()
            invariant
                i <= vs@.len(),
                self.next_index_of(Layer::Variants) <= old(self).next_index_of(Layer::Variants) + i,
                old(self).next_index_of(Layer::Variants) + vs@.len() < u64::MAX,
                forall|j: int|
                    0 <= j < i ==> #[trigger] self.variants_map().contains_key(vs@[j].0@),
                forall|k: Seq<char>| #[trigger]
                    old(self).variants_map().contains_key(k) ==> self.variants_map().contains_key(k)
                        && self.variants_map()[k] == old(self).variants_map()[k],
                vv == vs@.map_values(|v: (&str, u32)| (v.0@, v.1)),
                self.reg_state() == register_all(old(self).reg_state(), vv.take(i as int)),
                forall|l: Layer|
                    l != Layer::Variants ==> #[trigger] self.next_index_of(l) == old(
                        self,
                    ).next_index_of(l),
            decreases vs@.len() - i,
        {
            let (name, fn_count) = vs[i];
            proof {
                assert(vv.take(i + 1).drop_last() =~= vv.take(i as int));
                assert(vv.take(i + 1).last() == (name@, fn_count));
            }
            if table_get(&self.variant_offsets, name).is_none() {
                self.record_variant(name, fn_count);
            }
            i += 1;
        }
        proof {
            assert(vv.take(vs@.len() as int) =~= vv);
        }
    }

    /// Whether `name` has been registered.
    pub fn has_variant(&self, name: &str) -> (r: bool)
        ensures
            r == self.variants_map().contains_key(name@),
    {
        table_get(&self.variant_offsets, name).is_some()
    }

    /// The bit of a registered variant; `None` for unknown variants.
    pub fn variant_bit(&self, name: &str) -> (r: Option<VarBits>)
        ensures
            r == (if self.variants_map().contains_key(name@) {
                Some(self.variants_map()[name@])
            } else {
                None
            }),
    {
        table_get(&self.variant_offsets, name)
    }

    /// A fresh variants offset holding the variant's bit shifted left by
    /// `parallel_index`; `None` for unknown variants.
    pub fn for_variant(&mut self, name: &str, parallel_index: u32) -> (r: Option<RuleOffset>)
        requires
            old(self).next_index_of(Layer::Variants) < u64::MAX,
        ensures
            r is None <==> !old(self).variants_map().contains_key(name@),
            r is None ==> final(self).next_index_of(Layer::Variants) == old(self).next_index_of(
                Layer::Variants,
            ),
            r matches Some(o) ==> {
                &&& o.layer == Layer::Variants
                &&& o.parent_layer == Layer::Variants
                &&& o.arbitrary == 0
                &&& o.parallel_index == 0
                &&& o.index == old(self).next_index_of(Layer::Variants)
                &&& o.property_offset == 0
                &&& o.property@ == Seq::<char>::empty()
                &&& option_stack(o.options) == Seq::<VariantOption>::empty()
                &&& forall|p: int| #[trigger]
                    bit(o.variants, p) == (parallel_index <= p < 256 && bit(
                        old(self).variants_map()[name@],
                        p - parallel_index,
                    ))
                &&& final(self).next_index_of(Layer::Variants) == old(self).next_index_of(
                    Layer::Variants,
                ) + 1
            },
            forall|l: Layer|
                l != Layer::Variants ==> #[trigger] final(self).next_index_of(l) == old(
                    self,
                ).next_index_of(l),
            final(self).variants_map() == old(self).variants_map(),
            final(self).reserved() == old(self).reserved(),
            final(self).overflowed() == old(self).overflowed(),
    {
        let bit = match table_get(&self.variant_offsets, name) {
            Some(b) => b,
            None => {
                return None;
            },
        };
        let mut offset = self.create(Layer::Variants);
        offset.variants = shift_left(bit, parallel_index);
        Some(offset)
    }

    /// Apply a variant to a rule: OR in its bits, remember the rule's
    /// original layer, move it into `Layer::Variants`, push `option` onto
    /// the front of the option stack when it carries a comparator, and
    /// keep the larger parallel index.
    pub fn apply_variant_offset(
        &self,
        rule: RuleOffset,
        variant: &RuleOffset,
        option: VariantOption,
    ) -> (r: RuleOffset)
        ensures
            r.layer == Layer::Variants,
            r.parent_layer == (if rule.layer == Layer::Variants {
                rule.parent_layer
            } else {
                rule.layer
            }),
            r.variants[0] == rule.variants[0] | variant.variants[0],
            r.variants[1] == rule.variants[1] | variant.variants[1],
            option_stack(r.options) == (if option.sort {
                seq![VariantOption { variant: variant.variants, ..option }] + option_stack(
                    rule.options,
                )
            } else {
                option_stack(rule.options)
            }),
            r.parallel_index == (if rule.parallel_index >= variant.parallel_index {
                rule.parallel_index
            } else {
                variant.parallel_index
            }),
            r.arbitrary == rule.arbitrary,
            r.index == rule.index,
            r.property_offset == rule.property_offset,
            r.property == rule.property,
    {
        let mut rule = rule;
        let mut option = option;
        option.variant = variant.variants;
        let new_parent = if rule.layer == Layer::Variants {
            rule.parent_layer
        } else {
            rule.layer
        };
        rule.parent_layer = new_parent;
        rule.layer = Layer::Variants;
        rule.variants = var_or(rule.variants, variant.variants);
        if option.sort {
            options_push_front(&mut rule.options, option);
        }
        rule.parallel_index = if rule.parallel_index >= variant.parallel_index {
            rule.parallel_index
        } else {
            variant.parallel_index
        };
        rule
    }

    /// Set the parallel-rule index of an offset.
    pub fn apply_parallel_offset(&self, offset: RuleOffset, parallel_index: u32) -> (r: RuleOffset)
        ensures
            r.parallel_index == parallel_index,
            r.layer == offset.layer,
            r.parent_layer == offset.parent_layer,
            r.arbitrary == offset.arbitrary,
            r.variants == offset.variants,
            r.index == offset.index,
            r.property_offset == offset.property_offset,
            r.property == offset.property,
            r.options == offset.options,
    {
        let mut offset = offset;
        offset.parallel_index = parallel_index;
        offset
    }

}


/// -1, 0 or 1 as `x` is below, equal to or above `y`.
pub open spec fn three_way(x: int, y: int) -> int {
    if x < y {
        -1
    } else if x > y {
        1
    } else {
        0
    }
}

pub open spec fn ordering_of(c: int) -> core::cmp::Ordering {
    if c < 0 {
        core::cmp::Ordering::Less
    } else if c > 0 {
        core::cmp::Ordering::Greater
    } else {
        core::cmp::Ordering::Equal
    }
}

/// The fixed sort cascade: layer, parent layer, variant bits (as a
/// number), parallel index, arbitrary flag, property offset, index.
pub open spec fn cascade(a: RuleOffset, b: RuleOffset) -> int {
    if layer_rank(a.layer) != layer_rank(b.layer) {
        three_way(layer_rank(a.layer) as int, layer_rank(b.layer) as int)
    } else if layer_rank(a.parent_layer) != layer_rank(b.parent_layer) {
        three_way(layer_rank(a.parent_layer) as int, layer_rank(b.parent_layer) as int)
    } else if var_value(a.variants) != var_value(b.variants) {
        three_way(var_value(a.variants), var_value(b.variants))
    } else if a.parallel_index != b.parallel_index {
        three_way(a.parallel_index as int, b.parallel_index as int)
    } else if a.arbitrary != b.arbitrary {
        three_way(a.arbitrary as int, b.arbitrary as int)
    } else if a.property_offset != b.property_offset {
        three_way(a.property_offset as int, b.property_offset as int)
    } else {
        three_way(a.index as int, b.index as int)
    }
}

/// The mask that keeps only the bits above the highest bit of `m`:
/// `!(m | (m - 1))` on the 256-bit value.
pub open spec fn above_mask(m: VarBits) -> VarBits {
    let low_minus: u128 = if m[1] == 0 {
        u128::MAX
    } else {
        (m[1] - 1) as u128
    };
    let high_minus: u128 = if m[1] == 0 {
        if m[0] == 0 {
            u128::MAX
        } else {
            (m[0] - 1) as u128
        }
    } else {
        m[0]
    };
    [!(m[0] | high_minus), !(m[1] | low_minus)]
}

/// Options `i` of `a` and `j` of `b` are handed to the comparator: same
/// group, both with a comparator, and the two rules agree on every
/// variant bit above the larger of the two options' bits.
pub open spec fn pair_applies(a: RuleOffset, b: RuleOffset, i: int, j: int) -> bool {
    let x = option_stack(a.options)[i];
    let y = option_stack(b.options)[j];
    let m = if var_value(x.variant) > var_value(y.variant) {
        x.variant
    } else {
        y.variant
    };
    let mask = above_mask(m);
    &&& 0 <= i < option_stack(a.options).len()
    &&& 0 <= j < option_stack(b.options).len()
    &&& x.id == y.id
    &&& x.sort
    &&& y.sort
    &&& a.variants[0] & mask[0] == b.variants[0] & mask[0]
    &&& a.variants[1] & mask[1] == b.variants[1] & mask[1]
}

/// The cascade is antisymmetric: swapping the operands flips the sign.
pub proof fn lemma_cascade_antisymmetric(a: RuleOffset, b: RuleOffset)
    ensures
        cascade(a, b) == -cascade(b, a),
{
}

/// The cascade is transitive.
pub proof fn lemma_cascade_transitive(a: RuleOffset, b: RuleOffset, c: RuleOffset)
    requires
        cascade(a, b) <= 0,
        cascade(b, c) <= 0,
    ensures
        cascade(a, c) <= 0,
{
}

/// A rule compares equal to itself.
pub proof fn lemma_cascade_reflexive(a: RuleOffset)
    ensures
        cascade(a, a) == 0,
{
}

/// Two rules that agree on every key before the registration index sort
/// by that index: the one registered first comes first.
pub proof fn law_registration_order_breaks_ties(a: RuleOffset, b: RuleOffset)
    requires
        layer_rank(a.layer) == layer_rank(b.layer),
        layer_rank(a.parent_layer) == layer_rank(b.parent_layer),
        var_value(a.variants) == var_value(b.variants),
        a.parallel_index == b.parallel_index,
        a.arbitrary == b.arbitrary,
        a.property_offset == b.property_offset,
        a.index < b.index,
    ensures
        cascade(a, b) == -1,
        cascade(b, a) == 1,
        ordering_of(cascade(a, b)) == core::cmp::Ordering::Less,
{
}

/// Of two rules fresh from `Offsets::create` in one layer, the one created
/// first (lower counter) sorts first, by `compare` and by `compare_with`
/// whatever the comparator.
pub proof fn law_created_earlier_sorts_first<F: Fn(&VariantOption, &VariantOption) -> core::cmp::Ordering>(
    a: RuleOffset,
    b: RuleOffset,
    layer: Layer,
    i: u64,
    j: u64,
    sort: F,
)
    requires
        is_fresh_offset(a, layer, i),
        is_fresh_offset(b, layer, j),
        i < j,
    ensures
        ordering_of(cascade(a, b)) == core::cmp::Ordering::Less,
        rule_order(a, b, sort) == core::cmp::Ordering::Less,
{
    law_registration_order_breaks_ties(a, b);
    assert(scan_pairs(a, b, sort, 0, 0) is None);
}

/// A layer sorts before another exactly when its rank is lower, whatever
/// the other keys hold.
pub proof fn lemma_layer_decides_first(a: RuleOffset, b: RuleOffset)
    requires
        layer_rank(a.layer) < layer_rank(b.layer),
    ensures
        cascade(a, b) < 0,
{
}

fn mask_above(m: VarBits) -> (r: VarBits)
    ensures
        r == above_mask(m),
{
    let low_minus: u128 = if m[1] == 0 {
        u128::MAX
    } else {
        m[1] - 1
    };
    let high_minus: u128 = if m[1] == 0 {
        if m[0] == 0 {
            u128::MAX
        } else {
            m[0] - 1
        }
    } else {
        m[0]
    };
    let r: VarBits = [!(m[0] | high_minus), !(m[1] | low_minus)];
    assert(r =~= above_mask(m));
    r
}

/// Whether `a` is above `b` as a number.
fn var_gt(a: VarBits, b: VarBits) -> (r: bool)
    ensures
        r == (var_value(a) > var_value(b)),
{
    a[0] > b[0] || (a[0] == b[0] && a[1] > b[1])
}

/// What the comparator answers on a pair of options (`Equal` should it
/// promise no answer).
pub open spec fn opt_cmp<F: Fn(&VariantOption, &VariantOption) -> core::cmp::Ordering>(
    sort: F,
    x: VariantOption,
    y: VariantOption,
) -> core::cmp::Ordering {
    if exists|r: core::cmp::Ordering| sort.ensures((&x, &y), r) {
        choose|r: core::cmp::Ordering| sort.ensures((&x, &y), r)
    } else {
        core::cmp::Ordering::Equal
    }
}

/// The comparator gives one answer per pair of options.
pub open spec fn answers_once<F: Fn(&VariantOption, &VariantOption) -> core::cmp::Ordering>(
    sort: F,
) -> bool {
    forall|x: &VariantOption, y: &VariantOption, r1: core::cmp::Ordering, r2: core::cmp::Ordering|
        #[trigger] sort.ensures((x, y), r1) && #[trigger] sort.ensures((x, y), r2) ==> r1 == r2
}

/// The first answer other than `Equal` the comparator gives on the
/// option pairs handed to it, taking pairs `(i, j)` in row order from
/// `(i, j)` on; `None` when every such pair ties.
pub open spec fn scan_pairs<F: Fn(&VariantOption, &VariantOption) -> core::cmp::Ordering>(
    a: RuleOffset,
    b: RuleOffset,
    sort: F,
    i: int,
    j: int,
) -> Option<core::cmp::Ordering>
    decreases option_stack(a.options).len() - i, option_stack(b.options).len() - j,
{
    if i < 0 || j < 0 || i >= option_stack(a.options).len() {
        None
    } else if j >= option_stack(b.options).len() {
        scan_pairs(a, b, sort, i + 1, 0)
    } else if pair_applies(a, b, i, j) && opt_cmp(
        sort,
        option_stack(a.options)[i],
        option_stack(b.options)[j],
    ) != core::cmp::Ordering::Equal {
        Some(opt_cmp(sort, option_stack(a.options)[i], option_stack(b.options)[j]))
    } else {
        scan_pairs(a, b, sort, i, j + 1)
    }
}

/// The order of two rules: layer, parent layer, then the first comparator
/// answer that is not a tie, then the rest of the cascade.
pub open spec fn rule_order<F: Fn(&VariantOption, &VariantOption) -> core::cmp::Ordering>(
    a: RuleOffset,
    b: RuleOffset,
    sort: F,
) -> core::cmp::Ordering {
    if layer_rank(a.layer) == layer_rank(b.layer) && layer_rank(a.parent_layer) == layer_rank(
        b.parent_layer,
    ) {
        match scan_pairs(a, b, sort, 0, 0) {
            Some(r) => r,
            None => ordering_of(cascade(a, b)),
        }
    } else {
        ordering_of(cascade(a, b))
    }
}

pub open spec fn usize_int(i: usize) -> int {
    i as int
}

pub open spec fn len_int<X>(s: Seq<X>) -> int {
    s.len() as int
}

pub open spec fn pair_applies_at(a: RuleOffset, b: RuleOffset, i: usize, j: usize) -> bool {
    pair_applies(a, b, i as int, j as int)
}

pub open spec fn u64_order(x: u64, y: u64) -> core::cmp::Ordering {
    if x < y {
        core::cmp::Ordering::Less
    } else if x > y {
        core::cmp::Ordering::Greater
    } else {
        core::cmp::Ordering::Equal
    }
}

fn order_u64(x: u64, y: u64) -> (r: core::cmp::Ordering)
    ensures
        r == u64_order(x, y),
{
    if x < y {
        core::cmp::Ordering::Less
    } else if x > y {
        core::cmp::Ordering::Greater
    } else {
        core::cmp::Ordering::Equal
    }
}

fn widen32(x: u32) -> (r: u64)
    ensures
        r == x,
{
    x as u64
}

fn widen8(x: u8) -> (r: u64)
    ensures
        r == x,
{
    x as u64
}

impl RuleOffset {
    /// Compare two rule offsets by the fixed cascade: layer, parent layer,
    /// variant bits, parallel index, arbitrary flag, property offset,
    /// index. No variant comparator takes part.
    pub fn compare(&self, other: &RuleOffset) -> (r: core::cmp::Ordering)
        ensures
            r == ordering_of(cascade(*self, *other)),
    {
        let a = self.layer.position();
        let b = other.layer.position();
        if a != b {
            return if a < b {
                core::cmp::Ordering::Less
            } else {
                core::cmp::Ordering::Greater
            };
        }
        self.compare_tail(other)
    }

    fn compare_tail(&self, other: &RuleOffset) -> (r: core::cmp::Ordering)
        requires
            layer_rank(self.layer) == layer_rank(other.layer),
        ensures
            r == ordering_of(cascade(*self, *other)),
    {
        let a = self.parent_layer.position();
        let b = other.parent_layer.position();
        if a != b {
            return if a < b {
                core::cmp::Ordering::Less
            } else {
                core::cmp::Ordering::Greater
            };
        }
        self.compare_from_variants(other)
    }

    fn compare_from_variants(&self, other: &RuleOffset) -> (r: core::cmp::Ordering)
        requires
            layer_rank(self.layer) == layer_rank(other.layer),
            layer_rank(self.parent_layer) == layer_rank(other.parent_layer),
        ensures
            r == ordering_of(cascade(*self, *other)),
    {
        match var_cmp(self.variants, other.variants) {
            core::cmp::Ordering::Equal => {},
            ord => {
                return ord;
            },
        }
        if self.parallel_index != other.parallel_index {
            return order_u64(widen32(self.parallel_index), widen32(other.parallel_index));
        }
        if self.arbitrary != other.arbitrary {
            return order_u64(widen8(self.arbitrary), widen8(other.arbitrary));
        }
        if self.property_offset != other.property_offset {
            return order_u64(widen32(self.property_offset), widen32(other.property_offset));
        }
        order_u64(self.index, other.index)
    }

    /// Compare two rule offsets: layer, parent layer, then every pair of
    /// options from the same comparator group (with the two rules agreeing
    /// on the higher variant bits) is handed to `sort` until one decides,
    /// then the rest of the cascade.
    pub fn compare_with<F>(&self, other: &RuleOffset, sort: &F) -> (r: core::cmp::Ordering) where
        F: Fn(&VariantOption, &VariantOption) -> core::cmp::Ordering,

        requires
            forall|x: &VariantOption, y: &VariantOption| #[trigger] sort.requires((x, y)),
            answers_once(*sort),
        ensures
            r == rule_order(*self, *other, *sort),
    {
        let a = self.layer.position();
        let b = other.layer.position();
        if a != b {
            return if a < b {
                core::cmp::Ordering::Less
            } else {
                core::cmp::Ordering::Greater
            };
        }
        let a = self.parent_layer.position();
        let b = other.parent_layer.position();
        if a != b {
            return if a < b {
                core::cmp::Ordering::Less
            } else {
                core::cmp::Ordering::Greater
            };
        }
        let na = options_len(&self.options);
        let nb = options_len(&other.options);
        let mut i: usize = 0;
        while i < na
            invariant
                i <= na == option_stack(self.options).len(),
                nb == option_stack(other.options).len(),
                forall|x: &VariantOption, y: &VariantOption| #[trigger] sort.requires((x, y)),
                answers_once(*sort),
                layer_rank(self.layer) == layer_rank(other.layer),
                layer_rank(self.parent_layer) == layer_rank(other.parent_layer),
                scan_pairs(*self, *other, *sort, usize_int(i), 0) == scan_pairs(*self, *other, *sort, 0, 0),
            decreases na - i,
        {
            let mut j: usize = 0;
            while j < nb
                invariant
                    i < na == option_stack(self.options).len(),
                    j <= nb == option_stack(other.options).len(),
                    forall|x: &VariantOption, y: &VariantOption| #[trigger] sort.requires((x, y)),
                    answers_once(*sort),
                    layer_rank(self.layer) == layer_rank(other.layer),
                    layer_rank(self.parent_layer) == layer_rank(other.parent_layer),
                    scan_pairs(*self, *other, *sort, usize_int(i), usize_int(j)) == scan_pairs(
                        *self,
                        *other,
                        *sort,
                        0,
                        0,
                    ),
                decreases nb - j,
            {
                let a_opt = options_get(&self.options, i);
                let b_opt = options_get(&other.options, j);
                if a_opt.id == b_opt.id && a_opt.sort && b_opt.sort {
                    let m = if var_gt(a_opt.variant, b_opt.variant) {
                        a_opt.variant
                    } else {
                        b_opt.variant
                    };
                    let mask = mask_above(m);
                    let x = var_and(self.variants, mask);
                    let y = var_and(other.variants, mask);
                    if var_eq(x, y) {
                        let result = sort(a_opt, b_opt);
                        proof {
                            let x = option_stack(self.options)[usize_int(i)];
                            let y = option_stack(other.options)[usize_int(j)];
                            assert(sort.ensures((&x, &y), result));
                            assert(opt_cmp(*sort, x, y) == result);
                        }
                        match result {
                            core::cmp::Ordering::Equal => {},
                            _ => {
                                assert(pair_applies_at(*self, *other, i, j));
                                return result;
                            },
                        }
                    }
                }
                j += 1;
            }
            i += 1;
        }
        self.compare_from_variants(other)
    }
}

/// Whether a variant name is an arbitrary variant (`[...]`).
pub open spec fn is_arbitrary_name(k: Seq<char>) -> bool {
    k.len() > 0 && k[0] == '['
}

/// The pairs of `(old, new)` at the same position whose masks differ.
pub open spec fn changed_pairs(olds: Seq<VarBits>, news: Seq<VarBits>) -> Seq<(VarBits, VarBits)>
    decreases olds.len(),
{
    if olds.len() == 0 || news.len() == 0 {
        Seq::empty()
    } else {
        let prev = changed_pairs(olds.drop_last(), news.drop_last());
        let a = olds.last();
        let z = news.last();
        if !(a[0] == z[0] && a[1] == z[1]) {
            prev.push((a, z))
        } else {
            prev
        }
    }
}

/// `names` lists the arbitrary variants of `tbl` in lexicographic order
/// and `vals` holds their bits in ascending numeric order.
pub open spec fn remap_plan(
    tbl: Map<Seq<char>, VarBits>,
    names: Seq<Seq<char>>,
    vals: Seq<VarBits>,
) -> bool {
    &&& forall|i: int, j: int| 0 <= i < j < names.len() ==> lex_lt(names[i], names[j])
    &&& forall|k: Seq<char>|
        (tbl.contains_key(k) && is_arbitrary_name(k)) <==> #[trigger] names.contains(k)
    &&& vals.len() == names.len()
    &&& forall|i: int, j: int|
        0 <= i < j < vals.len() ==> var_value(vals[i]) <= var_value(vals[j])
    &&& vals.to_multiset() == names.map_values(|k: Seq<char>| tbl[k]).to_multiset()
}

/// The remapping that moves arbitrary variants onto bits in name order:
/// the i-th arbitrary name (alphabetically) gets the i-th smallest of
/// their bits; entries that keep their bit are left out.
pub open spec fn remapping_of(
    tbl: Map<Seq<char>, VarBits>,
    names: Seq<Seq<char>>,
    vals: Seq<VarBits>,
) -> Seq<(VarBits, VarBits)> {
    changed_pairs(names.map_values(|k: Seq<char>| tbl[k]), vals)
}

fn starts_with_bracket(s: &String) -> (r: bool)
    ensures
        r == is_arbitrary_name(s@),
{
    let cs = chars_of(s.as_str());
    cs.len() > 0 && cs[0] == '['
}

/// Insert `x` into a list sorted by name so that it stays sorted.
fn insert_by_name(sorted: &mut Vec<(String, VarBits)>, x: (String, VarBits))
    requires
        forall|i: int, j: int|
            0 <= i < j < old(sorted)@.len() ==> lex_lt(
                (#[trigger] old(sorted)@[i]).0@,
                (#[trigger] old(sorted)@[j]).0@,
            ),
        forall|i: int| 0 <= i < old(sorted)@.len() ==> (#[trigger] old(sorted)@[i]).0@ != x.0@,
    ensures
        forall|i: int, j: int|
            0 <= i < j < final(sorted)@.len() ==> lex_lt(
                (#[trigger] final(sorted)@[i]).0@,
                (#[trigger] final(sorted)@[j]).0@,
            ),
        exists|pos: int|
            0 <= pos <= old(sorted)@.len() && final(sorted)@ == old(sorted)@.insert(pos, x),
{
    let mut pos: usize = 0;
    while pos < sorted.len() && str_lt(sorted[pos].0.as_str(), x.0.as_str())
        invariant
            pos <= sorted@.len(),
            forall|i: int| 0 <= i < pos ==> lex_lt((#[trigger] sorted@[i]).0@, x.0@),
        decreases sorted@.len() - pos,
    {
        pos += 1;
    }
    let ghost before = sorted@;
    proof {
        if pos < before.len() {
            lemma_lex_total(before[pos as int].0@, x.0@);
            assert forall|j: int| pos <= j < before.len() implies lex_lt(x.0@, (#[trigger] before[j]).0@) by {
                if j > pos {
                    lemma_lex_transitive(x.0@, before[pos as int].0@, before[j].0@);
                }
            }
        }
    }
    sorted.insert(pos, x);
    proof {
        assert(sorted@ == before.insert(pos as int, x));
        assert forall|i: int, j: int| 0 <= i < j < sorted@.len() implies lex_lt(
            (#[trigger] sorted@[i]).0@,
            (#[trigger] sorted@[j]).0@,
        ) by {
            if i < pos && j == pos {
            } else if i == pos {
            } else if i < pos && j > pos {
                lemma_lex_transitive(sorted@[i].0@, x.0@, sorted@[j].0@);
            } else {
            }
        }
    }
}

/// Insert `x` into a list in ascending numeric order, after any equal
/// masks.
fn insert_by_value(sorted: &mut Vec<VarBits>, x: VarBits)
    requires
        forall|i: int, j: int|
            0 <= i < j < old(sorted)@.len() ==> var_value(old(sorted)@[i]) <= var_value(
                old(sorted)@[j],
            ),
    ensures
        forall|i: int, j: int|
            0 <= i < j < final(sorted)@.len() ==> var_value(final(sorted)@[i]) <= var_value(
                final(sorted)@[j],
            ),
        final(sorted)@.to_multiset() == old(sorted)@.to_multiset().insert(x),
        final(sorted)@.len() == old(sorted)@.len() + 1,
{
    let mut pos: usize = 0;
    while pos < sorted.len() && !var_gt(sorted[pos], x)
        invariant
            pos <= sorted@.len(),
            forall|i: int| 0 <= i < pos ==> var_value(#[trigger] sorted@[i]) <= var_value(x),
        decreases sorted@.len() - pos,
    {
        pos += 1;
    }
    let ghost before = sorted@;
    sorted.insert(pos, x);
    proof {
        broadcast use vstd::seq_lib::to_multiset_insert;

        assert(sorted@ == before.insert(pos as int, x));
        assert forall|i: int, j: int| 0 <= i < j < sorted@.len() implies var_value(sorted@[i])
            <= var_value(sorted@[j]) by {
            if i < pos && j > pos {
                assert(var_value(sorted@[i]) <= var_value(x));
            }
        }
    }
}

impl Offsets {
    /// The remapping of arbitrary variant bits into alphabetical order:
    /// pairs of (old bits, new bits) for the arbitrary variants whose bits
    /// change.
    #[verifier::rlimit(100)]
    #[verifier::spinoff_prover]
    fn recalculate_variant_offsets(&self) -> (r: Vec<(VarBits, VarBits)>)
        ensures
            exists|names: Seq<Seq<char>>, vals: Seq<VarBits>|
                remap_plan(self.variants_map(), names, vals) && r@ == remapping_of(
                    self.variants_map(),
                    names,
                    vals,
                ),
    {
        let ghost tbl = self.variants_map();
        let entries = table_entries(&self.variant_offsets);
        let mut arb: Vec<(String, VarBits)> = Vec::new();
        let mut e: usize = 0;
        while e < entries.len()
            invariant
                e <= entries@.len(),
                tbl == self.variants_map(),
                forall|i: int|
                    0 <= i < entries@.len() ==> tbl.contains_key((#[trigger] entries@[i]).0@)
                        && tbl[entries@[i].0@] == entries@[i].1,
                forall|i: int, j: int|
                    0 <= i < j < entries@.len() ==> (#[trigger] entries@[i]).0@ != (
                    #[trigger] entries@[j]).0@,
                forall|i: int, j: int|
                    0 <= i < j < arb@.len() ==> lex_lt(
                        (#[trigger] arb@[i]).0@,
                        (#[trigger] arb@[j]).0@,
                    ),
                forall|i: int|
                    0 <= i < arb@.len() ==> tbl.contains_key((#[trigger] arb@[i]).0@) && tbl[arb@[
                        i
                    ].0@] == arb@[i].1 && is_arbitrary_name(arb@[i].0@),
                forall|i: int|
                    0 <= i < arb@.len() ==> exists|j: int|
                        0 <= j < e && (#[trigger] entries@[j]).0@ == (#[trigger] arb@[i]).0@,
                forall|j: int|
                    0 <= j < e && is_arbitrary_name((#[trigger] entries@[j]).0@) ==> exists|i: int|
                        0 <= i < arb@.len() && (#[trigger] arb@[i]).0@ == entries@[j].0@,
            decreases entries@.len() - e,
        {
            if starts_with_bracket(&entries[e].0) {
                let name = entries[e].0.clone();
                let ghost before = arb@;
                proof {
                    assert forall|i: int| 0 <= i < before.len() implies (#[trigger] before[i]).0@
                        != name@ by {
                        let j = choose|j: int|
                            0 <= j < e && (#[trigger] entries@[j]).0@ == before[i].0@;
                    }
                }
                insert_by_name(&mut arb, (name, entries[e].1));
                proof {
                    let pos = choose|pos: int|
                        0 <= pos <= before.len() && arb@ == before.insert(pos, (name, entries@[e as int].1));
                    assert forall|i: int| 0 <= i < arb@.len() implies exists|j: int|
                        0 <= j < e + 1 && (#[trigger] entries@[j]).0@ == (#[trigger] arb@[i]).0@ by {
                        if i < pos {
                            assert(arb@[i] == before[i]);
                        } else if i == pos {
                            assert(entries@[e as int].0@ == arb@[i].0@);
                        } else {
                            assert(arb@[i] == before[i - 1]);
                        }
                    }
                    assert forall|j: int| 0 <= j < e + 1 && is_arbitrary_name((#[trigger] entries@[j]).0@) implies exists|i: int|
                        0 <= i < arb@.len() && (#[trigger] arb@[i]).0@ == entries@[j].0@ by {
                        if j == e {
                            assert(arb@[pos].0@ == entries@[j].0@);
                        } else {
                            let i = choose|i: int| 0 <= i < before.len() && (#[trigger] before[i]).0@ == entries@[j].0@;
                            if i < pos {
                                assert(arb@[i] == before[i]);
                            } else {
                                assert(arb@[i + 1] == before[i]);
                            }
                        }
                    }
                }
            }
            e += 1;
        }
        // The old bits in name order, and the same bits in numeric order.
        let mut olds: Vec<VarBits> = Vec::new();
        let mut news: Vec<VarBits> = Vec::new();
        let mut i: usize = 0;
        while i < arb.len()
            invariant
                i <= arb@.len(),
                olds@.len() == i,
                news@.len() == i,
                forall|k: int| 0 <= k < i ==> olds@[k] == (#[trigger] arb@[k]).1,
                forall|a: int, b: int|
                    0 <= a < b < news@.len() ==> var_value(news@[a]) <= var_value(news@[b]),
                news@.to_multiset() == olds@.to_multiset(),
            decreases arb@.len() - i,
        {
            let ghost ob = olds@;
            olds.push(arb[i].1);
            insert_by_value(&mut news, arb[i].1);
            proof {
                broadcast use vstd::seq_lib::to_multiset_build;

                assert(olds@ == ob.push(arb@[i as int].1));
            }
            i += 1;
        }
        let ghost names = arb@.map_values(|p: (String, VarBits)| p.0@);
        let mut out: Vec<(VarBits, VarBits)> = Vec::new();
        let mut k: usize = 0;
        while k < olds.len()
            invariant
                k <= olds@.len(),
                news@.len() == olds@.len(),
                out@ == changed_pairs(olds@.take(k as int), news@.take(k as int)),
            decreases olds@.len() - k,
        {
            proof {
                assert(olds@.take(k + 1).drop_last() =~= olds@.take(k as int));
                assert(news@.take(k + 1).drop_last() =~= news@.take(k as int));
            }
            if !var_eq(olds[k], news[k]) {
                out.push((olds[k], news[k]));
            }
            k += 1;
        }
        proof {
            assert(olds@.take(k as int) =~= olds@);
            assert(news@.take(k as int) =~= news@);
            assert(olds@ =~= names.map_values(|n: Seq<char>| tbl[n]));
            assert forall|key: Seq<char>|
                (tbl.contains_key(key) && is_arbitrary_name(key)) <==> #[trigger] names.contains(key) by {
                if tbl.contains_key(key) && is_arbitrary_name(key) {
                    let j = choose|j: int| 0 <= j < entries@.len() && (#[trigger] entries@[j]).0@ == key;
                    let i = choose|i: int| 0 <= i < arb@.len() && (#[trigger] arb@[i]).0@ == entries@[j].0@;
                    assert(names[i] == key);
                }
                if names.contains(key) {
                    let i = choose|i: int| 0 <= i < names.len() && names[i] == key;
                    assert(arb@[i].0@ == key);
                }
            }
            assert(remap_plan(tbl, names, news@));
        }
        out
    }
}

/// The offset after the final-sort preparation: arbitrary variant bits
/// remapped, and an arbitrary property ranked (from 1) among `props`.
pub open spec fn prepared_offset(
    o: RuleOffset,
    mapping: Seq<(VarBits, VarBits)>,
    props: Seq<Seq<char>>,
) -> RuleOffset {
    RuleOffset {
        variants: if mapping.len() == 0 {
            o.variants
        } else {
            remap_spec(o.variants, mapping)
        },
        property_offset: if o.arbitrary == 1 {
            (props.index_of(o.property@) + 1) as u32
        } else {
            o.property_offset
        },
        ..o
    }
}

pub open spec fn prepared<T>(
    list: Seq<(RuleOffset, T)>,
    mapping: Seq<(VarBits, VarBits)>,
    props: Seq<Seq<char>>,
) -> Seq<(RuleOffset, T)> {
    list.map_values(|p: (RuleOffset, T)| (prepared_offset(p.0, mapping, props), p.1))
}

/// `props` lists, in lexicographic order and once each, the property
/// names of the arbitrary-property rules in `list`.
pub open spec fn props_plan<T>(list: Seq<(RuleOffset, T)>, props: Seq<Seq<char>>) -> bool {
    &&& forall|i: int, j: int| 0 <= i < j < props.len() ==> lex_lt(props[i], props[j])
    &&& forall|s: Seq<char>|
        #[trigger] props.contains(s) <==> exists|i: int|
            0 <= i < list.len() && (#[trigger] list[i]).0.arbitrary == 1 && list[i].0.property@
                == s
}

/// No rule in the list carries a comparator option.
pub open spec fn no_sort_options<T>(list: Seq<(RuleOffset, T)>) -> bool {
    forall|i: int| 0 <= i < list.len() ==> option_stack((#[trigger] list[i]).0.options).len() == 0
}

/// The list is in cascade order.
pub open spec fn cascade_sorted<T>(list: Seq<(RuleOffset, T)>) -> bool {
    forall|i: int, j: int|
        0 <= i < j < list.len() ==> cascade((#[trigger] list[i]).0, (#[trigger] list[j]).0) <= 0
}

proof fn lemma_index_of_unique(props: Seq<Seq<char>>, k: int)
    requires
        0 <= k < props.len(),
        forall|i: int, j: int| 0 <= i < j < props.len() ==> lex_lt(props[i], props[j]),
    ensures
        props.index_of(props[k]) == k,
{
    let p = props[k];
    assert(props.contains(p));
    let j = props.index_of(p);
    assert(0 <= j < props.len() && props[j] == p);
    if j < k {
        assert(lex_lt(props[j], props[k]));
        crate::text::lemma_lex_irreflexive(p);
    } else if j > k {
        assert(lex_lt(props[k], props[j]));
        crate::text::lemma_lex_irreflexive(p);
    }
}

/// Some string of `v` has the characters `t`.
pub open spec fn names_contain(v: Seq<String>, t: Seq<char>) -> bool {
    exists|i: int| 0 <= i < v.len() && (#[trigger] v[i])@ == t
}

/// Insert `s` into a strictly sorted list of names unless it is there.
fn insert_unique_sorted(v: &mut Vec<String>, s: String)
    requires
        forall|i: int, j: int|
            0 <= i < j < old(v)@.len() ==> lex_lt(
                (#[trigger] old(v)@[i])@,
                (#[trigger] old(v)@[j])@,
            ),
    ensures
        forall|i: int, j: int|
            0 <= i < j < final(v)@.len() ==> lex_lt(
                (#[trigger] final(v)@[i])@,
                (#[trigger] final(v)@[j])@,
            ),
        forall|t: Seq<char>|
            #[trigger] names_contain(final(v)@, t) <==> (t == s@ || names_contain(old(v)@, t)),
        final(v)@.len() <= old(v)@.len() + 1,
{
    let mut pos: usize = 0;
    while pos < v.len() && str_lt(v[pos].as_str(), s.as_str())
        invariant
            pos <= v@.len(),
            forall|i: int| 0 <= i < pos ==> lex_lt((#[trigger] v@[i])@, s@),
        decreases v@.len() - pos,
    {
        pos += 1;
    }
    let ghost before = v@;
    proof {
        if pos < before.len() {
            lemma_lex_total(before[pos as int]@, s@);
        }
    }
    if pos < v.len() && !str_lt(s.as_str(), v[pos].as_str()) {
        return;
    }
    proof {
        assert forall|j: int| pos <= j < before.len() implies lex_lt(s@, (#[trigger] before[j])@) by {
            if j > pos {
                lemma_lex_transitive(s@, before[pos as int]@, before[j]@);
            }
        }
    }
    v.insert(pos, s);
    proof {
        assert forall|i: int, j: int| 0 <= i < j < v@.len() implies lex_lt(
            (#[trigger] v@[i])@,
            (#[trigger] v@[j])@,
        ) by {
            if i < pos && j > pos {
                lemma_lex_transitive(v@[i]@, v@[pos as int]@, v@[j]@);
            }
        }
        assert forall|t: Seq<char>| #[trigger] names_contain(v@, t) implies (t == v@[pos as int]@
            || names_contain(before, t)) by {
            let i = choose|i: int| 0 <= i < v@.len() && (#[trigger] v@[i])@ == t;
            if i < pos {
                assert(before[i] == v@[i]);
            } else if i > pos {
                assert(before[i - 1] == v@[i]);
            }
        }
        assert forall|t: Seq<char>| #[trigger] names_contain(before, t) implies names_contain(v@, t) by {
            let i = choose|i: int| 0 <= i < before.len() && (#[trigger] before[i])@ == t;
            if i < pos {
                assert(v@[i] == before[i]);
            } else {
                assert(v@[i + 1] == before[i]);
            }
        }
        assert(v@[pos as int]@ == s@);
    }
}

/// The distinct property names of the arbitrary-property rules, sorted.
fn sorted_properties<T>(list: &Vec<(RuleOffset, T)>) -> (props: Vec<String>)
    ensures
        props_plan(list@, props@.map_values(|s: String| s@)),
        props@.len() <= list@.len(),
{
    let mut props: Vec<String> = Vec::new();
    let mut i: usize = 0;
    while i < list.len()
        invariant
            i <= list@.len(),
            props@.len() <= i,
            forall|a: int, b: int|
                0 <= a < b < props@.len() ==> lex_lt(
                    (#[trigger] props@[a])@,
                    (#[trigger] props@[b])@,
                ),
            forall|t: Seq<char>|
                #[trigger] names_contain(props@, t) <==> (exists|j: int|
                    0 <= j < i && (#[trigger] list@[j]).0.arbitrary == 1 && list@[j].0.property@
                        == t),
        decreases list@.len() - i,
    {
        if list[i].0.arbitrary == 1 {
            let p = list[i].0.property.clone();
            insert_unique_sorted(&mut props, p);
        }
        i += 1;
    }
    let ghost pv = props@.map_values(|s: String| s@);
    proof {
        assert forall|t: Seq<char>| #[trigger] pv.contains(t) <==> exists|j: int|
            0 <= j < list@.len() && (#[trigger] list@[j]).0.arbitrary == 1 && list@[j].0.property@
                == t by {
            if pv.contains(t) {
                let k = choose|k: int| 0 <= k < pv.len() && pv[k] == t;
                assert(props@[k]@ == t);
            }
            if names_contain(props@, t) {
                let k = choose|k: int| 0 <= k < props@.len() && (#[trigger] props@[k])@ == t;
                assert(pv[k] == t);
            }
        }
    }
    props
}

/// The position of `p` in `props`, when it is there.
fn find_property(props: &Vec<String>, p: &String) -> (r: Option<usize>)
    ensures
        r matches Some(k) ==> k < props@.len() && props@[k as int]@ == p@,
        r is None ==> forall|k: int| 0 <= k < props@.len() ==> (#[trigger] props@[k])@ != p@,
{
    let pc = chars_of(p.as_str());
    let mut k: usize = 0;
    while k < props.len()
        invariant
            k <= props@.len(),
            pc@ == p@,
            forall|j: int| 0 <= j < k ==> (#[trigger] props@[j])@ != p@,
        decreases props@.len() - k,
    {
        let qc = chars_of(props[k].as_str());
        if same_chars(&qc, &pc) {
            return Some(k);
        }
        k += 1;
    }
    None
}

fn same_chars(a: &Vec<char>, b: &Vec<char>) -> (r: bool)
    ensures
        r == (a@ == b@),
{
    if a.len() != b.len() {
        return false;
    }
    let mut i: usize = 0;
    while i < a.len()
        invariant
            a@.len() == b@.len(),
            i <= a@.len(),
            forall|k: int| 0 <= k < i ==> a@[k] == b@[k],
        decreases a@.len() - i,
    {
        if a[i] != b[i] {
            return false;
        }
        i += 1;
    }
    assert(a@ =~= b@);
    true
}

/// Remap the variant bits and rank the arbitrary properties of every
/// rule.
fn prepare_all<T>(
    list: Vec<(RuleOffset, T)>,
    mapping: &Vec<(VarBits, VarBits)>,
    props: &Vec<String>,
) -> (out: Vec<(RuleOffset, T)>)
    requires
        props_plan(list@, props@.map_values(|s: String| s@)),
        props@.len() <= list@.len() < u32::MAX,
    ensures
        out@ == prepared(list@, mapping@, props@.map_values(|s: String| s@)),
{
    let ghost pv = props@.map_values(|s: String| s@);
    let ghost orig = list@;
    let mut src = list;
    let mut rev: Vec<(RuleOffset, T)> = Vec::new();
    while src.len() > 0
        invariant
            src@ + rev@.reverse() == orig,
        decreases src@.len(),
    {
        let ghost s0 = src@;
        let ghost r0 = rev@;
        let x = src.pop().unwrap();
        rev.push(x);
        proof {
            assert(rev@.reverse() =~= seq![x] + r0.reverse());
            assert(src@ + rev@.reverse() =~= s0 + r0.reverse());
        }
    }
    assert(rev@.reverse() =~= orig);
    let mut out: Vec<(RuleOffset, T)> = Vec::new();
    let ghost want = prepared(orig, mapping@, pv);
    while rev.len() > 0
        invariant
            out@.len() + rev@.len() == orig.len(),
            rev@.reverse() == orig.skip(out@.len() as int),
            out@ == want.take(out@.len() as int),
            want == prepared(orig, mapping@, pv),
            pv == props@.map_values(|s: String| s@),
            props_plan(orig, pv),
            props@.len() <= orig.len() < u32::MAX,
        decreases rev@.len(),
    {
        let ghost r0 = rev@;
        let ghost n = out@.len();
        let (mut o, t) = rev.pop().unwrap();
        proof {
            assert(r0.reverse()[0] == r0.last());
            assert(orig.skip(n as int)[0] == orig[n as int]);
            assert(rev@.reverse() =~= r0.reverse().drop_first());
        }
        if mapping.len() > 0 {
            o.variants = remap_bitfield(o.variants, mapping.as_slice());
        }
        if o.arbitrary == 1 {
            match find_property(props, &o.property) {
                Some(k) => {
                    proof {
                        assert(pv[k as int] == o.property@);
                        lemma_index_of_unique(pv, k as int);
                    }
                    o.property_offset = (k + 1) as u32;
                },
                None => {
                    proof {
                        assert(pv.contains(o.property@));
                        assert(false);
                    }
                },
            }
        }
        out.push((o, t));
        proof {
            assert(out@ =~= want.take(out@.len() as int));
        }
    }
    assert(want.take(out@.len() as int) =~= want);
    out
}

/// `s[i]` for a machine index.
pub open spec fn elem<X>(s: Seq<X>, i: usize) -> X {
    s[i as int]
}

/// The first `n` elements of `s`.
pub open spec fn take_n<X>(s: Seq<X>, n: nat) -> Seq<X> {
    s.take(n as int)
}

proof fn lemma_insert_multiset<X>(s: Seq<X>, i: usize, x: X)
    requires
        i <= s.len(),
    ensures
        s.insert(i as int, x).to_multiset() =~= s.to_multiset().insert(x),
{
    vstd::seq_lib::to_multiset_insert(s, i as int, x);
}

/// `out` is `input` rearranged by `perm` (`out[k]` is `input[perm[k]]`,
/// each input entry used once), and entries that tie in the cascade keep
/// their input order.
pub open spec fn stable_perm<T>(out: Seq<(RuleOffset, T)>, input: Seq<(RuleOffset, T)>, perm: Seq<int>) -> bool {
    &&& perm.len() == out.len()
    &&& out.len() == input.len()
    &&& forall|k: int| 0 <= k < out.len() ==> 0 <= #[trigger] perm[k] < input.len() && out[k] == input[perm[k]]
    &&& forall|k1: int, k2: int| 0 <= k1 < k2 < out.len() ==> #[trigger] perm[k1] != #[trigger] perm[k2]
    &&& forall|k1: int, k2: int|
        0 <= k1 < k2 < out.len() && cascade((#[trigger] out[k1]).0, (#[trigger] out[k2]).0) == 0
            ==> perm[k1] < perm[k2]
}

/// `a` does not sort after `b`.
pub open spec fn rule_le<F: Fn(&VariantOption, &VariantOption) -> core::cmp::Ordering>(
    a: RuleOffset,
    b: RuleOffset,
    sort: F,
) -> bool {
    rule_order(a, b, sort) != core::cmp::Ordering::Greater
}

/// On the rules of `l`, `rule_order` is a total preorder: `a` below `b`
/// exactly when `b` is above `a`, and "not after" is transitive.
pub open spec fn preorder_on<T, F: Fn(&VariantOption, &VariantOption) -> core::cmp::Ordering>(
    l: Seq<(RuleOffset, T)>,
    sort: F,
) -> bool {
    &&& forall|i: int, j: int|
        #![trigger rule_order(l[i].0, l[j].0, sort)]
        0 <= i < l.len() && 0 <= j < l.len() ==> (rule_order(l[i].0, l[j].0, sort)
            == core::cmp::Ordering::Less <==> rule_order(l[j].0, l[i].0, sort)
            == core::cmp::Ordering::Greater)
    &&& forall|i: int, j: int, k: int|
        #![trigger rule_le(l[i].0, l[j].0, sort), rule_le(l[j].0, l[k].0, sort)]
        0 <= i < l.len() && 0 <= j < l.len() && 0 <= k < l.len() && rule_le(l[i].0, l[j].0, sort)
            && rule_le(l[j].0, l[k].0, sort) ==> rule_le(l[i].0, l[k].0, sort)
}

/// No rule of `out` sorts after a later one.
pub open spec fn sorted_by<T, F: Fn(&VariantOption, &VariantOption) -> core::cmp::Ordering>(
    out: Seq<(RuleOffset, T)>,
    sort: F,
) -> bool {
    forall|i: int, j: int|
        0 <= i < j < out.len() ==> rule_le((#[trigger] out[i]).0, (#[trigger] out[j]).0, sort)
}

/// `out` is `input` rearranged by `perm`, and rules that tie under
/// `rule_order` keep their input order.
pub open spec fn stable_perm_by<T, F: Fn(&VariantOption, &VariantOption) -> core::cmp::Ordering>(
    out: Seq<(RuleOffset, T)>,
    input: Seq<(RuleOffset, T)>,
    perm: Seq<int>,
    sort: F,
) -> bool {
    &&& perm.len() == out.len()
    &&& out.len() == input.len()
    &&& forall|k: int| 0 <= k < out.len() ==> 0 <= #[trigger] perm[k] < input.len() && out[k] == input[perm[k]]
    &&& forall|k1: int, k2: int| 0 <= k1 < k2 < out.len() ==> #[trigger] perm[k1] != #[trigger] perm[k2]
    &&& forall|k1: int, k2: int|
        0 <= k1 < k2 < out.len() && rule_order((#[trigger] out[k1]).0, (#[trigger] out[k2]).0, sort)
            == core::cmp::Ordering::Equal ==> perm[k1] < perm[k2]
}

proof fn lemma_pre_conv<T, F: Fn(&VariantOption, &VariantOption) -> core::cmp::Ordering>(
    l: Seq<(RuleOffset, T)>,
    sort: F,
    i: int,
    j: int,
)
    requires
        preorder_on(l, sort),
        0 <= i < l.len(),
        0 <= j < l.len(),
    ensures
        rule_order(l[i].0, l[j].0, sort) == core::cmp::Ordering::Less <==> rule_order(
            l[j].0,
            l[i].0,
            sort,
        ) == core::cmp::Ordering::Greater,
{
    assert(rule_order(l[i].0, l[j].0, sort) == rule_order(l[i].0, l[j].0, sort));
}

proof fn lemma_pre_trans<T, F: Fn(&VariantOption, &VariantOption) -> core::cmp::Ordering>(
    l: Seq<(RuleOffset, T)>,
    sort: F,
    i: int,
    j: int,
    k: int,
)
    requires
        preorder_on(l, sort),
        0 <= i < l.len(),
        0 <= j < l.len(),
        0 <= k < l.len(),
        rule_le(l[i].0, l[j].0, sort),
        rule_le(l[j].0, l[k].0, sort),
    ensures
        rule_le(l[i].0, l[k].0, sort),
{
}

/// The facts the insertion sort keeps about what it has placed: `out[k]`
/// is input entry `perm[k]`, each used once, all from `lo_src` on.
pub open spec fn placed<T>(out: Seq<(RuleOffset, T)>, orig: Seq<(RuleOffset, T)>, perm: Seq<int>, lo_src: int) -> bool {
    &&& perm.len() == out.len()
    &&& forall|k: int| 0 <= k < out.len() ==> lo_src <= #[trigger] perm[k] < orig.len() && out[k] == orig[perm[k]]
    &&& forall|k1: int, k2: int| 0 <= k1 < k2 < out.len() ==> #[trigger] perm[k1] != #[trigger] perm[k2]
}

/// Ties among the placed rules are in input order.
pub open spec fn ties_ordered<T, F: Fn(&VariantOption, &VariantOption) -> core::cmp::Ordering>(
    out: Seq<(RuleOffset, T)>,
    perm: Seq<int>,
    sort: F,
) -> bool {
    forall|k1: int, k2: int|
        0 <= k1 < k2 < out.len() && rule_order((#[trigger] out[k1]).0, (#[trigger] out[k2]).0, sort)
            == core::cmp::Ordering::Equal ==> perm[k1] < perm[k2]
}

/// Moving `lo` past a rule below `x` keeps every rule up to it below `x`.
proof fn lemma_below_by<T, F: Fn(&VariantOption, &VariantOption) -> core::cmp::Ordering>(
    out: Seq<(RuleOffset, T)>,
    orig: Seq<(RuleOffset, T)>,
    perm: Seq<int>,
    mid: int,
    si: int,
    sort: F,
)
    requires
        preorder_on(orig, sort),
        placed(out, orig, perm, 0),
        sorted_by(out, sort),
        0 <= mid < out.len(),
        0 <= si < orig.len(),
        rule_order(out[mid].0, orig[si].0, sort) == core::cmp::Ordering::Less,
    ensures
        forall|k: int|
            0 <= k <= mid ==> rule_order((#[trigger] out[k]).0, orig[si].0, sort)
                == core::cmp::Ordering::Less,
{
    assert forall|k: int| 0 <= k <= mid implies rule_order((#[trigger] out[k]).0, orig[si].0, sort)
        == core::cmp::Ordering::Less by {
        if k < mid {
            let pk = perm[k];
            let pm = perm[mid];
            assert(rule_le(out[k].0, out[mid].0, sort));
            lemma_pre_conv(orig, sort, pk, si);
            lemma_pre_conv(orig, sort, pm, si);
            if rule_order(out[k].0, orig[si].0, sort) != core::cmp::Ordering::Less {
                assert(rule_le(orig[si].0, orig[pk].0, sort));
                lemma_pre_trans(orig, sort, si, pk, pm);
            }
        }
    }
}

/// Moving `hi` down to a rule not below `x` keeps every rule from it on
/// not below `x`.
proof fn lemma_not_below_by<T, F: Fn(&VariantOption, &VariantOption) -> core::cmp::Ordering>(
    out: Seq<(RuleOffset, T)>,
    orig: Seq<(RuleOffset, T)>,
    perm: Seq<int>,
    mid: int,
    si: int,
    sort: F,
)
    requires
        preorder_on(orig, sort),
        placed(out, orig, perm, 0),
        sorted_by(out, sort),
        0 <= mid < out.len(),
        0 <= si < orig.len(),
        rule_order(out[mid].0, orig[si].0, sort) != core::cmp::Ordering::Less,
    ensures
        forall|k: int|
            mid <= k < out.len() ==> rule_order((#[trigger] out[k]).0, orig[si].0, sort)
                != core::cmp::Ordering::Less,
{
    assert forall|k: int| mid <= k < out.len() implies rule_order((#[trigger] out[k]).0, orig[si].0, sort)
        != core::cmp::Ordering::Less by {
        if k > mid {
            let pk = perm[k];
            let pm = perm[mid];
            assert(rule_le(out[mid].0, out[k].0, sort));
            lemma_pre_conv(orig, sort, pm, si);
            lemma_pre_conv(orig, sort, pk, si);
            assert(rule_le(orig[si].0, orig[pm].0, sort));
            lemma_pre_trans(orig, sort, si, pm, pk);
        }
    }
}

proof fn lemma_insert_placed<T>(
    o0: Seq<(RuleOffset, T)>,
    p0: Seq<int>,
    lo: int,
    si: int,
    orig: Seq<(RuleOffset, T)>,
)
    requires
        0 <= lo <= o0.len(),
        0 <= si < orig.len(),
        placed(o0, orig, p0, si + 1),
    ensures
        placed(o0.insert(lo, orig[si]), orig, p0.insert(lo, si), si),
{
    let out = o0.insert(lo, orig[si]);
    let perm = p0.insert(lo, si);
    assert forall|k: int| 0 <= k < out.len() implies si <= #[trigger] perm[k] < orig.len() && out[k] == orig[perm[k]] by {
        if k < lo {
            assert(out[k] == o0[k] && perm[k] == p0[k]);
        } else if k > lo {
            assert(out[k] == o0[k - 1] && perm[k] == p0[k - 1]);
        }
    }
    assert forall|k1: int, k2: int| 0 <= k1 < k2 < out.len() implies #[trigger] perm[k1] != #[trigger] perm[k2] by {
        if k1 != lo && k2 != lo {
            let a = if k1 < lo { k1 } else { k1 - 1 };
            let b = if k2 < lo { k2 } else { k2 - 1 };
            assert(perm[k1] == p0[a]);
            assert(perm[k2] == p0[b]);
        } else if k1 == lo {
            assert(perm[k2] == p0[k2 - 1]);
        } else {
            assert(perm[k1] == p0[k1]);
        }
    }
}

proof fn lemma_insert_sorted_by<T, F: Fn(&VariantOption, &VariantOption) -> core::cmp::Ordering>(
    o0: Seq<(RuleOffset, T)>,
    p0: Seq<int>,
    lo: int,
    si: int,
    orig: Seq<(RuleOffset, T)>,
    sort: F,
)
    requires
        0 <= lo <= o0.len(),
        0 <= si < orig.len(),
        placed(o0, orig, p0, si + 1),
        preorder_on(orig, sort),
        sorted_by(o0, sort),
        forall|k: int|
            0 <= k < lo ==> rule_order((#[trigger] o0[k]).0, orig[si].0, sort)
                == core::cmp::Ordering::Less,
        forall|k: int|
            lo <= k < o0.len() ==> rule_order((#[trigger] o0[k]).0, orig[si].0, sort)
                != core::cmp::Ordering::Less,
    ensures
        sorted_by(o0.insert(lo, orig[si]), sort),
{
    let out = o0.insert(lo, orig[si]);
    assert forall|i: int, j: int| 0 <= i < j < out.len() implies rule_le(
        (#[trigger] out[i]).0,
        (#[trigger] out[j]).0,
        sort,
    ) by {
        if j == lo {
            assert(out[i] == o0[i]);
        } else if i == lo {
            let pj = p0[j - 1];
            assert(out[j] == o0[j - 1]);
            assert(o0[j - 1] == orig[pj]);
            lemma_pre_conv(orig, sort, pj, si);
        } else {
            let ii = if i < lo { i } else { i - 1 };
            let jj = if j < lo { j } else { j - 1 };
            assert(out[i] == o0[ii] && out[j] == o0[jj]);
            assert(rule_le(o0[ii].0, o0[jj].0, sort));
        }
    }
}

proof fn lemma_insert_ties<T, F: Fn(&VariantOption, &VariantOption) -> core::cmp::Ordering>(
    o0: Seq<(RuleOffset, T)>,
    p0: Seq<int>,
    lo: int,
    si: int,
    orig: Seq<(RuleOffset, T)>,
    sort: F,
)
    requires
        0 <= lo <= o0.len(),
        0 <= si < orig.len(),
        placed(o0, orig, p0, si + 1),
        ties_ordered(o0, p0, sort),
        forall|k: int|
            0 <= k < lo ==> rule_order((#[trigger] o0[k]).0, orig[si].0, sort)
                == core::cmp::Ordering::Less,
    ensures
        ties_ordered(o0.insert(lo, orig[si]), p0.insert(lo, si), sort),
{
    let out = o0.insert(lo, orig[si]);
    let perm = p0.insert(lo, si);
    assert forall|k1: int, k2: int|
        0 <= k1 < k2 < out.len() && rule_order((#[trigger] out[k1]).0, (#[trigger] out[k2]).0, sort)
            == core::cmp::Ordering::Equal implies perm[k1] < perm[k2] by {
        if k1 != lo && k2 != lo {
            let a = if k1 < lo { k1 } else { k1 - 1 };
            let b = if k2 < lo { k2 } else { k2 - 1 };
            assert(out[k1] == o0[a] && perm[k1] == p0[a]);
            assert(out[k2] == o0[b] && perm[k2] == p0[b]);
        } else if k1 == lo {
            assert(perm[k2] == p0[k2 - 1]);
        } else {
            assert(out[k1] == o0[k1]);
        }
    }
}

/// Rules without options order by the cascade, and the cascade is a
/// total preorder on them.
proof fn lemma_plain_order<T, F: Fn(&VariantOption, &VariantOption) -> core::cmp::Ordering>(
    l: Seq<(RuleOffset, T)>,
    sort: F,
)
    requires
        no_sort_options(l),
    ensures
        preorder_on(l, sort),
        forall|i: int, j: int|
            0 <= i < l.len() && 0 <= j < l.len() ==> #[trigger] rule_order(l[i].0, l[j].0, sort)
                == ordering_of(cascade(l[i].0, l[j].0)),
{
    assert forall|i: int, j: int| 0 <= i < l.len() && 0 <= j < l.len() implies #[trigger] rule_order(
        l[i].0,
        l[j].0,
        sort,
    ) == ordering_of(cascade(l[i].0, l[j].0)) by {
        assert(option_stack(l[i].0.options).len() == 0);
        assert(scan_pairs(l[i].0, l[j].0, sort, 0, 0) is None);
    }
    assert forall|i: int, j: int|
        #![trigger rule_order(l[i].0, l[j].0, sort)]
        0 <= i < l.len() && 0 <= j < l.len() implies (rule_order(l[i].0, l[j].0, sort)
            == core::cmp::Ordering::Less <==> rule_order(l[j].0, l[i].0, sort)
            == core::cmp::Ordering::Greater) by {
        assert(rule_order(l[j].0, l[i].0, sort) == ordering_of(cascade(l[j].0, l[i].0)));
        lemma_cascade_antisymmetric(l[i].0, l[j].0);
    }
    assert forall|i: int, j: int, k: int|
        #![trigger rule_le(l[i].0, l[j].0, sort), rule_le(l[j].0, l[k].0, sort)]
        0 <= i < l.len() && 0 <= j < l.len() && 0 <= k < l.len() && rule_le(l[i].0, l[j].0, sort)
            && rule_le(l[j].0, l[k].0, sort) implies rule_le(l[i].0, l[k].0, sort) by {
        assert(rule_order(l[i].0, l[j].0, sort) == ordering_of(cascade(l[i].0, l[j].0)));
        assert(rule_order(l[j].0, l[k].0, sort) == ordering_of(cascade(l[j].0, l[k].0)));
        assert(rule_order(l[i].0, l[k].0, sort) == ordering_of(cascade(l[i].0, l[k].0)));
        lemma_cascade_transitive(l[i].0, l[j].0, l[k].0);
    }
}

/// With a comparator that only ever ties, every pair scan finds nothing.
proof fn lemma_tie_scan<F: Fn(&VariantOption, &VariantOption) -> core::cmp::Ordering>(
    a: RuleOffset,
    b: RuleOffset,
    sort: F,
    i: int,
    j: int,
)
    requires
        forall|x: &VariantOption, y: &VariantOption, r: core::cmp::Ordering|
            #[trigger] sort.ensures((x, y), r) ==> r == core::cmp::Ordering::Equal,
    ensures
        scan_pairs(a, b, sort, i, j) is None,
    decreases option_stack(a.options).len() - i, option_stack(b.options).len() - j,
{
    if i < 0 || j < 0 || i >= option_stack(a.options).len() {
    } else if j >= option_stack(b.options).len() {
        lemma_tie_scan(a, b, sort, i + 1, 0);
    } else {
        let x = option_stack(a.options)[i];
        let y = option_stack(b.options)[j];
        if exists|r: core::cmp::Ordering| sort.ensures((&x, &y), r) {
            let r = choose|r: core::cmp::Ordering| sort.ensures((&x, &y), r);
            assert(sort.ensures((&x, &y), r));
        }
        assert(opt_cmp(sort, x, y) == core::cmp::Ordering::Equal);
        lemma_tie_scan(a, b, sort, i, j + 1);
    }
}

/// With a comparator that only ever ties, rules order by the cascade,
/// a total preorder.
proof fn lemma_tie_order<T, F: Fn(&VariantOption, &VariantOption) -> core::cmp::Ordering>(
    l: Seq<(RuleOffset, T)>,
    sort: F,
)
    requires
        forall|x: &VariantOption, y: &VariantOption, r: core::cmp::Ordering|
            #[trigger] sort.ensures((x, y), r) ==> r == core::cmp::Ordering::Equal,
    ensures
        preorder_on(l, sort),
        forall|a: RuleOffset, b: RuleOffset| #[trigger] rule_order(a, b, sort) == ordering_of(cascade(a, b)),
{
    assert forall|a: RuleOffset, b: RuleOffset| #[trigger] rule_order(a, b, sort) == ordering_of(
        cascade(a, b),
    ) by {
        lemma_tie_scan(a, b, sort, 0, 0);
    }
    assert forall|i: int, j: int|
        #![trigger rule_order(l[i].0, l[j].0, sort)]
        0 <= i < l.len() && 0 <= j < l.len() implies (rule_order(l[i].0, l[j].0, sort)
            == core::cmp::Ordering::Less <==> rule_order(l[j].0, l[i].0, sort)
            == core::cmp::Ordering::Greater) by {
        assert(rule_order(l[j].0, l[i].0, sort) == ordering_of(cascade(l[j].0, l[i].0)));
        lemma_cascade_antisymmetric(l[i].0, l[j].0);
    }
    assert forall|i: int, j: int, k: int|
        #![trigger rule_le(l[i].0, l[j].0, sort), rule_le(l[j].0, l[k].0, sort)]
        0 <= i < l.len() && 0 <= j < l.len() && 0 <= k < l.len() && rule_le(l[i].0, l[j].0, sort)
            && rule_le(l[j].0, l[k].0, sort) implies rule_le(l[i].0, l[k].0, sort) by {
        assert(rule_order(l[i].0, l[j].0, sort) == ordering_of(cascade(l[i].0, l[j].0)));
        assert(rule_order(l[j].0, l[k].0, sort) == ordering_of(cascade(l[j].0, l[k].0)));
        assert(rule_order(l[i].0, l[k].0, sort) == ordering_of(cascade(l[i].0, l[k].0)));
        lemma_cascade_transitive(l[i].0, l[j].0, l[k].0);
    }
}

/// Where `rule_order` is the cascade on a list's rules, order and ties
/// by it are order and ties by the cascade.
proof fn lemma_by_cascade<T, F: Fn(&VariantOption, &VariantOption) -> core::cmp::Ordering>(
    out: Seq<(RuleOffset, T)>,
    input: Seq<(RuleOffset, T)>,
    perm: Seq<int>,
    sort: F,
)
    requires
        sorted_by(out, sort),
        stable_perm_by(out, input, perm, sort),
        forall|i: int, j: int|
            0 <= i < input.len() && 0 <= j < input.len() ==> #[trigger] rule_order(input[i].0, input[j].0, sort)
                == ordering_of(cascade(input[i].0, input[j].0)),
    ensures
        cascade_sorted(out),
        stable_perm(out, input, perm),
{
    assert forall|i: int, j: int| 0 <= i < j < out.len() implies cascade(
        (#[trigger] out[i]).0,
        (#[trigger] out[j]).0,
    ) <= 0 by {
        assert(out[i] == input[perm[i]] && out[j] == input[perm[j]]);
        assert(rule_order(input[perm[i]].0, input[perm[j]].0, sort) == ordering_of(
            cascade(input[perm[i]].0, input[perm[j]].0),
        ));
        assert(rule_le(out[i].0, out[j].0, sort));
    }
    assert forall|k1: int, k2: int|
        0 <= k1 < k2 < out.len() && cascade((#[trigger] out[k1]).0, (#[trigger] out[k2]).0) == 0
            implies perm[k1] < perm[k2] by {
        assert(out[k1] == input[perm[k1]] && out[k2] == input[perm[k2]]);
        assert(rule_order(input[perm[k1]].0, input[perm[k2]].0, sort) == ordering_of(
            cascade(input[perm[k1]].0, input[perm[k2]].0),
        ));
    }
}

/// Sort by `compare_with`, keeping equal rules in their input order.
fn stable_sort<T, F>(list: Vec<(RuleOffset, T)>, sort: &F) -> (out: Vec<(RuleOffset, T)>) where
    F: Fn(&VariantOption, &VariantOption) -> core::cmp::Ordering,

    requires
        forall|x: &VariantOption, y: &VariantOption| #[trigger] sort.requires((x, y)),
        answers_once(*sort),
    ensures
        out@.to_multiset() == list@.to_multiset(),
        preorder_on(list@, *sort) ==> sorted_by(out@, *sort) && exists|perm: Seq<int>|
            stable_perm_by(out@, list@, perm, *sort),
{
    broadcast use vstd::seq_lib::group_to_multiset_ensures;

    let ghost orig = list@;
    let mut src = list;
    let mut out: Vec<(RuleOffset, T)> = Vec::new();
    let ghost mut perm: Seq<int> = Seq::empty();
    while src.len() > 0
        invariant
            src@ =~= take_n(orig, src@.len()),
            out@.to_multiset().add(src@.to_multiset()) == orig.to_multiset(),
            forall|x: &VariantOption, y: &VariantOption| #[trigger] sort.requires((x, y)),
            answers_once(*sort),
            src@.len() <= orig.len(),
            out@.len() + src@.len() == orig.len(),
            placed(out@, orig, perm, len_int(src@)),
            preorder_on(orig, *sort) ==> sorted_by(out@, *sort) && ties_ordered(out@, perm, *sort),
        decreases src@.len(),
    {
        let ghost s0 = src@;
        let x = src.pop().unwrap();
        let ghost si: int = len_int(src@);
        proof {
            assert(s0 =~= src@.push(x));
            vstd::seq_lib::to_multiset_build(src@, x);
            assert(src@ =~= take_n(orig, src@.len()));
            assert(orig[si] == x);
        }
        // First position whose rule does not sort before `x`.
        let mut lo: usize = 0;
        let mut hi: usize = out.len();
        while lo < hi
            invariant
                lo <= hi <= out@.len(),
                0 <= si < orig.len(),
                orig[si] == x,
                forall|x: &VariantOption, y: &VariantOption| #[trigger] sort.requires((x, y)),
                answers_once(*sort),
                placed(out@, orig, perm, si + 1),
                preorder_on(orig, *sort) ==> sorted_by(out@, *sort),
                preorder_on(orig, *sort) ==> forall|k: int|
                    0 <= k < lo ==> rule_order((#[trigger] out@[k]).0, x.0, *sort)
                        == core::cmp::Ordering::Less,
                preorder_on(orig, *sort) ==> forall|k: int|
                    hi <= k < out@.len() ==> rule_order((#[trigger] out@[k]).0, x.0, *sort)
                        != core::cmp::Ordering::Less,
            decreases hi - lo,
        {
            let mid = lo + (hi - lo) / 2;
            let c = out[mid].0.compare_with(&x.0, sort);
            match c {
                core::cmp::Ordering::Less => {
                    proof {
                        if preorder_on(orig, *sort) {
                            lemma_below_by(out@, orig, perm, usize_int(mid), si, *sort);
                        }
                    }
                    lo = mid + 1;
                },
                _ => {
                    proof {
                        if preorder_on(orig, *sort) {
                            lemma_not_below_by(out@, orig, perm, usize_int(mid), si, *sort);
                        }
                    }
                    hi = mid;
                },
            }
        }
        let ghost o0 = out@;
        let ghost p0 = perm;
        out.insert(lo, x);
        proof {
            lemma_insert_multiset(o0, lo, x);
            lemma_insert_placed(o0, p0, usize_int(lo), si, orig);
            if preorder_on(orig, *sort) {
                lemma_insert_sorted_by(o0, p0, usize_int(lo), si, orig, *sort);
                lemma_insert_ties(o0, p0, usize_int(lo), si, orig, *sort);
            }
            perm = p0.insert(usize_int(lo), si);
            assert(out@ == o0.insert(usize_int(lo), orig[si]));
        }
    }
    proof {
        assert(src@.to_multiset() =~= Multiset::empty());
        assert(out@.to_multiset().add(Multiset::empty()) =~= out@.to_multiset());
        if preorder_on(orig, *sort) {
            assert(stable_perm_by(out@, orig, perm, *sort));
        }
    }
    out
}

impl Offsets {
    /// The final sort: remap arbitrary variant bits into alphabetical
    /// order, rank arbitrary properties alphabetically, then sort stably
    /// by `rule_order` with `sort` as the comparator of every comparator
    /// group. Where `rule_order` is a total preorder on the prepared rules
    /// (as a sort needs its order to be), the output is in that order with
    /// ties in input order.
    pub fn sort_with<T, F>(&self, list: Vec<(RuleOffset, T)>, sort: &F) -> (out: Vec<(RuleOffset, T)>) where
        F: Fn(&VariantOption, &VariantOption) -> core::cmp::Ordering,

        requires
            forall|x: &VariantOption, y: &VariantOption| #[trigger] sort.requires((x, y)),
            answers_once(*sort),
            list@.len() < u32::MAX,
        ensures
            exists|names: Seq<Seq<char>>, vals: Seq<VarBits>, props: Seq<Seq<char>>|
                {
                    &&& remap_plan(self.variants_map(), names, vals)
                    &&& props_plan(list@, props)
                    &&& out@.to_multiset() == prepared(
                        list@,
                        remapping_of(self.variants_map(), names, vals),
                        props,
                    ).to_multiset()
                    &&& preorder_on(
                        prepared(list@, remapping_of(self.variants_map(), names, vals), props),
                        *sort,
                    ) ==> sorted_by(out@, *sort) && exists|perm: Seq<int>|
                        stable_perm_by(
                            out@,
                            prepared(list@, remapping_of(self.variants_map(), names, vals), props),
                            perm,
                            *sort,
                        )
                    &&& no_sort_options(list@) ==> exists|perm: Seq<int>|
                        stable_perm(
                            out@,
                            prepared(list@, remapping_of(self.variants_map(), names, vals), props),
                            perm,
                        )
                },
            no_sort_options(list@) ==> cascade_sorted(out@),
    {
        let mapping = self.recalculate_variant_offsets();
        let props = sorted_properties(&list);
        let ghost orig = list@;
        let prepared_list = prepare_all(list, &mapping, &props);
        let ghost pl = prepared_list@;
        proof {
            assert forall|i: int| #![trigger pl[i]] no_sort_options(orig) && 0 <= i < pl.len()
                implies option_stack(pl[i].0.options).len() == 0 by {
                assert(option_stack(orig[i].0.options).len() == 0);
            }
            if no_sort_options(orig) {
                assert(no_sort_options(pl));
                lemma_plain_order(pl, *sort);
            }
        }
        let out = stable_sort(prepared_list, sort);
        proof {
            if no_sort_options(orig) {
                let perm = choose|perm: Seq<int>| stable_perm_by(out@, pl, perm, *sort);
                lemma_by_cascade(out@, pl, perm, *sort);
            }
        }
        out
    }

    /// The final sort with every comparator group taken as a tie: remap,
    /// rank properties, then sort stably by the fixed cascade.
    pub fn sort<T>(&self, list: Vec<(RuleOffset, T)>) -> (out: Vec<(RuleOffset, T)>)
        requires
            list@.len() < u32::MAX,
        ensures
            exists|names: Seq<Seq<char>>, vals: Seq<VarBits>, props: Seq<Seq<char>>|
                {
                    &&& remap_plan(self.variants_map(), names, vals)
                    &&& props_plan(list@, props)
                    &&& out@.to_multiset() == prepared(
                        list@,
                        remapping_of(self.variants_map(), names, vals),
                        props,
                    ).to_multiset()
                    &&& exists|perm: Seq<int>|
                        stable_perm(
                            out@,
                            prepared(list@, remapping_of(self.variants_map(), names, vals), props),
                            perm,
                        )
                },
            cascade_sorted(out@),
    {
        let ties = |_a: &VariantOption, _b: &VariantOption| -> (r: core::cmp::Ordering)
            ensures
                r == core::cmp::Ordering::Equal,
            { core::cmp::Ordering::Equal };
        let out = self.sort_with(list, &ties);
        proof {
            let (names, vals, props) = choose|names: Seq<Seq<char>>, vals: Seq<VarBits>, props: Seq<Seq<char>>|
                {
                    &&& remap_plan(self.variants_map(), names, vals)
                    &&& props_plan(list@, props)
                    &&& out@.to_multiset() == prepared(
                        list@,
                        remapping_of(self.variants_map(), names, vals),
                        props,
                    ).to_multiset()
                    &&& preorder_on(
                        prepared(list@, remapping_of(self.variants_map(), names, vals), props),
                        ties,
                    ) ==> sorted_by(out@, ties) && exists|perm: Seq<int>|
                        stable_perm_by(
                            out@,
                            prepared(list@, remapping_of(self.variants_map(), names, vals), props),
                            perm,
                            ties,
                        )
                    &&& no_sort_options(list@) ==> exists|perm: Seq<int>|
                        stable_perm(
                            out@,
                            prepared(list@, remapping_of(self.variants_map(), names, vals), props),
                            perm,
                        )
                };
            let pl = prepared(list@, remapping_of(self.variants_map(), names, vals), props);
            lemma_tie_order(pl, ties);
            let perm = choose|perm: Seq<int>| stable_perm_by(out@, pl, perm, ties);
            lemma_by_cascade(out@, pl, perm, ties);
        }
        out
    }
}

} // verus!
