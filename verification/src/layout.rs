//! Memory layouts of dynamic component fields.

use vstd::arithmetic::div_mod::{
    lemma_fundamental_div_mod, lemma_mod_multiples_basic,
};
use vstd::arithmetic::power2::{is_pow2, lemma_pow2_pos, pow2};
use vstd::bits::{lemma_usize_low_bits_mask_is_mod, low_bits_mask};
use vstd::layout::{align_of, layout_for_type_is_valid};
use vstd::prelude::*;

verus! {

/// Size and alignment of a block of memory, in bytes.
#[derive(Clone, Copy, Debug, PartialEq, Eq, Structural)]
pub struct Layout {
    pub size: usize,
    pub align: usize,
}

impl Layout {
    /// What an allocator accepts: a power of two as alignment, and a size that stays within the
    /// address space once it is padded to that alignment.
    pub open spec fn valid(self) -> bool {
        &&& is_pow2(self.align as int)
        &&& round_up(self.size as int, self.align as int) <= isize::MAX
    }
}

/// The least multiple of `align` that is not below `offset`.
pub open spec fn round_up(offset: int, align: int) -> int {
    (offset + align - 1) / align * align
}

/// `round_up` yields a multiple of `align`, at least `offset` and less than `align` above it.
pub proof fn lemma_round_up(offset: int, align: int)
    requires
        align > 0,
    ensures
        round_up(offset, align) % align == 0,
        offset <= round_up(offset, align) < offset + align,
{
    let y = offset + align - 1;
    lemma_fundamental_div_mod(y, align);
    assert(y / align * align == align * (y / align)) by (nonlinear_arith);
    lemma_mod_multiples_basic(y / align, align);
}

/// No multiple of `align` lies between `offset` and `round_up(offset, align)`.
pub proof fn law_round_up_is_least(offset: int, align: int, multiple: int)
    requires
        align > 0,
        multiple % align == 0,
        offset <= multiple,
    ensures
        round_up(offset, align) <= multiple,
{
    lemma_round_up(offset, align);
    let r = round_up(offset, align);
    if multiple < r {
        lemma_fundamental_div_mod(multiple, align);
        lemma_fundamental_div_mod(r, align);
        let a = multiple / align;
        let b = r / align;
        assert(false) by (nonlinear_arith)
            requires
                align > 0,
                multiple == align * a,
                r == align * b,
                multiple < r,
                r < multiple + align,
        ;
    }
}

/// Rounds `offset` up to a multiple of `align`, a power of two.
pub fn align_up(offset: usize, align: usize) -> (aligned: usize)
    requires
        is_pow2(align as int),
        offset + align <= usize::MAX,
    ensures
        aligned == round_up(offset as int, align as int),
{
    proof {
        vstd::arithmetic::power2::is_pow2_equiv(align as int);
        let k = choose|k: nat| vstd::arithmetic::power::pow(2, k) == align;
        vstd::arithmetic::power2::lemma_pow2(k);
        lemma_pow2_pos(k);
        if k >= usize::BITS {
            if k > usize::BITS {
                vstd::arithmetic::power2::lemma_pow2_strictly_increases(usize::BITS as nat, k);
            }
            vstd::arithmetic::power2::lemma2_to64();
            assert(usize::BITS == 32 || usize::BITS == 64);
            assert(false);
        }
        let y = (offset + align - 1) as usize;
        let m = (align - 1) as usize;
        assert(low_bits_mask(k) as usize == m);
        lemma_usize_low_bits_mask_is_mod(y, k);
        assert(y & !m == y - (y & m)) by (bit_vector);
        lemma_fundamental_div_mod(y as int, align as int);
        assert((y as int) / (align as int) * (align as int) == (align as int) * ((y as int) / (
        align as int))) by (nonlinear_arith);
    }
    (offset + align - 1) & !(align - 1)
}

/// The kinds of field that a dynamic component can have.
#[derive(Clone, Copy, Debug, PartialEq, Eq, Structural)]
pub enum LuauFieldType {
    Bool,
    Integer,
    Number,
    Vector4,
    String,
    Buffer(usize),
}

impl LuauFieldType {
    /// Bytes that a field of this kind takes.
    pub open spec fn spec_size(self) -> nat {
        match self {
            LuauFieldType::Bool => 1,
            LuauFieldType::Integer => 8,
            LuauFieldType::Number => 8,
            LuauFieldType::Vector4 => 16,
            LuauFieldType::String => 4,
            LuauFieldType::Buffer(n) => n as nat,
        }
    }

    /// Alignment of a field of this kind, which is up to the machine: numbers are aligned as
    /// integers of their width.
    pub open spec fn spec_align(self) -> nat {
        match self {
            LuauFieldType::Bool => 1,
            LuauFieldType::Integer => align_of::<i64>(),
            LuauFieldType::Number => align_of::<i64>(),
            LuauFieldType::Vector4 => align_of::<u32>(),
            LuauFieldType::String => align_of::<u32>(),
            LuauFieldType::Buffer(_) => 1,
        }
    }

    /// Layout of one field: a `bool`, a 64 bit integer, a double, four floats, an interned string
    /// key of 32 bits, or a byte array.
    pub fn layout(self) -> (layout: Layout)
        requires
            self.spec_size() <= isize::MAX,
        ensures
            layout.size == self.spec_size(),
            layout.align == self.spec_align(),
            layout.valid(),
    {
        learn_alignments();
        proof {
            lemma_field_align(self);
        }
        match self {
            LuauFieldType::Bool => Layout { size: 1, align: 1 },
            LuauFieldType::Integer => Layout { size: 8, align: core::mem::align_of::<i64>() },
            LuauFieldType::Number => Layout { size: 8, align: core::mem::align_of::<i64>() },
            LuauFieldType::Vector4 => Layout { size: 16, align: core::mem::align_of::<u32>() },
            LuauFieldType::String => Layout { size: 4, align: core::mem::align_of::<u32>() },
            LuauFieldType::Buffer(n) => Layout { size: n, align: 1 },
        }
    }
}

/// Whether `align` is a power of two of at most eight.
pub open spec fn small_power(align: int) -> bool {
    align == 1 || align == 2 || align == 4 || align == 8
}

/// What holds of the alignments of integers on every machine: they are powers of two that divide
/// the integers' sizes.
pub open spec fn alignments_valid() -> bool {
    &&& small_power(align_of::<u32>() as int)
    &&& align_of::<u32>() <= 4
    &&& small_power(align_of::<i64>() as int)
}

/// Learns that the alignments of this machine are valid.
pub fn learn_alignments()
    ensures
        alignments_valid(),
{
    layout_for_type_is_valid::<u32>();
    layout_for_type_is_valid::<i64>();
    proof {
        broadcast use vstd::layout::layout_of_primitives;

        lemma_divides_eight(align_of::<u32>() as int);
        lemma_divides_eight(align_of::<i64>() as int);
    }
}

/// The divisors of four and of eight.
proof fn lemma_divides_eight(align: int)
    requires
        align > 0,
    ensures
        8int % align == 0 ==> small_power(align),
        4int % align == 0 ==> small_power(align) && align <= 4,
{
    if align > 8 {
        vstd::arithmetic::div_mod::lemma_small_mod(8, align as nat);
        vstd::arithmetic::div_mod::lemma_small_mod(4, align as nat);
    } else {
        assert(8int % 3 == 2 && 8int % 5 == 3 && 8int % 6 == 2 && 8int % 7 == 1);
        assert(4int % 3 == 1 && 4int % 5 == 4 && 4int % 6 == 4 && 4int % 7 == 4 && 4int % 8 == 4);
    }
}

/// Field alignments are small powers of two, and field sizes are multiples of them.
pub proof fn lemma_field_align(ft: LuauFieldType)
    requires
        alignments_valid(),
    ensures
        1 <= ft.spec_align() <= 8,
        small_power(ft.spec_align() as int),
        is_pow2(ft.spec_align() as int),
        round_up(ft.spec_size() as int, ft.spec_align() as int) == ft.spec_size(),
{
    assert(is_pow2(1) && is_pow2(2) && is_pow2(4) && is_pow2(8)) by {
        reveal_with_fuel(is_pow2, 4);
    }
    match ft {
        LuauFieldType::Buffer(n) => {
            assert(round_up(n as int, 1) == n);
        },
        _ => {
            assert(round_up(1, 1) == 1) by (nonlinear_arith);
            assert(round_up(8, 1) == 8 && round_up(8, 2) == 8 && round_up(8, 4) == 8 && round_up(
                8,
                8,
            ) == 8) by (nonlinear_arith);
            assert(round_up(16, 1) == 16 && round_up(16, 2) == 16 && round_up(16, 4) == 16)
                by (nonlinear_arith);
            assert(round_up(4, 1) == 4 && round_up(4, 2) == 4 && round_up(4, 4) == 4)
                by (nonlinear_arith);
        },
    }
}

/// A field is as large, and aligned, as what it stores: a boolean, a 64-bit integer or number, four
/// numbers of 32 bits, a key of 32 bits, or as many bytes as a buffer has.
pub proof fn law_fields_are_laid_out_as_what_they_store(ft: LuauFieldType)
    ensures
        ft is Bool ==> ft.spec_size() == vstd::layout::size_of::<bool>() && ft.spec_align() == 1,
        ft is Integer || ft is Number ==> ft.spec_size() == vstd::layout::size_of::<i64>()
            && ft.spec_align() == align_of::<i64>(),
        ft is Vector4 ==> ft.spec_size() == 4 * vstd::layout::size_of::<u32>() && ft.spec_align()
            == align_of::<u32>(),
        ft is String ==> ft.spec_size() == vstd::layout::size_of::<u32>() && ft.spec_align()
            == align_of::<u32>(),
        ft matches LuauFieldType::Buffer(n) ==> ft.spec_size() == n && ft.spec_align() == 1,
{
    broadcast use vstd::layout::layout_of_primitives;

}

/// Rounding up gives the least multiple of the alignment that is not below the offset.
pub proof fn law_aligning(offset: usize, align: usize, aligned: usize, multiple: int)
    requires
        align > 0,
        call_ensures(align_up, (offset, align), aligned),
    ensures
        aligned >= offset,
        aligned as int % align as int == 0,
        multiple % align as int == 0 && multiple >= offset ==> aligned <= multiple,
{
    lemma_round_up(offset as int, align as int);
    if multiple % align as int == 0 && multiple >= offset {
        law_round_up_is_least(offset as int, align as int, multiple);
    }
}

/// A field takes as many bytes, aligned as such, as what it stores: a boolean, a 64-bit integer or
/// number, four numbers of 32 bits, a key of 32 bits, or the bytes of a buffer.
pub proof fn law_laying_out_a_field(ft: LuauFieldType, layout: Layout)
    requires
        call_ensures(LuauFieldType::layout, (ft,), layout),
    ensures
        ft is Bool ==> layout.size == vstd::layout::size_of::<bool>() && layout.align == 1,
        ft is Integer || ft is Number ==> layout.size == vstd::layout::size_of::<i64>()
            && layout.align == align_of::<i64>(),
        ft is Vector4 ==> layout.size == 4 * vstd::layout::size_of::<u32>() && layout.align
            == align_of::<u32>(),
        ft is String ==> layout.size == vstd::layout::size_of::<u32>() && layout.align
            == align_of::<u32>(),
        ft matches LuauFieldType::Buffer(n) ==> layout.size == n && layout.align == 1,
{
    law_fields_are_laid_out_as_what_they_store(ft);
}

} // verus!
