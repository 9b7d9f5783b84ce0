//! The parts of the widgets that decide rather than draw: widget identity,
//! text-field editing, and the state changes of dropdowns, toggles and tabs.
use vstd::prelude::*;

pub mod logic;
pub mod text_field;

verus! {

/// A stable identity for a widget, derived from a label.
#[derive(Clone, Copy, Debug, PartialEq, Eq, Structural, Hash)]
pub struct WidgetId(pub u64);

/// The 64-bit FNV-1a offset basis.
pub const FNV_OFFSET: u64 = 0xcbf2_9ce4_8422_2325;

/// The 64-bit FNV-1a prime.
pub const FNV_PRIME: u64 = 0x0100_0000_01b3;

/// The 64-bit FNV-1a hash of `bytes`.
pub open spec fn fnv1a(bytes: Seq<u8>) -> u64
    decreases bytes.len(),
{
    if bytes.len() == 0 {
        FNV_OFFSET
    } else {
        vstd::wrapping::u64_specs::wrapping_mul(
            fnv1a(bytes.drop_last()) ^ (bytes.last() as u64),
            FNV_PRIME,
        )
    }
}

impl WidgetId {
    /// The id of a widget labelled `label`: the FNV-1a hash of the label's
    /// UTF-8 bytes.
    pub fn of(label: &str) -> (id: Self)
        ensures
            id.0 == fnv1a(vstd::utf8::encode_utf8(label@)),
    {
        let bytes = label.as_bytes();
        let mut h: u64 = FNV_OFFSET;
        let mut i: usize = 0;
        while i < bytes.len()
            invariant
                i <= bytes@.len(),
                bytes@ == vstd::utf8::encode_utf8(label@),
                h == fnv1a(bytes@.take(i as int)),
            decreases bytes@.len() - i,
        {
            let b = bytes[i];
            proof {
                assert(bytes@.take(i + 1).drop_last() =~= bytes@.take(i as int));
            }
            h ^= b as u64;
            h = h.wrapping_mul(FNV_PRIME);
            i += 1;
        }
        proof {
            assert(bytes@.take(bytes@.len() as int) =~= bytes@);
        }
        Self(h)
    }
}

} // verus!
