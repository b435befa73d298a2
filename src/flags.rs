//! Widget state flags and the bit algebra used to reason about them.
use vstd::prelude::*;

verus! {

pub type Flags = u16;

/// Default flags for widgets added to containers ( ENABLED | VISIBLE )
pub const WIDGET: Flags = 0b00011000;
/// Default flags for widgets added to containers, with signal handling enabled
/// ( ENABLED | VISIBLE | SIGNAL )
pub const WIDGET_S: Flags = 0b00011001;

pub const SIGNAL: Flags = 0b00000001;
pub const DRAW: Flags = 0b00000010;
pub const UPDATE: Flags = 0b00000100;
pub const VISIBLE: Flags = 0b00001000;
pub const ENABLED: Flags = 0b00010000;
pub const HOVER: Flags = 0b00100000;
pub const GRAB: Flags = 0b01000000;
pub const FOCUS: Flags = 0b10000000;
pub const LAYOUT: Flags = 0b00000001_00000000;
pub const PREV_LAYOUT: Flags = 0b00000010_00000000;
/// A relayout was requested below a container and must happen at its level
pub const PARTIAL: Flags = 0b00000100_00000000;

/// True when every bit of `mask` is set in `f`.
pub open spec fn holds(f: Flags, mask: Flags) -> bool {
    f & mask == mask
}

/// True when `b` has exactly one bit set.
pub open spec fn is_bit(b: Flags) -> bool {
    b != 0 && b & ((b - 1) as u16) == 0
}

/// How the bitwise operators act on one flag bit.
pub proof fn lemma_flag_algebra()
    by (bit_vector)
    ensures
        forall|f: Flags, m: Flags, b: Flags|
            is_bit(b) ==> (#[trigger] holds(f | m, b) == (holds(f, b) || holds(m, b))),
        forall|f: Flags, m: Flags, b: Flags|
            is_bit(b) ==> (#[trigger] holds(f & m, b) == (holds(f, b) && holds(m, b))),
        forall|f: Flags, m: Flags, b: Flags|
            is_bit(b) ==> (#[trigger] holds(f ^ m, b) == (holds(f, b) != holds(m, b))),
        forall|m: Flags, b: Flags| is_bit(b) ==> (#[trigger] holds(!m, b) == !holds(m, b)),
        forall|a: Flags, b: Flags| is_bit(a) && is_bit(b) ==> (#[trigger] holds(a, b) == (a == b)),
        forall|f: Flags, m: Flags, n: Flags|
            #[trigger] holds(f, m | n) == (holds(f, m) && holds(f, n)),
        forall|f: Flags, b: Flags| is_bit(b) ==> (#[trigger] (f & b) != 0) == holds(f, b),
{
}

/// Every named flag is a single bit.
pub proof fn lemma_named_bits()
    by (bit_vector)
    ensures
        is_bit(SIGNAL),
        is_bit(DRAW),
        is_bit(UPDATE),
        is_bit(VISIBLE),
        is_bit(ENABLED),
        is_bit(HOVER),
        is_bit(GRAB),
        is_bit(FOCUS),
        is_bit(LAYOUT),
        is_bit(PREV_LAYOUT),
        is_bit(PARTIAL),
        WIDGET == ENABLED | VISIBLE,
        WIDGET_S == ENABLED | VISIBLE | SIGNAL,
{
}

} // verus!
