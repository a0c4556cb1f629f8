//! The exception vector table: 16 exception entries followed by 32 L1
//! interrupt entries, one 4-byte jump each.

use vstd::prelude::*;

verus! {

/// Exception vectors, in table order (index 0 to 15).
#[derive(Clone, Copy, Debug, PartialEq, Eq)]
pub enum ExceptionVector {
    Reset,
    Nmi,
    Error,
    Rsvd3,
    TlbMissX,
    Rsvd5,
    TlbMissRW,
    /// DMA TLB miss or error.
    DmaTlbOrError,
    Trap0,
    Trap1,
    Rsvd10,
    /// Floating-point trap or error.
    FpTrap,
    Debug,
    Rsvd13,
    Rsvd14,
    Rsvd15,
}

impl ExceptionVector {
    pub open spec fn spec_index(self) -> u8 {
        match self {
            ExceptionVector::Reset => 0,
            ExceptionVector::Nmi => 1,
            ExceptionVector::Error => 2,
            ExceptionVector::Rsvd3 => 3,
            ExceptionVector::TlbMissX => 4,
            ExceptionVector::Rsvd5 => 5,
            ExceptionVector::TlbMissRW => 6,
            ExceptionVector::DmaTlbOrError => 7,
            ExceptionVector::Trap0 => 8,
            ExceptionVector::Trap1 => 9,
            ExceptionVector::Rsvd10 => 10,
            ExceptionVector::FpTrap => 11,
            ExceptionVector::Debug => 12,
            ExceptionVector::Rsvd13 => 13,
            ExceptionVector::Rsvd14 => 14,
            ExceptionVector::Rsvd15 => 15,
        }
    }

    /// Position of the vector in the table.
    pub fn index(self) -> (r: u8)
        ensures
            r == self.spec_index(),
    {
        match self {
            ExceptionVector::Reset => 0,
            ExceptionVector::Nmi => 1,
            ExceptionVector::Error => 2,
            ExceptionVector::Rsvd3 => 3,
            ExceptionVector::TlbMissX => 4,
            ExceptionVector::Rsvd5 => 5,
            ExceptionVector::TlbMissRW => 6,
            ExceptionVector::DmaTlbOrError => 7,
            ExceptionVector::Trap0 => 8,
            ExceptionVector::Trap1 => 9,
            ExceptionVector::Rsvd10 => 10,
            ExceptionVector::FpTrap => 11,
            ExceptionVector::Debug => 12,
            ExceptionVector::Rsvd13 => 13,
            ExceptionVector::Rsvd14 => 14,
            ExceptionVector::Rsvd15 => 15,
        }
    }
}

/// Number of exception entries.
pub const NUM_EXCEPTION_VECTORS: u32 = 16;

/// Number of L1 interrupt entries.
pub const NUM_INTERRUPT_VECTORS: u32 = 32;

/// Entries in the table.
pub const VECTOR_TABLE_SIZE: u32 = 48;

/// Bytes per entry.
pub const BYTES_PER_VECTOR: u32 = 4;

/// Bytes in the table.
pub const VECTOR_TABLE_BYTES: u32 = VECTOR_TABLE_SIZE * BYTES_PER_VECTOR;

/// How an entry of the table is handled.
#[derive(Clone, Copy, Debug, PartialEq, Eq)]
pub enum VectorAction {
    Reset,
    Nmi,
    Error,
    TlbMissX,
    TlbMissRW,
    /// Semihosting trap.
    Trap0,
    /// VM trap.
    Trap1,
    Debug,
    /// An L1 interrupt.
    Interrupt,
    /// A reserved entry, handled as an error.
    Reserved,
}

/// The handling of entry `index`: entries 7 and 11 are errors, 16 to 47
/// interrupts, unassigned ones reserved.
pub open spec fn spec_vector_action(index: u32) -> VectorAction {
    if index == 0 {
        VectorAction::Reset
    } else if index == 1 {
        VectorAction::Nmi
    } else if index == 2 || index == 7 || index == 11 {
        VectorAction::Error
    } else if index == 4 {
        VectorAction::TlbMissX
    } else if index == 6 {
        VectorAction::TlbMissRW
    } else if index == 8 {
        VectorAction::Trap0
    } else if index == 9 {
        VectorAction::Trap1
    } else if index == 12 {
        VectorAction::Debug
    } else if 16 <= index <= 47 {
        VectorAction::Interrupt
    } else {
        VectorAction::Reserved
    }
}

/// How entry `index` of the vector table is handled.
pub fn vector_action(index: u32) -> (r: VectorAction)
    ensures
        r == spec_vector_action(index),
{
    match index {
        0 => VectorAction::Reset,
        1 => VectorAction::Nmi,
        2 => VectorAction::Error,
        4 => VectorAction::TlbMissX,
        6 => VectorAction::TlbMissRW,
        7 => VectorAction::Error,
        8 => VectorAction::Trap0,
        9 => VectorAction::Trap1,
        11 => VectorAction::Error,
        12 => VectorAction::Debug,
        16..=47 => VectorAction::Interrupt,
        _ => VectorAction::Reserved,
    }
}

/// Byte offset of entry `index`.
pub fn vector_offset(index: u32) -> (r: u32)
    requires
        index * BYTES_PER_VECTOR <= u32::MAX,
    ensures
        r == index * BYTES_PER_VECTOR,
{
    index * BYTES_PER_VECTOR
}

/// Whether entry `index` is an interrupt entry.
pub fn is_interrupt_vector(index: u32) -> (r: bool)
    ensures
        r == (NUM_EXCEPTION_VECTORS <= index < VECTOR_TABLE_SIZE),
{
    index >= NUM_EXCEPTION_VECTORS && index < VECTOR_TABLE_SIZE
}

/// An entry is an interrupt entry exactly when it is handled as an
/// interrupt.
pub proof fn law_interrupt_entries(index: u32)
    ensures
        (NUM_EXCEPTION_VECTORS <= index < VECTOR_TABLE_SIZE) == (spec_vector_action(index) == VectorAction::Interrupt),
{
}

} // verus!
