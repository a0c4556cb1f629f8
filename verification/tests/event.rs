use minivm::event::fastint::{
    extract_int_from_ssr, handler_table_offset, is_l2_interrupt, l2_to_global_int,
};
use minivm::event::vectors::{
    is_interrupt_vector, vector_action, vector_offset, ExceptionVector, VectorAction,
    VECTOR_TABLE_BYTES,
};

#[test]
fn test_is_l2_interrupt() {
    assert!(!is_l2_interrupt(0));
    assert!(!is_l2_interrupt(15));
    assert!(!is_l2_interrupt(31));
    assert!(is_l2_interrupt(32));
    assert!(is_l2_interrupt(100));
}

#[test]
fn test_l2_to_global() {
    assert_eq!(l2_to_global_int(0), 32);
    assert_eq!(l2_to_global_int(5), 37);
    assert_eq!(l2_to_global_int(255), 287);
}

#[test]
fn test_extract_int_from_ssr() {
    assert_eq!(extract_int_from_ssr(0x00), 0);
    assert_eq!(extract_int_from_ssr(0x10), 16);
    assert_eq!(extract_int_from_ssr(0x1F), 31);
    assert_eq!(extract_int_from_ssr(0xFF), 31);
}

#[test]
fn test_handler_table_offset() {
    assert_eq!(handler_table_offset(0), 0);
    assert_eq!(handler_table_offset(1), 8);
    assert_eq!(handler_table_offset(31), 248);
}

#[test]
fn test_vector_action_exceptions() {
    assert_eq!(vector_action(0), VectorAction::Reset);
    assert_eq!(vector_action(1), VectorAction::Nmi);
    assert_eq!(vector_action(2), VectorAction::Error);
    assert_eq!(vector_action(4), VectorAction::TlbMissX);
    assert_eq!(vector_action(6), VectorAction::TlbMissRW);
    assert_eq!(vector_action(8), VectorAction::Trap0);
    assert_eq!(vector_action(9), VectorAction::Trap1);
    assert_eq!(vector_action(12), VectorAction::Debug);
}

#[test]
fn test_vector_action_reserved() {
    assert_eq!(vector_action(3), VectorAction::Reserved);
    assert_eq!(vector_action(5), VectorAction::Reserved);
    assert_eq!(vector_action(10), VectorAction::Reserved);
    assert_eq!(vector_action(13), VectorAction::Reserved);
    assert_eq!(vector_action(14), VectorAction::Reserved);
    assert_eq!(vector_action(15), VectorAction::Reserved);
}

#[test]
fn test_vector_action_interrupts() {
    for i in 16..=47 {
        assert_eq!(vector_action(i), VectorAction::Interrupt);
    }
}

#[test]
fn test_vector_action_out_of_range() {
    assert_eq!(vector_action(48), VectorAction::Reserved);
    assert_eq!(vector_action(255), VectorAction::Reserved);
}

#[test]
fn test_vector_offset() {
    assert_eq!(vector_offset(0), 0);
    assert_eq!(vector_offset(8), 32);
    assert_eq!(vector_offset(16), 64);
}

#[test]
fn test_is_interrupt_vector() {
    assert!(!is_interrupt_vector(0));
    assert!(!is_interrupt_vector(9));
    assert!(!is_interrupt_vector(15));
    assert!(is_interrupt_vector(16));
    assert!(is_interrupt_vector(31));
    assert!(is_interrupt_vector(47));
    assert!(!is_interrupt_vector(48));
}

#[test]
fn test_table_size() {
    assert_eq!(VECTOR_TABLE_BYTES, 192);
}

#[test]
fn vector_errors_for_fp_and_dma_entries() {
    assert_eq!(vector_action(7), VectorAction::Error);
    assert_eq!(vector_action(11), VectorAction::Error);
}

#[test]
fn interrupt_entries_agree_with_actions() {
    for i in 0..300u32 {
        assert_eq!(is_interrupt_vector(i), vector_action(i) == VectorAction::Interrupt);
    }
}

#[test]
fn exception_vector_indices() {
    assert_eq!(ExceptionVector::Reset.index(), 0);
    assert_eq!(ExceptionVector::Trap0.index(), 8);
    assert_eq!(ExceptionVector::Rsvd15.index(), 15);
}
