use move_clippy::absint::{CapValue, DivisorValue, EscapeKind, EscapeValue, FreshAddressValue, PriceValidationValue, ZeroCheckValue};

#[test]
fn test_cap_value_lattice_ordering() {
    let loc = ();

    // Unused < AccessedNotValidated < PendingValidation < Validated
    assert!(CapValue::Unused < CapValue::AccessedNotValidated(loc));
    assert!(CapValue::AccessedNotValidated(loc) < CapValue::PendingValidation(loc));
    assert!(CapValue::PendingValidation(loc) < CapValue::Validated(loc));
}

#[test]
fn test_cap_value_join() {
    let loc = ();

    // Validated wins (optimistic)
    assert!(matches!(CapValue::join(&CapValue::Validated(loc), &CapValue::Unused), CapValue::Validated(_)));
    assert!(matches!(CapValue::join(&CapValue::Unused, &CapValue::Validated(loc)), CapValue::Validated(_)));
    assert!(matches!(CapValue::join(&CapValue::Validated(loc), &CapValue::AccessedNotValidated(loc)), CapValue::Validated(_)));

    // PendingValidation next
    assert!(matches!(CapValue::join(&CapValue::PendingValidation(loc), &CapValue::Unused), CapValue::PendingValidation(_)));
    assert!(matches!(CapValue::join(&CapValue::PendingValidation(loc), &CapValue::AccessedNotValidated(loc)), CapValue::PendingValidation(_)));

    // AccessedNotValidated next
    assert!(matches!(CapValue::join(&CapValue::AccessedNotValidated(loc), &CapValue::Unused), CapValue::AccessedNotValidated(_)));

    // Both unused
    assert!(matches!(CapValue::<()>::join(&CapValue::Unused, &CapValue::Unused), CapValue::Unused));
}

#[test]
fn test_divisor_value_join() {
    assert_eq!(DivisorValue::join(&DivisorValue::Validated, &DivisorValue::Validated), DivisorValue::Validated);
    assert_eq!(DivisorValue::join(&DivisorValue::Constant, &DivisorValue::Constant), DivisorValue::Constant);
    assert_eq!(DivisorValue::join(&DivisorValue::Validated, &DivisorValue::Unknown), DivisorValue::Unknown);
    assert_eq!(DivisorValue::join(&DivisorValue::Constant, &DivisorValue::Validated), DivisorValue::Validated);
}

#[test]
fn cap_join_keeps_the_first_location_on_a_tie() {
    assert_eq!(CapValue::join(&CapValue::Validated(1u32), &CapValue::Validated(2u32)), CapValue::Validated(1));
    assert_eq!(CapValue::join(&CapValue::Unused, &CapValue::PendingValidation(7u32)), CapValue::PendingValidation(7));
    assert_eq!(CapValue::<u32>::default(), CapValue::Unused);
}

#[test]
fn zero_checks_meet_pessimistically() {
    assert_eq!(ZeroCheckValue::join(&ZeroCheckValue::CheckedZero, &ZeroCheckValue::ConstantZero), ZeroCheckValue::CheckedZero);
    assert_eq!(ZeroCheckValue::join(&ZeroCheckValue::ConstantZero, &ZeroCheckValue::ConstantZero), ZeroCheckValue::ConstantZero);
    assert_eq!(ZeroCheckValue::join(&ZeroCheckValue::Unknown, &ZeroCheckValue::ConstantZero), ZeroCheckValue::Unknown);
}

#[test]
fn used_fresh_address_wins_a_join() {
    assert_eq!(FreshAddressValue::join(&FreshAddressValue::Fresh(1u32), &FreshAddressValue::UsedOnce(2)), FreshAddressValue::UsedOnce(2));
    assert_eq!(FreshAddressValue::<u32>::join(&FreshAddressValue::NotFresh, &FreshAddressValue::NotFresh), FreshAddressValue::NotFresh);
}

#[test]
fn most_severe_escape_wins_a_join() {
    assert_eq!(
        EscapeValue::join(&EscapeValue::Contained(1u32), &EscapeValue::EscapedSuspicious(2)),
        EscapeValue::EscapedSuspicious(2)
    );
    assert_eq!(EscapeKind::ToSharedObject.severity(), "dangerous");
    assert_eq!(EscapeKind::UnconditionalTransfer.description(), "capability transferred without authorization check");
}

#[test]
fn validated_price_wins_a_join() {
    assert_eq!(
        PriceValidationValue::join(&PriceValidationValue::Unvalidated(1u32), &PriceValidationValue::Validated(2)),
        PriceValidationValue::Validated(2)
    );
}
