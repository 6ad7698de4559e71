use train_service::booking_reference::{BookingReference, BookingReferenceService};

#[test]
fn test_booking_number_looks_like_a_suitable_string() {
    let mut service = BookingReferenceService::new(123456789);
    let booking_reference = service.booking_reference();
    assert_eq!(booking_reference, BookingReference::new("75bcd16"));
}

#[test]
fn test_booking_number_is_unique() {
    let mut service = BookingReferenceService::new(123456789);
    let booking_reference1 = service.booking_reference();
    let booking_reference2 = service.booking_reference();
    assert_ne!(booking_reference1, booking_reference2);
}

#[test]
fn test_first_reference_from_zero_is_one() {
    let mut service = BookingReferenceService::new(0);
    let booking_reference = service.booking_reference();
    assert_eq!(booking_reference.as_str(), "1");
}

#[test]
fn test_reference_carries_into_new_hex_digit() {
    let mut service = BookingReferenceService::new(255);
    let booking_reference = service.booking_reference();
    assert_eq!(booking_reference.as_str(), "100");
}

#[test]
fn test_references_stay_distinct_over_many_calls() {
    let mut service = BookingReferenceService::new(10);
    let mut seen: Vec<BookingReference> = Vec::new();
    for _ in 0..20 {
        let fresh = service.booking_reference();
        for earlier in &seen {
            assert_ne!(earlier, &fresh);
        }
        seen.push(fresh);
    }
}
