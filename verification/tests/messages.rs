use train_service::messages::{error_message, error_status, format_seat_ids};
use train_service::train::{Error, SeatId, TrainId};

#[test]
fn test_format_seat_ids_joins_with_comma_space() {
    let seats = vec![SeatId::new("1A"), SeatId::new("2B"), SeatId::new("3C")];
    assert_eq!(format_seat_ids(&seats), "1A, 2B, 3C");
}

#[test]
fn test_format_seat_ids_single() {
    let seats = vec![SeatId::new("1A")];
    assert_eq!(format_seat_ids(&seats), "1A");
}

#[test]
fn test_format_seat_ids_empty() {
    let seats: Vec<SeatId> = Vec::new();
    assert_eq!(format_seat_ids(&seats), "");
}

#[test]
fn test_train_does_not_exist_message() {
    let error = Error::TrainDoesNotExist(TrainId::new("ghost"));
    assert_eq!(error_status(&error), 404);
    assert_eq!(error_message(&error), "Train ghost does not exist");
}

#[test]
fn test_seats_do_not_exist_message() {
    let error = Error::SeatsDoNotExist(vec![SeatId::new("9Z"), SeatId::new("8Y")]);
    assert_eq!(error_status(&error), 400);
    assert_eq!(error_message(&error), "Seats [9Z, 8Y] do not exist");
}

#[test]
fn test_seats_already_reserved_message() {
    let error = Error::SeatsAlreadyReserved(vec![SeatId::new("1A")]);
    assert_eq!(error_status(&error), 400);
    assert_eq!(error_message(&error), "Seats [1A] are already reserved");
}
