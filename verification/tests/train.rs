use train_service::booking_reference::BookingReference;
use train_service::train::{
    Error, Reservation, Seat, SeatId, Train, TrainDataService, TrainId, TrainsData,
};

fn train_with_free_seat() -> Train {
    let mut train = Train::new();
    assert!(train.add_seat(SeatId::new("1A"), Seat::new("1", "A", None)));
    train
}

#[test]
fn test_train_doesnt_exist() {
    let service = TrainDataService::new(TrainsData::new());
    let train_id = TrainId::new("doesnt_exist");
    let train = service.train(&train_id).unwrap_err();
    assert_eq!(train, Error::TrainDoesNotExist(train_id));
}

#[test]
fn test_train_does_exist() {
    let mut train = Train::new();
    assert!(train.add_seat(
        SeatId::new("1A"),
        Seat::new("1", "A", Some(BookingReference::new("123456"))),
    ));
    let mut trains = TrainsData::new();
    let train_id = TrainId::new("train_id");
    assert!(trains.add_train(train_id.clone(), train));
    let service = TrainDataService::new(trains);
    let train = service.train(&train_id).unwrap();
    let mut expected = Train::new();
    assert!(expected.add_seat(
        SeatId::new("1A"),
        Seat::new("1", "A", Some(BookingReference::new("123456"))),
    ));
    assert_eq!(train, &expected);
}

#[test]
fn test_reserve_seat() {
    let mut train = train_with_free_seat();
    train
        .reserve(&Reservation {
            seats: vec![SeatId::new("1A")],
            booking_reference: BookingReference::new("123456"),
        })
        .unwrap();
    let seat = train.get(&SeatId::new("1A")).unwrap();
    assert_eq!(seat.booking_reference(), Some(&BookingReference::new("123456")));
}

#[test]
fn test_reserve_when_already_reserved() {
    let mut train = Train::new();
    assert!(train.add_seat(
        SeatId::new("1A"),
        Seat::new("1", "A", Some(BookingReference::new("existing"))),
    ));
    let result = train.reserve(&Reservation {
        seats: vec![SeatId::new("1A")],
        booking_reference: BookingReference::new("new"),
    });
    assert_eq!(result, Err(Error::SeatsAlreadyReserved(vec![SeatId::new("1A")])));
}

#[test]
fn test_reserve_stamps_all_named_seats_and_no_other() {
    let mut train = Train::new();
    assert!(train.add_seat(SeatId::new("1A"), Seat::new("1", "A", None)));
    assert!(train.add_seat(SeatId::new("2B"), Seat::new("2", "B", None)));
    assert!(train.add_seat(SeatId::new("3C"), Seat::new("3", "C", None)));
    let result = train.reserve(&Reservation {
        seats: vec![SeatId::new("1A"), SeatId::new("3C")],
        booking_reference: BookingReference::new("abc"),
    });
    assert_eq!(result, Ok(()));
    assert_eq!(
        train.get(&SeatId::new("1A")).unwrap().booking_reference(),
        Some(&BookingReference::new("abc")),
    );
    assert_eq!(
        train.get(&SeatId::new("3C")).unwrap().booking_reference(),
        Some(&BookingReference::new("abc")),
    );
    assert_eq!(train.get(&SeatId::new("2B")).unwrap().booking_reference(), None);
}

#[test]
fn test_reserve_missing_seats_reports_all_in_order() {
    let mut train = train_with_free_seat();
    let result = train.reserve(&Reservation {
        seats: vec![SeatId::new("2B"), SeatId::new("1A"), SeatId::new("3C")],
        booking_reference: BookingReference::new("abc"),
    });
    assert_eq!(
        result,
        Err(Error::SeatsDoNotExist(vec![SeatId::new("2B"), SeatId::new("3C")])),
    );
    assert_eq!(train.get(&SeatId::new("1A")).unwrap().booking_reference(), None);
}

#[test]
fn test_reserve_conflict_reports_all_in_order_without_mutation() {
    let mut train = Train::new();
    assert!(train.add_seat(
        SeatId::new("1A"),
        Seat::new("1", "A", Some(BookingReference::new("held"))),
    ));
    assert!(train.add_seat(SeatId::new("2B"), Seat::new("2", "B", None)));
    assert!(train.add_seat(
        SeatId::new("3C"),
        Seat::new("3", "C", Some(BookingReference::new("held"))),
    ));
    let result = train.reserve(&Reservation {
        seats: vec![SeatId::new("1A"), SeatId::new("2B"), SeatId::new("3C")],
        booking_reference: BookingReference::new("new"),
    });
    assert_eq!(
        result,
        Err(Error::SeatsAlreadyReserved(vec![SeatId::new("1A"), SeatId::new("3C")])),
    );
    assert_eq!(train.get(&SeatId::new("2B")).unwrap().booking_reference(), None);
    assert_eq!(
        train.get(&SeatId::new("1A")).unwrap().booking_reference(),
        Some(&BookingReference::new("held")),
    );
}

#[test]
fn test_existence_check_considers_full_seat_list() {
    let mut train = train_with_free_seat();
    let result = train.reserve(&Reservation {
        seats: vec![SeatId::new("1A"), SeatId::new("doesnotexist")],
        booking_reference: BookingReference::new("abc"),
    });
    assert_eq!(result, Err(Error::SeatsDoNotExist(vec![SeatId::new("doesnotexist")])));
    assert_eq!(train.get(&SeatId::new("1A")).unwrap().booking_reference(), None);
}

#[test]
fn test_reserve_duplicate_seat_ids_stamp_once() {
    let mut train = train_with_free_seat();
    let result = train.reserve(&Reservation {
        seats: vec![SeatId::new("1A"), SeatId::new("1A")],
        booking_reference: BookingReference::new("abc"),
    });
    assert_eq!(result, Ok(()));
    assert_eq!(
        train.get(&SeatId::new("1A")).unwrap().booking_reference(),
        Some(&BookingReference::new("abc")),
    );
}

#[test]
fn test_reset_frees_every_seat() {
    let mut train = Train::new();
    assert!(train.add_seat(
        SeatId::new("1A"),
        Seat::new("1", "A", Some(BookingReference::new("held"))),
    ));
    assert!(train.add_seat(SeatId::new("2B"), Seat::new("2", "B", None)));
    assert!(train.add_seat(
        SeatId::new("3C"),
        Seat::new("3", "C", Some(BookingReference::new("other"))),
    ));
    train.reset();
    assert_eq!(train.get(&SeatId::new("1A")).unwrap().booking_reference(), None);
    assert_eq!(train.get(&SeatId::new("2B")).unwrap().booking_reference(), None);
    assert_eq!(train.get(&SeatId::new("3C")).unwrap().booking_reference(), None);
    assert_eq!(train.len(), 3);
}

#[test]
fn test_reset_keeps_seat_display_data() {
    let mut train = Train::new();
    assert!(train.add_seat(
        SeatId::new("1A"),
        Seat::new("1", "A", Some(BookingReference::new("held"))),
    ));
    train.reset();
    let seat = train.get(&SeatId::new("1A")).unwrap();
    assert_eq!(seat.seat_number(), "1");
    assert_eq!(seat.coach(), "A");
}

#[test]
fn test_add_seat_refuses_duplicate_id() {
    let mut train = train_with_free_seat();
    assert!(!train.add_seat(SeatId::new("1A"), Seat::new("1", "A", None)));
    assert_eq!(train.len(), 1);
}
