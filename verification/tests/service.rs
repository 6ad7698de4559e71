use train_service::booking_reference::BookingReference;
use train_service::messages::{error_message, error_status};
use train_service::train::{
    Error, Reservation, Seat, SeatId, Train, TrainDataService, TrainId, TrainsData,
};

fn local_1000_service() -> TrainDataService {
    let mut train = Train::new();
    assert!(train.add_seat(SeatId::new("1A"), Seat::new("1", "A", None)));
    assert!(train.add_seat(SeatId::new("2B"), Seat::new("2", "B", None)));
    let mut trains = TrainsData::new();
    assert!(trains.add_train(TrainId::new("local_1000"), train));
    TrainDataService::new(trains)
}

#[test]
fn test_train_local_1000_get() {
    let service = local_1000_service();
    let train = service.train(&TrainId::new("local_1000")).unwrap();
    let mut expected = Train::new();
    assert!(expected.add_seat(SeatId::new("1A"), Seat::new("1", "A", None)));
    assert!(expected.add_seat(SeatId::new("2B"), Seat::new("2", "B", None)));
    assert_eq!(train, &expected);
}

#[test]
fn test_train_does_not_exist() {
    let service = local_1000_service();
    let error = service.train(&TrainId::new("does_not_exist")).unwrap_err();
    assert_eq!(error, Error::TrainDoesNotExist(TrainId::new("does_not_exist")));
    assert_eq!(error_status(&error), 404);
    assert_eq!(error_message(&error), "Train does_not_exist does not exist");
}

#[test]
fn test_reserve() {
    let mut service = local_1000_service();
    let train_id = TrainId::new("local_1000");
    let train = service.train_mut(&train_id).unwrap();
    train
        .reserve(&Reservation {
            seats: vec![SeatId::new("1A")],
            booking_reference: BookingReference::new("123456"),
        })
        .unwrap();
    let train = service.train(&train_id).unwrap();
    assert_eq!(
        train.get(&SeatId::new("1A")).unwrap().booking_reference(),
        Some(&BookingReference::new("123456")),
    );
}

#[test]
fn test_reserve_seat_does_not_exist() {
    let mut service = local_1000_service();
    let train = service.train_mut(&TrainId::new("local_1000")).unwrap();
    let error = train
        .reserve(&Reservation {
            seats: vec![SeatId::new("does_not_exist")],
            booking_reference: BookingReference::new("123456"),
        })
        .unwrap_err();
    assert_eq!(error_status(&error), 400);
    assert_eq!(error_message(&error), "Seats [does_not_exist] do not exist");
}

#[test]
fn test_reserve_seat_already_reserved() {
    let mut service = local_1000_service();
    let train_id = TrainId::new("local_1000");

    let train = service.train_mut(&train_id).unwrap();
    train
        .reserve(&Reservation {
            seats: vec![SeatId::new("1A")],
            booking_reference: BookingReference::new("123456"),
        })
        .unwrap();

    let train = service.train_mut(&train_id).unwrap();
    let error = train
        .reserve(&Reservation {
            seats: vec![SeatId::new("1A")],
            booking_reference: BookingReference::new("123456"),
        })
        .unwrap_err();
    assert_eq!(error, Error::SeatsAlreadyReserved(vec![SeatId::new("1A")]));
    assert_eq!(error_status(&error), 400);
    assert_eq!(error_message(&error), "Seats [1A] are already reserved");
}

#[test]
fn test_other_train_untouched_by_reserve() {
    let mut train_a = Train::new();
    assert!(train_a.add_seat(SeatId::new("1A"), Seat::new("1", "A", None)));
    let mut train_b = Train::new();
    assert!(train_b.add_seat(SeatId::new("1A"), Seat::new("1", "A", None)));
    let mut trains = TrainsData::new();
    assert!(trains.add_train(TrainId::new("local_1000"), train_a));
    assert!(trains.add_train(TrainId::new("express_2000"), train_b));
    let mut service = TrainDataService::new(trains);

    let train = service.train_mut(&TrainId::new("local_1000")).unwrap();
    train
        .reserve(&Reservation {
            seats: vec![SeatId::new("1A")],
            booking_reference: BookingReference::new("123456"),
        })
        .unwrap();

    let other = service.train(&TrainId::new("express_2000")).unwrap();
    assert_eq!(other.get(&SeatId::new("1A")).unwrap().booking_reference(), None);
}
