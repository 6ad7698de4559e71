//! Train-seat booking: booking-reference issuance, seat reservation with
//! existence and conflict checks, and the error messages surfaced to callers.

pub mod booking_reference;
pub mod messages;
pub mod train;
