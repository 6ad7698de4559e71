//! The pure mapping from a domain error to a transport status code and a
//! human-readable message.

use vstd::prelude::*;
use vstd::string::StringExecFns;
use crate::train::{seat_ids_view, Error, SeatId};

verus! {

/// The ids joined with `", "`, in order.
pub open spec fn joined_ids(ids: Seq<Seq<char>>) -> Seq<char>
    decreases ids.len(),
{
    if ids.len() == 0 {
        Seq::empty()
    } else if ids.len() == 1 {
        ids[0]
    } else {
        joined_ids(ids.drop_last()) + ", "@ + ids.last()
    }
}

/// Renders a seat-id list as its ids joined with `", "`.
pub fn format_seat_ids(seats: &Vec<SeatId>) -> (r: String)
    ensures
        r@ == joined_ids(seat_ids_view(seats@)),
{
    let ghost ids = seat_ids_view(seats@);
    let mut r = String::new();
    let n = seats.len();
    let mut i: usize = 0;
    while i < n
        invariant
            i <= n,
            n == seats@.len(),
            ids == seat_ids_view(seats@),
            r@ == joined_ids(ids.take(i as int)),
        decreases n - i,
    {
        let ghost pre = r@;
        if i > 0 {
            r.append(", ");
        }
        r.append(seats[i].as_str());
        proof {
            assert(ids.take(i + 1).drop_last() =~= ids.take(i as int));
            assert(ids.take(i + 1).last() == ids[i as int]);
            assert(ids[i as int] == seats@[i as int]@);
            if i == 0 {
                assert(r@ =~= joined_ids(ids.take(1)));
            } else {
                assert(r@ =~= joined_ids(ids.take(i as int)) + ", "@ + ids[i as int]);
            }
        }
        i += 1;
    }
    proof {
        assert(ids.take(n as int) =~= ids);
    }
    r
}

/// The message that the transport layer surfaces for a domain error.
pub open spec fn error_message_spec(e: &Error) -> Seq<char> {
    match e {
        Error::TrainDoesNotExist(id) => "Train "@ + id@ + " does not exist"@,
        Error::SeatsDoNotExist(ids) => "Seats ["@ + joined_ids(seat_ids_view(ids@))
            + "] do not exist"@,
        Error::SeatsAlreadyReserved(ids) => "Seats ["@ + joined_ids(seat_ids_view(ids@))
            + "] are already reserved"@,
    }
}

/// Renders the human-readable message for a domain error, naming the exact
/// offending ids.
pub fn error_message(e: &Error) -> (r: String)
    ensures
        r@ == error_message_spec(e),
{
    match e {
        Error::TrainDoesNotExist(id) => {
            let mut r = String::from_str("Train ");
            r.append(id.as_str());
            r.append(" does not exist");
            proof {
                assert(r@ =~= error_message_spec(e));
            }
            r
        },
        Error::SeatsDoNotExist(ids) => {
            let mut r = String::from_str("Seats [");
            let joined = format_seat_ids(ids);
            r.append(joined.as_str());
            r.append("] do not exist");
            proof {
                assert(r@ =~= error_message_spec(e));
            }
            r
        },
        Error::SeatsAlreadyReserved(ids) => {
            let mut r = String::from_str("Seats [");
            let joined = format_seat_ids(ids);
            r.append(joined.as_str());
            r.append("] are already reserved");
            proof {
                assert(r@ =~= error_message_spec(e));
            }
            r
        },
    }
}

/// The transport status for a domain error: 404 for an unknown train, 400
/// for a rejected reservation.
pub open spec fn error_status_spec(e: &Error) -> u16 {
    match e {
        Error::TrainDoesNotExist(_) => 404,
        Error::SeatsDoNotExist(_) => 400,
        Error::SeatsAlreadyReserved(_) => 400,
    }
}

/// The transport status code for a domain error.
pub fn error_status(e: &Error) -> (r: u16)
    ensures
        r == error_status_spec(e),
{
    match e {
        Error::TrainDoesNotExist(_) => 404,
        Error::SeatsDoNotExist(_) => 400,
        Error::SeatsAlreadyReserved(_) => 400,
    }
}

} // verus!
