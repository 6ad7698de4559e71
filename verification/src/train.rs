//! The reservation domain: trains, seats, the two-pass reservation
//! transition, and the train lookup service.

use vstd::prelude::*;
use crate::booking_reference::BookingReference;

verus! {

/// Identifies a train; equality is exact string equality.
#[derive(Debug)]
pub struct TrainId {
    id: String,
}

impl View for TrainId {
    type V = Seq<char>;

    closed spec fn view(&self) -> Seq<char> {
        self.id@
    }
}

impl TrainId {
    pub fn new(id: &str) -> (r: Self)
        ensures
            r@ == id@,
    {
        TrainId { id: id.to_owned() }
    }

    /// The identifier as a plain string.
    pub fn as_str(&self) -> (r: &str)
        ensures
            r@ == self@,
    {
        self.id.as_str()
    }
}

impl Clone for TrainId {
    fn clone(&self) -> (r: Self)
        ensures
            r@ == self@,
    {
        TrainId { id: self.id.clone() }
    }
}

impl PartialEq for TrainId {
    fn eq(&self, other: &Self) -> bool {
        self.id == other.id
    }
}

impl vstd::std_specs::cmp::PartialEqSpecImpl for TrainId {
    open spec fn obeys_eq_spec() -> bool {
        true
    }

    open spec fn eq_spec(&self, other: &Self) -> bool {
        self@ == other@
    }
}

/// Identifies a seat within a single train; not globally unique.
#[derive(Debug)]
pub struct SeatId {
    id: String,
}

impl View for SeatId {
    type V = Seq<char>;

    closed spec fn view(&self) -> Seq<char> {
        self.id@
    }
}

impl SeatId {
    pub fn new(id: &str) -> (r: Self)
        ensures
            r@ == id@,
    {
        SeatId { id: id.to_owned() }
    }

    /// The identifier as a plain string.
    pub fn as_str(&self) -> (r: &str)
        ensures
            r@ == self@,
    {
        self.id.as_str()
    }
}

impl Clone for SeatId {
    fn clone(&self) -> (r: Self)
        ensures
            r@ == self@,
    {
        SeatId { id: self.id.clone() }
    }
}

impl PartialEq for SeatId {
    fn eq(&self, other: &Self) -> bool {
        self.id == other.id
    }
}

impl vstd::std_specs::cmp::PartialEqSpecImpl for SeatId {
    open spec fn obeys_eq_spec() -> bool {
        true
    }

    open spec fn eq_spec(&self, other: &Self) -> bool {
        self@ == other@
    }
}

/// The abstract value of a seat: its display strings and, when the seat is
/// reserved, the booking reference stamped on it.
#[verifier::ext_equal]
pub struct SeatView {
    pub seat_number: Seq<char>,
    pub coach: Seq<char>,
    pub booking_reference: Option<Seq<char>>,
}

/// A bookable unit of a train; free while `booking_reference` is unset.
#[derive(Debug)]
pub struct Seat {
    seat_number: String,
    coach: String,
    booking_reference: Option<BookingReference>,
}

impl View for Seat {
    type V = SeatView;

    closed spec fn view(&self) -> SeatView {
        SeatView {
            seat_number: self.seat_number@,
            coach: self.coach@,
            booking_reference: match self.booking_reference {
                Some(b) => Some(b@),
                None => None,
            },
        }
    }
}

impl Seat {
    pub fn new(seat_number: &str, coach: &str, booking_reference: Option<BookingReference>) -> (r:
        Self)
        ensures
            r@.seat_number == seat_number@,
            r@.coach == coach@,
            r@.booking_reference == (match booking_reference {
                Some(b) => Some(b@),
                None => None::<Seq<char>>,
            }),
    {
        Seat { seat_number: seat_number.to_owned(), coach: coach.to_owned(), booking_reference }
    }

    /// The booking reference currently stamped on the seat, if any.
    pub fn booking_reference(&self) -> (r: Option<&BookingReference>)
        ensures
            match r {
                Some(b) => self@.booking_reference == Some(b@),
                None => self@.booking_reference is None,
            },
    {
        self.booking_reference.as_ref()
    }

    /// The seat's display number.
    pub fn seat_number(&self) -> (r: &str)
        ensures
            r@ == self@.seat_number,
    {
        self.seat_number.as_str()
    }

    /// The seat's coach.
    pub fn coach(&self) -> (r: &str)
        ensures
            r@ == self@.coach,
    {
        self.coach.as_str()
    }
}

impl Clone for Seat {
    fn clone(&self) -> (r: Self)
        ensures
            r@ == self@,
    {
        let r = Seat {
            seat_number: self.seat_number.clone(),
            coach: self.coach.clone(),
            booking_reference: match &self.booking_reference {
                Some(b) => Some(b.clone()),
                None => None,
            },
        };
        proof {
            assert(r@ =~= self@);
        }
        r
    }
}

impl PartialEq for Seat {
    fn eq(&self, other: &Self) -> (r: bool)
    {
        let same_booking = match (&self.booking_reference, &other.booking_reference) {
            (Some(a), Some(b)) => a == b,
            (None, None) => true,
            _ => false,
        };
        let r = same_booking && self.seat_number == other.seat_number && self.coach
            == other.coach;
        proof {
            if r {
                assert(self@ =~= other@);
            }
        }
        r
    }
}

impl vstd::std_specs::cmp::PartialEqSpecImpl for Seat {
    open spec fn obeys_eq_spec() -> bool {
        true
    }

    open spec fn eq_spec(&self, other: &Self) -> bool {
        self@ == other@
    }
}

/// The seats of a train as the reservation logic sees them: a sequence of
/// seat-id / seat pairs.
pub type SeatsView = Seq<(Seq<char>, SeatView)>;

/// Whether some entry of `seats` carries the seat id `id`.
pub open spec fn has_seat(seats: SeatsView, id: Seq<char>) -> bool {
    exists|i: int| 0 <= i < seats.len() && seats[i].0 == id
}

/// The seat entry carrying `id`; meaningful when `has_seat` holds and the
/// ids are unique.
pub open spec fn seat_of(seats: SeatsView, id: Seq<char>) -> SeatView {
    let i = choose|i: int| 0 <= i < seats.len() && seats[i].0 == id;
    seats[i].1
}

/// Seat ids are pairwise distinct.
pub open spec fn unique_seat_ids(seats: SeatsView) -> bool {
    forall|i: int, j: int| 0 <= i < j < seats.len() ==> seats[i].0 != seats[j].0
}

proof fn lemma_seat_of_at(seats: SeatsView, i: int)
    requires
        unique_seat_ids(seats),
        0 <= i < seats.len(),
    ensures
        has_seat(seats, seats[i].0),
        seat_of(seats, seats[i].0) == seats[i].1,
{
    let id = seats[i].0;
    assert(has_seat(seats, id));
    let j = choose|j: int| 0 <= j < seats.len() && seats[j].0 == id;
    if i < j {
        assert(seats[i].0 != seats[j].0);
    } else if j < i {
        assert(seats[j].0 != seats[i].0);
    }
}

/// A named collection of seats; the seat set is fixed after loading, and
/// only the reservation transition and `reset` change seat state.
#[derive(Debug)]
pub struct Train {
    seats: Vec<(SeatId, Seat)>,
}

impl View for Train {
    type V = SeatsView;

    closed spec fn view(&self) -> SeatsView {
        self.seats@.map_values(|p: (SeatId, Seat)| (p.0@, p.1@))
    }
}

impl Train {
    /// Well-formed: seat ids are pairwise distinct, as in a map keyed by
    /// seat id.
    pub open spec fn wf(&self) -> bool {
        unique_seat_ids(self@)
    }

    /// A train with no seats.
    pub fn new() -> (r: Train)
        ensures
            r@ == Seq::<(Seq<char>, SeatView)>::empty(),
            r.wf(),
    {
        let r = Train { seats: Vec::new() };
        proof {
            assert(r@ =~= Seq::<(Seq<char>, SeatView)>::empty());
        }
        r
    }

    /// Adds a seat under a fresh id; refuses an id already present.
    pub fn add_seat(&mut self, seat_id: SeatId, seat: Seat) -> (r: bool)
        ensures
            r == !has_seat(old(self)@, seat_id@),
            r ==> final(self)@ == old(self)@.push((seat_id@, seat@)),
            !r ==> *final(self) == *old(self),
            old(self).wf() ==> final(self).wf(),
    {
        if self.contains_seat(&seat_id) {
            false
        } else {
            let ghost pre = self@;
            self.seats.push((seat_id, seat));
            proof {
                assert(final(self)@ =~= pre.push((seat_id@, seat@)));
                if unique_seat_ids(pre) {
                    assert forall|i: int, j: int|
                        0 <= i < j < self@.len() implies self@[i].0 != self@[j].0 by {
                        if j < pre.len() {
                            assert(pre[i].0 != pre[j].0);
                        } else {
                            assert(self@[j].0 == seat_id@);
                            assert(self@[i].0 == pre[i].0);
                            assert(!has_seat(pre, seat_id@));
                        }
                    }
                }
            }
            true
        }
    }

    /// How many seats the train has.
    pub fn len(&self) -> (r: usize)
        ensures
            r == self@.len(),
    {
        self.seats.len()
    }

    /// The seat entry at position `i`.
    pub fn seat_at(&self, i: usize) -> (r: (&SeatId, &Seat))
        requires
            i < self@.len(),
        ensures
            r.0@ == self@[i as int].0,
            r.1@ == self@[i as int].1,
    {
        let p = &self.seats[i];
        (&p.0, &p.1)
    }

    fn contains_seat(&self, seat_id: &SeatId) -> (r: bool)
        ensures
            r == has_seat(self@, seat_id@),
    {
        let n = self.seats.len();
        let mut i: usize = 0;
        while i < n
            invariant
                i <= n,
                n == self@.len(),
                forall|j: int| 0 <= j < i ==> self@[j].0 != seat_id@,
            decreases n - i,
        {
            if self.seats[i].0 == *seat_id {
                assert(self@[i as int].0 == seat_id@);
                return true;
            }
            i += 1;
        }
        false
    }

    /// Looks a seat up by id; `None` exactly when the train has no such
    /// seat.
    pub fn get(&self, seat_id: &SeatId) -> (r: Option<&Seat>)
        requires
            self.wf(),
        ensures
            match r {
                Some(s) => has_seat(self@, seat_id@) && s@ == seat_of(self@, seat_id@),
                None => !has_seat(self@, seat_id@),
            },
    {
        let n = self.seats.len();
        let mut i: usize = 0;
        while i < n
            invariant
                i <= n,
                n == self@.len(),
                self.wf(),
                forall|j: int| 0 <= j < i ==> self@[j].0 != seat_id@,
            decreases n - i,
        {
            if self.seats[i].0 == *seat_id {
                proof {
                    lemma_seat_of_at(self@, i as int);
                }
                return Some(&self.seats[i].1);
            }
            i += 1;
        }
        None
    }
}

/// A request to stamp every named seat with one booking reference.
///
/// The seat list may name a seat twice; the duplicate entries pass both
/// checks together and the commit stamps the seat once with the same
/// reference.
#[derive(Debug)]
pub struct Reservation {
    pub seats: Vec<SeatId>,
    pub booking_reference: BookingReference,
}

/// The ways a lookup or a reservation can fail, as pure data carrying the
/// offending ids.
#[derive(Debug)]
pub enum Error {
    TrainDoesNotExist(TrainId),
    SeatsDoNotExist(Vec<SeatId>),
    SeatsAlreadyReserved(Vec<SeatId>),
}

/// The ids of a seat list, as plain strings.
pub open spec fn seat_ids_view(ids: Seq<SeatId>) -> Seq<Seq<char>> {
    ids.map_values(|s: SeatId| s@)
}

/// The requested ids that name no seat of the train, in request order,
/// duplicates kept.
pub open spec fn missing_ids(seats: SeatsView, ids: Seq<Seq<char>>) -> Seq<Seq<char>>
    decreases ids.len(),
{
    if ids.len() == 0 {
        Seq::empty()
    } else {
        let rest = missing_ids(seats, ids.drop_last());
        if has_seat(seats, ids.last()) {
            rest
        } else {
            rest.push(ids.last())
        }
    }
}

/// The requested ids whose seat already carries a booking reference, in
/// request order, duplicates kept.
pub open spec fn conflicting_ids(seats: SeatsView, ids: Seq<Seq<char>>) -> Seq<Seq<char>>
    decreases ids.len(),
{
    if ids.len() == 0 {
        Seq::empty()
    } else {
        let rest = conflicting_ids(seats, ids.drop_last());
        if has_seat(seats, ids.last()) && seat_of(seats, ids.last()).booking_reference is Some {
            rest.push(ids.last())
        } else {
            rest
        }
    }
}

/// `entry` after the commit pass of a reservation of `ids` under reference
/// `br`: stamped if named, untouched otherwise.
pub open spec fn stamped(entry: (Seq<char>, SeatView), ids: Seq<Seq<char>>, br: Seq<char>) -> (
    Seq<char>,
    SeatView,
) {
    if ids.contains(entry.0) {
        (entry.0, SeatView { booking_reference: Some(br), ..entry.1 })
    } else {
        entry
    }
}

/// After a clean commit of a reservation of `ids` under `br`, a named seat
/// reads back with exactly `br` stamped on it, an unnamed seat is unchanged,
/// and no seat's display data or id moves.
pub proof fn lemma_commit_stamps_named_seats_only(
    before: SeatsView,
    after: SeatsView,
    ids: Seq<Seq<char>>,
    br: Seq<char>,
    id: Seq<char>,
)
    requires
        unique_seat_ids(before),
        before.len() == after.len(),
        forall|i: int| 0 <= i < before.len() ==> after[i] == stamped(#[trigger] before[i], ids, br),
        has_seat(before, id),
    ensures
        has_seat(after, id),
        ids.contains(id) ==> seat_of(after, id).booking_reference == Some(br),
        !ids.contains(id) ==> seat_of(after, id) == seat_of(before, id),
        seat_of(after, id).seat_number == seat_of(before, id).seat_number,
        seat_of(after, id).coach == seat_of(before, id).coach,
{
    assert(forall|i: int| 0 <= i < after.len() ==> (#[trigger] after[i]).0 == before[i].0);
    let i = choose|i: int| 0 <= i < before.len() && before[i].0 == id;
    lemma_seat_of_at(before, i);
    assert(unique_seat_ids(after));
    assert(after[i].0 == id);
    lemma_seat_of_at(after, i);
    assert(after[i] == stamped(before[i], ids, br));
}

/// After `reset`, every seat of the train reads back free, under its old id
/// and with its display data kept, whatever mix of reserved and free seats
/// the train held before.
pub proof fn lemma_reset_frees_every_seat(
    before: SeatsView,
    after: SeatsView,
    id: Seq<char>,
)
    requires
        unique_seat_ids(before),
        before.len() == after.len(),
        forall|i: int| 0 <= i < before.len() ==> after[i] == cleared_entry(#[trigger] before[i]),
        has_seat(before, id),
    ensures
        has_seat(after, id),
        seat_of(after, id).booking_reference is None,
        seat_of(after, id).seat_number == seat_of(before, id).seat_number,
        seat_of(after, id).coach == seat_of(before, id).coach,
{
    assert(forall|i: int| 0 <= i < after.len() ==> (#[trigger] after[i]).0 == before[i].0);
    let i = choose|i: int| 0 <= i < before.len() && before[i].0 == id;
    lemma_seat_of_at(before, i);
    assert(unique_seat_ids(after));
    assert(after[i].0 == id);
    lemma_seat_of_at(after, i);
    assert(after[i] == cleared_entry(before[i]));
}

/// Every requested id that names no seat appears in the missing list: the
/// existence check considers the full request, wherever the id stands.
pub proof fn lemma_existence_check_complete(seats: SeatsView, ids: Seq<Seq<char>>, i: int)
    requires
        0 <= i < ids.len(),
        !has_seat(seats, ids[i]),
    ensures
        missing_ids(seats, ids).contains(ids[i]),
    decreases ids.len(),
{
    if i == ids.len() - 1 {
        let rest = missing_ids(seats, ids.drop_last());
        assert(missing_ids(seats, ids) == rest.push(ids.last()));
        assert(missing_ids(seats, ids)[rest.len() as int] == ids[i]);
    } else {
        assert(ids.drop_last()[i] == ids[i]);
        lemma_existence_check_complete(seats, ids.drop_last(), i);
        let rest = missing_ids(seats, ids.drop_last());
        let k = choose|k: int| 0 <= k < rest.len() && rest[k] == ids[i];
        if !has_seat(seats, ids.last()) {
            assert(missing_ids(seats, ids)[k] == ids[i]);
        }
    }
}

/// Every element of the missing list is a requested id that names no seat.
pub proof fn lemma_existence_check_sound(seats: SeatsView, ids: Seq<Seq<char>>, x: Seq<char>)
    requires
        missing_ids(seats, ids).contains(x),
    ensures
        ids.contains(x),
        !has_seat(seats, x),
    decreases ids.len(),
{
    if ids.len() > 0 {
        let rest = missing_ids(seats, ids.drop_last());
        if !has_seat(seats, ids.last()) && x == ids.last() {
            assert(ids[ids.len() - 1] == x);
        } else {
            if !has_seat(seats, ids.last()) {
                let m = missing_ids(seats, ids);
                let k = choose|k: int| 0 <= k < m.len() && m[k] == x;
                assert(rest[k] == x);
            }
            lemma_existence_check_sound(seats, ids.drop_last(), x);
            let k = choose|k: int| 0 <= k < ids.drop_last().len() && ids.drop_last()[k] == x;
            assert(ids[k] == x);
        }
    }
}

/// Every requested id whose seat is already booked appears in the conflict
/// list: the conflict check considers the full request too.
pub proof fn lemma_conflict_check_complete(seats: SeatsView, ids: Seq<Seq<char>>, i: int)
    requires
        0 <= i < ids.len(),
        has_seat(seats, ids[i]),
        seat_of(seats, ids[i]).booking_reference is Some,
    ensures
        conflicting_ids(seats, ids).contains(ids[i]),
    decreases ids.len(),
{
    if i == ids.len() - 1 {
        let rest = conflicting_ids(seats, ids.drop_last());
        assert(conflicting_ids(seats, ids) == rest.push(ids.last()));
        assert(conflicting_ids(seats, ids)[rest.len() as int] == ids[i]);
    } else {
        assert(ids.drop_last()[i] == ids[i]);
        lemma_conflict_check_complete(seats, ids.drop_last(), i);
        let rest = conflicting_ids(seats, ids.drop_last());
        let k = choose|k: int| 0 <= k < rest.len() && rest[k] == ids[i];
        if has_seat(seats, ids.last()) && seat_of(seats, ids.last()).booking_reference is Some {
            assert(conflicting_ids(seats, ids)[k] == ids[i]);
        }
    }
}

/// Every element of the conflict list is a requested id whose seat is
/// already booked.
pub proof fn lemma_conflict_check_sound(seats: SeatsView, ids: Seq<Seq<char>>, x: Seq<char>)
    requires
        conflicting_ids(seats, ids).contains(x),
    ensures
        ids.contains(x),
        has_seat(seats, x),
        seat_of(seats, x).booking_reference is Some,
    decreases ids.len(),
{
    if ids.len() > 0 {
        let rest = conflicting_ids(seats, ids.drop_last());
        let taken = has_seat(seats, ids.last()) && seat_of(
            seats,
            ids.last(),
        ).booking_reference is Some;
        if taken && x == ids.last() {
            assert(ids[ids.len() - 1] == x);
        } else {
            if taken {
                let c = conflicting_ids(seats, ids);
                let k = choose|k: int| 0 <= k < c.len() && c[k] == x;
                assert(rest[k] == x);
            }
            lemma_conflict_check_sound(seats, ids.drop_last(), x);
            let k = choose|k: int| 0 <= k < ids.drop_last().len() && ids.drop_last()[k] == x;
            assert(ids[k] == x);
        }
    }
}

proof fn lemma_missing_empty_all_present(seats: SeatsView, ids: Seq<Seq<char>>)
    requires
        missing_ids(seats, ids).len() == 0,
    ensures
        forall|i: int| 0 <= i < ids.len() ==> has_seat(seats, #[trigger] ids[i]),
{
    assert forall|i: int| 0 <= i < ids.len() implies has_seat(seats, #[trigger] ids[i]) by {
        if !has_seat(seats, ids[i]) {
            lemma_existence_check_complete(seats, ids, i);
        }
    }
}

impl Reservation {
    /// The requested seat ids as plain strings.
    pub open spec fn ids(&self) -> Seq<Seq<char>> {
        seat_ids_view(self.seats@)
    }
}

fn contains_seat_id(ids: &Vec<SeatId>, seat_id: &SeatId) -> (r: bool)
    ensures
        r == seat_ids_view(ids@).contains(seat_id@),
{
    let n = ids.len();
    let mut i: usize = 0;
    while i < n
        invariant
            i <= n,
            n == ids@.len(),
            forall|j: int| 0 <= j < i ==> seat_ids_view(ids@)[j] != seat_id@,
        decreases n - i,
    {
        if ids[i] == *seat_id {
            assert(seat_ids_view(ids@)[i as int] == seat_id@);
            return true;
        }
        i += 1;
    }
    false
}

impl Train {
    /// Reserves the named seats under the reservation's booking reference.
    ///
    /// Two strict passes run before any mutation: the existence check
    /// collects every requested id that names no seat, then the conflict
    /// check collects every requested id whose seat is already booked.
    /// Either failure reports the full list of offending ids, in request
    /// order, and leaves the train unchanged; only a clean request commits,
    /// stamping every named seat and touching no other.
    pub fn reserve(&mut self, reservation: &Reservation) -> (r: Result<(), Error>)
        requires
            old(self).wf(),
        ensures
            final(self).wf(),
            ({
                let ids = reservation.ids();
                let missing = missing_ids(old(self)@, ids);
                let conflicts = conflicting_ids(old(self)@, ids);
                &&& missing.len() > 0 ==> (r matches Err(Error::SeatsDoNotExist(v))
                    && seat_ids_view(v@) == missing && final(self)@ == old(self)@)
                &&& (missing.len() == 0 && conflicts.len() > 0) ==> (r matches Err(
                    Error::SeatsAlreadyReserved(v),
                ) && seat_ids_view(v@) == conflicts && final(self)@ == old(self)@)
                &&& (missing.len() == 0 && conflicts.len() == 0) ==> (r is Ok && final(self)@.len()
                    == old(self)@.len() && (forall|i: int|
                    0 <= i < old(self)@.len() ==> final(self)@[i] == stamped(
                        #[trigger] old(self)@[i],
                        ids,
                        reservation.booking_reference@,
                    )))
            }),
    {
        let ghost ids = reservation.ids();
        let n = reservation.seats.len();

        // Existence pass: collect every requested id that names no seat.
        let mut missing: Vec<SeatId> = Vec::new();
        let mut i: usize = 0;
        while i < n
            invariant
                i <= n,
                n == reservation.seats@.len(),
                ids == reservation.ids(),
                *self == *old(self),
                old(self).wf(),
                seat_ids_view(missing@) == missing_ids(self@, ids.take(i as int)),
            decreases n - i,
        {
            let ghost pre = seat_ids_view(missing@);
            let present = self.contains_seat(&reservation.seats[i]);
            if !present {
                missing.push(reservation.seats[i].clone());
            }
            proof {
                assert(ids.take(i + 1).drop_last() =~= ids.take(i as int));
                assert(ids.take(i + 1).last() == ids[i as int]);
                assert(ids[i as int] == reservation.seats@[i as int]@);
                if !present {
                    assert(seat_ids_view(missing@) =~= pre.push(reservation.seats@[i as int]@));
                } else {
                    assert(seat_ids_view(missing@) =~= pre);
                }
            }
            i += 1;
        }
        proof {
            assert(ids.take(n as int) =~= ids);
        }
        if missing.len() > 0 {
            return Err(Error::SeatsDoNotExist(missing));
        }
        proof {
            assert(missing_ids(self@, ids).len() == 0);
            lemma_missing_empty_all_present(self@, ids);
        }

        // Conflict pass: collect every requested id whose seat is booked.
        let mut conflicts: Vec<SeatId> = Vec::new();
        let mut i: usize = 0;
        while i < n
            invariant
                i <= n,
                n == reservation.seats@.len(),
                ids == reservation.ids(),
                *self == *old(self),
                old(self).wf(),
                forall|j: int| 0 <= j < ids.len() ==> has_seat(self@, #[trigger] ids[j]),
                seat_ids_view(conflicts@) == conflicting_ids(self@, ids.take(i as int)),
            decreases n - i,
        {
            let ghost pre = seat_ids_view(conflicts@);
            let seat = self.get(&reservation.seats[i]);
            let taken = match seat {
                Some(s) => s.booking_reference().is_some(),
                None => false,
            };
            if taken {
                conflicts.push(reservation.seats[i].clone());
            }
            proof {
                assert(ids.take(i + 1).drop_last() =~= ids.take(i as int));
                assert(ids.take(i + 1).last() == ids[i as int]);
                assert(ids[i as int] == reservation.seats@[i as int]@);
                assert(taken == (seat_of(self@, ids[i as int]).booking_reference is Some));
                if taken {
                    assert(seat_ids_view(conflicts@) =~= pre.push(reservation.seats@[i as int]@));
                } else {
                    assert(seat_ids_view(conflicts@) =~= pre);
                }
            }
            i += 1;
        }
        proof {
            assert(ids.take(n as int) =~= ids);
        }
        if conflicts.len() > 0 {
            return Err(Error::SeatsAlreadyReserved(conflicts));
        }

        // Commit pass: stamp every named seat.
        let ghost br = reservation.booking_reference@;
        let m = self.seats.len();
        let mut k: usize = 0;
        while k < m
            invariant
                k <= m,
                m == old(self)@.len(),
                self@.len() == m,
                ids == reservation.ids(),
                forall|j: int| 0 <= j < k ==> self@[j] == stamped(#[trigger] old(self)@[j], ids, br),
                forall|j: int| k <= j < m ==> self@[j] == old(self)@[j],
                br == reservation.booking_reference@,
            decreases m - k,
        {
            let named = contains_seat_id(&reservation.seats, &self.seats[k].0);
            if named {
                let stamp = Some(reservation.booking_reference.clone());
                self.seats[k].1.booking_reference = stamp;
                proof {
                    assert(self@[k as int].0 == old(self)@[k as int].0);
                    assert(self@[k as int].1 =~= stamped(old(self)@[k as int], ids, br).1);
                    assert(self@[k as int] == stamped(old(self)@[k as int], ids, br));
                }
            } else {
                proof {
                    assert(self@[k as int] == stamped(old(self)@[k as int], ids, br));
                }
            }
            k += 1;
        }
        proof {
            assert forall|i2: int, j2: int|
                0 <= i2 < j2 < self@.len() implies self@[i2].0 != self@[j2].0 by {
                assert(self@[i2].0 == old(self)@[i2].0);
                assert(self@[j2].0 == old(self)@[j2].0);
            }
        }
        Ok(())
    }

    /// Clears the booking reference on every seat, restoring the all-free
    /// state; nothing else about any seat changes.
    pub fn reset(&mut self)
        ensures
            final(self)@.len() == old(self)@.len(),
            forall|i: int|
                0 <= i < old(self)@.len() ==> final(self)@[i] == cleared_entry(
                    #[trigger] old(self)@[i],
                ),
            old(self).wf() ==> final(self).wf(),
    {
        let m = self.seats.len();
        let mut k: usize = 0;
        while k < m
            invariant
                k <= m,
                m == old(self)@.len(),
                self@.len() == m,
                forall|j: int| 0 <= j < k ==> self@[j] == cleared_entry(#[trigger] old(self)@[j]),
                forall|j: int| k <= j < m ==> self@[j] == old(self)@[j],
            decreases m - k,
        {
            self.seats[k].1.booking_reference = None;
            proof {
                assert(self@[k as int].0 == old(self)@[k as int].0);
                assert(self@[k as int].1 =~= cleared(old(self)@[k as int].1));
                assert(self@[k as int] == cleared_entry(old(self)@[k as int]));
            }
            k += 1;
        }
        proof {
            if old(self).wf() {
                assert forall|i2: int, j2: int|
                    0 <= i2 < j2 < self@.len() implies self@[i2].0 != self@[j2].0 by {
                    assert(self@[i2].0 == old(self)@[i2].0);
                    assert(self@[j2].0 == old(self)@[j2].0);
                }
            }
        }
    }
}

/// A seat value with its booking reference cleared.
pub open spec fn cleared(s: SeatView) -> SeatView {
    SeatView { booking_reference: None, ..s }
}

/// A seat entry after `reset`: the same id, the seat freed.
pub open spec fn cleared_entry(e: (Seq<char>, SeatView)) -> (Seq<char>, SeatView) {
    (e.0, cleared(e.1))
}

fn seat_ids_eq(a: &Vec<SeatId>, b: &Vec<SeatId>) -> (r: bool)
    ensures
        r == (seat_ids_view(a@) == seat_ids_view(b@)),
{
    if a.len() != b.len() {
        assert(seat_ids_view(a@).len() != seat_ids_view(b@).len());
        return false;
    }
    let n = a.len();
    let mut i: usize = 0;
    while i < n
        invariant
            i <= n,
            n == a@.len(),
            n == b@.len(),
            forall|j: int| 0 <= j < i ==> seat_ids_view(a@)[j] == seat_ids_view(b@)[j],
        decreases n - i,
    {
        if !(a[i] == b[i]) {
            assert(seat_ids_view(a@)[i as int] != seat_ids_view(b@)[i as int]);
            return false;
        }
        assert(seat_ids_view(a@)[i as int] == seat_ids_view(b@)[i as int]);
        i += 1;
    }
    proof {
        assert(seat_ids_view(a@) =~= seat_ids_view(b@));
    }
    true
}

impl PartialEq for Train {
    fn eq(&self, other: &Self) -> (r: bool) {
        if self.seats.len() != other.seats.len() {
            assert(self@.len() != other@.len());
            return false;
        }
        let n = self.seats.len();
        let mut i: usize = 0;
        while i < n
            invariant
                i <= n,
                n == self@.len(),
                n == other@.len(),
                forall|j: int| 0 <= j < i ==> self@[j] == other@[j],
            decreases n - i,
        {
            if !(self.seats[i].0 == other.seats[i].0) {
                assert(self@[i as int].0 != other@[i as int].0);
                return false;
            }
            if !(self.seats[i].1 == other.seats[i].1) {
                assert(self@[i as int].1 != other@[i as int].1);
                return false;
            }
            assert(self@[i as int] == other@[i as int]);
            i += 1;
        }
        proof {
            assert(self@ =~= other@);
        }
        true
    }
}

impl vstd::std_specs::cmp::PartialEqSpecImpl for Train {
    open spec fn obeys_eq_spec() -> bool {
        true
    }

    open spec fn eq_spec(&self, other: &Self) -> bool {
        self@ == other@
    }
}

impl PartialEq for Error {
    fn eq(&self, other: &Self) -> (r: bool) {
        match (self, other) {
            (Error::TrainDoesNotExist(a), Error::TrainDoesNotExist(b)) => a == b,
            (Error::SeatsDoNotExist(a), Error::SeatsDoNotExist(b)) => seat_ids_eq(a, b),
            (Error::SeatsAlreadyReserved(a), Error::SeatsAlreadyReserved(b)) => seat_ids_eq(a, b),
            _ => false,
        }
    }
}

impl vstd::std_specs::cmp::PartialEqSpecImpl for Error {
    open spec fn obeys_eq_spec() -> bool {
        true
    }

    open spec fn eq_spec(&self, other: &Self) -> bool {
        match (self, other) {
            (Error::TrainDoesNotExist(a), Error::TrainDoesNotExist(b)) => a@ == b@,
            (Error::SeatsDoNotExist(a), Error::SeatsDoNotExist(b)) => seat_ids_view(a@)
                == seat_ids_view(b@),
            (Error::SeatsAlreadyReserved(a), Error::SeatsAlreadyReserved(b)) => seat_ids_view(a@)
                == seat_ids_view(b@),
            _ => false,
        }
    }
}

/// The full train mapping as the lookup service sees it: train ids paired
/// with train values.
pub type TrainsView = Seq<(Seq<char>, Train)>;

/// Whether some entry of `trains` carries the train id `id`.
pub open spec fn has_train(trains: TrainsView, id: Seq<char>) -> bool {
    exists|i: int| 0 <= i < trains.len() && trains[i].0 == id
}

/// The position of the entry carrying `id`; meaningful when `has_train`
/// holds and the ids are unique.
pub open spec fn train_index_of(trains: TrainsView, id: Seq<char>) -> int {
    choose|i: int| 0 <= i < trains.len() && trains[i].0 == id
}

/// The train carrying `id`.
pub open spec fn train_of(trains: TrainsView, id: Seq<char>) -> Train {
    trains[train_index_of(trains, id)].1
}

/// Train ids are pairwise distinct.
pub open spec fn unique_train_ids(trains: TrainsView) -> bool {
    forall|i: int, j: int| 0 <= i < j < trains.len() ==> trains[i].0 != trains[j].0
}

proof fn lemma_train_of_at(trains: TrainsView, i: int)
    requires
        unique_train_ids(trains),
        0 <= i < trains.len(),
    ensures
        has_train(trains, trains[i].0),
        train_index_of(trains, trains[i].0) == i,
        train_of(trains, trains[i].0) == trains[i].1,
{
    let id = trains[i].0;
    assert(has_train(trains, id));
    let j = train_index_of(trains, id);
    if i < j {
        assert(trains[i].0 != trains[j].0);
    } else if j < i {
        assert(trains[j].0 != trains[i].0);
    }
}

/// The full mapping from train id to train, fixed at load time.
#[derive(Debug)]
pub struct TrainsData {
    trains: Vec<(TrainId, Train)>,
}

impl View for TrainsData {
    type V = TrainsView;

    closed spec fn view(&self) -> TrainsView {
        self.trains@.map_values(|p: (TrainId, Train)| (p.0@, p.1))
    }
}

impl TrainsData {
    /// Well-formed: train ids are pairwise distinct and every train is.
    pub open spec fn wf(&self) -> bool {
        unique_train_ids(self@) && (forall|i: int|
            0 <= i < self@.len() ==> (#[trigger] self@[i]).1.wf())
    }

    /// An empty mapping.
    pub fn new() -> (r: TrainsData)
        ensures
            r@ == Seq::<(Seq<char>, Train)>::empty(),
            r.wf(),
    {
        let r = TrainsData { trains: Vec::new() };
        proof {
            assert(r@ =~= Seq::<(Seq<char>, Train)>::empty());
        }
        r
    }

    /// Adds a train under a fresh id; refuses an id already present.
    pub fn add_train(&mut self, train_id: TrainId, train: Train) -> (r: bool)
        ensures
            r == !has_train(old(self)@, train_id@),
            r ==> final(self)@ == old(self)@.push((train_id@, train)),
            !r ==> *final(self) == *old(self),
            old(self).wf() && train.wf() ==> final(self).wf(),
    {
        if self.find_index(&train_id).is_some() {
            false
        } else {
            let ghost pre = self@;
            self.trains.push((train_id, train));
            proof {
                assert(final(self)@ =~= pre.push((train_id@, train)));
                if unique_train_ids(pre) {
                    assert forall|i: int, j: int|
                        0 <= i < j < self@.len() implies self@[i].0 != self@[j].0 by {
                        if j < pre.len() {
                            assert(pre[i].0 != pre[j].0);
                        } else {
                            assert(self@[j].0 == train_id@);
                            assert(self@[i].0 == pre[i].0);
                            assert(!has_train(pre, train_id@));
                        }
                    }
                }
            }
            true
        }
    }

    fn find_index(&self, train_id: &TrainId) -> (r: Option<usize>)
        ensures
            match r {
                Some(i) => 0 <= i < self@.len() && self@[i as int].0 == train_id@ && has_train(
                    self@,
                    train_id@,
                ),
                None => !has_train(self@, train_id@),
            },
    {
        let n = self.trains.len();
        let mut i: usize = 0;
        while i < n
            invariant
                i <= n,
                n == self@.len(),
                forall|j: int| 0 <= j < i ==> self@[j].0 != train_id@,
            decreases n - i,
        {
            if self.trains[i].0 == *train_id {
                assert(self@[i as int].0 == train_id@);
                return Some(i);
            }
            i += 1;
        }
        None
    }

    /// Looks a train up by id; `None` exactly when the id is unknown.
    pub fn get(&self, train_id: &TrainId) -> (r: Option<&Train>)
        requires
            unique_train_ids(self@),
        ensures
            match r {
                Some(t) => has_train(self@, train_id@) && *t == train_of(self@, train_id@),
                None => !has_train(self@, train_id@),
            },
    {
        match self.find_index(train_id) {
            Some(i) => {
                proof {
                    lemma_train_of_at(self@, i as int);
                }
                Some(&self.trains[i].1)
            },
            None => None,
        }
    }

    fn slot(&mut self, i: usize) -> (t: &mut Train)
        requires
            i < old(self)@.len(),
        ensures
            *t == old(self)@[i as int].1,
            final(self)@ =~= old(self)@.update(i as int, (old(self)@[i as int].0, *final(t))),
    {
        &mut self.trains[i].1
    }
}

/// Owns the full train mapping for the process lifetime; the sole mutation
/// path into train state after the initial load.
#[derive(Debug)]
pub struct TrainDataService {
    trains: TrainsData,
}

impl View for TrainDataService {
    type V = TrainsView;

    closed spec fn view(&self) -> TrainsView {
        self.trains@
    }
}

impl TrainDataService {
    /// Well-formed: train ids are pairwise distinct and every train is.
    pub open spec fn wf(&self) -> bool {
        unique_train_ids(self@) && (forall|i: int|
            0 <= i < self@.len() ==> (#[trigger] self@[i]).1.wf())
    }

    pub fn new(trains: TrainsData) -> (r: TrainDataService)
        ensures
            r@ == trains@,
            trains.wf() ==> r.wf(),
    {
        TrainDataService { trains }
    }

    /// Read-only lookup; fails with `TrainDoesNotExist` exactly when the
    /// id is unknown.
    pub fn train(&self, train_id: &TrainId) -> (r: Result<&Train, Error>)
        requires
            self.wf(),
        ensures
            has_train(self@, train_id@) ==> (r matches Ok(t) && *t == train_of(self@, train_id@)),
            !has_train(self@, train_id@) ==> (r matches Err(Error::TrainDoesNotExist(id)) && id@
                == train_id@),
    {
        match self.trains.get(train_id) {
            Some(t) => Ok(t),
            None => Err(Error::TrainDoesNotExist(train_id.clone())),
        }
    }

    /// Lookup granting mutation rights over one train, used by the
    /// reservation flow; fails with `TrainDoesNotExist` exactly when the
    /// id is unknown.
    pub fn train_mut(&mut self, train_id: &TrainId) -> (r: Result<&mut Train, Error>)
        requires
            old(self).wf(),
        ensures
            has_train(old(self)@, train_id@) ==> r is Ok && *r->Ok_0 == train_of(
                old(self)@,
                train_id@,
            ) && final(self)@ == old(self)@.update(
                train_index_of(old(self)@, train_id@),
                (train_id@, *final(r->Ok_0)),
            ),
            !has_train(old(self)@, train_id@) ==> (r matches Err(Error::TrainDoesNotExist(id))
                && id@ == train_id@) && *final(self) == *old(self),
    {
        match self.trains.find_index(train_id) {
            Some(i) => {
                proof {
                    lemma_train_of_at(self.trains@, i as int);
                }
                Ok(self.trains.slot(i))
            },
            None => Err(Error::TrainDoesNotExist(train_id.clone())),
        }
    }
}

} // verus!
