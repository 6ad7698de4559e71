//! Booking references: a stateful counter rendered as lowercase hexadecimal.

use vstd::prelude::*;
use vstd::string::StringExecFns;

verus! {

/// The lowercase hexadecimal digit character for a value below sixteen.
pub open spec fn hex_digit(d: nat) -> char {
    if d == 0 {
        '0'
    } else if d == 1 {
        '1'
    } else if d == 2 {
        '2'
    } else if d == 3 {
        '3'
    } else if d == 4 {
        '4'
    } else if d == 5 {
        '5'
    } else if d == 6 {
        '6'
    } else if d == 7 {
        '7'
    } else if d == 8 {
        '8'
    } else if d == 9 {
        '9'
    } else if d == 10 {
        'a'
    } else if d == 11 {
        'b'
    } else if d == 12 {
        'c'
    } else if d == 13 {
        'd'
    } else if d == 14 {
        'e'
    } else {
        'f'
    }
}

/// The lowercase hexadecimal rendering of `n`: no prefix, no leading zeros
/// (zero itself renders as the single digit `0`).
pub open spec fn hex_of(n: nat) -> Seq<char>
    decreases n,
{
    if n < 16 {
        seq![hex_digit(n)]
    } else {
        hex_of(n / 16).push(hex_digit(n % 16))
    }
}

fn hex_digit_str(d: u64) -> (r: &'static str)
    requires
        d < 16,
    ensures
        r@ == seq![hex_digit(d as nat)],
{
    let r = match d {
        0 => "0",
        1 => "1",
        2 => "2",
        3 => "3",
        4 => "4",
        5 => "5",
        6 => "6",
        7 => "7",
        8 => "8",
        9 => "9",
        10 => "a",
        11 => "b",
        12 => "c",
        13 => "d",
        14 => "e",
        _ => "f",
    };
    proof {
        reveal_strlit("0");
        reveal_strlit("1");
        reveal_strlit("2");
        reveal_strlit("3");
        reveal_strlit("4");
        reveal_strlit("5");
        reveal_strlit("6");
        reveal_strlit("7");
        reveal_strlit("8");
        reveal_strlit("9");
        reveal_strlit("a");
        reveal_strlit("b");
        reveal_strlit("c");
        reveal_strlit("d");
        reveal_strlit("e");
        reveal_strlit("f");
        assert(r@ =~= seq![hex_digit(d as nat)]);
    }
    r
}

/// Renders `n` in lowercase hexadecimal.
pub fn to_hex(n: u64) -> (r: String)
    ensures
        r@ == hex_of(n as nat),
    decreases n,
{
    if n < 16 {
        let d = hex_digit_str(n);
        let r = String::from_str(d);
        proof {
            assert(r@ =~= hex_of(n as nat));
        }
        r
    } else {
        let mut r = to_hex(n / 16);
        let d = hex_digit_str(n % 16);
        r.append(d);
        proof {
            assert(r@ =~= hex_of(n as nat));
        }
        r
    }
}

/// The rendering never carries a leading zero: only zero itself starts
/// with the digit `0`.
pub proof fn lemma_hex_of_no_leading_zero(n: nat)
    requires
        n > 0,
    ensures
        hex_of(n)[0] != '0',
    decreases n,
{
    if n >= 16 {
        lemma_hex_of_len(n / 16);
        lemma_hex_of_no_leading_zero(n / 16);
        assert(hex_of(n)[0] == hex_of(n / 16)[0]);
    }
}

proof fn lemma_hex_of_len(n: nat)
    ensures
        hex_of(n).len() >= 1,
        n >= 16 ==> hex_of(n).len() >= 2,
    decreases n,
{
    if n >= 16 {
        lemma_hex_of_len(n / 16);
    }
}

proof fn lemma_hex_of_inj_core(a: nat, b: nat)
    requires
        hex_of(a) == hex_of(b),
    ensures
        a == b,
    decreases a,
{
    lemma_hex_of_len(a);
    lemma_hex_of_len(b);
    if a < 16 && b < 16 {
        assert(hex_of(a)[0] == hex_digit(a));
        assert(hex_of(b)[0] == hex_digit(b));
        assert(a == b);
    } else if a >= 16 && b >= 16 {
        let qa = a / 16;
        let qb = b / 16;
        assert(hex_of(a) == hex_of(qa).push(hex_digit(a % 16)));
        assert(hex_of(b) == hex_of(qb).push(hex_digit(b % 16)));
        assert(hex_of(qa).len() == hex_of(a).len() - 1);
        assert(hex_of(qb).len() == hex_of(b).len() - 1);
        assert(hex_digit(a % 16) == hex_of(a)[hex_of(a).len() - 1]);
        assert(hex_digit(b % 16) == hex_of(b)[hex_of(b).len() - 1]);
        assert(a % 16 == b % 16);
        assert(hex_of(qa) =~= hex_of(qb)) by {
            assert forall|i: int| 0 <= i < hex_of(qa).len() implies hex_of(qa)[i] == hex_of(
                qb,
            )[i] by {
                assert(hex_of(qa)[i] == hex_of(a)[i]);
                assert(hex_of(qb)[i] == hex_of(b)[i]);
            }
        }
        vstd::arithmetic::div_mod::lemma_div_decreases(a as int, 16);
        lemma_hex_of_inj_core(qa, qb);
        vstd::arithmetic::div_mod::lemma_fundamental_div_mod(a as int, 16);
        vstd::arithmetic::div_mod::lemma_fundamental_div_mod(b as int, 16);
    } else {
        assert(false);
    }
}

/// Distinct counter values always render to distinct references, so one
/// service instance never issues the same booking reference twice.
pub proof fn lemma_booking_references_unique(a: nat, b: nat)
    requires
        a != b,
    ensures
        hex_of(a) != hex_of(b),
{
    if hex_of(a) == hex_of(b) {
        lemma_hex_of_inj_core(a, b);
    }
}

/// A unique opaque token recorded on reserved seats.
#[derive(Debug)]
pub struct BookingReference {
    id: String,
}

impl View for BookingReference {
    type V = Seq<char>;

    closed spec fn view(&self) -> Seq<char> {
        self.id@
    }
}

impl BookingReference {
    pub fn new(id: &str) -> (r: Self)
        ensures
            r@ == id@,
    {
        BookingReference { id: id.to_owned() }
    }

    /// The reference as a plain string.
    pub fn as_str(&self) -> (r: &str)
        ensures
            r@ == self@,
    {
        self.id.as_str()
    }
}

impl Clone for BookingReference {
    fn clone(&self) -> (r: Self)
        ensures
            r@ == self@,
    {
        BookingReference { id: self.id.clone() }
    }
}

impl PartialEq for BookingReference {
    fn eq(&self, other: &Self) -> bool {
        self.id == other.id
    }
}

impl vstd::std_specs::cmp::PartialEqSpecImpl for BookingReference {
    open spec fn obeys_eq_spec() -> bool {
        true
    }

    open spec fn eq_spec(&self, other: &Self) -> bool {
        self@ == other@
    }
}

/// Issues unique booking references: each call increments a counter and
/// renders the new value in lowercase hexadecimal.
pub struct BookingReferenceService {
    counter: u64,
}

impl View for BookingReferenceService {
    type V = u64;

    closed spec fn view(&self) -> u64 {
        self.counter
    }
}

impl BookingReferenceService {
    pub fn new(start: u64) -> (r: Self)
        ensures
            r@ == start,
    {
        BookingReferenceService { counter: start }
    }

    /// The current counter value.
    pub fn counter(&self) -> (r: u64)
        ensures
            r == self@,
    {
        self.counter
    }

    /// Increments the counter and returns the new value rendered in
    /// lowercase hexadecimal.
    pub fn booking_reference(&mut self) -> (r: BookingReference)
        requires
            old(self)@ < u64::MAX,
        ensures
            final(self)@ == old(self)@ + 1,
            r@ == hex_of(final(self)@ as nat),
    {
        self.counter = self.counter + 1;
        let s = to_hex(self.counter);
        BookingReference { id: s }
    }
}

} // verus!
