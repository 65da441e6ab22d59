//! The numbers that SRT packets carry: sequence numbers and message numbers, which wrap
//! around, and socket identifiers.
use core::cmp::Ordering;
use vstd::prelude::*;

verus! {

/// How many sequence numbers there are: they are 31 bits wide.
pub const SEQ_MODULUS: u32 = 0x8000_0000;

/// Half of the circle of sequence numbers.
pub const SEQ_HALF: u32 = 0x4000_0000;

/// How many message numbers there are: they are 26 bits wide.
pub const MSG_MODULUS: u32 = 0x0400_0000;

/// The sequence number that `n` steps lead to from `seq`; backwards when `n` is negative.
pub open spec fn seq_plus(seq: int, n: int) -> int {
    (seq + n) % (SEQ_MODULUS as int)
}

/// How many steps lead up from the sequence number `from` to the sequence number `to`.
pub open spec fn seq_distance(from: int, to: int) -> int {
    (to - from) % (SEQ_MODULUS as int)
}

/// `a` comes before `b`: at least one and at most half of the circle's steps lead from
/// `a` up to `b`.
pub open spec fn seq_before(a: int, b: int) -> bool {
    0 < seq_distance(a, b) <= SEQ_HALF
}

/// `a` comes after `b`: at least one and less than half of the circle's steps lead from
/// `b` up to `a`.
pub open spec fn seq_after(a: int, b: int) -> bool {
    0 < seq_distance(b, a) < SEQ_HALF
}

/// Whether `seq` lies between `first` and `last`, both included.
pub open spec fn seq_within(seq: int, first: int, last: int) -> bool {
    !seq_before(seq, first) && !seq_after(seq, last)
}

/// Whether `seq` is the value of a sequence number.
pub open spec fn is_seq(seq: int) -> bool {
    0 <= seq < SEQ_MODULUS
}

/// Steps add up.
pub proof fn lemma_seq_plus_plus(seq: int, m: int, n: int)
    ensures
        seq_plus(seq_plus(seq, m), n) == seq_plus(seq, m + n),
{
}

/// The steps that lead to a sequence number lead to it.
pub proof fn lemma_seq_plus_distance(from: int, to: int)
    requires
        is_seq(to),
    ensures
        seq_plus(from, seq_distance(from, to)) == to,
{
}

/// Going `n` of the steps towards `to` leaves the others.
pub proof fn lemma_seq_distance_plus(from: int, to: int, n: int)
    requires
        0 <= n <= seq_distance(from, to),
    ensures
        seq_distance(seq_plus(from, n), to) == seq_distance(from, to) - n,
{
}

/// Going `n` steps, and from there on to `to`, is going to `to`.
pub proof fn lemma_seq_distance_through(from: int, n: int, to: int)
    requires
        0 <= n,
        n + seq_distance(seq_plus(from, n), to) < SEQ_MODULUS,
    ensures
        seq_distance(from, to) == n + seq_distance(seq_plus(from, n), to),
{
}

/// The distance between two sequence numbers, by their distances from a third one.
pub proof fn lemma_seq_distance_by(base: int, a: int, b: int)
    ensures
        0 <= seq_distance(base, a) < SEQ_MODULUS,
        0 <= seq_distance(base, b) < SEQ_MODULUS,
        seq_distance(a, b) == if seq_distance(base, a) <= seq_distance(base, b) {
            seq_distance(base, b) - seq_distance(base, a)
        } else {
            SEQ_MODULUS + seq_distance(base, b) - seq_distance(base, a)
        },
{
    vstd::arithmetic::div_mod::lemma_sub_mod_noop(b - base, a - base, SEQ_MODULUS as int);
}

/// The distance to a sequence number that `n` steps lead to from `a`.
pub proof fn lemma_seq_distance_to_plus(base: int, a: int, n: int)
    ensures
        seq_distance(base, seq_plus(a, n)) == (seq_distance(base, a) + n) % (SEQ_MODULUS as int),
{
}

/// A packet sequence number. It wraps to zero after 2^31 - 1.
#[derive(Debug, Clone, Copy, PartialEq, Eq, Hash, Structural)]
pub struct SeqNumber {
    raw: u32,
}

impl View for SeqNumber {
    type V = int;

    closed spec fn view(&self) -> int {
        self.raw as int
    }
}

impl SeqNumber {
    #[verifier::type_invariant]
    pub open spec fn in_range(self) -> bool {
        is_seq(self@)
    }

    /// The sequence number whose raw value is `raw` without its top bit.
    pub fn new_truncate(raw: u32) -> (r: SeqNumber)
        ensures
            r@ == raw as int % SEQ_MODULUS as int,
    {
        SeqNumber { raw: raw % SEQ_MODULUS }
    }

    /// The raw value.
    pub fn as_raw(self) -> (r: u32)
        ensures
            r == self@,
            is_seq(self@),
    {
        proof {
            use_type_invariant(&self);
        }
        self.raw
    }

    /// The sequence number that comes `n` steps later.
    pub fn plus(self, n: u32) -> (r: SeqNumber)
        ensures
            r@ == seq_plus(self@, n as int),
    {
        proof {
            use_type_invariant(&self);
        }
        let steps: u32 = n % SEQ_MODULUS;
        SeqNumber { raw: (self.raw + steps) % SEQ_MODULUS }
    }

    /// The sequence number that comes `n` steps earlier.
    pub fn minus(self, n: u32) -> (r: SeqNumber)
        ensures
            r@ == seq_plus(self@, -(n as int)),
    {
        proof {
            use_type_invariant(&self);
        }
        let steps: u32 = n % SEQ_MODULUS;
        SeqNumber { raw: (self.raw + (SEQ_MODULUS - steps)) % SEQ_MODULUS }
    }

    /// How many steps lead up from `from` to this sequence number.
    pub fn distance_from(self, from: SeqNumber) -> (r: u32)
        ensures
            r == seq_distance(from@, self@),
            r < SEQ_MODULUS,
    {
        proof {
            use_type_invariant(&self);
            use_type_invariant(&from);
        }
        (self.raw + (SEQ_MODULUS - from.raw)) % SEQ_MODULUS
    }
}

impl SeqNumber {
    /// Whether this sequence number lies between `first` and `last`, both included.
    pub fn is_within(self, first: SeqNumber, last: SeqNumber) -> (r: bool)
        ensures
            r == seq_within(self@, first@, last@),
    {
        self >= first && self <= last
    }
}

/// Two sequence numbers with one value are the same.
pub broadcast proof fn seq_number_is_its_value(a: SeqNumber, b: SeqNumber)
    ensures
        #![trigger a@, b@]
        a@ == b@ ==> a == b,
{
}

impl PartialOrd for SeqNumber {
    fn partial_cmp(&self, other: &SeqNumber) -> (r: Option<Ordering>) {
        let ahead: u32 = self.distance_from(*other);
        if ahead == 0 {
            Some(Ordering::Equal)
        } else if ahead < SEQ_HALF {
            Some(Ordering::Greater)
        } else {
            Some(Ordering::Less)
        }
    }
}

impl vstd::std_specs::cmp::PartialOrdSpecImpl for SeqNumber {
    open spec fn obeys_partial_cmp_spec() -> bool {
        true
    }

    open spec fn partial_cmp_spec(&self, other: &SeqNumber) -> Option<Ordering> {
        if seq_distance(other@, self@) == 0 {
            Some(Ordering::Equal)
        } else if seq_before(self@, other@) {
            Some(Ordering::Less)
        } else {
            Some(Ordering::Greater)
        }
    }
}

/// The message number that follows `msg`.
pub open spec fn msg_next(msg: int) -> int {
    (msg + 1) % (MSG_MODULUS as int)
}

/// The number of the message that a packet belongs to. It wraps to zero after 2^26 - 1.
#[derive(Debug, Clone, Copy, PartialEq, Eq, Hash, Structural)]
pub struct MsgNumber {
    raw: u32,
}

impl View for MsgNumber {
    type V = int;

    closed spec fn view(&self) -> int {
        self.raw as int
    }
}

impl MsgNumber {
    #[verifier::type_invariant]
    spec fn in_range(self) -> bool {
        self.raw < MSG_MODULUS
    }

    /// The message number made of the lower 26 bits of `raw`.
    pub fn new_truncate(raw: u32) -> (r: MsgNumber)
        ensures
            r@ == raw as int % MSG_MODULUS as int,
    {
        MsgNumber { raw: raw % MSG_MODULUS }
    }

    /// The raw value.
    pub fn as_raw(self) -> (r: u32)
        ensures
            r == self@,
            r < MSG_MODULUS,
    {
        proof {
            use_type_invariant(&self);
        }
        self.raw
    }

    /// The message number that comes next.
    pub fn next(self) -> (r: MsgNumber)
        ensures
            r@ == msg_next(self@),
    {
        proof {
            use_type_invariant(&self);
        }
        MsgNumber { raw: (self.raw + 1) % MSG_MODULUS }
    }
}

/// Two message numbers with one value are the same.
pub broadcast proof fn msg_number_is_its_value(a: MsgNumber, b: MsgNumber)
    ensures
        #![trigger a@, b@]
        a@ == b@ ==> a == b,
{
}

/// The identifier of a socket among those that share an address.
#[derive(Debug, Clone, Copy, PartialEq, Eq, Hash, Structural)]
pub struct SocketId(pub u32);

/// Sequence numbers go up by one, and from 2^31 - 1 to 0; steps add up; and going once around
/// the circle leads back.
pub proof fn sequence_numbers_count_around(seq: int, m: int, n: int)
    requires
        0 <= seq < 0x8000_0000,
    ensures
        seq_plus(seq, 0) == seq,
        seq_plus(seq, 1) == if seq == 0x7fff_ffff {
            0
        } else {
            seq + 1
        },
        seq_plus(seq_plus(seq, m), n) == seq_plus(seq, m + n),
        seq_plus(seq, 0x8000_0000) == seq,
        0 <= seq_plus(seq, n) < 0x8000_0000,
        is_seq(seq_plus(seq, n)),
        is_seq(n) <==> 0 <= n < 0x8000_0000,
{
}

/// The distance to a sequence number is the number of steps that lead to it.
pub proof fn distance_counts_the_steps(from: int, to: int, n: int)
    requires
        0 <= from < 0x8000_0000,
        0 <= to < 0x8000_0000,
        0 <= n < 0x8000_0000,
    ensures
        seq_distance(from, seq_plus(from, n)) == n,
        0 <= seq_distance(from, to) < 0x8000_0000,
        seq_plus(from, seq_distance(from, to)) == to,
        seq_distance(from, to) == 0 <==> from == to,
        from != to ==> seq_distance(from, to) + seq_distance(to, from) == 0x8000_0000,
{
}

/// A sequence number comes before those that up to 2^30 steps lead to, and after those that
/// fewer than 2^30 steps lead from.
pub proof fn order_looks_half_around(seq: int, n: int)
    requires
        0 <= seq < 0x8000_0000,
        0 <= n < 0x8000_0000,
    ensures
        seq_before(seq, seq_plus(seq, n)) <==> 1 <= n <= 0x4000_0000,
        seq_after(seq_plus(seq, n), seq) <==> 1 <= n < 0x4000_0000,
{
}

/// Of two sequence numbers, one comes before the other and that one after it, unless they are
/// the same or opposite to each other on the circle.
pub proof fn sequence_numbers_are_ordered(a: int, b: int)
    requires
        0 <= a < 0x8000_0000,
        0 <= b < 0x8000_0000,
        a - b != 0x4000_0000,
        b - a != 0x4000_0000,
    ensures
        seq_before(a, b) <==> seq_after(b, a),
        a != b ==> (seq_before(a, b) <==> !seq_before(b, a)),
        a == b ==> !seq_before(a, b),
{
}

/// What lies between two sequence numbers that are less than 2^30 steps apart is what stands at
/// their ends and on the steps between them.
pub proof fn within_is_on_the_way(first: int, n: int, m: int)
    requires
        0 <= first < 0x8000_0000,
        0 <= n < 0x4000_0000,
        0 <= m < 0x8000_0000,
    ensures
        seq_within(seq_plus(first, m), first, seq_plus(first, n)) <==> m <= n,
{
}

/// How sequence numbers compare is how their values stand on the circle.
pub proof fn comparison_goes_by_the_circle(a: SeqNumber, b: SeqNumber)
    requires
        0 <= a@ < 0x8000_0000,
        0 <= b@ < 0x8000_0000,
    ensures
        ({
            let steps = (b@ - a@) % 0x8000_0000;
            let order = vstd::std_specs::cmp::PartialOrdSpec::partial_cmp_spec(&a, &b);
            &&& order == Some(Ordering::Equal) <==> a@ == b@
            &&& order == Some(Ordering::Less) <==> 1 <= steps <= 0x4000_0000
            &&& order == Some(Ordering::Greater) <==> 0x4000_0000 < steps
        }),
{
}

/// Message numbers go up by one, and from 2^26 - 1 to 0.
pub proof fn message_numbers_count_around(msg: int)
    requires
        0 <= msg < 0x0400_0000,
    ensures
        msg_next(msg) == if msg == 0x03ff_ffff {
            0
        } else {
            msg + 1
        },
{
}

} // verus!
