//! The lists of lost packets that receivers report.
use crate::numbers::{
    is_seq, seq_distance, seq_number_is_its_value, seq_plus, SeqNumber, SEQ_MODULUS,
};
use vstd::prelude::*;

verus! {

/// The `count` sequence numbers from `first` up.
pub open spec fn seq_run(first: int, count: nat) -> Seq<int> {
    Seq::new(count, |i: int| seq_plus(first, i))
}

/// The sequence numbers from `first` up to `last`, both included.
pub open spec fn seq_range(first: int, last: int) -> Seq<int> {
    seq_run(first, (seq_distance(first, last) + 1) as nat)
}

/// A run without its first number is the run from the number after it.
proof fn lemma_run_step(first: int, count: nat)
    requires
        is_seq(first),
        count > 0,
    ensures
        seq_run(first, count) == seq![first] + seq_run(seq_plus(first, 1), (count - 1) as nat),
{
    let tail = seq_run(seq_plus(first, 1), (count - 1) as nat);
    assert forall|i: int| 0 <= i < tail.len() implies tail[i] == seq_plus(first, i + 1) by {}
    assert(seq_run(first, count) =~= seq![first] + tail);
}

/// The sequence numbers that the words of a loss list stand for.
///
/// A word without its top bit stands for itself. One with its top bit and the word after
/// it stand for the range between them. A range that has no second word stands for nothing.
pub open spec fn decompress(words: Seq<u32>) -> Seq<int>
    decreases words.len(),
{
    if words.len() == 0 {
        seq![]
    } else if words[0] < SEQ_MODULUS {
        seq![words[0] as int] + decompress(words.skip(1))
    } else if words.len() == 1 {
        seq![]
    } else {
        seq_range(words[0] as int % SEQ_MODULUS as int, words[1] as int % SEQ_MODULUS as int)
            + decompress(words.skip(2))
    }
}

/// A loss list stands for sequence numbers only.
pub proof fn decompressed_are_sequence_numbers(words: Seq<u32>)
    ensures
        forall|i: int| 0 <= i < decompress(words).len() ==> is_seq(#[trigger] decompress(words)[i]),
    decreases words.len(),
{
    let all = decompress(words);
    if words.len() > 0 && (words[0] < SEQ_MODULUS || words.len() > 1) {
        let rest = decompress(words.skip(if words[0] < SEQ_MODULUS { 1 } else { 2 }));
        let head = all.len() - rest.len();
        decompressed_are_sequence_numbers(words.skip(if words[0] < SEQ_MODULUS { 1 } else { 2 }));
        assert forall|i: int| 0 <= i < all.len() implies is_seq(#[trigger] all[i]) by {
            if i >= head {
                assert(all[i] == rest[i - head]);
            }
        }
    }
}

/// How many numbers at the start of `list` follow one another, counting no more than there
/// are sequence numbers.
pub open spec fn run_length(list: Seq<int>) -> nat
    decreases list.len(),
{
    if list.len() == 0 {
        0
    } else if list.len() == 1 {
        1
    } else {
        let shorter = run_length(list.drop_last());
        if shorter == list.len() - 1 && shorter < SEQ_MODULUS && list.last() == seq_plus(
            list[list.len() - 2],
            1,
        ) {
            list.len()
        } else {
            shorter
        }
    }
}

/// The shortest words for `list`: each run of two or more numbers is written as a range.
pub open spec fn compress(list: Seq<int>) -> Seq<u32>
    decreases list.len(),
{
    if list.len() == 0 {
        seq![]
    } else {
        proof {
            lemma_run_length(list);
        }
        let run = run_length(list) as int;
        let rest = compress(list.skip(run));
        if run == 1 {
            seq![list[0] as u32] + rest
        } else {
            seq![(SEQ_MODULUS + list[0]) as u32, list[run - 1] as u32] + rest
        }
    }
}

/// `run_length` is within its bounds, and the run it counts is one.
pub proof fn lemma_run_length(list: Seq<int>)
    ensures
        run_length(list) <= list.len(),
        run_length(list) <= SEQ_MODULUS,
        list.len() > 0 ==> run_length(list) > 0,
        forall|i: int|
            0 <= i < run_length(list) && is_seq(list[0]) ==> #[trigger] list[i] == seq_plus(
                list[0],
                i,
            ),
    decreases list.len(),
{
    if list.len() > 1 {
        let shorter = list.drop_last();
        lemma_run_length(shorter);
        assert forall|i: int| 0 <= i < run_length(list) && is_seq(list[0]) implies #[trigger] list[i]
            == seq_plus(list[0], i) by {
            if i < shorter.len() {
                assert(shorter[i] == list[i]);
            } else {
                assert(shorter[i - 1] == list[i - 1]);
            }
        }
    }
}

/// A run stays one when the list goes on.
proof fn lemma_run_length_of_prefix(list: Seq<int>, n: int)
    requires
        0 <= n <= list.len(),
    ensures
        run_length(list.take(n)) < n ==> run_length(list) == run_length(list.take(n)),
        run_length(list.take(n)) == SEQ_MODULUS ==> run_length(list) == SEQ_MODULUS,
    decreases list.len() - n,
{
    if n < list.len() {
        let longer = list.take(n + 1);
        assert(longer.drop_last() =~= list.take(n));
        lemma_run_length(list.take(n));
        lemma_run_length_of_prefix(list, n + 1);
    } else {
        assert(list.take(n) =~= list);
    }
}

/// Decompressing what was compressed gives the list back.
pub proof fn decompress_undoes_compress(list: Seq<int>)
    requires
        forall|i: int| 0 <= i < list.len() ==> is_seq(#[trigger] list[i]),
    ensures
        decompress(compress(list)) == list,
    decreases list.len(),
{
    lemma_run_length(list);
    if list.len() > 0 {
        let run = run_length(list) as int;
        let rest = list.skip(run);
        decompress_undoes_compress(rest);
        let words = compress(list);
        assert(is_seq(list[0]) && is_seq(list[run - 1]));
        if run == 1 {
            assert(words.skip(1) =~= compress(rest));
            assert(decompress(words) =~= seq![list[0]] + rest);
        } else {
            assert(words[0] == SEQ_MODULUS + list[0]);
            assert(words.skip(2) =~= compress(rest));
            assert(list[run - 1] == seq_plus(list[0], run - 1));
            assert(seq_range(list[0], list[run - 1]) =~= list.take(run));
        }
        assert(list.take(run) + rest =~= list);
    }
}

/// A list of lost sequence numbers, as it stands in a packet.
#[derive(Debug)]
pub struct CompressedLossList {
    words: Vec<u32>,
}

impl View for CompressedLossList {
    type V = Seq<u32>;

    closed spec fn view(&self) -> Seq<u32> {
        self.words@
    }
}

/// The values of sequence numbers.
pub open spec fn seq_values(list: Seq<SeqNumber>) -> Seq<int> {
    list.map_values(|s: SeqNumber| s@)
}

impl CompressedLossList {
    /// The loss list that a packet with these words holds.
    pub fn from_words(words: Vec<u32>) -> (r: CompressedLossList)
        ensures
            r@ == words@,
    {
        CompressedLossList { words }
    }

    /// The loss list that stands for `list`, in as few words as its runs allow.
    pub fn from_loss_list(list: Vec<SeqNumber>) -> (r: CompressedLossList)
        ensures
            r@ == compress(seq_values(list@)),
            decompress(r@) == seq_values(list@),
    {
        let ghost all = seq_values(list@);
        let mut words: Vec<u32> = Vec::new();
        let mut start: usize = 0;
        assert(all.skip(0) =~= all);
        assert(words@ + compress(all) =~= compress(all));
        while start < list.len()
            invariant
                start <= list.len(),
                all == seq_values(list@),
                words@ + compress(all.skip(start as int)) == compress(all),
                forall|i: int| 0 <= i < start ==> is_seq(#[trigger] all[i]),
            decreases list.len() - start,
        {
            let ghost rest = all.skip(start as int);
            let ghost words_before = words@;
            let first: u32 = list[start].as_raw();
            let mut last: u32 = first;
            let mut run: usize = 1;
            assert(rest.take(1).len() == 1);
            while start + run < list.len() && run < SEQ_MODULUS as usize && list[start + run]
                == list[start + run - 1].plus(1)
                invariant
                    1 <= run <= list.len() - start,
                    run <= SEQ_MODULUS,
                    start < list.len(),
                    all == seq_values(list@),
                    rest == all.skip(start as int),
                    run_length(rest.take(run as int)) == run,
                    first == rest[0],
                    last == rest[run - 1],
                    forall|i: int| 0 <= i < start + run ==> is_seq(#[trigger] all[i]),
                decreases list.len() - run,
            {
                last = list[start + run].as_raw();
                run = run + 1;
                assert(rest.take(run as int).drop_last() =~= rest.take(run - 1));
            }
            proof {
                if start + run < list.len() {
                    lemma_run_length(rest.take(run as int));
                    if run == SEQ_MODULUS {
                        lemma_run_length_of_prefix(rest, run as int);
                    } else {
                        broadcast use seq_number_is_its_value;

                        let longer = rest.take(run + 1);
                        assert(longer.drop_last() =~= rest.take(run as int));
                        assert(longer.last() == list@[start + run]@);
                        assert(run_length(longer) == run);
                        lemma_run_length_of_prefix(rest, run + 1);
                    }
                } else {
                    assert(rest.take(run as int) =~= rest);
                }
                assert(run_length(rest) == run);
                assert(rest.skip(run as int) =~= all.skip(start + run));
            }
            if run == 1 {
                words.push(first);
            } else {
                words.push(SEQ_MODULUS + first);
                words.push(last);
            }
            proof {
                assert(words@ + compress(rest.skip(run as int)) =~= words_before + compress(rest));
            }
            start = start + run;
        }
        proof {
            assert(all.skip(start as int) =~= Seq::<int>::empty());
            assert(words@ =~= compress(all));
            decompress_undoes_compress(all);
        }
        CompressedLossList { words }
    }

    /// The sequence numbers in the list, one after the other.
    pub fn iter_decompressed(&self) -> (r: LossListIter<'_>)
        ensures
            r@ == decompress(self@),
    {
        let r = LossListIter { words: &self.words, position: 0, range: None };
        assert(self.words@.skip(0) =~= self.words@);
        assert(r@ =~= decompress(self@));
        r
    }
}

/// Hands out the sequence numbers in a loss list, one after the other.
pub struct LossListIter<'a> {
    words: &'a Vec<u32>,
    position: usize,
    /// The next number of a range, and how many more follow it.
    range: Option<(SeqNumber, u32)>,
}

impl<'a> View for LossListIter<'a> {
    type V = Seq<int>;

    /// The numbers that are still to come.
    closed spec fn view(&self) -> Seq<int> {
        let rest = decompress(self.words@.skip(self.position as int));
        match self.range {
            Some((next, more)) => seq_run(next@, (more + 1) as nat) + rest,
            None => rest,
        }
    }
}

impl<'a> LossListIter<'a> {
    #[verifier::type_invariant]
    spec fn in_bounds(self) -> bool {
        self.position <= self.words@.len()
    }

    /// The next sequence number, if there is one.
    pub fn next(&mut self) -> (r: Option<SeqNumber>)
        ensures
            match r {
                Some(s) => {
                    &&& old(self)@.len() > 0
                    &&& s@ == old(self)@[0]
                    &&& final(self)@ == old(self)@.drop_first()
                },
                None => old(self)@.len() == 0 && final(self)@ == old(self)@,
            },
    {
        proof {
            use_type_invariant(&*self);
        }
        let ghost before = self@;
        let ghost rest = self.words@.skip(self.position as int);
        if let Some((next, more)) = self.range {
            proof {
                use_type_invariant(&next);
                lemma_run_step(next@, (more + 1) as nat);
                assert(seq_run(seq_plus(next@, 1), 0) =~= seq![]);
            }
            if more == 0 {
                self.range = None;
            } else {
                self.range = Some((next.plus(1), more - 1));
            }
            assert(self@ =~= before.drop_first());
            return Some(next);
        }
        if self.position >= self.words.len() {
            return None;
        }
        let word: u32 = self.words[self.position];
        assert(word == rest[0]);
        if word < SEQ_MODULUS {
            self.position = self.position + 1;
            assert(self.words@.skip(self.position as int) =~= rest.skip(1));
            assert(self@ =~= before.drop_first());
            return Some(SeqNumber::new_truncate(word));
        }
        if self.words.len() - self.position == 1 {
            return None;
        }
        let first = SeqNumber::new_truncate(word);
        let last = SeqNumber::new_truncate(self.words[self.position + 1]);
        let more: u32 = last.distance_from(first);
        proof {
            use_type_invariant(&first);
            assert(rest[1] == self.words@[self.position + 1]);
            lemma_run_step(first@, (more + 1) as nat);
            assert(seq_run(seq_plus(first@, 1), 0) =~= seq![]);
        }
        if more > 0 {
            self.range = Some((first.plus(1), more - 1));
        }
        self.position = self.position + 2;
        assert(self.words@.skip(self.position as int) =~= rest.skip(2));
        assert(self@ =~= before.drop_first());
        Some(first)
    }
}

/// A word with its top bit and the word after it stand for all sequence numbers from the first
/// to the last, one after the other, each once.
pub proof fn range_stands_for_all_in_it(first: u32, last: u32, x: int)
    requires
        first < 0x8000_0000,
        last < 0x8000_0000,
        0 <= x < 0x8000_0000,
    ensures
        ({
            let all = decompress(seq![(0x8000_0000 + first) as u32, last]);
            let steps = (last - first) % 0x8000_0000;
            &&& all.len() == steps + 1
            &&& all[0] == first
            &&& all.last() == last
            &&& forall|i: int|
                0 <= i <= steps ==> #[trigger] all[i] == (first + i) % 0x8000_0000
            &&& all.contains(x) <==> (x - first) % 0x8000_0000 <= steps
        }),
{
    let words = seq![(0x8000_0000 + first) as u32, last];
    let all = decompress(words);
    let steps = (last - first) % 0x8000_0000;
    assert(words[0] == 0x8000_0000 + first);
    assert(words.skip(2) =~= Seq::<u32>::empty());
    assert(decompress(words.skip(2)) =~= Seq::<int>::empty());
    assert(all =~= seq_range(first as int, last as int));
    let place = (x - first) % 0x8000_0000;
    if place <= steps {
        assert(all[place] == x);
    }
    if all.contains(x) {
        let i = choose|i: int| 0 <= i < all.len() && all[i] == x;
        assert(x == (first + i) % 0x8000_0000);
    }
}

/// A word without its top bit stands for itself.
pub proof fn word_stands_for_itself(word: u32)
    requires
        word < 0x8000_0000,
    ensures
        decompress(seq![word]) == seq![word as int],
{
    assert(seq![word].skip(1) =~= Seq::<u32>::empty());
    assert(decompress(seq![word].skip(1)) =~= Seq::<int>::empty());
    assert(decompress(seq![word]) =~= seq![word as int]);
}

/// What stands behind a word, or behind a range, is read as if it stood alone.
pub proof fn words_are_read_one_after_the_other(first: u32, last: u32, rest: Seq<u32>)
    ensures
        decompress(Seq::<u32>::empty()) == Seq::<int>::empty(),
        first < 0x8000_0000 ==> decompress(seq![first] + rest) == decompress(seq![first])
            + decompress(rest),
        first >= 0x8000_0000 ==> decompress(seq![first, last] + rest) == decompress(
            seq![first, last],
        ) + decompress(rest),
        first >= 0x8000_0000 ==> decompress(seq![first]) == Seq::<int>::empty(),
        first >= 0x8000_0000 ==> decompress(seq![first, last]) == decompress(
            seq![first, (last % 0x8000_0000) as u32],
        ),
{
    assert((seq![first] + rest).skip(1) =~= rest);
    assert((seq![first, last] + rest).skip(2) =~= rest);
    assert(decompress(Seq::<u32>::empty()) =~= Seq::<int>::empty());
    assert(seq![first].skip(1) =~= Seq::<u32>::empty());
    assert(seq![first, last].skip(2) =~= Seq::<u32>::empty());
    assert(seq![first, (last % 0x8000_0000) as u32].skip(2) =~= Seq::<u32>::empty());
    assert((seq![first] + rest)[0] == first);
    assert((seq![first, last] + rest)[0] == first && (seq![first, last] + rest)[1] == last);
    assert(first < 0x8000_0000 ==> decompress(seq![first] + rest) =~= decompress(seq![first])
        + decompress(rest));
    assert(first >= 0x8000_0000 ==> decompress(seq![first, last] + rest) =~= decompress(
        seq![first, last],
    ) + decompress(rest));
}

/// The values of sequence numbers are those of all of them, in their order.
pub proof fn each_number_has_its_value(list: Seq<SeqNumber>)
    ensures
        seq_values(list).len() == list.len(),
        forall|i: int| 0 <= i < list.len() ==> #[trigger] seq_values(list)[i] == list[i]@,
{
}

/// Numbers that follow one another make one run.
proof fn lemma_run_of_followers(list: Seq<int>)
    requires
        0 < list.len() <= SEQ_MODULUS,
        forall|i: int| 0 <= i < list.len() ==> #[trigger] list[i] == seq_plus(list[0], i),
    ensures
        run_length(list) == list.len(),
    decreases list.len(),
{
    if list.len() > 1 {
        let shorter = list.drop_last();
        assert forall|i: int| 0 <= i < shorter.len() implies #[trigger] shorter[i] == seq_plus(
            shorter[0],
            i,
        ) by {
            assert(shorter[i] == list[i]);
        }
        lemma_run_of_followers(shorter);
        assert(list[list.len() - 2] == seq_plus(list[0], list.len() - 2));
        assert(list.last() == seq_plus(list[0], list.len() - 1));
    }
}

/// Two or more numbers that follow one another are written in two words, the first with its
/// top bit, and the last.
pub proof fn run_is_written_as_a_range(list: Seq<int>)
    requires
        2 <= list.len() <= 0x8000_0000,
        0 <= list[0] < 0x8000_0000,
        forall|i: int|
            0 <= i < list.len() ==> #[trigger] list[i] == (list[0] + i) % 0x8000_0000,
    ensures
        compress(list) == seq![(0x8000_0000 + list[0]) as u32, list.last() as u32],
{
    lemma_run_of_followers(list);
    let rest = list.skip(list.len() as int);
    assert(rest =~= Seq::<int>::empty());
    assert(compress(rest) =~= Seq::<u32>::empty());
    assert(compress(list) =~= seq![(0x8000_0000 + list[0]) as u32, list.last() as u32]);
}

/// What is written for a list takes no more words than the list has numbers.
pub proof fn written_list_is_no_longer(list: Seq<int>)
    ensures
        compress(list).len() <= list.len(),
    decreases list.len(),
{
    if list.len() > 0 {
        lemma_run_length(list);
        written_list_is_no_longer(list.skip(run_length(list) as int));
    }
}

} // verus!
