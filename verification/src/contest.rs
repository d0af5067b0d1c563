//! The reindeer contest: one winner for each of four criteria, and a sentence
//! for each winner.

use crate::text::{decimal, push_decimal};
use vstd::prelude::*;
use vstd::string::StringExecFns;

verus! {

/// A reindeer and its strength.
pub struct Reindeer {
    pub name: String,
    pub strength: u64,
}

/// How fast a reindeer is, as the integer that stands for its speed in the
/// order of all speeds: the greater speed has the greater rank, and equal
/// speeds have equal ranks. A speed that is no number has no rank.
#[derive(Clone, Copy, Debug, PartialEq, Eq, Structural)]
pub enum Speed {
    Rank(i64),
    NotANumber,
}

/// A reindeer entered in the contest.
pub struct ReindeerContest {
    pub name: String,
    pub strength: u64,
    pub speed: Speed,
    pub height: u64,
    pub antler_width: u64,
    pub snow_magic_power: u64,
    pub favorite_food: String,
    pub candies_eaten_yesterday: u64,
}

/// The four sentences of a contest, one for each winner.
pub struct ContestResult {
    pub fastest: String,
    pub tallest: String,
    pub magician: String,
    pub consumer: String,
}

/// The place of the greatest of `keys`; where several are the greatest, the
/// first of them.
pub open spec fn first_max(keys: Seq<int>) -> int
    decreases keys.len(),
{
    if keys.len() <= 1 {
        0
    } else {
        let before = first_max(keys.drop_last());
        if keys.last() > keys[before] {
            keys.len() - 1
        } else {
            before
        }
    }
}

/// Whether `winner` is the place of a strict maximum of `keys` by first
/// occurrence: no key is greater, and every key before it is smaller.
pub open spec fn is_first_max(keys: Seq<int>, winner: int) -> bool {
    &&& 0 <= winner < keys.len()
    &&& forall|j: int| 0 <= j < keys.len() ==> keys[j] <= keys[winner]
    &&& forall|j: int| 0 <= j < winner ==> keys[j] < keys[winner]
}

/// The rank of the speed of `r`.
pub open spec fn speed_key(r: ReindeerContest) -> int {
    match r.speed {
        Speed::Rank(k) => k as int,
        Speed::NotANumber => 0,
    }
}

/// The ranks of the speeds, in the order of entry.
pub open spec fn speeds(rs: Seq<ReindeerContest>) -> Seq<int> {
    rs.map_values(|r: ReindeerContest| speed_key(r))
}

/// The heights, in the order of entry.
pub open spec fn heights(rs: Seq<ReindeerContest>) -> Seq<int> {
    rs.map_values(|r: ReindeerContest| r.height as int)
}

/// The snow magic powers, in the order of entry.
pub open spec fn magic_powers(rs: Seq<ReindeerContest>) -> Seq<int> {
    rs.map_values(|r: ReindeerContest| r.snow_magic_power as int)
}

/// The numbers of candies eaten, in the order of entry.
pub open spec fn candies(rs: Seq<ReindeerContest>) -> Seq<int> {
    rs.map_values(|r: ReindeerContest| r.candies_eaten_yesterday as int)
}

/// Whether a contest has winners: there is a reindeer, and every speed is a
/// number.
pub open spec fn can_be_judged(rs: Seq<ReindeerContest>) -> bool {
    &&& rs.len() > 0
    &&& forall|i: int| 0 <= i < rs.len() ==> (#[trigger] rs[i]).speed is Rank
}

/// The sentence for the fastest reindeer. It cites the winner's strength.
pub open spec fn fastest_sentence(r: ReindeerContest) -> Seq<char> {
    "Speeding past the finish line with a strength of "@ + decimal(r.strength as nat) + " is "@
        + r.name@
}

/// The sentence for the tallest reindeer. It cites the width of the
/// winner's antlers.
pub open spec fn tallest_sentence(r: ReindeerContest) -> Seq<char> {
    r.name@ + " is standing tall with his "@ + decimal(r.antler_width as nat)
        + " cm wide antlers"@
}

/// The sentence for the reindeer with the greatest snow magic power.
pub open spec fn magician_sentence(r: ReindeerContest) -> Seq<char> {
    r.name@ + " could blast you away with a snow magic power of "@ + decimal(
        r.snow_magic_power as nat,
    )
}

/// The sentence for the reindeer that ate the most candies. It cites the
/// winner's favorite food.
pub open spec fn consumer_sentence(r: ReindeerContest) -> Seq<char> {
    r.name@ + " ate lots of candies, but also some "@ + r.favorite_food@
}

impl ContestResult {
    /// Whether the four sentences are those of the four winners of `rs`.
    pub open spec fn tells(self, rs: Seq<ReindeerContest>) -> bool {
        &&& self.fastest@ == fastest_sentence(rs[first_max(speeds(rs))])
        &&& self.tallest@ == tallest_sentence(rs[first_max(heights(rs))])
        &&& self.magician@ == magician_sentence(rs[first_max(magic_powers(rs))])
        &&& self.consumer@ == consumer_sentence(rs[first_max(candies(rs))])
    }
}

/// The sentences are a function of the entries: two results for the same
/// contest, each as `get_result` promises it, read the same.
pub proof fn lemma_result_is_determined(rs: Seq<ReindeerContest>, a: ContestResult, b: ContestResult)
    requires
        a.tells(rs),
        b.tells(rs),
    ensures
        a.fastest@ == b.fastest@,
        a.tallest@ == b.tallest@,
        a.magician@ == b.magician@,
        a.consumer@ == b.consumer@,
{
}

/// The place that `first_max` gives is a strict maximum by first occurrence.
pub proof fn lemma_first_max_is_first_max(keys: Seq<int>)
    requires
        keys.len() > 0,
    ensures
        is_first_max(keys, first_max(keys)),
    decreases keys.len(),
{
    if keys.len() > 1 {
        lemma_first_max_is_first_max(keys.drop_last());
        let before = first_max(keys.drop_last());
        assert(forall|j: int| 0 <= j < keys.len() - 1 ==> keys.drop_last()[j] == keys[j]);
    }
}

/// There is one strict maximum by first occurrence, no more.
pub proof fn lemma_first_max_is_unique(keys: Seq<int>, a: int, b: int)
    requires
        is_first_max(keys, a),
        is_first_max(keys, b),
    ensures
        a == b,
{
    if a < b {
        assert(keys[a] < keys[b]);
        assert(keys[b] <= keys[a]);
    } else if b < a {
        assert(keys[b] < keys[a]);
        assert(keys[a] <= keys[b]);
    }
}

/// Of two places with the greatest key, the earlier wins: the winner is
/// never the later of them.
pub proof fn lemma_tie_goes_to_the_earlier(keys: Seq<int>, earlier: int, later: int)
    requires
        0 <= earlier < later < keys.len(),
        keys[earlier] == keys[later],
        forall|j: int| 0 <= j < keys.len() ==> keys[j] <= keys[earlier],
    ensures
        first_max(keys) <= earlier,
        first_max(keys) != later,
        (forall|j: int| 0 <= j < earlier ==> keys[j] < keys[earlier]) ==> first_max(keys)
            == earlier,
{
    lemma_first_max_is_first_max(keys);
    let w = first_max(keys);
    assert(keys[later] <= keys[w]);
    assert(keys[w] <= keys[earlier]);
    if w > earlier {
        assert(keys[earlier] < keys[w]);
    }
    if forall|j: int| 0 <= j < earlier ==> keys[j] < keys[earlier] {
        if w < earlier {
            assert(keys[w] < keys[earlier]);
            assert(keys[earlier] <= keys[w]);
        }
    }
}

/// The winner depends on the keys of the criterion alone: contests that
/// agree on them have their winner at the same place, whatever else differs.
pub proof fn lemma_winner_depends_on_keys_alone(a: Seq<ReindeerContest>, b: Seq<ReindeerContest>)
    ensures
        speeds(a) == speeds(b) ==> first_max(speeds(a)) == first_max(speeds(b)),
        heights(a) == heights(b) ==> first_max(heights(a)) == first_max(heights(b)),
        magic_powers(a) == magic_powers(b) ==> first_max(magic_powers(a)) == first_max(
            magic_powers(b),
        ),
        candies(a) == candies(b) ==> first_max(candies(a)) == first_max(candies(b)),
{
}

fn write_fastest(r: &ReindeerContest) -> (s: String)
    ensures
        s@ == fastest_sentence(*r),
{
    let mut s = String::from_str("Speeding past the finish line with a strength of ");
    push_decimal(&mut s, r.strength);
    s.append(" is ");
    s.append(r.name.as_str());
    s
}

fn write_tallest(r: &ReindeerContest) -> (s: String)
    ensures
        s@ == tallest_sentence(*r),
{
    let mut s = r.name.clone();
    s.append(" is standing tall with his ");
    push_decimal(&mut s, r.antler_width);
    s.append(" cm wide antlers");
    s
}

fn write_magician(r: &ReindeerContest) -> (s: String)
    ensures
        s@ == magician_sentence(*r),
{
    let mut s = r.name.clone();
    s.append(" could blast you away with a snow magic power of ");
    push_decimal(&mut s, r.snow_magic_power);
    s
}

fn write_consumer(r: &ReindeerContest) -> (s: String)
    ensures
        s@ == consumer_sentence(*r),
{
    let mut s = r.name.clone();
    s.append(" ate lots of candies, but also some ");
    s.append(r.favorite_food.as_str());
    s
}

impl ContestResult {
    /// Judges the contest: the fastest, the tallest, the reindeer with the
    /// greatest snow magic power and the one that ate the most candies, each
    /// the first in the order of entry among those that are the greatest,
    /// and a sentence for each. A contest without a reindeer, or with a
    /// speed that is no number, has no result.
    pub fn get_result(reindeers: Vec<ReindeerContest>) -> (result: Option<Self>)
        ensures
            match result {
                Some(r) => can_be_judged(reindeers@) && r.tells(reindeers@),
                None => !can_be_judged(reindeers@),
            },
    {
        let n = reindeers.len();
        if n == 0 {
            return None;
        }
        let mut best_rank: i64 = match reindeers[0].speed {
            Speed::Rank(k) => k,
            Speed::NotANumber => { return None; },
        };
        let mut fastest: usize = 0;
        let mut tallest: usize = 0;
        let mut magician: usize = 0;
        let mut consumer: usize = 0;
        let mut i: usize = 1;
        let ghost rs = reindeers@;
        while i < n
            invariant
                1 <= i <= n,
                n == reindeers@.len(),
                rs == reindeers@,
                forall|k: int| 0 <= k < i ==> (#[trigger] rs[k]).speed is Rank,
                fastest == first_max(speeds(rs.take(i as int))),
                tallest == first_max(heights(rs.take(i as int))),
                magician == first_max(magic_powers(rs.take(i as int))),
                consumer == first_max(candies(rs.take(i as int))),
                fastest < i,
                tallest < i,
                magician < i,
                consumer < i,
                best_rank == speed_key(rs[fastest as int]),
            decreases n - i,
        {
            let r = &reindeers[i];
            let rank: i64 = match r.speed {
                Speed::Rank(k) => k,
                Speed::NotANumber => { return None; },
            };
            proof {
                let longer = rs.take(i + 1);
                assert(longer.drop_last() =~= rs.take(i as int));
                assert(speeds(longer).drop_last() =~= speeds(rs.take(i as int)));
                assert(heights(longer).drop_last() =~= heights(rs.take(i as int)));
                assert(magic_powers(longer).drop_last() =~= magic_powers(rs.take(i as int)));
                assert(candies(longer).drop_last() =~= candies(rs.take(i as int)));
            }
            if rank > best_rank {
                fastest = i;
                best_rank = rank;
            }
            if r.height > reindeers[tallest].height {
                tallest = i;
            }
            if r.snow_magic_power > reindeers[magician].snow_magic_power {
                magician = i;
            }
            if r.candies_eaten_yesterday > reindeers[consumer].candies_eaten_yesterday {
                consumer = i;
            }
            i += 1;
        }
        proof {
            assert(rs.take(i as int) =~= rs);
        }
        Some(
            ContestResult {
                fastest: write_fastest(&reindeers[fastest]),
                tallest: write_tallest(&reindeers[tallest]),
                magician: write_magician(&reindeers[magician]),
                consumer: write_consumer(&reindeers[consumer]),
            },
        )
    }
}

/// The strengths of the reindeers, added up.
pub open spec fn total_strength(reindeers: Seq<Reindeer>) -> nat
    decreases reindeers.len(),
{
    if reindeers.len() == 0 {
        0
    } else {
        total_strength(reindeers.drop_last()) + reindeers.last().strength as nat
    }
}

/// The sum of the strengths of the reindeers, or `None` where the sum does
/// not fit in 64 bits.
pub fn reindeer_strength(reindeers: &Vec<Reindeer>) -> (sum: Option<u64>)
    ensures
        sum == if total_strength(reindeers@) <= u64::MAX {
            Some(total_strength(reindeers@) as u64)
        } else {
            None
        },
{
    let mut sum: u64 = 0;
    let mut i: usize = 0;
    while i < reindeers.len()
        invariant
            i <= reindeers.len(),
            sum == total_strength(reindeers@.take(i as int)),
        decreases reindeers.len() - i,
    {
        proof {
            assert(reindeers@.take(i + 1).drop_last() =~= reindeers@.take(i as int));
        }
        let strength = reindeers[i].strength;
        if strength > u64::MAX - sum {
            proof {
                lemma_total_strength_grows(reindeers@, i + 1);
            }
            return None;
        }
        sum += strength;
        i += 1;
    }
    proof {
        assert(reindeers@.take(i as int) =~= reindeers@);
    }
    Some(sum)
}

/// The strengths of the first reindeers add up to no more than those of all.
pub proof fn lemma_total_strength_grows(reindeers: Seq<Reindeer>, n: int)
    requires
        0 <= n <= reindeers.len(),
    ensures
        total_strength(reindeers.take(n)) <= total_strength(reindeers),
    decreases reindeers.len() - n,
{
    if n < reindeers.len() {
        assert(reindeers.take(n + 1).drop_last() =~= reindeers.take(n));
        lemma_total_strength_grows(reindeers, n + 1);
    } else {
        assert(reindeers.take(n) =~= reindeers);
    }
}

} // verus!
