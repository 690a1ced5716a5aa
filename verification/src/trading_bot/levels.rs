//! One side of an order book: sizes by price key, in the order of the keys.

use crate::arithmetic::first_summand;
use crate::arithmetic::sum_is_not_negative;
use crate::binary64::number;
use crate::binary64::Binary64;
use crate::numbers::MINUS_ZERO;
use crate::numbers::ZERO;
use vstd::prelude::*;

verus! {

/// A price key and the size at it.
pub type Level = (i64, Binary64);

/// Whether each key is above the one before it.
pub open spec fn ascending(levels: Seq<Level>) -> bool {
    forall|i: int, j: int| 0 <= i < j < levels.len() ==> levels[i].0 < levels[j].0
}

/// The levels after `size` is put at `key`.
pub open spec fn with_level(levels: Seq<Level>, key: i64, size: Binary64) -> Seq<Level>
    decreases levels.len(),
{
    if levels.len() == 0 || key < levels[0].0 {
        seq![(key, size)] + levels
    } else if key == levels[0].0 {
        seq![(key, size)] + levels.drop_first()
    } else {
        seq![levels[0]] + with_level(levels.drop_first(), key, size)
    }
}

/// The levels other than the one at `key`.
pub open spec fn without_level(levels: Seq<Level>, key: i64) -> Seq<Level> {
    levels.filter(|level: Level| level.0 != key)
}

/// The levels whose key is above `key`.
pub open spec fn levels_above(levels: Seq<Level>, key: i64) -> Seq<Level>
    decreases levels.len(),
{
    if levels.len() == 0 || key < levels[0].0 {
        levels
    } else {
        levels_above(levels.drop_first(), key)
    }
}

/// The sum of the sizes, each cut to `cap`, from the lowest key up.
pub open spec fn capped_sum(levels: Seq<Level>, cap: Option<Binary64>) -> Binary64
    decreases levels.len(),
{
    if levels.len() == 0 {
        number(MINUS_ZERO)
    } else {
        let size = levels.last().1;
        capped_sum(levels.drop_last(), cap).plus(
            match cap {
                Some(limit) => size.min(limit),
                None => size,
            },
        )
    }
}

/// What stands at a key.
pub open spec fn size_at(levels: Seq<Level>, key: i64) -> Option<Binary64>
    decreases levels.len(),
{
    if levels.len() == 0 {
        None
    } else if levels[0].0 == key {
        Some(levels[0].1)
    } else {
        size_at(levels.drop_first(), key)
    }
}

proof fn lemma_with_level(levels: Seq<Level>, key: i64, size: Binary64, at: int)
    requires
        0 <= at <= levels.len(),
        forall|i: int| 0 <= i < at ==> levels[i].0 < key,
        at < levels.len() ==> levels[at].0 >= key,
    ensures
        with_level(levels, key, size) == levels.take(at).push((key, size)) + levels.skip(
            if at < levels.len() && levels[at].0 == key {
                at + 1
            } else {
                at
            },
        ),
    decreases at,
{
    if at == 0 {
        if levels.len() > 0 && levels[0].0 == key {
            assert(with_level(levels, key, size) =~= levels.take(at).push((key, size))
                + levels.skip(1));
        } else {
            assert(with_level(levels, key, size) =~= levels.take(at).push((key, size))
                + levels.skip(0));
        }
    } else {
        let rest = levels.drop_first();
        lemma_with_level(rest, key, size, at - 1);
        let cut = if at < levels.len() && levels[at].0 == key {
            at + 1
        } else {
            at
        };
        assert(rest.skip(cut - 1) =~= levels.skip(cut));
        assert(seq![levels[0]] + (rest.take(at - 1).push((key, size)) + rest.skip(cut - 1))
            =~= levels.take(at).push((key, size)) + levels.skip(cut));
    }
}

proof fn lemma_filter_all(levels: Seq<Level>, key: i64)
    requires
        forall|i: int| 0 <= i < levels.len() ==> levels[i].0 != key,
    ensures
        without_level(levels, key) == levels,
    decreases levels.len(),
{
    reveal(Seq::filter);
    if levels.len() > 0 {
        lemma_filter_all(levels.drop_last(), key);
        assert(levels.drop_last().push(levels.last()) =~= levels);
    }
}

proof fn lemma_without_level(levels: Seq<Level>, key: i64, at: int)
    requires
        ascending(levels),
        0 <= at < levels.len(),
        levels[at].0 == key,
    ensures
        without_level(levels, key) == levels.remove(at),
    decreases levels.len(),
{
    reveal(Seq::filter);
    let front = levels.drop_last();
    if at == levels.len() - 1 {
        lemma_filter_all(front, key);
        assert(levels.remove(at) =~= front);
    } else {
        lemma_without_level(front, key, at);
        assert(levels.remove(at) =~= front.remove(at).push(levels.last()));
    }
}

proof fn lemma_levels_above(levels: Seq<Level>, key: i64, at: int)
    requires
        0 <= at <= levels.len(),
        forall|i: int| 0 <= i < at ==> levels[i].0 <= key,
        at < levels.len() ==> levels[at].0 > key,
    ensures
        levels_above(levels, key) == levels.skip(at),
    decreases at,
{
    if at == 0 {
        assert(levels.skip(0) =~= levels);
    } else {
        lemma_levels_above(levels.drop_first(), key, at - 1);
        assert(levels.drop_first().skip(at - 1) =~= levels.skip(at));
    }
}

/// Putting a level keeps the order of the keys; it is what stands at its key afterwards, and
/// every other key keeps what it had.
pub proof fn with_level_reads_back(levels: Seq<Level>, key: i64, size: Binary64, other: i64)
    requires
        ascending(levels),
    ensures
        ascending(with_level(levels, key, size)),
        size_at(with_level(levels, key, size), other) == if other == key {
            Some(size)
        } else {
            size_at(levels, other)
        },
    decreases levels.len(),
{
    let put = with_level(levels, key, size);
    if levels.len() == 0 || key < levels[0].0 {
        assert(put.drop_first() =~= levels);
    } else if key == levels[0].0 {
        assert(put.drop_first() =~= levels.drop_first());
    } else {
        let rest = levels.drop_first();
        with_level_reads_back(rest, key, size, other);
        let put_rest = with_level(rest, key, size);
        assert(put.drop_first() =~= put_rest);
        assert forall|i: int| 0 <= i < put_rest.len() implies levels[0].0 < #[trigger] put_rest[i].0 by {
            lemma_keys_of_with_level(rest, key, size, i);
        }
        assert forall|i: int, j: int| 0 <= i < j < put.len() implies put[i].0 < put[j].0 by {
            if i == 0 {
                assert(put[j] == put_rest[j - 1]);
            } else {
                assert(put[i] == put_rest[i - 1] && put[j] == put_rest[j - 1]);
            }
        }
    }
}

proof fn lemma_keys_of_with_level(levels: Seq<Level>, key: i64, size: Binary64, i: int)
    requires
        0 <= i < with_level(levels, key, size).len(),
    ensures
        with_level(levels, key, size)[i].0 == key || exists|j: int|
            0 <= j < levels.len() && levels[j].0 == with_level(levels, key, size)[i].0,
    decreases levels.len(),
{
    let put = with_level(levels, key, size);
    if levels.len() == 0 || key < levels[0].0 {
        if i > 0 {
            assert(put[i] == levels[i - 1]);
        }
    } else if key == levels[0].0 {
        if i > 0 {
            assert(put[i] == levels[i]);
        }
    } else if i > 0 {
        let rest = levels.drop_first();
        lemma_keys_of_with_level(rest, key, size, i - 1);
        assert(put[i] == with_level(rest, key, size)[i - 1]);
        if put[i].0 != key {
            let j = choose|j: int| 0 <= j < rest.len() && rest[j].0 == put[i].0;
            assert(levels[j + 1].0 == put[i].0);
        }
    }
}

proof fn lemma_size_above_none(levels: Seq<Level>, key: i64)
    requires
        forall|i: int| 0 <= i < levels.len() ==> levels[i].0 != key,
    ensures
        size_at(levels, key) is None,
    decreases levels.len(),
{
    if levels.len() > 0 {
        lemma_size_above_none(levels.drop_first(), key);
    }
}

/// Dropping a level keeps the order of the keys; nothing stands at its key afterwards, and every
/// other key keeps what it had.
pub proof fn without_level_reads_back(levels: Seq<Level>, key: i64, other: i64)
    requires
        ascending(levels),
    ensures
        ascending(without_level(levels, key)),
        size_at(without_level(levels, key), other) == if other == key {
            None
        } else {
            size_at(levels, other)
        },
    decreases levels.len(),
{
    if exists|at: int| 0 <= at < levels.len() && levels[at].0 == key {
        let at = choose|at: int| 0 <= at < levels.len() && levels[at].0 == key;
        lemma_without_level(levels, key, at);
        let left = levels.remove(at);
        if at == 0 {
            assert(left =~= levels.drop_first());
            lemma_size_above_none(left, key);
        } else {
            let rest = levels.drop_first();
            assert(rest[at - 1].0 == key);
            without_level_reads_back(rest, key, other);
            lemma_without_level(rest, key, at - 1);
            assert(left.drop_first() =~= rest.remove(at - 1));
        }
    } else {
        lemma_filter_all(levels, key);
        lemma_size_above_none(levels, key);
    }
}

/// Whether every size is above zero.
pub open spec fn positive(levels: Seq<Level>) -> bool {
    forall|i: int| 0 <= i < levels.len() ==> (#[trigger] levels[i]).1.gt(number(ZERO))
}

/// Putting a size above zero leaves only sizes above zero.
pub proof fn with_level_stays_positive(levels: Seq<Level>, key: i64, size: Binary64)
    requires
        positive(levels),
        size.gt(number(ZERO)),
    ensures
        positive(with_level(levels, key, size)),
    decreases levels.len(),
{
    let put = with_level(levels, key, size);
    if levels.len() > 0 && key > levels[0].0 {
        let rest = levels.drop_first();
        with_level_stays_positive(rest, key, size);
        assert forall|i: int| 0 <= i < put.len() implies (#[trigger] put[i]).1.gt(number(ZERO)) by {
            if i > 0 {
                assert(put[i] == with_level(rest, key, size)[i - 1]);
            }
        }
    } else {
        assert forall|i: int| 0 <= i < put.len() implies (#[trigger] put[i]).1.gt(number(ZERO)) by {
            if i > 0 {
                if levels.len() > 0 && key == levels[0].0 {
                    assert(put[i] == levels[i]);
                } else {
                    assert(put[i] == levels[i - 1]);
                }
            }
        }
    }
}

/// Dropping a level leaves only sizes above zero.
pub proof fn without_level_stays_positive(levels: Seq<Level>, key: i64)
    requires
        positive(levels),
    ensures
        positive(without_level(levels, key)),
    decreases levels.len(),
{
    reveal(Seq::filter);
    if levels.len() > 0 {
        without_level_stays_positive(levels.drop_last(), key);
    }
}

/// Whether every size is finite.
pub open spec fn finite_sizes(levels: Seq<Level>) -> bool {
    forall|i: int| 0 <= i < levels.len() ==> (#[trigger] levels[i]).1.is_finite()
}

/// Putting a finite size leaves only finite sizes.
pub proof fn with_level_stays_finite(levels: Seq<Level>, key: i64, size: Binary64)
    requires
        finite_sizes(levels),
        size.is_finite(),
    ensures
        finite_sizes(with_level(levels, key, size)),
    decreases levels.len(),
{
    let put = with_level(levels, key, size);
    if levels.len() > 0 && key > levels[0].0 {
        with_level_stays_finite(levels.drop_first(), key, size);
    }
    assert forall|i: int| 0 <= i < put.len() implies (#[trigger] put[i]).1.is_finite() by {
        if i > 0 && levels.len() > 0 {
            if key > levels[0].0 {
                assert(put[i] == with_level(levels.drop_first(), key, size)[i - 1]);
            } else if key == levels[0].0 {
                assert(put[i] == levels[i]);
            } else {
                assert(put[i] == levels[i - 1]);
            }
        }
    }
}

/// Dropping a level leaves only finite sizes.
pub proof fn without_level_stays_finite(levels: Seq<Level>, key: i64)
    requires
        finite_sizes(levels),
    ensures
        finite_sizes(without_level(levels, key)),
    decreases levels.len(),
{
    reveal(Seq::filter);
    if levels.len() > 0 {
        without_level_stays_finite(levels.drop_last(), key);
    }
}

/// The levels above a key are levels.
pub proof fn levels_above_stay_positive(levels: Seq<Level>, key: i64)
    requires
        positive(levels),
    ensures
        positive(levels_above(levels, key)),
    decreases levels.len(),
{
    if levels.len() > 0 && key >= levels[0].0 {
        levels_above_stay_positive(levels.drop_first(), key);
    }
}

/// The sum of sizes above zero is a number, and not negative where there is any.
pub proof fn capped_sum_is_not_negative(levels: Seq<Level>, cap: Binary64)
    requires
        positive(levels),
        cap.gt(number(ZERO)),
    ensures
        !capped_sum(levels, Some(cap)).is_nan(),
        levels.len() > 0 ==> !capped_sum(levels, Some(cap)).negative(),
    decreases levels.len(),
{
    if levels.len() > 0 {
        let front = levels.drop_last();
        capped_sum_is_not_negative(front, cap);
        let size = levels.last().1;
        let part = size.min(cap);
        assert(part.gt(number(ZERO)));
        if front.len() > 0 {
            sum_is_not_negative(capped_sum(front, Some(cap)), part);
        } else {
            first_summand(part);
        }
    }
}

/// The highest key of a side is its last, and the lowest its first.
pub proof fn ends_are_extreme(levels: Seq<Level>, i: int)
    requires
        ascending(levels),
        0 <= i < levels.len(),
    ensures
        levels.first().0 <= levels[i].0 <= levels.last().0,
{
}

/// The levels of one side.
#[derive(Debug)]
pub struct PriceLevels {
    levels: Vec<Level>,
}

impl View for PriceLevels {
    type V = Seq<Level>;

    closed spec fn view(&self) -> Seq<Level> {
        self.levels@
    }
}

impl PriceLevels {
    #[verifier::type_invariant]
    spec fn in_order(self) -> bool {
        ascending(self.levels@)
    }

    pub fn new() -> (r: PriceLevels)
        ensures
            r@ == Seq::<Level>::empty(),
    {
        PriceLevels { levels: Vec::new() }
    }

    fn first_at_least(&self, key: i64) -> (at: usize)
        ensures
            at <= self.levels.len(),
            forall|i: int| 0 <= i < at ==> self.levels[i].0 < key,
            at < self.levels.len() ==> self.levels[at as int].0 >= key,
    {
        let mut at: usize = 0;
        while at < self.levels.len() && self.levels[at].0 < key
            invariant
                at <= self.levels.len(),
                forall|i: int| 0 <= i < at ==> self.levels[i].0 < key,
            decreases self.levels.len() - at,
        {
            at = at + 1;
        }
        at
    }

    /// Puts a size at a key.
    pub fn insert(&mut self, key: i64, size: Binary64)
        ensures
            final(self)@ == with_level(old(self)@, key, size),
    {
        proof {
            use_type_invariant(&*self);
        }
        let at: usize = self.first_at_least(key);
        let ghost before = self.levels@;
        let mut levels: Vec<Level> = Vec::new();
        std::mem::swap(&mut levels, &mut self.levels);
        proof {
            lemma_with_level(before, key, size, at as int);
            with_level_reads_back(before, key, size, key);
        }
        if at < levels.len() && levels[at].0 == key {
            levels[at] = (key, size);
            assert(levels@ =~= before.take(at as int).push((key, size)) + before.skip(at + 1));
        } else {
            levels.insert(at, (key, size));
            assert(levels@ =~= before.take(at as int).push((key, size)) + before.skip(at as int));
        }
        self.levels = levels;
    }

    /// Drops the level at a key.
    pub fn remove(&mut self, key: i64)
        ensures
            final(self)@ == without_level(old(self)@, key),
    {
        proof {
            use_type_invariant(&*self);
        }
        let at: usize = self.first_at_least(key);
        let ghost before = self.levels@;
        let mut levels: Vec<Level> = Vec::new();
        std::mem::swap(&mut levels, &mut self.levels);
        proof {
            without_level_reads_back(before, key, key);
        }
        if at < levels.len() && levels[at].0 == key {
            proof {
                lemma_without_level(before, key, at as int);
            }
            let _ = levels.remove(at);
        } else {
            proof {
                lemma_filter_all(before, key);
            }
        }
        self.levels = levels;
    }

    /// The lowest key.
    pub fn first_key(&self) -> (r: Option<i64>)
        ensures
            r == if self@.len() == 0 {
                None
            } else {
                Some(self@.first().0)
            },
    {
        if self.levels.len() == 0 {
            None
        } else {
            Some(self.levels[0].0)
        }
    }

    /// The highest key.
    pub fn last_key(&self) -> (r: Option<i64>)
        ensures
            r == if self@.len() == 0 {
                None
            } else {
                Some(self@.last().0)
            },
    {
        if self.levels.len() == 0 {
            None
        } else {
            Some(self.levels[self.levels.len() - 1].0)
        }
    }

    fn first_above(&self, key: i64) -> (at: usize)
        ensures
            at <= self.levels.len(),
            levels_above(self@, key) == self@.skip(at as int),
    {
        let mut at: usize = 0;
        while at < self.levels.len() && self.levels[at].0 <= key
            invariant
                at <= self.levels.len(),
                forall|i: int| 0 <= i < at ==> self.levels[i].0 <= key,
            decreases self.levels.len() - at,
        {
            at = at + 1;
        }
        proof {
            lemma_levels_above(self@, key, at as int);
        }
        at
    }

    /// The number of levels whose key is above `key`.
    pub fn count_above(&self, key: i64) -> (r: usize)
        ensures
            r == levels_above(self@, key).len(),
    {
        self.levels.len() - self.first_above(key)
    }

    /// The sum of the sizes, each cut to `cap`, of the levels whose key is above `key`.
    pub fn sum_above(&self, key: i64, cap: Option<Binary64>) -> (r: Binary64)
        ensures
            r == capped_sum(levels_above(self@, key), cap),
    {
        let from: usize = self.first_above(key);
        let mut total = number(MINUS_ZERO);
        let mut i: usize = from;
        assert(self@.subrange(from as int, from as int) =~= Seq::<Level>::empty());
        while i < self.levels.len()
            invariant
                from <= i <= self.levels.len(),
                total == capped_sum(self@.subrange(from as int, i as int), cap),
            decreases self.levels.len() - i,
        {
            let size = self.levels[i].1;
            proof {
                let next = self@.subrange(from as int, i + 1);
                assert(next.drop_last() =~= self@.subrange(from as int, i as int));
                assert(next.last() == self@[i as int]);
            }
            total = total.plus(
                match cap {
                    Some(limit) => size.min(limit),
                    None => size,
                },
            );
            i = i + 1;
        }
        assert(self@.subrange(from as int, i as int) =~= self@.skip(from as int));
        total
    }
}

} // verus!
