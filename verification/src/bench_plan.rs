//! Plan of the three-way comparison on regions of unequal width.
//!
//! The compared constructions prove the same output claims over the same 66-round relation: one
//! independent walk per native region, one aggregate walk after physically padding every region to
//! the largest width, and one aggregate ragged walk.  This module fixes the widths, the order in
//! which the constructions are measured, and what is done around each measurement.
use crate::mle;
use vstd::prelude::*;
use vstd::string::StringExecFns;

verus! {

/// Boolean widths of the compared hash regions.
pub const PRODUCTION_WIDTHS: [usize; 9] = [14, 15, 17, 16, 12, 15, 16, 12, 13];

/// A compared construction.
#[derive(Clone, Copy, Debug, PartialEq, Eq, Structural)]
pub enum Variant {
    Independent,
    Padded,
    Ragged,
}

impl Variant {
    /// Name in a report.
    pub fn name(self) -> (s: &'static str)
        ensures
            s@ == match self {
                Variant::Independent => "independent native walks"@,
                Variant::Padded => "one physically max-padded walk"@,
                Variant::Ragged => "one implicit ragged walk"@,
            },
    {
        match self {
            Variant::Independent => "independent native walks",
            Variant::Padded => "one physically max-padded walk",
            Variant::Ragged => "one implicit ragged walk",
        }
    }

    /// The word by which a construction is selected on the command line.
    pub open spec fn word(self) -> Seq<char> {
        match self {
            Variant::Independent => "independent"@,
            Variant::Padded => "padded"@,
            Variant::Ragged => "ragged"@,
        }
    }

    /// The word by which a construction is selected on the command line.
    pub fn argument(self) -> (s: &'static str)
        ensures
            s@ == self.word(),
    {
        match self {
            Variant::Independent => "independent",
            Variant::Padded => "padded",
            Variant::Ragged => "ragged",
        }
    }

    /// The construction that a word selects.
    pub fn parse(value: &str) -> (r: Option<Self>)
        ensures
            r matches Some(variant) ==> value@ == variant.word(),
            r is None ==> forall|variant: Variant| value@ != #[trigger] variant.word(),
    {
        let word = String::from_str(value);
        if word == String::from_str("independent") {
            Some(Variant::Independent)
        } else if word == String::from_str("padded") {
            Some(Variant::Padded)
        } else if word == String::from_str("ragged") {
            Some(Variant::Ragged)
        } else {
            None
        }
    }
}

/// Different constructions have different words, so that parsing a construction's word gives it
/// back.
pub proof fn words_are_distinct(a: Variant, b: Variant)
    requires
        a.word() == b.word(),
    ensures
        a == b,
{
    reveal_strlit("independent");
    reveal_strlit("padded");
    reveal_strlit("ragged");
    assert("independent"@[0] == 'i');
    assert("padded"@[0] == 'p');
    assert("ragged"@[0] == 'r');
}

/// Position of a construction in a report.
pub open spec fn position_of(variant: Variant) -> int {
    match variant {
        Variant::Independent => 0,
        Variant::Padded => 1,
        Variant::Ragged => 2,
    }
}

/// Position of a construction in a report.
pub fn variant_index(variant: Variant) -> (index: usize)
    ensures
        index == position_of(variant),
{
    match variant {
        Variant::Independent => 0,
        Variant::Padded => 1,
        Variant::Ragged => 2,
    }
}

/// The construction at a position of a report, counted cyclically.
pub open spec fn variant_at(position: int) -> Variant {
    if position % 3 == 0 {
        Variant::Independent
    } else if position % 3 == 1 {
        Variant::Padded
    } else {
        Variant::Ragged
    }
}

/// The order of the constructions in a round: each round starts one position before the last.
pub open spec fn order_of(round: int) -> Seq<Variant> {
    Seq::new(3, |k: int| variant_at(k - round))
}

/// The order of the constructions in a round.
pub fn sample_order(round: usize) -> (order: [Variant; 3])
    ensures
        order@ == order_of(round as int),
{
    let order = match round % 3 {
        0 => [Variant::Independent, Variant::Padded, Variant::Ragged],
        1 => [Variant::Ragged, Variant::Independent, Variant::Padded],
        _ => [Variant::Padded, Variant::Ragged, Variant::Independent],
    };
    proof {
        let want = order_of(round as int);
        assert(order@[0] == want[0]);
        assert(order@[1] == want[1]);
        assert(order@[2] == want[2]);
        assert(order@ =~= want);
    }
    order
}

/// The order rotates: every construction runs exactly once in each round, and over three
/// consecutive rounds it takes each place exactly once.
pub proof fn order_rotates(variant: Variant, round: int)
    ensures
        exists|k: int| 0 <= k < 3 && #[trigger] order_of(round)[k] == variant,
        forall|k: int, m: int|
            0 <= k < 3 && 0 <= m < 3 && #[trigger] order_of(round)[k] == variant && #[trigger]
            order_of(round)[m] == variant ==> k == m,
        forall|k: int|
            0 <= k < 3 && #[trigger] order_of(round)[k] == variant ==> order_of(round + 1)[(k + 1)
                % 3] == variant,
{
    let k = (position_of(variant) + round) % 3;
    assert(order_of(round)[k] == variant);
    assert forall|k: int|
        0 <= k < 3 && #[trigger] order_of(round)[k] == variant implies order_of(round + 1)[(k + 1)
        % 3] == variant by {
        assert((k - round) % 3 == ((k + 1) % 3 - (round + 1)) % 3);
    }
}

/// Physical rows of tables in the given numbers of variables.
pub open spec fn row_total(widths: Seq<usize>) -> nat
    decreases widths.len(),
{
    if widths.len() == 0 {
        0
    } else {
        row_total(widths.drop_last()) + mle::cube(widths.last() as nat)
    }
}

/// `2^n`.
pub fn cube_size(n: usize) -> (size: usize)
    requires
        mle::cube(n as nat) <= usize::MAX,
    ensures
        size == mle::cube(n as nat),
{
    let mut size: usize = 1;
    let mut i: usize = 0;
    while i < n
        invariant
            i <= n,
            mle::cube(n as nat) <= usize::MAX,
            size == mle::cube(i as nat),
        decreases n - i,
    {
        proof {
            mle::lemma_cube_monotone((i + 1) as nat, n as nat);
        }
        size = size * 2;
        i = i + 1;
    }
    size
}

proof fn lemma_cubes()
    ensures
        mle::cube(12) == 4096,
        mle::cube(13) == 8192,
        mle::cube(14) == 16384,
        mle::cube(15) == 32768,
        mle::cube(16) == 65536,
        mle::cube(17) == 131072,
{
    reveal_with_fuel(mle::cube, 18);
}

proof fn lemma_row_total_prefix(widths: Seq<usize>, i: nat)
    requires
        i <= widths.len(),
    ensures
        row_total(widths.take(i as int)) <= row_total(widths),
    decreases widths.len(),
{
    if i == widths.len() {
        assert(widths.take(i as int) =~= widths);
    } else {
        lemma_row_total_prefix(widths.drop_last(), i);
        assert(widths.drop_last().take(i as int) =~= widths.take(i as int));
    }
}

/// Physical rows of tables in the given numbers of variables.
pub fn row_count(widths: &[usize]) -> (rows: usize)
    requires
        row_total(widths@) <= usize::MAX,
    ensures
        rows == row_total(widths@),
{
    let mut rows: usize = 0;
    let mut i: usize = 0;
    while i < widths.len()
        invariant
            i <= widths.len(),
            row_total(widths@) <= usize::MAX,
            rows == row_total(widths@.take(i as int)),
        decreases widths.len() - i,
    {
        proof {
            lemma_row_total_prefix(widths@, (i + 1) as nat);
            assert(widths@.take(i + 1).drop_last() =~= widths@.take(i as int));
        }
        rows = rows + cube_size(widths[i]);
        i = i + 1;
    }
    proof {
        assert(widths@.take(i as int) =~= widths@);
    }
    rows
}

proof fn lemma_production_rows()
    ensures
        row_total(PRODUCTION_WIDTHS@) == 360448,
{
    lemma_cubes();
    let w = PRODUCTION_WIDTHS@;
    assert(w =~= seq![14usize, 15, 17, 16, 12, 15, 16, 12, 13]);
    reveal_with_fuel(row_total, 10);
}

/// Rows of the compared regions at their native widths: 360,448.
pub fn native_row_count() -> (rows: usize)
    ensures
        rows == row_total(PRODUCTION_WIDTHS@),
        rows == 360448,
{
    proof {
        lemma_production_rows();
    }
    row_count(&PRODUCTION_WIDTHS)
}

/// The largest of some widths.
pub fn largest_width(widths: &[usize]) -> (w: usize)
    ensures
        forall|i: int| 0 <= i < widths@.len() ==> #[trigger] widths@[i] <= w,
        widths@.len() > 0 ==> widths@.contains(w),
        widths@.len() == 0 ==> w == 0,
{
    let mut w: usize = 0;
    let mut i: usize = 0;
    while i < widths.len()
        invariant
            i <= widths.len(),
            forall|k: int| 0 <= k < i ==> #[trigger] widths@[k] <= w,
            i > 0 ==> widths@.contains(w),
            i == 0 ==> w == 0,
        decreases widths.len() - i,
    {
        if i == 0 || widths[i] > w {
            w = widths[i];
        }
        i = i + 1;
    }
    w
}

/// Rows of the compared regions once all are padded to the largest width: 1,179,648.
pub fn padded_row_count() -> (rows: usize)
    ensures
        rows == 9 * mle::cube(17),
        rows == 1179648,
{
    proof {
        lemma_cubes();
    }
    let w = largest_width(&PRODUCTION_WIDTHS);
    proof {
        let s = PRODUCTION_WIDTHS@;
        assert(s[2] == 17);
        let i = choose|i: int| 0 <= i < s.len() && s[i] == w;
        assert(w == 17);
    }
    PRODUCTION_WIDTHS.len() * cube_size(w)
}

/// How many rounds a comparison takes.
#[derive(Clone, Copy, Debug, PartialEq, Eq, Structural)]
pub struct Rounds {
    /// Rounds whose measurements are dropped.
    pub warmups: usize,
    /// Rounds whose measurements are reported.
    pub samples: usize,
}

/// Where a comparison stands.
#[derive(Clone, Copy, Debug, PartialEq, Eq, Structural)]
pub struct Progress {
    /// Whether the current round is a warmup.
    pub warmup: bool,
    /// The current round among the warmups or among the samples.
    pub round: usize,
    /// The place of the next measurement in its round.
    pub place: usize,
}

/// One measurement.
#[derive(Clone, Copy, Debug, PartialEq, Eq, Structural)]
pub struct Step {
    /// Whether the measurement is dropped.
    pub warmup: bool,
    /// The round among the warmups or among the samples.
    pub round: usize,
    /// The measured construction.
    pub variant: Variant,
    /// Whether a mutated proof is tried as well.
    pub mutation_check: bool,
    /// Whether a pause follows.
    pub cooldown: bool,
}

impl Rounds {
    /// Measurements in all.
    pub open spec fn total(self) -> int {
        3 * (self.warmups + self.samples)
    }

    /// Measurement number `i`: the warmup rounds come first, a mutated proof is tried in the first
    /// sample round, and a pause follows every measurement but the last.
    pub open spec fn is_step(self, i: int, step: Step) -> bool {
        let sample = i - 3 * self.warmups;
        if i < 3 * self.warmups {
            &&& step.warmup
            &&& step.round == i / 3
            &&& step.variant == order_of(i / 3)[i % 3]
            &&& !step.mutation_check
            &&& step.cooldown
        } else {
            &&& !step.warmup
            &&& step.round == sample / 3
            &&& step.variant == order_of(sample / 3)[sample % 3]
            &&& step.mutation_check == (sample / 3 == 0)
            &&& step.cooldown == (i + 1 != self.total())
        }
    }

    /// The start of a comparison.
    pub fn start(self) -> (progress: Option<Progress>)
        ensures
            progress is None <==> self.total() == 0,
            progress matches Some(progress) ==> progress.index(self) == 0 && progress.valid(self),
    {
        if self.warmups > 0 {
            Some(Progress { warmup: true, round: 0, place: 0 })
        } else if self.samples > 0 {
            Some(Progress { warmup: false, round: 0, place: 0 })
        } else {
            None
        }
    }
}

impl Progress {
    /// The number of the next measurement.
    pub open spec fn index(self, rounds: Rounds) -> int {
        if self.warmup {
            3 * self.round + self.place
        } else {
            3 * rounds.warmups + 3 * self.round + self.place
        }
    }

    /// Whether a measurement is left here.
    pub open spec fn valid(self, rounds: Rounds) -> bool {
        &&& self.place < 3
        &&& self.round < if self.warmup {
            rounds.warmups
        } else {
            rounds.samples
        }
    }

    /// The next measurement, and where the comparison stands after it.
    pub fn step(self, rounds: Rounds) -> (result: (Step, Option<Progress>))
        requires
            self.valid(rounds),
        ensures
            rounds.is_step(self.index(rounds), result.0),
            result.1 is None <==> self.index(rounds) + 1 == rounds.total(),
            result.1 matches Some(next) ==> next.valid(rounds) && next.index(rounds) == self.index(
                rounds,
            ) + 1,
    {
        let variant = sample_order(self.round)[self.place];
        let next = if self.place < 2 {
            Some(Progress { warmup: self.warmup, round: self.round, place: self.place + 1 })
        } else if self.warmup && self.round + 1 < rounds.warmups {
            Some(Progress { warmup: true, round: self.round + 1, place: 0 })
        } else if self.warmup {
            if rounds.samples > 0 {
                Some(Progress { warmup: false, round: 0, place: 0 })
            } else {
                None
            }
        } else if self.round + 1 < rounds.samples {
            Some(Progress { warmup: false, round: self.round + 1, place: 0 })
        } else {
            None
        };
        let step = Step {
            warmup: self.warmup,
            round: self.round,
            variant,
            mutation_check: !self.warmup && self.round == 0,
            cooldown: self.warmup || next.is_some(),
        };
        (step, next)
    }
}

/// A mutated proof is tried exactly once per construction: of the measurements that try one, no two
/// measure the same construction, and every construction has one if there is a sample round.
pub proof fn one_mutation_check_each(rounds: Rounds, variant: Variant)
    requires
        rounds.samples > 0,
    ensures
        exists|i: int, step: Step|
            0 <= i < rounds.total() && #[trigger] rounds.is_step(i, step) && step.variant == variant
                && step.mutation_check,
        forall|i: int, a: Step, j: int, b: Step|
            {
                &&& 0 <= i < rounds.total()
                &&& 0 <= j < rounds.total()
                &&& #[trigger] rounds.is_step(i, a)
                &&& #[trigger] rounds.is_step(j, b)
                &&& a.variant == variant && b.variant == variant
                &&& a.mutation_check && b.mutation_check
            } ==> i == j,
{
    order_rotates(variant, 0);
    let k = choose|k: int| 0 <= k < 3 && #[trigger] order_of(0)[k] == variant;
    let i = 3 * rounds.warmups + k;
    let step = Step {
        warmup: false,
        round: 0,
        variant,
        mutation_check: true,
        cooldown: i + 1 != rounds.total(),
    };
    assert(rounds.is_step(i, step));
}

/// The measurement in place `place` of round `round`, of the warmups or of the samples: the construction
/// in that place of the round's order, a mutated proof in the first sample round alone, and a pause
/// unless it is the last of the samples.
pub proof fn steps_follow_the_rounds(rounds: Rounds, round: int, place: int, step: Step)
    requires
        0 <= place < 3,
        0 <= round,
    ensures
        round < rounds.warmups && rounds.is_step(3 * round + place, step) ==> step.warmup
            && step.round == round && step.variant == order_of(round)[place]
            && !step.mutation_check && step.cooldown,
        round < rounds.samples && rounds.is_step(
            3 * rounds.warmups + 3 * round + place,
            step,
        ) ==> !step.warmup && step.round == round && step.variant == order_of(round)[place]
            && step.mutation_check == (round == 0) && step.cooldown == !(round == rounds.samples - 1
            && place == 2),
{
}

/// Whether the legacy proof is timed before the FROST proof in pair number `pair`.  The pairs of the
/// warmups and those of the samples are numbered from zero each, and the order alternates.
pub fn legacy_first(pair: usize) -> (first: bool)
    ensures
        first == (pair % 2 == 0),
{
    pair % 2 == 0
}

/// One side of a pair of timings.
#[derive(Clone, Copy, Debug, PartialEq, Eq, Structural)]
pub enum Operation {
    /// The product-chain proof.
    Legacy,
    /// The FROST proof.
    Frost,
}

/// Where a sequence of pairs stands.
#[derive(Clone, Copy, Debug, PartialEq, Eq, Structural)]
pub struct PairProgress {
    /// Whether the current pair is a warmup.
    pub warmup: bool,
    /// The current pair among the warmups or among the samples.
    pub pair: usize,
    /// Whether one operation of the pair has run.
    pub second: bool,
}

/// One timing of a sequence of pairs.
#[derive(Clone, Copy, Debug, PartialEq, Eq, Structural)]
pub struct PairStep {
    /// Whether the timing is dropped.
    pub warmup: bool,
    /// The pair among the warmups or among the samples.
    pub pair: usize,
    /// The timed operation.
    pub operation: Operation,
}

/// The operation in the first (0) or second (1) place of a pair.
pub open spec fn paired_operation(pair: int, place: int) -> Operation {
    if (pair % 2 == 0) == (place == 0) {
        Operation::Legacy
    } else {
        Operation::Frost
    }
}

impl Rounds {
    /// Timings in all, two to a pair.
    pub open spec fn pair_total(self) -> int {
        2 * (self.warmups + self.samples)
    }

    /// Timing number `i`: the warmup pairs come first, and the pairs of the warmups and those of the
    /// samples are numbered from zero each.
    pub open spec fn is_pair_step(self, i: int, step: PairStep) -> bool {
        let k = if i < 2 * self.warmups {
            i
        } else {
            i - 2 * self.warmups
        };
        &&& step.warmup == (i < 2 * self.warmups)
        &&& step.pair == k / 2
        &&& step.operation == paired_operation(k / 2, k % 2)
    }

    /// The start of a sequence of pairs.
    pub fn start_pairs(self) -> (progress: Option<PairProgress>)
        ensures
            progress is None <==> self.pair_total() == 0,
            progress matches Some(progress) ==> progress.index(self) == 0 && progress.valid(self),
    {
        if self.warmups > 0 {
            Some(PairProgress { warmup: true, pair: 0, second: false })
        } else if self.samples > 0 {
            Some(PairProgress { warmup: false, pair: 0, second: false })
        } else {
            None
        }
    }
}

impl PairProgress {
    /// The number of the next timing.
    pub open spec fn index(self, rounds: Rounds) -> int {
        (if self.warmup {
            0
        } else {
            2 * rounds.warmups
        }) + 2 * self.pair + (if self.second {
            1int
        } else {
            0
        })
    }

    /// Whether a timing is left here.
    pub open spec fn valid(self, rounds: Rounds) -> bool {
        self.pair < if self.warmup {
            rounds.warmups
        } else {
            rounds.samples
        }
    }

    /// The next timing, and where the sequence stands after it.
    pub fn step(self, rounds: Rounds) -> (result: (PairStep, Option<PairProgress>))
        requires
            self.valid(rounds),
        ensures
            rounds.is_pair_step(self.index(rounds), result.0),
            result.1 is None <==> self.index(rounds) + 1 == rounds.pair_total(),
            result.1 matches Some(next) ==> next.valid(rounds) && next.index(rounds) == self.index(
                rounds,
            ) + 1,
    {
        let operation = if legacy_first(self.pair) != self.second {
            Operation::Legacy
        } else {
            Operation::Frost
        };
        let step = PairStep { warmup: self.warmup, pair: self.pair, operation };
        let next = if !self.second {
            Some(PairProgress { warmup: self.warmup, pair: self.pair, second: true })
        } else if self.warmup && self.pair + 1 < rounds.warmups {
            Some(PairProgress { warmup: true, pair: self.pair + 1, second: false })
        } else if self.warmup {
            if rounds.samples > 0 {
                Some(PairProgress { warmup: false, pair: 0, second: false })
            } else {
                None
            }
        } else if self.pair + 1 < rounds.samples {
            Some(PairProgress { warmup: false, pair: self.pair + 1, second: false })
        } else {
            None
        };
        (step, next)
    }
}

/// Both operations run in every pair: the two timings of a pair belong to the same pair of the same
/// phase, each operation is timed by exactly one of them, and the legacy proof goes first exactly in
/// the pairs of even number.
pub proof fn pair_runs_both(rounds: Rounds, i: int, first: PairStep, second: PairStep)
    requires
        0 <= i < rounds.warmups + rounds.samples,
        rounds.is_pair_step(2 * i, first),
        rounds.is_pair_step(2 * i + 1, second),
    ensures
        first.warmup == second.warmup,
        first.warmup == (i < rounds.warmups),
        first.pair == second.pair,
        first.pair == if i < rounds.warmups {
            i
        } else {
            i - rounds.warmups
        },
        forall|operation: Operation| #[trigger]
            same_operation(first, operation) != same_operation(second, operation),
        first.operation == Operation::Legacy <==> first.pair % 2 == 0,
{
}

/// Whether a timing is one of the operation.
pub open spec fn same_operation(step: PairStep, operation: Operation) -> bool {
    step.operation == operation
}

/// The first operation alternates: in consecutive pairs of a phase it is not the same, and each phase
/// starts with the legacy proof.
pub proof fn first_operation_alternates(rounds: Rounds, i: int, now: PairStep, next: PairStep)
    requires
        0 <= i,
        i + 1 < rounds.warmups + rounds.samples,
        rounds.is_pair_step(2 * i, now),
        rounds.is_pair_step(2 * (i + 1), next),
    ensures
        i + 1 != rounds.warmups ==> next.warmup == now.warmup && next.pair == now.pair + 1
            && next.operation != now.operation,
        i + 1 == rounds.warmups ==> now.warmup && !next.warmup && next.pair == 0 && next.operation
            == Operation::Legacy,
        i == 0 ==> now.operation == Operation::Legacy,
{
}

/// Sizes that do not depend on the run.
#[derive(Clone, Copy, Debug, PartialEq, Eq, Structural)]
pub struct SampleShape {
    pub physical_rows: usize,
    pub layer_bytes: usize,
    pub proof_bytes: usize,
}

/// Whether all measurements of a construction have the sizes of the first.
pub fn same_shape(samples: &[SampleShape]) -> (same: bool)
    ensures
        same <==> forall|i: int| 0 <= i < samples@.len() ==> #[trigger] samples@[i] == samples@[0],
{
    let mut i: usize = 0;
    while i < samples.len()
        invariant
            i <= samples.len(),
            forall|k: int| 0 <= k < i ==> #[trigger] samples@[k] == samples@[0],
        decreases samples.len() - i,
    {
        if samples[i] != samples[0] {
            return false;
        }
        i = i + 1;
    }
    true
}

} // verus!
