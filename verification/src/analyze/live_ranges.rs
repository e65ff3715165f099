use vstd::prelude::*;

use crate::abi;
use crate::collections::KeyMap;
use crate::data::assembly;
use crate::data::operand::Register;
use crate::data::operand::Temporary;

verus! {

/// The registers clobbered while a temporary is live.
#[derive(Copy, Clone, Debug, PartialEq, Eq, Structural)]
pub enum Clobbered {
    Caller,
    RaxRdx,
    Rax,
    Rdx,
    Nothing,
}

/// The statements over which a temporary is live: from the statement after it
/// is defined (`start`) to the statement where it is last used (`end`).
#[derive(Copy, Clone, Debug, PartialEq, Eq, Structural)]
pub struct Range {
    pub start: usize,
    pub end: usize,
    pub clobbered: Clobbered,
}

/// The live range of each temporary of a function.
pub struct LiveRanges {
    pub ranges: KeyMap<Temporary, Range>,
    pub function: assembly::Function<Temporary>,
}

impl Clobbered {
    /// The registers clobbered by either: all caller-saved registers dominate,
    /// `rax` and `rdx` combine.
    pub open spec fn spec_or(self, other: Clobbered) -> Clobbered {
        match (self, other) {
            (Clobbered::Nothing, other) => other,
            (this, Clobbered::Nothing) => this,
            (Clobbered::Caller, _) | (_, Clobbered::Caller) => Clobbered::Caller,
            (Clobbered::Rax, Clobbered::Rax) => Clobbered::Rax,
            (Clobbered::Rdx, Clobbered::Rdx) => Clobbered::Rdx,
            _ => Clobbered::RaxRdx,
        }
    }

    pub fn or(&self, other: &Self) -> (clobbered: Self)
        ensures
            clobbered == self.spec_or(*other),
    {
        match (self, other) {
            (Clobbered::Nothing, Clobbered::Nothing) => Clobbered::Nothing,
            (Clobbered::Nothing, Clobbered::Rax) | (Clobbered::Rax, Clobbered::Nothing) => Clobbered::Rax,
            (Clobbered::Nothing, Clobbered::Rdx) | (Clobbered::Rdx, Clobbered::Nothing) => Clobbered::Rdx,
            (Clobbered::Rax, Clobbered::Rax) => Clobbered::Rax,
            (Clobbered::Rdx, Clobbered::Rdx) => Clobbered::Rdx,
            (Clobbered::Rax, Clobbered::Rdx) | (Clobbered::Rdx, Clobbered::Rax) => Clobbered::RaxRdx,
            (Clobbered::Caller, _) | (_, Clobbered::Caller) => Clobbered::Caller,
            (Clobbered::RaxRdx, _) | (_, Clobbered::RaxRdx) => Clobbered::RaxRdx,
        }
    }

    pub open spec fn registers(self) -> Seq<Register> {
        match self {
            Clobbered::Caller => abi::spec_caller_saved(),
            Clobbered::RaxRdx => seq![Register::Rax, Register::Rdx],
            Clobbered::Rax => seq![Register::Rax],
            Clobbered::Rdx => seq![Register::Rdx],
            Clobbered::Nothing => seq![],
        }
    }

    /// The clobbered registers.
    pub fn as_slice(&self) -> (registers: Vec<Register>)
        ensures
            registers@ == self.registers(),
    {
        let registers = match self {
            Clobbered::Caller => abi::caller_saved(),
            Clobbered::RaxRdx => vec![Register::Rax, Register::Rdx],
            Clobbered::Rax => vec![Register::Rax],
            Clobbered::Rdx => vec![Register::Rdx],
            Clobbered::Nothing => Vec::new(),
        };
        assert(registers@ =~= self.registers());
        registers
    }
}

impl Range {
    pub fn new(index: usize) -> (range: Self)
        ensures
            range == (Range { start: index, end: index, clobbered: Clobbered::Nothing }),
    {
        Range { start: index, end: index, clobbered: Clobbered::Nothing }
    }
}

pub open spec fn covers(range: Range, point: int) -> bool {
    range.start <= point <= range.end
}

/// How many of `ranges` are live at statement `point`.
pub open spec fn coverage(ranges: Seq<Range>, point: int) -> nat
    decreases ranges.len(),
{
    if ranges.len() == 0 {
        0
    } else {
        coverage(ranges.drop_last(), point) + if covers(ranges.last(), point) { 1nat } else { 0nat }
    }
}

proof fn lemma_latest_start(ranges: Seq<Range>, point: int) -> (latest: int)
    requires
        coverage(ranges, point) > 0,
    ensures
        0 <= latest < ranges.len(),
        covers(ranges[latest], point),
        forall|k: int| 0 <= k < ranges.len() && covers(#[trigger] ranges[k], point) ==> ranges[k].start <= ranges[latest].start,
    decreases ranges.len(),
{
    let prior = ranges.drop_last();
    let last = ranges.len() - 1;
    if coverage(prior, point) > 0 {
        let found = lemma_latest_start(prior, point);
        assert(forall|k: int| 0 <= k < prior.len() ==> prior[k] == ranges[k]);
        if covers(ranges[last], point) && ranges[last].start > ranges[found].start {
            last
        } else {
            found
        }
    } else {
        assert forall|k: int| 0 <= k < ranges.len() && covers(#[trigger] ranges[k], point) implies k == last by {
            if k < last {
                assert(prior[k] == ranges[k]);
                lemma_coverage_positive(prior, point, k);
            }
        }
        last
    }
}

proof fn lemma_coverage_positive(ranges: Seq<Range>, point: int, index: int)
    requires
        0 <= index < ranges.len(),
        covers(ranges[index], point),
    ensures
        coverage(ranges, point) > 0,
    decreases ranges.len(),
{
    if index < ranges.len() - 1 {
        assert(ranges.drop_last()[index] == ranges[index]);
        lemma_coverage_positive(ranges.drop_last(), point, index);
    }
}

proof fn lemma_coverage_monotone(ranges: Seq<Range>, point: int, other: int)
    requires
        forall|k: int| 0 <= k < ranges.len() && covers(#[trigger] ranges[k], point) ==> covers(ranges[k], other),
    ensures
        coverage(ranges, point) <= coverage(ranges, other),
    decreases ranges.len(),
{
    if ranges.len() > 0 {
        let prior = ranges.drop_last();
        assert forall|k: int| 0 <= k < prior.len() && covers(#[trigger] prior[k], point) implies covers(prior[k], other) by {
            assert(prior[k] == ranges[k]);
        }
        lemma_coverage_monotone(prior, point, other);
    }
}

fn count_covering(ranges: &Vec<Range>, point: usize) -> (count: usize)
    ensures
        count == coverage(ranges@, point as int),
{
    let mut count: usize = 0;
    let mut index: usize = 0;
    while index < ranges.len()
        invariant
            index <= ranges@.len(),
            count == coverage(ranges@.take(index as int), point as int),
            count <= index,
        decreases ranges@.len() - index,
    {
        let ghost prefix = ranges@.take(index + 1);
        assert(prefix.drop_last() =~= ranges@.take(index as int));
        assert(prefix.last() == ranges@[index as int]);
        if ranges[index].start <= point && point <= ranges[index].end {
            count += 1;
        }
        index += 1;
    }
    assert(ranges@.take(index as int) =~= ranges@);
    count
}

impl LiveRanges {
    /// The ranges, in the order of their temporaries.
    pub closed spec fn spec_ranges(self) -> Seq<Range> {
        Seq::new(self.ranges.size(), |i: int| self.ranges.value_at_spec(i))
    }

    /// Maximum number of simultaneously live temporaries.
    pub fn width(&self) -> (width: usize)
        requires
            forall|i: int| 0 <= i < self.spec_ranges().len() ==> (#[trigger] self.spec_ranges()[i]).start
                <= self.spec_ranges()[i].end,
        ensures
            forall|point: int| coverage(self.spec_ranges(), point) <= width,
            self.spec_ranges().len() == 0 ==> width == 0,
            self.spec_ranges().len() > 0 ==> exists|point: int| coverage(self.spec_ranges(), point) == width,
    {
        let mut ranges: Vec<Range> = Vec::new();
        let mut index: usize = 0;
        while index < self.ranges.len()
            invariant
                index <= self.ranges.size(),
                ranges@ == self.spec_ranges().take(index as int),
            decreases self.ranges.size() - index,
        {
            ranges.push(*self.ranges.value_at(index));
            index += 1;
            assert(ranges@ =~= self.spec_ranges().take(index as int));
        }
        assert(ranges@ =~= self.spec_ranges());
        let ghost all = ranges@;
        let mut width: usize = 0;
        let mut position: usize = 0;
        while position < ranges.len()
            invariant
                all == ranges@,
                position <= all.len(),
                forall|j: int| 0 <= j < position ==> coverage(all, #[trigger] all[j].start as int) <= width,
                position == 0 ==> width == 0,
                position > 0 ==> exists|point: int| coverage(all, point) == width,
            decreases all.len() - position,
        {
            let count = count_covering(&ranges, ranges[position].start);
            if count > width || position == 0 {
                width = count;
            }
            position += 1;
        }
        assert forall|point: int| coverage(all, point) <= width by {
            if coverage(all, point) > 0 {
                let latest = lemma_latest_start(all, point);
                assert forall|k: int| 0 <= k < all.len() && covers(#[trigger] all[k], point)
                    implies covers(all[k], all[latest].start as int) by {}
                lemma_coverage_monotone(all, point, all[latest].start as int);
            }
        }
        width
    }
}

} // verus!
