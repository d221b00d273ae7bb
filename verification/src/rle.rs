//! The run-length encoder: from a row of the colour grid to its runs of equal
//! colours.

use crate::color::RGBSum;
use vstd::prelude::*;

verus! {

/// A run: `count` cells in a row, side by side, that all have the colour
/// `rgb_sum`.
#[derive(Debug, PartialEq, Eq, Structural)]
pub struct RgbCount {
    pub rgb_sum: RGBSum,
    pub count: usize,
}

impl RgbCount {
    /// Whether the run's colour is exactly `other`, channel by channel.
    pub fn is_same_rgb(&self, other: &RGBSum) -> (same: bool)
        ensures
            same == (self.rgb_sum == *other),
    {
        return self.rgb_sum.r == other.r && self.rgb_sum.g == other.g && self.rgb_sum.b == other.b;
    }

    /// Makes the run one cell longer.
    pub fn incr(&mut self)
        requires
            old(self).count < usize::MAX,
        ensures
            final(self).count == old(self).count + 1,
            final(self).rgb_sum == old(self).rgb_sum,
    {
        self.count = self.count + 1
    }

    /// Whether the run holds a colour, that is, whether each channel fits in
    /// eight bits.
    pub fn is_valid(&self) -> (valid: bool)
        ensures
            valid == self.rgb_sum.is_color(),
    {
        self.rgb_sum.r < 256 && self.rgb_sum.g < 256 && self.rgb_sum.b < 256
    }

    /// Starts the run anew: one cell of colour `rgb`.
    pub fn set_rgb(&mut self, rgb: RGBSum)
        ensures
            *final(self) == (RgbCount { rgb_sum: rgb, count: 1 }),
    {
        self.rgb_sum = rgb;
        self.count = 1;
    }

    /// The state before any cell has been seen: no run is pending, so the
    /// count is zero, and the red channel lies outside the 8-bit range, so
    /// the colour is that of no cell of a colour grid.
    pub fn invalid() -> (run: RgbCount)
        ensures
            run == (RgbCount { rgb_sum: RGBSum { r: 256, g: 0, b: 0 }, count: 0 }),
            !run.rgb_sum.is_color(),
    {
        RgbCount { rgb_sum: RGBSum { r: 256, g: 0, b: 0 }, count: 0 }
    }
}

/// The runs of a row: each maximal stretch of equal neighbours, from left to
/// right, with its colour and its length.
pub open spec fn runs_of(row: Seq<RGBSum>) -> Seq<RgbCount>
    decreases row.len(),
{
    if row.len() == 0 {
        Seq::empty()
    } else {
        let before = runs_of(row.drop_last());
        if before.len() > 0 && before.last().rgb_sum == row.last() {
            before.drop_last().push(
                RgbCount { rgb_sum: row.last(), count: (before.last().count + 1) as usize },
            )
        } else {
            before.push(RgbCount { rgb_sum: row.last(), count: 1 })
        }
    }
}

/// The row that a sequence of runs stands for: for each run in order, `count`
/// copies of its colour.
pub open spec fn expand(runs: Seq<RgbCount>) -> Seq<RGBSum>
    decreases runs.len(),
{
    if runs.len() == 0 {
        Seq::empty()
    } else {
        expand(runs.drop_last()) + Seq::new(
            runs.last().count as nat,
            |i: int| runs.last().rgb_sum,
        )
    }
}

/// No run is empty.
pub open spec fn all_positive(runs: Seq<RgbCount>) -> bool {
    forall|i: int| 0 <= i < runs.len() ==> (#[trigger] runs[i]).count >= 1
}

/// No two neighbouring runs have the same colour.
pub open spec fn is_maximal(runs: Seq<RgbCount>) -> bool {
    forall|i: int| 0 <= i < runs.len() - 1 ==> (#[trigger] runs[i]).rgb_sum != runs[i + 1].rgb_sum
}

/// Decoding undoes encoding: the runs of a row, written out again, are the
/// row. The runs are maximal, none is empty, and the last run ends with the
/// row's last cell.
pub proof fn lemma_runs_expand(row: Seq<RGBSum>)
    requires
        row.len() <= usize::MAX,
    ensures
        expand(runs_of(row)) == row,
        all_positive(runs_of(row)),
        is_maximal(runs_of(row)),
        row.len() > 0 ==> runs_of(row).len() > 0 && runs_of(row).last().rgb_sum == row.last()
            && runs_of(row).last().count <= row.len(),
        row.len() == 0 ==> runs_of(row).len() == 0,
    decreases row.len(),
{
    if row.len() > 0 {
        let shorter = row.drop_last();
        let before = runs_of(shorter);
        let runs = runs_of(row);
        lemma_runs_expand(shorter);
        if before.len() > 0 && before.last().rgb_sum == row.last() {
            let longer = RgbCount {
                rgb_sum: row.last(),
                count: (before.last().count + 1) as usize,
            };
            assert(runs == before.drop_last().push(longer));
            assert(runs.drop_last() =~= before.drop_last());
            assert(expand(before) == expand(before.drop_last()) + Seq::new(
                before.last().count as nat,
                |i: int| before.last().rgb_sum,
            ));
            assert(expand(runs) =~= expand(before).push(row.last()));
            assert(expand(runs) =~= row);
            assert forall|i: int| 0 <= i < runs.len() - 1 implies (#[trigger] runs[i]).rgb_sum
                != runs[i + 1].rgb_sum by {
                assert(runs[i] == before[i]);
                assert(runs[i + 1].rgb_sum == before[i + 1].rgb_sum);
            }
            assert forall|i: int| 0 <= i < runs.len() implies (#[trigger] runs[i]).count >= 1 by {
                if i < runs.len() - 1 {
                    assert(runs[i] == before[i]);
                }
            }
        } else {
            let single = RgbCount { rgb_sum: row.last(), count: 1 };
            assert(runs == before.push(single));
            assert(runs.drop_last() =~= before);
            assert(expand(runs) =~= expand(before).push(row.last()));
            assert(expand(runs) =~= row);
            assert forall|i: int| 0 <= i < runs.len() - 1 implies (#[trigger] runs[i]).rgb_sum
                != runs[i + 1].rgb_sum by {
                assert(runs[i] == before[i]);
                if i + 1 < before.len() {
                    assert(runs[i + 1] == before[i + 1]);
                }
            }
            assert forall|i: int| 0 <= i < runs.len() implies (#[trigger] runs[i]).count >= 1 by {
                if i < before.len() {
                    assert(runs[i] == before[i]);
                }
            }
        }
    }
}

/// The encoding is the only one of its kind: runs that stand for a row, none
/// of them empty and no two neighbours of one colour, are the runs of that
/// row.
pub proof fn lemma_runs_unique(runs: Seq<RgbCount>, row: Seq<RGBSum>)
    requires
        expand(runs) == row,
        all_positive(runs),
        is_maximal(runs),
    ensures
        runs == runs_of(row),
    decreases row.len(),
{
    if runs.len() == 0 {
        assert(runs =~= runs_of(row));
    } else {
        let last = runs.last();
        let head = runs.drop_last();
        let tail = Seq::new(last.count as nat, |i: int| last.rgb_sum);
        assert(row == expand(head) + tail);
        assert(row.last() == tail[last.count - 1]);
        let shorter = row.drop_last();
        if last.count == 1 {
            assert(shorter =~= expand(head));
            assert forall|i: int| 0 <= i < head.len() implies (#[trigger] head[i]).count >= 1 by {
                assert(head[i] == runs[i]);
            }
            assert forall|i: int| 0 <= i < head.len() - 1 implies (#[trigger] head[i]).rgb_sum
                != head[i + 1].rgb_sum by {
                assert(head[i] == runs[i]);
                assert(head[i + 1] == runs[i + 1]);
            }
            lemma_runs_unique(head, shorter);
            if head.len() > 0 {
                assert(head.last() == runs[runs.len() - 2]);
                assert(runs[runs.len() - 2].rgb_sum != runs[runs.len() - 2 + 1].rgb_sum);
            }
            assert(runs =~= head.push(RgbCount { rgb_sum: row.last(), count: 1 }));
        } else {
            let less = RgbCount { rgb_sum: last.rgb_sum, count: (last.count - 1) as usize };
            let before = head.push(less);
            assert(before.drop_last() =~= head);
            assert(shorter =~= expand(head) + Seq::new(less.count as nat, |i: int| less.rgb_sum));
            assert forall|i: int| 0 <= i < before.len() implies (#[trigger] before[i]).count
                >= 1 by {
                if i < head.len() {
                    assert(before[i] == runs[i]);
                }
            }
            assert forall|i: int| 0 <= i < before.len() - 1 implies (#[trigger] before[i]).rgb_sum
                != before[i + 1].rgb_sum by {
                assert(before[i] == runs[i]);
                assert(before[i + 1].rgb_sum == runs[i + 1].rgb_sum);
            }
            lemma_runs_unique(before, shorter);
            assert(runs =~= before.drop_last().push(
                RgbCount { rgb_sum: row.last(), count: (before.last().count + 1) as usize },
            ));
        }
    }
}

/// The runs of a row of colours are runs of colours: where every cell has
/// 8-bit channels, so has every run that stands for the row.
pub proof fn lemma_run_colors(runs: Seq<RgbCount>, row: Seq<RGBSum>)
    requires
        expand(runs) == row,
        all_positive(runs),
        forall|i: int| 0 <= i < row.len() ==> (#[trigger] row[i]).is_color(),
    ensures
        forall|k: int| 0 <= k < runs.len() ==> (#[trigger] runs[k]).rgb_sum.is_color(),
    decreases runs.len(),
{
    if runs.len() > 0 {
        let last = runs.last();
        let head = runs.drop_last();
        let tail = Seq::new(last.count as nat, |i: int| last.rgb_sum);
        assert(row == expand(head) + tail);
        assert(row[row.len() - 1] == tail[last.count - 1]);
        assert forall|i: int| 0 <= i < expand(head).len() implies (#[trigger] expand(
            head,
        )[i]).is_color() by {
            assert(expand(head)[i] == row[i]);
        }
        assert forall|i: int| 0 <= i < head.len() implies (#[trigger] head[i]).count >= 1 by {
            assert(head[i] == runs[i]);
        }
        lemma_run_colors(head, expand(head));
        assert forall|k: int|
            0 <= k < runs.len() implies (#[trigger] runs[k]).rgb_sum.is_color() by {
            if k < head.len() {
                assert(runs[k] == head[k]);
            }
        }
    }
}

/// A row whose cells all have one colour has exactly one run, as long as the
/// row.
pub proof fn lemma_uniform_row_runs(row: Seq<RGBSum>, color: RGBSum)
    requires
        0 < row.len() <= usize::MAX,
        forall|i: int| 0 <= i < row.len() ==> row[i] == color,
    ensures
        runs_of(row) == seq![RgbCount { rgb_sum: color, count: row.len() as usize }],
    decreases row.len(),
{
    let shorter = row.drop_last();
    if shorter.len() == 0 {
        assert(runs_of(shorter) =~= Seq::<RgbCount>::empty());
        assert(runs_of(row) =~= seq![RgbCount { rgb_sum: color, count: 1 }]);
    } else {
        lemma_uniform_row_runs(shorter, color);
        assert(runs_of(row) =~= seq![RgbCount { rgb_sum: color, count: row.len() as usize }]);
    }
}

/// Encodes one row of a colour grid: walks it from left to right and merges
/// each stretch of equal neighbours into one run. Before the first cell no
/// run is pending; a pending run is given out when a cell of another colour
/// follows it, and at the end of the row.
pub fn encode_row(row: &[RGBSum]) -> (runs: Vec<RgbCount>)
    ensures
        runs@ == runs_of(row@),
        expand(runs@) == row@,
        all_positive(runs@),
        is_maximal(runs@),
{
    let mut runs: Vec<RgbCount> = Vec::new();
    let len = row.len();
    proof {
        lemma_runs_expand(row@);
    }
    let mut pending = RgbCount::invalid();
    let mut i: usize = 0;
    while i < len
        invariant
            i <= len == row@.len(),
            pending.count <= i,
            i == 0 ==> pending.count == 0 && runs@.len() == 0,
            i > 0 ==> pending.count > 0 && runs@.push(pending) == runs_of(row@.take(i as int)),
        decreases len - i,
    {
        proof {
            assert(row@.take(i + 1).drop_last() =~= row@.take(i as int));
            assert(row@.take(i + 1).last() == row@[i as int]);
            assert(runs@.push(pending).drop_last() =~= runs@);
            if i == 0 {
                assert(runs_of(row@.take(0)) =~= Seq::<RgbCount>::empty());
            }
        }
        if pending.count > 0 && pending.is_same_rgb(&row[i]) {
            pending.incr();
        } else {
            if pending.count > 0 {
                runs.push(RgbCount { rgb_sum: pending.rgb_sum.clone(), count: pending.count });
            }
            pending.set_rgb(row[i].clone());
        }
        i = i + 1;
    }
    if pending.count > 0 {
        runs.push(pending);
    }
    assert(row@.take(i as int) =~= row@);
    runs
}

} // verus!
