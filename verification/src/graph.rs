use vstd::prelude::*;

use crate::fdinfo::{digits_value, is_digit};
use crate::size::{decimal_size_text, format_decimal_size};

verus! {

/// What a graph plots; the name picks the device or interface.
#[derive(Clone, Copy, Debug)]
pub enum GraphKind<'a> {
    Cpu,
    Memory,
    Swap,
    GpuUsage(&'a str),
    GpuVram(&'a str),
    DiskRead(&'a str),
    DiskWrite(&'a str),
    NetworkRx(&'a str),
    NetworkTx(&'a str),
    /// Bytes read and written over all disks.
    DiskTotal,
    /// Bytes received and sent over all interfaces.
    NetworkTotal,
}

/// A mark on the vertical axis: the value it stands for and its caption.
pub struct AxisTick {
    pub value: u128,
    pub label: String,
}

/// Whether `n` is a power of ten (1, 10, 100, ...).
pub open spec fn is_power_of_ten(n: int) -> bool
    decreases n,
{
    if n <= 0 {
        false
    } else if n == 1 {
        true
    } else {
        n % 10 == 0 && is_power_of_ten(n / 10)
    }
}

/// The top of the axis of a rate graph: the least power of ten that is at
/// least 1000 and at least the peak.
pub open spec fn is_rate_scale(scale: int, peak: int) -> bool {
    &&& is_power_of_ten(scale)
    &&& 1000 <= scale
    &&& peak <= scale
    &&& (scale == 1000 || scale / 10 < peak)
}

/// The fraction of the axis at which the `i`th mark of six stands.
pub open spec fn tick_value(scale: int, i: int) -> int {
    scale * i / 5
}

/// The caption of the `i`th mark of a percentage axis.
pub open spec fn percent_label(i: int) -> Seq<char> {
    if i == 0 {
        "0%"@
    } else if i == 1 {
        "20%"@
    } else if i == 2 {
        "40%"@
    } else if i == 3 {
        "60%"@
    } else if i == 4 {
        "80%"@
    } else {
        "100%"@
    }
}

/// The caption of a mark of a rate axis at `value` bytes per second; values past
/// the range of `u64` are captioned as its largest value.
pub open spec fn rate_label(value: int) -> Seq<char> {
    if value == 0 {
        "0 B/s"@
    } else {
        let bytes: u64 = if value > u64::MAX { u64::MAX } else { value as u64 };
        decimal_size_text(bytes) + "/s"@
    }
}

pub proof fn lemma_times_ten_is_power_of_ten(n: int)
    requires
        is_power_of_ten(n),
    ensures
        is_power_of_ten(n * 10),
{
    assert((n * 10) / 10 == n);
    assert((n * 10) % 10 == 0);
}

/// The `i`th mark of a percentage axis or of a rate axis that runs to `scale`.
fn axis_tick(percent: bool, scale: u128, i: u128) -> (tick: AxisTick)
    requires
        i < 6,
        scale <= u128::MAX / 5,
    ensures
        percent ==> tick.value == 20 * i && tick.label@ == percent_label(i as int),
        !percent ==> tick.value == tick_value(scale as int, i as int),
        !percent ==> tick.label@ == rate_label(tick_value(scale as int, i as int)),
{
    if percent {
        let label = if i == 0 {
            String::from_str("0%")
        } else if i == 1 {
            String::from_str("20%")
        } else if i == 2 {
            String::from_str("40%")
        } else if i == 3 {
            String::from_str("60%")
        } else if i == 4 {
            String::from_str("80%")
        } else {
            String::from_str("100%")
        };
        AxisTick { value: 20 * i, label }
    } else {
        assert(scale * i <= scale * 5) by (nonlinear_arith)
            requires
                i < 6,
        ;
        let value = scale * i / 5;
        let label = if value == 0 {
            String::from_str("0 B/s")
        } else {
            let bytes: u64 = if value > u64::MAX as u128 {
                u64::MAX
            } else {
                value as u64
            };
            let text = format_decimal_size(bytes);
            text.concat("/s")
        };
        AxisTick { value, label }
    }
}

impl<'a> GraphKind<'a> {
    /// Graphs of a share in percent, as opposed to graphs of a rate in bytes per second.
    pub open spec fn is_percentage(self) -> bool {
        match self {
            GraphKind::Cpu | GraphKind::Memory | GraphKind::Swap | GraphKind::GpuUsage(_)
            | GraphKind::GpuVram(_) => true,
            _ => false,
        }
    }

    /// Whether the graph plots a share in percent.
    pub fn shows_percentage(&self) -> (b: bool)
        ensures
            b == self.is_percentage(),
    {
        match self {
            GraphKind::Cpu | GraphKind::Memory | GraphKind::Swap | GraphKind::GpuUsage(_)
            | GraphKind::GpuVram(_) => true,
            _ => false,
        }
    }

    /// The value at the top of the vertical axis. Percentages run to 100; a rate
    /// axis runs to the least power of ten that is at least 1000 and at least
    /// `peak`, the highest rate in the history rounded up to a whole number.
    pub fn y_scale(&self, peak: u64) -> (scale: u128)
        ensures
            self.is_percentage() ==> scale == 100,
            !self.is_percentage() ==> is_rate_scale(scale as int, peak as int),
            scale <= u64::MAX as int * 10,
    {
        if self.shows_percentage() {
            return 100;
        }
        let mut scale: u128 = 1000;
        assert(is_power_of_ten(10)) by {
            assert(is_power_of_ten(1));
        }
        assert(is_power_of_ten(100)) by {
            lemma_times_ten_is_power_of_ten(10);
        }
        assert(is_power_of_ten(1000)) by {
            lemma_times_ten_is_power_of_ten(100);
        }
        while scale < peak as u128
            invariant
                is_power_of_ten(scale as int),
                1000 <= scale,
                scale <= u64::MAX as int * 10,
                scale == 1000 || scale / 10 < peak,
            decreases peak as int * 10 - scale,
        {
            proof {
                lemma_times_ten_is_power_of_ten(scale as int);
            }
            scale = scale * 10;
        }
        scale
    }

    /// The six marks of the vertical axis, from the bottom to the top of an axis
    /// that runs to `scale`. Percentage axes are marked every 20%; rate axes at
    /// each fifth of `scale`, captioned as a decimal size per second.
    pub fn y_axis_ticks(&self, scale: u128) -> (ticks: Vec<AxisTick>)
        requires
            scale <= u128::MAX / 5,
        ensures
            ticks.len() == 6,
            forall|i: int|
                0 <= i < 6 ==> {
                    &&& self.is_percentage() ==> #[trigger] ticks[i].value == 20 * i
                    &&& self.is_percentage() ==> ticks[i].label@ == percent_label(i)
                    &&& !self.is_percentage() ==> ticks[i].value == tick_value(scale as int, i)
                    &&& !self.is_percentage() ==> ticks[i].label@ == rate_label(
                        tick_value(scale as int, i),
                    )
                },
    {
        let percent = self.shows_percentage();
        let mut ticks: Vec<AxisTick> = Vec::new();
        let mut i: u128 = 0;
        while i < 6
            invariant
                i <= 6,
                ticks.len() == i,
                percent == self.is_percentage(),
                scale <= u128::MAX / 5,
                forall|j: int|
                    0 <= j < i ==> {
                        &&& percent ==> #[trigger] ticks[j].value == 20 * j
                        &&& percent ==> ticks[j].label@ == percent_label(j)
                        &&& !percent ==> ticks[j].value == tick_value(scale as int, j)
                        &&& !percent ==> ticks[j].label@ == rate_label(tick_value(scale as int, j))
                    },
            decreases 6 - i,
        {
            let tick = axis_tick(percent, scale, i);
            ticks.push(tick);
            i = i + 1;
        }
        ticks
    }
}

/// Of two powers of ten, the smaller one is at most a tenth of the larger one.
pub proof fn lemma_power_of_ten_gap(a: int, b: int)
    requires
        is_power_of_ten(a),
        is_power_of_ten(b),
        a < b,
    ensures
        a * 10 <= b,
    decreases a + b,
{
    let c = b / 10;
    assert(b > 1) by {
        assert(a >= 1);
    }
    assert(is_power_of_ten(c));
    assert(c >= 1);
    if a < c {
        lemma_power_of_ten_gap(a, c);
    } else if a > c {
        lemma_power_of_ten_gap(c, a);
        assert(c * 10 == b);
    }
}

/// The top of a rate axis is well defined: one peak gives one scale.
pub proof fn lemma_rate_scale_unique(a: int, b: int, peak: int)
    requires
        is_rate_scale(a, peak),
        is_rate_scale(b, peak),
    ensures
        a == b,
{
    if a < b {
        lemma_power_of_ten_gap(a, b);
    } else if b < a {
        lemma_power_of_ten_gap(b, a);
    }
}

/// A higher peak never gives a lower axis.
pub proof fn lemma_rate_scale_monotone(a: int, p: int, b: int, q: int)
    requires
        is_rate_scale(a, p),
        is_rate_scale(b, q),
        p <= q,
    ensures
        a <= b,
{
    if b < a {
        lemma_power_of_ten_gap(b, a);
    }
}

/// A rate mark is captioned with its own value: for any non-zero value that fits
/// in `u64`, the caption is the decimal size text of exactly that value followed
/// by "/s"; the byte count is clamped only past `u64::MAX`, and zero reads "0 B/s".
pub proof fn lemma_rate_label_is_own_value(value: int)
    ensures
        0 < value <= u64::MAX ==> rate_label(value) == decimal_size_text(value as u64) + "/s"@,
        value > u64::MAX ==> rate_label(value) == decimal_size_text(u64::MAX) + "/s"@,
        rate_label(0) == "0 B/s"@,
{
}

/// Each mark of a rate axis captions the value it stands at: the `i`th of the six
/// marks of an axis that runs to `scale` (at most `u64::MAX`) stands at `i` fifths
/// of `scale` and, unless that is zero, reads that many bytes per second.
pub proof fn lemma_rate_ticks_caption_their_values(scale: u128, i: int)
    requires
        scale <= u64::MAX,
        0 <= i < 6,
    ensures
        tick_value(scale as int, i) == scale * i / 5,
        tick_value(scale as int, i) <= u64::MAX,
        tick_value(scale as int, i) > 0 ==> rate_label(tick_value(scale as int, i))
            == decimal_size_text((scale * i / 5) as u64) + "/s"@,
{
    assert(scale * i <= scale * 5) by (nonlinear_arith)
        requires
            0 <= i < 6,
            scale >= 0,
    ;
    assert(scale * i / 5 <= scale) by (nonlinear_arith)
        requires
            scale * i <= scale * 5,
            scale >= 0,
    ;
}

/// Each mark of a percentage axis reads its own value: the caption of the `i`th
/// mark is the decimal number `20 * i` followed by a percent sign.
pub proof fn lemma_percent_labels_read_their_values(i: int)
    requires
        0 <= i < 6,
    ensures
        percent_label(i).len() > 1,
        percent_label(i).last() == '%',
        forall|j: int|
            0 <= j < percent_label(i).len() - 1 ==> is_digit(#[trigger] percent_label(i)[j]),
        digits_value(percent_label(i).drop_last()) == 20 * i,
{
    reveal_strlit("0%");
    reveal_strlit("20%");
    reveal_strlit("40%");
    reveal_strlit("60%");
    reveal_strlit("80%");
    reveal_strlit("100%");
    let l = percent_label(i);
    let d = l.drop_last();
    reveal_with_fuel(digits_value, 4);
    if i == 0 {
        assert(d =~= seq!['0']);
    } else if i == 1 {
        assert(d =~= seq!['2', '0']);
    } else if i == 2 {
        assert(d =~= seq!['4', '0']);
    } else if i == 3 {
        assert(d =~= seq!['6', '0']);
    } else if i == 4 {
        assert(d =~= seq!['8', '0']);
    } else {
        assert(d =~= seq!['1', '0', '0']);
        assert(d.drop_last() =~= seq!['1', '0']);
        assert(d.drop_last().drop_last() =~= seq!['1']);
    }
}

} // verus!
