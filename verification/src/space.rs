//! Disk space arithmetic: capacity from filesystem statistics, the share
//! in use, and sizes in words.

use vstd::prelude::*;
use vstd::string::*;

verus! {

/// Disk space information for a single mount point.
#[derive(Debug, Clone, Copy)]
pub struct SpaceInfo {
    /// Total bytes on the filesystem.
    pub total: u64,
    /// Used bytes.
    pub used: u64,
    /// Available bytes (may differ from total - used due to reserved blocks).
    pub available: u64,
}

/// What a filesystem-statistics query reports of one mount, in blocks.
#[derive(Debug, Clone, Copy)]
pub struct FsStats {
    /// Bytes in one block.
    pub block_size: u64,
    /// Blocks on the filesystem.
    pub blocks: u64,
    /// Blocks that hold no data.
    pub blocks_free: u64,
    /// Free blocks that an unprivileged user may take.
    pub blocks_available: u64,
}

/// `used` out of `total` as a percentage, rounded to the nearest whole
/// with halves rounded up; 0 where `total` is 0.
pub open spec fn percent_of(used: nat, total: nat) -> nat {
    if total == 0 {
        0
    } else {
        (200 * used + total) / (2 * total)
    }
}

/// A part of the whole is at most 100 percent of it.
pub proof fn lemma_percent_bounded(used: nat, total: nat)
    requires
        used <= total,
    ensures
        percent_of(used, total) <= 100,
{
    if total > 0 {
        assert((200 * used + total) / (2 * total) <= 100) by (nonlinear_arith)
            requires
                used <= total,
                total > 0,
        ;
    }
}

/// The share of `space` that is in use, as the whole percentage that
/// [`SpaceInfo::percent_used`] returns: `percent_of`, held at 255.
pub open spec fn used_percent(space: SpaceInfo) -> u8 {
    if percent_of(space.used as nat, space.total as nat) > 255 {
        255
    } else {
        percent_of(space.used as nat, space.total as nat) as u8
    }
}

impl SpaceInfo {
    /// Returns usage as a percentage (0-100).
    ///
    /// An empty filesystem counts as unused. Where more is used than there
    /// is, the result goes beyond 100 and stops at 255.
    pub fn percent_used(&self) -> (percent: u8)
        ensures
            percent == used_percent(*self),
            self.total == 0 ==> percent == 0,
            self.used <= self.total ==> percent <= 100,
    {
        if self.total == 0 {
            return 0;
        }
        proof {
            if self.used <= self.total {
                lemma_percent_bounded(self.used as nat, self.total as nat);
            }
        }
        let doubled: u128 = 200 * (self.used as u128) + (self.total as u128);
        let rounded: u128 = doubled / (2 * (self.total as u128));
        if rounded > 255 {
            255
        } else {
            rounded as u8
        }
    }
}

/// The space that `stats` stands for: each count of blocks times the block
/// size, and as used what is not free.
pub open spec fn space_of(stats: FsStats) -> SpaceInfo {
    SpaceInfo {
        total: (stats.blocks * stats.block_size) as u64,
        used: if stats.blocks_free * stats.block_size >= stats.blocks * stats.block_size {
            0
        } else {
            (stats.blocks * stats.block_size - stats.blocks_free * stats.block_size) as u64
        },
        available: (stats.blocks_available * stats.block_size) as u64,
    }
}

/// Whether every byte count of `stats` fits in 64 bits.
pub open spec fn fits(stats: FsStats) -> bool {
    &&& stats.blocks * stats.block_size <= u64::MAX
    &&& stats.blocks_free * stats.block_size <= u64::MAX
    &&& stats.blocks_available * stats.block_size <= u64::MAX
}

/// Computes disk space from the statistics of a mount point.
///
/// Used is total minus free, not minus available: what is reserved counts
/// as unused. Where free exceeds total, used is 0. There is no result where
/// a byte count does not fit in 64 bits.
pub fn get_space_info(stats: &FsStats) -> (space: Option<SpaceInfo>)
    ensures
        space == if fits(*stats) {
            Some(space_of(*stats))
        } else {
            None::<SpaceInfo>
        },
        space is Some ==> space->0.used <= space->0.total,
{
    let total: u64 = match stats.blocks.checked_mul(stats.block_size) {
        Some(total) => total,
        None => {
            return None;
        },
    };
    let free: u64 = match stats.blocks_free.checked_mul(stats.block_size) {
        Some(free) => free,
        None => {
            return None;
        },
    };
    let available: u64 = match stats.blocks_available.checked_mul(stats.block_size) {
        Some(available) => available,
        None => {
            return None;
        },
    };
    let used: u64 = if free >= total {
        0
    } else {
        total - free
    };
    Some(SpaceInfo { total, used, available })
}

/// Bytes in a kilobyte.
pub const KB: u64 = 1024;

/// Bytes in a megabyte.
pub const MB: u64 = 1048576;

/// Bytes in a gigabyte.
pub const GB: u64 = 1073741824;

/// Bytes in a terabyte.
pub const TB: u64 = 1099511627776;

/// The whole number nearest to `num / den`; of two that are equally near,
/// the even one.
pub open spec fn round_half_even(num: nat, den: nat) -> nat {
    if 2 * (num % den) > den || (2 * (num % den) == den && (num / den) % 2 == 1) {
        num / den + 1
    } else {
        num / den
    }
}

/// The gap between neighbouring numbers that have 53 significant bits, at
/// the size of `n`: 1 below 2^53, and twice as much with each further bit.
pub open spec fn spacing(n: nat) -> nat
    decreases n,
{
    if n < 0x20_0000_0000_0000 {
        1
    } else {
        2 * spacing(n / 2)
    }
}

/// `n` rounded to 53 significant bits, as a double-precision number holds
/// it.
pub open spec fn to_double(n: nat) -> nat {
    round_half_even(n, spacing(n)) * spacing(n)
}

/// `bytes` in tenths of `unit`, rounded as a double-precision quotient is
/// when it is written with one decimal.
pub open spec fn tenths(bytes: nat, unit: nat) -> nat {
    round_half_even(10 * to_double(bytes), unit)
}

/// The character of a decimal digit.
pub open spec fn digit(d: nat) -> char {
    if d == 0 {
        '0'
    } else if d == 1 {
        '1'
    } else if d == 2 {
        '2'
    } else if d == 3 {
        '3'
    } else if d == 4 {
        '4'
    } else if d == 5 {
        '5'
    } else if d == 6 {
        '6'
    } else if d == 7 {
        '7'
    } else if d == 8 {
        '8'
    } else {
        '9'
    }
}

/// `n` in decimal digits, without leading zeros.
pub open spec fn decimal(n: nat) -> Seq<char>
    decreases n,
{
    if n < 10 {
        seq![digit(n)]
    } else {
        decimal(n / 10).push(digit(n % 10))
    }
}

/// `bytes` as a count of `unit` with one decimal.
pub open spec fn scaled(bytes: nat, unit: nat) -> Seq<char> {
    decimal(tenths(bytes, unit) / 10) + seq!['.'] + decimal(tenths(bytes, unit) % 10)
}

/// `bytes` in words: in the largest of TB, GB, MB and KB that it reaches,
/// with one decimal, or as a whole number of bytes below a kilobyte.
pub open spec fn formatted(bytes: nat) -> Seq<char> {
    if bytes >= TB {
        scaled(bytes, TB as nat) + " TB"@
    } else if bytes >= GB {
        scaled(bytes, GB as nat) + " GB"@
    } else if bytes >= MB {
        scaled(bytes, MB as nat) + " MB"@
    } else if bytes >= KB {
        scaled(bytes, KB as nat) + " KB"@
    } else {
        decimal(bytes) + " B"@
    }
}

fn digit_str(d: u64) -> (text: &'static str)
    requires
        d < 10,
    ensures
        text@ == seq![digit(d as nat)],
{
    proof {
        reveal_strlit("0");
        reveal_strlit("1");
        reveal_strlit("2");
        reveal_strlit("3");
        reveal_strlit("4");
        reveal_strlit("5");
        reveal_strlit("6");
        reveal_strlit("7");
        reveal_strlit("8");
        reveal_strlit("9");
    }
    let text: &'static str = if d == 0 {
        "0"
    } else if d == 1 {
        "1"
    } else if d == 2 {
        "2"
    } else if d == 3 {
        "3"
    } else if d == 4 {
        "4"
    } else if d == 5 {
        "5"
    } else if d == 6 {
        "6"
    } else if d == 7 {
        "7"
    } else if d == 8 {
        "8"
    } else {
        "9"
    };
    assert(text@ =~= seq![digit(d as nat)]);
    text
}

fn push_decimal(out: &mut String, n: u64)
    ensures
        final(out)@ == old(out)@ + decimal(n as nat),
    decreases n,
{
    if n >= 10 {
        push_decimal(out, n / 10);
    }
    let ghost before = out@;
    out.append(digit_str(n % 10));
    proof {
        if n >= 10 {
            assert(out@ =~= old(out)@ + decimal((n / 10) as nat).push(digit((n % 10) as nat)));
        } else {
            assert(out@ =~= old(out)@ + seq![digit(n as nat)]);
        }
    }
}

fn nearest_even(num: u128, den: u128) -> (rounded: u128)
    requires
        den > 0,
        num / den < u128::MAX,
    ensures
        rounded == round_half_even(num as nat, den as nat),
{
    let whole: u128 = num / den;
    let left: u128 = num % den;
    let other: u128 = den - left;
    if left > other || (left == other && whole % 2 == 1) {
        whole + 1
    } else {
        whole
    }
}

/// Whether `gap` is a power of two that 64-bit numbers are spaced by.
spec fn is_gap(gap: nat) -> bool {
    gap == 1 || gap == 2 || gap == 4 || gap == 8 || gap == 16 || gap == 32 || gap == 64 || gap
        == 128 || gap == 256 || gap == 512 || gap == 1024 || gap == 2048
}

/// Rounding up to the next multiple of a gap stays within 2^64.
proof fn lemma_gap_bound(b: nat, g: nat)
    requires
        is_gap(g),
        b < 0x1_0000_0000_0000_0000,
    ensures
        (b / g + 1) * g <= 0x1_0000_0000_0000_0000,
{
    if g == 1 {
        assert((b / 1 + 1) * 1 <= 0x1_0000_0000_0000_0000);
    } else if g == 2 {
        assert((b / 2 + 1) * 2 <= 0x1_0000_0000_0000_0000);
    } else if g == 4 {
        assert((b / 4 + 1) * 4 <= 0x1_0000_0000_0000_0000);
    } else if g == 8 {
        assert((b / 8 + 1) * 8 <= 0x1_0000_0000_0000_0000);
    } else if g == 16 {
        assert((b / 16 + 1) * 16 <= 0x1_0000_0000_0000_0000);
    } else if g == 32 {
        assert((b / 32 + 1) * 32 <= 0x1_0000_0000_0000_0000);
    } else if g == 64 {
        assert((b / 64 + 1) * 64 <= 0x1_0000_0000_0000_0000);
    } else if g == 128 {
        assert((b / 128 + 1) * 128 <= 0x1_0000_0000_0000_0000);
    } else if g == 256 {
        assert((b / 256 + 1) * 256 <= 0x1_0000_0000_0000_0000);
    } else if g == 512 {
        assert((b / 512 + 1) * 512 <= 0x1_0000_0000_0000_0000);
    } else if g == 1024 {
        assert((b / 1024 + 1) * 1024 <= 0x1_0000_0000_0000_0000);
    } else {
        assert((b / 2048 + 1) * 2048 <= 0x1_0000_0000_0000_0000);
    }
}

fn double_of(bytes: u64) -> (rounded: u128)
    ensures
        rounded == to_double(bytes as nat),
        rounded <= 0x1_0000_0000_0000_0000,
{
    let mut gap: u64 = 1;
    let mut rest: u64 = bytes;
    while rest >= 0x20_0000_0000_0000
        invariant
            spacing(bytes as nat) == gap * spacing(rest as nat),
            is_gap(gap as nat),
            rest * gap <= bytes,
        decreases rest,
    {
        proof {
            assert(gap * (2 * spacing((rest / 2) as nat)) == (gap * 2) * spacing(
                (rest / 2) as nat,
            )) by (nonlinear_arith);
            assert((rest / 2) * (gap * 2) <= rest * gap) by (nonlinear_arith);
            assert(gap < 2048) by (nonlinear_arith)
                requires
                    rest >= 0x20_0000_0000_0000,
                    rest * gap <= 0xffff_ffff_ffff_ffff,
                    gap >= 1,
            ;
        }
        rest = rest / 2;
        gap = gap * 2;
    }
    assert(spacing(rest as nat) == 1);
    assert(gap * 1 == gap) by (nonlinear_arith);
    let units: u128 = nearest_even(bytes as u128, gap as u128);
    proof {
        lemma_gap_bound(bytes as nat, gap as nat);
        assert(units * gap <= (bytes / gap + 1) * gap) by (nonlinear_arith)
            requires
                units <= bytes / gap + 1,
                gap >= 1,
        ;
    }
    units * (gap as u128)
}

fn push_scaled(out: &mut String, bytes: u64, unit: u64)
    requires
        unit >= KB,
    ensures
        final(out)@ == old(out)@ + scaled(bytes as nat, unit as nat),
{
    let exact: u128 = double_of(bytes);
    proof {
        let n = 10 * exact as int;
        let d = unit as int;
        assert(n / d <= n / 1024) by (nonlinear_arith)
            requires
                n >= 0,
                d >= 1024,
        ;
    }
    let count: u128 = nearest_even(10 * exact, unit as u128);
    let ghost before = out@;
    push_decimal(out, (count / 10) as u64);
    proof {
        reveal_strlit(".");
        assert("."@ =~= seq!['.']);
    }
    out.append(".");
    push_decimal(out, (count % 10) as u64);
    assert(out@ =~= before + scaled(bytes as nat, unit as nat));
}

/// Formats bytes into a human-readable string (e.g., "1.5 GB").
pub fn format_bytes(bytes: u64) -> (text: String)
    ensures
        text@ == formatted(bytes as nat),
{
    let mut text: String = String::new();
    if bytes >= TB {
        push_scaled(&mut text, bytes, TB);
        text.append(" TB");
        assert(text@ =~= scaled(bytes as nat, TB as nat) + " TB"@);
    } else if bytes >= GB {
        push_scaled(&mut text, bytes, GB);
        text.append(" GB");
        assert(text@ =~= scaled(bytes as nat, GB as nat) + " GB"@);
    } else if bytes >= MB {
        push_scaled(&mut text, bytes, MB);
        text.append(" MB");
        assert(text@ =~= scaled(bytes as nat, MB as nat) + " MB"@);
    } else if bytes >= KB {
        push_scaled(&mut text, bytes, KB);
        text.append(" KB");
        assert(text@ =~= scaled(bytes as nat, KB as nat) + " KB"@);
    } else {
        push_decimal(&mut text, bytes);
        text.append(" B");
        assert(text@ =~= decimal(bytes as nat) + " B"@);
    }
    text
}

} // verus!
