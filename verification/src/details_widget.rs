//! The numbers of the run details table: step count for its height, and the
//! text of line counts, sizes and durations.
use crate::shell::pipeline_runner::{PipelineRun, StepFailure, StepOutput, Stdin};
use crate::text::{decimal, digit, digit_char, push_char, push_decimal, push_str};
use vstd::arithmetic::power2::{lemma2_to64, lemma2_to64_rest, lemma_pow2_pos, lemma_pow2_unfold, pow2};
use vstd::arithmetic::div_mod::{lemma_breakdown, lemma_div_denominator, lemma_fundamental_div_mod, lemma_mod_mod};
use vstd::prelude::*;

verus! {

/// The table of a pipeline run: a header, the input when shown, one row per
/// completed step and one for the failed step.
pub struct DetailsWidget {
    pub pipeline_run: PipelineRun,
    pub show_stdin: bool,
}

impl DetailsWidget {
    /// Rows of the table: header, input, steps and failure (the step count
    /// taken modulo 2^16, as a terminal height).
    pub fn height(&self) -> (h: u16)
        requires
            (self.pipeline_run.steps@.len() as u16) + (if self.pipeline_run.failure is Some { 1int } else { 0int })
                + (if self.show_stdin { 1int } else { 0int }) + 1 <= u16::MAX,
        ensures
            h == (self.pipeline_run.steps@.len() as u16) + (if self.pipeline_run.failure is Some { 1int } else { 0int })
                + (if self.show_stdin { 1int } else { 0int }) + 1,
    {
        let steps = self.pipeline_run.steps.len() as u16;
        let failure: u16 = if self.pipeline_run.failure.is_some() { 1 } else { 0 };
        let stdin: u16 = if self.show_stdin { 1 } else { 0 };
        steps + failure + stdin + 1
    }
}

impl Default for DetailsWidget {
    /// An empty run, with the input shown.
    fn default() -> (w: DetailsWidget)
        ensures
            w.show_stdin,
            w.pipeline_run.stdin.bytes@.len() == 0,
            w.pipeline_run.stdin.lines == 0,
            w.pipeline_run.steps@.len() == 0,
            w.pipeline_run.failure is None,
    {
        DetailsWidget { pipeline_run: PipelineRun::default(), show_stdin: true }
    }
}

/// Three digits of `m < 1000`, with leading zeros.
pub open spec fn three_digits(m: nat) -> Seq<char> {
    seq![digit_char(m / 100), digit_char((m / 10) % 10), digit_char(m % 10)]
}

/// `n` in decimal, with a comma between groups of three digits counted from
/// the right: `1,234,567`.
pub open spec fn thousands(n: nat) -> Seq<char>
    decreases n,
{
    if n < 1000 {
        decimal(n)
    } else {
        thousands(n / 1000) + seq![','] + three_digits(n % 1000)
    }
}

fn push_thousands(s: &mut String, n: u128)
    ensures
        final(s)@ == old(s)@ + thousands(n as nat),
    decreases n,
{
    if n < 1000 {
        push_decimal(s, n);
    } else {
        push_thousands(s, n / 1000);
        push_char(s, ',');
        let m = n % 1000;
        push_char(s, digit((m / 100) as u8));
        push_char(s, digit(((m / 10) % 10) as u8));
        push_char(s, digit((m % 10) as u8));
    }
}

/// `s` without its commas.
pub open spec fn without_commas(s: Seq<char>) -> Seq<char>
    decreases s.len(),
{
    if s.len() == 0 {
        s
    } else if s.last() == ',' {
        without_commas(s.drop_last())
    } else {
        without_commas(s.drop_last()).push(s.last())
    }
}

proof fn lemma_without_commas_append(a: Seq<char>, b: Seq<char>)
    ensures
        without_commas(a + b) == without_commas(a) + without_commas(b),
    decreases b.len(),
{
    if b.len() == 0 {
        assert(a + b =~= a);
        assert(without_commas(a) + without_commas(b) =~= without_commas(a));
    } else {
        assert((a + b).drop_last() =~= a + b.drop_last());
        lemma_without_commas_append(a, b.drop_last());
        if b.last() != ',' {
            assert(without_commas(a) + without_commas(b.drop_last()).push(b.last()) =~= (without_commas(a)
                + without_commas(b.drop_last())).push(b.last()));
        }
    }
}

proof fn lemma_digit_is_not_comma(d: nat)
    requires
        d < 10,
    ensures
        digit_char(d) != ',',
{
    assert(digit_char(d) as int == 48 + d);
}

/// Appending a character that is not a comma keeps it.
proof fn lemma_without_commas_push(s: Seq<char>, c: char)
    requires
        c != ',',
    ensures
        without_commas(s.push(c)) == without_commas(s).push(c),
{
    assert(s.push(c).drop_last() =~= s);
}

proof fn lemma_decimal_has_no_commas(n: nat)
    ensures
        without_commas(decimal(n)) == decimal(n),
    decreases n,
{
    if n < 10 {
        lemma_digit_is_not_comma(n);
        lemma_without_commas_push(Seq::empty(), digit_char(n));
        assert(Seq::<char>::empty().push(digit_char(n)) =~= decimal(n));
    } else {
        lemma_decimal_has_no_commas(n / 10);
        lemma_digit_is_not_comma(n % 10);
        lemma_without_commas_push(decimal(n / 10), digit_char(n % 10));
    }
}

proof fn lemma_decimal_thousands_split(n: nat)
    requires
        n >= 1000,
    ensures
        decimal(n) == decimal(n / 1000) + three_digits(n % 1000),
{
    let a = n / 1000;
    let m = n % 1000;
    let d0 = n % 10;
    let d1 = (n / 10) % 10;
    let d2 = (n / 100) % 10;
    lemma_div_denominator(n as int, 10, 10);
    lemma_div_denominator(n as int, 100, 10);
    lemma_breakdown(n as int, 100, 10);
    lemma_breakdown(n as int, 10, 10);
    lemma_mod_mod(n as int, 10, 100);
    assert(m == 100 * d2 + 10 * d1 + d0);
    assert(m / 100 == d2 && (m / 10) % 10 == d1 && m % 10 == d0) by (nonlinear_arith)
        requires
            m == 100 * d2 + 10 * d1 + d0,
            d0 < 10,
            d1 < 10,
            d2 < 10,
    ;
    assert(decimal(n) == decimal(n / 10).push(digit_char(d0)));
    assert(decimal(n / 10) == decimal(n / 100).push(digit_char(d1)));
    assert(decimal(n / 100) == decimal(a).push(digit_char(d2)));
    assert(decimal(n) =~= decimal(a) + three_digits(m));
}

/// Separators are all that `thousands` adds: without its commas it is the
/// plain decimal representation.
pub proof fn law_thousands_only_adds_separators(n: nat)
    ensures
        without_commas(thousands(n)) == decimal(n),
    decreases n,
{
    if n < 1000 {
        lemma_decimal_has_no_commas(n);
    } else {
        law_thousands_only_adds_separators(n / 1000);
        lemma_decimal_thousands_split(n);
        let m = n % 1000;
        lemma_without_commas_append(thousands(n / 1000) + seq![','], three_digits(m));
        lemma_without_commas_append(thousands(n / 1000), seq![',']);
        assert(without_commas(seq![',']) =~= Seq::<char>::empty()) by {
            assert(seq![','].drop_last() =~= Seq::<char>::empty());
            assert(without_commas(Seq::<char>::empty()) =~= Seq::<char>::empty());
        }
        assert(without_commas(three_digits(m)) == three_digits(m)) by {
            let (x, y, z) = (digit_char(m / 100), digit_char((m / 10) % 10), digit_char(m % 10));
            lemma_digit_is_not_comma(m / 100);
            lemma_digit_is_not_comma((m / 10) % 10);
            lemma_digit_is_not_comma(m % 10);
            lemma_without_commas_push(Seq::empty(), x);
            lemma_without_commas_push(seq![x], y);
            lemma_without_commas_push(seq![x, y], z);
            assert(Seq::<char>::empty().push(x) =~= seq![x]);
            assert(seq![x].push(y) =~= seq![x, y]);
            assert(seq![x, y].push(z) =~= three_digits(m));
            assert(without_commas(Seq::<char>::empty()) =~= Seq::<char>::empty());
        }
        assert(without_commas(thousands(n / 1000)) + Seq::<char>::empty() =~= decimal(n / 1000));
    }
}

/// `n` with thousands separators: `1234567` gives `1,234,567`.
pub fn format_thousands(n: u128) -> (r: String)
    ensures
        r@ == thousands(n as nat),
{
    let mut s = String::new();
    push_thousands(&mut s, n);
    s
}

/// The exponent of the binary floating-point value `ms / 1000.0`, for
/// `1000 <= ms < 64000`: the largest `e` with `1000 * 2^e <= ms`.
pub open spec fn seconds_exponent(ms: nat) -> nat {
    if ms < 2000 {
        0
    } else if ms < 4000 {
        1
    } else if ms < 8000 {
        2
    } else if ms < 16000 {
        3
    } else if ms < 32000 {
        4
    } else {
        5
    }
}

/// How the double-precision quotient `ms as f64 / 1000.0` (for
/// `1000 <= ms < 64000`) lies from the exact `ms / 1000`: with 53 significant
/// bits its unit is `2^(e - 52)`, so it is `ms * 2^(52 - e) / 1000` rounded to
/// the nearest integer and scaled back. This is the remainder of that
/// division: zero when the quotient is exact, above 500 when it was rounded
/// up, below when it was rounded down (never exactly 500).
pub open spec fn millis_quotient_remainder(ms: nat) -> nat {
    (ms * pow2((52 - seconds_exponent(ms)) as nat)) % 1000
}

/// Tenths of a second in `ms` milliseconds as the double-precision quotient
/// `ms / 1000.0` prints with one decimal: rounded to the nearest tenth; at an
/// exact half, to the side where that quotient lies, or, when the quotient is
/// exact, to the even tenth.
pub open spec fn seconds_tenths(ms: nat) -> nat {
    let q = ms / 100;
    let r = ms % 100;
    let off = millis_quotient_remainder(ms);
    if r < 50 {
        q
    } else if r > 50 {
        q + 1
    } else if off == 0 {
        if q % 2 == 0 {
            q
        } else {
            q + 1
        }
    } else if 2 * off > 1000 {
        q + 1
    } else {
        q
    }
}

/// A duration of `ms` milliseconds as the details table shows it: `999ms`,
/// `1.5s` (one decimal), `2m 5s`, `1h 2m 3s`.
pub open spec fn duration_text(ms: nat) -> Seq<char> {
    if ms < 1000 {
        decimal(ms) + seq!['m', 's']
    } else if ms < 60000 {
        let t = seconds_tenths(ms);
        decimal(t / 10) + seq!['.', digit_char(t % 10), 's']
    } else if ms < 3600000 {
        decimal(ms / 60000) + seq!['m', ' '] + decimal((ms % 60000) / 1000) + seq!['s']
    } else {
        decimal(ms / 3600000) + seq!['h', ' '] + decimal((ms % 3600000) / 60000) + seq!['m', ' ']
            + decimal(((ms % 3600000) % 60000) / 1000) + seq!['s']
    }
}

fn millis_remainder(ms: u64) -> (b: u128)
    requires
        1000 <= ms < 64000,
    ensures
        b == millis_quotient_remainder(ms as nat),
{
    proof {
        lemma2_to64_rest();
    }
    let scale: u128 = if ms < 2000 {
        4503599627370496
    } else if ms < 4000 {
        2251799813685248
    } else if ms < 8000 {
        1125899906842624
    } else if ms < 16000 {
        562949953421312
    } else if ms < 32000 {
        281474976710656
    } else {
        140737488355328
    };
    assert(scale == pow2((52 - seconds_exponent(ms as nat)) as nat)) by {
        if ms < 2000 {
            assert(pow2(52) == 4503599627370496);
        } else if ms < 4000 {
            assert(pow2(51) == 2251799813685248);
        } else if ms < 8000 {
            assert(pow2(50) == 1125899906842624);
        } else if ms < 16000 {
            assert(pow2(49) == 562949953421312);
        } else if ms < 32000 {
            assert(pow2(48) == 281474976710656);
        } else {
            assert(pow2(47) == 140737488355328);
        }
    }
    assert((ms as u128) * scale <= 64000 * 4503599627370496) by (nonlinear_arith)
        requires
            ms < 64000,
            scale <= 4503599627370496,
    ;
    let n = (ms as u128) * scale;
    n % 1000
}

/// `ms` milliseconds as text; see `duration_text`.
pub fn format_duration(ms: u64) -> (r: String)
    ensures
        r@ == duration_text(ms as nat),
{
    let mut s = String::new();
    if ms < 1000 {
        push_decimal(&mut s, ms as u128);
        push_char(&mut s, 'm');
        push_char(&mut s, 's');
    } else if ms < 60000 {
        let q = ms / 100;
        let r = ms % 100;
        let t = if r < 50 {
            q
        } else if r > 50 {
            q + 1
        } else {
            let off = millis_remainder(ms);
            if off == 0 {
                if q % 2 == 0 {
                    q
                } else {
                    q + 1
                }
            } else if 2 * off > 1000 {
                q + 1
            } else {
                q
            }
        };
        push_decimal(&mut s, (t / 10) as u128);
        push_char(&mut s, '.');
        push_char(&mut s, digit((t % 10) as u8));
        push_char(&mut s, 's');
    } else if ms < 3600000 {
        push_decimal(&mut s, (ms / 60000) as u128);
        push_char(&mut s, 'm');
        push_char(&mut s, ' ');
        push_decimal(&mut s, ((ms % 60000) / 1000) as u128);
        push_char(&mut s, 's');
    } else {
        push_decimal(&mut s, (ms / 3600000) as u128);
        push_char(&mut s, 'h');
        push_char(&mut s, ' ');
        push_decimal(&mut s, ((ms % 3600000) / 60000) as u128);
        push_char(&mut s, 'm');
        push_char(&mut s, ' ');
        push_decimal(&mut s, (((ms % 3600000) % 60000) / 1000) as u128);
        push_char(&mut s, 's');
    }
    proof {
        assert(s@ =~= duration_text(ms as nat));
    }
    s
}

/// Number of binary digits of `n` (zero for zero).
pub open spec fn bit_length(n: nat) -> nat
    decreases n,
{
    if n == 0 {
        0
    } else {
        1 + bit_length(n / 2)
    }
}

pub proof fn lemma_bit_length_bound(n: nat, k: nat)
    requires
        n < pow2(k),
    ensures
        bit_length(n) <= k,
    decreases k,
{
    if n > 0 {
        lemma_pow2_pos(k);
        if k == 0 {
            assert(pow2(0) == 1) by {
                lemma2_to64();
            }
        } else {
            lemma_pow2_unfold(k);
            lemma_bit_length_bound(n / 2, (k - 1) as nat);
        }
    }
}

/// The unit of a size of `b >= 1024` bytes: 1 for KiB, 2 for MiB, 3 for GiB
/// (also for larger sizes), from the binary logarithm of `b` divided by 10.
pub open spec fn size_scale(b: nat) -> nat {
    let l = (bit_length(b) - 1) / 10;
    if l > 3 {
        3
    } else {
        l as nat
    }
}

/// `b` as a double-precision value: unchanged up to 53 binary digits,
/// otherwise rounded to 53 significant digits, to nearest, ties to even.
pub open spec fn round_to_double(b: nat) -> nat {
    if bit_length(b) <= 53 {
        b
    } else {
        let u = pow2((bit_length(b) - 53) as nat);
        let q = b / u;
        let r = b % u;
        (if 2 * r > u || (2 * r == u && q % 2 == 1) {
            q + 1
        } else {
            q
        }) * u
    }
}

/// `num / den` in tenths, rounded to nearest, an exact half to the even tenth.
pub open spec fn tenths_half_even(num: nat, den: nat) -> nat {
    let t = (num * 10) / den;
    let r = (num * 10) % den;
    if 2 * r < den {
        t
    } else if 2 * r > den {
        t + 1
    } else if t % 2 == 0 {
        t
    } else {
        t + 1
    }
}

/// The unit names.
pub open spec fn size_suffix(scale: nat) -> Seq<char> {
    if scale == 0 {
        seq!['B']
    } else if scale == 1 {
        seq!['K', 'i', 'B']
    } else if scale == 2 {
        seq!['M', 'i', 'B']
    } else {
        seq!['G', 'i', 'B']
    }
}

/// A size as the details table shows it: `512 B` below 1024 bytes, otherwise
/// the double-precision size divided by the unit's power of 1024, with one
/// decimal: `1.5 KiB`.
pub open spec fn file_size_text(b: nat) -> Seq<char> {
    if b < 1024 {
        decimal(b) + seq![' ', 'B']
    } else {
        let s = size_scale(b);
        let t = tenths_half_even(round_to_double(b), pow2(10 * s));
        decimal(t / 10) + seq!['.', digit_char(t % 10), ' '] + size_suffix(s)
    }
}

fn bit_length_of(b: u64) -> (n: u32)
    ensures
        n == bit_length(b as nat),
        n <= 64,
{
    proof {
        lemma2_to64();
        lemma_bit_length_bound(b as nat, 64);
    }
    let mut x = b;
    let mut n: u32 = 0;
    while x > 0
        invariant
            n + bit_length(x as nat) == bit_length(b as nat),
            bit_length(b as nat) <= 64,
        decreases x,
    {
        x = x / 2;
        n = n + 1;
    }
    n
}

/// A power of two, `2^e`, for `e <= 11`.
fn small_pow2(e: u32) -> (p: u64)
    requires
        e <= 11,
    ensures
        p == pow2(e as nat),
        1 <= p <= 2048,
{
    proof {
        lemma2_to64();
    }
    if e == 0 {
        1
    } else if e == 1 {
        2
    } else if e == 2 {
        4
    } else if e == 3 {
        8
    } else if e == 4 {
        16
    } else if e == 5 {
        32
    } else if e == 6 {
        64
    } else if e == 7 {
        128
    } else if e == 8 {
        256
    } else if e == 9 {
        512
    } else if e == 10 {
        1024
    } else {
        2048
    }
}

fn double_value(b: u64, bl: u32) -> (v: u128)
    requires
        bl == bit_length(b as nat),
        bl <= 64,
    ensures
        v == round_to_double(b as nat),
        v <= 0x10000000000000000,
{
    if bl <= 53 {
        return b as u128;
    }
    let u = small_pow2(bl - 53);
    let ghost sh = (bl - 53) as nat;
    proof {
        lemma_pow2_pos(sh);
        lemma_fundamental_div_mod(b as int, u as int);
        lemma_below_pow2_bit_length(b as nat);
        vstd::arithmetic::power2::lemma_pow2_adds(53, sh);
        lemma2_to64_rest();
        lemma2_to64();
        if bl < 64 {
            vstd::arithmetic::power2::lemma_pow2_strictly_increases(bl as nat, 64);
        }
    }
    let q = b / u;
    let r = b % u;
    assert(q < 0x20000000000000) by (nonlinear_arith)
        requires
            b == u * q + r,
            0 <= r,
            u > 0,
            b < 0x20000000000000 * u,
    ;
    let q2: u64 = if 2 * r > u || (2 * r == u && q % 2 == 1) { q + 1 } else { q };
    assert(q2 * u <= 0x20000000000000 * u) by (nonlinear_arith)
        requires
            q2 <= 0x20000000000000,
            u > 0,
    ;
    (q2 as u128) * (u as u128)
}

/// A size in bytes as text; see `file_size_text`.
pub fn format_file_size(bytes: u64) -> (r: String)
    ensures
        r@ == file_size_text(bytes as nat),
{
    let mut s = String::new();
    if bytes < 1024 {
        push_decimal(&mut s, bytes as u128);
        push_char(&mut s, ' ');
        push_char(&mut s, 'B');
        return s;
    }
    let bl = bit_length_of(bytes);
    proof {
        if bl == 0 {
            assert(bytes == 0);
        }
        lemma2_to64();
    }
    let l = (bl - 1) / 10;
    let scale: u32 = if l > 3 { 3 } else { l };
    let den: u128 = if scale == 1 { 1024 } else if scale == 2 { 1048576 } else { 1073741824 };
    assert(scale >= 1) by {
        lemma_bit_length_low(bytes as nat, 10);
    }
    assert(den == pow2(10 * scale as nat));
    let v = double_value(bytes, bl);
    let num = v * 10;
    let t = num / den;
    let rem = num % den;
    let tenths = if 2 * rem < den {
        t
    } else if 2 * rem > den {
        t + 1
    } else if t % 2 == 0 {
        t
    } else {
        t + 1
    };
    push_decimal(&mut s, tenths / 10);
    push_char(&mut s, '.');
    push_char(&mut s, digit((tenths % 10) as u8));
    push_char(&mut s, ' ');
    if scale == 1 {
        push_char(&mut s, 'K');
    } else if scale == 2 {
        push_char(&mut s, 'M');
    } else {
        push_char(&mut s, 'G');
    }
    push_char(&mut s, 'i');
    push_char(&mut s, 'B');
    proof {
        assert(s@ =~= file_size_text(bytes as nat));
    }
    s
}

pub proof fn lemma_bit_length_low(n: nat, k: nat)
    requires
        n >= pow2(k),
    ensures
        bit_length(n) >= k + 1,
    decreases k,
{
    lemma_pow2_pos(k);
    if k > 0 {
        lemma_pow2_unfold(k);
        lemma_bit_length_low(n / 2, (k - 1) as nat);
    } else {
        lemma2_to64();
    }
}

pub proof fn lemma_below_pow2_bit_length(n: nat)
    ensures
        n < pow2(bit_length(n)),
    decreases n,
{
    if n == 0 {
        lemma2_to64();
    } else {
        lemma_below_pow2_bit_length(n / 2);
        lemma_pow2_unfold(bit_length(n));
    }
}


/// One row of the table, as text: the command, its time, its line count
/// and its size; and whether it is the failed step, shown in red.
pub struct DetailsRow {
    pub command: String,
    pub time: String,
    pub lines: String,
    pub size: String,
    pub failed: bool,
}

/// A row as plain values.
pub open spec fn row_view(r: DetailsRow) -> (Seq<char>, Seq<char>, Seq<char>, Seq<char>, bool) {
    (r.command@, r.time@, r.lines@, r.size@, r.failed)
}

/// Whole milliseconds of a duration in nanoseconds.
pub open spec fn millis(nanos: nat) -> nat {
    nanos / 1_000_000
}

/// The row of the input: no command and no time.
pub open spec fn stdin_row(stdin: Stdin) -> (Seq<char>, Seq<char>, Seq<char>, Seq<char>, bool) {
    ("<stdin>"@, "-"@, thousands(stdin.lines as nat), file_size_text(stdin.bytes@.len()), false)
}

/// The row of a completed step; the time of an output from the cache is
/// marked with ` *`.
pub open spec fn step_row(step: StepOutput) -> (Seq<char>, Seq<char>, Seq<char>, Seq<char>, bool) {
    (
        step.command@,
        duration_text(millis(step.duration as nat)) + (if step.cached { " *"@ } else { Seq::empty() }),
        thousands(step.lines as nat),
        file_size_text(step.bytes@.len()),
        false,
    )
}

/// The row of the failed step.
pub open spec fn failure_row(f: StepFailure) -> (Seq<char>, Seq<char>, Seq<char>, Seq<char>, bool) {
    (f.command@, duration_text(millis(f.duration as nat)), thousands(f.lines as nat), file_size_text(f.bytes@.len()), true)
}

/// The rows under the header: the input when shown, the completed steps in
/// order, and the failed step.
pub open spec fn table_rows(w: DetailsWidget) -> Seq<(Seq<char>, Seq<char>, Seq<char>, Seq<char>, bool)> {
    (if w.show_stdin { seq![stdin_row(w.pipeline_run.stdin)] } else { Seq::empty() })
        + w.pipeline_run.steps@.map_values(|s: StepOutput| step_row(s))
        + match w.pipeline_run.failure {
            Some(f) => seq![failure_row(f)],
            None => Seq::empty(),
        }
}

/// Whether every duration of the run, in milliseconds, is a `u64`.
pub open spec fn durations_fit(run: PipelineRun) -> bool {
    &&& forall|i: int| 0 <= i < run.steps@.len() ==> millis(#[trigger] run.steps@[i].duration as nat) <= u64::MAX
    &&& run.failure matches Some(f) ==> millis(f.duration as nat) <= u64::MAX
}

impl DetailsWidget {
    /// The rows under the header, as text.
    pub fn rows(&self) -> (r: Vec<DetailsRow>)
        requires
            durations_fit(self.pipeline_run),
        ensures
            r@.map_values(|x: DetailsRow| row_view(x)) == table_rows(*self),
    {
        let ghost head: Seq<(Seq<char>, Seq<char>, Seq<char>, Seq<char>, bool)> = if self.show_stdin {
            seq![stdin_row(self.pipeline_run.stdin)]
        } else {
            Seq::empty()
        };
        let mut rows: Vec<DetailsRow> = Vec::new();
        if self.show_stdin {
            let stdin = &self.pipeline_run.stdin;
            let command = String::from_str("<stdin>");
            let time = String::from_str("-");
            rows.push(DetailsRow {
                command,
                time,
                lines: format_thousands(stdin.lines as u128),
                size: format_file_size(stdin.bytes.len() as u64),
                failed: false,
            });
        }
        assert(rows@.map_values(|x: DetailsRow| row_view(x)) =~= head);
        let steps = &self.pipeline_run.steps;
        let mut i: usize = 0;
        while i < steps.len()
            invariant
                i <= steps@.len(),
                steps == &self.pipeline_run.steps,
                durations_fit(self.pipeline_run),
                rows@.map_values(|x: DetailsRow| row_view(x)) == head
                    + steps@.take(i as int).map_values(|s: StepOutput| step_row(s)),
            decreases steps@.len() - i,
        {
            let step = &steps[i];
            assert(millis(steps@[i as int].duration as nat) <= u64::MAX);
            let mut time = format_duration((step.duration / 1_000_000) as u64);
            if step.cached {
                push_str(&mut time, " *");
            }
            let ghost before = rows@.map_values(|x: DetailsRow| row_view(x));
            rows.push(DetailsRow {
                command: step.command.clone(),
                time,
                lines: format_thousands(step.lines as u128),
                size: format_file_size(step.bytes.len() as u64),
                failed: false,
            });
            assert(steps@.take(i + 1) =~= steps@.take(i as int).push(steps@[i as int]));
            assert(steps@.take(i + 1).map_values(|s: StepOutput| step_row(s)) =~= steps@.take(i as int).map_values(
                |s: StepOutput| step_row(s),
            ).push(step_row(steps@[i as int])));
            assert(rows@.map_values(|x: DetailsRow| row_view(x)) =~= before.push(step_row(steps@[i as int])));
            i = i + 1;
        }
        assert(steps@.take(steps@.len() as int) =~= steps@);
        let ghost body = rows@.map_values(|x: DetailsRow| row_view(x));
        match &self.pipeline_run.failure {
            Some(f) => {
                rows.push(DetailsRow {
                    command: f.command.clone(),
                    time: format_duration((f.duration / 1_000_000) as u64),
                    lines: format_thousands(f.lines as u128),
                    size: format_file_size(f.bytes.len() as u64),
                    failed: true,
                });
                assert(rows@.map_values(|x: DetailsRow| row_view(x)) =~= body.push(failure_row(*f)));
            },
            None => {},
        }
        assert(rows@.map_values(|x: DetailsRow| row_view(x)) =~= table_rows(*self));
        rows
    }
}

} // verus!
