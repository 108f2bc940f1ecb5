use vstd::prelude::*;
use crate::names::{
    is_png_name, lemma_name_le_concat, lemma_name_le_reflexive, lemma_newest_first_max, name_le,
    newest_first, png_names,
};

verus! {

/// The decimal digit character for `d` (`0 <= d < 10`).
pub open spec fn digit_char(d: nat) -> char {
    ((d % 10) + 48) as char
}

/// Decimal representation of `n`, left-padded with zeros to at least `width` characters,
/// as Rust's `{:0width$}` formats an unsigned integer.
pub open spec fn padded(n: nat, width: nat) -> Seq<char>
    decreases n, width,
{
    if n < 10 && width <= 1 {
        seq![digit_char(n)]
    } else {
        padded(n / 10, if width == 0 { 0 } else { (width - 1) as nat }) + seq![digit_char(n % 10)]
    }
}

fn digit_str(d: u32) -> (r: &'static str)
    requires
        d < 10,
    ensures
        r@ == seq![digit_char(d as nat)],
{
    proof {
        reveal_strlit("0");
        reveal_strlit("1");
        reveal_strlit("2");
        reveal_strlit("3");
        reveal_strlit("4");
        reveal_strlit("5");
        reveal_strlit("6");
        reveal_strlit("7");
        reveal_strlit("8");
        reveal_strlit("9");
    }
    match d {
        0 => "0",
        1 => "1",
        2 => "2",
        3 => "3",
        4 => "4",
        5 => "5",
        6 => "6",
        7 => "7",
        8 => "8",
        _ => "9",
    }
}

/// Appends `n` in decimal, zero-padded to at least `width` digits.
fn push_padded(out: &mut String, n: u32, width: u32)
    ensures
        final(out)@ == old(out)@ + padded(n as nat, width as nat),
    decreases n, width,
{
    if n < 10 && width <= 1 {
        out.append(digit_str(n));
    } else {
        let w = if width == 0 { 0 } else { width - 1 };
        push_padded(out, n / 10, w);
        out.append(digit_str(n % 10));
        proof {
            assert(padded(n as nat, width as nat) == padded((n / 10) as nat, w as nat) + seq![digit_char((n % 10) as nat)]);
        }
    }
}


/// A local wall-clock time, as the system reports it (the fields of a `SYSTEMTIME`
/// that name a moment; the day of the week is left out).
#[derive(Clone, Copy, Debug, PartialEq, Eq)]
pub struct LocalTime {
    pub year: u16,
    pub month: u16,
    pub day: u16,
    pub hour: u16,
    pub minute: u16,
    pub second: u16,
    pub millisecond: u16,
}

/// `YYYY-MM-DD_HHMMSS_mmm`: each field in decimal, zero-padded to its width.
pub open spec fn timestamp_chars(t: LocalTime) -> Seq<char> {
    padded(t.year as nat, 4) + (seq!['-'] + (padded(t.month as nat, 2) + (seq!['-'] + (padded(
        t.day as nat,
        2,
    ) + (seq!['_'] + (padded(t.hour as nat, 2) + (padded(t.minute as nat, 2) + (padded(
        t.second as nat,
        2,
    ) + (seq!['_'] + padded(t.millisecond as nat, 3))))))))))
}

/// The file name under which a screenshot taken at `t` is saved.
pub open spec fn image_name_chars(t: LocalTime) -> Seq<char> {
    timestamp_chars(t) + seq!['.', 'p', 'n', 'g']
}

/// Formats `t` as `YYYY-MM-DD_HHMMSS_mmm`.
pub fn timestamp_string(t: LocalTime) -> (r: String)
    ensures
        r@ == timestamp_chars(t),
{
    proof {
        reveal_strlit("-");
        reveal_strlit("_");
    }
    let mut s = String::new();
    push_padded(&mut s, t.year as u32, 4);
    s.append("-");
    push_padded(&mut s, t.month as u32, 2);
    s.append("-");
    push_padded(&mut s, t.day as u32, 2);
    s.append("_");
    push_padded(&mut s, t.hour as u32, 2);
    push_padded(&mut s, t.minute as u32, 2);
    push_padded(&mut s, t.second as u32, 2);
    s.append("_");
    push_padded(&mut s, t.millisecond as u32, 3);
    proof {
        assert(s@ =~= timestamp_chars(t));
    }
    s
}

/// The file name of a screenshot taken at `t`: its timestamp with the `.png` extension.
pub fn image_file_name(t: LocalTime) -> (r: String)
    ensures
        r@ == image_name_chars(t),
        is_png_name(r@),
{
    let mut s = timestamp_string(t);
    proof {
        reveal_strlit(".png");
    }
    s.append(".png");
    proof {
        let n = s@;
        assert(n.subrange(n.len() - 4, n.len() as int) =~= seq!['.', 'p', 'n', 'g']);
    }
    s
}


pub open spec fn pow10(w: nat) -> nat
    decreases w,
{
    if w == 0 {
        1
    } else {
        10 * pow10((w - 1) as nat)
    }
}

/// Every field fits its printed width (a year of four digits, and so on), so that every
/// timestamp has the same length.
pub open spec fn fits_widths(t: LocalTime) -> bool {
    &&& t.year < 10000
    &&& t.month < 100
    &&& t.day < 100
    &&& t.hour < 100
    &&& t.minute < 100
    &&& t.second < 100
    &&& t.millisecond < 1000
}

/// `a` is no later than `b`: the fields compared from the year down to the millisecond.
pub open spec fn time_le(a: LocalTime, b: LocalTime) -> bool {
    a.year < b.year || (a.year == b.year && (a.month < b.month || (a.month == b.month && (a.day
        < b.day || (a.day == b.day && (a.hour < b.hour || (a.hour == b.hour && (a.minute
        < b.minute || (a.minute == b.minute && (a.second < b.second || (a.second == b.second
        && a.millisecond <= b.millisecond)))))))))))
}

/// Zero-padded numbers of one width compare as text the way they compare as numbers.
pub proof fn lemma_padded_order(n: nat, m: nat, w: nat)
    requires
        1 <= w,
        n < pow10(w),
        m < pow10(w),
    ensures
        padded(n, w).len() == w,
        padded(m, w).len() == w,
        name_le(padded(n, w), padded(m, w)) == (n <= m),
        (padded(n, w) == padded(m, w)) == (n == m),
    decreases w,
{
    if w == 1 {
        assert(pow10(1) == 10) by {
            reveal_with_fuel(pow10, 2);
        }
        let a = padded(n, w);
        let b = padded(m, w);
        assert(a == seq![digit_char(n)]);
        assert(b == seq![digit_char(m)]);
        assert(a.drop_first() =~= Seq::<char>::empty());
        assert(b.drop_first() =~= Seq::<char>::empty());
        assert(n < 10 && m < 10);
        assert(digit_char(n) as int == n + 48);
        assert((digit_char(n) < digit_char(m)) == (n < m));
        reveal_with_fuel(name_le, 2);
        assert(name_le(a, b) == (n <= m));
        if n != m {
            assert(digit_char(n) != digit_char(m));
            assert(a != b) by {
                assert(a[0] != b[0]);
            }
        }
    } else {
        let w1 = (w - 1) as nat;
        assert(pow10(1) == 10) by {
            reveal_with_fuel(pow10, 2);
        }
        assert(pow10(w) == 10 * pow10(w1));
        assert(n / 10 < pow10(w1));
        assert(m / 10 < pow10(w1));
        lemma_padded_order(n / 10, m / 10, w1);
        let a = padded(n / 10, w1);
        let b = padded(m / 10, w1);
        let x = seq![digit_char(n % 10)];
        let y = seq![digit_char(m % 10)];
        assert(padded(n, w) == a + x);
        assert(padded(m, w) == b + y);
        lemma_name_le_concat(a, x, b, y);
        lemma_padded_order(n % 10, m % 10, 1);
        assert(padded(n % 10, 1) == x);
        assert(padded(m % 10, 1) == y);
        assert(name_le(x, y) == (n % 10 <= m % 10));
        assert((n <= m) == (n / 10 < m / 10 || (n / 10 == m / 10 && n % 10 <= m % 10)));
        if padded(n, w) == padded(m, w) {
            assert((a + x).subrange(0, w1 as int) =~= a);
            assert((b + y).subrange(0, w1 as int) =~= b);
            assert((a + x)[w1 as int] == x[0]);
            assert((b + y)[w1 as int] == y[0]);
            assert(x =~= y);
        }
    }
}

proof fn lemma_field_step(n: nat, m: nat, w: nat, r1: Seq<char>, r2: Seq<char>)
    requires
        1 <= w,
        n < pow10(w),
        m < pow10(w),
    ensures
        name_le(padded(n, w) + r1, padded(m, w) + r2) == (n < m || (n == m && name_le(r1, r2))),
{
    lemma_padded_order(n, m, w);
    lemma_name_le_concat(padded(n, w), r1, padded(m, w), r2);
}

proof fn lemma_sep_step(c: char, r1: Seq<char>, r2: Seq<char>)
    ensures
        name_le(seq![c] + r1, seq![c] + r2) == name_le(r1, r2),
{
    lemma_name_le_concat(seq![c], r1, seq![c], r2);
}

/// Timestamps of times whose fields fit their widths sort as text in the order of the
/// times they name: the later time has the greater timestamp.
pub proof fn lemma_timestamp_order(a: LocalTime, b: LocalTime)
    requires
        fits_widths(a),
        fits_widths(b),
    ensures
        name_le(timestamp_chars(a), timestamp_chars(b)) == time_le(a, b),
        timestamp_chars(a).len() == 21,
{
    reveal_with_fuel(pow10, 5);
    lemma_padded_order(a.year as nat, b.year as nat, 4);
    lemma_padded_order(a.month as nat, b.month as nat, 2);
    lemma_padded_order(a.day as nat, b.day as nat, 2);
    lemma_padded_order(a.hour as nat, b.hour as nat, 2);
    lemma_padded_order(a.minute as nat, b.minute as nat, 2);
    lemma_padded_order(a.second as nat, b.second as nat, 2);
    lemma_padded_order(a.millisecond as nat, b.millisecond as nat, 3);
    let ms_a = seq!['_'] + padded(a.millisecond as nat, 3);
    let ms_b = seq!['_'] + padded(b.millisecond as nat, 3);
    lemma_sep_step('_', padded(a.millisecond as nat, 3), padded(b.millisecond as nat, 3));
    let s_a = padded(a.second as nat, 2) + ms_a;
    let s_b = padded(b.second as nat, 2) + ms_b;
    lemma_field_step(a.second as nat, b.second as nat, 2, ms_a, ms_b);
    let mi_a = padded(a.minute as nat, 2) + s_a;
    let mi_b = padded(b.minute as nat, 2) + s_b;
    lemma_field_step(a.minute as nat, b.minute as nat, 2, s_a, s_b);
    let h_a = padded(a.hour as nat, 2) + mi_a;
    let h_b = padded(b.hour as nat, 2) + mi_b;
    lemma_field_step(a.hour as nat, b.hour as nat, 2, mi_a, mi_b);
    lemma_sep_step('_', h_a, h_b);
    let d_a = padded(a.day as nat, 2) + (seq!['_'] + h_a);
    let d_b = padded(b.day as nat, 2) + (seq!['_'] + h_b);
    lemma_field_step(a.day as nat, b.day as nat, 2, seq!['_'] + h_a, seq!['_'] + h_b);
    lemma_sep_step('-', d_a, d_b);
    let mo_a = padded(a.month as nat, 2) + (seq!['-'] + d_a);
    let mo_b = padded(b.month as nat, 2) + (seq!['-'] + d_b);
    lemma_field_step(a.month as nat, b.month as nat, 2, seq!['-'] + d_a, seq!['-'] + d_b);
    lemma_sep_step('-', mo_a, mo_b);
    lemma_field_step(a.year as nat, b.year as nat, 4, seq!['-'] + mo_a, seq!['-'] + mo_b);
    assert(timestamp_chars(a) == padded(a.year as nat, 4) + (seq!['-'] + mo_a));
    assert(timestamp_chars(b) == padded(b.year as nat, 4) + (seq!['-'] + mo_b));
}

/// Screenshot names sort in the order in which the screenshots were taken, so the greatest
/// name is the latest screenshot.
pub proof fn lemma_image_names_follow_time(a: LocalTime, b: LocalTime)
    requires
        fits_widths(a),
        fits_widths(b),
    ensures
        name_le(image_name_chars(a), image_name_chars(b)) == time_le(a, b),
{
    lemma_timestamp_order(a, b);
    lemma_timestamp_order(b, a);
    let png = seq!['.', 'p', 'n', 'g'];
    lemma_name_le_concat(timestamp_chars(a), png, timestamp_chars(b), png);
    lemma_name_le_reflexive(png);
    if timestamp_chars(a) == timestamp_chars(b) {
        // both orders hold, so the times agree field by field
        assert(time_le(a, b) && time_le(b, a));
    }
}


/// In a folder of screenshots named by the times they were taken, the name that comes first
/// newest-first (the one that clicking the tray icon copies) is that of the latest screenshot.
pub proof fn lemma_newest_is_latest(names: Seq<Seq<char>>, times: Seq<LocalTime>)
    requires
        names.len() == times.len(),
        names.len() > 0,
        forall|j: int| 0 <= j < names.len() ==> fits_widths(#[trigger] times[j]),
        forall|j: int| 0 <= j < names.len() ==> #[trigger] names[j] == image_name_chars(times[j]),
    ensures
        exists|k: int|
            0 <= k < names.len() && names[k] == newest_first(names)[0] && forall|j: int|
                0 <= j < names.len() ==> time_le(#[trigger] times[j], times[k]),
{
    let n0 = names[0];
    assert(is_png_name(n0)) by {
        let t = times[0];
        lemma_timestamp_order(t, t);
        let n = image_name_chars(t);
        assert(n.subrange(n.len() - 4, n.len() as int) =~= seq!['.', 'p', 'n', 'g']);
    }
    assert(png_names(names).len() > 0) by {
        let png = |n: Seq<char>| is_png_name(n);
        names.lemma_filter_contains(png, 0);
    }
    lemma_newest_first_max(names);
    let k = choose|k: int| 0 <= k < names.len() && names[k] == newest_first(names)[0] && is_png_name(names[k]);
    assert forall|j: int| 0 <= j < names.len() implies time_le(#[trigger] times[j], times[k]) by {
        let t = times[j];
        let n = image_name_chars(t);
        lemma_timestamp_order(t, t);
        assert(n.subrange(n.len() - 4, n.len() as int) =~= seq!['.', 'p', 'n', 'g']);
        assert(is_png_name(names[j]));
        lemma_image_names_follow_time(times[j], times[k]);
    }
}

} // verus!
