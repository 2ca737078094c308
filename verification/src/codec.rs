//! Timestamp codec: turns the four numeric groups of a transcript timestamp
//! into total milliseconds, and total milliseconds into the SRT and ASS
//! time-code strings.

use vstd::prelude::*;
use vstd::string::StringExecFns;

use vstd::arithmetic::div_mod::lemma_fundamental_div_mod;
use vstd::arithmetic::div_mod::lemma_fundamental_div_mod_converse;
use vstd::arithmetic::div_mod::lemma_mod_bound;
use vstd::arithmetic::div_mod::lemma_mod_mod;

verus! {

/// Milliseconds denoted by an hour/minute/second/hundredths tuple.
pub open spec fn time_fields_ms(h: int, m: int, s: int, frac2: int) -> int {
    h * 3600000 + m * 60000 + s * 1000 + frac2 * 10
}

/// Converts the four numeric timestamp groups (two decimal digits each, so
/// each in `0..=99`; `frac2` counts hundredths of a second) into total
/// milliseconds.  No range validation beyond the two-digit bound is done:
/// `h = 99` is simply worth `99` hours.
pub fn parse_time_fields(h: u32, m: u32, s: u32, frac2: u32) -> (ms: u32)
    requires
        h < 100,
        m < 100,
        s < 100,
        frac2 < 100,
    ensures
        ms == time_fields_ms(h as int, m as int, s as int, frac2 as int),
{
    h * 3600000 + m * 60000 + s * 1000 + frac2 * 10
}

/// A decimal digit character.
pub open spec fn is_digit_char(c: char) -> bool {
    48 <= c as int <= 57
}

/// The value of a decimal digit character; any other character is worth 0,
/// the deliberate leniency the line pattern makes unreachable.
pub open spec fn digit_val(c: char) -> int {
    if is_digit_char(c) {
        c as int - 48
    } else {
        0
    }
}

/// The character for one decimal digit value.
pub open spec fn digit_char(d: int) -> char {
    if d == 0 {
        '0'
    } else if d == 1 {
        '1'
    } else if d == 2 {
        '2'
    } else if d == 3 {
        '3'
    } else if d == 4 {
        '4'
    } else if d == 5 {
        '5'
    } else if d == 6 {
        '6'
    } else if d == 7 {
        '7'
    } else if d == 8 {
        '8'
    } else {
        '9'
    }
}

/// Unpadded decimal representation of `n` (most significant digit first).
pub open spec fn dec_rep(n: nat) -> Seq<char>
    decreases n,
{
    if n < 10 {
        seq![digit_char(n as int)]
    } else {
        dec_rep(n / 10) + seq![digit_char((n % 10) as int)]
    }
}

/// Decimal representation of `n`, zero-padded to at least two characters.
pub open spec fn pad2(n: nat) -> Seq<char> {
    if n < 10 {
        seq!['0', digit_char(n as int)]
    } else {
        dec_rep(n)
    }
}

/// Decimal representation of `n`, zero-padded to at least three characters.
pub open spec fn pad3(n: nat) -> Seq<char> {
    if n < 10 {
        seq!['0', '0', digit_char(n as int)]
    } else if n < 100 {
        seq!['0'] + dec_rep(n)
    } else {
        dec_rep(n)
    }
}

/// The SRT time code `HH:MM:SS,mmm` for a total-millisecond count.  Hours are
/// not wrapped at 24 and may take more than two digits.
pub open spec fn srt_time(ms: nat) -> Seq<char> {
    pad2(ms / 3600000) + seq![':'] + pad2((ms % 3600000) / 60000) + seq![':'] + pad2(
        (ms % 60000) / 1000,
    ) + seq![','] + pad3(ms % 1000)
}

/// The ASS time code `H:MM:SS.cc` for a total-millisecond count: the hour is
/// unpadded, and the sub-second part counts centiseconds.
pub open spec fn ass_time(ms: nat) -> Seq<char> {
    dec_rep(ms / 3600000) + seq![':'] + pad2((ms % 3600000) / 60000) + seq![':'] + pad2(
        (ms % 60000) / 1000,
    ) + seq!['.'] + pad2((ms % 1000) / 10)
}

/// The number denoted by a sequence of decimal digit characters (most
/// significant first; any non-digit is worth 0).
pub open spec fn dec_val(s: Seq<char>) -> int
    decreases s.len(),
{
    if s.len() == 0 {
        0
    } else {
        dec_val(s.drop_last()) * 10 + digit_val(s.last())
    }
}

proof fn lemma_dec_rep_val(n: nat)
    ensures
        dec_val(dec_rep(n)) == n,
        dec_rep(n).len() >= 1,
        n < 10 ==> dec_rep(n).len() == 1,
        10 <= n < 100 ==> dec_rep(n).len() == 2,
        100 <= n < 1000 ==> dec_rep(n).len() == 3,
    decreases n,
{
    reveal_with_fuel(dec_val, 3);
    if n < 10 {
        assert(dec_rep(n) =~= seq![digit_char(n as int)]);
        assert(seq![digit_char(n as int)].drop_last() =~= Seq::<char>::empty());
        assert(digit_val(digit_char(n as int)) == n);
    } else {
        lemma_dec_rep_val(n / 10);
        assert(dec_rep(n).drop_last() =~= dec_rep(n / 10));
        assert(dec_rep(n).last() == digit_char((n % 10) as int));
        assert(digit_val(digit_char((n % 10) as int)) == n % 10);
    }
}

proof fn lemma_dec_val_prepend_zero(s: Seq<char>)
    ensures
        dec_val(seq!['0'] + s) == dec_val(s),
    decreases s.len(),
{
    reveal_with_fuel(dec_val, 3);
    if s.len() == 0 {
        assert(seq!['0'] + s =~= seq!['0']);
        assert(seq!['0'].drop_last() =~= Seq::<char>::empty());
    } else {
        lemma_dec_val_prepend_zero(s.drop_last());
        assert((seq!['0'] + s).drop_last() =~= seq!['0'] + s.drop_last());
        assert((seq!['0'] + s).last() == s.last());
    }
}

proof fn lemma_pad2_val(n: nat)
    requires
        n < 100,
    ensures
        pad2(n).len() == 2,
        dec_val(pad2(n)) == n,
{
    reveal_with_fuel(dec_val, 4);
    if n < 10 {
        let t = seq!['0', digit_char(n as int)];
        assert(pad2(n) =~= t);
        assert(t.drop_last() =~= seq!['0']);
        assert(seq!['0'].drop_last() =~= Seq::<char>::empty());
        assert(digit_val(digit_char(n as int)) == n);
    } else {
        lemma_dec_rep_val(n);
    }
}

proof fn lemma_pad3_val(n: nat)
    requires
        n < 1000,
    ensures
        pad3(n).len() == 3,
        dec_val(pad3(n)) == n,
{
    reveal_with_fuel(dec_val, 5);
    if n < 10 {
        let t = seq!['0', '0', digit_char(n as int)];
        assert(pad3(n) =~= t);
        assert(t.drop_last() =~= seq!['0', '0']);
        assert(seq!['0', '0'].drop_last() =~= seq!['0']);
        assert(seq!['0'].drop_last() =~= Seq::<char>::empty());
        assert(digit_val(digit_char(n as int)) == n);
    } else if n < 100 {
        lemma_dec_rep_val(n);
        lemma_dec_val_prepend_zero(dec_rep(n));
    } else {
        lemma_dec_rep_val(n);
    }
}

/// Over the realistic ranges — minutes and seconds below 60, hundredths
/// below 100 — two timestamp tuples worth the same number of milliseconds
/// are the same tuple: the codec is injective.
pub proof fn lemma_parse_time_fields_injective(
    h1: int,
    m1: int,
    s1: int,
    f1: int,
    h2: int,
    m2: int,
    s2: int,
    f2: int,
)
    requires
        0 <= h1,
        0 <= h2,
        0 <= m1 < 60,
        0 <= m2 < 60,
        0 <= s1 < 60,
        0 <= s2 < 60,
        0 <= f1 < 100,
        0 <= f2 < 100,
        time_fields_ms(h1, m1, s1, f1) == time_fields_ms(h2, m2, s2, f2),
    ensures
        h1 == h2,
        m1 == m2,
        s1 == s2,
        f1 == f2,
{
    let v = time_fields_ms(h1, m1, s1, f1);
    let q1 = h1 * 3600 + m1 * 60 + s1;
    let q2 = h2 * 3600 + m2 * 60 + s2;
    assert(v == q1 * 1000 + f1 * 10);
    assert(v == q2 * 1000 + f2 * 10);
    lemma_fundamental_div_mod_converse(v, 1000, q1, f1 * 10);
    lemma_fundamental_div_mod_converse(v, 1000, q2, f2 * 10);
    let p1 = h1 * 60 + m1;
    let p2 = h2 * 60 + m2;
    assert(q1 == p1 * 60 + s1);
    lemma_fundamental_div_mod_converse(q1, 60, p1, s1);
    lemma_fundamental_div_mod_converse(q1, 60, p2, s2);
    lemma_fundamental_div_mod_converse(p1, 60, h1, m1);
    lemma_fundamental_div_mod_converse(p1, 60, h2, m2);
}

/// Reading the SRT time code back — hours times 3600000, plus minutes times
/// 60000, plus seconds times 1000, plus the millisecond field — recovers the
/// encoded value exactly, for every value up to the `99:59:59,999` bound.
pub proof fn lemma_srt_time_round_trip(ms: u32)
    requires
        ms < 360000000,
    ensures
        srt_time(ms as nat).len() == 12,
        srt_time(ms as nat)[2] == ':',
        srt_time(ms as nat)[5] == ':',
        srt_time(ms as nat)[8] == ',',
        dec_val(srt_time(ms as nat).subrange(0, 2)) * 3600000 + dec_val(
            srt_time(ms as nat).subrange(3, 5),
        ) * 60000 + dec_val(srt_time(ms as nat).subrange(6, 8)) * 1000 + dec_val(
            srt_time(ms as nat).subrange(9, 12),
        ) == ms,
{
    let x = ms as int;
    let h = x / 3600000;
    let mm = (x % 3600000) / 60000;
    let ss = (x % 60000) / 1000;
    let r = x % 1000;
    lemma_mod_bound(x, 3600000);
    lemma_mod_bound(x, 60000);
    lemma_mod_bound(x, 1000);
    lemma_fundamental_div_mod(x, 3600000);
    lemma_fundamental_div_mod(x % 3600000, 60000);
    lemma_fundamental_div_mod(x % 60000, 1000);
    assert(60000 * 60 == 3600000);
    assert(1000 * 60 == 60000);
    lemma_mod_mod(x, 60000, 60);
    lemma_mod_mod(x, 1000, 60);
    assert(0 <= h < 100);
    assert(0 <= mm < 60);
    assert(0 <= ss < 60);
    assert(h * 3600000 + mm * 60000 + ss * 1000 + r == x);
    lemma_pad2_val(h as nat);
    lemma_pad2_val(mm as nat);
    lemma_pad2_val(ss as nat);
    lemma_pad3_val(r as nat);
    let t = srt_time(ms as nat);
    assert(t.subrange(0, 2) =~= pad2(h as nat));
    assert(t.subrange(3, 5) =~= pad2(mm as nat));
    assert(t.subrange(6, 8) =~= pad2(ss as nat));
    assert(t.subrange(9, 12) =~= pad3(r as nat));
}

proof fn lemma_dec_rep_leading(n: nat)
    requires
        n >= 1,
    ensures
        dec_rep(n).len() >= 1,
        dec_rep(n)[0] != '0',
    decreases n,
{
    if n < 10 {
        assert(digit_char(n as int) != '0');
    } else {
        lemma_dec_rep_leading(n / 10);
        assert(dec_rep(n)[0] == dec_rep(n / 10)[0]);
    }
}

/// The hour field of the ASS time code is unpadded: from one hour on, the
/// code never starts with a zero.
pub proof fn lemma_ass_hour_unpadded(ms: u32)
    requires
        3600000 <= ms,
    ensures
        ass_time(ms as nat).len() >= 1,
        ass_time(ms as nat)[0] != '0',
{
    let x = ms as int;
    let h = x / 3600000;
    lemma_fundamental_div_mod(x, 3600000);
    lemma_mod_bound(x, 3600000);
    assert(h >= 1);
    lemma_dec_rep_leading(h as nat);
    assert(ass_time(ms as nat)[0] == dec_rep((ms as nat) / 3600000)[0]);
}

/// Appends the single digit character for `d` to `out`.
fn append_digit(out: &mut String, d: u64)
    requires
        d < 10,
    ensures
        final(out)@ == old(out)@ + seq![digit_char(d as int)],
{
    proof {
        reveal_strlit("0");
        reveal_strlit("1");
        reveal_strlit("2");
        reveal_strlit("3");
        reveal_strlit("4");
        reveal_strlit("5");
        reveal_strlit("6");
        reveal_strlit("7");
        reveal_strlit("8");
        reveal_strlit("9");
    }
    match d {
        0 => out.append("0"),
        1 => out.append("1"),
        2 => out.append("2"),
        3 => out.append("3"),
        4 => out.append("4"),
        5 => out.append("5"),
        6 => out.append("6"),
        7 => out.append("7"),
        8 => out.append("8"),
        _ => out.append("9"),
    }
    proof {
        assert(final(out)@ =~= old(out)@ + seq![digit_char(d as int)]);
    }
}

/// Appends the unpadded decimal representation of `n` to `out`.
pub(crate) fn append_dec(out: &mut String, n: u64)
    ensures
        final(out)@ == old(out)@ + dec_rep(n as nat),
    decreases n,
{
    if n < 10 {
        append_digit(out, n);
    } else {
        append_dec(out, n / 10);
        append_digit(out, n % 10);
        proof {
            assert(final(out)@ =~= old(out)@ + dec_rep(n as nat));
        }
    }
}

/// Appends the two-digit zero-padded decimal representation of `n` to `out`.
fn append_pad2(out: &mut String, n: u64)
    ensures
        final(out)@ == old(out)@ + pad2(n as nat),
{
    if n < 10 {
        proof {
            reveal_strlit("0");
        }
        out.append("0");
        append_digit(out, n);
        proof {
            assert(final(out)@ =~= old(out)@ + pad2(n as nat));
        }
    } else {
        append_dec(out, n);
    }
}

/// Appends the three-digit zero-padded decimal representation of `n` to `out`.
fn append_pad3(out: &mut String, n: u64)
    ensures
        final(out)@ == old(out)@ + pad3(n as nat),
{
    proof {
        reveal_strlit("0");
        reveal_strlit("00");
    }
    if n < 10 {
        out.append("00");
        append_digit(out, n);
        proof {
            assert(final(out)@ =~= old(out)@ + pad3(n as nat));
        }
    } else if n < 100 {
        out.append("0");
        append_dec(out, n);
        proof {
            assert(final(out)@ =~= old(out)@ + pad3(n as nat));
        }
    } else {
        append_dec(out, n);
    }
}

/// Renders `ms` as the SRT time code `HH:MM:SS,mmm`.
pub fn ms_to_srt_time(ms: u32) -> (r: String)
    ensures
        r@ == srt_time(ms as nat),
{
    proof {
        reveal_strlit(":");
        reveal_strlit(",");
    }
    let mut out = String::new();
    append_pad2(&mut out, (ms / 3600000) as u64);
    out.append(":");
    append_pad2(&mut out, ((ms % 3600000) / 60000) as u64);
    out.append(":");
    append_pad2(&mut out, ((ms % 60000) / 1000) as u64);
    out.append(",");
    append_pad3(&mut out, (ms % 1000) as u64);
    proof {
        assert(out@ =~= srt_time(ms as nat));
    }
    out
}

/// Renders `ms` as the ASS time code `H:MM:SS.cc` (hour unpadded,
/// centisecond resolution).
pub fn ms_to_ass_time(ms: u32) -> (r: String)
    ensures
        r@ == ass_time(ms as nat),
{
    proof {
        reveal_strlit(":");
        reveal_strlit(".");
    }
    let mut out = String::new();
    append_dec(&mut out, (ms / 3600000) as u64);
    out.append(":");
    append_pad2(&mut out, ((ms % 3600000) / 60000) as u64);
    out.append(":");
    append_pad2(&mut out, ((ms % 60000) / 1000) as u64);
    out.append(".");
    append_pad2(&mut out, ((ms % 1000) / 10) as u64);
    proof {
        assert(out@ =~= ass_time(ms as nat));
    }
    out
}

} // verus!
