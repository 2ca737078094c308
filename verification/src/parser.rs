//! Line parser: scans the transcript text line by line, extracts a
//! [`TimedRecord`] from every line that carries a well-formed timestamp
//! bracket, a speaker field, a tab and some content, and silently skips
//! every other line.
//!
//! A line matches when it contains, at any position, the exact shape
//! `[DD:DD:DD.DDD]` (`D` a decimal digit) immediately followed by one or
//! more non-tab characters, one tab, and at least one further character.

use vstd::prelude::*;
use vstd::string::StrSliceExecFns;
use vstd::string::StringExecFns;

use crate::codec::digit_val;
use crate::codec::is_digit_char;
use crate::codec::time_fields_ms;
use crate::record::RecordView;
use crate::record::TimedRecord;
use crate::record::views_of;
use crate::resolve::resolved;

verus! {

/// A character with the Unicode `White_Space` property; these are the
/// characters trimmed from the ends of the speaker and content fields.
pub open spec fn is_space(c: char) -> bool {
    let u = c as int;
    u == 9 || u == 10 || u == 11 || u == 12 || u == 13 || u == 32 || u == 133 || u == 160 || u
        == 5760 || (8192 <= u && u <= 8202) || u == 8232 || u == 8233 || u == 8239 || u == 8287 || u
        == 12288
}

/// The index of the first whitespace-free position of `s` at or after `i`
/// (`s.len()` if all of the rest is whitespace).
pub open spec fn trim_start_idx(s: Seq<char>, i: int) -> int
    decreases s.len() - i,
    when 0 <= i <= s.len()
{
    if i >= s.len() {
        i
    } else if is_space(s[i]) {
        trim_start_idx(s, i + 1)
    } else {
        i
    }
}

/// One past the last whitespace-free position of `s` strictly below `j`
/// (`0` if there is none).
pub open spec fn trim_end_idx(s: Seq<char>, j: int) -> int
    decreases j,
    when 0 <= j <= s.len()
{
    if j <= 0 {
        0
    } else if is_space(s[j - 1]) {
        trim_end_idx(s, j - 1)
    } else {
        j
    }
}

/// `s` without leading and trailing whitespace.
pub open spec fn trim_of(s: Seq<char>) -> Seq<char> {
    let a = trim_start_idx(s, 0);
    if a == s.len() {
        Seq::empty()
    } else {
        s.subrange(a, trim_end_idx(s, s.len() as int))
    }
}

/// The value of the two-digit group at positions `k`, `k + 1` of `l`.
pub open spec fn pair_val(l: Seq<char>, k: int) -> int {
    digit_val(l[k]) * 10 + digit_val(l[k + 1])
}

/// A timestamp bracket of the exact shape `[DD:DD:DD.DDD]` stands at
/// position `i` of `l`.
pub open spec fn bracket_at(l: Seq<char>, i: int) -> bool {
    &&& 0 <= i
    &&& i + 14 <= l.len()
    &&& l[i] == '['
    &&& is_digit_char(l[i + 1])
    &&& is_digit_char(l[i + 2])
    &&& l[i + 3] == ':'
    &&& is_digit_char(l[i + 4])
    &&& is_digit_char(l[i + 5])
    &&& l[i + 6] == ':'
    &&& is_digit_char(l[i + 7])
    &&& is_digit_char(l[i + 8])
    &&& l[i + 9] == '.'
    &&& is_digit_char(l[i + 10])
    &&& is_digit_char(l[i + 11])
    &&& is_digit_char(l[i + 12])
    &&& l[i + 13] == ']'
}

/// The index of the first tab of `l` at or after `i` (`l.len()` if none).
pub open spec fn first_tab(l: Seq<char>, i: int) -> int
    decreases l.len() - i,
    when 0 <= i <= l.len()
{
    if i >= l.len() {
        i
    } else if l[i] == '\t' {
        i
    } else {
        first_tab(l, i + 1)
    }
}

/// The whole pattern matches at position `i` of `l`: a bracket, then a
/// nonempty tab-free speaker field, a tab, and nonempty content.
pub open spec fn match_at(l: Seq<char>, i: int) -> bool {
    &&& bracket_at(l, i)
    &&& first_tab(l, i + 14) > i + 14
    &&& first_tab(l, i + 14) + 1 < l.len()
}

/// The leftmost position of `l` at which the whole pattern matches
/// (`l.len()` if it matches nowhere).
pub open spec fn find_match(l: Seq<char>, i: int) -> int
    decreases l.len() - i,
    when 0 <= i <= l.len()
{
    if i >= l.len() {
        i
    } else if match_at(l, i) {
        i
    } else {
        find_match(l, i + 1)
    }
}

/// Whether the line `l` yields a record.
pub open spec fn line_matches(l: Seq<char>) -> bool {
    find_match(l, 0) < l.len()
}

/// The start time carried by the bracket at position `i` of `l`: the first
/// three two-digit groups are hours, minutes and seconds, and the first two
/// digits of the fraction group count hundredths of a second.
pub open spec fn line_start_ms(l: Seq<char>, i: int) -> int {
    time_fields_ms(pair_val(l, i + 1), pair_val(l, i + 4), pair_val(l, i + 7), pair_val(l, i + 10))
}

/// The record extracted from a matching line `l`.
pub open spec fn line_rec(l: Seq<char>) -> RecordView {
    let i = find_match(l, 0);
    let j = first_tab(l, i + 14);
    RecordView {
        timestamp_text: l.subrange(i + 1, i + 13),
        speaker: trim_of(l.subrange(i + 14, j)),
        text: trim_of(l.subrange(j + 1, l.len() as int)),
        start_ms: line_start_ms(l, i) as u32,
        end_ms: None,
    }
}

/// The index of the first newline of `s` at or after `i` (`s.len()` if none).
pub open spec fn find_nl(s: Seq<char>, i: int) -> int
    decreases s.len() - i,
    when 0 <= i <= s.len()
{
    if i >= s.len() {
        i
    } else if s[i] == '\n' {
        i
    } else {
        find_nl(s, i + 1)
    }
}

proof fn lemma_find_nl_bounds(s: Seq<char>, i: int)
    requires
        0 <= i <= s.len(),
    ensures
        i <= find_nl(s, i) <= s.len(),
    decreases s.len() - i,
{
    if i < s.len() && s[i] != '\n' {
        lemma_find_nl_bounds(s, i + 1);
    }
}

/// A raw line without its trailing carriage return, if it has one.
pub open spec fn strip_cr(l: Seq<char>) -> Seq<char> {
    if l.len() > 0 && l[l.len() - 1] == '\r' {
        l.drop_last()
    } else {
        l
    }
}

/// The line of `s` that starts at `pos`: everything up to the next newline,
/// without a trailing carriage return.
pub open spec fn line_of(s: Seq<char>, pos: int) -> Seq<char> {
    strip_cr(s.subrange(pos, find_nl(s, pos)))
}

/// Where the line after the one starting at `pos` starts (`s.len()` if the
/// line at `pos` is the last).
pub open spec fn next_pos(s: Seq<char>, pos: int) -> int {
    if find_nl(s, pos) < s.len() {
        find_nl(s, pos) + 1
    } else {
        s.len() as int
    }
}

/// The lines of `s` from position `pos` on, split at newlines, each without
/// a trailing carriage return.  The text after the last newline is a line of
/// its own unless it is empty.
pub open spec fn lines_from(s: Seq<char>, pos: int) -> Seq<Seq<char>>
    decreases s.len() - pos,
    when 0 <= pos <= s.len()
    via lines_from_dec
{
    if pos >= s.len() {
        Seq::empty()
    } else {
        seq![line_of(s, pos)] + lines_from(s, next_pos(s, pos))
    }
}

#[via_fn]
proof fn lines_from_dec(s: Seq<char>, pos: int) {
    if 0 <= pos < s.len() {
        lemma_find_nl_bounds(s, pos);
    }
}

/// The records of the lines of `s` from position `pos` on, in line order:
/// one per matching line, nothing for any other line.
pub open spec fn records_from(s: Seq<char>, pos: int) -> Seq<RecordView>
    decreases s.len() - pos,
    when 0 <= pos <= s.len()
    via records_from_dec
{
    if pos >= s.len() {
        Seq::empty()
    } else {
        let l = line_of(s, pos);
        let rest = records_from(s, next_pos(s, pos));
        if line_matches(l) {
            seq![line_rec(l)] + rest
        } else {
            rest
        }
    }
}

#[via_fn]
proof fn records_from_dec(s: Seq<char>, pos: int) {
    if 0 <= pos < s.len() {
        lemma_find_nl_bounds(s, pos);
    }
}

/// Every record the parser yields still lacks an end time, and its start
/// time is at most the worth of `99:99:99.99`, so the three-second fallback
/// can never overflow.
pub proof fn lemma_records_from_bounds(s: Seq<char>, pos: int)
    requires
        0 <= pos <= s.len(),
    ensures
        forall|k: int|
            0 <= k < records_from(s, pos).len() ==> (#[trigger] records_from(s, pos)[k]).end_ms
                is None && records_from(s, pos)[k].start_ms <= 362439990,
    decreases s.len() - pos,
{
    if pos < s.len() {
        lemma_find_nl_bounds(s, pos);
        lemma_records_from_bounds(s, next_pos(s, pos));
        let l = line_of(s, pos);
        if line_matches(l) {
            let i = find_match(l, 0);
            assert(line_start_ms(l, i) <= 362439990);
        }
    }
}

fn is_space_exec(c: char) -> (r: bool)
    ensures
        r == is_space(c),
{
    let u = c as u32;
    u == 9 || u == 10 || u == 11 || u == 12 || u == 13 || u == 32 || u == 133 || u == 160 || u
        == 5760 || (u >= 8192 && u <= 8202) || u == 8232 || u == 8233 || u == 8239 || u == 8287 || u
        == 12288
}

fn is_digit_exec(c: char) -> (r: bool)
    ensures
        r == is_digit_char(c),
{
    let u = c as u32;
    u >= 48 && u <= 57
}

fn char_val(c: char) -> (d: u32)
    ensures
        d as int == digit_val(c),
        d < 10,
{
    let u = c as u32;
    if u >= 48 && u <= 57 {
        u - 48
    } else {
        0
    }
}

/// `s` without leading and trailing whitespace, as an owned string.
fn trim_str(s: &str) -> (t: String)
    ensures
        t@ == trim_of(s@),
{
    let n = s.unicode_len();
    let mut a: usize = 0;
    while a < n && is_space_exec(s.get_char(a))
        invariant
            0 <= a <= n,
            n == s@.len(),
            trim_start_idx(s@, 0) == trim_start_idx(s@, a as int),
        decreases n - a,
    {
        a = a + 1;
    }
    assert(a as int == trim_start_idx(s@, 0));
    if a == n {
        let t = String::new();
        proof {
            assert(t@ =~= trim_of(s@));
        }
        return t;
    }
    let mut b: usize = n;
    while b > 0 && is_space_exec(s.get_char(b - 1))
        invariant
            a < b <= n,
            n == s@.len(),
            a < n,
            !is_space(s@[a as int]),
            trim_end_idx(s@, n as int) == trim_end_idx(s@, b as int),
        decreases b,
    {
        b = b - 1;
    }
    assert(b as int == trim_end_idx(s@, n as int));
    let t = String::from_str(s.substring_char(a, b));
    proof {
        assert(t@ =~= trim_of(s@));
    }
    t
}

/// Checks whether the whole pattern matches at position `i` of `line`; on
/// success returns the position of the tab.
fn check_match_at(line: &str, i: usize, n: usize) -> (r: Option<usize>)
    requires
        n == line@.len(),
        i < n,
    ensures
        match r {
            Some(j) => match_at(line@, i as int) && j as int == first_tab(line@, i + 14) && i + 14
                < j && j + 1 < n,
            None => !match_at(line@, i as int),
        },
{
    if n - i < 14 {
        return None;
    }
    let ok = line.get_char(i) == '[' && is_digit_exec(line.get_char(i + 1)) && is_digit_exec(
        line.get_char(i + 2),
    ) && line.get_char(i + 3) == ':' && is_digit_exec(line.get_char(i + 4)) && is_digit_exec(
        line.get_char(i + 5),
    ) && line.get_char(i + 6) == ':' && is_digit_exec(line.get_char(i + 7)) && is_digit_exec(
        line.get_char(i + 8),
    ) && line.get_char(i + 9) == '.' && is_digit_exec(line.get_char(i + 10)) && is_digit_exec(
        line.get_char(i + 11),
    ) && is_digit_exec(line.get_char(i + 12)) && line.get_char(i + 13) == ']';
    assert(ok == bracket_at(line@, i as int));
    if !ok {
        return None;
    }
    let mut j: usize = i + 14;
    while j < n && line.get_char(j) != '\t'
        invariant
            i + 14 <= j <= n,
            n == line@.len(),
            first_tab(line@, i + 14) == first_tab(line@, j as int),
        decreases n - j,
    {
        j = j + 1;
    }
    assert(j as int == first_tab(line@, i + 14));
    if j == n {
        return None;
    }
    if j == i + 14 {
        return None;
    }
    if j + 1 == n {
        return None;
    }
    Some(j)
}

/// The leftmost match of the whole pattern in `line`, as the match position
/// and the tab position.
fn find_match_in_line(line: &str) -> (r: Option<(usize, usize)>)
    ensures
        match r {
            Some(p) => {
                match p {
                    (i, j) => find_match(line@, 0) == i && match_at(line@, i as int) && j as int
                        == first_tab(line@, i + 14) && i + 14 < j && j + 1 < line@.len(),
                }
            },
            None => find_match(line@, 0) == line@.len(),
        },
{
    let n = line.unicode_len();
    let mut i: usize = 0;
    while i < n
        invariant
            0 <= i <= n,
            n == line@.len(),
            find_match(line@, 0) == find_match(line@, i as int),
        decreases n - i,
    {
        match check_match_at(line, i, n) {
            Some(j) => {
                assert(find_match(line@, i as int) == i as int);
                return Some((i, j));
            },
            None => {
                assert(find_match(line@, i as int) == find_match(line@, i + 1));
                i = i + 1;
            },
        }
    }
    None
}

proof fn lemma_records_lines_counts(s: Seq<char>, pos: int)
    requires
        0 <= pos <= s.len(),
    ensures
        records_from(s, pos) == lines_from(s, pos).filter(|l: Seq<char>| line_matches(l)).map_values(
            |l: Seq<char>| line_rec(l),
        ),
        records_from(s, pos).len() == lines_from(s, pos).filter(
            |l: Seq<char>| line_matches(l),
        ).len(),
    decreases s.len() - pos,
{
    let pred = |l: Seq<char>| line_matches(l);
    let f = |l: Seq<char>| line_rec(l);
    reveal_with_fuel(Seq::<Seq<char>>::filter, 3);
    if pos >= s.len() {
        assert(lines_from(s, pos).filter(pred).len() == 0);
        assert(lines_from(s, pos).filter(pred).map_values(f) =~= Seq::<RecordView>::empty());
    } else {
        lemma_find_nl_bounds(s, pos);
        lemma_records_lines_counts(s, next_pos(s, pos));
        let l = line_of(s, pos);
        let rest = lines_from(s, next_pos(s, pos));
        assert(lines_from(s, pos) == seq![l] + rest);
        Seq::filter_distributes_over_add(seq![l], rest, pred);
        assert((seq![l].filter(pred) + rest.filter(pred)).map_values(f) =~= seq![l].filter(
            pred,
        ).map_values(f) + rest.filter(pred).map_values(f));
        assert(seq![l].drop_last() =~= Seq::<Seq<char>>::empty());
        if pred(l) {
            assert(seq![l].filter(pred) =~= seq![l]);
            assert(seq![l].map_values(f) =~= seq![line_rec(l)]);
        } else {
            assert(seq![l].filter(pred) =~= Seq::<Seq<char>>::empty());
            assert(seq![l].filter(pred).map_values(f) =~= Seq::<RecordView>::empty());
        }
    }
}

/// However matching and non-matching lines are interleaved, the parser
/// yields exactly one record per matching line, in line order: its output
/// is the matching lines mapped through the extraction, and its length is
/// the number of lines on which the pattern matches.
pub proof fn lemma_parser_output_counts_matching_lines(s: Seq<char>)
    ensures
        records_from(s, 0) == lines_from(s, 0).filter(|l: Seq<char>| line_matches(l)).map_values(
            |l: Seq<char>| line_rec(l),
        ),
        records_from(s, 0).len() == lines_from(s, 0).filter(
            |l: Seq<char>| line_matches(l),
        ).len(),
{
    lemma_records_lines_counts(s, 0);
}

/// Builds the record of a line on which the pattern matched at `mi` with
/// its tab at `mj`.
fn parse_line_exec(line: &str, mi: usize, mj: usize) -> (rec: TimedRecord)
    requires
        match_at(line@, mi as int),
        mi as int == find_match(line@, 0),
        mj as int == first_tab(line@, mi + 14),
        mi + 14 < mj,
        mj + 1 < line@.len(),
    ensures
        rec@ == line_rec(line@),
{
    let m = line.unicode_len();
    let h = char_val(line.get_char(mi + 1)) * 10 + char_val(line.get_char(mi + 2));
    let mn = char_val(line.get_char(mi + 4)) * 10 + char_val(line.get_char(mi + 5));
    let sc = char_val(line.get_char(mi + 7)) * 10 + char_val(line.get_char(mi + 8));
    let fr = char_val(line.get_char(mi + 10)) * 10 + char_val(line.get_char(mi + 11));
    let start = crate::codec::parse_time_fields(h, mn, sc, fr);
    let rec = TimedRecord {
        timestamp_text: String::from_str(line.substring_char(mi + 1, mi + 13)),
        speaker: trim_str(line.substring_char(mi + 14, mj)),
        text: trim_str(line.substring_char(mj + 1, m)),
        start_ms: start,
        end_ms: None,
    };
    proof {
        assert(line_start_ms(line@, mi as int) == start);
        assert(rec@ =~~= line_rec(line@));
    }
    rec
}

/// Parses the whole transcript: one record per matching line, in input line
/// order, with no end times assigned yet.  Non-matching lines are skipped;
/// the parser never fails.
#[verifier::rlimit(60)]
pub fn parse_records(content: &str) -> (records: Vec<TimedRecord>)
    ensures
        views_of(records@) == records_from(content@, 0),
{
    let ghost full = content@;
    let n = content.unicode_len();
    let mut records: Vec<TimedRecord> = Vec::new();
    let mut pos: usize = 0;
    proof {
        assert(views_of(records@) + records_from(full, 0) =~= records_from(full, 0));
    }
    while pos < n
        invariant
            0 <= pos <= n,
            n == full.len(),
            full == content@,
            views_of(records@) + records_from(full, pos as int) == records_from(full, 0),
        decreases n - pos,
    {
        let ghost old_records = records@;
        let mut j: usize = pos;
        while j < n && content.get_char(j) != '\n'
            invariant
                pos <= j <= n,
                n == full.len(),
                full == content@,
                find_nl(full, pos as int) == find_nl(full, j as int),
            decreases n - j,
        {
            j = j + 1;
        }
        assert(j as int == find_nl(full, pos as int));
        let line_end = if j > pos && content.get_char(j - 1) == '\r' {
            j - 1
        } else {
            j
        };
        let line = content.substring_char(pos, line_end);
        proof {
            assert(line@ =~= line_of(full, pos as int));
        }
        let ghost lof = line_of(full, pos as int);
        match find_match_in_line(line) {
            Some((mi, mj)) => {
                let rec = parse_line_exec(line, mi, mj);
                records.push(rec);
                proof {
                    assert(views_of(records@) =~= views_of(old_records) + seq![rec@]);
                    assert(records_from(full, pos as int) == seq![line_rec(lof)] + records_from(
                        full,
                        next_pos(full, pos as int),
                    ));
                    assert((views_of(old_records) + seq![rec@]) + records_from(
                        full,
                        next_pos(full, pos as int),
                    ) =~= views_of(old_records) + (seq![rec@] + records_from(
                        full,
                        next_pos(full, pos as int),
                    )));
                }
            },
            None => {
                proof {
                    assert(!line_matches(lof));
                    assert(records_from(full, pos as int) == records_from(
                        full,
                        next_pos(full, pos as int),
                    ));
                }
            },
        }
        proof {
            lemma_find_nl_bounds(full, pos as int);
        }
        pos = if j < n {
            j + 1
        } else {
            n
        };
    }
    proof {
        assert(records_from(full, n as int) =~= Seq::<RecordView>::empty());
        assert(views_of(records@) + Seq::<RecordView>::empty() =~= views_of(records@));
    }
    records
}

/// Parses the transcript and resolves every duration: the records of the
/// matching lines in input line order, each ending where its successor
/// starts, the last one three seconds after its own start.
pub fn parse_lrc(content: &str) -> (records: Vec<TimedRecord>)
    ensures
        views_of(records@) == resolved(records_from(content@, 0)),
{
    let mut records = parse_records(content);
    proof {
        lemma_records_from_bounds(content@, 0);
        let vs = views_of(records@);
        if records@.len() > 0 {
            assert(vs[vs.len() - 1] == records@[records@.len() - 1]@);
            assert(records@[records@.len() - 1].start_ms <= 362439990);
        }
    }
    crate::resolve::resolve_durations(&mut records);
    records
}

} // verus!
