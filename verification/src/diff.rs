use vstd::prelude::*;

use crate::num::{all_digits, digits_value, parse_i64, parse_i64_spec, parse_u32, parse_u32_spec};
use crate::order::{is_stable_sort_u32, lemma_stable_sort_u32_unique, stable_sort_by_u32_keys};
use crate::query::SymbolInfo;
use crate::text::{
    after_first, before_first, chars_after_first, chars_before_first, chars_eq, chars_of,
    chars_starts_with, lines, lines_of, slice_chars, string_from_chars, trim_chars, trim_spec,
};

verus! {

/// The file a `+++ ` header names: the text before the first tab, trimmed;
/// none for `/dev/null` or a path not under `b/`.
pub open spec fn diff_path_spec(raw: Seq<char>) -> Option<Seq<char>> {
    let t = trim_spec(before_first(raw, seq!['\t']));
    if t == "/dev/null"@ {
        None
    } else if t.len() >= 2 && t[0] == 'b' && t[1] == '/' {
        Some(t.skip(2))
    } else {
        None
    }
}

/// The file a `+++ ` header line of a unified diff names.
pub fn parse_diff_path(raw: &str) -> (r: Option<String>)
    ensures
        r matches Some(p) ==> diff_path_spec(raw@) == Some(p@),
        r is None ==> diff_path_spec(raw@) is None,
{
    let cs = chars_of(raw);
    let mut tab: Vec<char> = Vec::new();
    tab.push('\t');
    proof {
        assert(tab@ =~= seq!['\t']);
    }
    let head = chars_before_first(cs.as_slice(), tab.as_slice());
    let t = trim_chars(head.as_slice());
    let null = chars_of("/dev/null");
    if chars_eq(t.as_slice(), null.as_slice()) {
        return None;
    }
    if t.len() >= 2 && t[0] == 'b' && t[1] == '/' {
        let rest = slice_chars(t.as_slice(), 2, t.len());
        proof {
            assert(rest@ =~= t@.skip(2));
        }
        Some(string_from_chars(rest.as_slice()))
    } else {
        None
    }
}

/// The new-file range of a hunk header (the text after `@@ `): the start and
/// count after the first ` +`, up to the next ` +` and then up to ` @@`,
/// split at the first `,`; a missing count is 1.
pub open spec fn hunk_range_spec(hunk: Seq<char>) -> Option<(nat, nat)> {
    match after_first(hunk, seq![' ', '+']) {
        None => None,
        Some(after) => {
            let range = before_first(before_first(after, seq![' ', '+']), seq![' ', '@', '@']);
            match parse_u32_spec(trim_spec(before_first(range, seq![',']))) {
                None => None,
                Some(start) => match after_first(range, seq![',']) {
                    None => Some((start, 1nat)),
                    Some(count_text) => match parse_u32_spec(trim_spec(count_text)) {
                        None => None,
                        Some(count) => Some((start, count)),
                    },
                },
            }
        },
    }
}

/// The start line and line count of the new side of a hunk header.
pub fn parse_hunk_new_range(hunk: &str) -> (r: Option<(u32, u32)>)
    ensures
        r matches Some((s, c)) ==> hunk_range_spec(hunk@) == Some((s as nat, c as nat)),
        r is None ==> hunk_range_spec(hunk@) is None,
{
    let cs = chars_of(hunk);
    let mut plus: Vec<char> = Vec::new();
    plus.push(' ');
    plus.push('+');
    let mut ats: Vec<char> = Vec::new();
    ats.push(' ');
    ats.push('@');
    ats.push('@');
    let mut comma: Vec<char> = Vec::new();
    comma.push(',');
    proof {
        assert(plus@ =~= seq![' ', '+']);
        assert(ats@ =~= seq![' ', '@', '@']);
        assert(comma@ =~= seq![',']);
    }
    let after = match chars_after_first(cs.as_slice(), plus.as_slice()) {
        None => {
            return None;
        },
        Some(a) => a,
    };
    let piece = chars_before_first(after.as_slice(), plus.as_slice());
    let range = chars_before_first(piece.as_slice(), ats.as_slice());
    let start_text = trim_chars(chars_before_first(range.as_slice(), comma.as_slice()).as_slice());
    let start = match parse_u32(string_from_chars(start_text.as_slice()).as_str()) {
        None => {
            return None;
        },
        Some(s) => s,
    };
    match chars_after_first(range.as_slice(), comma.as_slice()) {
        None => Some((start, 1)),
        Some(count_text) => {
            let t = trim_chars(count_text.as_slice());
            match parse_u32(string_from_chars(t.as_slice()).as_str()) {
                None => None,
                Some(count) => Some((start, count)),
            }
        },
    }
}

/// Why a `--since` value was refused.
#[derive(Debug, Clone, PartialEq, Eq)]
pub enum SinceError {
    /// Neither a timestamp nor a number followed by a one-character unit.
    NotANumber,
    /// A number followed by a unit other than `s`, `m`, `h` or `d`.
    UnsupportedSuffix(String),
    /// The value cannot be represented: its last character is not ASCII, or
    /// the cutoff falls outside the range of `i64`.
    Unrepresentable,
}

/// The view of a `--since` outcome: the cutoff, or the reason it was refused.
pub enum SinceView {
    Cutoff(int),
    NotANumber,
    UnsupportedSuffix(Seq<char>),
}

/// Seconds per unit.
pub open spec fn unit_seconds(unit: Seq<char>) -> Option<int> {
    if unit == seq!['s'] {
        Some(1)
    } else if unit == seq!['m'] {
        Some(60)
    } else if unit == seq!['h'] {
        Some(3600)
    } else if unit == seq!['d'] {
        Some(86400)
    } else {
        None
    }
}

/// Reading a `--since` value at time `now`: a Unix timestamp as is, or a
/// number with unit `s`, `m`, `h` or `d` counted back from `now`.
pub open spec fn since_spec(input: Seq<char>, now: int) -> SinceView {
    match parse_i64_spec(input) {
        Some(t) => SinceView::Cutoff(t),
        None => {
            let cut = if input.len() == 0 { 0 } else { input.len() - 1 };
            let digits = input.take(cut);
            let unit = input.skip(cut);
            match parse_i64_spec(digits) {
                None => SinceView::NotANumber,
                Some(amount) => match unit_seconds(unit) {
                    None => SinceView::UnsupportedSuffix(unit),
                    Some(factor) => SinceView::Cutoff(now - amount * factor),
                },
            }
        },
    }
}

/// A number of seconds, minutes, hours or days counts back from `now` by
/// that many seconds: `Ns` by N, `Nm` by 60 N, `Nh` by 3600 N and `Nd` by
/// 86400 N.
pub proof fn lemma_since_counts_back(digits: Seq<char>, now: int)
    requires
        all_digits(digits),
        digits_value(digits) <= i64::MAX,
    ensures
        since_spec(digits.push('s'), now) == SinceView::Cutoff(now - digits_value(digits)),
        since_spec(digits.push('m'), now) == SinceView::Cutoff(now - (digits_value(digits) as int) * 60),
        since_spec(digits.push('h'), now) == SinceView::Cutoff(now - (digits_value(digits) as int) * 3600),
        since_spec(digits.push('d'), now) == SinceView::Cutoff(now - (digits_value(digits) as int) * 86400),
{
    assert(parse_i64_spec(digits) == Some(digits_value(digits) as int)) by {
        assert(crate::num::is_digit(digits[0]));
    }
    lemma_since_unit(digits, 's', now);
    lemma_since_unit(digits, 'm', now);
    lemma_since_unit(digits, 'h', now);
    lemma_since_unit(digits, 'd', now);
    assert(seq!['m'] != seq!['s']) by { assert(seq!['m'][0] != seq!['s'][0]); }
    assert(seq!['h'] != seq!['s'] && seq!['h'] != seq!['m']) by {
        assert(seq!['h'][0] != seq!['s'][0] && seq!['h'][0] != seq!['m'][0]);
    }
    assert(seq!['d'] != seq!['s'] && seq!['d'] != seq!['m'] && seq!['d'] != seq!['h']) by {
        assert(seq!['d'][0] != seq!['s'][0] && seq!['d'][0] != seq!['m'][0] && seq!['d'][0] != seq!['h'][0]);
    }
}

/// A bare number is a Unix timestamp taken as it is, and a number followed by
/// a character other than a digit or one of `s`, `m`, `h`, `d` is refused for
/// that suffix.
pub proof fn lemma_since_timestamp_and_suffix(digits: Seq<char>, suffix: char, now: int)
    requires
        all_digits(digits),
        digits_value(digits) <= i64::MAX,
        !crate::num::is_digit(suffix),
        suffix != 's' && suffix != 'm' && suffix != 'h' && suffix != 'd',
    ensures
        since_spec(digits, now) == SinceView::Cutoff(digits_value(digits) as int),
        since_spec(digits.push(suffix), now) == SinceView::UnsupportedSuffix(seq![suffix]),
{
    let input = digits.push(suffix);
    assert(crate::num::is_digit(digits[0]));
    assert(input[0] == digits[0]);
    assert(!all_digits(input)) by {
        assert(input[input.len() - 1] == suffix);
    }
    assert(parse_i64_spec(input) is None);
    let cut = input.len() - 1;
    assert(input.take(cut) =~= digits);
    assert(input.skip(cut) =~= seq![suffix]);
    assert(seq![suffix] != seq!['s'] && seq![suffix] != seq!['m'] && seq![suffix] != seq!['h'] && seq![suffix] != seq!['d']) by {
        assert(seq![suffix][0] == suffix);
    }
}

proof fn lemma_since_unit(digits: Seq<char>, unit: char, now: int)
    requires
        all_digits(digits),
        digits_value(digits) <= i64::MAX,
        unit == 's' || unit == 'm' || unit == 'h' || unit == 'd',
    ensures
        since_spec(digits.push(unit), now) == SinceView::Cutoff(now - (digits_value(digits) as int) * unit_seconds(seq![unit])->0),
{
    let input = digits.push(unit);
    assert(crate::num::is_digit(digits[0]));
    assert(input[0] == digits[0]);
    assert(!all_digits(input)) by {
        assert(input[input.len() - 1] == unit);
    }
    if input.len() > 0 && (input[0] == '-' || input[0] == '+') {
        assert(false);
    }
    assert(parse_i64_spec(input) is None);
    let cut = input.len() - 1;
    assert(input.take(cut) =~= digits);
    assert(input.skip(cut) =~= seq![unit]);
    assert(parse_i64_spec(digits) == Some(digits_value(digits) as int));
}

/// The inputs on which reading a `--since` value stays within `i64`: the
/// split before the unit falls on a character boundary, and the multiplication
/// and subtraction do not overflow.
pub open spec fn since_representable(input: Seq<char>, now: int) -> bool {
    match parse_i64_spec(input) {
        Some(_) => true,
        None => {
            &&& (input.len() == 0 || input.last() <= '\u{7f}')
            &&& {
                let cut = if input.len() == 0 { 0 } else { input.len() - 1 };
                match (parse_i64_spec(input.take(cut)), unit_seconds(input.skip(cut))) {
                    (Some(amount), Some(factor)) => {
                        &&& i64::MIN <= amount * factor <= i64::MAX
                        &&& i64::MIN <= now - amount * factor <= i64::MAX
                    },
                    _ => true,
                }
            }
        },
    }
}

/// Reads a `--since` value at time `now`.
pub fn parse_since_at(input: &str, now: i64) -> (r: Result<i64, SinceError>)
    requires
        since_representable(input@, now as int),
    ensures
        match (r, since_spec(input@, now as int)) {
            (Ok(v), SinceView::Cutoff(c)) => v == c,
            (Err(SinceError::NotANumber), SinceView::NotANumber) => true,
            (Err(SinceError::UnsupportedSuffix(u)), SinceView::UnsupportedSuffix(w)) => u@ == w,
            _ => false,
        },
{
    if let Some(t) = parse_i64(input) {
        return Ok(t);
    }
    let cs = chars_of(input);
    let cut = if cs.len() == 0 {
        0
    } else {
        cs.len() - 1
    };
    let digits = slice_chars(cs.as_slice(), 0, cut);
    let unit = slice_chars(cs.as_slice(), cut, cs.len());
    proof {
        assert(digits@ =~= input@.take(cut as int));
        assert(unit@ =~= input@.skip(cut as int));
    }
    let amount = match parse_i64(string_from_chars(digits.as_slice()).as_str()) {
        None => {
            return Err(SinceError::NotANumber);
        },
        Some(a) => a,
    };
    let factor: i64 = if unit.len() == 1 && unit[0] == 's' {
        1
    } else if unit.len() == 1 && unit[0] == 'm' {
        60
    } else if unit.len() == 1 && unit[0] == 'h' {
        3600
    } else if unit.len() == 1 && unit[0] == 'd' {
        86400
    } else {
        proof {
            assert(unit_seconds(unit@) is None) by {
                if unit@.len() == 1 {
                    assert(unit@ != seq!['s'] && unit@ != seq!['m'] && unit@ != seq!['h'] && unit@ != seq!['d']);
                }
            }
        }
        return Err(SinceError::UnsupportedSuffix(string_from_chars(unit.as_slice())));
    };
    proof {
        assert(unit@ =~= seq![unit@[0]]);
    }
    Ok(now - amount * factor)
}

/// The text is empty or ends in an ASCII character.
pub open spec fn last_is_ascii(input: Seq<char>) -> bool {
    input.len() == 0 || input.last() <= '\u{7f}'
}

/// Reads a `--since` value against the current time, refusing values that
/// cannot be represented.
pub fn parse_since(input: &str) -> (r: Result<i64, SinceError>)
    ensures
        r matches Err(SinceError::UnsupportedSuffix(u)) ==> exists|now: int|
            since_spec(input@, now) == SinceView::UnsupportedSuffix(u@),
        r matches Err(SinceError::NotANumber) ==> forall|now: int| since_spec(input@, now) == SinceView::NotANumber,
        parse_i64_spec(input@) matches Some(t) ==> r == Ok::<i64, SinceError>(t as i64),
        r matches Ok(v) ==> exists|now: int| since_spec(input@, now) == SinceView::Cutoff(v as int),
        since_spec(input@, 0) is NotANumber ==> r == (if last_is_ascii(input@) {
            Err::<i64, SinceError>(SinceError::NotANumber)
        } else {
            Err::<i64, SinceError>(SinceError::Unrepresentable)
        }),
        since_spec(input@, 0) matches SinceView::UnsupportedSuffix(w) ==> (if last_is_ascii(input@) {
            r matches Err(SinceError::UnsupportedSuffix(u)) && u@ == w
        } else {
            r == Err::<i64, SinceError>(SinceError::Unrepresentable)
        }),
        r == Err::<i64, SinceError>(SinceError::Unrepresentable) ==> exists|now: int| !since_representable(input@, now),
{
    let now: i64 = match crate::audit::unix_time_secs() {
        Some(secs) => secs as i64,
        None => 0,
    };
    if since_fits(input, now) {
        let r = parse_since_at(input, now);
        proof {
            if let Err(SinceError::NotANumber) = r {
                assert forall|n2: int| since_spec(input@, n2) == SinceView::NotANumber by {}
            }
            if let Ok(v) = r {
                assert(since_spec(input@, now as int) == SinceView::Cutoff(v as int));
            }
        }
        r
    } else {
        assert(!since_representable(input@, now as int));
        Err(SinceError::Unrepresentable)
    }
}

/// Whether `since_representable` holds.
fn since_fits(input: &str, now: i64) -> (b: bool)
    ensures
        b == since_representable(input@, now as int),
{
    if parse_i64(input).is_some() {
        return true;
    }
    let cs = chars_of(input);
    if cs.len() > 0 && cs[cs.len() - 1] > '\u{7f}' {
        return false;
    }
    let cut = if cs.len() == 0 {
        0
    } else {
        cs.len() - 1
    };
    let digits = slice_chars(cs.as_slice(), 0, cut);
    let unit = slice_chars(cs.as_slice(), cut, cs.len());
    proof {
        assert(digits@ =~= input@.take(cut as int));
        assert(unit@ =~= input@.skip(cut as int));
    }
    let amount = match parse_i64(string_from_chars(digits.as_slice()).as_str()) {
        None => {
            return true;
        },
        Some(a) => a,
    };
    let factor: i128 = if unit.len() == 1 && unit[0] == 's' {
        1
    } else if unit.len() == 1 && unit[0] == 'm' {
        60
    } else if unit.len() == 1 && unit[0] == 'h' {
        3600
    } else if unit.len() == 1 && unit[0] == 'd' {
        86400
    } else {
        proof {
            assert(unit_seconds(unit@) is None) by {
                if unit@.len() == 1 {
                    assert(unit@ != seq!['s'] && unit@ != seq!['m'] && unit@ != seq!['h'] && unit@ != seq!['d']);
                }
            }
        }
        return true;
    };
    proof {
        assert(unit@ =~= seq![unit@[0]]);
    }
    let product: i128 = amount as i128 * factor;
    let cutoff: i128 = now as i128 - product;
    product >= -9223372036854775808 && product <= 9223372036854775807 && cutoff >= -9223372036854775808
        && cutoff <= 9223372036854775807
}

/// The last line the `k`-th symbol of a line-sorted list is taken to span: up
/// to the line before the next symbol, or to the end of the file for the last.
pub open spec fn span_end(sorted: Seq<SymbolInfo>, k: int) -> int {
    if k + 1 < sorted.len() {
        if sorted[k + 1].line >= 1 {
            sorted[k + 1].line - 1
        } else {
            0
        }
    } else {
        4294967295
    }
}

/// The `k`-th symbol's span overlaps one of the changed ranges.
pub open spec fn span_touched(sorted: Seq<SymbolInfo>, ranges: Seq<(u32, u32)>, k: int) -> bool {
    exists|r: int|
        0 <= r < ranges.len() && sorted[k].line <= (#[trigger] ranges[r]).1 && span_end(sorted, k) >= ranges[r].0
}

/// The symbols among the first `n` of `sorted` whose spans are touched, in order.
pub open spec fn touched_prefix(sorted: Seq<SymbolInfo>, ranges: Seq<(u32, u32)>, n: int) -> Seq<SymbolInfo>
    decreases n,
{
    if n <= 0 {
        Seq::empty()
    } else if span_touched(sorted, ranges, n - 1) {
        touched_prefix(sorted, ranges, n - 1).push(sorted[n - 1])
    } else {
        touched_prefix(sorted, ranges, n - 1)
    }
}

/// What `symbols_touched_by_ranges` returns is a function of the symbols and
/// the ranges: any two stable sorts of the symbols by line are the same, so
/// they touch the same symbols.
pub proof fn lemma_touched_determined(symbols: Seq<SymbolInfo>, ranges: Seq<(u32, u32)>, s1: Seq<SymbolInfo>, s2: Seq<SymbolInfo>)
    requires
        is_stable_sort_u32(s1, symbols, symbols.map_values(|s: SymbolInfo| s.line)),
        is_stable_sort_u32(s2, symbols, symbols.map_values(|s: SymbolInfo| s.line)),
    ensures
        touched_prefix(s1, ranges, s1.len() as int) == touched_prefix(s2, ranges, s2.len() as int),
{
    lemma_stable_sort_u32_unique(s1, s2, symbols, symbols.map_values(|s: SymbolInfo| s.line));
}

/// The symbols whose approximate span (from their line to the line before the
/// next symbol, the last one to the end of the file) overlaps a changed range,
/// taken from the symbols sorted stably by line.
pub fn symbols_touched_by_ranges(symbols: &[SymbolInfo], ranges: &[(u32, u32)]) -> (touched: Vec<SymbolInfo>)
    ensures
        exists|sorted: Seq<SymbolInfo>|
            is_stable_sort_u32(sorted, symbols@, symbols@.map_values(|s: SymbolInfo| s.line)) && touched@
                == touched_prefix(sorted, ranges@, sorted.len() as int),
{
    let mut items: Vec<SymbolInfo> = Vec::new();
    let mut keys: Vec<u32> = Vec::new();
    let mut i: usize = 0;
    while i < symbols.len()
        invariant
            i <= symbols@.len(),
            items@ == symbols@.take(i as int),
            keys@ == symbols@.take(i as int).map_values(|s: SymbolInfo| s.line),
        decreases symbols@.len() - i,
    {
        let c = symbols[i].clone();
        items.push(c);
        keys.push(symbols[i].line);
        proof {
            assert(symbols@.take(i + 1) =~= symbols@.take(i as int).push(symbols@[i as int]));
            assert(keys@ =~= symbols@.take(i + 1).map_values(|s: SymbolInfo| s.line));
        }
        i = i + 1;
    }
    proof {
        assert(symbols@.take(symbols@.len() as int) =~= symbols@);
    }
    let sorted = stable_sort_by_u32_keys(items, keys);
    let ghost sv = sorted@;
    let mut touched: Vec<SymbolInfo> = Vec::new();
    let mut k: usize = 0;
    while k < sorted.len()
        invariant
            k <= sv.len(),
            sorted@ == sv,
            touched@ == touched_prefix(sv, ranges@, k as int),
        decreases sv.len() - k,
    {
        let start = sorted[k].line;
        let end: u32 = if k + 1 < sorted.len() {
            if sorted[k + 1].line >= 1 {
                sorted[k + 1].line - 1
            } else {
                0
            }
        } else {
            4294967295
        };
        let mut hit = false;
        let mut r: usize = 0;
        while r < ranges.len()
            invariant
                r <= ranges@.len(),
                end == span_end(sv, k as int),
                start == sv[k as int].line,
                hit == exists|q: int| 0 <= q < r && start <= (#[trigger] ranges@[q]).1 && end >= ranges@[q].0,
            decreases ranges@.len() - r,
        {
            let (hs, he) = ranges[r];
            if start <= he && end >= hs {
                hit = true;
            }
            r = r + 1;
        }
        if hit {
            touched.push(sorted[k].clone());
        }
        k = k + 1;
    }
    touched
}

/// The changed line ranges of one file of a diff, in the order met.
#[derive(Debug, Clone, PartialEq, Eq)]
pub struct FileRanges {
    pub file: String,
    pub ranges: Vec<(u32, u32)>,
}

/// Ranges per file, in the order files were first met, and the file the
/// current hunks belong to.
pub type DiffState = (Seq<(Seq<char>, Seq<(u32, u32)>)>, Option<Seq<char>>);

/// The first entry for file `f`.
pub open spec fn file_index(acc: Seq<(Seq<char>, Seq<(u32, u32)>)>, f: Seq<char>) -> Option<int>
    decreases acc.len(),
{
    if acc.len() == 0 {
        None
    } else {
        match file_index(acc.drop_last(), f) {
            Some(i) => Some(i),
            None => if acc.last().0 == f {
                Some(acc.len() - 1)
            } else {
                None
            },
        }
    }
}

/// Records range `r` for file `f`.
pub open spec fn add_range(acc: Seq<(Seq<char>, Seq<(u32, u32)>)>, f: Seq<char>, r: (u32, u32)) -> Seq<(Seq<char>, Seq<(u32, u32)>)> {
    match file_index(acc, f) {
        Some(i) => acc.update(i, (f, acc[i].1.push(r))),
        None => acc.push((f, seq![r])),
    }
}

/// `line` starts with `prefix`.
pub open spec fn has_prefix(line: Seq<char>, prefix: Seq<char>) -> bool {
    prefix.len() <= line.len() && line.take(prefix.len() as int) == prefix
}

/// One line of `git diff --unified=0`: a `+++ ` header selects the file, a
/// `--- ` header is passed over, and a `@@ ` hunk with a positive count adds
/// the range from its start to its last line under the current file; `None`
/// once a range's end does not fit in `u32`.
pub open spec fn diff_step(st: Option<DiffState>, line: Seq<char>) -> Option<DiffState> {
    match st {
        None => None,
        Some((acc, cur)) => if has_prefix(line, "+++ "@) {
            Some((acc, diff_path_spec(line.skip(4))))
        } else if has_prefix(line, "--- "@) {
            Some((acc, cur))
        } else if has_prefix(line, "@@ "@) {
            match cur {
                None => Some((acc, cur)),
                Some(f) => match hunk_range_spec(line.skip(3)) {
                    Some((start, count)) => if count == 0 {
                        Some((acc, cur))
                    } else if start + count > 4294967295 {
                        None
                    } else {
                        Some((add_range(acc, f, (start as u32, (start + count - 1) as u32)), cur))
                    },
                    None => Some((acc, cur)),
                },
            }
        } else {
            Some((acc, cur))
        },
    }
}

/// The state after reading `lines` in order.
pub open spec fn diff_fold(lines: Seq<Seq<char>>) -> Option<DiffState>
    decreases lines.len(),
{
    if lines.len() == 0 {
        Some((Seq::empty(), None))
    } else {
        diff_step(diff_fold(lines.drop_last()), lines.last())
    }
}

proof fn lemma_diff_fold_none_stays(lines: Seq<Seq<char>>, i: int)
    requires
        0 <= i <= lines.len(),
        diff_fold(lines.take(i)) is None,
    ensures
        diff_fold(lines) is None,
    decreases lines.len() - i,
{
    if i < lines.len() {
        assert(lines.take(i + 1).drop_last() =~= lines.take(i));
        lemma_diff_fold_none_stays(lines, i + 1);
    } else {
        assert(lines.take(i) =~= lines);
    }
}

spec fn acc_view(acc: Seq<(Vec<char>, Vec<(u32, u32)>)>) -> Seq<(Seq<char>, Seq<(u32, u32)>)> {
    acc.map_values(|e: (Vec<char>, Vec<(u32, u32)>)| (e.0@, e.1@))
}

fn find_file(acc: &Vec<(Vec<char>, Vec<(u32, u32)>)>, f: &Vec<char>) -> (r: Option<usize>)
    ensures
        r matches Some(i) ==> file_index(acc_view(acc@), f@) == Some(i as int) && i < acc@.len() && acc@[i as int].0@
            == f@,
        r is None ==> file_index(acc_view(acc@), f@) is None,
{
    let mut i: usize = 0;
    while i < acc.len()
        invariant
            i <= acc@.len(),
            file_index(acc_view(acc@).take(i as int), f@) is None,
        decreases acc@.len() - i,
    {
        proof {
            assert(acc_view(acc@).take(i + 1).drop_last() =~= acc_view(acc@).take(i as int));
        }
        if chars_eq(acc[i].0.as_slice(), f.as_slice()) {
            proof {
                lemma_file_index_prefix(acc_view(acc@), f@, i as int);
            }
            return Some(i);
        }
        i = i + 1;
    }
    proof {
        assert(acc_view(acc@).take(acc@.len() as int) =~= acc_view(acc@));
    }
    None
}

proof fn lemma_file_index_prefix(acc: Seq<(Seq<char>, Seq<(u32, u32)>)>, f: Seq<char>, i: int)
    requires
        0 <= i < acc.len(),
        file_index(acc.take(i), f) is None,
        acc[i].0 == f,
    ensures
        file_index(acc, f) == Some(i),
    decreases acc.len(),
{
    if i < acc.len() - 1 {
        assert(acc.drop_last().take(i) =~= acc.take(i));
        lemma_file_index_prefix(acc.drop_last(), f, i);
    } else {
        assert(acc.drop_last() =~= acc.take(i));
    }
}

fn copy_ranges(v: &Vec<(u32, u32)>) -> (out: Vec<(u32, u32)>)
    ensures
        out@ == v@,
{
    let mut out: Vec<(u32, u32)> = Vec::new();
    let mut i: usize = 0;
    while i < v.len()
        invariant
            i <= v@.len(),
            out@ == v@.take(i as int),
        decreases v@.len() - i,
    {
        out.push(v[i]);
        assert(v@.take(i + 1) =~= v@.take(i as int).push(v@[i as int]));
        i = i + 1;
    }
    assert(v@.take(v@.len() as int) =~= v@);
    out
}

/// The ranges per file gathered from all of `text`.
pub open spec fn diff_files(text: Seq<char>) -> Seq<(Seq<char>, Seq<(u32, u32)>)> {
    match diff_fold(lines_of(text)) {
        Some((acc, _)) => acc,
        None => Seq::empty(),
    }
}

/// The changed line ranges per file in the text of `git diff --unified=0`,
/// for a diff whose ranges all fit in `u32`.
pub fn diff_line_ranges(text: &str) -> (out: Vec<FileRanges>)
    requires
        diff_fold(lines_of(text@)) is Some,
    ensures
        out@.len() == diff_files(text@).len(),
        forall|i: int|
            0 <= i < out@.len() ==> (#[trigger] out@[i]).file@ == diff_files(text@)[i].0
                && out@[i].ranges@ == diff_files(text@)[i].1,
{
    match diff_line_ranges_checked(text) {
        Some(out) => out,
        None => Vec::new(),
    }
}

/// The changed line ranges per file in the text of `git diff --unified=0`;
/// `None` where a hunk's range does not fit in `u32`.
pub fn diff_line_ranges_checked(text: &str) -> (r: Option<Vec<FileRanges>>)
    ensures
        r is None <==> diff_fold(lines_of(text@)) is None,
        r matches Some(out) ==> out@.len() == diff_files(text@).len() && forall|i: int|
            0 <= i < out@.len() ==> (#[trigger] out@[i]).file@ == diff_files(text@)[i].0
                && out@[i].ranges@ == diff_files(text@)[i].1,
{
    let ls = lines(text);
    let ghost lv = lines_of(text@);
    let mut acc: Vec<(Vec<char>, Vec<(u32, u32)>)> = Vec::new();
    let mut current: Option<Vec<char>> = None;
    let plus3 = chars_of("+++ ");
    let minus3 = chars_of("--- ");
    let at2 = chars_of("@@ ");
    let mut i: usize = 0;
    proof {
        assert(lv.take(0) =~= Seq::<Seq<char>>::empty());
        reveal_strlit("+++ ");
        reveal_strlit("@@ ");
    }
    while i < ls.len()
        invariant
            i <= ls@.len(),
            ls@.len() == lv.len(),
            forall|j: int| 0 <= j < ls@.len() ==> #[trigger] ls@[j]@ == lv[j],
            plus3@ == "+++ "@,
            minus3@ == "--- "@,
            at2@ == "@@ "@,
            plus3@.len() == 4,
            at2@.len() == 3,
            lv == lines_of(text@),
            diff_fold(lv.take(i as int)) == Some(
                (
                    acc_view(acc@),
                    match current {
                        Some(c) => Some(c@),
                        None => None::<Seq<char>>,
                    },
                ),
            ),
        decreases ls@.len() - i,
    {
        let line = &ls[i];
        proof {
            assert(lv.take(i + 1).drop_last() =~= lv.take(i as int));
            assert(lv.take(i + 1).last() == line@);
        }
        if chars_starts_with(line.as_slice(), plus3.as_slice()) {
            let rest = slice_chars(line.as_slice(), 4, line.len());
            proof {
                assert(rest@ =~= line@.skip(4));
            }
            current = match parse_diff_path(string_from_chars(rest.as_slice()).as_str()) {
                Some(p) => Some(chars_of(p.as_str())),
                None => None,
            };
        } else if chars_starts_with(line.as_slice(), minus3.as_slice()) {
        } else if chars_starts_with(line.as_slice(), at2.as_slice()) {
            match &current {
                None => {},
                Some(f) => {
                    let rest = slice_chars(line.as_slice(), 3, line.len());
                    proof {
                        assert(rest@ =~= line@.skip(3));
                    }
                    match parse_hunk_new_range(string_from_chars(rest.as_slice()).as_str()) {
                        Some((start, count)) => {
                            if count > 0 {
                                if count > u32::MAX - start {
                                    proof {
                                        assert(start as int + count as int > 4294967295);
                                        assert(diff_fold(lv.take(i + 1)) == diff_step(diff_fold(lv.take(i as int)), line@));
                                        assert(diff_fold(lv.take(i + 1)) is None);
                                        lemma_diff_fold_none_stays(lv, i + 1);
                                    }
                                    return None;
                                }
                                let end = start + (count - 1);
                                let ghost before = acc_view(acc@);
                                match find_file(&acc, f) {
                                    Some(k) => {
                                        let ghost raw = acc@;
                                        let mut entry = acc.remove(k);
                                        entry.1.push((start, end));
                                        let ghost e2 = entry;
                                        acc.insert(k, entry);
                                        proof {
                                            assert(acc@ =~= raw.update(k as int, e2));
                                            assert(e2.0@ == f@);
                                            assert(acc_view(acc@) =~= before.update(
                                                k as int,
                                                (f@, before[k as int].1.push((start, end))),
                                            ));
                                        }
                                    },
                                    None => {
                                        let mut v: Vec<(u32, u32)> = Vec::new();
                                        v.push((start, end));
                                        acc.push((f.clone(), v));
                                        proof {
                                            assert(acc_view(acc@) =~= before.push((f@, seq![(start, end)])));
                                        }
                                    },
                                }
                            }
                        },
                        None => {},
                    }
                },
            }
        }
        i = i + 1;
    }
    proof {
        assert(lv.take(ls@.len() as int) =~= lv);
    }
    let mut out: Vec<FileRanges> = Vec::new();
    let ghost fin = acc_view(acc@);
    let mut k: usize = 0;
    while k < acc.len()
        invariant
            k <= acc@.len(),
            fin == acc_view(acc@),
            out@.len() == k,
            forall|j: int| 0 <= j < k ==> (#[trigger] out@[j]).file@ == fin[j].0 && out@[j].ranges@ == fin[j].1,
        decreases acc@.len() - k,
    {
        let file = string_from_chars(acc[k].0.as_slice());
        let ranges = copy_ranges(&acc[k].1);
        proof {
            assert(fin[k as int] == (acc@[k as int].0@, acc@[k as int].1@));
        }
        out.push(FileRanges { file, ranges });
        k = k + 1;
    }
    Some(out)
}

} // verus!
