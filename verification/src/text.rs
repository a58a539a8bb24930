use vstd::prelude::*;
use vstd::string::*;

verus! {

/// `String::push` appends one character.
#[verifier::external_body]
pub(crate) fn string_push(s: &mut String, c: char)
    ensures
        final(s)@ == old(s)@.push(c),
{
    s.push(c);
}

/// The characters of `s`, in order.
pub fn chars_of(s: &str) -> (v: Vec<char>)
    ensures
        v@ == s@,
{
    let mut v: Vec<char> = Vec::new();
    for c in it: s.chars()
        invariant
            it.seq() == s@,
            v@ == it.seq().take(it.index() as int),
    {
        v.push(c);
    }
    v
}

/// A string holding exactly the characters of `cs`.
pub fn string_from_chars(cs: &[char]) -> (s: String)
    ensures
        s@ == cs@,
{
    let mut s = String::new();
    let mut i: usize = 0;
    while i < cs.len()
        invariant
            i <= cs@.len(),
            s@ == cs@.take(i as int),
        decreases cs@.len() - i,
    {
        string_push(&mut s, cs[i]);
        assert(cs@.take((i + 1) as int) =~= cs@.take(i as int).push(cs@[i as int]));
        i = i + 1;
    }
    assert(cs@.take(cs@.len() as int) =~= cs@);
    s
}

/// Whether two character sequences are equal.
pub fn chars_eq(a: &[char], b: &[char]) -> (eq: bool)
    ensures
        eq == (a@ == b@),
{
    if a.len() != b.len() {
        return false;
    }
    let mut i: usize = 0;
    while i < a.len()
        invariant
            a@.len() == b@.len(),
            i <= a@.len(),
            forall|j: int| 0 <= j < i ==> a@[j] == b@[j],
        decreases a@.len() - i,
    {
        if a[i] != b[i] {
            return false;
        }
        i = i + 1;
    }
    assert(a@ =~= b@);
    true
}

/// Whether two strings hold the same characters.
pub fn str_eq(a: &str, b: &str) -> (eq: bool)
    ensures
        eq == (a@ == b@),
{
    let av = chars_of(a);
    let bv = chars_of(b);
    chars_eq(av.as_slice(), bv.as_slice())
}

/// Unicode `White_Space`: what `char::is_whitespace` accepts.
pub open spec fn is_whitespace(c: char) -> bool {
    ('\u{9}' <= c && c <= '\u{d}') || c == ' ' || c == '\u{85}' || c == '\u{a0}' || c == '\u{1680}'
        || ('\u{2000}' <= c && c <= '\u{200a}') || c == '\u{2028}' || c == '\u{2029}' || c
        == '\u{202f}' || c == '\u{205f}' || c == '\u{3000}'
}

pub fn char_is_whitespace(c: char) -> (b: bool)
    ensures
        b == is_whitespace(c),
{
    ('\u{9}' <= c && c <= '\u{d}') || c == ' ' || c == '\u{85}' || c == '\u{a0}' || c == '\u{1680}'
        || ('\u{2000}' <= c && c <= '\u{200a}') || c == '\u{2028}' || c == '\u{2029}' || c
        == '\u{202f}' || c == '\u{205f}' || c == '\u{3000}'
}

/// `s` without its leading whitespace.
pub open spec fn trim_start_spec(s: Seq<char>) -> Seq<char>
    decreases s.len(),
{
    if s.len() > 0 && is_whitespace(s[0]) {
        trim_start_spec(s.drop_first())
    } else {
        s
    }
}

/// `s` without its trailing whitespace.
pub open spec fn trim_end_spec(s: Seq<char>) -> Seq<char>
    decreases s.len(),
{
    if s.len() > 0 && is_whitespace(s.last()) {
        trim_end_spec(s.drop_last())
    } else {
        s
    }
}

/// `s` without leading and trailing whitespace (what `str::trim` gives).
pub open spec fn trim_spec(s: Seq<char>) -> Seq<char> {
    trim_end_spec(trim_start_spec(s))
}

proof fn lemma_trim_start_skip(s: Seq<char>, i: int)
    requires
        0 <= i <= s.len(),
        forall|j: int| 0 <= j < i ==> is_whitespace(#[trigger] s[j]),
    ensures
        trim_start_spec(s) == trim_start_spec(s.skip(i)),
    decreases i,
{
    if i > 0 {
        assert(s.skip(1) =~= s.drop_first());
        lemma_trim_start_skip(s.drop_first(), i - 1);
        assert(s.drop_first().skip(i - 1) =~= s.skip(i));
    } else {
        assert(s.skip(0) =~= s);
    }
}

proof fn lemma_trim_end_take(s: Seq<char>, i: int)
    requires
        0 <= i <= s.len(),
        forall|j: int| i <= j < s.len() ==> is_whitespace(#[trigger] s[j]),
    ensures
        trim_end_spec(s) == trim_end_spec(s.take(i)),
    decreases s.len() - i,
{
    if i < s.len() {
        lemma_trim_end_take(s.drop_last(), i);
        assert(s.drop_last().take(i) =~= s.take(i));
    } else {
        assert(s.take(i) =~= s);
    }
}

/// The characters of `cs[from..to]`.
pub fn slice_chars(cs: &[char], from: usize, to: usize) -> (out: Vec<char>)
    requires
        from <= to <= cs@.len(),
    ensures
        out@ == cs@.subrange(from as int, to as int),
{
    let mut out: Vec<char> = Vec::new();
    let mut i = from;
    while i < to
        invariant
            from <= i <= to <= cs@.len(),
            out@ == cs@.subrange(from as int, i as int),
        decreases to - i,
    {
        out.push(cs[i]);
        assert(cs@.subrange(from as int, (i + 1) as int) =~= cs@.subrange(from as int, i as int).push(cs@[i as int]));
        i = i + 1;
    }
    out
}

/// The characters of `cs` without leading and trailing whitespace.
pub fn trim_chars(cs: &[char]) -> (out: Vec<char>)
    ensures
        out@ == trim_spec(cs@),
{
    let mut start: usize = 0;
    while start < cs.len() && char_is_whitespace(cs[start])
        invariant
            start <= cs@.len(),
            forall|j: int| 0 <= j < start ==> is_whitespace(#[trigger] cs@[j]),
        decreases cs@.len() - start,
    {
        start = start + 1;
    }
    proof {
        lemma_trim_start_skip(cs@, start as int);
        if start < cs@.len() {
            assert(cs@.skip(start as int)[0] == cs@[start as int]);
        }
    }
    let ghost rest = cs@.skip(start as int);
    assert(trim_start_spec(rest) == rest);
    let mut end: usize = cs.len();
    while end > start && char_is_whitespace(cs[end - 1])
        invariant
            start <= end <= cs@.len(),
            rest == cs@.skip(start as int),
            forall|j: int| end - start <= j < rest.len() ==> is_whitespace(#[trigger] rest[j]),
        decreases end,
    {
        end = end - 1;
    }
    proof {
        lemma_trim_end_take(rest, end - start);
        let t = rest.take(end - start);
        if end > start {
            assert(t.last() == cs@[end - 1]);
        }
        assert(t =~= cs@.subrange(start as int, end as int));
    }
    slice_chars(cs, start, end)
}

/// `s` without leading and trailing whitespace.
pub fn trim(s: &str) -> (out: String)
    ensures
        out@ == trim_spec(s@),
{
    let cs = chars_of(s);
    let t = trim_chars(cs.as_slice());
    string_from_chars(t.as_slice())
}

/// The decimal digit character of `d`.
pub open spec fn digit_char(d: nat) -> char {
    (('0' as nat) + d) as char
}

/// The decimal text of `n`, without leading zeros.
pub open spec fn decimal_text(n: nat) -> Seq<char>
    decreases n,
{
    if n < 10 {
        seq![digit_char(n)]
    } else {
        decimal_text(n / 10).push(digit_char(n % 10))
    }
}

fn decimal_chars(n: u64) -> (out: Vec<char>)
    ensures
        out@ == decimal_text(n as nat),
    decreases n,
{
    let d = (n % 10) as u8;
    let c = (48u8 + d) as char;
    if n < 10 {
        let mut v = Vec::new();
        v.push(c);
        proof {
            assert(v@ =~= seq![digit_char(n as nat)]);
        }
        v
    } else {
        let mut v = decimal_chars(n / 10);
        v.push(c);
        v
    }
}

/// The decimal text of `n`.
pub fn decimal_string(n: u64) -> (s: String)
    ensures
        s@ == decimal_text(n as nat),
{
    let cs = decimal_chars(n);
    string_from_chars(cs.as_slice())
}

/// `s` followed by `t`.
pub fn concat(s: &str, t: &str) -> (out: String)
    ensures
        out@ == s@ + t@,
{
    let mut out = String::from_str(s);
    out.append(t);
    out
}

/// `pat` occurs in `s` starting at `i`.
pub open spec fn occurs_at(s: Seq<char>, pat: Seq<char>, i: int) -> bool {
    0 <= i && i + pat.len() <= s.len() && s.subrange(i, i + pat.len()) == pat
}

/// Where `pat` first occurs in `s`.
#[verifier::opaque]
pub open spec fn first_occurrence(s: Seq<char>, pat: Seq<char>) -> Option<int> {
    if exists|i: int| occurs_at(s, pat, i) {
        Some(choose|i: int| occurs_at(s, pat, i) && forall|j: int| 0 <= j < i ==> !occurs_at(s, pat, j))
    } else {
        None
    }
}

/// `s` up to the first `pat`, or all of `s` (the first piece of `split`).
pub open spec fn before_first(s: Seq<char>, pat: Seq<char>) -> Seq<char> {
    match first_occurrence(s, pat) {
        Some(i) => s.take(i),
        None => s,
    }
}

/// `s` after the first `pat`, if it holds one.
pub open spec fn after_first(s: Seq<char>, pat: Seq<char>) -> Option<Seq<char>> {
    match first_occurrence(s, pat) {
        Some(i) => Some(s.skip(i + pat.len())),
        None => None,
    }
}

/// Whether `pat` occurs in `cs` at `i`.
pub fn chars_occur_at(cs: &[char], pat: &[char], i: usize) -> (b: bool)
    ensures
        b == occurs_at(cs@, pat@, i as int),
{
    if i > cs.len() || pat.len() > cs.len() - i {
        return false;
    }
    let mut k: usize = 0;
    let n = cs.len();
    while k < pat.len()
        invariant
            n == cs@.len(),
            i + pat@.len() <= cs@.len(),
            k <= pat@.len(),
            forall|j: int| 0 <= j < k ==> cs@[i + j] == pat@[j],
        decreases pat@.len() - k,
    {
        if cs[i + k] != pat[k] {
            proof {
                assert(cs@.subrange(i as int, i + pat@.len())[k as int] != pat@[k as int]);
            }
            return false;
        }
        k = k + 1;
    }
    assert(cs@.subrange(i as int, i + pat@.len()) =~= pat@);
    true
}

/// The index where `pat` first occurs in `cs`.
pub fn find_chars(cs: &[char], pat: &[char]) -> (r: Option<usize>)
    ensures
        r matches Some(i) ==> first_occurrence(cs@, pat@) == Some(i as int) && occurs_at(cs@, pat@, i as int),
        r is None ==> first_occurrence(cs@, pat@) is None,
{
    reveal(first_occurrence);
    if pat.len() > cs.len() {
        proof {
            assert forall|k: int| !occurs_at(cs@, pat@, k) by {}
        }
        return None;
    }
    let last = cs.len() - pat.len();
    let mut i: usize = 0;
    loop
        invariant
            pat@.len() <= cs@.len(),
            last == cs@.len() - pat@.len(),
            i <= last,
            forall|j: int| 0 <= j < i ==> !occurs_at(cs@, pat@, j),
        decreases last - i,
    {
        if chars_occur_at(cs, pat, i) {
            proof {
                reveal(first_occurrence);
                let c = choose|k: int| occurs_at(cs@, pat@, k) && forall|j: int| 0 <= j < k ==> !occurs_at(cs@, pat@, j);
                assert(occurs_at(cs@, pat@, i as int));
                assert(c == i) by {
                    if c < i {
                    } else if c > i {
                    }
                }
            }
            return Some(i);
        }
        if i == last {
            proof {
                reveal(first_occurrence);
                assert forall|k: int| !occurs_at(cs@, pat@, k) by {
                    if 0 <= k < i {
                    }
                }
            }
            return None;
        }
        i = i + 1;
    }
}

/// `cs` up to the first `pat`.
pub fn chars_before_first(cs: &[char], pat: &[char]) -> (out: Vec<char>)
    ensures
        out@ == before_first(cs@, pat@),
{
    match find_chars(cs, pat) {
        Some(i) => {
            proof {
                assert(occurs_at(cs@, pat@, i as int));
            }
            slice_chars(cs, 0, i)
        },
        None => {
            let v = slice_chars(cs, 0, cs.len());
            assert(v@ =~= cs@);
            v
        },
    }
}

/// `cs` after the first `pat`.
pub fn chars_after_first(cs: &[char], pat: &[char]) -> (out: Option<Vec<char>>)
    ensures
        out matches Some(v) ==> after_first(cs@, pat@) == Some(v@),
        out is None ==> after_first(cs@, pat@) is None,
{
    match find_chars(cs, pat) {
        Some(i) => {
            proof {
                assert(occurs_at(cs@, pat@, i as int));
                assert(i + pat@.len() <= cs@.len());
            }
            let n = cs.len();
            let from = i + pat.len();
            let v = slice_chars(cs, from, n);
            assert(v@ =~= cs@.skip(i + pat@.len()));
            Some(v)
        },
        None => None,
    }
}

/// Whether `cs` starts with `pat`.
pub fn chars_starts_with(cs: &[char], pat: &[char]) -> (b: bool)
    ensures
        b == (pat@.len() <= cs@.len() && cs@.take(pat@.len() as int) == pat@),
{
    let b = chars_occur_at(cs, pat, 0);
    proof {
        if pat@.len() <= cs@.len() {
            assert(cs@.subrange(0, pat@.len() as int) =~= cs@.take(pat@.len() as int));
        }
    }
    b
}

/// Reading `t` left to right: the lines ended by `\n` so far (each without the
/// `\n` and a `\r` just before it) and the text of the current line.
pub open spec fn lines_scan(t: Seq<char>) -> (Seq<Seq<char>>, Seq<char>)
    decreases t.len(),
{
    if t.len() == 0 {
        (Seq::empty(), Seq::empty())
    } else {
        let (done, cur) = lines_scan(t.drop_last());
        if t.last() == '\n' {
            (done.push(strip_cr(cur)), Seq::empty())
        } else {
            (done, cur.push(t.last()))
        }
    }
}

/// A line without the `\r` that ends it, if any.
pub open spec fn strip_cr(line: Seq<char>) -> Seq<char> {
    if line.len() > 0 && line.last() == '\r' {
        line.drop_last()
    } else {
        line
    }
}

/// The lines of `t`, as `str::lines` gives them: split at `\n`, a `\r` before
/// the `\n` removed, and no empty line after a final `\n`.
pub open spec fn lines_of(t: Seq<char>) -> Seq<Seq<char>> {
    let (done, cur) = lines_scan(t);
    if cur.len() > 0 {
        done.push(cur)
    } else {
        done
    }
}

/// The lines of `t`.
pub fn lines(t: &str) -> (out: Vec<Vec<char>>)
    ensures
        out@.len() == lines_of(t@).len(),
        forall|i: int| 0 <= i < out@.len() ==> #[trigger] out@[i]@ == lines_of(t@)[i],
{
    let cs = chars_of(t);
    let mut done: Vec<Vec<char>> = Vec::new();
    let mut cur: Vec<char> = Vec::new();
    let mut i: usize = 0;
    while i < cs.len()
        invariant
            cs@ == t@,
            i <= cs@.len(),
            done@.len() == lines_scan(cs@.take(i as int)).0.len(),
            forall|j: int| 0 <= j < done@.len() ==> #[trigger] done@[j]@ == lines_scan(cs@.take(i as int)).0[j],
            cur@ == lines_scan(cs@.take(i as int)).1,
        decreases cs@.len() - i,
    {
        proof {
            assert(cs@.take((i + 1) as int).drop_last() =~= cs@.take(i as int));
        }
        let c = cs[i];
        if c == '\n' {
            let n = cur.len();
            let line = if n > 0 && cur[n - 1] == '\r' {
                let l = slice_chars(cur.as_slice(), 0, n - 1);
                assert(l@ =~= cur@.drop_last());
                l
            } else {
                cur
            };
            done.push(line);
            cur = Vec::new();
        } else {
            cur.push(c);
        }
        i = i + 1;
    }
    proof {
        assert(cs@.take(cs@.len() as int) =~= cs@);
    }
    if cur.len() > 0 {
        done.push(cur);
    }
    done
}

/// The decimal text of a signed number: a `-` before the digits of a
/// negative one.
pub open spec fn signed_decimal_text(n: int) -> Seq<char> {
    if n < 0 {
        seq!['-'] + decimal_text((-n) as nat)
    } else {
        decimal_text(n as nat)
    }
}

/// The decimal text of `n`.
pub fn signed_decimal_string(n: i64) -> (s: String)
    ensures
        s@ == signed_decimal_text(n as int),
{
    if n < 0 {
        let magnitude: u64 = if n == -9223372036854775807i64 - 1 {
            9223372036854775808u64
        } else {
            (-n) as u64
        };
        let digits = decimal_chars(magnitude);
        let mut out: Vec<char> = Vec::new();
        out.push('-');
        let mut i: usize = 0;
        while i < digits.len()
            invariant
                i <= digits@.len(),
                out@ == seq!['-'] + digits@.take(i as int),
            decreases digits@.len() - i,
        {
            out.push(digits[i]);
            assert(digits@.take(i + 1) =~= digits@.take(i as int).push(digits@[i as int]));
            i = i + 1;
        }
        assert(digits@.take(digits@.len() as int) =~= digits@);
        string_from_chars(out.as_slice())
    } else {
        decimal_string(n as u64)
    }
}

/// Reading `s` left to right with whitespace runs folded: the text so far
/// (words joined by one space) and whether a whitespace run follows a word.
pub open spec fn ws_fold(s: Seq<char>) -> (Seq<char>, bool)
    decreases s.len(),
{
    if s.len() == 0 {
        (Seq::empty(), false)
    } else {
        let (acc, pending) = ws_fold(s.drop_last());
        let c = s.last();
        if is_whitespace(c) {
            (acc, acc.len() > 0)
        } else if pending {
            (acc.push(' ').push(c), false)
        } else {
            (acc.push(c), false)
        }
    }
}

/// The words of `s` (split at whitespace) joined by single spaces.
pub open spec fn normalize_ws(s: Seq<char>) -> Seq<char> {
    ws_fold(s).0
}

/// The words of `cs` joined by single spaces.
pub fn normalize_ws_chars(cs: &[char]) -> (out: Vec<char>)
    ensures
        out@ == normalize_ws(cs@),
{
    let mut out: Vec<char> = Vec::new();
    let mut pending = false;
    let mut i: usize = 0;
    while i < cs.len()
        invariant
            i <= cs@.len(),
            (out@, pending) == ws_fold(cs@.take(i as int)),
        decreases cs@.len() - i,
    {
        let c = cs[i];
        assert(cs@.take((i + 1) as int).drop_last() =~= cs@.take(i as int));
        if char_is_whitespace(c) {
            pending = out.len() > 0;
        } else {
            if pending {
                out.push(' ');
            }
            out.push(c);
            pending = false;
        }
        i = i + 1;
    }
    assert(cs@.take(cs@.len() as int) =~= cs@);
    out
}

/// The characters of an optional string.
pub open spec fn string_opt(o: Option<String>) -> Option<Seq<char>> {
    match o {
        Some(s) => Some(s@),
        None => None,
    }
}

/// A double or single quote.
pub open spec fn is_quote(c: char) -> bool {
    c == '"' || c == '\''
}

/// `s` without its leading quotes.
pub open spec fn strip_start_quotes(s: Seq<char>) -> Seq<char>
    decreases s.len(),
{
    if s.len() > 0 && is_quote(s[0]) {
        strip_start_quotes(s.drop_first())
    } else {
        s
    }
}

/// `s` without its trailing quotes.
pub open spec fn strip_end_quotes(s: Seq<char>) -> Seq<char>
    decreases s.len(),
{
    if s.len() > 0 && is_quote(s.last()) {
        strip_end_quotes(s.drop_last())
    } else {
        s
    }
}

/// `s` without the quotes at either end.
pub open spec fn strip_quotes(s: Seq<char>) -> Seq<char> {
    strip_end_quotes(strip_start_quotes(s))
}

/// `s` without the quotes at either end.
pub fn strip_quotes_chars(s: &[char]) -> (out: Vec<char>)
    ensures
        out@ == strip_quotes(s@),
{
    let mut k: usize = 0;
    assert(s@.skip(0) =~= s@);
    while k < s.len() && (s[k] == '"' || s[k] == '\'')
        invariant
            k <= s@.len(),
            strip_start_quotes(s@.skip(k as int)) == strip_start_quotes(s@),
        decreases s@.len() - k,
    {
        assert(s@.skip(k as int).drop_first() =~= s@.skip(k + 1));
        k = k + 1;
    }
    let ghost rest = s@.skip(k as int);
    assert(strip_start_quotes(rest) == rest) by {
        if rest.len() > 0 {
            assert(rest[0] == s@[k as int]);
        }
    }
    let mut e: usize = s.len();
    assert(rest.take(e - k) =~= rest);
    while e > k && (s[e - 1] == '"' || s[e - 1] == '\'')
        invariant
            k <= e <= s@.len(),
            rest == s@.skip(k as int),
            strip_end_quotes(rest.take(e - k)) == strip_end_quotes(rest),
        decreases e,
    {
        assert(rest.take(e - k).drop_last() =~= rest.take(e - k - 1));
        assert(rest.take(e - k).last() == s@[e - 1]);
        e = e - 1;
    }
    assert(rest.take(e - k) =~= s@.subrange(k as int, e as int));
    assert(rest.take(rest.len() as int) =~= rest);
    assert(strip_end_quotes(rest.take(e - k)) == rest.take(e - k)) by {
        if e > k {
            assert(rest.take(e - k).last() == s@[e - 1]);
        }
    }
    slice_chars(s, k, e)
}

/// The parts joined with `sep` between them.
pub open spec fn join_with(parts: Seq<Seq<char>>, sep: Seq<char>) -> Seq<char>
    decreases parts.len(),
{
    if parts.len() == 0 {
        Seq::empty()
    } else if parts.len() == 1 {
        parts[0]
    } else {
        join_with(parts.drop_last(), sep) + sep + parts.last()
    }
}

/// The parts joined with `.` between them.
pub fn join_dots(parts: &Vec<Vec<char>>) -> (out: Vec<char>)
    ensures
        out@ == join_with(parts@.map_values(|v: Vec<char>| v@), seq!['.']),
{
    let ghost ps = parts@.map_values(|v: Vec<char>| v@);
    if parts.len() == 0 {
        return Vec::new();
    }
    let mut out = slice_chars(parts[0].as_slice(), 0, parts[0].len());
    assert(ps.take(1).drop_last().len() == 0);
    let mut k: usize = 1;
    while k < parts.len()
        invariant
            1 <= k <= parts@.len(),
            ps == parts@.map_values(|v: Vec<char>| v@),
            out@ == join_with(ps.take(k as int), seq!['.']),
        decreases parts@.len() - k,
    {
        out.push('.');
        let part = parts[k].as_slice();
        let mut j: usize = 0;
        let ghost base = out@;
        while j < part.len()
            invariant
                j <= part@.len(),
                out@ == base + part@.take(j as int),
            decreases part@.len() - j,
        {
            out.push(part[j]);
            assert(part@.take((j + 1) as int) =~= part@.take(j as int).push(part@[j as int]));
            j = j + 1;
        }
        assert(part@.take(part@.len() as int) =~= part@);
        assert(ps.take((k + 1) as int).drop_last() =~= ps.take(k as int));
        assert(ps.take((k + 1) as int).last() == part@);
        k = k + 1;
    }
    assert(ps.take(parts@.len() as int) =~= ps);
    out
}

} // verus!
