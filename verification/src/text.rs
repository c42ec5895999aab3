//! Character-sequence primitives shared by the parsers: classification of
//! characters, splitting into lines and fields, searching, and reading
//! unsigned decimal numbers.

use vstd::prelude::*;

verus! {

/// Whether `c` has the Unicode `White_Space` property.
pub open spec fn is_space(c: char) -> bool {
    let u = c as u32;
    ||| 0x09 <= u <= 0x0D
    ||| u == 0x20
    ||| u == 0x85
    ||| u == 0xA0
    ||| u == 0x1680
    ||| 0x2000 <= u <= 0x200A
    ||| u == 0x2028
    ||| u == 0x2029
    ||| u == 0x202F
    ||| u == 0x205F
    ||| u == 0x3000
}

/// Decides whether `c` separates fields.
pub fn is_whitespace(c: char) -> (r: bool)
    ensures
        r == is_space(c),
{
    let u: u32 = c as u32;
    (0x09 <= u && u <= 0x0D) || u == 0x20 || u == 0x85 || u == 0xA0 || u == 0x1680 || (0x2000 <= u
        && u <= 0x200A) || u == 0x2028 || u == 0x2029 || u == 0x202F || u == 0x205F || u == 0x3000
}

/// Whether `c` belongs to one of the Unicode number categories (decimal
/// digit, letter number, other number).
pub uninterp spec fn is_number_char(c: char) -> bool;

/// `char::is_numeric` of the standard library: its answer is taken as the
/// definition of [`is_number_char`]; nothing else is claimed about it.
pub assume_specification[ char::is_numeric ](c: char) -> (r: bool)
    ensures
        r == is_number_char(c),
;

/// `String::push` of the standard library: the string afterwards holds what
/// it held before, followed by the one character pushed.
pub assume_specification[ String::push ](s: &mut String, ch: char)
    ensures
        final(s)@ == old(s)@.push(ch),
;

/// A string of the given characters.
pub fn string_of(chars: &Vec<char>) -> (s: String)
    ensures
        s@ == chars@,
{
    let mut s = String::new();
    let n = chars.len();
    let mut i: usize = 0;
    while i < n
        invariant
            n == chars.len(),
            i <= n,
            s@ == chars@.take(i as int),
        decreases n - i,
    {
        s.push(chars[i]);
        proof {
            assert(chars@.take(i + 1) =~= chars@.take(i as int).push(chars@[i as int]));
        }
        i += 1;
    }
    proof {
        assert(chars@.take(n as int) =~= chars@);
    }
    s
}

/// The characters of `s`, in order.
pub fn chars_of(s: &str) -> (v: Vec<char>)
    ensures
        v@ == s@,
{
    let mut v: Vec<char> = Vec::new();
    for c in it: s.chars()
        invariant
            v@ == it.seq().take(it.index() as int),
    {
        v.push(c);
    }
    v
}

/// The views of a vector of character vectors, element by element.
pub open spec fn views(vs: Seq<Vec<char>>) -> Seq<Seq<char>> {
    vs.map_values(|v: Vec<char>| v@)
}

/// Length of the longest prefix of `s` all of whose characters satisfy
/// `keep`.
pub open spec fn run_len(s: Seq<char>, keep: spec_fn(char) -> bool) -> nat
    decreases s.len(),
{
    if s.len() == 0 || !keep(s[0]) {
        0
    } else {
        1 + run_len(s.drop_first(), keep)
    }
}

/// A run ends inside the sequence, holds only kept characters, and stops
/// at the first character that is not kept.
pub proof fn lemma_run_len(s: Seq<char>, keep: spec_fn(char) -> bool)
    ensures
        run_len(s, keep) <= s.len(),
        forall|i: int| 0 <= i < run_len(s, keep) ==> keep(#[trigger] s[i]),
        run_len(s, keep) < s.len() ==> !keep(s[run_len(s, keep) as int]),
    decreases s.len(),
{
    if s.len() != 0 && keep(s[0]) {
        let rest = s.drop_first();
        lemma_run_len(rest, keep);
        assert forall|i: int| 0 <= i < run_len(s, keep) implies keep(#[trigger] s[i]) by {
            if i > 0 {
                assert(s[i] == rest[i - 1]);
            }
        }
        if run_len(s, keep) < s.len() {
            assert(s[run_len(s, keep) as int] == rest[run_len(rest, keep) as int]);
        }
    }
}

/// The run is the only prefix length with the properties of
/// [`lemma_run_len`].
pub proof fn lemma_run_len_is(s: Seq<char>, keep: spec_fn(char) -> bool, n: nat)
    requires
        n <= s.len(),
        forall|i: int| 0 <= i < n ==> keep(#[trigger] s[i]),
        n < s.len() ==> !keep(s[n as int]),
    ensures
        run_len(s, keep) == n,
    decreases s.len(),
{
    if n > 0 {
        let rest = s.drop_first();
        assert(keep(s[0]));
        assert forall|i: int| 0 <= i < n - 1 implies keep(#[trigger] rest[i]) by {
            assert(rest[i] == s[i + 1]);
        }
        if n - 1 < rest.len() {
            assert(rest[n - 1] == s[n as int]);
        }
        lemma_run_len_is(rest, keep, (n - 1) as nat);
    }
}

/// Characters that belong to a field.
pub open spec fn non_space() -> spec_fn(char) -> bool {
    |c: char| !is_space(c)
}

/// Characters that belong to a line.
pub open spec fn non_newline() -> spec_fn(char) -> bool {
    |c: char| c != '\n'
}

/// Characters that belong to a number as the text tools print it.
pub open spec fn numeric() -> spec_fn(char) -> bool {
    |c: char| is_number_char(c)
}

/// The fields of a line: its maximal runs of characters that are not white
/// space, from left to right.
pub open spec fn fields(s: Seq<char>) -> Seq<Seq<char>>
    decreases s.len(),
    via fields_decreases
{
    if s.len() == 0 {
        Seq::empty()
    } else if is_space(s[0]) {
        fields(s.drop_first())
    } else {
        let n = run_len(s, non_space()) as int;
        seq![s.take(n)] + fields(s.skip(n))
    }
}

#[via_fn]
proof fn fields_decreases(s: Seq<char>) {
    if s.len() != 0 && !is_space(s[0]) {
        lemma_run_len(s, non_space());
    }
}

/// A line without the carriage return that may end it.
pub open spec fn strip_cr(line: Seq<char>) -> Seq<char> {
    if line.len() > 0 && line.last() == '\r' {
        line.drop_last()
    } else {
        line
    }
}

/// The lines of a text. A line ends at a line feed, which is dropped
/// together with a carriage return directly before it; what follows the
/// last line feed is a line of its own unless it is empty.
pub open spec fn lines(s: Seq<char>) -> Seq<Seq<char>>
    decreases s.len(),
    via lines_decreases
{
    if s.len() == 0 {
        Seq::empty()
    } else {
        let n = run_len(s, non_newline()) as int;
        if n == s.len() {
            seq![s]
        } else {
            seq![strip_cr(s.take(n))] + lines(s.skip(n + 1))
        }
    }
}

#[via_fn]
proof fn lines_decreases(s: Seq<char>) {
    lemma_run_len(s, non_newline());
}

/// Splits a line into its fields.
pub fn split_fields(line: &Vec<char>) -> (out: Vec<Vec<char>>)
    ensures
        views(out@) == fields(line@),
{
    let mut out: Vec<Vec<char>> = Vec::new();
    let n = line.len();
    let mut i: usize = 0;
    proof {
        assert(line@.skip(0) =~= line@);
        assert(views(out@) + fields(line@.skip(0)) =~= fields(line@));
    }
    while i < n
        invariant
            n == line.len(),
            i <= n,
            views(out@) + fields(line@.skip(i as int)) == fields(line@),
        decreases n - i,
    {
        if is_whitespace(line[i]) {
            proof {
                assert(line@.skip(i as int).drop_first() =~= line@.skip(i + 1));
            }
            i += 1;
        } else {
            let start = i;
            let mut token: Vec<char> = Vec::new();
            while i < n && !is_whitespace(line[i])
                invariant
                    n == line.len(),
                    start <= i <= n,
                    token@ == line@.subrange(start as int, i as int),
                    forall|k: int| start <= k < i ==> !is_space(#[trigger] line@[k]),
                decreases n - i,
            {
                token.push(line[i]);
                i += 1;
            }
            proof {
                let rest = line@.skip(start as int);
                lemma_run_len_is(rest, non_space(), (i - start) as nat);
                assert(rest.take(i - start) =~= token@);
                assert(rest.skip(i - start) =~= line@.skip(i as int));
                assert(views(out@.push(token)) =~= views(out@).push(token@));
                assert(views(out@).push(token@) + fields(line@.skip(i as int)) =~= views(out@) + (
                seq![token@] + fields(line@.skip(i as int))));
            }
            out.push(token);
        }
    }
    proof {
        assert(views(out@) + Seq::<Seq<char>>::empty() =~= views(out@));
    }
    out
}

/// Splits a text into its lines.
pub fn split_lines(text: &Vec<char>) -> (out: Vec<Vec<char>>)
    ensures
        views(out@) == lines(text@),
{
    let mut out: Vec<Vec<char>> = Vec::new();
    let n = text.len();
    let mut i: usize = 0;
    proof {
        assert(text@.skip(0) =~= text@);
        assert(views(out@) + lines(text@.skip(0)) =~= lines(text@));
    }
    while i < n
        invariant
            n == text.len(),
            i <= n,
            views(out@) + lines(text@.skip(i as int)) == lines(text@),
        decreases n - i,
    {
        let start = i;
        let mut line: Vec<char> = Vec::new();
        while i < n && text[i] != '\n'
            invariant
                n == text.len(),
                start <= i <= n,
                line@ == text@.subrange(start as int, i as int),
                forall|k: int| start <= k < i ==> #[trigger] text@[k] != '\n',
            decreases n - i,
        {
            line.push(text[i]);
            i += 1;
        }
        let ghost rest = text@.skip(start as int);
        let ghost taken = line@;
        proof {
            lemma_run_len_is(rest, non_newline(), (i - start) as nat);
            assert(rest.take(i - start) =~= taken);
        }
        if i == n {
            proof {
                assert(rest =~= taken);
                assert(text@.skip(n as int) =~= Seq::<char>::empty());
                assert(views(out@.push(line)) =~= views(out@).push(taken));
                assert(views(out@).push(taken) + lines(text@.skip(n as int)) =~= views(out@)
                    + seq![taken]);
            }
            out.push(line);
        } else {
            let m = line.len();
            if m > 0 && line[m - 1] == '\r' {
                line.pop();
            }
            proof {
                assert(line@ =~= strip_cr(taken));
                assert(rest.skip(i - start + 1) =~= text@.skip(i + 1));
                assert(views(out@.push(line)) =~= views(out@).push(line@));
                assert(views(out@).push(line@) + lines(text@.skip(i + 1)) =~= views(out@) + (
                seq![line@] + lines(text@.skip(i + 1))));
            }
            out.push(line);
            i += 1;
        }
    }
    proof {
        assert(views(out@) + Seq::<Seq<char>>::empty() =~= views(out@));
    }
    out
}

/// Whether `pat` stands in `s` at position `i`.
pub open spec fn occurs_at(s: Seq<char>, pat: Seq<char>, i: int) -> bool {
    0 <= i && i + pat.len() <= s.len() && s.subrange(i, i + pat.len()) == pat
}

/// Position of the first occurrence of `pat` in `s` at or after `from`.
pub open spec fn find_from(s: Seq<char>, pat: Seq<char>, from: int) -> Option<int>
    decreases s.len() - from + 1,
{
    if from < 0 || from + pat.len() > s.len() {
        None
    } else if occurs_at(s, pat, from) {
        Some(from)
    } else {
        find_from(s, pat, from + 1)
    }
}

/// Position of the first occurrence of `pat` in `s`.
pub open spec fn find(s: Seq<char>, pat: Seq<char>) -> Option<int> {
    find_from(s, pat, 0)
}

/// Whether `pat` occurs somewhere in `s`.
pub open spec fn contains(s: Seq<char>, pat: Seq<char>) -> bool {
    find(s, pat) is Some
}

/// Index of the last occurrence of `c` in `s`, or -1 where there is none.
pub open spec fn last_index_of(s: Seq<char>, c: char) -> int
    decreases s.len(),
{
    if s.len() == 0 {
        -1
    } else if s.last() == c {
        s.len() - 1
    } else {
        last_index_of(s.drop_last(), c)
    }
}

/// What follows the last occurrence of `c` in `s`; all of `s` where `c`
/// does not occur.
pub open spec fn after_last(s: Seq<char>, c: char) -> Seq<char> {
    s.skip(last_index_of(s, c) + 1)
}

/// The fields joined by single spaces.
pub open spec fn join_spaced(parts: Seq<Seq<char>>) -> Seq<char>
    decreases parts.len(),
{
    if parts.len() == 0 {
        Seq::empty()
    } else if parts.len() == 1 {
        parts[0]
    } else {
        join_spaced(parts.drop_last()) + seq![' '] + parts.last()
    }
}

/// Whether `c` is one of the ten decimal digits.
pub open spec fn is_digit(c: char) -> bool {
    '0' <= c <= '9'
}

/// The number a decimal digit stands for; zero for any other character.
pub open spec fn digit_value(c: char) -> nat {
    if is_digit(c) {
        (c as u32 - '0' as u32) as nat
    } else {
        0
    }
}

/// Whether `s` holds decimal digits only.
pub open spec fn all_digits(s: Seq<char>) -> bool {
    forall|i: int| 0 <= i < s.len() ==> is_digit(#[trigger] s[i])
}

/// The number that a sequence of decimal digits denotes.
pub open spec fn decimal_value(s: Seq<char>) -> nat
    decreases s.len(),
{
    if s.len() == 0 {
        0
    } else {
        decimal_value(s.drop_last()) * 10 + digit_value(s.last())
    }
}

/// Reads `s` as an unsigned decimal number no larger than `max`: an
/// optional plus sign followed by one or more decimal digits. Anything
/// else, and any number above `max`, is no number.
pub open spec fn parse_unsigned(s: Seq<char>, max: nat) -> Option<nat> {
    let digits = if s.len() > 0 && s[0] == '+' {
        s.drop_first()
    } else {
        s
    };
    if digits.len() > 0 && all_digits(digits) && decimal_value(digits) <= max {
        Some(decimal_value(digits))
    } else {
        None
    }
}

/// A prefix of a digit sequence denotes no larger a number than the whole.
pub proof fn lemma_decimal_value_prefix(s: Seq<char>, k: int)
    requires
        0 <= k <= s.len(),
    ensures
        decimal_value(s.take(k)) <= decimal_value(s),
    decreases s.len() - k,
{
    if k == s.len() {
        assert(s.take(k) =~= s);
    } else {
        lemma_decimal_value_prefix(s.drop_last(), k);
        assert(s.drop_last().take(k) =~= s.take(k));
    }
}

/// Copies the characters of `s` from `from` up to `to`.
pub fn copy_range(s: &Vec<char>, from: usize, to: usize) -> (r: Vec<char>)
    requires
        from <= to <= s.len(),
    ensures
        r@ == s@.subrange(from as int, to as int),
{
    let mut r: Vec<char> = Vec::new();
    let mut i = from;
    while i < to
        invariant
            from <= i <= to <= s.len(),
            r@ == s@.subrange(from as int, i as int),
        decreases to - i,
    {
        r.push(s[i]);
        i += 1;
    }
    r
}

/// Tests whether `pat` stands in `s` at position `i`.
pub fn matches_at(s: &Vec<char>, pat: &Vec<char>, i: usize) -> (r: bool)
    requires
        i + pat.len() <= s.len(),
    ensures
        r == occurs_at(s@, pat@, i as int),
{
    let m = pat.len();
    let mut k: usize = 0;
    while k < m
        invariant
            m == pat.len(),
            i + m <= s.len(),
            k <= m,
            forall|j: int| 0 <= j < k ==> s@[i + j] == #[trigger] pat@[j],
        decreases m - k,
    {
        if s[i + k] != pat[k] {
            proof {
                assert(s@.subrange(i as int, i + m)[k as int] != pat@[k as int]);
            }
            return false;
        }
        k += 1;
    }
    proof {
        assert(s@.subrange(i as int, i + m) =~= pat@);
    }
    true
}

/// Tests whether `s` begins with `pat`.
pub fn starts_with(s: &Vec<char>, pat: &Vec<char>) -> (r: bool)
    ensures
        r == pat@.is_prefix_of(s@),
{
    if pat.len() > s.len() {
        false
    } else {
        matches_at(s, pat, 0)
    }
}

/// Finds the first occurrence of `pat` in `s`.
pub fn find_in(s: &Vec<char>, pat: &Vec<char>) -> (r: Option<usize>)
    ensures
        match r {
            Some(i) => find(s@, pat@) == Some(i as int) && i + pat.len() <= s.len(),
            None => find(s@, pat@) is None,
        },
{
    let n = s.len();
    let m = pat.len();
    if m > n {
        return None;
    }
    let last = n - m;
    let mut i: usize = 0;
    loop
        invariant
            n == s.len(),
            m == pat.len(),
            last == n - m,
            i <= last,
            find(s@, pat@) == find_from(s@, pat@, i as int),
        decreases last - i,
    {
        if matches_at(s, pat, i) {
            return Some(i);
        }
        if i == last {
            return None;
        }
        i += 1;
    }
}

/// The last occurrence of `c` is the one that no other follows.
pub proof fn lemma_last_index_of(s: Seq<char>, c: char, i: int)
    requires
        0 <= i <= s.len(),
        forall|k: int| i <= k < s.len() ==> #[trigger] s[k] != c,
        i > 0 ==> s[i - 1] == c,
    ensures
        last_index_of(s, c) == i - 1,
    decreases s.len() - i,
{
    if i < s.len() {
        let front = s.drop_last();
        assert forall|k: int| i <= k < front.len() implies #[trigger] front[k] != c by {
            assert(front[k] == s[k]);
        }
        lemma_last_index_of(front, c, i);
    }
}

/// Copies what follows the last occurrence of `c` in `s`.
pub fn suffix_after_last(s: &Vec<char>, c: char) -> (r: Vec<char>)
    ensures
        r@ == after_last(s@, c),
{
    let n = s.len();
    let mut i: usize = n;
    while i > 0 && s[i - 1] != c
        invariant
            n == s.len(),
            i <= n,
            forall|k: int| i <= k < n ==> #[trigger] s@[k] != c,
        decreases i,
    {
        i -= 1;
    }
    proof {
        lemma_last_index_of(s@, c, i as int);
    }
    copy_range(s, i, n)
}

/// Counts the characters of the number that starts at `from`.
pub fn numeric_run(s: &Vec<char>, from: usize) -> (n: usize)
    requires
        from <= s.len(),
    ensures
        n == run_len(s@.skip(from as int), numeric()),
        from + n <= s.len(),
{
    let len = s.len();
    let mut i: usize = from;
    while i < len && s[i].is_numeric()
        invariant
            len == s.len(),
            from <= i <= len,
            forall|k: int| from <= k < i ==> is_number_char(#[trigger] s@[k]),
        decreases len - i,
    {
        i += 1;
    }
    proof {
        lemma_run_len_is(s@.skip(from as int), numeric(), (i - from) as nat);
    }
    i - from
}

/// Joins the fields from index `from` on with single spaces.
pub fn join_fields(parts: &Vec<Vec<char>>, from: usize) -> (r: Vec<char>)
    requires
        from <= parts.len(),
    ensures
        r@ == join_spaced(views(parts@).skip(from as int)),
{
    let mut r: Vec<char> = Vec::new();
    let n = parts.len();
    let mut i: usize = from;
    let ghost all = views(parts@).skip(from as int);
    proof {
        assert(all.take(0) =~= Seq::<Seq<char>>::empty());
    }
    while i < n
        invariant
            n == parts.len(),
            from <= i <= n,
            all == views(parts@).skip(from as int),
            r@ == join_spaced(all.take(i - from)),
        decreases n - i,
    {
        if i > from {
            r.push(' ');
        }
        let part = &parts[i];
        let m = part.len();
        let ghost before = r@;
        let mut k: usize = 0;
        while k < m
            invariant
                m == part.len(),
                k <= m,
                r@ == before + part@.take(k as int),
            decreases m - k,
        {
            r.push(part[k]);
            k += 1;
        }
        proof {
            let next = all.take(i + 1 - from);
            assert(part@.take(m as int) =~= part@);
            assert(next.drop_last() =~= all.take(i - from));
            assert(next.last() == part@);
            if i == from {
                assert(r@ =~= part@);
            } else {
                assert(r@ =~= join_spaced(all.take(i - from)) + seq![' '] + part@);
            }
        }
        i += 1;
    }
    proof {
        assert(all.take(n - from) =~= all);
    }
    r
}

/// Reads an unsigned decimal number no larger than `max`.
pub fn read_unsigned(s: &Vec<char>, max: u64) -> (r: Option<u64>)
    ensures
        match r {
            Some(n) => parse_unsigned(s@, max as nat) == Some(n as nat),
            None => parse_unsigned(s@, max as nat) is None,
        },
{
    let n = s.len();
    let start: usize = if n > 0 && s[0] == '+' {
        1
    } else {
        0
    };
    let ghost digits = s@.skip(start as int);
    proof {
        if start == 1 {
            assert(digits =~= s@.drop_first());
        } else {
            assert(digits =~= s@);
        }
    }
    if start == n {
        return None;
    }
    let mut acc: u64 = 0;
    let mut i: usize = start;
    proof {
        assert(digits.take(0) =~= Seq::<char>::empty());
    }
    while i < n
        invariant
            n == s.len(),
            start <= i <= n,
            digits == s@.skip(start as int),
            digits == if s@.len() > 0 && s@[0] == '+' {
                s@.drop_first()
            } else {
                s@
            },
            all_digits(digits.take(i - start)),
            acc == decimal_value(digits.take(i - start)),
            acc <= max,
        decreases n - i,
    {
        let c = s[i];
        let ghost next = digits.take(i + 1 - start);
        proof {
            assert(next.drop_last() =~= digits.take(i - start));
            assert(next.last() == c);
        }
        if !('0' <= c && c <= '9') {
            proof {
                assert(!is_digit(digits[i - start]));
            }
            return None;
        }
        let d: u64 = (c as u32 - '0' as u32) as u64;
        if d > max || acc > (max - d) / 10 {
            proof {
                assert(decimal_value(next) > max);
                lemma_decimal_value_prefix(digits, i + 1 - start);
            }
            return None;
        }
        acc = acc * 10 + d;
        proof {
            assert forall|j: int| 0 <= j < next.len() implies is_digit(#[trigger] next[j]) by {
                if j < i - start {
                    assert(next[j] == digits.take(i - start)[j]);
                }
            }
        }
        i += 1;
    }
    proof {
        assert(digits.take(n - start) =~= digits);
    }
    Some(acc)
}

} // verus!
