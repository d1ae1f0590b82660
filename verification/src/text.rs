//! Text handling for the mesh format: splitting a line into its parts,
//! reading an index and writing a number.

use vstd::prelude::*;
use vstd::string::*;

verus! {

/// Whether `c` is white space to `char::is_whitespace`.
pub uninterp spec fn is_space(c: char) -> bool;

/// What `str::parse::<usize>` has to say against a text that it refuses.
pub uninterp spec fn index_complaint(s: Seq<char>) -> Seq<char>;

/// The views of a sequence of string slices.
pub open spec fn texts(parts: Seq<&str>) -> Seq<Seq<char>> {
    Seq::new(parts.len(), |i: int| parts[i]@)
}

/// The view of an optional string slice.
pub open spec fn opt_text(part: Option<&str>) -> Option<Seq<char>> {
    match part {
        Some(s) => Some(s@),
        None => None,
    }
}

/// The part at position `k`, where there is one.
pub open spec fn piece(parts: Seq<Seq<char>>, k: int) -> Option<Seq<char>> {
    if 0 <= k < parts.len() {
        Some(parts[k])
    } else {
        None
    }
}

/// The first `count` items of `all`, or all of them where they are fewer.
pub open spec fn first<A>(all: Seq<A>, count: int) -> Seq<A> {
    if all.len() <= count {
        all
    } else {
        all.take(count)
    }
}

/// A result with the view of its error text.
pub open spec fn outcome<A>(r: Result<A, String>) -> Result<A, Seq<char>> {
    match r {
        Ok(a) => Ok(a),
        Err(why) => Err(why@),
    }
}

/// The first position at or after `i` that holds `sep`, or the length of `s`.
pub open spec fn find_from(s: Seq<char>, sep: char, i: int) -> int
    decreases s.len() - i,
{
    if 0 <= i < s.len() && s[i] != sep {
        find_from(s, sep, i + 1)
    } else {
        i
    }
}

/// Whether position `i` is marked as a gap. A position that `gaps` does not
/// reach is none.
pub open spec fn is_gap(gaps: Seq<bool>, i: int) -> bool {
    0 <= i < gaps.len() && gaps[i]
}

/// The first position at or after `i` that is a gap, or `len`.
pub open spec fn run_end(len: int, gaps: Seq<bool>, i: int) -> int
    decreases len - i,
{
    if 0 <= i < len && !is_gap(gaps, i) {
        run_end(len, gaps, i + 1)
    } else {
        i
    }
}

/// The maximal runs of `s` without a gap from position `i` on, in order.
pub open spec fn runs_from(s: Seq<char>, gaps: Seq<bool>, i: int) -> Seq<Seq<char>>
    decreases s.len() - i,
    via runs_from_decreases
{
    if 0 <= i < s.len() {
        if is_gap(gaps, i) {
            runs_from(s, gaps, i + 1)
        } else {
            let end = run_end(s.len() as int, gaps, i + 1);
            seq![s.subrange(i, end)] + runs_from(s, gaps, end)
        }
    } else {
        Seq::empty()
    }
}

#[via_fn]
proof fn runs_from_decreases(s: Seq<char>, gaps: Seq<bool>, i: int) {
    if 0 <= i < s.len() {
        lemma_run_end_bounds(s.len() as int, gaps, i + 1);
    }
}

/// Which positions of `s` hold white space.
pub open spec fn spaces_of(s: Seq<char>) -> Seq<bool> {
    Seq::new(s.len(), |i: int| is_space(s[i]))
}

/// The words of `s`: its maximal runs without white space.
pub open spec fn words_of(s: Seq<char>) -> Seq<Seq<char>> {
    runs_from(s, spaces_of(s), 0)
}

/// The parts of `s` from position `i` on that `sep` separates; there is
/// always at least one, and a part may be empty.
pub open spec fn fields_from(s: Seq<char>, sep: char, i: int) -> Seq<Seq<char>>
    decreases s.len() - i,
    via fields_from_decreases
{
    let end = find_from(s, sep, i);
    if 0 <= i <= end < s.len() {
        seq![s.subrange(i, end)] + fields_from(s, sep, end + 1)
    } else {
        seq![s.subrange(i, end)]
    }
}

#[via_fn]
proof fn fields_from_decreases(s: Seq<char>, sep: char, i: int) {
}

/// The parts of `s` that `sep` separates.
pub open spec fn fields_of(s: Seq<char>, sep: char) -> Seq<Seq<char>> {
    fields_from(s, sep, 0)
}

/// `run_end` stays between its start and the end of the text, stops on a
/// gap, and passes none.
pub proof fn lemma_run_end_bounds(len: int, gaps: Seq<bool>, i: int)
    requires
        0 <= i <= len,
    ensures
        i <= run_end(len, gaps, i) <= len,
        run_end(len, gaps, i) < len ==> is_gap(gaps, run_end(len, gaps, i)),
        forall|k: int| i <= k < run_end(len, gaps, i) ==> !is_gap(gaps, k),
    decreases len - i,
{
    if i < len && !is_gap(gaps, i) {
        lemma_run_end_bounds(len, gaps, i + 1);
    }
}

/// A word is never empty and holds no white space.
pub proof fn lemma_words_hold_no_space(s: Seq<char>)
    ensures
        forall|w: int|
            0 <= w < words_of(s).len() ==> {
                let word = #[trigger] words_of(s)[w];
                word.len() > 0 && forall|k: int| 0 <= k < word.len() ==> !is_space(word[k])
            },
{
    lemma_runs_hold_no_space(s, 0);
}

/// A run between white space is never empty and holds no white space.
proof fn lemma_runs_hold_no_space(s: Seq<char>, i: int)
    requires
        0 <= i <= s.len(),
    ensures
        forall|w: int|
            0 <= w < runs_from(s, spaces_of(s), i).len() ==> {
                let word = #[trigger] runs_from(s, spaces_of(s), i)[w];
                word.len() > 0 && forall|k: int| 0 <= k < word.len() ==> !is_space(word[k])
            },
    decreases s.len() - i,
{
    let gaps = spaces_of(s);
    if i < s.len() {
        if is_gap(gaps, i) {
            lemma_runs_hold_no_space(s, i + 1);
            assert(runs_from(s, gaps, i) == runs_from(s, gaps, i + 1));
        } else {
            let end = run_end(s.len() as int, gaps, i + 1);
            lemma_run_end_bounds(s.len() as int, gaps, i + 1);
            lemma_runs_hold_no_space(s, end);
            let first = s.subrange(i, end);
            let rest = runs_from(s, gaps, end);
            assert(runs_from(s, gaps, i) == seq![first] + rest);
            assert forall|k: int| 0 <= k < first.len() implies !is_space(first[k]) by {
                assert(!is_gap(gaps, i + k));
            }
            assert forall|w: int| 0 <= w < runs_from(s, gaps, i).len() implies {
                let word = #[trigger] runs_from(s, gaps, i)[w];
                word.len() > 0 && forall|k: int| 0 <= k < word.len() ==> !is_space(word[k])
            } by {
                if w == 0 {
                    assert(runs_from(s, gaps, i)[0] == first);
                } else {
                    assert(runs_from(s, gaps, i)[w] == rest[w - 1]);
                }
            }
        }
    } else {
        assert(runs_from(s, gaps, i).len() == 0);
    }
}

/// No part holds the separator.
pub proof fn lemma_fields_hold_no_separator(s: Seq<char>, sep: char, i: int)
    requires
        0 <= i <= s.len(),
    ensures
        fields_from(s, sep, i).len() >= 1,
        forall|f: int|
            0 <= f < fields_from(s, sep, i).len() ==> {
                let part = #[trigger] fields_from(s, sep, i)[f];
                forall|k: int| 0 <= k < part.len() ==> part[k] != sep
            },
    decreases s.len() - i,
{
    let end = find_from(s, sep, i);
    lemma_find_from_bounds(s, sep, i);
    let first = s.subrange(i, end);
    if end < s.len() {
        lemma_fields_hold_no_separator(s, sep, end + 1);
        let rest = fields_from(s, sep, end + 1);
        assert(fields_from(s, sep, i) == seq![first] + rest);
        assert forall|f: int| 0 <= f < fields_from(s, sep, i).len() implies {
            let part = #[trigger] fields_from(s, sep, i)[f];
            forall|k: int| 0 <= k < part.len() ==> part[k] != sep
        } by {
            if f == 0 {
                assert(fields_from(s, sep, i)[0] == first);
            } else {
                assert(fields_from(s, sep, i)[f] == rest[f - 1]);
            }
        }
    } else {
        assert(fields_from(s, sep, i) == seq![first]);
    }
}

/// `find_from` stays between its start and the end of the text, and stops
/// on the separator.
pub proof fn lemma_find_from_bounds(s: Seq<char>, sep: char, i: int)
    requires
        0 <= i <= s.len(),
    ensures
        i <= find_from(s, sep, i) <= s.len(),
        find_from(s, sep, i) < s.len() ==> s[find_from(s, sep, i)] == sep,
        forall|k: int| i <= k < find_from(s, sep, i) ==> s[k] != sep,
    decreases s.len() - i,
{
    if i < s.len() && s[i] != sep {
        lemma_find_from_bounds(s, sep, i + 1);
    }
}

/// Calls `char::is_whitespace`: whether `c` has Unicode's White_Space
/// property. The contract only names the answer.
#[verifier::external_body]
fn is_whitespace(c: char) -> (b: bool)
    ensures
        b == is_space(c),
{
    c.is_whitespace()
}

/// The position of the first `sep` in `s` at or after `from`, or the length
/// of `s` in characters where there is none.
pub fn find(s: &str, sep: char, from: usize) -> (end: usize)
    requires
        from <= s@.len(),
    ensures
        end == find_from(s@, sep, from as int),
        from <= end <= s@.len(),
        end < s@.len() ==> s@[end as int] == sep,
        forall|k: int| from <= k < end ==> s@[k] != sep,
{
    proof {
        lemma_find_from_bounds(s@, sep, from as int);
    }
    let n = s.unicode_len();
    let mut j = from;
    while j < n && s.get_char(j) != sep
        invariant
            n == s@.len(),
            from <= j <= n,
            find_from(s@, sep, j as int) == find_from(s@, sep, from as int),
        decreases n - j,
    {
        j += 1;
    }
    j
}

/// Marks the positions of `s` that hold white space.
pub fn white_space(s: &str) -> (gaps: Vec<bool>)
    ensures
        gaps@ == spaces_of(s@),
{
    let n = s.unicode_len();
    let mut gaps: Vec<bool> = Vec::new();
    let mut i: usize = 0;
    while i < n
        invariant
            n == s@.len(),
            i <= n,
            gaps@.len() == i,
            forall|k: int| 0 <= k < i ==> gaps@[k] == is_space(s@[k]),
        decreases n - i,
    {
        gaps.push(is_whitespace(s.get_char(i)));
        i += 1;
    }
    assert(gaps@ =~= spaces_of(s@));
    gaps
}

/// Splits `s` into its maximal runs without a gap, in order, where `gaps`
/// marks the positions that are gaps.
pub fn runs<'a>(s: &'a str, gaps: &Vec<bool>) -> (out: Vec<&'a str>)
    ensures
        texts(out@) == runs_from(s@, gaps@, 0),
{
    let n = s.unicode_len();
    let marked = gaps.len();
    let mut out: Vec<&str> = Vec::new();
    let mut i: usize = 0;
    assert(texts(out@) + runs_from(s@, gaps@, 0) =~= runs_from(s@, gaps@, 0));
    while i < n
        invariant
            n == s@.len(),
            marked == gaps@.len(),
            i <= n,
            texts(out@) + runs_from(s@, gaps@, i as int) == runs_from(s@, gaps@, 0),
        decreases n - i,
    {
        if i < marked && gaps[i] {
            i += 1;
        } else {
            let mut j = i + 1;
            while j < n && !(j < marked && gaps[j])
                invariant
                    n == s@.len(),
                    marked == gaps@.len(),
                    i < j <= n,
                    run_end(n as int, gaps@, j as int) == run_end(n as int, gaps@, i + 1),
                decreases n - j,
            {
                j += 1;
            }
            let word = s.substring_char(i, j);
            let ghost before = out@;
            out.push(word);
            proof {
                assert(texts(out@) =~= texts(before) + seq![word@]);
                assert(texts(before) + (seq![word@] + runs_from(s@, gaps@, j as int)) =~= texts(
                    out@,
                ) + runs_from(s@, gaps@, j as int));
            }
            i = j;
        }
    }
    assert(texts(out@) + runs_from(s@, gaps@, n as int) =~= texts(out@));
    out
}

/// Splits `s` into its words, as `str::split_whitespace` does: the maximal
/// runs of characters that are not white space, in order.
pub fn words(s: &str) -> (out: Vec<&str>)
    ensures
        texts(out@) == words_of(s@),
{
    let gaps = white_space(s);
    runs(s, &gaps)
}

/// Splits `s` at each `sep`, as `str::split` does: there is at least one
/// part, and a part may be empty.
pub fn fields(s: &str, sep: char) -> (out: Vec<&str>)
    ensures
        texts(out@) == fields_of(s@, sep),
        out@.len() >= 1,
{
    let n = s.unicode_len();
    let mut out: Vec<&str> = Vec::new();
    let mut i: usize = 0;
    assert(texts(out@) + fields_from(s@, sep, 0) =~= fields_of(s@, sep));
    loop
        invariant_except_break
            n == s@.len(),
            i <= n,
            texts(out@) + fields_from(s@, sep, i as int) == fields_of(s@, sep),
        ensures
            texts(out@) == fields_of(s@, sep),
            out@.len() >= 1,
        decreases n - i,
    {
        let end = find(s, sep, i);
        let part = s.substring_char(i, end);
        let ghost before = out@;
        out.push(part);
        proof {
            assert(texts(out@) =~= texts(before) + seq![part@]);
        }
        if end < n {
            proof {
                assert(texts(before) + (seq![part@] + fields_from(s@, sep, end + 1)) =~= texts(
                    out@,
                ) + fields_from(s@, sep, end + 1));
            }
            i = end + 1;
        } else {
            break ;
        }
    }
    out
}

/// Splits `s` at its first `sep`, as `str::split_once` does: what stands
/// before it and what stands after it, or `None` where `s` holds no `sep`.
pub fn split_once(s: &str, sep: char) -> (r: Option<(&str, &str)>)
    ensures
        match r {
            Some((head, tail)) => {
                let at = find_from(s@, sep, 0);
                &&& at < s@.len()
                &&& head@ == s@.subrange(0, at)
                &&& tail@ == s@.subrange(at + 1, s@.len() as int)
            },
            None => find_from(s@, sep, 0) == s@.len(),
        },
{
    let n = s.unicode_len();
    let at = find(s, sep, 0);
    if at < n {
        Some((s.substring_char(0, at), s.substring_char(at + 1, n)))
    } else {
        None
    }
}

/// The part at position `k`, where there is one.
pub fn part_at<'a>(parts: &Vec<&'a str>, k: usize) -> (part: Option<&'a str>)
    ensures
        opt_text(part) == piece(texts(parts@), k as int),
{
    if k < parts.len() {
        Some(parts[k])
    } else {
        None
    }
}

/// The first `count` parts, or all of them where they are fewer.
pub fn leading<'a>(parts: Vec<&'a str>, count: usize) -> (out: Vec<&'a str>)
    ensures
        out@ == first(parts@, count as int),
{
    let mut out = parts;
    assert(out@ =~= parts@.take(out@.len() as int));
    while out.len() > count
        invariant
            out@.len() <= parts@.len(),
            out@.len() >= count || out@.len() == parts@.len(),
            out@ == parts@.take(out@.len() as int),
        decreases out@.len(),
    {
        out.pop();
    }
    proof {
        if parts@.len() <= count {
            assert(out@ =~= parts@);
        }
    }
    out
}

/// Whether two texts hold the same characters.
pub fn same_text(a: &str, b: &str) -> (same: bool)
    ensures
        same == (a@ == b@),
{
    let n = a.unicode_len();
    if n != b.unicode_len() {
        return false;
    }
    let mut i: usize = 0;
    while i < n
        invariant
            n == a@.len(),
            n == b@.len(),
            i <= n,
            forall|k: int| 0 <= k < i ==> a@[k] == b@[k],
        decreases n - i,
    {
        if a.get_char(i) != b.get_char(i) {
            return false;
        }
        i += 1;
    }
    assert(a@ =~= b@);
    true
}

/// Whether `c` is one of the ten decimal digits.
pub open spec fn is_digit(c: char) -> bool {
    c == '0' || c == '1' || c == '2' || c == '3' || c == '4' || c == '5' || c == '6' || c == '7'
        || c == '8' || c == '9'
}

/// The decimal digit that stands for `d`, where `d` is under ten.
pub open spec fn digit_char(d: nat) -> char {
    seq!['0', '1', '2', '3', '4', '5', '6', '7', '8', '9'][d as int]
}

/// The number that the digit `c` stands for.
pub open spec fn digit_value(c: char) -> nat {
    if c == '1' {
        1
    } else if c == '2' {
        2
    } else if c == '3' {
        3
    } else if c == '4' {
        4
    } else if c == '5' {
        5
    } else if c == '6' {
        6
    } else if c == '7' {
        7
    } else if c == '8' {
        8
    } else if c == '9' {
        9
    } else {
        0
    }
}

/// The number that a run of decimal digits stands for.
pub open spec fn decimal_value(s: Seq<char>) -> nat
    decreases s.len(),
{
    if s.len() == 0 {
        0
    } else {
        decimal_value(s.drop_last()) * 10 + digit_value(s.last())
    }
}

/// `n` written in decimal digits, without leading zeros.
pub open spec fn decimal(n: nat) -> Seq<char>
    decreases n,
{
    if n < 10 {
        seq![digit_char(n)]
    } else {
        decimal(n / 10).push(digit_char(n % 10))
    }
}

/// What is left of `s` once one leading plus sign is gone.
pub open spec fn unsigned_part(s: Seq<char>) -> Seq<char> {
    if s.len() > 0 && s[0] == '+' {
        s.subrange(1, s.len() as int)
    } else {
        s
    }
}

/// The index that `s` stands for: at most one plus sign, then one decimal
/// digit or more, of a value that a `usize` holds. `None` for any other
/// text.
pub open spec fn index_value(s: Seq<char>) -> Option<usize> {
    let digits = unsigned_part(s);
    if digits.len() > 0 && (forall|i: int| 0 <= i < digits.len() ==> is_digit(#[trigger] digits[i]))
        && decimal_value(digits) <= usize::MAX {
        Some(decimal_value(digits) as usize)
    } else {
        None
    }
}

/// A digit stands for the number that it is written for.
pub proof fn lemma_digit_round_trip(d: nat)
    requires
        d < 10,
    ensures
        is_digit(digit_char(d)),
        digit_value(digit_char(d)) == d,
{
}

/// A number written in decimal digits reads back as itself.
pub proof fn lemma_decimal_round_trip(n: nat)
    ensures
        decimal(n).len() > 0,
        forall|i: int| 0 <= i < decimal(n).len() ==> is_digit(#[trigger] decimal(n)[i]),
        decimal_value(decimal(n)) == n,
        n <= usize::MAX ==> index_value(decimal(n)) == Some(n as usize),
    decreases n,
{
    if n < 10 {
        lemma_digit_round_trip(n);
        let text = decimal(n);
        assert(text.drop_last() =~= Seq::<char>::empty());
        assert(decimal_value(text.drop_last()) == 0);
    } else {
        lemma_decimal_round_trip(n / 10);
        lemma_digit_round_trip(n % 10);
        let text = decimal(n);
        assert(text.drop_last() =~= decimal(n / 10));
        assert(text.last() == digit_char(n % 10));
    }
    assert(is_digit(decimal(n)[0]));
    assert(unsigned_part(decimal(n)) == decimal(n));
}

/// Calls `str::parse::<usize>`. It accepts an optional plus sign followed
/// by decimal digits whose value fits, and returns that value; of any other
/// text the contract only names the complaint that comes back.
#[verifier::external_body]
pub(crate) fn parse_index(s: &str) -> (r: Result<usize, String>)
    ensures
        match index_value(s@) {
            Some(n) => r == Ok::<usize, String>(n),
            None => r is Err && r->Err_0@ == index_complaint(s@),
        },
{
    match s.parse::<usize>() {
        Ok(n) => Ok(n),
        Err(e) => Err(e.to_string()),
    }
}

/// Calls `usize::to_string`: `n` in decimal digits.
#[verifier::external_body]
pub(crate) fn show_number(n: usize) -> (s: String)
    ensures
        s@ == decimal(n as nat),
{
    n.to_string()
}

/// `head` followed by `tail`.
pub fn join(head: &str, tail: &str) -> (s: String)
    ensures
        s@ == head@ + tail@,
{
    String::from_str(head).concat(tail)
}

} // verus!
