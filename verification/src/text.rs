//! Character and string helpers shared by the board printer, move notation
//! and the UCI line parser: decimal formatting, string equality, whitespace
//! tokenizing, integer parsing, and trimming.
use vstd::prelude::*;

verus! {

/// The whitespace alphabet of engine output lines.
pub open spec fn is_space(c: char) -> bool {
    c == ' ' || c == '\t' || c == '\r' || c == '\n'
}

/// Checks a character against the whitespace alphabet.
pub fn space_char(c: char) -> (r: bool)
    ensures
        r == is_space(c),
{
    c == ' ' || c == '\t' || c == '\r' || c == '\n'
}

/// The decimal digit character for a value below ten.
pub open spec fn digit_char(d: nat) -> char {
    if d == 0 {
        '0'
    } else if d == 1 {
        '1'
    } else if d == 2 {
        '2'
    } else if d == 3 {
        '3'
    } else if d == 4 {
        '4'
    } else if d == 5 {
        '5'
    } else if d == 6 {
        '6'
    } else if d == 7 {
        '7'
    } else if d == 8 {
        '8'
    } else {
        '9'
    }
}

/// The decimal rendering of a natural number, most significant digit first.
pub open spec fn spec_digits(n: nat) -> Seq<char>
    decreases n,
{
    if n < 10 {
        seq![digit_char(n)]
    } else {
        spec_digits(n / 10).push(digit_char(n % 10))
    }
}

/// The numeric value of a decimal digit character, or ten if it is none.
pub open spec fn char_digit(c: char) -> nat {
    if c == '0' {
        0
    } else if c == '1' {
        1
    } else if c == '2' {
        2
    } else if c == '3' {
        3
    } else if c == '4' {
        4
    } else if c == '5' {
        5
    } else if c == '6' {
        6
    } else if c == '7' {
        7
    } else if c == '8' {
        8
    } else if c == '9' {
        9
    } else {
        10
    }
}

pub open spec fn is_digit(c: char) -> bool {
    char_digit(c) < 10
}

/// The decimal digit character for a value below ten, as a `char`.
pub fn digit_char_of(d: u64) -> (r: char)
    requires
        d < 10,
    ensures
        r == digit_char(d as nat),
{
    if d == 0 {
        '0'
    } else if d == 1 {
        '1'
    } else if d == 2 {
        '2'
    } else if d == 3 {
        '3'
    } else if d == 4 {
        '4'
    } else if d == 5 {
        '5'
    } else if d == 6 {
        '6'
    } else if d == 7 {
        '7'
    } else if d == 8 {
        '8'
    } else {
        '9'
    }
}

/// Relies on std's `String::push`: appends exactly one character.
#[verifier::external_body]
pub fn push_char(s: &mut String, c: char)
    ensures
        final(s)@ == old(s)@.push(c),
{
    s.push(c)
}

fn digit_str(d: u64) -> (r: &'static str)
    requires
        d < 10,
    ensures
        r@ == seq![digit_char(d as nat)],
{
    proof {
        reveal_strlit("0");
        reveal_strlit("1");
        reveal_strlit("2");
        reveal_strlit("3");
        reveal_strlit("4");
        reveal_strlit("5");
        reveal_strlit("6");
        reveal_strlit("7");
        reveal_strlit("8");
        reveal_strlit("9");
    }
    if d == 0 {
        "0"
    } else if d == 1 {
        "1"
    } else if d == 2 {
        "2"
    } else if d == 3 {
        "3"
    } else if d == 4 {
        "4"
    } else if d == 5 {
        "5"
    } else if d == 6 {
        "6"
    } else if d == 7 {
        "7"
    } else if d == 8 {
        "8"
    } else {
        "9"
    }
}

/// Renders a number in decimal, as `u64::to_string` would.
pub fn u64_to_string(n: u64) -> (r: String)
    ensures
        r@ == spec_digits(n as nat),
    decreases n,
{
    if n < 10 {
        let mut s = String::new();
        let d = digit_str(n);
        s.append(d);
        assert(s@ =~= spec_digits(n as nat));
        s
    } else {
        let mut s = u64_to_string(n / 10);
        let d = digit_str(n % 10);
        s.append(d);
        assert(s@ =~= spec_digits(n as nat));
        s
    }
}

/// Decides whether two strings hold the same characters.
pub fn eq_str(a: &str, b: &str) -> (r: bool)
    ensures
        r == (a@ == b@),
{
    let la = a.unicode_len();
    let lb = b.unicode_len();
    if la != lb {
        assert(a@.len() != b@.len());
        return false;
    }
    let mut i: usize = 0;
    while i < la
        invariant
            la == a@.len(),
            la == b@.len(),
            i <= la,
            forall|k: int| 0 <= k < i ==> a@[k] == b@[k],
        decreases la - i,
    {
        if a.get_char(i) != b.get_char(i) {
            return false;
        }
        i = i + 1;
    }
    proof {
        assert(a@ =~= b@);
    }
    true
}

/// Decides whether a string holds a given character.
pub fn contains_char(s: &str, c: char) -> (r: bool)
    ensures
        r == s@.contains(c),
{
    let len = s.unicode_len();
    let mut i: usize = 0;
    while i < len
        invariant
            len == s@.len(),
            i <= len,
            forall|k: int| 0 <= k < i ==> s@[k] != c,
        decreases len - i,
    {
        if s.get_char(i) == c {
            assert(s@.contains(c));
            return true;
        }
        i = i + 1;
    }
    assert(!s@.contains(c)) by {
        if s@.contains(c) {
            let k = choose|k: int| 0 <= k < s@.len() && s@[k] == c;
            assert(s@[k] != c);
        }
    }
    false
}

/// Whether `s` holds `pat` as a contiguous run of characters.
pub open spec fn spec_contains_seq(s: Seq<char>, pat: Seq<char>) -> bool {
    exists|i: int|
        0 <= i && i + pat.len() <= s.len() && #[trigger] s.subrange(i, i + pat.len()) == pat
}

/// Decides whether `s` holds `pat` as a substring.
pub fn contains_sub(s: &str, pat: &str) -> (r: bool)
    ensures
        r == spec_contains_seq(s@, pat@),
{
    let n = s.unicode_len();
    let m = pat.unicode_len();
    if m > n {
        return false;
    }
    if m == 0 {
        assert(s@.subrange(0, 0 + pat@.len() as int) =~= pat@);
        return true;
    }
    let mut i: usize = 0;
    while i <= n - m
        invariant
            n == s@.len(),
            m == pat@.len(),
            0 < m <= n,
            i <= n - m + 1,
            forall|k: int| 0 <= k < i ==> #[trigger] s@.subrange(k, k + m) != pat@,
        decreases n - i,
    {
        let sub = s.substring_char(i, i + m);
        if eq_str(sub, pat) {
            assert(spec_contains_seq(s@, pat@));
            return true;
        }
        i = i + 1;
    }
    false
}

/// The first position at or after `i` that ends a token: the string's end or
/// a whitespace character.
pub open spec fn spec_token_end(s: Seq<char>, i: int) -> int
    decreases s.len() - i when 0 <= i <= s.len()
{
    if i >= s.len() || is_space(s[i]) {
        i
    } else {
        spec_token_end(s, i + 1)
    }
}

pub proof fn lemma_token_end(s: Seq<char>, i: int)
    requires
        0 <= i <= s.len(),
    ensures
        i <= spec_token_end(s, i) <= s.len(),
        i < s.len() && !is_space(s[i]) ==> spec_token_end(s, i) > i,
    decreases s.len() - i,
{
    if i < s.len() && !is_space(s[i]) {
        lemma_token_end(s, i + 1);
    }
}

/// The whitespace-separated tokens of `s` from position `i` on.
pub open spec fn spec_tokens_from(s: Seq<char>, i: int) -> Seq<Seq<char>>
    decreases s.len() - i when 0 <= i <= s.len() via spec_tokens_from_dec
{
    if i >= s.len() {
        Seq::empty()
    } else if is_space(s[i]) {
        spec_tokens_from(s, i + 1)
    } else {
        seq![s.subrange(i, spec_token_end(s, i))] + spec_tokens_from(s, spec_token_end(s, i))
    }
}

#[via_fn]
proof fn spec_tokens_from_dec(s: Seq<char>, i: int) {
    if 0 <= i < s.len() && !is_space(s[i]) {
        lemma_token_end(s, i);
    }
}

/// The whitespace-separated tokens of `s`, in order.
pub open spec fn spec_tokens(s: Seq<char>) -> Seq<Seq<char>> {
    spec_tokens_from(s, 0)
}

fn token_end(s: &str, i: usize) -> (r: usize)
    requires
        i <= s@.len(),
    ensures
        r == spec_token_end(s@, i as int),
        i <= r <= s@.len(),
    decreases s@.len() - i,
{
    let len = s.unicode_len();
    if i >= len {
        i
    } else if space_char(s.get_char(i)) {
        i
    } else {
        token_end(s, i + 1)
    }
}

fn tokenize_from(s: &str, i: usize) -> (r: Vec<String>)
    requires
        i <= s@.len(),
    ensures
        r.deep_view() == spec_tokens_from(s@, i as int),
    decreases s@.len() - i,
{
    let len = s.unicode_len();
    if i >= len {
        let r: Vec<String> = Vec::new();
        assert(r.deep_view() =~= spec_tokens_from(s@, i as int));
        r
    } else if space_char(s.get_char(i)) {
        tokenize_from(s, i + 1)
    } else {
        let e = token_end(s, i);
        proof {
            lemma_token_end(s@, i as int);
        }
        let tok = s.substring_char(i, e).to_owned();
        let mut rest = tokenize_from(s, e);
        let ghost tail = rest.deep_view();
        let ghost old_vec = rest@;
        rest.insert(0, tok);
        proof {
            let whole = seq![s@.subrange(i as int, spec_token_end(s@, i as int))] + tail;
            assert(rest@ == old_vec.insert(0, tok));
            assert forall|k: int| 0 <= k < rest.deep_view().len() implies rest.deep_view()[k]
                == whole[k] by {
                if k == 0 {
                    assert(rest@[0] == tok);
                } else {
                    assert(rest@[k] == old_vec[k - 1]);
                }
            }
            assert(rest.deep_view() =~= whole);
        }
        rest
    }
}

/// Splits a line into its whitespace-separated tokens.
pub fn tokenize(s: &str) -> (r: Vec<String>)
    ensures
        r.deep_view() == spec_tokens(s@),
{
    tokenize_from(s, 0)
}

/// The first position at or after `i` holding a non-space character, or the
/// string's end.
pub open spec fn spec_skip_left(s: Seq<char>, i: int) -> int
    decreases s.len() - i when 0 <= i <= s.len()
{
    if i >= s.len() || !is_space(s[i]) {
        i
    } else {
        spec_skip_left(s, i + 1)
    }
}

/// The position just after the last non-space character before `j`, or zero.
pub open spec fn spec_skip_right(s: Seq<char>, j: int) -> int
    decreases j when 0 <= j <= s.len()
{
    if j <= 0 || !is_space(s[j - 1]) {
        j
    } else {
        spec_skip_right(s, j - 1)
    }
}

/// `s` without leading and trailing whitespace.
pub open spec fn spec_trim(s: Seq<char>) -> Seq<char> {
    let a = spec_skip_left(s, 0);
    let b = spec_skip_right(s, s.len() as int);
    if a >= b {
        Seq::empty()
    } else {
        s.subrange(a, b)
    }
}

fn skip_left(s: &str, i: usize) -> (r: usize)
    requires
        i <= s@.len(),
    ensures
        r == spec_skip_left(s@, i as int),
        i <= r <= s@.len(),
    decreases s@.len() - i,
{
    let len = s.unicode_len();
    if i >= len {
        i
    } else if !space_char(s.get_char(i)) {
        i
    } else {
        skip_left(s, i + 1)
    }
}

fn skip_right(s: &str, j: usize) -> (r: usize)
    requires
        j <= s@.len(),
    ensures
        r == spec_skip_right(s@, j as int),
        r <= j,
    decreases j,
{
    if j == 0 {
        j
    } else if !space_char(s.get_char(j - 1)) {
        j
    } else {
        skip_right(s, j - 1)
    }
}

/// Copies `s` without its leading and trailing whitespace.
pub fn trim_str(s: &str) -> (r: String)
    ensures
        r@ == spec_trim(s@),
{
    let len = s.unicode_len();
    let a = skip_left(s, 0);
    let b = skip_right(s, len);
    if a >= b {
        let r = String::new();
        assert(r@ =~= spec_trim(s@));
        r
    } else {
        s.substring_char(a, b).to_owned()
    }
}

/// The value of a run of decimal digits, most significant first.
pub open spec fn digits_value(s: Seq<char>) -> nat
    decreases s.len(),
{
    if s.len() == 0 {
        0
    } else {
        digits_value(s.drop_last()) * 10 + char_digit(s.last())
    }
}

pub open spec fn all_digits(s: Seq<char>) -> bool {
    forall|k: int| 0 <= k < s.len() ==> is_digit(#[trigger] s[k])
}

/// The number a run of decimal digits denotes, or nothing where the run is
/// empty or holds another character.
pub open spec fn spec_parse_uint(s: Seq<char>) -> Option<int> {
    if s.len() > 0 && all_digits(s) {
        Some(digits_value(s) as int)
    } else {
        None
    }
}

/// As `spec_parse_uint`, allowing one leading minus sign.
pub open spec fn spec_parse_int(s: Seq<char>) -> Option<int> {
    if s.len() > 0 && s[0] == '-' {
        match spec_parse_uint(s.skip(1)) {
            Some(v) => Some(-v),
            None => None,
        }
    } else {
        spec_parse_uint(s)
    }
}

proof fn lemma_digits_value_grows(s: Seq<char>, i: int, j: int)
    requires
        0 <= i <= j <= s.len(),
    ensures
        digits_value(s.take(i)) <= digits_value(s.take(j)),
    decreases j - i,
{
    if i < j {
        lemma_digits_value_grows(s, i, j - 1);
        assert(s.take(j).drop_last() =~= s.take(j - 1));
    }
}

fn digit_of(c: char) -> (r: u64)
    ensures
        r == char_digit(c),
{
    if c == '0' {
        0
    } else if c == '1' {
        1
    } else if c == '2' {
        2
    } else if c == '3' {
        3
    } else if c == '4' {
        4
    } else if c == '5' {
        5
    } else if c == '6' {
        6
    } else if c == '7' {
        7
    } else if c == '8' {
        8
    } else if c == '9' {
        9
    } else {
        10
    }
}

/// Parses a run of decimal digits as `str::parse::<u64>` would, with `None`
/// both for ill-formed text and for values beyond `u64`.
pub fn parse_u64(s: &str) -> (r: Option<u64>)
    ensures
        match r {
            Some(v) => spec_parse_uint(s@) == Some(v as int),
            None => spec_parse_uint(s@) is None || (spec_parse_uint(s@) matches Some(v) && v
                > u64::MAX),
        },
{
    let len = s.unicode_len();
    if len == 0 {
        return None;
    }
    let mut acc: u64 = 0;
    let mut i: usize = 0;
    while i < len
        invariant
            len == s@.len(),
            i <= len,
            all_digits(s@.take(i as int)),
            acc == digits_value(s@.take(i as int)),
        decreases len - i,
    {
        let c = s.get_char(i);
        let d = digit_of(c);
        if d >= 10 {
            assert(!is_digit(s@[i as int]));
            return None;
        }
        if acc > (u64::MAX - d) / 10 {
            proof {
                assert(acc * 10 + d > u64::MAX) by (nonlinear_arith)
                    requires
                        acc > (u64::MAX - d) / 10 && d < 10,
                ;
                assert(s@.take(i + 1).drop_last() =~= s@.take(i as int));
                assert(digits_value(s@.take(i + 1)) > u64::MAX);
                lemma_digits_value_grows(s@, i + 1, len as int);
                assert(s@.take(len as int) =~= s@);
            }
            return None;
        }
        proof {
            assert(s@.take(i + 1).drop_last() =~= s@.take(i as int));
            assert(s@.take(i + 1).last() == s@[i as int]);
        }
        acc = acc * 10 + d;
        i = i + 1;
    }
    proof {
        assert(s@.take(len as int) =~= s@);
    }
    Some(acc)
}

/// Parses an optionally negated run of decimal digits, with `None` both for
/// ill-formed text and for values beyond `i64`.
pub fn parse_i64(s: &str) -> (r: Option<i64>)
    ensures
        match r {
            Some(v) => spec_parse_int(s@) == Some(v as int),
            None => spec_parse_int(s@) is None || (spec_parse_int(s@) matches Some(v) && !(
            i64::MIN <= v <= i64::MAX)),
        },
{
    let len = s.unicode_len();
    if len > 0 && s.get_char(0) == '-' {
        let tail = s.substring_char(1, len);
        assert(tail@ =~= s@.skip(1));
        match parse_u64(tail) {
            Some(v) => {
                if v < 0x8000_0000_0000_0000 {
                    Some(-(v as i64))
                } else if v == 0x8000_0000_0000_0000 {
                    Some(i64::MIN)
                } else {
                    None
                }
            },
            None => None,
        }
    } else {
        match parse_u64(s) {
            Some(v) => {
                if v <= 0x7fff_ffff_ffff_ffff {
                    Some(v as i64)
                } else {
                    None
                }
            },
            None => None,
        }
    }
}

} // verus!
