//! Parsing of a minimum-supported-runtime-version constraint string and the
//! selection of the self-import strategy that it implies.
//!
//! A constraint string such as `">=3.8, <3.12"` is scanned token by token;
//! every token carrying a `>=`, `==` or `~=` prefix contributes a
//! `(major, minor)` version, and the maximum of those versions is the
//! effective minimum version. The strategy for spelling "the enclosing type
//! itself" in a return position is the newer one exactly when that minimum
//! is at least `(3, 11)`, or when no token parses at all.

use vstd::prelude::*;
use vstd::string::StrSliceExecFns;

verus! {

/// Which import spelling is used for a self-referential return type.
#[derive(Clone, Copy, Debug, PartialEq, Eq, Structural)]
pub enum SelfImportStrategy {
    Typing,
    TypingExtensions,
}

/// A token separator inside a constraint string.
pub open spec fn is_sep_char(c: char) -> bool {
    c == ',' || c == ' '
}

/// Whitespace stripped from the edges of tokens and fragments.
pub open spec fn is_space_char(c: char) -> bool {
    c == ' ' || c == '\t' || c == '\n' || c == '\r'
}

pub open spec fn is_digit_char(c: char) -> bool {
    48 <= c as u32 && c as u32 <= 57
}

pub open spec fn all_digits(s: Seq<char>) -> bool {
    forall|i: int| 0 <= i < s.len() ==> is_digit_char(#[trigger] s[i])
}

/// Numeric value of a digit sequence, most significant digit first.
pub open spec fn digits_value(s: Seq<char>) -> int
    decreases s.len(),
{
    if s.len() == 0 {
        0
    } else {
        digits_value(s.drop_last()) * 10 + (s.last() as u32 - 48)
    }
}

/// What `str::parse::<u8>` yields on a digit string with an optional
/// leading `+`.
pub open spec fn spec_parse_u8(s: Seq<char>) -> Option<u8> {
    let body = if s.len() > 0 && s[0] == '+' {
        s.skip(1)
    } else {
        s
    };
    if body.len() == 0 || !all_digits(body) {
        None
    } else if digits_value(body) > 255 {
        None
    } else {
        Some(digits_value(body) as u8)
    }
}

proof fn lemma_digits_value_nonneg(s: Seq<char>)
    requires
        all_digits(s),
    ensures
        digits_value(s) >= 0,
    decreases s.len(),
{
    if s.len() > 0 {
        assert forall|i: int| 0 <= i < s.drop_last().len() implies is_digit_char(
            #[trigger] s.drop_last()[i],
        ) by {
            assert(s.drop_last()[i] == s[i]);
        }
        lemma_digits_value_nonneg(s.drop_last());
    }
}

/// Once a digit prefix exceeds the `u8` range, the whole run does too.
proof fn lemma_digits_value_grows(s: Seq<char>, n: int)
    requires
        all_digits(s),
        0 <= n <= s.len(),
        digits_value(s.take(n)) > 255,
    ensures
        digits_value(s) > 255,
    decreases s.len() - n,
{
    if n < s.len() {
        assert forall|i: int| 0 <= i < s.take(n).len() implies is_digit_char(
            #[trigger] s.take(n)[i],
        ) by {
            assert(s.take(n)[i] == s[i]);
        }
        lemma_digits_value_nonneg(s.take(n));
        assert(s.take(n + 1).drop_last() =~= s.take(n));
        assert(digits_value(s.take(n + 1)) == digits_value(s.take(n)) * 10 + (s.take(
            n + 1,
        ).last() as u32 - 48));
        lemma_digits_value_grows(s, n + 1);
    } else {
        assert(s.take(n) =~= s);
    }
}

/// The digits seen so far already exceed the `u8` range, so whatever
/// follows, `str::parse::<u8>` fails on the whole run.
proof fn lemma_overflow_is_final(body: Seq<char>, n: int)
    requires
        0 <= n <= body.len(),
        digits_value(body.take(n)) > 255,
    ensures
        all_digits(body) ==> digits_value(body) > 255,
{
    if all_digits(body) {
        lemma_digits_value_grows(body, n);
    }
}

/// Parses a digit run (with an optional leading `+`) exactly as
/// `str::parse::<u8>` would.
fn parse_u8_str(s: &str) -> (r: Option<u8>)
    ensures
        r == spec_parse_u8(s@),
{
    let n = s.unicode_len();
    let mut start: usize = 0;
    if n > 0 && s.get_char(0) == '+' {
        start = 1;
    }
    let ghost body: Seq<char> = if s@.len() > 0 && s@[0] == '+' {
        s@.skip(1)
    } else {
        s@
    };
    proof {
        assert(body =~= s@.subrange(start as int, n as int));
    }
    if start == n {
        return None;
    }
    let mut acc: u32 = 0;
    let mut i: usize = start;
    while i < n
        invariant
            start <= i <= n,
            n == s@.len(),
            start < n,
            body == (if s@.len() > 0 && s@[0] == '+' {
                s@.skip(1)
            } else {
                s@
            }),
            body =~= s@.subrange(start as int, n as int),
            all_digits(body.take(i - start)),
            acc == digits_value(body.take(i - start)),
            acc <= 255,
        decreases n - i,
    {
        let c = s.get_char(i);
        let v = c as u32;
        proof {
            assert(body[i - start] == s@[i as int]);
        }
        if v < 48 || v > 57 {
            proof {
                assert(!is_digit_char(body[i - start]));
                assert(!all_digits(body));
                assert(spec_parse_u8(s@) is None);
            }
            return None;
        }
        let d = v - 48;
        proof {
            assert(body.take(i - start + 1).drop_last() =~= body.take(i - start));
            assert(body.take(i - start + 1).last() == body[i - start]);
            assert forall|j: int| 0 <= j < i - start + 1 implies is_digit_char(
                #[trigger] body.take(i - start + 1)[j],
            ) by {
                if j < i - start {
                    assert(body.take(i - start + 1)[j] == body.take(i - start)[j]);
                } else {
                    assert(body.take(i - start + 1)[j] == body[i - start]);
                }
            }
            assert(digits_value(body.take(i - start + 1)) == acc * 10 + d);
        }
        if acc > 25 || (acc == 25 && d > 5) {
            proof {
                assert(digits_value(body.take(i - start + 1)) > 255);
                lemma_overflow_is_final(body, i - start + 1);
                assert(spec_parse_u8(s@) is None);
            }
            return None;
        }
        acc = acc * 10 + d;
        i = i + 1;
    }
    proof {
        assert(body.take(n - start) =~= body);
    }
    Some(acc as u8)
}

/// `s` with leading whitespace removed.
pub open spec fn trim_start_spec(s: Seq<char>) -> Seq<char>
    decreases s.len(),
{
    if s.len() > 0 && is_space_char(s[0]) {
        trim_start_spec(s.skip(1))
    } else {
        s
    }
}

/// `s` with trailing whitespace removed.
pub open spec fn trim_end_spec(s: Seq<char>) -> Seq<char>
    decreases s.len(),
{
    if s.len() > 0 && is_space_char(s.last()) {
        trim_end_spec(s.drop_last())
    } else {
        s
    }
}

pub open spec fn trim_spec(s: Seq<char>) -> Seq<char> {
    trim_end_spec(trim_start_spec(s))
}

/// `s` with every leading occurrence of `c` removed.
pub open spec fn drop_leading_spec(s: Seq<char>, c: char) -> Seq<char>
    decreases s.len(),
{
    if s.len() > 0 && s[0] == c {
        drop_leading_spec(s.skip(1), c)
    } else {
        s
    }
}

/// `s` with every trailing occurrence of `c` removed.
pub open spec fn drop_trailing_spec(s: Seq<char>, c: char) -> Seq<char>
    decreases s.len(),
{
    if s.len() > 0 && s.last() == c {
        drop_trailing_spec(s.drop_last(), c)
    } else {
        s
    }
}

/// `s` with every trailing `".*"` pair removed.
pub open spec fn drop_trailing_dot_star_spec(s: Seq<char>) -> Seq<char>
    decreases s.len(),
{
    if s.len() >= 2 && s[s.len() - 2] == '.' && s[s.len() - 1] == '*' {
        drop_trailing_dot_star_spec(s.take(s.len() - 2))
    } else {
        s
    }
}

/// Index of the first occurrence of `c` in `s` at or after `from`, or
/// `s.len()` when there is none.
pub open spec fn find_char_spec(s: Seq<char>, c: char, from: int) -> int
    decreases s.len() - from,
{
    if 0 <= from < s.len() {
        if s[from] == c {
            from
        } else {
            find_char_spec(s, c, from + 1)
        }
    } else {
        s.len() as int
    }
}

/// Length of the longest digit prefix of `s`.
pub open spec fn digits_prefix_len_spec(s: Seq<char>) -> int
    decreases s.len(),
{
    if s.len() > 0 && is_digit_char(s[0]) {
        1 + digits_prefix_len_spec(s.skip(1))
    } else {
        0
    }
}

fn is_digit(c: char) -> (r: bool)
    ensures
        r == is_digit_char(c),
{
    let v = c as u32;
    48 <= v && v <= 57
}

fn is_space(c: char) -> (r: bool)
    ensures
        r == is_space_char(c),
{
    c == ' ' || c == '\t' || c == '\n' || c == '\r'
}

/// Removes leading and trailing whitespace, as `str::trim` does on the
/// whitespace that version constraints contain.
fn trim_str(s: &str) -> (r: &str)
    ensures
        r@ == trim_spec(s@),
{
    let n = s.unicode_len();
    let mut lo: usize = 0;
    proof {
        assert(s@.skip(0) =~= s@);
    }
    while lo < n && is_space(s.get_char(lo))
        invariant
            0 <= lo <= n,
            n == s@.len(),
            trim_start_spec(s@) == trim_start_spec(s@.skip(lo as int)),
        decreases n - lo,
    {
        proof {
            assert(s@.skip(lo as int)[0] == s@[lo as int]);
            assert(s@.skip(lo as int).skip(1) =~= s@.skip(lo + 1));
        }
        lo = lo + 1;
    }
    proof {
        if lo < n {
            assert(s@.skip(lo as int)[0] == s@[lo as int]);
        }
        assert(trim_start_spec(s@.skip(lo as int)) == s@.skip(lo as int));
    }
    let mut hi: usize = n;
    while hi > lo && is_space(s.get_char(hi - 1))
        invariant
            lo <= hi <= n,
            n == s@.len(),
            trim_start_spec(s@) == s@.skip(lo as int),
            trim_end_spec(s@.subrange(lo as int, n as int)) == trim_end_spec(
                s@.subrange(lo as int, hi as int),
            ),
        decreases hi,
    {
        proof {
            let part = s@.subrange(lo as int, hi as int);
            assert(part.last() == s@[hi - 1]);
            assert(part.drop_last() =~= s@.subrange(lo as int, hi - 1));
        }
        hi = hi - 1;
    }
    proof {
        let part = s@.subrange(lo as int, hi as int);
        if hi > lo {
            assert(part.last() == s@[hi - 1]);
        }
        assert(trim_end_spec(part) == part);
        assert(s@.skip(lo as int) =~= s@.subrange(lo as int, n as int));
    }
    s.substring_char(lo, hi)
}

/// Removes every leading occurrence of `c`, as `str::trim_start_matches`
/// does for a single-character pattern.
fn strip_leading(s: &str, c: char) -> (r: &str)
    ensures
        r@ == drop_leading_spec(s@, c),
{
    let n = s.unicode_len();
    let mut lo: usize = 0;
    proof {
        assert(s@.skip(0) =~= s@);
    }
    while lo < n && s.get_char(lo) == c
        invariant
            0 <= lo <= n,
            n == s@.len(),
            drop_leading_spec(s@, c) == drop_leading_spec(s@.skip(lo as int), c),
        decreases n - lo,
    {
        proof {
            assert(s@.skip(lo as int)[0] == s@[lo as int]);
            assert(s@.skip(lo as int).skip(1) =~= s@.skip(lo + 1));
        }
        lo = lo + 1;
    }
    proof {
        if lo < n {
            assert(s@.skip(lo as int)[0] == s@[lo as int]);
        }
        assert(drop_leading_spec(s@.skip(lo as int), c) == s@.skip(lo as int));
    }
    s.substring_char(lo, n)
}

/// Removes every trailing occurrence of `c`, as `str::trim_end_matches`
/// does for a single-character pattern.
fn strip_trailing(s: &str, c: char) -> (r: &str)
    ensures
        r@ == drop_trailing_spec(s@, c),
{
    let n = s.unicode_len();
    let mut hi: usize = n;
    proof {
        assert(s@.take(n as int) =~= s@);
    }
    while hi > 0 && s.get_char(hi - 1) == c
        invariant
            0 <= hi <= n,
            n == s@.len(),
            drop_trailing_spec(s@, c) == drop_trailing_spec(s@.take(hi as int), c),
        decreases hi,
    {
        proof {
            let part = s@.take(hi as int);
            assert(part.last() == s@[hi - 1]);
            assert(part.drop_last() =~= s@.take(hi - 1));
        }
        hi = hi - 1;
    }
    proof {
        let part = s@.take(hi as int);
        if hi > 0 {
            assert(part.last() == s@[hi - 1]);
        }
        assert(drop_trailing_spec(part, c) == part);
    }
    s.substring_char(0, hi)
}

/// Removes every trailing `".*"` pair, as `str::trim_end_matches(".*")`
/// does.
fn strip_trailing_dot_star(s: &str) -> (r: &str)
    ensures
        r@ == drop_trailing_dot_star_spec(s@),
{
    let n = s.unicode_len();
    let mut hi: usize = n;
    proof {
        assert(s@.take(n as int) =~= s@);
    }
    while hi >= 2 && s.get_char(hi - 2) == '.' && s.get_char(hi - 1) == '*'
        invariant
            0 <= hi <= n,
            n == s@.len(),
            drop_trailing_dot_star_spec(s@) == drop_trailing_dot_star_spec(s@.take(hi as int)),
        decreases hi,
    {
        proof {
            let part = s@.take(hi as int);
            assert(part[hi - 2] == s@[hi - 2]);
            assert(part[hi - 1] == s@[hi - 1]);
            assert(part.take(hi - 2) =~= s@.take(hi - 2));
        }
        hi = hi - 2;
    }
    proof {
        let part = s@.take(hi as int);
        if hi >= 2 {
            assert(part[hi - 2] == s@[hi - 2]);
            assert(part[hi - 1] == s@[hi - 1]);
        }
        assert(drop_trailing_dot_star_spec(part) == part);
    }
    s.substring_char(0, hi)
}

/// The `(major, minor)` version denoted by one version fragment, after the
/// decorations around the digits are stripped; `None` when the fragment
/// does not parse.
pub open spec fn spec_parse_fragment(f: Seq<char>) -> Option<(u8, u8)> {
    let cleaned = drop_trailing_spec(
        drop_trailing_dot_star_spec(
            drop_leading_spec(trim_spec(drop_leading_spec(trim_spec(f), '=')), 'v'),
        ),
        '*',
    );
    let d1 = find_char_spec(cleaned, '.', 0);
    let major_opt = spec_parse_u8(cleaned.take(d1));
    if major_opt is None {
        None
    } else {
        let minor_raw = if d1 == cleaned.len() {
            seq!['0']
        } else {
            cleaned.subrange(d1 + 1, find_char_spec(cleaned, '.', d1 + 1))
        };
        let minor_part = trim_spec(minor_raw);
        let minor_digits = minor_part.take(digits_prefix_len_spec(minor_part));
        if minor_digits.len() == 0 {
            Some((major_opt.unwrap(), 0))
        } else {
            match spec_parse_u8(minor_digits) {
                Some(minor) => Some((major_opt.unwrap(), minor)),
                None => None,
            }
        }
    }
}

/// Finds the first occurrence of `c` at or after `from`.
fn find_char(s: &str, c: char, from: usize) -> (r: usize)
    requires
        from <= s@.len(),
    ensures
        r == find_char_spec(s@, c, from as int),
        from <= r <= s@.len(),
{
    let n = s.unicode_len();
    let mut i: usize = from;
    while i < n && s.get_char(i) != c
        invariant
            from <= i <= n,
            n == s@.len(),
            find_char_spec(s@, c, from as int) == find_char_spec(s@, c, i as int),
        decreases n - i,
    {
        i = i + 1;
    }
    i
}

/// Length of the longest digit prefix.
fn digits_prefix_len(s: &str) -> (r: usize)
    ensures
        r == digits_prefix_len_spec(s@),
        r <= s@.len(),
{
    let n = s.unicode_len();
    let mut i: usize = 0;
    proof {
        assert(s@.skip(0) =~= s@);
    }
    while i < n && is_digit(s.get_char(i))
        invariant
            0 <= i <= n,
            n == s@.len(),
            digits_prefix_len_spec(s@) == i + digits_prefix_len_spec(s@.skip(i as int)),
        decreases n - i,
    {
        proof {
            assert(s@.skip(i as int)[0] == s@[i as int]);
            assert(s@.skip(i as int).skip(1) =~= s@.skip(i + 1));
        }
        i = i + 1;
    }
    proof {
        if i < n {
            assert(s@.skip(i as int)[0] == s@[i as int]);
        }
        assert(digits_prefix_len_spec(s@.skip(i as int)) == 0);
    }
    i
}

/// Parses one version fragment such as `"3.8"`, `"=v3.11.*"` or `"3"`:
/// leading `=` and `v` decorations and trailing wildcard markers are
/// stripped, the first dot-separated part is the major version, the second
/// (defaulting to `0`, truncated at its first non-digit) is the minor
/// version.
pub fn parse_python_version_fragment(fragment: &str) -> (r: Option<(u8, u8)>)
    ensures
        r == spec_parse_fragment(fragment@),
{
    let t1 = trim_str(fragment);
    let t2 = strip_leading(t1, '=');
    let t3 = trim_str(t2);
    let t4 = strip_leading(t3, 'v');
    let t5 = strip_trailing_dot_star(t4);
    let cleaned = strip_trailing(t5, '*');
    let cn = cleaned.unicode_len();
    let d1 = find_char(cleaned, '.', 0);
    let major_str = cleaned.substring_char(0, d1);
    let major = match parse_u8_str(major_str) {
        Some(m) => m,
        None => {
            return None;
        },
    };
    proof {
        assert(major_str@ =~= cleaned@.take(d1 as int));
    }
    let minor: u8;
    if d1 == cn {
        proof {
            let z: Seq<char> = seq!['0'];
            assert(z.len() == 1 && z[0] == '0' && z.last() == '0');
            assert(trim_start_spec(z) == z);
            assert(trim_end_spec(z) == z);
            assert(z.skip(1) =~= Seq::<char>::empty());
            assert(digits_prefix_len_spec(z.skip(1)) == 0);
            assert(digits_prefix_len_spec(z) == 1);
            assert(z.take(1) =~= z);
            assert(z.drop_last() =~= Seq::<char>::empty());
            assert(digits_value(Seq::<char>::empty()) == 0);
            assert('0' as u32 == 48);
            assert(digits_value(z) == digits_value(z.drop_last()) * 10 + ('0' as u32 - 48));
            assert(digits_value(z) == 0);
            assert(spec_parse_u8(z) == Some(0u8));
        }
        minor = 0;
    } else {
        let d2 = find_char(cleaned, '.', d1 + 1);
        let minor_raw = cleaned.substring_char(d1 + 1, d2);
        let minor_part = trim_str(minor_raw);
        let dp = digits_prefix_len(minor_part);
        let minor_digits = minor_part.substring_char(0, dp);
        proof {
            assert(minor_digits@ =~= minor_part@.take(dp as int));
        }
        if minor_digits.unicode_len() == 0 {
            minor = 0;
        } else {
            match parse_u8_str(minor_digits) {
                Some(m) => {
                    minor = m;
                },
                None => {
                    return None;
                },
            }
        }
    }
    Some((major, minor))
}

/// The later of two `(major, minor)` versions.
pub open spec fn spec_max_version(a: (u8, u8), b: (u8, u8)) -> (u8, u8) {
    if b.0 > a.0 || (b.0 == a.0 && b.1 > a.1) {
        b
    } else {
        a
    }
}

/// Returns the later of two `(major, minor)` versions.
pub fn max_version(a: (u8, u8), b: (u8, u8)) -> (r: (u8, u8))
    ensures
        r == spec_max_version(a, b),
{
    if b.0 > a.0 || (b.0 == a.0 && b.1 > a.1) {
        b
    } else {
        a
    }
}

/// The version one token contributes: its trimmed text must begin with
/// `>=`, `==` or `~=`, and the remainder must parse as a fragment.
pub open spec fn spec_token_version(t: Seq<char>) -> Option<(u8, u8)> {
    let tt = trim_spec(t);
    if tt.len() >= 2 && tt[1] == '=' && (tt[0] == '>' || tt[0] == '=' || tt[0] == '~') {
        spec_parse_fragment(tt.skip(2))
    } else {
        None
    }
}

/// Folds one token's contribution into the running maximum.
pub open spec fn spec_combine(acc: Option<(u8, u8)>, t: Option<(u8, u8)>) -> Option<(u8, u8)> {
    match t {
        None => acc,
        Some(v) => match acc {
            None => Some(v),
            Some(a) => Some(spec_max_version(a, v)),
        },
    }
}

/// Scans the remaining characters `s`, with `cur` the token read so far
/// and `acc` the maximum version of the tokens already finished.
pub open spec fn spec_scan(s: Seq<char>, cur: Seq<char>, acc: Option<(u8, u8)>) -> Option<
    (u8, u8),
>
    decreases s.len(),
{
    if s.len() == 0 {
        spec_combine(acc, spec_token_version(cur))
    } else if is_sep_char(s[0]) {
        spec_scan(s.skip(1), Seq::empty(), spec_combine(acc, spec_token_version(cur)))
    } else {
        spec_scan(s.skip(1), cur.push(s[0]), acc)
    }
}

/// The effective minimum version of a whole constraint string: the maximum
/// over all recognized tokens, or `None` when no token parses.
pub open spec fn spec_min_version(s: Seq<char>) -> Option<(u8, u8)> {
    spec_scan(s, Seq::empty(), None)
}

fn parse_token(t: &str) -> (r: Option<(u8, u8)>)
    ensures
        r == spec_token_version(t@),
{
    let tt = trim_str(t);
    let n = tt.unicode_len();
    if n >= 2 {
        let c0 = tt.get_char(0);
        let c1 = tt.get_char(1);
        if c1 == '=' && (c0 == '>' || c0 == '=' || c0 == '~') {
            let rest = tt.substring_char(2, n);
            proof {
                assert(rest@ =~= tt@.skip(2));
            }
            return parse_python_version_fragment(rest);
        }
    }
    None
}

/// Scans a comma/space-separated constraint string and keeps the maximum
/// `(major, minor)` version among the tokens that carry a `>=`, `==` or
/// `~=` prefix; `None` when no token parses.
pub fn parse_minimum_python_version(constraint: &str) -> (r: Option<(u8, u8)>)
    ensures
        r == spec_min_version(constraint@),
{
    let n = constraint.unicode_len();
    let mut minimum: Option<(u8, u8)> = None;
    let mut tok_start: usize = 0;
    let mut i: usize = 0;
    proof {
        assert(constraint@.skip(0) =~= constraint@);
        assert(constraint@.subrange(0, 0) =~= Seq::<char>::empty());
    }
    while i < n
        invariant
            0 <= tok_start <= i <= n,
            n == constraint@.len(),
            spec_min_version(constraint@) == spec_scan(
                constraint@.skip(i as int),
                constraint@.subrange(tok_start as int, i as int),
                minimum,
            ),
        decreases n - i,
    {
        let c = constraint.get_char(i);
        proof {
            assert(constraint@.skip(i as int)[0] == constraint@[i as int]);
            assert(constraint@.skip(i as int).skip(1) =~= constraint@.skip(i + 1));
        }
        if c == ',' || c == ' ' {
            let token = constraint.substring_char(tok_start, i);
            let cand = parse_token(token);
            minimum = match (minimum, cand) {
                (acc, None) => acc,
                (None, Some(v)) => Some(v),
                (Some(a), Some(v)) => Some(max_version(a, v)),
            };
            proof {
                assert(token@ =~= constraint@.subrange(tok_start as int, i as int));
                assert(constraint@.subrange(i + 1, i + 1) =~= Seq::<char>::empty());
            }
            tok_start = i + 1;
        } else {
            proof {
                assert(constraint@.subrange(tok_start as int, i + 1) =~= constraint@.subrange(
                    tok_start as int,
                    i as int,
                ).push(constraint@[i as int]));
            }
        }
        i = i + 1;
    }
    let token = constraint.substring_char(tok_start, n);
    let cand = parse_token(token);
    proof {
        assert(token@ =~= constraint@.subrange(tok_start as int, n as int));
        assert(constraint@.skip(n as int).len() == 0);
    }
    match (minimum, cand) {
        (acc, None) => acc,
        (None, Some(v)) => Some(v),
        (Some(a), Some(v)) => Some(max_version(a, v)),
    }
}

/// The strategy a constraint string implies.
pub open spec fn spec_strategy_for(constraint: Option<Seq<char>>) -> SelfImportStrategy {
    match constraint {
        None => SelfImportStrategy::Typing,
        Some(s) => match spec_min_version(s) {
            None => SelfImportStrategy::Typing,
            Some(v) => if v.0 > 3 || (v.0 == 3 && v.1 >= 11) {
                SelfImportStrategy::Typing
            } else {
                SelfImportStrategy::TypingExtensions
            },
        },
    }
}

/// Chooses the self-import strategy from the hosting project's
/// minimum-supported-runtime-version constraint: the newer spelling when
/// the effective minimum version is at least `(3, 11)` or when no version
/// parses, the older spelling otherwise.
pub fn configure_self_import_strategy_from_requires_python(constraint: Option<&str>) -> (r:
    SelfImportStrategy)
    ensures
        r == spec_strategy_for(match constraint {
            Some(s) => Some(s@),
            None => None,
        }),
{
    if let Some(s) = constraint {
        if let Some(min_version) = parse_minimum_python_version(s) {
            if min_version.0 > 3 || (min_version.0 == 3 && min_version.1 >= 11) {
                SelfImportStrategy::Typing
            } else {
                SelfImportStrategy::TypingExtensions
            }
        } else {
            SelfImportStrategy::Typing
        }
    } else {
        SelfImportStrategy::Typing
    }
}

} // verus!
