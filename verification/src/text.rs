use vstd::prelude::*;
use vstd::utf8::*;

verus! {

/// Whether two string slices hold the same characters, compared byte by byte: two texts with
/// the same UTF-8 bytes are the same text.
pub fn str_eq(a: &str, b: &str) -> (r: bool)
    ensures
        r == (a@ == b@),
{
    let x = a.as_bytes();
    let y = b.as_bytes();
    proof {
        encode_utf8_decode_utf8(a@);
        encode_utf8_decode_utf8(b@);
    }
    if x.len() != y.len() {
        return false;
    }
    let mut i: usize = 0;
    while i < x.len()
        invariant
            x@ == encode_utf8(a@),
            y@ == encode_utf8(b@),
            x@.len() == y@.len(),
            i <= x@.len(),
            forall|j: int| 0 <= j < i ==> x@[j] == y@[j],
        decreases x@.len() - i,
    {
        if x[i] != y[i] {
            return false;
        }
        i = i + 1;
    }
    assert(x@ =~= y@);
    true
}

/// `s` begins with `p`.
pub open spec fn has_prefix(s: Seq<char>, p: Seq<char>) -> bool {
    p.len() <= s.len() && s.subrange(0, p.len() as int) == p
}

/// `s` ends with `p`.
pub open spec fn has_suffix(s: Seq<char>, p: Seq<char>) -> bool {
    p.len() <= s.len() && s.subrange(s.len() - p.len(), s.len() as int) == p
}

/// `p` occurs in `s` at some position.
pub open spec fn has_infix(s: Seq<char>, p: Seq<char>) -> bool {
    exists|i: int| 0 <= i && i + p.len() <= s.len() && #[trigger] s.subrange(i, i + p.len()) == p
}

/// Whether the characters of `p` stand in `s` from position `at` on.
fn occurs_at(s: &Vec<char>, p: &Vec<char>, at: usize) -> (r: bool)
    requires
        at + p@.len() <= s@.len(),
    ensures
        r == (s@.subrange(at as int, at + p@.len()) == p@),
{
    let n: usize = s.len();
    let mut j: usize = 0;
    while j < p.len()
        invariant
            at + p@.len() <= s@.len(),
            n == s@.len(),
            j <= p@.len(),
            forall|k: int| 0 <= k < j ==> s@[at + k] == p@[k],
        decreases p@.len() - j,
    {
        if s[at + j] != p[j] {
            proof {
                assert(s@.subrange(at as int, at + p@.len())[j as int] != p@[j as int]);
            }
            return false;
        }
        j = j + 1;
    }
    assert(s@.subrange(at as int, at + p@.len()) =~= p@);
    true
}

/// Whether `s` begins with `p` (what std's `str::starts_with` answers for a string pattern).
pub fn str_starts_with(s: &str, p: &str) -> (r: bool)
    ensures
        r == has_prefix(s@, p@),
{
    let cs = chars_of(s);
    let ps = chars_of(p);
    if ps.len() > cs.len() {
        return false;
    }
    occurs_at(&cs, &ps, 0)
}

/// Whether `s` ends with `p` (what std's `str::ends_with` answers for a string pattern).
pub fn str_ends_with(s: &str, p: &str) -> (r: bool)
    ensures
        r == has_suffix(s@, p@),
{
    let cs = chars_of(s);
    let ps = chars_of(p);
    if ps.len() > cs.len() {
        return false;
    }
    occurs_at(&cs, &ps, cs.len() - ps.len())
}

/// Whether `p` occurs in `s` (what std's `str::contains` answers for a string pattern).
pub fn str_contains(s: &str, p: &str) -> (r: bool)
    ensures
        r == has_infix(s@, p@),
{
    let cs = chars_of(s);
    let ps = chars_of(p);
    if ps.len() > cs.len() {
        return false;
    }
    let last: usize = cs.len() - ps.len();
    let mut i: usize = 0;
    while i < last
        invariant
            cs@ == s@,
            ps@ == p@,
            last + ps@.len() == cs@.len(),
            i <= last,
            forall|k: int| 0 <= k < i ==> #[trigger] s@.subrange(k, k + p@.len()) != p@,
        decreases last - i,
    {
        if occurs_at(&cs, &ps, i) {
            return true;
        }
        i = i + 1;
    }
    let r = occurs_at(&cs, &ps, last);
    proof {
        if !r {
            assert forall|k: int| 0 <= k && k + p@.len() <= s@.len() implies #[trigger] s@.subrange(
                k,
                k + p@.len(),
            ) != p@ by {
                if k < last as int {
                } else {
                    assert(k == last as int);
                }
            }
        }
    }
    r
}

/// The first position at or after `from` where `d` occurs in `s`, if any.
pub open spec fn find_from(s: Seq<char>, d: Seq<char>, from: nat) -> Option<nat>
    decreases s.len() - from,
{
    if from + d.len() > s.len() {
        None
    } else if s.subrange(from as int, (from + d.len()) as int) == d {
        Some(from)
    } else if from < s.len() {
        find_from(s, d, from + 1)
    } else {
        None
    }
}

/// The pieces of `s` from `start` on, cut at each occurrence of the non-empty `d`, found from
/// left to right without overlap.
pub open spec fn split_from(s: Seq<char>, d: Seq<char>, start: nat) -> Seq<Seq<char>>
    decreases s.len() - start,
{
    match find_from(s, d, start) {
        Some(i) => if d.len() > 0 && start <= i && i + d.len() <= s.len() {
            seq![s.subrange(start as int, i as int)] + split_from(s, d, i + d.len())
        } else {
            seq![s.subrange(start as int, s.len() as int)]
        },
        None => seq![s.subrange(start as int, s.len() as int)],
    }
}

/// The pieces that std's `str::split` with a string pattern yields, as its documentation gives
/// them: the text is cut at each occurrence of the separator, so separators next to each other,
/// or at either end, are neighbored by empty pieces; an empty separator separates every
/// character, along with the beginning and the end of the text.
pub open spec fn str_split(s: Seq<char>, delim: Seq<char>) -> Seq<Seq<char>> {
    if delim.len() == 0 {
        seq![Seq::<char>::empty()] + s.map_values(|c: char| seq![c]) + seq![Seq::<char>::empty()]
    } else {
        split_from(s, delim, 0)
    }
}

/// std's `str::split` with a string pattern, each piece copied into a `String`.
#[verifier::external_body]
pub(crate) fn split_by(s: &str, delim: &str) -> (r: Vec<String>)
    ensures
        crate::value::string_views(r@) == str_split(s@, delim@),
{
    s.split(delim).map(String::from).collect()
}

/// An ASCII decimal digit.
pub open spec fn is_digit(c: char) -> bool {
    '0' <= c <= '9'
}

/// The number that a run of decimal digits denotes.
pub open spec fn digits_value(s: Seq<char>) -> nat
    decreases s.len(),
{
    if s.len() == 0 {
        0
    } else {
        digits_value(s.drop_last()) * 10 + ((s.last() as nat) - ('0' as nat)) as nat
    }
}

/// A non-empty run of decimal digits.
pub open spec fn all_digits(s: Seq<char>) -> bool {
    s.len() > 0 && forall|i: int| 0 <= i < s.len() ==> is_digit(#[trigger] s[i])
}

/// What std's `u32::from_str` accepts: an optional `+`, then decimal digits, of a value
/// that fits in a `u32`.
pub open spec fn spec_parse_u32(s: Seq<char>) -> Option<u32> {
    let d = if s.len() > 0 && s[0] == '+' {
        s.drop_first()
    } else {
        s
    };
    if all_digits(d) && digits_value(d) <= u32::MAX {
        Some(digits_value(d) as u32)
    } else {
        None
    }
}

/// What std's `i64::from_str` accepts: an optional `+` or `-`, then decimal digits, of a
/// value that fits in an `i64`.
pub open spec fn spec_parse_i64(s: Seq<char>) -> Option<i64> {
    let neg = s.len() > 0 && s[0] == '-';
    let d = if s.len() > 0 && (s[0] == '+' || s[0] == '-') {
        s.drop_first()
    } else {
        s
    };
    let v: int = if neg {
        -(digits_value(d) as int)
    } else {
        digits_value(d) as int
    };
    if all_digits(d) && i64::MIN <= v <= i64::MAX {
        Some(v as i64)
    } else {
        None
    }
}

/// The value of a run of digits is at least the value of any of its prefixes.
proof fn lemma_digits_value_prefix(t: Seq<char>, k: int)
    requires
        0 <= k <= t.len(),
        forall|j: int| 0 <= j < t.len() ==> is_digit(#[trigger] t[j]),
    ensures
        digits_value(t) >= digits_value(t.subrange(0, k)),
    decreases t.len(),
{
    if k < t.len() {
        let u = t.drop_last();
        assert forall|j: int| 0 <= j < u.len() implies is_digit(#[trigger] u[j]) by {
            assert(u[j] == t[j]);
        }
        lemma_digits_value_prefix(u, k);
        assert(u.subrange(0, k) =~= t.subrange(0, k));
    } else {
        assert(t.subrange(0, k) =~= t);
    }
}

/// The value of the digits of `cs` from `start` on, if they are digits and the value is at
/// most `limit`; `None` otherwise.
fn digits_up_to(cs: &Vec<char>, start: usize, limit: u128) -> (r: Option<u128>)
    requires
        start <= cs@.len(),
        limit < 0x1_0000_0000_0000_0000,
    ensures
        match r {
            Some(v) => all_digits(cs@.subrange(start as int, cs@.len() as int))
                && v == digits_value(cs@.subrange(start as int, cs@.len() as int)) && v <= limit,
            None => !all_digits(cs@.subrange(start as int, cs@.len() as int))
                || digits_value(cs@.subrange(start as int, cs@.len() as int)) > limit,
        },
{
    let ghost d = cs@.subrange(start as int, cs@.len() as int);
    if start == cs.len() {
        return None;
    }
    let mut acc: u128 = 0;
    let mut i: usize = start;
    while i < cs.len()
        invariant
            start <= i <= cs@.len(),
            d == cs@.subrange(start as int, cs@.len() as int),
            limit < 0x1_0000_0000_0000_0000,
            acc <= limit,
            acc == digits_value(cs@.subrange(start as int, i as int)),
            forall|j: int| start <= j < i ==> is_digit(#[trigger] cs@[j]),
        decreases cs@.len() - i,
    {
        let c = cs[i];
        if !('0' <= c && c <= '9') {
            proof {
                assert(!is_digit(d[i - start]));
            }
            return None;
        }
        let dv: u128 = (c as u32 - '0' as u32) as u128;
        proof {
            let t = cs@.subrange(start as int, i + 1);
            assert(t.drop_last() =~= cs@.subrange(start as int, i as int));
            assert(t.last() == c);
        }
        acc = acc * 10 + dv;
        if acc > limit {
            proof {
                if all_digits(d) {
                    lemma_digits_value_prefix(d, i + 1 - start);
                    assert(d.subrange(0, i + 1 - start) =~= cs@.subrange(start as int, i + 1));
                }
            }
            return None;
        }
        i = i + 1;
    }
    proof {
        assert(cs@.subrange(start as int, i as int) =~= d);
        assert forall|j: int| 0 <= j < d.len() implies is_digit(#[trigger] d[j]) by {
            assert(d[j] == cs@[start + j]);
        }
    }
    Some(acc)
}

/// What std's `str::parse::<u32>` gives: `Some` exactly on what `u32::from_str` accepts.
pub fn parse_u32(s: &str) -> (r: Option<u32>)
    ensures
        r == spec_parse_u32(s@),
{
    let cs = chars_of(s);
    let start: usize = if cs.len() > 0 && cs[0] == '+' {
        1
    } else {
        0
    };
    proof {
        if start == 1 {
            assert(cs@.subrange(1, cs@.len() as int) =~= s@.drop_first());
        } else {
            assert(cs@.subrange(0, cs@.len() as int) =~= s@);
        }
    }
    match digits_up_to(&cs, start, 0xffff_ffff) {
        Some(v) => Some(v as u32),
        None => None,
    }
}

/// What std's `str::parse::<i64>` gives: `Some` exactly on what `i64::from_str` accepts.
pub fn parse_i64(s: &str) -> (r: Option<i64>)
    ensures
        r == spec_parse_i64(s@),
{
    let cs = chars_of(s);
    let neg = cs.len() > 0 && cs[0] == '-';
    let start: usize = if cs.len() > 0 && (cs[0] == '+' || cs[0] == '-') {
        1
    } else {
        0
    };
    proof {
        if start == 1 {
            assert(cs@.subrange(1, cs@.len() as int) =~= s@.drop_first());
        } else {
            assert(cs@.subrange(0, cs@.len() as int) =~= s@);
        }
    }
    let limit: u128 = if neg {
        0x8000_0000_0000_0000
    } else {
        0x7fff_ffff_ffff_ffff
    };
    match digits_up_to(&cs, start, limit) {
        Some(v) => {
            if neg {
                if v == 0x8000_0000_0000_0000 {
                    Some(i64::MIN)
                } else {
                    Some(-(v as i64))
                }
            } else {
                Some(v as i64)
            }
        },
        None => None,
    }
}

/// The decimal digit character for `d < 10`.
pub open spec fn digit_char(d: nat) -> char {
    (d + ('0' as nat)) as char
}

/// The decimal digits of `n`, most significant first, with no leading zero.
pub open spec fn nat_decimal(n: nat) -> Seq<char>
    decreases n,
{
    if n < 10 {
        seq![digit_char(n)]
    } else {
        nat_decimal(n / 10).push(digit_char(n % 10))
    }
}

/// The decimal form of `n`, with a leading `-` when negative.
pub open spec fn int_decimal(n: int) -> Seq<char> {
    if n < 0 {
        seq!['-'] + nat_decimal((-n) as nat)
    } else {
        nat_decimal(n as nat)
    }
}

/// The decimal digit character for a digit.
fn digit_of(d: u64) -> (c: char)
    requires
        d < 10,
    ensures
        c == digit_char(d as nat),
{
    ((d as u8) + 48u8) as char
}

/// Append the decimal digits of `n` to `out`.
fn push_decimal(n: u64, out: &mut Vec<char>)
    ensures
        final(out)@ == old(out)@ + nat_decimal(n as nat),
    decreases n,
{
    if n >= 10 {
        push_decimal(n / 10, out);
    }
    let ghost before = out@;
    out.push(digit_of(n % 10));
    proof {
        if n >= 10 {
            assert(before == old(out)@ + nat_decimal((n / 10) as nat));
            assert(out@ =~= old(out)@ + nat_decimal((n / 10) as nat).push(digit_char((n % 10) as nat)));
        } else {
            assert(out@ =~= old(out)@ + seq![digit_char(n as nat)]);
        }
    }
}

/// The decimal form of an `i64`, with a leading `-` when negative (as its `Display` writes it).
pub fn i64_to_string(n: i64) -> (r: String)
    ensures
        r@ == int_decimal(n as int),
{
    let mut out: Vec<char> = Vec::new();
    if n < 0 {
        out.push('-');
        let m: u64 = (0i128 - n as i128) as u64;
        push_decimal(m, &mut out);
        proof {
            assert(out@ =~= seq!['-'] + nat_decimal((-(n as int)) as nat));
        }
    } else {
        push_decimal(n as u64, &mut out);
        proof {
            assert(out@ =~= nat_decimal(n as nat));
        }
    }
    let r = string_from_chars(out.as_slice(), 0, out.len());
    proof {
        assert(out@.subrange(0, out@.len() as int) =~= out@);
    }
    r
}

/// A `String` holding the characters of `s` (std's `str::to_string`).
pub fn owned(s: &str) -> (r: String)
    ensures
        r@ == s@,
{
    s.to_owned()
}


/// The decimal form of a `usize` (as its `Display` writes it).
pub fn usize_to_string(n: usize) -> (r: String)
    ensures
        r@ == nat_decimal(n as nat),
{
    let mut out: Vec<char> = Vec::new();
    push_decimal(n as u64, &mut out);
    proof {
        assert(out@ =~= nat_decimal(n as nat));
        assert(out@.subrange(0, out@.len() as int) =~= out@);
    }
    string_from_chars(out.as_slice(), 0, out.len())
}

/// The pieces of `s` between line feeds, in order (one piece, `s` itself, when there is no
/// line feed).
pub open spec fn lf_pieces(s: Seq<char>) -> Seq<Seq<char>>
    decreases s.len(),
{
    if s.len() == 0 {
        seq![Seq::empty()]
    } else {
        let rest = lf_pieces(s.drop_last());
        if s.last() == '\n' {
            rest.push(Seq::empty())
        } else {
            rest.update(rest.len() - 1, rest.last().push(s.last()))
        }
    }
}

/// A line without the carriage return that ends it, if it has one.
pub open spec fn strip_cr(l: Seq<char>) -> Seq<char> {
    if l.len() > 0 && l.last() == '\r' {
        l.drop_last()
    } else {
        l
    }
}

/// The lines that std's `str::lines` yields, as its documentation gives them: the text is cut
/// at each line feed; a line that was ended by a line feed loses a carriage return before it
/// (`\r\n` ends a line, a bare `\r` does not); the final line ending is optional, so no empty
/// line follows a final line feed, and the empty text has no lines.
pub open spec fn str_lines(s: Seq<char>) -> Seq<Seq<char>> {
    let pieces = lf_pieces(s);
    let ended = pieces.drop_last().map_values(|l: Seq<char>| strip_cr(l));
    if pieces.last().len() == 0 {
        ended
    } else {
        ended.push(pieces.last())
    }
}

/// std's `str::lines`, each line copied into a `String`.
#[verifier::external_body]
pub(crate) fn lines_of(s: &str) -> (r: Vec<String>)
    ensures
        crate::value::string_views(r@) == str_lines(s@),
{
    s.lines().map(String::from).collect()
}

/// A character with the Unicode `White_Space` property, which std's `char::is_whitespace`,
/// `str::split_whitespace` and `str::trim` go by.
pub open spec fn is_white_space(c: char) -> bool {
    ||| '\u{9}' <= c <= '\u{d}'
    ||| c == ' '
    ||| c == '\u{85}'
    ||| c == '\u{a0}'
    ||| c == '\u{1680}'
    ||| '\u{2000}' <= c <= '\u{200a}'
    ||| c == '\u{2028}'
    ||| c == '\u{2029}'
    ||| c == '\u{202f}'
    ||| c == '\u{205f}'
    ||| c == '\u{3000}'
}

/// The words of `s`, as std's `str::split_whitespace` yields them: the non-empty runs of
/// characters that are not white space, in order.
pub open spec fn str_words(s: Seq<char>) -> Seq<Seq<char>>
    decreases s.len(),
{
    if s.len() == 0 {
        Seq::empty()
    } else {
        let words = str_words(s.drop_last());
        let c = s.last();
        if is_white_space(c) {
            words
        } else if s.len() >= 2 && !is_white_space(s[s.len() - 2]) && words.len() > 0 {
            words.update(words.len() - 1, words.last().push(c))
        } else {
            words.push(seq![c])
        }
    }
}

/// std's `str::split_whitespace`, each piece copied into a `String`.
#[verifier::external_body]
pub(crate) fn words_of(s: &str) -> (r: Vec<String>)
    ensures
        crate::value::string_views(r@) == str_words(s@),
{
    s.split_whitespace().map(String::from).collect()
}

/// `s` without its leading white space.
pub open spec fn trim_start(s: Seq<char>) -> Seq<char>
    decreases s.len(),
{
    if s.len() > 0 && is_white_space(s[0]) {
        trim_start(s.drop_first())
    } else {
        s
    }
}

/// `s` without its trailing white space.
pub open spec fn trim_end(s: Seq<char>) -> Seq<char>
    decreases s.len(),
{
    if s.len() > 0 && is_white_space(s.last()) {
        trim_end(s.drop_last())
    } else {
        s
    }
}

/// What std's `str::trim` leaves: `s` without leading and trailing white space.
pub open spec fn str_trim(s: Seq<char>) -> Seq<char> {
    trim_end(trim_start(s))
}

/// std's `str::trim`, copied into a `String`.
#[verifier::external_body]
pub(crate) fn trim(s: &str) -> (r: String)
    ensures
        r@ == str_trim(s@),
{
    s.trim().to_string()
}

/// What std's `str::to_lowercase` gives: the Unicode lowercase mapping of `s`.
pub uninterp spec fn str_lower(s: Seq<char>) -> Seq<char>;

/// std's `str::to_lowercase`. The result is left unstated here beyond being `str_lower` of the
/// argument.
#[verifier::external_body]
pub(crate) fn to_lowercase(s: &str) -> (r: String)
    ensures
        r@ == str_lower(s@),
{
    s.to_lowercase()
}

/// The position of the first `c` in `s`, or -1.
pub open spec fn first_index(s: Seq<char>, c: char) -> int
    decreases s.len(),
{
    if s.len() == 0 {
        -1
    } else {
        let p = first_index(s.drop_last(), c);
        if p >= 0 {
            p
        } else if s.last() == c {
            s.len() - 1
        } else {
            -1
        }
    }
}

/// What std's `str::split_once` with a `char` gives: the parts before and after the first `c`.
pub open spec fn spec_split_once(s: Seq<char>, c: char) -> Option<(Seq<char>, Seq<char>)> {
    let p = first_index(s, c);
    if p >= 0 {
        Some((s.subrange(0, p), s.subrange(p + 1, s.len() as int)))
    } else {
        None
    }
}

/// std's `str::split_once` with a `char` pattern, the parts copied into `String`s.
#[verifier::external_body]
pub(crate) fn split_once(s: &str, c: char) -> (r: Option<(String, String)>)
    ensures
        match r {
            Some((a, b)) => spec_split_once(s@, c) == Some((a@, b@)),
            None => spec_split_once(s@, c) is None,
        },
{
    s.split_once(c).map(|(a, b)| (a.to_string(), b.to_string()))
}


/// The characters of `s` in order (std's `str::chars`, collected).
#[verifier::external_body]
pub(crate) fn chars_of(s: &str) -> (r: Vec<char>)
    ensures
        r@ == s@,
{
    s.chars().collect()
}

/// A `String` of the characters `from..to` of `v`, in order (std's
/// `String: FromIterator<char>`).
#[verifier::external_body]
pub(crate) fn string_from_chars(v: &[char], from: usize, to: usize) -> (r: String)
    requires
        from <= to <= v@.len(),
    ensures
        r@ == v@.subrange(from as int, to as int),
{
    v[from..to].iter().collect()
}

/// The pieces joined, with `d` between each two.
pub open spec fn join_with(ps: Seq<Seq<char>>, d: Seq<char>) -> Seq<char>
    decreases ps.len(),
{
    if ps.len() == 0 {
        Seq::empty()
    } else if ps.len() == 1 {
        ps[0]
    } else {
        ps[0] + d + join_with(ps.drop_first(), d)
    }
}

proof fn lemma_find_from(s: Seq<char>, d: Seq<char>, from: nat)
    ensures
        match find_from(s, d, from) {
            Some(i) => {
                &&& from <= i
                &&& i + d.len() <= s.len()
                &&& s.subrange(i as int, (i + d.len()) as int) == d
                &&& forall|k: int|
                    from <= k < i ==> #[trigger] s.subrange(k, k + d.len()) != d
            },
            None => forall|k: int|
                from <= k && k + d.len() <= s.len() ==> #[trigger] s.subrange(k, k + d.len()) != d,
        },
    decreases s.len() - from,
{
    if from + d.len() <= s.len() && s.subrange(from as int, (from + d.len()) as int) != d && from
        < s.len() {
        lemma_find_from(s, d, from + 1);
    }
}

proof fn lemma_split_from(s: Seq<char>, d: Seq<char>, start: nat)
    requires
        d.len() > 0,
        start <= s.len(),
    ensures
        split_from(s, d, start).len() >= 1,
        join_with(split_from(s, d, start), d) == s.subrange(start as int, s.len() as int),
        forall|j: int|
            0 <= j < split_from(s, d, start).len() ==> !has_infix(#[trigger] split_from(s, d, start)[j], d),
    decreases s.len() - start,
{
    lemma_find_from(s, d, start);
    let ps = split_from(s, d, start);
    match find_from(s, d, start) {
        Some(i) => {
            let piece = s.subrange(start as int, i as int);
            let rest = split_from(s, d, i + d.len());
            lemma_split_from(s, d, i + d.len());
            assert(ps == seq![piece] + rest);
            assert(ps.drop_first() =~= rest);
            assert(ps[0] == piece);
            assert(join_with(ps, d) == piece + d + join_with(rest, d));
            assert(piece + s.subrange(i as int, (i + d.len()) as int) + s.subrange((i + d.len()) as int, s.len() as int)
                =~= s.subrange(start as int, s.len() as int));
            assert(!has_infix(piece, d)) by {
                if has_infix(piece, d) {
                    let k = choose|k: int|
                        0 <= k && k + d.len() <= piece.len() && #[trigger] piece.subrange(k, k + d.len())
                            == d;
                    assert(piece.subrange(k, k + d.len()) =~= s.subrange(start + k, start + k + d.len()));
                    assert(s.subrange(start + k, start + k + d.len()) != d);
                }
            }
            assert forall|j: int| 0 <= j < ps.len() implies !has_infix(#[trigger] ps[j], d) by {
                if j > 0 {
                    assert(ps[j] == rest[j - 1]);
                }
            }
        },
        None => {
            let piece = s.subrange(start as int, s.len() as int);
            assert(ps == seq![piece]);
            assert(!has_infix(piece, d)) by {
                if has_infix(piece, d) {
                    let k = choose|k: int|
                        0 <= k && k + d.len() <= piece.len() && #[trigger] piece.subrange(k, k + d.len())
                            == d;
                    assert(piece.subrange(k, k + d.len()) =~= s.subrange(start + k, start + k + d.len()));
                    assert(s.subrange(start + k, start + k + d.len()) != d);
                }
            }
        },
    }
}

/// Law: with a separator that is not empty, the pieces of `split` join back, with the
/// separator between each two, into the text; there is at least one piece; and no piece
/// contains the separator.
pub proof fn law_split_join(s: Seq<char>, d: Seq<char>)
    requires
        d.len() > 0,
    ensures
        str_split(s, d).len() >= 1,
        join_with(str_split(s, d), d) == s,
        forall|j: int| 0 <= j < str_split(s, d).len() ==> !has_infix(#[trigger] str_split(s, d)[j], d),
{
    lemma_split_from(s, d, 0);
    assert(s.subrange(0, s.len() as int) =~= s);
}

} // verus!
