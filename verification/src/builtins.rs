use vstd::prelude::*;
use vstd::utf8::*;

use crate::env::{Store, StoreV, assoc_keys, spec_new_table, spec_table_get, spec_table_set};
use crate::text::{
    has_infix, has_prefix, has_suffix, spec_parse_u32, str_split, split_by, str_contains,
    str_ends_with, str_eq, str_starts_with, parse_u32, owned,
};
use crate::value::{Value, ValueV, display_spec, is_falsy, lemma_value_views, string_views, value_views};

verus! {

broadcast use vstd::std_specs::vec::group_vec_axioms;

// ---------------------------------------------------------------------------
// The model of each builtin: which arguments it accepts, and what it gives back.
// A builtin is applied to the models of its argument values.
// ---------------------------------------------------------------------------

/// The models of the argument values.
pub open spec fn argv(args: &[Value]) -> Seq<ValueV> {
    value_views(args@)
}

/// Argument `i` is present and an integer.
pub open spec fn int_at(a: Seq<ValueV>, i: int) -> bool {
    0 <= i < a.len() && a[i] is Int
}

/// Argument `i` is present and a string.
pub open spec fn str_at(a: Seq<ValueV>, i: int) -> bool {
    0 <= i < a.len() && a[i] is Str
}

/// Argument `i` is present and a list.
pub open spec fn list_at(a: Seq<ValueV>, i: int) -> bool {
    0 <= i < a.len() && a[i] is List
}

/// The integer of a value (0 for a value of another kind).
pub open spec fn ival(v: ValueV) -> int {
    match v {
        ValueV::Int(n) => n as int,
        _ => 0,
    }
}

/// The characters of a string value (empty for a value of another kind).
pub open spec fn sval(v: ValueV) -> Seq<char> {
    match v {
        ValueV::Str(s) => s,
        _ => Seq::empty(),
    }
}

/// The items of a list value (empty for a value of another kind).
pub open spec fn lval(v: ValueV) -> Seq<ValueV> {
    match v {
        ValueV::List(items) => items,
        _ => Seq::empty(),
    }
}

/// The first two arguments are integers.
pub open spec fn two_ints(a: Seq<ValueV>) -> bool {
    int_at(a, 0) && int_at(a, 1)
}

/// The first two arguments are strings.
pub open spec fn two_strs(a: Seq<ValueV>) -> bool {
    str_at(a, 0) && str_at(a, 1)
}

/// `x` fits in an `i64`.
pub open spec fn fits_i64(x: int) -> bool {
    i64::MIN <= x <= i64::MAX
}

/// Rust's `/` on integers: the quotient rounded toward zero.
pub open spec fn trunc_div(x: int, d: int) -> int {
    if x == 0 {
        0
    } else if x > 0 && d > 0 {
        x / d
    } else if x < 0 && d < 0 {
        (x * -1) / (d * -1)
    } else if x < 0 {
        ((x * -1) / d) * -1
    } else {
        (x / (d * -1)) * -1
    }
}

/// Rust's `%` on integers: the remainder of `trunc_div`, with the sign of `x`.
pub open spec fn trunc_rem(x: int, d: int) -> int {
    if x == 0 {
        0
    } else if x > 0 && d > 0 {
        x % d
    } else if x < 0 && d < 0 {
        ((x * -1) % (d * -1)) * -1
    } else if x < 0 {
        ((x * -1) % d) * -1
    } else {
        x % (d * -1)
    }
}

/// The length of a string in bytes of UTF-8.
pub open spec fn byte_len(s: Seq<char>) -> nat {
    encode_utf8(s).len()
}

/// The characters of bytes `start..end` of the UTF-8 form of `s`.
pub open spec fn byte_substring(s: Seq<char>, start: int, end: int) -> Seq<char> {
    decode_utf8(encode_utf8(s).subrange(start, end))
}

/// `+`, `-`, `*`: two integers whose result fits in an `i64`.
pub open spec fn accepts_add(a: Seq<ValueV>) -> bool {
    two_ints(a) && fits_i64(ival(a[0]) + ival(a[1]))
}

pub open spec fn accepts_sub(a: Seq<ValueV>) -> bool {
    two_ints(a) && fits_i64(ival(a[0]) - ival(a[1]))
}

pub open spec fn accepts_mul(a: Seq<ValueV>) -> bool {
    two_ints(a) && fits_i64(ival(a[0]) * ival(a[1]))
}

/// `/` and `%`: two integers, a divisor other than 0, and not `i64::MIN` by -1.
pub open spec fn accepts_div(a: Seq<ValueV>) -> bool {
    two_ints(a) && ival(a[1]) != 0 && !(ival(a[0]) == i64::MIN && ival(a[1]) == -1)
}

/// `string-append`: every argument a string.
pub open spec fn all_strs(a: Seq<ValueV>) -> bool {
    forall|i: int| 0 <= i < a.len() ==> #[trigger] a[i] is Str
}

/// The concatenation of the string arguments.
pub open spec fn concat_strs(a: Seq<ValueV>) -> Seq<char>
    decreases a.len(),
{
    if a.len() == 0 {
        Seq::empty()
    } else {
        concat_strs(a.drop_last()) + sval(a.last())
    }
}

/// `substring`: a string and two integers that are character boundaries of its UTF-8 form,
/// the first not after the second.
pub open spec fn accepts_substring(a: Seq<ValueV>) -> bool {
    &&& str_at(a, 0) && int_at(a, 1) && int_at(a, 2)
    &&& 0 <= ival(a[1]) <= ival(a[2]) <= byte_len(sval(a[0]))
    &&& ival(a[2]) <= usize::MAX
    &&& is_char_boundary(encode_utf8(sval(a[0])), ival(a[1]))
    &&& is_char_boundary(encode_utf8(sval(a[0])), ival(a[2]))
}

/// `car`, `cdr`: a non-empty list.
pub open spec fn accepts_nonempty_list(a: Seq<ValueV>) -> bool {
    list_at(a, 0) && lval(a[0]).len() > 0
}

/// `cons`: a second argument that is a list.
pub open spec fn accepts_cons(a: Seq<ValueV>) -> bool {
    a.len() >= 2 && list_at(a, 1)
}

/// A string value for each piece.
pub open spec fn str_values(parts: Seq<Seq<char>>) -> Seq<ValueV> {
    parts.map_values(|p: Seq<char>| ValueV::Str(p))
}

/// Four pieces, each a `u32` (as std parses one) of at most 255.
pub open spec fn is_ip_parts(parts: Seq<Seq<char>>) -> bool {
    &&& parts.len() == 4
    &&& forall|i: int|
        0 <= i < 4 ==> (#[trigger] spec_parse_u32(parts[i]) matches Some(n) && n <= 255)
}

/// `ip-address?`: the pieces between dots are four numbers from 0 to 255.
pub open spec fn is_ip_address(s: Seq<char>) -> bool {
    is_ip_parts(str_split(s, "."@))
}

/// `null?`: true of an empty list and of `nil`.
pub open spec fn is_null(v: ValueV) -> bool {
    match v {
        ValueV::List(items) => items.len() == 0,
        ValueV::Nil => true,
        _ => false,
    }
}

/// A table argument at `i` that names a table of the store.
pub open spec fn table_at(a: Seq<ValueV>, i: int, st: StoreV) -> bool {
    0 <= i < a.len() && (a[i] matches ValueV::Table(t) && t < st.tables.len())
}

/// The handle of a table value (0 for a value of another kind).
pub open spec fn tval(v: ValueV) -> nat {
    match v {
        ValueV::Table(t) => t,
        _ => 0,
    }
}

/// The value `respond` gives back: a new table, after all existing ones.
pub open spec fn respond_store(a: Seq<ValueV>, st: StoreV) -> StoreV {
    let t = st.tables.len();
    spec_table_set(
        spec_table_set(spec_new_table(st), t, "status"@, a[0]),
        t,
        "body"@,
        a[1],
    )
}

// ---------------------------------------------------------------------------
// The builtins.
// ---------------------------------------------------------------------------

/// `(+ a b)`.
pub fn builtin_add(args: &[Value]) -> (r: Value)
    requires
        accepts_add(argv(args)),
    ensures
        r@ == ValueV::Int((ival(argv(args)[0]) + ival(argv(args)[1])) as i64),
{
    proof {
        lemma_value_views(args@);
    }
    match (&args[0], &args[1]) {
        (Value::Int(x), Value::Int(y)) => Value::Int(*x + *y),
        _ => Value::Nil,
    }
}


/// `(- a b)`.
pub fn builtin_sub(args: &[Value]) -> (r: Value)
    requires
        accepts_sub(argv(args)),
    ensures
        r@ == ValueV::Int((ival(argv(args)[0]) - ival(argv(args)[1])) as i64),
{
    proof {
        lemma_value_views(args@);
    }
    match (&args[0], &args[1]) {
        (Value::Int(x), Value::Int(y)) => Value::Int(*x - *y),
        _ => Value::Nil,
    }
}

/// `(* a b)`.
pub fn builtin_mul(args: &[Value]) -> (r: Value)
    requires
        accepts_mul(argv(args)),
    ensures
        r@ == ValueV::Int((ival(argv(args)[0]) * ival(argv(args)[1])) as i64),
{
    proof {
        lemma_value_views(args@);
    }
    match (&args[0], &args[1]) {
        (Value::Int(x), Value::Int(y)) => Value::Int(*x * *y),
        _ => Value::Nil,
    }
}

/// A quotient rounded toward zero is no larger in size than the dividend.
proof fn lemma_trunc_fits(x: int, d: int)
    requires
        d != 0,
        fits_i64(x),
        fits_i64(d),
        !(x == i64::MIN && d == -1),
    ensures
        fits_i64(trunc_div(x, d)),
        fits_i64(trunc_rem(x, d)),
{
    if x > 0 && d > 0 {
        assert(x / d <= x) by (nonlinear_arith)
            requires
                x > 0,
                d > 0,
        ;
        assert(x % d < d) by (nonlinear_arith)
            requires
                d > 0,
        ;
    } else if x < 0 && d < 0 {
        assert((x * -1) / (d * -1) <= x * -1) by (nonlinear_arith)
            requires
                x < 0,
                d < 0,
        ;
        assert(d == -1 ==> (x * -1) / (d * -1) == x * -1);
        if d < -1 {
            assert((x * -1) / (d * -1) < (x * -1)) by (nonlinear_arith)
                requires
                    x < 0,
                    d < -1,
            ;
        }
        assert((x * -1) % (d * -1) < d * -1) by (nonlinear_arith)
            requires
                d < 0,
        ;
    } else if x < 0 {
        assert((x * -1) / d <= x * -1) by (nonlinear_arith)
            requires
                x < 0,
                d > 0,
        ;
        assert((x * -1) % d < d) by (nonlinear_arith)
            requires
                d > 0,
        ;
    } else if x > 0 {
        assert(x / (d * -1) <= x) by (nonlinear_arith)
            requires
                x > 0,
                d < 0,
        ;
        assert(x % (d * -1) < d * -1) by (nonlinear_arith)
            requires
                d < 0,
        ;
    }
}

/// `(/ a b)`: the quotient rounded toward zero.
pub fn builtin_div(args: &[Value]) -> (r: Value)
    requires
        accepts_div(argv(args)),
    ensures
        r@ == ValueV::Int(trunc_div(ival(argv(args)[0]), ival(argv(args)[1])) as i64),
{
    proof {
        lemma_value_views(args@);
    }
    match (&args[0], &args[1]) {
        (Value::Int(x), Value::Int(y)) => {
            proof {
                lemma_trunc_fits(*x as int, *y as int);
            }
            match x.checked_div(*y) {
                Some(q) => Value::Int(q),
                None => Value::Nil,
            }
        },
        _ => Value::Nil,
    }
}

/// `(% a b)`: the remainder, with the sign of `a`.
pub fn builtin_mod(args: &[Value]) -> (r: Value)
    requires
        accepts_div(argv(args)),
    ensures
        r@ == ValueV::Int(trunc_rem(ival(argv(args)[0]), ival(argv(args)[1])) as i64),
{
    proof {
        lemma_value_views(args@);
    }
    match (&args[0], &args[1]) {
        (Value::Int(x), Value::Int(y)) => {
            proof {
                lemma_trunc_fits(*x as int, *y as int);
            }
            match x.checked_rem(*y) {
                Some(q) => Value::Int(q),
                None => Value::Nil,
            }
        },
        _ => Value::Nil,
    }
}

/// `(= a b)` on integers.
pub fn builtin_eq(args: &[Value]) -> (r: Value)
    requires
        two_ints(argv(args)),
    ensures
        r@ == ValueV::Bool(ival(argv(args)[0]) == ival(argv(args)[1])),
{
    proof {
        lemma_value_views(args@);
    }
    match (&args[0], &args[1]) {
        (Value::Int(x), Value::Int(y)) => Value::Bool(*x == *y),
        _ => Value::Nil,
    }
}

/// `(< a b)` on integers.
pub fn builtin_lt(args: &[Value]) -> (r: Value)
    requires
        two_ints(argv(args)),
    ensures
        r@ == ValueV::Bool(ival(argv(args)[0]) < ival(argv(args)[1])),
{
    proof {
        lemma_value_views(args@);
    }
    match (&args[0], &args[1]) {
        (Value::Int(x), Value::Int(y)) => Value::Bool(*x < *y),
        _ => Value::Nil,
    }
}

/// `(> a b)` on integers.
pub fn builtin_gt(args: &[Value]) -> (r: Value)
    requires
        two_ints(argv(args)),
    ensures
        r@ == ValueV::Bool(ival(argv(args)[0]) > ival(argv(args)[1])),
{
    proof {
        lemma_value_views(args@);
    }
    match (&args[0], &args[1]) {
        (Value::Int(x), Value::Int(y)) => Value::Bool(*x > *y),
        _ => Value::Nil,
    }
}

/// `(<= a b)` on integers.
pub fn builtin_le(args: &[Value]) -> (r: Value)
    requires
        two_ints(argv(args)),
    ensures
        r@ == ValueV::Bool(ival(argv(args)[0]) <= ival(argv(args)[1])),
{
    proof {
        lemma_value_views(args@);
    }
    match (&args[0], &args[1]) {
        (Value::Int(x), Value::Int(y)) => Value::Bool(*x <= *y),
        _ => Value::Nil,
    }
}

/// `(>= a b)` on integers.
pub fn builtin_ge(args: &[Value]) -> (r: Value)
    requires
        two_ints(argv(args)),
    ensures
        r@ == ValueV::Bool(ival(argv(args)[0]) >= ival(argv(args)[1])),
{
    proof {
        lemma_value_views(args@);
    }
    match (&args[0], &args[1]) {
        (Value::Int(x), Value::Int(y)) => Value::Bool(*x >= *y),
        _ => Value::Nil,
    }
}

/// `(not v)`: true exactly of `#f` and `nil`.
pub fn builtin_not(args: &[Value]) -> (r: Value)
    requires
        argv(args).len() >= 1,
    ensures
        r@ == ValueV::Bool(is_falsy(argv(args)[0])),
{
    proof {
        lemma_value_views(args@);
    }
    Value::Bool(args[0].is_falsy())
}

/// `(string-length s)`: the length of `s` in bytes of UTF-8.
pub fn builtin_string_length(args: &[Value]) -> (r: Value)
    requires
        str_at(argv(args), 0),
    ensures
        r@ == ValueV::Int((byte_len(sval(argv(args)[0])) as usize) as i64),
{
    proof {
        lemma_value_views(args@);
    }
    match &args[0] {
        Value::Str(s) => Value::Int(s.as_str().len() as i64),
        _ => Value::Nil,
    }
}

/// `(string-eq? a b)`: the two strings hold the same characters.
pub fn builtin_string_eq(args: &[Value]) -> (r: Value)
    requires
        two_strs(argv(args)),
    ensures
        r@ == ValueV::Bool(sval(argv(args)[0]) == sval(argv(args)[1])),
{
    proof {
        lemma_value_views(args@);
    }
    match (&args[0], &args[1]) {
        (Value::Str(x), Value::Str(y)) => Value::Bool(str_eq(x.as_str(), y.as_str())),
        _ => Value::Nil,
    }
}

/// `(string-append s ...)`: the strings joined in order.
pub fn builtin_string_append(args: &[Value]) -> (r: Value)
    requires
        all_strs(argv(args)),
    ensures
        r@ == ValueV::Str(concat_strs(argv(args))),
{
    let ghost a = argv(args);
    proof {
        lemma_value_views(args@);
    }
    let mut result = String::new();
    let mut i: usize = 0;
    while i < args.len()
        invariant
            i <= args@.len(),
            a == argv(args),
            a.len() == args@.len(),
            all_strs(a),
            forall|j: int| 0 <= j < args@.len() ==> #[trigger] a[j] == args@[j]@,
            result@ == concat_strs(a.take(i as int)),
        decreases args@.len() - i,
    {
        proof {
            assert(a.take(i + 1).drop_last() =~= a.take(i as int));
            assert(a[i as int] is Str);
        }
        match &args[i] {
            Value::Str(s) => {
                result.append(s.as_str());
            },
            _ => {},
        }
        i = i + 1;
    }
    proof {
        assert(a.take(args@.len() as int) =~= a);
    }
    Value::Str(result)
}

/// Bytes `start..end` of the UTF-8 form of `s` are again the UTF-8 form of a string when both
/// ends are character boundaries.
proof fn lemma_inner_boundary(bytes: Seq<u8>, start: int, end: int)
    requires
        valid_utf8(bytes),
        0 <= start <= end <= bytes.len(),
        is_char_boundary(bytes, start),
        is_char_boundary(bytes, end),
    ensures
        valid_utf8(bytes.subrange(start, bytes.len() as int)),
        is_char_boundary(bytes.subrange(start, bytes.len() as int), end - start),
{
    let tail = bytes.subrange(start, bytes.len() as int);
    valid_utf8_split(bytes, start);
    is_char_boundary_start_end_of_seq(tail);
    if end < bytes.len() {
        is_char_boundary_iff_not_is_continuation_byte(bytes, end);
        is_char_boundary_iff_not_is_continuation_byte(tail, end - start);
        assert(tail[end - start] == bytes[end]);
    } else {
        assert(end - start == tail.len());
    }
}

/// `(substring s start end)`: bytes `start..end` of `s`.
pub fn builtin_substring(args: &[Value]) -> (r: Value)
    requires
        accepts_substring(argv(args)),
    ensures
        r@ == ValueV::Str(
            byte_substring(sval(argv(args)[0]), ival(argv(args)[1]), ival(argv(args)[2])),
        ),
{
    proof {
        lemma_value_views(args@);
    }
    match (&args[0], &args[1], &args[2]) {
        (Value::Str(s), Value::Int(start), Value::Int(end)) => {
            let st = *start as usize;
            let en = *end as usize;
            let text: &str = s.as_str();
            let ghost bytes = encode_utf8(s@);
            proof {
                encode_utf8_valid_utf8(s@);
                lemma_inner_boundary(bytes, st as int, en as int);
            }
            let (_, tail) = text.split_at(st);
            let (mid, _) = tail.split_at(en - st);
            proof {
                assert(encode_utf8(mid@) =~= bytes.subrange(st as int, en as int));
                encode_utf8_decode_utf8(mid@);
            }
            Value::Str(owned(mid))
        },
        _ => Value::Nil,
    }
}

/// `(starts-with? s p)`.
pub fn builtin_starts_with(args: &[Value]) -> (r: Value)
    requires
        two_strs(argv(args)),
    ensures
        r@ == ValueV::Bool(has_prefix(sval(argv(args)[0]), sval(argv(args)[1]))),
{
    proof {
        lemma_value_views(args@);
    }
    match (&args[0], &args[1]) {
        (Value::Str(x), Value::Str(y)) => Value::Bool(str_starts_with(x.as_str(), y.as_str())),
        _ => Value::Nil,
    }
}

/// `(ends-with? s p)`.
pub fn builtin_ends_with(args: &[Value]) -> (r: Value)
    requires
        two_strs(argv(args)),
    ensures
        r@ == ValueV::Bool(has_suffix(sval(argv(args)[0]), sval(argv(args)[1]))),
{
    proof {
        lemma_value_views(args@);
    }
    match (&args[0], &args[1]) {
        (Value::Str(x), Value::Str(y)) => Value::Bool(str_ends_with(x.as_str(), y.as_str())),
        _ => Value::Nil,
    }
}

/// `(contains? s p)`.
pub fn builtin_contains(args: &[Value]) -> (r: Value)
    requires
        two_strs(argv(args)),
    ensures
        r@ == ValueV::Bool(has_infix(sval(argv(args)[0]), sval(argv(args)[1]))),
{
    proof {
        lemma_value_views(args@);
    }
    match (&args[0], &args[1]) {
        (Value::Str(x), Value::Str(y)) => Value::Bool(str_contains(x.as_str(), y.as_str())),
        _ => Value::Nil,
    }
}

/// String values for a list of strings, in order.
fn str_list(parts: Vec<String>) -> (r: Vec<Value>)
    ensures
        value_views(r@) == str_values(string_views(parts@)),
{
    let mut out: Vec<Value> = Vec::new();
    let ghost all = parts@;
    let mut i: usize = 0;
    let n = parts.len();
    while i < n
        invariant
            n == all.len(),
            i <= n,
            out@.len() == i,
            forall|j: int| 0 <= j < i ==> #[trigger] out@[j]@ == ValueV::Str(all[j]@),
            parts@.len() == n,
            forall|j: int| i <= j < n ==> #[trigger] parts@[j] == all[j],
        decreases n - i,
    {
        let p = parts[i].clone();
        out.push(Value::Str(p));
        i = i + 1;
    }
    proof {
        lemma_value_views(out@);
        assert forall|j: int| 0 <= j < out@.len() implies value_views(out@)[j] == str_values(
            string_views(all),
        )[j] by {
            assert(out@[j]@ == ValueV::Str(all[j]@));
        }
        assert(value_views(out@) =~= str_values(string_views(all)));
    }
    out
}

/// `(split s delim)`: the pieces of `s` between occurrences of `delim`, as std's `split`
/// gives them.
pub fn builtin_split(args: &[Value]) -> (r: Value)
    requires
        two_strs(argv(args)),
    ensures
        r@ == ValueV::List(str_values(str_split(sval(argv(args)[0]), sval(argv(args)[1])))),
{
    proof {
        lemma_value_views(args@);
    }
    match (&args[0], &args[1]) {
        (Value::Str(x), Value::Str(y)) => {
            let parts = split_by(x.as_str(), y.as_str());
            pieces_value(parts)
        },
        _ => Value::Nil,
    }
}

/// The value `split` gives back for the pieces std's `split` yielded: a list of them as
/// strings, in order.
pub fn pieces_value(parts: Vec<String>) -> (r: Value)
    ensures
        r@ == ValueV::List(str_values(string_views(parts@))),
{
    Value::List(str_list(parts))
}

/// Copies of a run of argument values.
fn copy_slice(args: &[Value], from: usize) -> (r: Vec<Value>)
    requires
        from <= args@.len(),
    ensures
        value_views(r@) == argv(args).subrange(from as int, args@.len() as int),
{
    proof {
        lemma_value_views(args@);
    }
    let mut out: Vec<Value> = Vec::new();
    let mut i: usize = from;
    while i < args.len()
        invariant
            from <= i <= args@.len(),
            out@.len() == i - from,
            forall|j: int| 0 <= j < i - from ==> #[trigger] out@[j]@ == args@[j + from]@,
        decreases args@.len() - i,
    {
        out.push(args[i].duplicate());
        i = i + 1;
    }
    proof {
        lemma_value_views(out@);
        lemma_value_views(args@);
        assert forall|j: int| 0 <= j < out@.len() implies value_views(out@)[j] == argv(
            args,
        ).subrange(from as int, args@.len() as int)[j] by {
            assert(out@[j]@ == args@[j + from]@);
        }
        assert(value_views(out@) =~= argv(args).subrange(from as int, args@.len() as int));
    }
    out
}

/// `(list v ...)`: the arguments as a list.
pub fn builtin_list(args: &[Value]) -> (r: Value)
    ensures
        r@ == ValueV::List(argv(args)),
{
    let items = copy_slice(args, 0);
    proof {
        lemma_value_views(args@);
        assert(argv(args).subrange(0, args@.len() as int) =~= argv(args));
    }
    Value::List(items)
}

/// `(car l)`: the first item of a non-empty list.
pub fn builtin_car(args: &[Value]) -> (r: Value)
    requires
        accepts_nonempty_list(argv(args)),
    ensures
        r@ == lval(argv(args)[0])[0],
{
    proof {
        lemma_value_views(args@);
    }
    match &args[0] {
        Value::List(items) => {
            proof {
                lemma_value_views(items@);
            }
            items[0].duplicate()
        },
        _ => Value::Nil,
    }
}

/// `(cdr l)`: a non-empty list without its first item.
pub fn builtin_cdr(args: &[Value]) -> (r: Value)
    requires
        accepts_nonempty_list(argv(args)),
    ensures
        r@ == ValueV::List(lval(argv(args)[0]).drop_first()),
{
    proof {
        lemma_value_views(args@);
    }
    match &args[0] {
        Value::List(items) => {
            let rest = copy_slice(items.as_slice(), 1);
            proof {
                lemma_value_views(items@);
                assert(value_views(items@).subrange(1, items@.len() as int) =~= value_views(
                    items@,
                ).drop_first());
            }
            Value::List(rest)
        },
        _ => Value::Nil,
    }
}

/// `(cons v l)`: `l` with `v` in front.
pub fn builtin_cons(args: &[Value]) -> (r: Value)
    requires
        accepts_cons(argv(args)),
    ensures
        r@ == ValueV::List(seq![argv(args)[0]] + lval(argv(args)[1])),
{
    proof {
        lemma_value_views(args@);
    }
    match &args[1] {
        Value::List(items) => {
            let mut out: Vec<Value> = Vec::new();
            out.push(args[0].duplicate());
            let rest = copy_slice(items.as_slice(), 0);
            let ghost first = out@;
            let ghost rest_model = rest@;
            let mut rest = rest;
            out.append(&mut rest);
            proof {
                lemma_value_views(items@);
                lemma_value_views(out@);
                lemma_value_views(first);
                lemma_value_views(rest_model);
                assert(value_views(items@).subrange(0, items@.len() as int) =~= value_views(items@));
                assert(value_views(out@) =~= seq![argv(args)[0]] + value_views(items@));
            }
            Value::List(out)
        },
        _ => Value::Nil,
    }
}

/// `(null? v)`: true of an empty list and of `nil`.
pub fn builtin_null(args: &[Value]) -> (r: Value)
    requires
        argv(args).len() >= 1,
    ensures
        r@ == ValueV::Bool(is_null(argv(args)[0])),
{
    proof {
        lemma_value_views(args@);
    }
    match &args[0] {
        Value::List(items) => {
            proof {
                lemma_value_views(items@);
            }
            Value::Bool(items.len() == 0)
        },
        Value::Nil => Value::Bool(true),
        _ => Value::Bool(false),
    }
}

/// `(length l)`: the number of items of a list.
pub fn builtin_length(args: &[Value]) -> (r: Value)
    requires
        list_at(argv(args), 0),
    ensures
        r@ == ValueV::Int(lval(argv(args)[0]).len() as i64),
{
    proof {
        lemma_value_views(args@);
    }
    match &args[0] {
        Value::List(items) => {
            proof {
                lemma_value_views(items@);
            }
            Value::Int(items.len() as i64)
        },
        _ => Value::Nil,
    }
}

/// `(ip-address? s)`: four dot-separated numbers from 0 to 255.
pub fn builtin_ip_address(args: &[Value]) -> (r: Value)
    requires
        str_at(argv(args), 0),
    ensures
        r@ == ValueV::Bool(is_ip_address(sval(argv(args)[0]))),
{
    proof {
        lemma_value_views(args@);
    }
    match &args[0] {
        Value::Str(s) => {
            let parts = split_by(s.as_str(), ".");
            Value::Bool(ip_parts_ok(&parts))
        },
        _ => Value::Nil,
    }
}

/// Whether the pieces std's `split` yielded for `ip-address?` are four numbers from 0 to 255.
pub fn ip_parts_ok(parts: &Vec<String>) -> (r: bool)
    ensures
        r == is_ip_parts(string_views(parts@)),
{
    let ghost ps = string_views(parts@);
    if parts.len() != 4 {
        return false;
    }
    let mut i: usize = 0;
    while i < 4
        invariant
            i <= 4,
            parts@.len() == 4,
            ps == string_views(parts@),
            forall|j: int|
                0 <= j < i ==> (#[trigger] spec_parse_u32(ps[j]) matches Some(n) && n <= 255),
        decreases 4 - i,
    {
        proof {
            assert(ps[i as int] == parts@[i as int]@);
        }
        match parse_u32(parts[i].as_str()) {
            Some(n) => {
                if n > 255 {
                    proof {
                        assert(!(spec_parse_u32(ps[i as int]) matches Some(m) && m <= 255));
                    }
                    return false;
                }
            },
            None => {
                proof {
                    assert(!(spec_parse_u32(ps[i as int]) matches Some(m) && m <= 255));
                }
                return false;
            },
        }
        i = i + 1;
    }
    true
}

/// The value under `k` in table `t`, or `nil`.
pub open spec fn table_get_or_nil(st: StoreV, t: nat, k: Seq<char>) -> ValueV {
    match spec_table_get(st, t, k) {
        Some(v) => v,
        None => ValueV::Nil,
    }
}

/// `(table-get t k)`: the value under key `k`, or `nil` when there is none.
pub fn builtin_table_get(args: &[Value], store: &Store) -> (r: Value)
    requires
        table_at(argv(args), 0, store@),
        str_at(argv(args), 1),
    ensures
        r@ == table_get_or_nil(store@, tval(argv(args)[0]), sval(argv(args)[1])),
{
    proof {
        lemma_value_views(args@);
    }
    match (&args[0], &args[1]) {
        (Value::Table(t), Value::Str(k)) => match store.table_get(*t, k.as_str()) {
            Some(v) => v,
            None => Value::Nil,
        },
        _ => Value::Nil,
    }
}

/// `(table-set! t k v)`: sets key `k` of the table to `v`, seen by every holder of the table.
pub fn builtin_table_set(args: &[Value], store: &mut Store) -> (r: Value)
    requires
        table_at(argv(args), 0, old(store)@),
        str_at(argv(args), 1),
        argv(args).len() >= 3,
    ensures
        r@ == ValueV::Nil,
        final(store)@ == spec_table_set(
            old(store)@,
            tval(argv(args)[0]),
            sval(argv(args)[1]),
            argv(args)[2],
        ),
{
    proof {
        lemma_value_views(args@);
    }
    match (&args[0], &args[1]) {
        (Value::Table(t), Value::Str(k)) => {
            store.table_set(*t, k.clone(), args[2].duplicate());
            Value::Nil
        },
        _ => Value::Nil,
    }
}

/// `(table-has? t k)`: whether the table has key `k`.
pub fn builtin_table_has(args: &[Value], store: &Store) -> (r: Value)
    requires
        table_at(argv(args), 0, store@),
        str_at(argv(args), 1),
    ensures
        r@ == ValueV::Bool(spec_table_get(store@, tval(argv(args)[0]), sval(argv(args)[1])) is Some),
{
    proof {
        lemma_value_views(args@);
    }
    match (&args[0], &args[1]) {
        (Value::Table(t), Value::Str(k)) => match store.table_get(*t, k.as_str()) {
            Some(_) => Value::Bool(true),
            None => Value::Bool(false),
        },
        _ => Value::Nil,
    }
}

/// `(table-keys t)`: the keys of the table as a list of strings, in the order they were
/// first set.
pub fn builtin_table_keys(args: &[Value], store: &Store) -> (r: Value)
    requires
        table_at(argv(args), 0, store@),
    ensures
        r@ == ValueV::List(str_values(assoc_keys(store@.tables[tval(argv(args)[0]) as int]))),
{
    proof {
        lemma_value_views(args@);
    }
    match &args[0] {
        Value::Table(t) => {
            let keys = store.table_keys(*t);
            Value::List(str_list(keys))
        },
        _ => Value::Nil,
    }
}

/// `(respond status body)`: a new table with `"status"` and `"body"`.
pub fn builtin_respond(args: &[Value], store: &mut Store) -> (r: Value)
    requires
        int_at(argv(args), 0),
        str_at(argv(args), 1),
    ensures
        r@ == ValueV::Table(old(store)@.tables.len()),
        final(store)@ == respond_store(argv(args), old(store)@),
{
    proof {
        lemma_value_views(args@);
    }
    let t = store.new_table();
    store.table_set(t, owned("status"), args[0].duplicate());
    store.table_set(t, owned("body"), args[1].duplicate());
    Value::Table(t)
}

/// `(print v)`: adds the shown value as one line of output.
pub fn builtin_print(args: &[Value], out: &mut Vec<String>) -> (r: Value)
    requires
        argv(args).len() == 1,
    ensures
        r@ == ValueV::Nil,
        string_views(final(out)@) == string_views(old(out)@).push(display_spec(argv(args)[0])),
{
    proof {
        lemma_value_views(args@);
    }
    let line = args[0].display();
    out.push(line);
    proof {
        assert(string_views(out@) =~= string_views(old(out)@).push(display_spec(argv(args)[0])));
    }
    Value::Nil
}

/// The names of the builtins, in the order `builtin_names` lists them.
pub open spec fn spec_builtin_names() -> Seq<Seq<char>> {
    seq![
        "print"@, "+"@, "-"@, "*"@, "/"@, "%"@, "="@, "<"@, ">"@, "<="@, ">="@, "not"@,
        "string-length"@, "string-eq?"@, "string-append"@, "substring"@, "starts-with?"@,
        "ends-with?"@, "contains?"@, "split"@, "list"@, "car"@, "cdr"@, "cons"@, "null?"@,
        "length"@, "ip-address?"@, "table-get"@, "table-set!"@, "table-has?"@, "table-keys"@,
        "respond"@,
    ]
}

/// The names of all builtins.
pub fn builtin_names() -> (r: Vec<&'static str>)
    ensures
        r@.map_values(|s: &str| s@) == spec_builtin_names(),
{
    let r = vec![
        "print", "+", "-", "*", "/", "%", "=", "<", ">", "<=", ">=", "not",
        "string-length", "string-eq?", "string-append", "substring", "starts-with?",
        "ends-with?", "contains?", "split", "list", "car", "cdr", "cons", "null?",
        "length", "ip-address?", "table-get", "table-set!", "table-has?", "table-keys",
        "respond",
    ];
    assert(r@.map_values(|s: &str| s@) =~= spec_builtin_names());
    r
}

/// Whether builtin `name` accepts these arguments.
/// An unknown name is accepted by none.
pub open spec fn builtin_accepts(name: Seq<char>, a: Seq<ValueV>, st: StoreV) -> bool {
    if name == "print"@ {
        a.len() == 1
    } else if name == "+"@ {
        accepts_add(a)
    } else if name == "-"@ {
        accepts_sub(a)
    } else if name == "*"@ {
        accepts_mul(a)
    } else if name == "/"@ {
        accepts_div(a)
    } else if name == "%"@ {
        accepts_div(a)
    } else if name == "="@ {
        two_ints(a)
    } else if name == "<"@ {
        two_ints(a)
    } else if name == ">"@ {
        two_ints(a)
    } else if name == "<="@ {
        two_ints(a)
    } else if name == ">="@ {
        two_ints(a)
    } else if name == "not"@ {
        a.len() >= 1
    } else if name == "string-length"@ {
        str_at(a, 0)
    } else if name == "string-eq?"@ {
        two_strs(a)
    } else if name == "string-append"@ {
        all_strs(a)
    } else if name == "substring"@ {
        accepts_substring(a)
    } else if name == "starts-with?"@ {
        two_strs(a)
    } else if name == "ends-with?"@ {
        two_strs(a)
    } else if name == "contains?"@ {
        two_strs(a)
    } else if name == "split"@ {
        two_strs(a)
    } else if name == "list"@ {
        true
    } else if name == "car"@ {
        accepts_nonempty_list(a)
    } else if name == "cdr"@ {
        accepts_nonempty_list(a)
    } else if name == "cons"@ {
        accepts_cons(a)
    } else if name == "null?"@ {
        a.len() >= 1
    } else if name == "length"@ {
        list_at(a, 0)
    } else if name == "ip-address?"@ {
        str_at(a, 0)
    } else if name == "table-get"@ {
        table_at(a, 0, st) && str_at(a, 1)
    } else if name == "table-set!"@ {
        table_at(a, 0, st) && str_at(a, 1) && a.len() >= 3
    } else if name == "table-has?"@ {
        table_at(a, 0, st) && str_at(a, 1)
    } else if name == "table-keys"@ {
        table_at(a, 0, st)
    } else if name == "respond"@ {
        int_at(a, 0) && str_at(a, 1)
    } else {
        false
    }
}

/// What builtin `name` gives back on accepted arguments: its value, the store after it, and
/// the output after it.
pub open spec fn builtin_apply(name: Seq<char>, a: Seq<ValueV>, st: StoreV, out: Seq<Seq<char>>) -> (
    ValueV,
    StoreV,
    Seq<Seq<char>>,
) {
    if name == "print"@ {
        (ValueV::Nil, st, out.push(display_spec(a[0])))
    } else if name == "+"@ {
        (ValueV::Int((ival(a[0]) + ival(a[1])) as i64), st, out)
    } else if name == "-"@ {
        (ValueV::Int((ival(a[0]) - ival(a[1])) as i64), st, out)
    } else if name == "*"@ {
        (ValueV::Int((ival(a[0]) * ival(a[1])) as i64), st, out)
    } else if name == "/"@ {
        (ValueV::Int(trunc_div(ival(a[0]), ival(a[1])) as i64), st, out)
    } else if name == "%"@ {
        (ValueV::Int(trunc_rem(ival(a[0]), ival(a[1])) as i64), st, out)
    } else if name == "="@ {
        (ValueV::Bool(ival(a[0]) == ival(a[1])), st, out)
    } else if name == "<"@ {
        (ValueV::Bool(ival(a[0]) < ival(a[1])), st, out)
    } else if name == ">"@ {
        (ValueV::Bool(ival(a[0]) > ival(a[1])), st, out)
    } else if name == "<="@ {
        (ValueV::Bool(ival(a[0]) <= ival(a[1])), st, out)
    } else if name == ">="@ {
        (ValueV::Bool(ival(a[0]) >= ival(a[1])), st, out)
    } else if name == "not"@ {
        (ValueV::Bool(is_falsy(a[0])), st, out)
    } else if name == "string-length"@ {
        (ValueV::Int((byte_len(sval(a[0])) as usize) as i64), st, out)
    } else if name == "string-eq?"@ {
        (ValueV::Bool(sval(a[0]) == sval(a[1])), st, out)
    } else if name == "string-append"@ {
        (ValueV::Str(concat_strs(a)), st, out)
    } else if name == "substring"@ {
        (ValueV::Str(byte_substring(sval(a[0]), ival(a[1]), ival(a[2]))), st, out)
    } else if name == "starts-with?"@ {
        (ValueV::Bool(has_prefix(sval(a[0]), sval(a[1]))), st, out)
    } else if name == "ends-with?"@ {
        (ValueV::Bool(has_suffix(sval(a[0]), sval(a[1]))), st, out)
    } else if name == "contains?"@ {
        (ValueV::Bool(has_infix(sval(a[0]), sval(a[1]))), st, out)
    } else if name == "split"@ {
        (ValueV::List(str_values(str_split(sval(a[0]), sval(a[1])))), st, out)
    } else if name == "list"@ {
        (ValueV::List(a), st, out)
    } else if name == "car"@ {
        (lval(a[0])[0], st, out)
    } else if name == "cdr"@ {
        (ValueV::List(lval(a[0]).drop_first()), st, out)
    } else if name == "cons"@ {
        (ValueV::List(seq![a[0]] + lval(a[1])), st, out)
    } else if name == "null?"@ {
        (ValueV::Bool(is_null(a[0])), st, out)
    } else if name == "length"@ {
        (ValueV::Int(lval(a[0]).len() as i64), st, out)
    } else if name == "ip-address?"@ {
        (ValueV::Bool(is_ip_address(sval(a[0]))), st, out)
    } else if name == "table-get"@ {
        (table_get_or_nil(st, tval(a[0]), sval(a[1])), st, out)
    } else if name == "table-set!"@ {
        (ValueV::Nil, spec_table_set(st, tval(a[0]), sval(a[1]), a[2]), out)
    } else if name == "table-has?"@ {
        (ValueV::Bool(spec_table_get(st, tval(a[0]), sval(a[1])) is Some), st, out)
    } else if name == "table-keys"@ {
        (ValueV::List(str_values(assoc_keys(st.tables[tval(a[0]) as int]))), st, out)
    } else {
        (ValueV::Table(st.tables.len()), respond_store(a, st), out)
    }
}


/// Argument `i` is present and an integer.
fn is_int_at(args: &[Value], i: usize) -> (r: bool)
    ensures
        r == int_at(argv(args), i as int),
{
    proof {
        lemma_value_views(args@);
    }
    i < args.len() && match &args[i] {
        Value::Int(_) => true,
        _ => false,
    }
}

/// Argument `i` is present and a string.
fn is_str_at(args: &[Value], i: usize) -> (r: bool)
    ensures
        r == str_at(argv(args), i as int),
{
    proof {
        lemma_value_views(args@);
    }
    i < args.len() && match &args[i] {
        Value::Str(_) => true,
        _ => false,
    }
}

/// Argument `i` is present and a list.
fn is_list_at(args: &[Value], i: usize) -> (r: bool)
    ensures
        r == list_at(argv(args), i as int),
{
    proof {
        lemma_value_views(args@);
    }
    i < args.len() && match &args[i] {
        Value::List(_) => true,
        _ => false,
    }
}

/// Argument `i` is present and names a table of the store.
fn is_table_at(args: &[Value], i: usize, store: &Store) -> (r: bool)
    ensures
        r == table_at(argv(args), i as int, store@),
{
    proof {
        lemma_value_views(args@);
    }
    i < args.len() && match &args[i] {
        Value::Table(t) => store.has_table(*t),
        _ => false,
    }
}

/// The integers of the first two arguments.
fn two_int_values(args: &[Value]) -> (r: (i64, i64))
    requires
        two_ints(argv(args)),
    ensures
        r.0 == ival(argv(args)[0]),
        r.1 == ival(argv(args)[1]),
{
    proof {
        lemma_value_views(args@);
    }
    match (&args[0], &args[1]) {
        (Value::Int(x), Value::Int(y)) => (*x, *y),
        _ => (0, 0),
    }
}

/// Whether `substring` accepts these arguments.
fn substring_ok(args: &[Value]) -> (r: bool)
    ensures
        r == accepts_substring(argv(args)),
{
    proof {
        lemma_value_views(args@);
    }
    if !(is_str_at(args, 0) && is_int_at(args, 1) && is_int_at(args, 2)) {
        return false;
    }
    match (&args[0], &args[1], &args[2]) {
        (Value::Str(s), Value::Int(start), Value::Int(end)) => {
            let text: &str = s.as_str();
            proof {
                encode_utf8_valid_utf8(s@);
                reveal_with_fuel(is_char_boundary, 1);
            }
            if *start < 0 || *end < *start || (*end as u64) > (usize::MAX as u64) {
                return false;
            }
            let a = text.is_char_boundary(*start as usize);
            let b = text.is_char_boundary(*end as usize);
            proof {
                let bytes = encode_utf8(s@);
                if b {
                    assert(*end as int <= bytes.len());
                }
            }
            a && b
        },
        _ => false,
    }
}

/// Whether every argument is a string.
fn all_strs_ok(args: &[Value]) -> (r: bool)
    ensures
        r == all_strs(argv(args)),
{
    proof {
        lemma_value_views(args@);
    }
    let mut i: usize = 0;
    while i < args.len()
        invariant
            i <= args@.len(),
            value_views(args@).len() == args@.len(),
            forall|j: int| 0 <= j < args@.len() ==> #[trigger] value_views(args@)[j] == args@[j]@,
            forall|j: int| 0 <= j < i ==> #[trigger] argv(args)[j] is Str,
        decreases args@.len() - i,
    {
        match &args[i] {
            Value::Str(_) => {},
            _ => {
                proof {
                    assert(!(argv(args)[i as int] is Str));
                }
                return false;
            },
        }
        i = i + 1;
    }
    true
}

/// Whether builtin `name` accepts `args`.
pub fn builtin_args_ok(name: &str, args: &[Value], store: &Store) -> (r: bool)
    ensures
        r == builtin_accepts(name@, argv(args), store@),
{
    proof {
        lemma_value_views(args@);
    }
    let n = args.len();
    if str_eq(name, "print") {
        n == 1
    } else if str_eq(name, "+") {
        two_ints_ok(args) && {
            let (x, y) = two_int_values(args);
            x.checked_add(y).is_some()
        }
    } else if str_eq(name, "-") {
        two_ints_ok(args) && {
            let (x, y) = two_int_values(args);
            x.checked_sub(y).is_some()
        }
    } else if str_eq(name, "*") {
        two_ints_ok(args) && {
            let (x, y) = two_int_values(args);
            x.checked_mul(y).is_some()
        }
    } else if str_eq(name, "/") {
        div_ok(args)
    } else if str_eq(name, "%") {
        div_ok(args)
    } else if str_eq(name, "=") {
        two_ints_ok(args)
    } else if str_eq(name, "<") {
        two_ints_ok(args)
    } else if str_eq(name, ">") {
        two_ints_ok(args)
    } else if str_eq(name, "<=") {
        two_ints_ok(args)
    } else if str_eq(name, ">=") {
        two_ints_ok(args)
    } else if str_eq(name, "not") {
        n >= 1
    } else if str_eq(name, "string-length") {
        is_str_at(args, 0)
    } else if str_eq(name, "string-eq?") {
        is_str_at(args, 0) && is_str_at(args, 1)
    } else if str_eq(name, "string-append") {
        all_strs_ok(args)
    } else if str_eq(name, "substring") {
        substring_ok(args)
    } else if str_eq(name, "starts-with?") {
        is_str_at(args, 0) && is_str_at(args, 1)
    } else if str_eq(name, "ends-with?") {
        is_str_at(args, 0) && is_str_at(args, 1)
    } else if str_eq(name, "contains?") {
        is_str_at(args, 0) && is_str_at(args, 1)
    } else if str_eq(name, "split") {
        is_str_at(args, 0) && is_str_at(args, 1)
    } else if str_eq(name, "list") {
        true
    } else if str_eq(name, "car") {
        nonempty_list_ok(args)
    } else if str_eq(name, "cdr") {
        nonempty_list_ok(args)
    } else if str_eq(name, "cons") {
        n >= 2 && is_list_at(args, 1)
    } else if str_eq(name, "null?") {
        n >= 1
    } else if str_eq(name, "length") {
        is_list_at(args, 0)
    } else if str_eq(name, "ip-address?") {
        is_str_at(args, 0)
    } else if str_eq(name, "table-get") {
        is_table_at(args, 0, store) && is_str_at(args, 1)
    } else if str_eq(name, "table-set!") {
        is_table_at(args, 0, store) && is_str_at(args, 1) && n >= 3
    } else if str_eq(name, "table-has?") {
        is_table_at(args, 0, store) && is_str_at(args, 1)
    } else if str_eq(name, "table-keys") {
        is_table_at(args, 0, store)
    } else if str_eq(name, "respond") {
        is_int_at(args, 0) && is_str_at(args, 1)
    } else {
        false
    }
}

/// `/` and `%`: two integers, a divisor other than 0, and not `i64::MIN` by -1.
fn div_ok(args: &[Value]) -> (r: bool)
    ensures
        r == accepts_div(argv(args)),
{
    two_ints_ok(args) && {
        let (x, y) = two_int_values(args);
        y != 0 && !(x == i64::MIN && y == -1)
    }
}

/// `car`, `cdr`: a non-empty list.
fn nonempty_list_ok(args: &[Value]) -> (r: bool)
    ensures
        r == accepts_nonempty_list(argv(args)),
{
    proof {
        lemma_value_views(args@);
    }
    is_list_at(args, 0) && match &args[0] {
        Value::List(items) => {
            proof {
                lemma_value_views(items@);
            }
            items.len() > 0
        },
        _ => false,
    }
}

/// The first two arguments are integers.
fn two_ints_ok(args: &[Value]) -> (r: bool)
    ensures
        r == two_ints(argv(args)),
{
    is_int_at(args, 0) && is_int_at(args, 1)
}

/// Apply builtin `name` to `args`: its value, with the change it makes to the store (tables)
/// and to the output (`print`).
pub fn call_builtin(name: &str, args: &[Value], store: &mut Store, out: &mut Vec<String>) -> (r: Value)
    requires
        builtin_accepts(name@, argv(args), old(store)@),
    ensures
        (r@, final(store)@, string_views(final(out)@)) == builtin_apply(
            name@,
            argv(args),
            old(store)@,
            string_views(old(out)@),
        ),
{
    if str_eq(name, "print") {
        builtin_print(args, out)
    } else if str_eq(name, "+") {
        builtin_add(args)
    } else if str_eq(name, "-") {
        builtin_sub(args)
    } else if str_eq(name, "*") {
        builtin_mul(args)
    } else if str_eq(name, "/") {
        builtin_div(args)
    } else if str_eq(name, "%") {
        builtin_mod(args)
    } else if str_eq(name, "=") {
        builtin_eq(args)
    } else if str_eq(name, "<") {
        builtin_lt(args)
    } else if str_eq(name, ">") {
        builtin_gt(args)
    } else if str_eq(name, "<=") {
        builtin_le(args)
    } else if str_eq(name, ">=") {
        builtin_ge(args)
    } else if str_eq(name, "not") {
        builtin_not(args)
    } else if str_eq(name, "string-length") {
        builtin_string_length(args)
    } else if str_eq(name, "string-eq?") {
        builtin_string_eq(args)
    } else if str_eq(name, "string-append") {
        builtin_string_append(args)
    } else if str_eq(name, "substring") {
        builtin_substring(args)
    } else if str_eq(name, "starts-with?") {
        builtin_starts_with(args)
    } else if str_eq(name, "ends-with?") {
        builtin_ends_with(args)
    } else if str_eq(name, "contains?") {
        builtin_contains(args)
    } else if str_eq(name, "split") {
        builtin_split(args)
    } else if str_eq(name, "list") {
        builtin_list(args)
    } else if str_eq(name, "car") {
        builtin_car(args)
    } else if str_eq(name, "cdr") {
        builtin_cdr(args)
    } else if str_eq(name, "cons") {
        builtin_cons(args)
    } else if str_eq(name, "null?") {
        builtin_null(args)
    } else if str_eq(name, "length") {
        builtin_length(args)
    } else if str_eq(name, "ip-address?") {
        builtin_ip_address(args)
    } else if str_eq(name, "table-get") {
        builtin_table_get(args, store)
    } else if str_eq(name, "table-set!") {
        builtin_table_set(args, store)
    } else if str_eq(name, "table-has?") {
        builtin_table_has(args, store)
    } else if str_eq(name, "table-keys") {
        builtin_table_keys(args, store)
    } else {
        builtin_respond(args, store)
    }
}

/// Only the listed builtins accept arguments: a name that `builtin_names` does not list is
/// accepted by none.
proof fn lemma_accepted_names_listed(name: Seq<char>, a: Seq<ValueV>, st: StoreV)
    requires
        builtin_accepts(name, a, st),
    ensures
        spec_builtin_names().contains(name),
{
    if name == "print"@ {
        assert(spec_builtin_names()[0] == name);
    } else if name == "+"@ {
        assert(spec_builtin_names()[1] == name);
    } else if name == "-"@ {
        assert(spec_builtin_names()[2] == name);
    } else if name == "*"@ {
        assert(spec_builtin_names()[3] == name);
    } else if name == "/"@ {
        assert(spec_builtin_names()[4] == name);
    } else if name == "%"@ {
        assert(spec_builtin_names()[5] == name);
    } else if name == "="@ {
        assert(spec_builtin_names()[6] == name);
    } else if name == "<"@ {
        assert(spec_builtin_names()[7] == name);
    } else if name == ">"@ {
        assert(spec_builtin_names()[8] == name);
    } else if name == "<="@ {
        assert(spec_builtin_names()[9] == name);
    } else if name == ">="@ {
        assert(spec_builtin_names()[10] == name);
    } else if name == "not"@ {
        assert(spec_builtin_names()[11] == name);
    } else if name == "string-length"@ {
        assert(spec_builtin_names()[12] == name);
    } else if name == "string-eq?"@ {
        assert(spec_builtin_names()[13] == name);
    } else if name == "string-append"@ {
        assert(spec_builtin_names()[14] == name);
    } else if name == "substring"@ {
        assert(spec_builtin_names()[15] == name);
    } else if name == "starts-with?"@ {
        assert(spec_builtin_names()[16] == name);
    } else if name == "ends-with?"@ {
        assert(spec_builtin_names()[17] == name);
    } else if name == "contains?"@ {
        assert(spec_builtin_names()[18] == name);
    } else if name == "split"@ {
        assert(spec_builtin_names()[19] == name);
    } else if name == "list"@ {
        assert(spec_builtin_names()[20] == name);
    } else if name == "car"@ {
        assert(spec_builtin_names()[21] == name);
    } else if name == "cdr"@ {
        assert(spec_builtin_names()[22] == name);
    } else if name == "cons"@ {
        assert(spec_builtin_names()[23] == name);
    } else if name == "null?"@ {
        assert(spec_builtin_names()[24] == name);
    } else if name == "length"@ {
        assert(spec_builtin_names()[25] == name);
    } else if name == "ip-address?"@ {
        assert(spec_builtin_names()[26] == name);
    } else if name == "table-get"@ {
        assert(spec_builtin_names()[27] == name);
    } else if name == "table-set!"@ {
        assert(spec_builtin_names()[28] == name);
    } else if name == "table-has?"@ {
        assert(spec_builtin_names()[29] == name);
    } else if name == "table-keys"@ {
        assert(spec_builtin_names()[30] == name);
    } else if name == "respond"@ {
        assert(spec_builtin_names()[31] == name);
    }
}

/// Law: what a builtin may change. Only builtins that `builtin_names` lists accept arguments.
/// Only `print` adds output, and exactly one line, the shown argument. Every builtin but
/// `table-set!` leaves every existing scope and table as it was (`respond` only adds a table
/// after them). Every builtin but those three changes nothing, so applying it again to the same
/// arguments gives the same value.
pub proof fn law_builtin_effects(name: Seq<char>, a: Seq<ValueV>, st: StoreV, out: Seq<Seq<char>>)
    requires
        builtin_accepts(name, a, st),
    ensures
        spec_builtin_names().contains(name),
        ({
            let (v, st2, out2) = builtin_apply(name, a, st, out);
            &&& name != "print"@ ==> out2 == out
            &&& name == "print"@ ==> out2 == out.push(display_spec(a[0]))
            &&& name != "table-set!"@ ==> {
                &&& st2.frames == st.frames
                &&& st.tables.len() <= st2.tables.len()
                &&& forall|t: int| 0 <= t < st.tables.len() ==> #[trigger] st2.tables[t] == st.tables[t]
            }
            &&& (name != "print"@ && name != "table-set!"@ && name != "respond"@) ==> {
                &&& st2 == st
                &&& out2 == out
                &&& builtin_apply(name, a, st2, out2) == (v, st2, out2)
            }
        }),
{
    lemma_accepted_names_listed(name, a, st);
    lemma_builtin_output(name, a, st, out);
    lemma_builtin_store(name, a, st, out);
}

proof fn lemma_builtin_output(name: Seq<char>, a: Seq<ValueV>, st: StoreV, out: Seq<Seq<char>>)
    ensures
        ({
            let (v, st2, out2) = builtin_apply(name, a, st, out);
            &&& name != "print"@ ==> out2 == out
            &&& name == "print"@ ==> out2 == out.push(display_spec(a[0]))
        }),
{
}

proof fn lemma_builtin_store(name: Seq<char>, a: Seq<ValueV>, st: StoreV, out: Seq<Seq<char>>)
    requires
        builtin_accepts(name, a, st),
    ensures
        ({
            let (v, st2, out2) = builtin_apply(name, a, st, out);
            &&& name != "table-set!"@ ==> {
                &&& st2.frames == st.frames
                &&& st.tables.len() <= st2.tables.len()
                &&& forall|t: int| 0 <= t < st.tables.len() ==> #[trigger] st2.tables[t] == st.tables[t]
            }
            &&& (name != "print"@ && name != "table-set!"@ && name != "respond"@) ==> {
                &&& st2 == st
                &&& out2 == out
                &&& builtin_apply(name, a, st2, out2) == (v, st2, out2)
            }
        }),
{
    let (v, st2, out2) = builtin_apply(name, a, st, out);
    lemma_respond_keeps_tables(a, st);
    assert(st2 == st || st2 == respond_store(a, st) || name == "table-set!"@);
    if name != "print"@ && name != "table-set!"@ && name != "respond"@ {
        assert(st2 == st);
        lemma_builtin_output(name, a, st, out);
    }
}

/// `respond` keeps every scope and every existing table, and adds one table.
proof fn lemma_respond_keeps_tables(a: Seq<ValueV>, st: StoreV)
    ensures
        respond_store(a, st).frames == st.frames,
        respond_store(a, st).tables.len() == st.tables.len() + 1,
        forall|k: int| 0 <= k < st.tables.len() ==> #[trigger] respond_store(a, st).tables[k] == st.tables[k],
{
    let t = st.tables.len();
    let s1 = spec_new_table(st);
    let s2 = spec_table_set(s1, t, "status"@, a[0]);
    let s3 = spec_table_set(s2, t, "body"@, a[1]);
    assert forall|k: int| 0 <= k < st.tables.len() implies #[trigger] s3.tables[k] == st.tables[k] by {
        assert(s1.tables[k] == st.tables[k]);
        assert(s2.tables[k] == s1.tables[k]);
    }
}

/// What `print` accepts and gives back, as the builtin's own contract states.
proof fn lemma_builtin_print_by_name(name: Seq<char>, a: Seq<ValueV>, st: StoreV, out: Seq<Seq<char>>)
    requires
        name == "print"@,
    ensures
        builtin_accepts(name, a, st) <==> a.len() == 1,
        builtin_apply(name, a, st, out) == (ValueV::Nil, st, out.push(display_spec(a[0]))),
{
    reveal_strlit("print");
}

/// What `+` accepts and gives back, as the builtin's own contract states.
proof fn lemma_builtin_add_by_name(name: Seq<char>, a: Seq<ValueV>, st: StoreV, out: Seq<Seq<char>>)
    requires
        name == "+"@,
    ensures
        builtin_accepts(name, a, st) <==> accepts_add(a),
        builtin_apply(name, a, st, out) == (ValueV::Int((ival(a[0]) + ival(a[1])) as i64), st, out),
{
    reveal_strlit("+");
    reveal_strlit("print");
    assert("+"@.len() != "print"@.len());
}

/// What `-` accepts and gives back, as the builtin's own contract states.
proof fn lemma_builtin_sub_by_name(name: Seq<char>, a: Seq<ValueV>, st: StoreV, out: Seq<Seq<char>>)
    requires
        name == "-"@,
    ensures
        builtin_accepts(name, a, st) <==> accepts_sub(a),
        builtin_apply(name, a, st, out) == (ValueV::Int((ival(a[0]) - ival(a[1])) as i64), st, out),
{
    reveal_strlit("-");
    reveal_strlit("print");
    assert("-"@.len() != "print"@.len());
    reveal_strlit("+");
    assert("-"@[0] != "+"@[0]);
}

/// What `*` accepts and gives back, as the builtin's own contract states.
proof fn lemma_builtin_mul_by_name(name: Seq<char>, a: Seq<ValueV>, st: StoreV, out: Seq<Seq<char>>)
    requires
        name == "*"@,
    ensures
        builtin_accepts(name, a, st) <==> accepts_mul(a),
        builtin_apply(name, a, st, out) == (ValueV::Int((ival(a[0]) * ival(a[1])) as i64), st, out),
{
    reveal_strlit("*");
    reveal_strlit("print");
    assert("*"@.len() != "print"@.len());
    reveal_strlit("+");
    assert("*"@[0] != "+"@[0]);
    reveal_strlit("-");
    assert("*"@[0] != "-"@[0]);
}

/// What `/` accepts and gives back, as the builtin's own contract states.
proof fn lemma_builtin_div_by_name(name: Seq<char>, a: Seq<ValueV>, st: StoreV, out: Seq<Seq<char>>)
    requires
        name == "/"@,
    ensures
        builtin_accepts(name, a, st) <==> accepts_div(a),
        builtin_apply(name, a, st, out) == (ValueV::Int(trunc_div(ival(a[0]), ival(a[1])) as i64), st, out),
{
    reveal_strlit("/");
    reveal_strlit("print");
    assert("/"@.len() != "print"@.len());
    reveal_strlit("+");
    assert("/"@[0] != "+"@[0]);
    reveal_strlit("-");
    assert("/"@[0] != "-"@[0]);
    reveal_strlit("*");
    assert("/"@[0] != "*"@[0]);
}

/// What `%` accepts and gives back, as the builtin's own contract states.
proof fn lemma_builtin_rem_by_name(name: Seq<char>, a: Seq<ValueV>, st: StoreV, out: Seq<Seq<char>>)
    requires
        name == "%"@,
    ensures
        builtin_accepts(name, a, st) <==> accepts_div(a),
        builtin_apply(name, a, st, out) == (ValueV::Int(trunc_rem(ival(a[0]), ival(a[1])) as i64), st, out),
{
    reveal_strlit("%");
    reveal_strlit("print");
    assert("%"@.len() != "print"@.len());
    reveal_strlit("+");
    assert("%"@[0] != "+"@[0]);
    reveal_strlit("-");
    assert("%"@[0] != "-"@[0]);
    reveal_strlit("*");
    assert("%"@[0] != "*"@[0]);
    reveal_strlit("/");
    assert("%"@[0] != "/"@[0]);
}

/// What `=` accepts and gives back, as the builtin's own contract states.
proof fn lemma_builtin_eq_by_name(name: Seq<char>, a: Seq<ValueV>, st: StoreV, out: Seq<Seq<char>>)
    requires
        name == "="@,
    ensures
        builtin_accepts(name, a, st) <==> two_ints(a),
        builtin_apply(name, a, st, out) == (ValueV::Bool(ival(a[0]) == ival(a[1])), st, out),
{
    reveal_strlit("=");
    reveal_strlit("print");
    assert("="@.len() != "print"@.len());
    reveal_strlit("+");
    assert("="@[0] != "+"@[0]);
    reveal_strlit("-");
    assert("="@[0] != "-"@[0]);
    reveal_strlit("*");
    assert("="@[0] != "*"@[0]);
    reveal_strlit("/");
    assert("="@[0] != "/"@[0]);
    reveal_strlit("%");
    assert("="@[0] != "%"@[0]);
}

/// What `<` accepts and gives back, as the builtin's own contract states.
proof fn lemma_builtin_lt_by_name(name: Seq<char>, a: Seq<ValueV>, st: StoreV, out: Seq<Seq<char>>)
    requires
        name == "<"@,
    ensures
        builtin_accepts(name, a, st) <==> two_ints(a),
        builtin_apply(name, a, st, out) == (ValueV::Bool(ival(a[0]) < ival(a[1])), st, out),
{
    reveal_strlit("<");
    reveal_strlit("print");
    assert("<"@.len() != "print"@.len());
    reveal_strlit("+");
    assert("<"@[0] != "+"@[0]);
    reveal_strlit("-");
    assert("<"@[0] != "-"@[0]);
    reveal_strlit("*");
    assert("<"@[0] != "*"@[0]);
    reveal_strlit("/");
    assert("<"@[0] != "/"@[0]);
    reveal_strlit("%");
    assert("<"@[0] != "%"@[0]);
    reveal_strlit("=");
    assert("<"@[0] != "="@[0]);
}

/// What `>` accepts and gives back, as the builtin's own contract states.
proof fn lemma_builtin_gt_by_name(name: Seq<char>, a: Seq<ValueV>, st: StoreV, out: Seq<Seq<char>>)
    requires
        name == ">"@,
    ensures
        builtin_accepts(name, a, st) <==> two_ints(a),
        builtin_apply(name, a, st, out) == (ValueV::Bool(ival(a[0]) > ival(a[1])), st, out),
{
    reveal_strlit(">");
    reveal_strlit("print");
    assert(">"@.len() != "print"@.len());
    reveal_strlit("+");
    assert(">"@[0] != "+"@[0]);
    reveal_strlit("-");
    assert(">"@[0] != "-"@[0]);
    reveal_strlit("*");
    assert(">"@[0] != "*"@[0]);
    reveal_strlit("/");
    assert(">"@[0] != "/"@[0]);
    reveal_strlit("%");
    assert(">"@[0] != "%"@[0]);
    reveal_strlit("=");
    assert(">"@[0] != "="@[0]);
    reveal_strlit("<");
    assert(">"@[0] != "<"@[0]);
}

/// What `<=` accepts and gives back, as the builtin's own contract states.
proof fn lemma_builtin_le_by_name(name: Seq<char>, a: Seq<ValueV>, st: StoreV, out: Seq<Seq<char>>)
    requires
        name == "<="@,
    ensures
        builtin_accepts(name, a, st) <==> two_ints(a),
        builtin_apply(name, a, st, out) == (ValueV::Bool(ival(a[0]) <= ival(a[1])), st, out),
{
    reveal_strlit("<=");
    reveal_strlit("print");
    assert("<="@.len() != "print"@.len());
    reveal_strlit("+");
    assert("<="@.len() != "+"@.len());
    reveal_strlit("-");
    assert("<="@.len() != "-"@.len());
    reveal_strlit("*");
    assert("<="@.len() != "*"@.len());
    reveal_strlit("/");
    assert("<="@.len() != "/"@.len());
    reveal_strlit("%");
    assert("<="@.len() != "%"@.len());
    reveal_strlit("=");
    assert("<="@.len() != "="@.len());
    reveal_strlit("<");
    assert("<="@.len() != "<"@.len());
    reveal_strlit(">");
    assert("<="@.len() != ">"@.len());
}

/// What `>=` accepts and gives back, as the builtin's own contract states.
proof fn lemma_builtin_ge_by_name(name: Seq<char>, a: Seq<ValueV>, st: StoreV, out: Seq<Seq<char>>)
    requires
        name == ">="@,
    ensures
        builtin_accepts(name, a, st) <==> two_ints(a),
        builtin_apply(name, a, st, out) == (ValueV::Bool(ival(a[0]) >= ival(a[1])), st, out),
{
    reveal_strlit(">=");
    reveal_strlit("print");
    assert(">="@.len() != "print"@.len());
    reveal_strlit("+");
    assert(">="@.len() != "+"@.len());
    reveal_strlit("-");
    assert(">="@.len() != "-"@.len());
    reveal_strlit("*");
    assert(">="@.len() != "*"@.len());
    reveal_strlit("/");
    assert(">="@.len() != "/"@.len());
    reveal_strlit("%");
    assert(">="@.len() != "%"@.len());
    reveal_strlit("=");
    assert(">="@.len() != "="@.len());
    reveal_strlit("<");
    assert(">="@.len() != "<"@.len());
    reveal_strlit(">");
    assert(">="@.len() != ">"@.len());
    reveal_strlit("<=");
    assert(">="@[0] != "<="@[0]);
}

/// What `not` accepts and gives back, as the builtin's own contract states.
proof fn lemma_builtin_not_by_name(name: Seq<char>, a: Seq<ValueV>, st: StoreV, out: Seq<Seq<char>>)
    requires
        name == "not"@,
    ensures
        builtin_accepts(name, a, st) <==> a.len() >= 1,
        builtin_apply(name, a, st, out) == (ValueV::Bool(is_falsy(a[0])), st, out),
{
    reveal_strlit("not");
    reveal_strlit("print");
    assert("not"@.len() != "print"@.len());
    reveal_strlit("+");
    assert("not"@.len() != "+"@.len());
    reveal_strlit("-");
    assert("not"@.len() != "-"@.len());
    reveal_strlit("*");
    assert("not"@.len() != "*"@.len());
    reveal_strlit("/");
    assert("not"@.len() != "/"@.len());
    reveal_strlit("%");
    assert("not"@.len() != "%"@.len());
    reveal_strlit("=");
    assert("not"@.len() != "="@.len());
    reveal_strlit("<");
    assert("not"@.len() != "<"@.len());
    reveal_strlit(">");
    assert("not"@.len() != ">"@.len());
    reveal_strlit("<=");
    assert("not"@.len() != "<="@.len());
    reveal_strlit(">=");
    assert("not"@.len() != ">="@.len());
}

/// What `string-length` accepts and gives back, as the builtin's own contract states.
proof fn lemma_builtin_string_length_by_name(name: Seq<char>, a: Seq<ValueV>, st: StoreV, out: Seq<Seq<char>>)
    requires
        name == "string-length"@,
    ensures
        builtin_accepts(name, a, st) <==> str_at(a, 0),
        builtin_apply(name, a, st, out) == (ValueV::Int((byte_len(sval(a[0])) as usize) as i64), st, out),
{
    reveal_strlit("string-length");
    reveal_strlit("print");
    assert("string-length"@.len() != "print"@.len());
    reveal_strlit("+");
    assert("string-length"@.len() != "+"@.len());
    reveal_strlit("-");
    assert("string-length"@.len() != "-"@.len());
    reveal_strlit("*");
    assert("string-length"@.len() != "*"@.len());
    reveal_strlit("/");
    assert("string-length"@.len() != "/"@.len());
    reveal_strlit("%");
    assert("string-length"@.len() != "%"@.len());
    reveal_strlit("=");
    assert("string-length"@.len() != "="@.len());
    reveal_strlit("<");
    assert("string-length"@.len() != "<"@.len());
    reveal_strlit(">");
    assert("string-length"@.len() != ">"@.len());
    reveal_strlit("<=");
    assert("string-length"@.len() != "<="@.len());
    reveal_strlit(">=");
    assert("string-length"@.len() != ">="@.len());
    reveal_strlit("not");
    assert("string-length"@.len() != "not"@.len());
}

/// What `string-eq?` accepts and gives back, as the builtin's own contract states.
proof fn lemma_builtin_string_eq_p_by_name(name: Seq<char>, a: Seq<ValueV>, st: StoreV, out: Seq<Seq<char>>)
    requires
        name == "string-eq?"@,
    ensures
        builtin_accepts(name, a, st) <==> two_strs(a),
        builtin_apply(name, a, st, out) == (ValueV::Bool(sval(a[0]) == sval(a[1])), st, out),
{
    reveal_strlit("string-eq?");
    reveal_strlit("print");
    assert("string-eq?"@.len() != "print"@.len());
    reveal_strlit("+");
    assert("string-eq?"@.len() != "+"@.len());
    reveal_strlit("-");
    assert("string-eq?"@.len() != "-"@.len());
    reveal_strlit("*");
    assert("string-eq?"@.len() != "*"@.len());
    reveal_strlit("/");
    assert("string-eq?"@.len() != "/"@.len());
    reveal_strlit("%");
    assert("string-eq?"@.len() != "%"@.len());
    reveal_strlit("=");
    assert("string-eq?"@.len() != "="@.len());
    reveal_strlit("<");
    assert("string-eq?"@.len() != "<"@.len());
    reveal_strlit(">");
    assert("string-eq?"@.len() != ">"@.len());
    reveal_strlit("<=");
    assert("string-eq?"@.len() != "<="@.len());
    reveal_strlit(">=");
    assert("string-eq?"@.len() != ">="@.len());
    reveal_strlit("not");
    assert("string-eq?"@.len() != "not"@.len());
    reveal_strlit("string-length");
    assert("string-eq?"@.len() != "string-length"@.len());
}

/// What `string-append` accepts and gives back, as the builtin's own contract states.
proof fn lemma_builtin_string_append_by_name(name: Seq<char>, a: Seq<ValueV>, st: StoreV, out: Seq<Seq<char>>)
    requires
        name == "string-append"@,
    ensures
        builtin_accepts(name, a, st) <==> all_strs(a),
        builtin_apply(name, a, st, out) == (ValueV::Str(concat_strs(a)), st, out),
{
    reveal_strlit("string-append");
    reveal_strlit("print");
    assert("string-append"@.len() != "print"@.len());
    reveal_strlit("+");
    assert("string-append"@.len() != "+"@.len());
    reveal_strlit("-");
    assert("string-append"@.len() != "-"@.len());
    reveal_strlit("*");
    assert("string-append"@.len() != "*"@.len());
    reveal_strlit("/");
    assert("string-append"@.len() != "/"@.len());
    reveal_strlit("%");
    assert("string-append"@.len() != "%"@.len());
    reveal_strlit("=");
    assert("string-append"@.len() != "="@.len());
    reveal_strlit("<");
    assert("string-append"@.len() != "<"@.len());
    reveal_strlit(">");
    assert("string-append"@.len() != ">"@.len());
    reveal_strlit("<=");
    assert("string-append"@.len() != "<="@.len());
    reveal_strlit(">=");
    assert("string-append"@.len() != ">="@.len());
    reveal_strlit("not");
    assert("string-append"@.len() != "not"@.len());
    reveal_strlit("string-length");
    assert("string-append"@[7] != "string-length"@[7]);
    reveal_strlit("string-eq?");
    assert("string-append"@.len() != "string-eq?"@.len());
}

/// What `substring` accepts and gives back, as the builtin's own contract states.
proof fn lemma_builtin_substring_by_name(name: Seq<char>, a: Seq<ValueV>, st: StoreV, out: Seq<Seq<char>>)
    requires
        name == "substring"@,
    ensures
        builtin_accepts(name, a, st) <==> accepts_substring(a),
        builtin_apply(name, a, st, out) == (ValueV::Str(byte_substring(sval(a[0]), ival(a[1]), ival(a[2]))), st, out),
{
    reveal_strlit("substring");
    reveal_strlit("print");
    assert("substring"@.len() != "print"@.len());
    reveal_strlit("+");
    assert("substring"@.len() != "+"@.len());
    reveal_strlit("-");
    assert("substring"@.len() != "-"@.len());
    reveal_strlit("*");
    assert("substring"@.len() != "*"@.len());
    reveal_strlit("/");
    assert("substring"@.len() != "/"@.len());
    reveal_strlit("%");
    assert("substring"@.len() != "%"@.len());
    reveal_strlit("=");
    assert("substring"@.len() != "="@.len());
    reveal_strlit("<");
    assert("substring"@.len() != "<"@.len());
    reveal_strlit(">");
    assert("substring"@.len() != ">"@.len());
    reveal_strlit("<=");
    assert("substring"@.len() != "<="@.len());
    reveal_strlit(">=");
    assert("substring"@.len() != ">="@.len());
    reveal_strlit("not");
    assert("substring"@.len() != "not"@.len());
    reveal_strlit("string-length");
    assert("substring"@.len() != "string-length"@.len());
    reveal_strlit("string-eq?");
    assert("substring"@.len() != "string-eq?"@.len());
    reveal_strlit("string-append");
    assert("substring"@.len() != "string-append"@.len());
}

/// What `starts-with?` accepts and gives back, as the builtin's own contract states.
proof fn lemma_builtin_starts_with_p_by_name(name: Seq<char>, a: Seq<ValueV>, st: StoreV, out: Seq<Seq<char>>)
    requires
        name == "starts-with?"@,
    ensures
        builtin_accepts(name, a, st) <==> two_strs(a),
        builtin_apply(name, a, st, out) == (ValueV::Bool(has_prefix(sval(a[0]), sval(a[1]))), st, out),
{
    reveal_strlit("starts-with?");
    reveal_strlit("print");
    assert("starts-with?"@.len() != "print"@.len());
    reveal_strlit("+");
    assert("starts-with?"@.len() != "+"@.len());
    reveal_strlit("-");
    assert("starts-with?"@.len() != "-"@.len());
    reveal_strlit("*");
    assert("starts-with?"@.len() != "*"@.len());
    reveal_strlit("/");
    assert("starts-with?"@.len() != "/"@.len());
    reveal_strlit("%");
    assert("starts-with?"@.len() != "%"@.len());
    reveal_strlit("=");
    assert("starts-with?"@.len() != "="@.len());
    reveal_strlit("<");
    assert("starts-with?"@.len() != "<"@.len());
    reveal_strlit(">");
    assert("starts-with?"@.len() != ">"@.len());
    reveal_strlit("<=");
    assert("starts-with?"@.len() != "<="@.len());
    reveal_strlit(">=");
    assert("starts-with?"@.len() != ">="@.len());
    reveal_strlit("not");
    assert("starts-with?"@.len() != "not"@.len());
    reveal_strlit("string-length");
    assert("starts-with?"@.len() != "string-length"@.len());
    reveal_strlit("string-eq?");
    assert("starts-with?"@.len() != "string-eq?"@.len());
    reveal_strlit("string-append");
    assert("starts-with?"@.len() != "string-append"@.len());
    reveal_strlit("substring");
    assert("starts-with?"@.len() != "substring"@.len());
}

/// What `ends-with?` accepts and gives back, as the builtin's own contract states.
proof fn lemma_builtin_ends_with_p_by_name(name: Seq<char>, a: Seq<ValueV>, st: StoreV, out: Seq<Seq<char>>)
    requires
        name == "ends-with?"@,
    ensures
        builtin_accepts(name, a, st) <==> two_strs(a),
        builtin_apply(name, a, st, out) == (ValueV::Bool(has_suffix(sval(a[0]), sval(a[1]))), st, out),
{
    reveal_strlit("ends-with?");
    reveal_strlit("print");
    assert("ends-with?"@.len() != "print"@.len());
    reveal_strlit("+");
    assert("ends-with?"@.len() != "+"@.len());
    reveal_strlit("-");
    assert("ends-with?"@.len() != "-"@.len());
    reveal_strlit("*");
    assert("ends-with?"@.len() != "*"@.len());
    reveal_strlit("/");
    assert("ends-with?"@.len() != "/"@.len());
    reveal_strlit("%");
    assert("ends-with?"@.len() != "%"@.len());
    reveal_strlit("=");
    assert("ends-with?"@.len() != "="@.len());
    reveal_strlit("<");
    assert("ends-with?"@.len() != "<"@.len());
    reveal_strlit(">");
    assert("ends-with?"@.len() != ">"@.len());
    reveal_strlit("<=");
    assert("ends-with?"@.len() != "<="@.len());
    reveal_strlit(">=");
    assert("ends-with?"@.len() != ">="@.len());
    reveal_strlit("not");
    assert("ends-with?"@.len() != "not"@.len());
    reveal_strlit("string-length");
    assert("ends-with?"@.len() != "string-length"@.len());
    reveal_strlit("string-eq?");
    assert("ends-with?"@[0] != "string-eq?"@[0]);
    reveal_strlit("string-append");
    assert("ends-with?"@.len() != "string-append"@.len());
    reveal_strlit("substring");
    assert("ends-with?"@.len() != "substring"@.len());
    reveal_strlit("starts-with?");
    assert("ends-with?"@.len() != "starts-with?"@.len());
}

/// What `contains?` accepts and gives back, as the builtin's own contract states.
proof fn lemma_builtin_contains_p_by_name(name: Seq<char>, a: Seq<ValueV>, st: StoreV, out: Seq<Seq<char>>)
    requires
        name == "contains?"@,
    ensures
        builtin_accepts(name, a, st) <==> two_strs(a),
        builtin_apply(name, a, st, out) == (ValueV::Bool(has_infix(sval(a[0]), sval(a[1]))), st, out),
{
    reveal_strlit("contains?");
    reveal_strlit("print");
    assert("contains?"@.len() != "print"@.len());
    reveal_strlit("+");
    assert("contains?"@.len() != "+"@.len());
    reveal_strlit("-");
    assert("contains?"@.len() != "-"@.len());
    reveal_strlit("*");
    assert("contains?"@.len() != "*"@.len());
    reveal_strlit("/");
    assert("contains?"@.len() != "/"@.len());
    reveal_strlit("%");
    assert("contains?"@.len() != "%"@.len());
    reveal_strlit("=");
    assert("contains?"@.len() != "="@.len());
    reveal_strlit("<");
    assert("contains?"@.len() != "<"@.len());
    reveal_strlit(">");
    assert("contains?"@.len() != ">"@.len());
    reveal_strlit("<=");
    assert("contains?"@.len() != "<="@.len());
    reveal_strlit(">=");
    assert("contains?"@.len() != ">="@.len());
    reveal_strlit("not");
    assert("contains?"@.len() != "not"@.len());
    reveal_strlit("string-length");
    assert("contains?"@.len() != "string-length"@.len());
    reveal_strlit("string-eq?");
    assert("contains?"@.len() != "string-eq?"@.len());
    reveal_strlit("string-append");
    assert("contains?"@.len() != "string-append"@.len());
    reveal_strlit("substring");
    assert("contains?"@[0] != "substring"@[0]);
    reveal_strlit("starts-with?");
    assert("contains?"@.len() != "starts-with?"@.len());
    reveal_strlit("ends-with?");
    assert("contains?"@.len() != "ends-with?"@.len());
}

/// What `split` accepts and gives back, as the builtin's own contract states.
proof fn lemma_builtin_split_by_name(name: Seq<char>, a: Seq<ValueV>, st: StoreV, out: Seq<Seq<char>>)
    requires
        name == "split"@,
    ensures
        builtin_accepts(name, a, st) <==> two_strs(a),
        builtin_apply(name, a, st, out) == (ValueV::List(str_values(str_split(sval(a[0]), sval(a[1])))), st, out),
{
    reveal_strlit("split");
    reveal_strlit("print");
    assert("split"@[0] != "print"@[0]);
    reveal_strlit("+");
    assert("split"@.len() != "+"@.len());
    reveal_strlit("-");
    assert("split"@.len() != "-"@.len());
    reveal_strlit("*");
    assert("split"@.len() != "*"@.len());
    reveal_strlit("/");
    assert("split"@.len() != "/"@.len());
    reveal_strlit("%");
    assert("split"@.len() != "%"@.len());
    reveal_strlit("=");
    assert("split"@.len() != "="@.len());
    reveal_strlit("<");
    assert("split"@.len() != "<"@.len());
    reveal_strlit(">");
    assert("split"@.len() != ">"@.len());
    reveal_strlit("<=");
    assert("split"@.len() != "<="@.len());
    reveal_strlit(">=");
    assert("split"@.len() != ">="@.len());
    reveal_strlit("not");
    assert("split"@.len() != "not"@.len());
    reveal_strlit("string-length");
    assert("split"@.len() != "string-length"@.len());
    reveal_strlit("string-eq?");
    assert("split"@.len() != "string-eq?"@.len());
    reveal_strlit("string-append");
    assert("split"@.len() != "string-append"@.len());
    reveal_strlit("substring");
    assert("split"@.len() != "substring"@.len());
    reveal_strlit("starts-with?");
    assert("split"@.len() != "starts-with?"@.len());
    reveal_strlit("ends-with?");
    assert("split"@.len() != "ends-with?"@.len());
    reveal_strlit("contains?");
    assert("split"@.len() != "contains?"@.len());
}

/// What `list` accepts and gives back, as the builtin's own contract states.
proof fn lemma_builtin_list_by_name(name: Seq<char>, a: Seq<ValueV>, st: StoreV, out: Seq<Seq<char>>)
    requires
        name == "list"@,
    ensures
        builtin_accepts(name, a, st) <==> true,
        builtin_apply(name, a, st, out) == (ValueV::List(a), st, out),
{
    reveal_strlit("list");
    reveal_strlit("print");
    assert("list"@.len() != "print"@.len());
    reveal_strlit("+");
    assert("list"@.len() != "+"@.len());
    reveal_strlit("-");
    assert("list"@.len() != "-"@.len());
    reveal_strlit("*");
    assert("list"@.len() != "*"@.len());
    reveal_strlit("/");
    assert("list"@.len() != "/"@.len());
    reveal_strlit("%");
    assert("list"@.len() != "%"@.len());
    reveal_strlit("=");
    assert("list"@.len() != "="@.len());
    reveal_strlit("<");
    assert("list"@.len() != "<"@.len());
    reveal_strlit(">");
    assert("list"@.len() != ">"@.len());
    reveal_strlit("<=");
    assert("list"@.len() != "<="@.len());
    reveal_strlit(">=");
    assert("list"@.len() != ">="@.len());
    reveal_strlit("not");
    assert("list"@.len() != "not"@.len());
    reveal_strlit("string-length");
    assert("list"@.len() != "string-length"@.len());
    reveal_strlit("string-eq?");
    assert("list"@.len() != "string-eq?"@.len());
    reveal_strlit("string-append");
    assert("list"@.len() != "string-append"@.len());
    reveal_strlit("substring");
    assert("list"@.len() != "substring"@.len());
    reveal_strlit("starts-with?");
    assert("list"@.len() != "starts-with?"@.len());
    reveal_strlit("ends-with?");
    assert("list"@.len() != "ends-with?"@.len());
    reveal_strlit("contains?");
    assert("list"@.len() != "contains?"@.len());
    reveal_strlit("split");
    assert("list"@.len() != "split"@.len());
}

/// What `car` accepts and gives back, as the builtin's own contract states.
proof fn lemma_builtin_car_by_name(name: Seq<char>, a: Seq<ValueV>, st: StoreV, out: Seq<Seq<char>>)
    requires
        name == "car"@,
    ensures
        builtin_accepts(name, a, st) <==> accepts_nonempty_list(a),
        builtin_apply(name, a, st, out) == (lval(a[0])[0], st, out),
{
    reveal_strlit("car");
    reveal_strlit("print");
    assert("car"@.len() != "print"@.len());
    reveal_strlit("+");
    assert("car"@.len() != "+"@.len());
    reveal_strlit("-");
    assert("car"@.len() != "-"@.len());
    reveal_strlit("*");
    assert("car"@.len() != "*"@.len());
    reveal_strlit("/");
    assert("car"@.len() != "/"@.len());
    reveal_strlit("%");
    assert("car"@.len() != "%"@.len());
    reveal_strlit("=");
    assert("car"@.len() != "="@.len());
    reveal_strlit("<");
    assert("car"@.len() != "<"@.len());
    reveal_strlit(">");
    assert("car"@.len() != ">"@.len());
    reveal_strlit("<=");
    assert("car"@.len() != "<="@.len());
    reveal_strlit(">=");
    assert("car"@.len() != ">="@.len());
    reveal_strlit("not");
    assert("car"@[0] != "not"@[0]);
    reveal_strlit("string-length");
    assert("car"@.len() != "string-length"@.len());
    reveal_strlit("string-eq?");
    assert("car"@.len() != "string-eq?"@.len());
    reveal_strlit("string-append");
    assert("car"@.len() != "string-append"@.len());
    reveal_strlit("substring");
    assert("car"@.len() != "substring"@.len());
    reveal_strlit("starts-with?");
    assert("car"@.len() != "starts-with?"@.len());
    reveal_strlit("ends-with?");
    assert("car"@.len() != "ends-with?"@.len());
    reveal_strlit("contains?");
    assert("car"@.len() != "contains?"@.len());
    reveal_strlit("split");
    assert("car"@.len() != "split"@.len());
    reveal_strlit("list");
    assert("car"@.len() != "list"@.len());
}

/// What `cdr` accepts and gives back, as the builtin's own contract states.
proof fn lemma_builtin_cdr_by_name(name: Seq<char>, a: Seq<ValueV>, st: StoreV, out: Seq<Seq<char>>)
    requires
        name == "cdr"@,
    ensures
        builtin_accepts(name, a, st) <==> accepts_nonempty_list(a),
        builtin_apply(name, a, st, out) == (ValueV::List(lval(a[0]).drop_first()), st, out),
{
    reveal_strlit("cdr");
    reveal_strlit("print");
    assert("cdr"@.len() != "print"@.len());
    reveal_strlit("+");
    assert("cdr"@.len() != "+"@.len());
    reveal_strlit("-");
    assert("cdr"@.len() != "-"@.len());
    reveal_strlit("*");
    assert("cdr"@.len() != "*"@.len());
    reveal_strlit("/");
    assert("cdr"@.len() != "/"@.len());
    reveal_strlit("%");
    assert("cdr"@.len() != "%"@.len());
    reveal_strlit("=");
    assert("cdr"@.len() != "="@.len());
    reveal_strlit("<");
    assert("cdr"@.len() != "<"@.len());
    reveal_strlit(">");
    assert("cdr"@.len() != ">"@.len());
    reveal_strlit("<=");
    assert("cdr"@.len() != "<="@.len());
    reveal_strlit(">=");
    assert("cdr"@.len() != ">="@.len());
    reveal_strlit("not");
    assert("cdr"@[0] != "not"@[0]);
    reveal_strlit("string-length");
    assert("cdr"@.len() != "string-length"@.len());
    reveal_strlit("string-eq?");
    assert("cdr"@.len() != "string-eq?"@.len());
    reveal_strlit("string-append");
    assert("cdr"@.len() != "string-append"@.len());
    reveal_strlit("substring");
    assert("cdr"@.len() != "substring"@.len());
    reveal_strlit("starts-with?");
    assert("cdr"@.len() != "starts-with?"@.len());
    reveal_strlit("ends-with?");
    assert("cdr"@.len() != "ends-with?"@.len());
    reveal_strlit("contains?");
    assert("cdr"@.len() != "contains?"@.len());
    reveal_strlit("split");
    assert("cdr"@.len() != "split"@.len());
    reveal_strlit("list");
    assert("cdr"@.len() != "list"@.len());
    reveal_strlit("car");
    assert("cdr"@[1] != "car"@[1]);
}

/// What `cons` accepts and gives back, as the builtin's own contract states.
proof fn lemma_builtin_cons_by_name(name: Seq<char>, a: Seq<ValueV>, st: StoreV, out: Seq<Seq<char>>)
    requires
        name == "cons"@,
    ensures
        builtin_accepts(name, a, st) <==> accepts_cons(a),
        builtin_apply(name, a, st, out) == (ValueV::List(seq![a[0]] + lval(a[1])), st, out),
{
    reveal_strlit("cons");
    reveal_strlit("print");
    assert("cons"@.len() != "print"@.len());
    reveal_strlit("+");
    assert("cons"@.len() != "+"@.len());
    reveal_strlit("-");
    assert("cons"@.len() != "-"@.len());
    reveal_strlit("*");
    assert("cons"@.len() != "*"@.len());
    reveal_strlit("/");
    assert("cons"@.len() != "/"@.len());
    reveal_strlit("%");
    assert("cons"@.len() != "%"@.len());
    reveal_strlit("=");
    assert("cons"@.len() != "="@.len());
    reveal_strlit("<");
    assert("cons"@.len() != "<"@.len());
    reveal_strlit(">");
    assert("cons"@.len() != ">"@.len());
    reveal_strlit("<=");
    assert("cons"@.len() != "<="@.len());
    reveal_strlit(">=");
    assert("cons"@.len() != ">="@.len());
    reveal_strlit("not");
    assert("cons"@.len() != "not"@.len());
    reveal_strlit("string-length");
    assert("cons"@.len() != "string-length"@.len());
    reveal_strlit("string-eq?");
    assert("cons"@.len() != "string-eq?"@.len());
    reveal_strlit("string-append");
    assert("cons"@.len() != "string-append"@.len());
    reveal_strlit("substring");
    assert("cons"@.len() != "substring"@.len());
    reveal_strlit("starts-with?");
    assert("cons"@.len() != "starts-with?"@.len());
    reveal_strlit("ends-with?");
    assert("cons"@.len() != "ends-with?"@.len());
    reveal_strlit("contains?");
    assert("cons"@.len() != "contains?"@.len());
    reveal_strlit("split");
    assert("cons"@.len() != "split"@.len());
    reveal_strlit("list");
    assert("cons"@[0] != "list"@[0]);
    reveal_strlit("car");
    assert("cons"@.len() != "car"@.len());
    reveal_strlit("cdr");
    assert("cons"@.len() != "cdr"@.len());
}

/// What `null?` accepts and gives back, as the builtin's own contract states.
proof fn lemma_builtin_null_p_by_name(name: Seq<char>, a: Seq<ValueV>, st: StoreV, out: Seq<Seq<char>>)
    requires
        name == "null?"@,
    ensures
        builtin_accepts(name, a, st) <==> a.len() >= 1,
        builtin_apply(name, a, st, out) == (ValueV::Bool(is_null(a[0])), st, out),
{
    reveal_strlit("null?");
    reveal_strlit("print");
    assert("null?"@[0] != "print"@[0]);
    reveal_strlit("+");
    assert("null?"@.len() != "+"@.len());
    reveal_strlit("-");
    assert("null?"@.len() != "-"@.len());
    reveal_strlit("*");
    assert("null?"@.len() != "*"@.len());
    reveal_strlit("/");
    assert("null?"@.len() != "/"@.len());
    reveal_strlit("%");
    assert("null?"@.len() != "%"@.len());
    reveal_strlit("=");
    assert("null?"@.len() != "="@.len());
    reveal_strlit("<");
    assert("null?"@.len() != "<"@.len());
    reveal_strlit(">");
    assert("null?"@.len() != ">"@.len());
    reveal_strlit("<=");
    assert("null?"@.len() != "<="@.len());
    reveal_strlit(">=");
    assert("null?"@.len() != ">="@.len());
    reveal_strlit("not");
    assert("null?"@.len() != "not"@.len());
    reveal_strlit("string-length");
    assert("null?"@.len() != "string-length"@.len());
    reveal_strlit("string-eq?");
    assert("null?"@.len() != "string-eq?"@.len());
    reveal_strlit("string-append");
    assert("null?"@.len() != "string-append"@.len());
    reveal_strlit("substring");
    assert("null?"@.len() != "substring"@.len());
    reveal_strlit("starts-with?");
    assert("null?"@.len() != "starts-with?"@.len());
    reveal_strlit("ends-with?");
    assert("null?"@.len() != "ends-with?"@.len());
    reveal_strlit("contains?");
    assert("null?"@.len() != "contains?"@.len());
    reveal_strlit("split");
    assert("null?"@[0] != "split"@[0]);
    reveal_strlit("list");
    assert("null?"@.len() != "list"@.len());
    reveal_strlit("car");
    assert("null?"@.len() != "car"@.len());
    reveal_strlit("cdr");
    assert("null?"@.len() != "cdr"@.len());
    reveal_strlit("cons");
    assert("null?"@.len() != "cons"@.len());
}

/// What `length` accepts and gives back, as the builtin's own contract states.
proof fn lemma_builtin_length_by_name(name: Seq<char>, a: Seq<ValueV>, st: StoreV, out: Seq<Seq<char>>)
    requires
        name == "length"@,
    ensures
        builtin_accepts(name, a, st) <==> list_at(a, 0),
        builtin_apply(name, a, st, out) == (ValueV::Int(lval(a[0]).len() as i64), st, out),
{
    reveal_strlit("length");
    reveal_strlit("print");
    assert("length"@.len() != "print"@.len());
    reveal_strlit("+");
    assert("length"@.len() != "+"@.len());
    reveal_strlit("-");
    assert("length"@.len() != "-"@.len());
    reveal_strlit("*");
    assert("length"@.len() != "*"@.len());
    reveal_strlit("/");
    assert("length"@.len() != "/"@.len());
    reveal_strlit("%");
    assert("length"@.len() != "%"@.len());
    reveal_strlit("=");
    assert("length"@.len() != "="@.len());
    reveal_strlit("<");
    assert("length"@.len() != "<"@.len());
    reveal_strlit(">");
    assert("length"@.len() != ">"@.len());
    reveal_strlit("<=");
    assert("length"@.len() != "<="@.len());
    reveal_strlit(">=");
    assert("length"@.len() != ">="@.len());
    reveal_strlit("not");
    assert("length"@.len() != "not"@.len());
    reveal_strlit("string-length");
    assert("length"@.len() != "string-length"@.len());
    reveal_strlit("string-eq?");
    assert("length"@.len() != "string-eq?"@.len());
    reveal_strlit("string-append");
    assert("length"@.len() != "string-append"@.len());
    reveal_strlit("substring");
    assert("length"@.len() != "substring"@.len());
    reveal_strlit("starts-with?");
    assert("length"@.len() != "starts-with?"@.len());
    reveal_strlit("ends-with?");
    assert("length"@.len() != "ends-with?"@.len());
    reveal_strlit("contains?");
    assert("length"@.len() != "contains?"@.len());
    reveal_strlit("split");
    assert("length"@.len() != "split"@.len());
    reveal_strlit("list");
    assert("length"@.len() != "list"@.len());
    reveal_strlit("car");
    assert("length"@.len() != "car"@.len());
    reveal_strlit("cdr");
    assert("length"@.len() != "cdr"@.len());
    reveal_strlit("cons");
    assert("length"@.len() != "cons"@.len());
    reveal_strlit("null?");
    assert("length"@.len() != "null?"@.len());
}

/// What `ip-address?` accepts and gives back, as the builtin's own contract states.
proof fn lemma_builtin_ip_address_p_by_name(name: Seq<char>, a: Seq<ValueV>, st: StoreV, out: Seq<Seq<char>>)
    requires
        name == "ip-address?"@,
    ensures
        builtin_accepts(name, a, st) <==> str_at(a, 0),
        builtin_apply(name, a, st, out) == (ValueV::Bool(is_ip_address(sval(a[0]))), st, out),
{
    reveal_strlit("ip-address?");
    reveal_strlit("print");
    assert("ip-address?"@.len() != "print"@.len());
    reveal_strlit("+");
    assert("ip-address?"@.len() != "+"@.len());
    reveal_strlit("-");
    assert("ip-address?"@.len() != "-"@.len());
    reveal_strlit("*");
    assert("ip-address?"@.len() != "*"@.len());
    reveal_strlit("/");
    assert("ip-address?"@.len() != "/"@.len());
    reveal_strlit("%");
    assert("ip-address?"@.len() != "%"@.len());
    reveal_strlit("=");
    assert("ip-address?"@.len() != "="@.len());
    reveal_strlit("<");
    assert("ip-address?"@.len() != "<"@.len());
    reveal_strlit(">");
    assert("ip-address?"@.len() != ">"@.len());
    reveal_strlit("<=");
    assert("ip-address?"@.len() != "<="@.len());
    reveal_strlit(">=");
    assert("ip-address?"@.len() != ">="@.len());
    reveal_strlit("not");
    assert("ip-address?"@.len() != "not"@.len());
    reveal_strlit("string-length");
    assert("ip-address?"@.len() != "string-length"@.len());
    reveal_strlit("string-eq?");
    assert("ip-address?"@.len() != "string-eq?"@.len());
    reveal_strlit("string-append");
    assert("ip-address?"@.len() != "string-append"@.len());
    reveal_strlit("substring");
    assert("ip-address?"@.len() != "substring"@.len());
    reveal_strlit("starts-with?");
    assert("ip-address?"@.len() != "starts-with?"@.len());
    reveal_strlit("ends-with?");
    assert("ip-address?"@.len() != "ends-with?"@.len());
    reveal_strlit("contains?");
    assert("ip-address?"@.len() != "contains?"@.len());
    reveal_strlit("split");
    assert("ip-address?"@.len() != "split"@.len());
    reveal_strlit("list");
    assert("ip-address?"@.len() != "list"@.len());
    reveal_strlit("car");
    assert("ip-address?"@.len() != "car"@.len());
    reveal_strlit("cdr");
    assert("ip-address?"@.len() != "cdr"@.len());
    reveal_strlit("cons");
    assert("ip-address?"@.len() != "cons"@.len());
    reveal_strlit("null?");
    assert("ip-address?"@.len() != "null?"@.len());
    reveal_strlit("length");
    assert("ip-address?"@.len() != "length"@.len());
}

/// What `table-get` accepts and gives back, as the builtin's own contract states.
proof fn lemma_builtin_table_get_by_name(name: Seq<char>, a: Seq<ValueV>, st: StoreV, out: Seq<Seq<char>>)
    requires
        name == "table-get"@,
    ensures
        builtin_accepts(name, a, st) <==> table_at(a, 0, st) && str_at(a, 1),
        builtin_apply(name, a, st, out) == (table_get_or_nil(st, tval(a[0]), sval(a[1])), st, out),
{
    reveal_strlit("table-get");
    reveal_strlit("print");
    assert("table-get"@.len() != "print"@.len());
    reveal_strlit("+");
    assert("table-get"@.len() != "+"@.len());
    reveal_strlit("-");
    assert("table-get"@.len() != "-"@.len());
    reveal_strlit("*");
    assert("table-get"@.len() != "*"@.len());
    reveal_strlit("/");
    assert("table-get"@.len() != "/"@.len());
    reveal_strlit("%");
    assert("table-get"@.len() != "%"@.len());
    reveal_strlit("=");
    assert("table-get"@.len() != "="@.len());
    reveal_strlit("<");
    assert("table-get"@.len() != "<"@.len());
    reveal_strlit(">");
    assert("table-get"@.len() != ">"@.len());
    reveal_strlit("<=");
    assert("table-get"@.len() != "<="@.len());
    reveal_strlit(">=");
    assert("table-get"@.len() != ">="@.len());
    reveal_strlit("not");
    assert("table-get"@.len() != "not"@.len());
    reveal_strlit("string-length");
    assert("table-get"@.len() != "string-length"@.len());
    reveal_strlit("string-eq?");
    assert("table-get"@.len() != "string-eq?"@.len());
    reveal_strlit("string-append");
    assert("table-get"@.len() != "string-append"@.len());
    reveal_strlit("substring");
    assert("table-get"@[0] != "substring"@[0]);
    reveal_strlit("starts-with?");
    assert("table-get"@.len() != "starts-with?"@.len());
    reveal_strlit("ends-with?");
    assert("table-get"@.len() != "ends-with?"@.len());
    reveal_strlit("contains?");
    assert("table-get"@[0] != "contains?"@[0]);
    reveal_strlit("split");
    assert("table-get"@.len() != "split"@.len());
    reveal_strlit("list");
    assert("table-get"@.len() != "list"@.len());
    reveal_strlit("car");
    assert("table-get"@.len() != "car"@.len());
    reveal_strlit("cdr");
    assert("table-get"@.len() != "cdr"@.len());
    reveal_strlit("cons");
    assert("table-get"@.len() != "cons"@.len());
    reveal_strlit("null?");
    assert("table-get"@.len() != "null?"@.len());
    reveal_strlit("length");
    assert("table-get"@.len() != "length"@.len());
    reveal_strlit("ip-address?");
    assert("table-get"@.len() != "ip-address?"@.len());
}

/// What `table-set!` accepts and gives back, as the builtin's own contract states.
proof fn lemma_builtin_table_set_x_by_name(name: Seq<char>, a: Seq<ValueV>, st: StoreV, out: Seq<Seq<char>>)
    requires
        name == "table-set!"@,
    ensures
        builtin_accepts(name, a, st) <==> table_at(a, 0, st) && str_at(a, 1) && a.len() >= 3,
        builtin_apply(name, a, st, out) == (ValueV::Nil, spec_table_set(st, tval(a[0]), sval(a[1]), a[2]), out),
{
    reveal_strlit("table-set!");
    reveal_strlit("print");
    assert("table-set!"@.len() != "print"@.len());
    reveal_strlit("+");
    assert("table-set!"@.len() != "+"@.len());
    reveal_strlit("-");
    assert("table-set!"@.len() != "-"@.len());
    reveal_strlit("*");
    assert("table-set!"@.len() != "*"@.len());
    reveal_strlit("/");
    assert("table-set!"@.len() != "/"@.len());
    reveal_strlit("%");
    assert("table-set!"@.len() != "%"@.len());
    reveal_strlit("=");
    assert("table-set!"@.len() != "="@.len());
    reveal_strlit("<");
    assert("table-set!"@.len() != "<"@.len());
    reveal_strlit(">");
    assert("table-set!"@.len() != ">"@.len());
    reveal_strlit("<=");
    assert("table-set!"@.len() != "<="@.len());
    reveal_strlit(">=");
    assert("table-set!"@.len() != ">="@.len());
    reveal_strlit("not");
    assert("table-set!"@.len() != "not"@.len());
    reveal_strlit("string-length");
    assert("table-set!"@.len() != "string-length"@.len());
    reveal_strlit("string-eq?");
    assert("table-set!"@[0] != "string-eq?"@[0]);
    reveal_strlit("string-append");
    assert("table-set!"@.len() != "string-append"@.len());
    reveal_strlit("substring");
    assert("table-set!"@.len() != "substring"@.len());
    reveal_strlit("starts-with?");
    assert("table-set!"@.len() != "starts-with?"@.len());
    reveal_strlit("ends-with?");
    assert("table-set!"@[0] != "ends-with?"@[0]);
    reveal_strlit("contains?");
    assert("table-set!"@.len() != "contains?"@.len());
    reveal_strlit("split");
    assert("table-set!"@.len() != "split"@.len());
    reveal_strlit("list");
    assert("table-set!"@.len() != "list"@.len());
    reveal_strlit("car");
    assert("table-set!"@.len() != "car"@.len());
    reveal_strlit("cdr");
    assert("table-set!"@.len() != "cdr"@.len());
    reveal_strlit("cons");
    assert("table-set!"@.len() != "cons"@.len());
    reveal_strlit("null?");
    assert("table-set!"@.len() != "null?"@.len());
    reveal_strlit("length");
    assert("table-set!"@.len() != "length"@.len());
    reveal_strlit("ip-address?");
    assert("table-set!"@.len() != "ip-address?"@.len());
    reveal_strlit("table-get");
    assert("table-set!"@.len() != "table-get"@.len());
}

/// What `table-has?` accepts and gives back, as the builtin's own contract states.
proof fn lemma_builtin_table_has_p_by_name(name: Seq<char>, a: Seq<ValueV>, st: StoreV, out: Seq<Seq<char>>)
    requires
        name == "table-has?"@,
    ensures
        builtin_accepts(name, a, st) <==> table_at(a, 0, st) && str_at(a, 1),
        builtin_apply(name, a, st, out) == (ValueV::Bool(spec_table_get(st, tval(a[0]), sval(a[1])) is Some), st, out),
{
    reveal_strlit("table-has?");
    reveal_strlit("print");
    assert("table-has?"@.len() != "print"@.len());
    reveal_strlit("+");
    assert("table-has?"@.len() != "+"@.len());
    reveal_strlit("-");
    assert("table-has?"@.len() != "-"@.len());
    reveal_strlit("*");
    assert("table-has?"@.len() != "*"@.len());
    reveal_strlit("/");
    assert("table-has?"@.len() != "/"@.len());
    reveal_strlit("%");
    assert("table-has?"@.len() != "%"@.len());
    reveal_strlit("=");
    assert("table-has?"@.len() != "="@.len());
    reveal_strlit("<");
    assert("table-has?"@.len() != "<"@.len());
    reveal_strlit(">");
    assert("table-has?"@.len() != ">"@.len());
    reveal_strlit("<=");
    assert("table-has?"@.len() != "<="@.len());
    reveal_strlit(">=");
    assert("table-has?"@.len() != ">="@.len());
    reveal_strlit("not");
    assert("table-has?"@.len() != "not"@.len());
    reveal_strlit("string-length");
    assert("table-has?"@.len() != "string-length"@.len());
    reveal_strlit("string-eq?");
    assert("table-has?"@[0] != "string-eq?"@[0]);
    reveal_strlit("string-append");
    assert("table-has?"@.len() != "string-append"@.len());
    reveal_strlit("substring");
    assert("table-has?"@.len() != "substring"@.len());
    reveal_strlit("starts-with?");
    assert("table-has?"@.len() != "starts-with?"@.len());
    reveal_strlit("ends-with?");
    assert("table-has?"@[0] != "ends-with?"@[0]);
    reveal_strlit("contains?");
    assert("table-has?"@.len() != "contains?"@.len());
    reveal_strlit("split");
    assert("table-has?"@.len() != "split"@.len());
    reveal_strlit("list");
    assert("table-has?"@.len() != "list"@.len());
    reveal_strlit("car");
    assert("table-has?"@.len() != "car"@.len());
    reveal_strlit("cdr");
    assert("table-has?"@.len() != "cdr"@.len());
    reveal_strlit("cons");
    assert("table-has?"@.len() != "cons"@.len());
    reveal_strlit("null?");
    assert("table-has?"@.len() != "null?"@.len());
    reveal_strlit("length");
    assert("table-has?"@.len() != "length"@.len());
    reveal_strlit("ip-address?");
    assert("table-has?"@.len() != "ip-address?"@.len());
    reveal_strlit("table-get");
    assert("table-has?"@.len() != "table-get"@.len());
    reveal_strlit("table-set!");
    assert("table-has?"@[6] != "table-set!"@[6]);
}

/// What `table-keys` accepts and gives back, as the builtin's own contract states.
proof fn lemma_builtin_table_keys_by_name(name: Seq<char>, a: Seq<ValueV>, st: StoreV, out: Seq<Seq<char>>)
    requires
        name == "table-keys"@,
    ensures
        builtin_accepts(name, a, st) <==> table_at(a, 0, st),
        builtin_apply(name, a, st, out) == (ValueV::List(str_values(assoc_keys(st.tables[tval(a[0]) as int]))), st, out),
{
    reveal_strlit("table-keys");
    reveal_strlit("print");
    assert("table-keys"@.len() != "print"@.len());
    reveal_strlit("+");
    assert("table-keys"@.len() != "+"@.len());
    reveal_strlit("-");
    assert("table-keys"@.len() != "-"@.len());
    reveal_strlit("*");
    assert("table-keys"@.len() != "*"@.len());
    reveal_strlit("/");
    assert("table-keys"@.len() != "/"@.len());
    reveal_strlit("%");
    assert("table-keys"@.len() != "%"@.len());
    reveal_strlit("=");
    assert("table-keys"@.len() != "="@.len());
    reveal_strlit("<");
    assert("table-keys"@.len() != "<"@.len());
    reveal_strlit(">");
    assert("table-keys"@.len() != ">"@.len());
    reveal_strlit("<=");
    assert("table-keys"@.len() != "<="@.len());
    reveal_strlit(">=");
    assert("table-keys"@.len() != ">="@.len());
    reveal_strlit("not");
    assert("table-keys"@.len() != "not"@.len());
    reveal_strlit("string-length");
    assert("table-keys"@.len() != "string-length"@.len());
    reveal_strlit("string-eq?");
    assert("table-keys"@[0] != "string-eq?"@[0]);
    reveal_strlit("string-append");
    assert("table-keys"@.len() != "string-append"@.len());
    reveal_strlit("substring");
    assert("table-keys"@.len() != "substring"@.len());
    reveal_strlit("starts-with?");
    assert("table-keys"@.len() != "starts-with?"@.len());
    reveal_strlit("ends-with?");
    assert("table-keys"@[0] != "ends-with?"@[0]);
    reveal_strlit("contains?");
    assert("table-keys"@.len() != "contains?"@.len());
    reveal_strlit("split");
    assert("table-keys"@.len() != "split"@.len());
    reveal_strlit("list");
    assert("table-keys"@.len() != "list"@.len());
    reveal_strlit("car");
    assert("table-keys"@.len() != "car"@.len());
    reveal_strlit("cdr");
    assert("table-keys"@.len() != "cdr"@.len());
    reveal_strlit("cons");
    assert("table-keys"@.len() != "cons"@.len());
    reveal_strlit("null?");
    assert("table-keys"@.len() != "null?"@.len());
    reveal_strlit("length");
    assert("table-keys"@.len() != "length"@.len());
    reveal_strlit("ip-address?");
    assert("table-keys"@.len() != "ip-address?"@.len());
    reveal_strlit("table-get");
    assert("table-keys"@.len() != "table-get"@.len());
    reveal_strlit("table-set!");
    assert("table-keys"@[6] != "table-set!"@[6]);
    reveal_strlit("table-has?");
    assert("table-keys"@[6] != "table-has?"@[6]);
}

/// What `respond` accepts and gives back, as the builtin's own contract states.
proof fn lemma_builtin_respond_by_name(name: Seq<char>, a: Seq<ValueV>, st: StoreV, out: Seq<Seq<char>>)
    requires
        name == "respond"@,
    ensures
        builtin_accepts(name, a, st) <==> int_at(a, 0) && str_at(a, 1),
        builtin_apply(name, a, st, out) == (ValueV::Table(st.tables.len()), respond_store(a, st), out),
{
    reveal_strlit("respond");
    reveal_strlit("print");
    assert("respond"@.len() != "print"@.len());
    reveal_strlit("+");
    assert("respond"@.len() != "+"@.len());
    reveal_strlit("-");
    assert("respond"@.len() != "-"@.len());
    reveal_strlit("*");
    assert("respond"@.len() != "*"@.len());
    reveal_strlit("/");
    assert("respond"@.len() != "/"@.len());
    reveal_strlit("%");
    assert("respond"@.len() != "%"@.len());
    reveal_strlit("=");
    assert("respond"@.len() != "="@.len());
    reveal_strlit("<");
    assert("respond"@.len() != "<"@.len());
    reveal_strlit(">");
    assert("respond"@.len() != ">"@.len());
    reveal_strlit("<=");
    assert("respond"@.len() != "<="@.len());
    reveal_strlit(">=");
    assert("respond"@.len() != ">="@.len());
    reveal_strlit("not");
    assert("respond"@.len() != "not"@.len());
    reveal_strlit("string-length");
    assert("respond"@.len() != "string-length"@.len());
    reveal_strlit("string-eq?");
    assert("respond"@.len() != "string-eq?"@.len());
    reveal_strlit("string-append");
    assert("respond"@.len() != "string-append"@.len());
    reveal_strlit("substring");
    assert("respond"@.len() != "substring"@.len());
    reveal_strlit("starts-with?");
    assert("respond"@.len() != "starts-with?"@.len());
    reveal_strlit("ends-with?");
    assert("respond"@.len() != "ends-with?"@.len());
    reveal_strlit("contains?");
    assert("respond"@.len() != "contains?"@.len());
    reveal_strlit("split");
    assert("respond"@.len() != "split"@.len());
    reveal_strlit("list");
    assert("respond"@.len() != "list"@.len());
    reveal_strlit("car");
    assert("respond"@.len() != "car"@.len());
    reveal_strlit("cdr");
    assert("respond"@.len() != "cdr"@.len());
    reveal_strlit("cons");
    assert("respond"@.len() != "cons"@.len());
    reveal_strlit("null?");
    assert("respond"@.len() != "null?"@.len());
    reveal_strlit("length");
    assert("respond"@.len() != "length"@.len());
    reveal_strlit("ip-address?");
    assert("respond"@.len() != "ip-address?"@.len());
    reveal_strlit("table-get");
    assert("respond"@.len() != "table-get"@.len());
    reveal_strlit("table-set!");
    assert("respond"@.len() != "table-set!"@.len());
    reveal_strlit("table-has?");
    assert("respond"@.len() != "table-has?"@.len());
    reveal_strlit("table-keys");
    assert("respond"@.len() != "table-keys"@.len());
}

/// Law: `call_builtin` behaves as the builtin of that name. For each name `builtin_names`
/// lists, it accepts exactly the arguments that builtin's own `requires` admits, and gives back
/// exactly the value, store and output that builtin's own `ensures` states; a name that is not
/// listed accepts no arguments at all.
pub proof fn law_call_builtin_by_name(name: Seq<char>, a: Seq<ValueV>, st: StoreV, out: Seq<Seq<char>>)
    ensures
        !spec_builtin_names().contains(name) ==> !builtin_accepts(name, a, st),
        name == "print"@ ==> (builtin_accepts(name, a, st) <==> a.len() == 1) && builtin_apply(
            name,
            a,
            st,
            out,
        ) == (ValueV::Nil, st, out.push(display_spec(a[0]))),
        name == "+"@ ==> (builtin_accepts(name, a, st) <==> accepts_add(a)) && builtin_apply(
            name,
            a,
            st,
            out,
        ) == (ValueV::Int((ival(a[0]) + ival(a[1])) as i64), st, out),
        name == "-"@ ==> (builtin_accepts(name, a, st) <==> accepts_sub(a)) && builtin_apply(
            name,
            a,
            st,
            out,
        ) == (ValueV::Int((ival(a[0]) - ival(a[1])) as i64), st, out),
        name == "*"@ ==> (builtin_accepts(name, a, st) <==> accepts_mul(a)) && builtin_apply(
            name,
            a,
            st,
            out,
        ) == (ValueV::Int((ival(a[0]) * ival(a[1])) as i64), st, out),
        name == "/"@ ==> (builtin_accepts(name, a, st) <==> accepts_div(a)) && builtin_apply(
            name,
            a,
            st,
            out,
        ) == (ValueV::Int(trunc_div(ival(a[0]), ival(a[1])) as i64), st, out),
        name == "%"@ ==> (builtin_accepts(name, a, st) <==> accepts_div(a)) && builtin_apply(
            name,
            a,
            st,
            out,
        ) == (ValueV::Int(trunc_rem(ival(a[0]), ival(a[1])) as i64), st, out),
        name == "="@ ==> (builtin_accepts(name, a, st) <==> two_ints(a)) && builtin_apply(
            name,
            a,
            st,
            out,
        ) == (ValueV::Bool(ival(a[0]) == ival(a[1])), st, out),
        name == "<"@ ==> (builtin_accepts(name, a, st) <==> two_ints(a)) && builtin_apply(
            name,
            a,
            st,
            out,
        ) == (ValueV::Bool(ival(a[0]) < ival(a[1])), st, out),
        name == ">"@ ==> (builtin_accepts(name, a, st) <==> two_ints(a)) && builtin_apply(
            name,
            a,
            st,
            out,
        ) == (ValueV::Bool(ival(a[0]) > ival(a[1])), st, out),
        name == "<="@ ==> (builtin_accepts(name, a, st) <==> two_ints(a)) && builtin_apply(
            name,
            a,
            st,
            out,
        ) == (ValueV::Bool(ival(a[0]) <= ival(a[1])), st, out),
        name == ">="@ ==> (builtin_accepts(name, a, st) <==> two_ints(a)) && builtin_apply(
            name,
            a,
            st,
            out,
        ) == (ValueV::Bool(ival(a[0]) >= ival(a[1])), st, out),
        name == "not"@ ==> (builtin_accepts(name, a, st) <==> a.len() >= 1) && builtin_apply(
            name,
            a,
            st,
            out,
        ) == (ValueV::Bool(is_falsy(a[0])), st, out),
        name == "string-length"@ ==> (builtin_accepts(name, a, st) <==> str_at(a, 0)) && builtin_apply(
            name,
            a,
            st,
            out,
        ) == (ValueV::Int((byte_len(sval(a[0])) as usize) as i64), st, out),
        name == "string-eq?"@ ==> (builtin_accepts(name, a, st) <==> two_strs(a)) && builtin_apply(
            name,
            a,
            st,
            out,
        ) == (ValueV::Bool(sval(a[0]) == sval(a[1])), st, out),
        name == "string-append"@ ==> (builtin_accepts(name, a, st) <==> all_strs(a)) && builtin_apply(
            name,
            a,
            st,
            out,
        ) == (ValueV::Str(concat_strs(a)), st, out),
        name == "substring"@ ==> (builtin_accepts(name, a, st) <==> accepts_substring(a)) && builtin_apply(
            name,
            a,
            st,
            out,
        ) == (ValueV::Str(byte_substring(sval(a[0]), ival(a[1]), ival(a[2]))), st, out),
        name == "starts-with?"@ ==> (builtin_accepts(name, a, st) <==> two_strs(a)) && builtin_apply(
            name,
            a,
            st,
            out,
        ) == (ValueV::Bool(has_prefix(sval(a[0]), sval(a[1]))), st, out),
        name == "ends-with?"@ ==> (builtin_accepts(name, a, st) <==> two_strs(a)) && builtin_apply(
            name,
            a,
            st,
            out,
        ) == (ValueV::Bool(has_suffix(sval(a[0]), sval(a[1]))), st, out),
        name == "contains?"@ ==> (builtin_accepts(name, a, st) <==> two_strs(a)) && builtin_apply(
            name,
            a,
            st,
            out,
        ) == (ValueV::Bool(has_infix(sval(a[0]), sval(a[1]))), st, out),
        name == "split"@ ==> (builtin_accepts(name, a, st) <==> two_strs(a)) && builtin_apply(
            name,
            a,
            st,
            out,
        ) == (ValueV::List(str_values(str_split(sval(a[0]), sval(a[1])))), st, out),
        name == "list"@ ==> (builtin_accepts(name, a, st) <==> true) && builtin_apply(
            name,
            a,
            st,
            out,
        ) == (ValueV::List(a), st, out),
        name == "car"@ ==> (builtin_accepts(name, a, st) <==> accepts_nonempty_list(a)) && builtin_apply(
            name,
            a,
            st,
            out,
        ) == (lval(a[0])[0], st, out),
        name == "cdr"@ ==> (builtin_accepts(name, a, st) <==> accepts_nonempty_list(a)) && builtin_apply(
            name,
            a,
            st,
            out,
        ) == (ValueV::List(lval(a[0]).drop_first()), st, out),
        name == "cons"@ ==> (builtin_accepts(name, a, st) <==> accepts_cons(a)) && builtin_apply(
            name,
            a,
            st,
            out,
        ) == (ValueV::List(seq![a[0]] + lval(a[1])), st, out),
        name == "null?"@ ==> (builtin_accepts(name, a, st) <==> a.len() >= 1) && builtin_apply(
            name,
            a,
            st,
            out,
        ) == (ValueV::Bool(is_null(a[0])), st, out),
        name == "length"@ ==> (builtin_accepts(name, a, st) <==> list_at(a, 0)) && builtin_apply(
            name,
            a,
            st,
            out,
        ) == (ValueV::Int(lval(a[0]).len() as i64), st, out),
        name == "ip-address?"@ ==> (builtin_accepts(name, a, st) <==> str_at(a, 0)) && builtin_apply(
            name,
            a,
            st,
            out,
        ) == (ValueV::Bool(is_ip_address(sval(a[0]))), st, out),
        name == "table-get"@ ==> (builtin_accepts(name, a, st) <==> table_at(a, 0, st) && str_at(a, 1)) && builtin_apply(
            name,
            a,
            st,
            out,
        ) == (table_get_or_nil(st, tval(a[0]), sval(a[1])), st, out),
        name == "table-set!"@ ==> (builtin_accepts(name, a, st) <==> table_at(a, 0, st) && str_at(a, 1) && a.len() >= 3) && builtin_apply(
            name,
            a,
            st,
            out,
        ) == (ValueV::Nil, spec_table_set(st, tval(a[0]), sval(a[1]), a[2]), out),
        name == "table-has?"@ ==> (builtin_accepts(name, a, st) <==> table_at(a, 0, st) && str_at(a, 1)) && builtin_apply(
            name,
            a,
            st,
            out,
        ) == (ValueV::Bool(spec_table_get(st, tval(a[0]), sval(a[1])) is Some), st, out),
        name == "table-keys"@ ==> (builtin_accepts(name, a, st) <==> table_at(a, 0, st)) && builtin_apply(
            name,
            a,
            st,
            out,
        ) == (ValueV::List(str_values(assoc_keys(st.tables[tval(a[0]) as int]))), st, out),
        name == "respond"@ ==> (builtin_accepts(name, a, st) <==> int_at(a, 0) && str_at(a, 1)) && builtin_apply(
            name,
            a,
            st,
            out,
        ) == (ValueV::Table(st.tables.len()), respond_store(a, st), out),
{
    if name == "print"@ {
        lemma_builtin_print_by_name(name, a, st, out);
    }
    if name == "+"@ {
        lemma_builtin_add_by_name(name, a, st, out);
    }
    if name == "-"@ {
        lemma_builtin_sub_by_name(name, a, st, out);
    }
    if name == "*"@ {
        lemma_builtin_mul_by_name(name, a, st, out);
    }
    if name == "/"@ {
        lemma_builtin_div_by_name(name, a, st, out);
    }
    if name == "%"@ {
        lemma_builtin_rem_by_name(name, a, st, out);
    }
    if name == "="@ {
        lemma_builtin_eq_by_name(name, a, st, out);
    }
    if name == "<"@ {
        lemma_builtin_lt_by_name(name, a, st, out);
    }
    if name == ">"@ {
        lemma_builtin_gt_by_name(name, a, st, out);
    }
    if name == "<="@ {
        lemma_builtin_le_by_name(name, a, st, out);
    }
    if name == ">="@ {
        lemma_builtin_ge_by_name(name, a, st, out);
    }
    if name == "not"@ {
        lemma_builtin_not_by_name(name, a, st, out);
    }
    if name == "string-length"@ {
        lemma_builtin_string_length_by_name(name, a, st, out);
    }
    if name == "string-eq?"@ {
        lemma_builtin_string_eq_p_by_name(name, a, st, out);
    }
    if name == "string-append"@ {
        lemma_builtin_string_append_by_name(name, a, st, out);
    }
    if name == "substring"@ {
        lemma_builtin_substring_by_name(name, a, st, out);
    }
    if name == "starts-with?"@ {
        lemma_builtin_starts_with_p_by_name(name, a, st, out);
    }
    if name == "ends-with?"@ {
        lemma_builtin_ends_with_p_by_name(name, a, st, out);
    }
    if name == "contains?"@ {
        lemma_builtin_contains_p_by_name(name, a, st, out);
    }
    if name == "split"@ {
        lemma_builtin_split_by_name(name, a, st, out);
    }
    if name == "list"@ {
        lemma_builtin_list_by_name(name, a, st, out);
    }
    if name == "car"@ {
        lemma_builtin_car_by_name(name, a, st, out);
    }
    if name == "cdr"@ {
        lemma_builtin_cdr_by_name(name, a, st, out);
    }
    if name == "cons"@ {
        lemma_builtin_cons_by_name(name, a, st, out);
    }
    if name == "null?"@ {
        lemma_builtin_null_p_by_name(name, a, st, out);
    }
    if name == "length"@ {
        lemma_builtin_length_by_name(name, a, st, out);
    }
    if name == "ip-address?"@ {
        lemma_builtin_ip_address_p_by_name(name, a, st, out);
    }
    if name == "table-get"@ {
        lemma_builtin_table_get_by_name(name, a, st, out);
    }
    if name == "table-set!"@ {
        lemma_builtin_table_set_x_by_name(name, a, st, out);
    }
    if name == "table-has?"@ {
        lemma_builtin_table_has_p_by_name(name, a, st, out);
    }
    if name == "table-keys"@ {
        lemma_builtin_table_keys_by_name(name, a, st, out);
    }
    if name == "respond"@ {
        lemma_builtin_respond_by_name(name, a, st, out);
    }
    if builtin_accepts(name, a, st) {
        lemma_accepted_names_listed(name, a, st);
    }
}

} // verus!
