//! Text rendering used by the model: hexadecimal and decimal numbers and
//! the quoted form of strings.
use vstd::prelude::*;

verus! {

/// The lowercase hexadecimal digit for a value below 16.
pub open spec fn hex_digit(v: nat) -> char {
    if v < 10 {
        (('0' as nat) + v) as char
    } else {
        (('a' as nat) + (v - 10)) as char
    }
}

/// The last `n` hexadecimal digits of `v`, most significant first (zero padded).
pub open spec fn hex_text(v: nat, n: nat) -> Seq<char>
    decreases n,
{
    if n == 0 {
        Seq::empty()
    } else {
        hex_text(v / 16, (n - 1) as nat).push(hex_digit(v % 16))
    }
}

/// The value of a lowercase hexadecimal digit (0 for any other character).
pub open spec fn hex_digit_value(c: char) -> nat {
    if '0' <= c && c <= '9' {
        (c as nat - '0' as nat) as nat
    } else if 'a' <= c && c <= 'f' {
        (c as nat - 'a' as nat + 10) as nat
    } else {
        0
    }
}

/// Whether `c` is a lowercase hexadecimal digit.
pub open spec fn is_hex_digit(c: char) -> bool {
    ('0' <= c && c <= '9') || ('a' <= c && c <= 'f')
}

/// The number that hexadecimal text reads as, most significant digit first.
pub open spec fn hex_value(s: Seq<char>) -> nat
    decreases s.len(),
{
    if s.len() == 0 {
        0
    } else {
        16 * hex_value(s.drop_last()) + hex_digit_value(s.last())
    }
}

/// 16 to the power `n`.
pub open spec fn pow16(n: nat) -> nat
    decreases n,
{
    if n == 0 {
        1
    } else {
        16 * pow16((n - 1) as nat)
    }
}

/// The last `n` hexadecimal digits of a value below 16 to the `n` are `n`
/// digits that read back as the value.
pub proof fn lemma_hex_text_reads_back(v: nat, n: nat)
    requires
        v < pow16(n),
    ensures
        hex_text(v, n).len() == n,
        hex_value(hex_text(v, n)) == v,
        forall|i: int| 0 <= i < n ==> is_hex_digit(#[trigger] hex_text(v, n)[i]),
    decreases n,
{
    if n > 0 {
        let p = pow16((n - 1) as nat);
        assert(v / 16 < p) by (nonlinear_arith)
            requires
                v < 16 * p,
        ;
        lemma_hex_text_reads_back(v / 16, (n - 1) as nat);
        let d = v % 16;
        let t = hex_text(v, n);
        assert(t == hex_text(v / 16, (n - 1) as nat).push(hex_digit(d)));
        assert(t.drop_last() =~= hex_text(v / 16, (n - 1) as nat));
        assert(hex_digit_value(hex_digit(d)) == d);
        assert(v == 16 * (v / 16) + d);
        assert forall|i: int| 0 <= i < n implies is_hex_digit(#[trigger] t[i]) by {
            if i < n - 1 {
                assert(t[i] == hex_text(v / 16, (n - 1) as nat)[i]);
            }
        }
    } else {
        assert(v == 0);
    }
}

/// The decimal digits of `v`, most significant first, without leading zeros.
pub open spec fn decimal_text(v: nat) -> Seq<char>
    decreases v,
{
    if v < 10 {
        seq![(('0' as nat) + v) as char]
    } else {
        decimal_text(v / 10).push((('0' as nat) + (v % 10)) as char)
    }
}

/// The decimal text of a signed value: a minus sign before the digits of a negative one.
pub open spec fn signed_decimal_text(v: int) -> Seq<char> {
    if v < 0 {
        seq!['-'] + decimal_text((-v) as nat)
    } else {
        decimal_text(v as nat)
    }
}

/// What `{:?}` renders for a string: the string between double quotes, with
/// the characters that need it escaped. The rendering belongs to std.
pub uninterp spec fn quoted_text(s: Seq<char>) -> Seq<char>;

/// Appends one character to a string (std `String::push`).
#[verifier::external_body]
pub(crate) fn push_char(s: &mut String, c: char)
    ensures
        final(s)@ == old(s)@.push(c),
{
    s.push(c);
}

fn decimal_char(d: u64) -> (c: char)
    requires
        d < 10,
    ensures
        c == (('0' as nat) + d) as char,
{
    ((48 + d) as u8) as char
}

/// Appends the decimal digits of `v`, most significant first.
fn push_decimal(s: &mut String, v: u64)
    ensures
        final(s)@ == old(s)@ + decimal_text(v as nat),
    decreases v,
{
    let ghost start = s@;
    if v >= 10 {
        push_decimal(s, v / 10);
    } else {
        assert(start + Seq::<char>::empty() =~= start);
    }
    let ghost mid = s@;
    push_char(s, decimal_char(v % 10));
    proof {
        if v >= 10 {
            assert(mid == start + decimal_text((v / 10) as nat));
            assert(s@ =~= start + decimal_text(v as nat));
        } else {
            assert(s@ =~= start + decimal_text(v as nat));
        }
    }
}

/// Renders an unsigned value in decimal, as std's `Display` for integers does:
/// digits only, most significant first, no leading zeros.
pub fn u64_text(v: u64) -> (r: String)
    ensures
        r@ == decimal_text(v as nat),
{
    let mut r = String::new();
    push_decimal(&mut r, v);
    assert(r@ =~= decimal_text(v as nat));
    r
}

/// Renders a signed value in decimal, as std's `Display` for integers does:
/// a minus sign before the digits of a negative value.
pub fn i64_text(v: i64) -> (r: String)
    ensures
        r@ == signed_decimal_text(v as int),
{
    let mut r = String::new();
    if v < 0 {
        push_char(&mut r, '-');
        let magnitude: u64 = (-(v as i128)) as u64;
        push_decimal(&mut r, magnitude);
        assert(r@ =~= signed_decimal_text(v as int));
    } else {
        push_decimal(&mut r, v as u64);
        assert(r@ =~= signed_decimal_text(v as int));
    }
    r
}

/// Renders a string the way `{:?}` does (std's `Debug` for `str`): between
/// double quotes, with quotes, backslashes and non-printable characters escaped.
/// The result is named [`quoted_text`]; the escaping rules are not restated here.
#[verifier::external_body]
pub(crate) fn quote(s: &str) -> (r: String)
    ensures
        r@ == quoted_text(s@),
{
    format!("{:?}", s)
}

fn hex_char(v: u32) -> (c: char)
    requires
        v < 16,
    ensures
        c == hex_digit(v as nat),
{
    if v < 10 {
        ((48 + v) as u8) as char
    } else {
        ((97 + (v - 10)) as u8) as char
    }
}

/// Appends the last `n` hexadecimal digits of `v` (zero padded, lowercase).
pub fn push_hex(s: &mut String, v: u32, n: usize)
    ensures
        final(s)@ == old(s)@ + hex_text(v as nat, n as nat),
    decreases n,
{
    if n > 0 {
        push_hex(s, v / 16, n - 1);
        push_char(s, hex_char(v % 16));
        assert(hex_text(v as nat, n as nat) == hex_text((v / 16) as nat, (n - 1) as nat).push(
            hex_digit((v % 16) as nat),
        ));
    } else {
        assert(hex_text(v as nat, 0) =~= Seq::<char>::empty());
        assert(old(s)@ + Seq::<char>::empty() =~= old(s)@);
    }
}

/// Whether `s` starts with `prefix` (std `str::starts_with` with a string pattern).
#[verifier::external_body]
pub(crate) fn starts_with(s: &str, prefix: &str) -> (b: bool)
    ensures
        b == (prefix@.len() <= s@.len() && s@.subrange(0, prefix@.len() as int) == prefix@),
{
    s.starts_with(prefix)
}


/// Appends a string (std `String::push_str`).
#[verifier::external_body]
pub(crate) fn push_str(s: &mut String, t: &str)
    ensures
        final(s)@ == old(s)@ + t@,
{
    s.push_str(t);
}

/// What `{:?}` renders for a `bool` (or `Display` does): `true` or `false`.
pub open spec fn bool_text(b: bool) -> Seq<char> {
    if b {
        "true"@
    } else {
        "false"@
    }
}

/// What `{:?}` renders for an optional string: `None`, or `Some(..)` around
/// the quoted string.
pub open spec fn debug_opt_text(o: Option<Seq<char>>) -> Seq<char> {
    match o {
        None => "None"@,
        Some(t) => "Some("@ + quoted_text(t) + ")"@,
    }
}

/// What `{:?}` renders for an optional unsigned number: `None`, or `Some(..)`
/// around its decimal digits.
pub open spec fn debug_opt_num(o: Option<nat>) -> Seq<char> {
    match o {
        None => "None"@,
        Some(v) => "Some("@ + decimal_text(v) + ")"@,
    }
}

/// An optional `u64` as an optional natural number.
pub open spec fn opt_nat(o: Option<u64>) -> Option<nat> {
    match o {
        None => None,
        Some(v) => Some(v as nat),
    }
}

/// Appends the decimal digits of `v`.
pub fn push_u64(s: &mut String, v: u64)
    ensures
        final(s)@ == old(s)@ + decimal_text(v as nat),
{
    let t = u64_text(v);
    push_str(s, t.as_str());
}

/// Appends `true` or `false`.
pub fn push_bool(s: &mut String, b: bool)
    ensures
        final(s)@ == old(s)@ + bool_text(b),
{
    if b {
        push_str(s, "true");
    } else {
        push_str(s, "false");
    }
}

/// Appends the quoted form of `t` (see [`quote`]).
pub fn push_quoted(s: &mut String, t: &str)
    ensures
        final(s)@ == old(s)@ + quoted_text(t@),
{
    let q = quote(t);
    push_str(s, q.as_str());
}

/// Appends what `{:?}` renders for an optional string.
pub fn push_debug_opt_text(s: &mut String, o: &Option<String>)
    ensures
        final(s)@ == old(s)@ + debug_opt_text(crate::type_size::opt_text(*o)),
{
    let ghost s0 = s@;
    match o {
        None => push_str(s, "None"),
        Some(t) => {
            push_str(s, "Some(");
            push_quoted(s, t.as_str());
            push_str(s, ")");
            assert(s@ =~= s0 + debug_opt_text(crate::type_size::opt_text(*o)));
        },
    }
}

/// Appends what `{:?}` renders for an optional `u64`.
pub fn push_debug_opt_u64(s: &mut String, o: Option<u64>)
    ensures
        final(s)@ == old(s)@ + debug_opt_num(opt_nat(o)),
{
    let ghost s0 = s@;
    match o {
        None => push_str(s, "None"),
        Some(v) => {
            push_str(s, "Some(");
            push_u64(s, v);
            push_str(s, ")");
            assert(s@ =~= s0 + debug_opt_num(opt_nat(o)));
        },
    }
}

/// A string holding `t`.
pub fn text(t: &str) -> (r: String)
    ensures
        r@ == t@,
{
    let mut r = String::new();
    push_str(&mut r, t);
    assert(r@ =~= t@);
    r
}

} // verus!
