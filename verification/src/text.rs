//! Verified text utilities: character classes, unsigned-integer parsing,
//! splitting and trimming, each against a spec-level model of the same
//! operation.

use vstd::prelude::*;

verus! {

/// Whitespace, enumerating exactly the characters that Rust's
/// `char::is_whitespace` accepts.
pub open spec fn is_space_char(c: char) -> bool {
    ||| c == ' '
    ||| c == '\t'
    ||| c == '\n'
    ||| c == '\u{b}'
    ||| c == '\u{c}'
    ||| c == '\r'
    ||| c == '\u{85}'
    ||| c == '\u{a0}'
    ||| c == '\u{1680}'
    ||| c == '\u{2000}'
    ||| c == '\u{2001}'
    ||| c == '\u{2002}'
    ||| c == '\u{2003}'
    ||| c == '\u{2004}'
    ||| c == '\u{2005}'
    ||| c == '\u{2006}'
    ||| c == '\u{2007}'
    ||| c == '\u{2008}'
    ||| c == '\u{2009}'
    ||| c == '\u{200a}'
    ||| c == '\u{2028}'
    ||| c == '\u{2029}'
    ||| c == '\u{202f}'
    ||| c == '\u{205f}'
    ||| c == '\u{3000}'
}

/// Whether `c` is whitespace.
pub fn is_space(c: char) -> (r: bool)
    ensures
        r == is_space_char(c),
{
    match c {
        ' ' | '\t' | '\n' | '\u{b}' | '\u{c}' | '\r' | '\u{85}' | '\u{a0}' | '\u{1680}'
            | '\u{2000}' | '\u{2001}' | '\u{2002}' | '\u{2003}' | '\u{2004}' | '\u{2005}'
            | '\u{2006}' | '\u{2007}' | '\u{2008}' | '\u{2009}' | '\u{200a}' | '\u{2028}'
            | '\u{2029}' | '\u{202f}' | '\u{205f}' | '\u{3000}' => true,
        _ => false,
    }
}

/// Whether every character of `s` is whitespace; true of the empty string.
pub open spec fn is_blank(s: Seq<char>) -> bool {
    forall|i: int| 0 <= i < s.len() ==> is_space_char(#[trigger] s[i])
}

/// The value of `c` as a digit in the given radix, or -1 where `c` is no
/// such digit. Letter digits are accepted in either case, as in Rust's
/// `from_str_radix`.
pub open spec fn digit_val_spec(c: char, radix: int) -> int {
    let cu = c as u32;
    if ('0' as u32) <= cu && cu <= ('9' as u32) && cu - ('0' as u32) < radix {
        cu - ('0' as u32)
    } else if ('a' as u32) <= cu && cu - ('a' as u32) + 10 < radix {
        cu - ('a' as u32) + 10
    } else if ('A' as u32) <= cu && cu - ('A' as u32) + 10 < radix {
        cu - ('A' as u32) + 10
    } else {
        -1
    }
}

/// Whether `c` is a digit in the given radix.
pub open spec fn is_digit_spec(c: char, radix: int) -> bool {
    digit_val_spec(c, radix) >= 0
}

/// The number that the digit string `s` denotes in the given radix (most
/// significant digit first); meaningful when every character is a digit.
pub open spec fn digits_value(s: Seq<char>, radix: int) -> int
    decreases s.len(),
{
    if s.len() == 0 {
        0
    } else {
        digits_value(s.drop_last(), radix) * radix + digit_val_spec(s.last(), radix)
    }
}

/// `s` without one leading plus sign, the one sign `from_str`-style parsing
/// of an unsigned number accepts.
pub open spec fn strip_plus(s: Seq<char>) -> Seq<char> {
    if s.len() > 0 && s[0] == '+' {
        s.skip(1)
    } else {
        s
    }
}

/// Whether `s` parses as a `u64` in the given radix: after the optional
/// plus sign, at least one character, all of them digits, and a value that
/// fits.
pub open spec fn parse_uint_ok(s: Seq<char>, radix: int) -> bool {
    let body = strip_plus(s);
    &&& body.len() > 0
    &&& forall|i: int| 0 <= i < body.len() ==> is_digit_spec(#[trigger] body[i], radix)
    &&& digits_value(body, radix) <= u64::MAX
}

/// A digit string of valid digits denotes a non-negative number.
proof fn lemma_digits_value_nonneg(s: Seq<char>, radix: int)
    requires
        radix >= 2,
        forall|i: int| 0 <= i < s.len() ==> is_digit_spec(#[trigger] s[i], radix),
    ensures
        digits_value(s, radix) >= 0,
    decreases s.len(),
{
    if s.len() > 0 {
        let d = s.drop_last();
        assert(forall|i: int| 0 <= i < d.len() ==> is_digit_spec(#[trigger] d[i], radix)) by {
            assert(forall|i: int| 0 <= i < d.len() ==> d[i] == s[i]);
        }
        lemma_digits_value_nonneg(d, radix);
        assert(digits_value(d, radix) * radix >= 0) by (nonlinear_arith)
            requires
                digits_value(d, radix) >= 0,
                radix >= 2,
        ;
    }
}

/// Extending a digit string with more valid digits never shrinks its value.
proof fn lemma_digits_value_prefix(s: Seq<char>, k: int, radix: int)
    requires
        radix >= 2,
        0 <= k <= s.len(),
        forall|i: int| 0 <= i < s.len() ==> is_digit_spec(#[trigger] s[i], radix),
    ensures
        digits_value(s.take(k), radix) <= digits_value(s, radix),
    decreases s.len() - k,
{
    if k < s.len() {
        lemma_digits_value_prefix(s, k + 1, radix);
        let t = s.take(k + 1);
        assert(t.drop_last() =~= s.take(k));
        assert(forall|i: int| 0 <= i < t.len() ==> is_digit_spec(#[trigger] t[i], radix)) by {
            assert(forall|i: int| 0 <= i < t.len() ==> t[i] == s[i]);
        }
        let a = digits_value(s.take(k), radix);
        let dv = digit_val_spec(t.last(), radix);
        assert(forall|i: int| 0 <= i < s.take(k).len() ==> is_digit_spec(
            #[trigger] s.take(k)[i],
            radix,
        )) by {
            assert(forall|i: int| 0 <= i < s.take(k).len() ==> s.take(k)[i] == s[i]);
        }
        lemma_digits_value_nonneg(s.take(k), radix);
        assert(a <= a * radix + dv) by (nonlinear_arith)
            requires
                a >= 0,
                radix >= 2,
                dv >= 0,
        ;
    } else {
        assert(s.take(k) =~= s);
    }
}

/// Parses `s` as a `u64` in the given radix, accepting one optional leading
/// plus sign, exactly as Rust's unsigned `from_str_radix` does: `Some` if
/// and only if the digits are well formed and the value fits.
#[verifier::loop_isolation(false)]
pub fn parse_u64_radix(s: &str, radix: u64) -> (r: Option<u64>)
    requires
        radix == 10 || radix == 16,
    ensures
        match r {
            Some(v) => parse_uint_ok(s@, radix as int) && v == digits_value(
                strip_plus(s@),
                radix as int,
            ),
            None => !parse_uint_ok(s@, radix as int),
        },
{
    let n = s.unicode_len();
    let mut i: usize = 0;
    if n > 0 && s.get_char(0) == '+' {
        i = 1;
    }
    let ghost body = strip_plus(s@);
    proof {
        assert(body =~= s@.skip(i as int));
    }
    if i == n {
        return None;
    }
    let mut value: u64 = 0;
    let mut j: usize = i;
    while j < n
        invariant
            i <= j <= n,
            n == s@.len(),
            i <= 1,
            body == s@.skip(i as int),
            radix == 10 || radix == 16,
            forall|k: int| 0 <= k < j - i ==> is_digit_spec(#[trigger] body[k], radix as int),
            value == digits_value(body.take(j - i), radix as int),
        decreases n - j,
    {
        let c = s.get_char(j);
        let cu = c as u32;
        let d: u64 = if cu >= ('0' as u32) && cu <= ('9' as u32) && (((cu - ('0' as u32)) as u64)
            < radix) {
            (cu - ('0' as u32)) as u64
        } else if radix == 16 && cu >= ('a' as u32) && cu <= ('f' as u32) {
            ((cu - ('a' as u32)) as u64) + 10
        } else if radix == 16 && cu >= ('A' as u32) && cu <= ('F' as u32) {
            ((cu - ('A' as u32)) as u64) + 10
        } else {
            proof {
                assert(!is_digit_spec(body[j - i], radix as int));
            }
            return None;
        };
        proof {
            assert(is_digit_spec(body[j - i], radix as int));
            assert(d == digit_val_spec(body[j - i], radix as int));
        }
        let next = match value.checked_mul(radix) {
            Some(v10) => match v10.checked_add(d) {
                Some(v) => v,
                None => {
                    proof {
                        lemma_parse_overflow(body, j - i, radix as int);
                    }
                    return None;
                },
            },
            None => {
                proof {
                    lemma_digits_value_nonneg(body.take(j - i), radix as int);
                    assert(value * radix + d > u64::MAX) by (nonlinear_arith)
                        requires
                            value * radix > u64::MAX,
                            d >= 0,
                    ;
                    lemma_parse_overflow(body, j - i, radix as int);
                }
                return None;
            },
        };
        proof {
            assert(body.take(j - i + 1).drop_last() =~= body.take(j - i));
            assert(next == digits_value(body.take(j - i + 1), radix as int));
        }
        value = next;
        j += 1;
    }
    proof {
        assert(body.take(n - i) =~= body);
    }
    Some(value)
}

/// When the value of some digit prefix, extended by its next digit, already
/// exceeds `u64::MAX`, no continuation of the string parses: either a later
/// character is no digit, or the full value exceeds `u64::MAX` as well.
proof fn lemma_parse_overflow(body: Seq<char>, k: int, radix: int)
    requires
        radix >= 2,
        0 <= k < body.len(),
        forall|i: int| 0 <= i <= k ==> is_digit_spec(#[trigger] body[i], radix),
        digits_value(body.take(k), radix) * radix + digit_val_spec(body[k], radix) > u64::MAX,
    ensures
        !parse_uint_ok_body(body, radix),
{
    if forall|i: int| 0 <= i < body.len() ==> is_digit_spec(#[trigger] body[i], radix) {
        assert(body.take(k + 1).drop_last() =~= body.take(k));
        assert(digits_value(body.take(k + 1), radix) > u64::MAX);
        lemma_digits_value_prefix(body, k + 1, radix);
    }
}

/// [`parse_uint_ok`] on the body alone, after the sign was stripped.
pub open spec fn parse_uint_ok_body(body: Seq<char>, radix: int) -> bool {
    &&& body.len() > 0
    &&& forall|i: int| 0 <= i < body.len() ==> is_digit_spec(#[trigger] body[i], radix)
    &&& digits_value(body, radix) <= u64::MAX
}

/// Parses a decimal `u64`, as Rust's `u64::from_str` does.
pub fn parse_u64(s: &str) -> (r: Option<u64>)
    ensures
        match r {
            Some(v) => parse_uint_ok(s@, 10) && v == digits_value(strip_plus(s@), 10),
            None => !parse_uint_ok(s@, 10),
        },
{
    parse_u64_radix(s, 10)
}

/// Parses a hexadecimal `u64`, as Rust's `u64::from_str_radix(s, 16)` does.
pub fn parse_hex_u64(s: &str) -> (r: Option<u64>)
    ensures
        match r {
            Some(v) => parse_uint_ok(s@, 16) && v == digits_value(strip_plus(s@), 16),
            None => !parse_uint_ok(s@, 16),
        },
{
    parse_u64_radix(s, 16)
}

/// The pieces of `s` between occurrences of `sep`, as Rust's `str::split`
/// yields them: every occurrence separates two pieces, so the empty string
/// gives one empty piece, and adjacent separators give empty pieces.
pub open spec fn spec_split(s: Seq<char>, sep: char) -> Seq<Seq<char>>
    decreases s.len(),
{
    if s.len() == 0 {
        seq![Seq::<char>::empty()]
    } else if s[0] == sep {
        seq![Seq::<char>::empty()] + spec_split(s.skip(1), sep)
    } else {
        let rest = spec_split(s.skip(1), sep);
        seq![seq![s[0]] + rest[0]] + rest.skip(1)
    }
}

/// A split yields at least one piece.
pub proof fn lemma_split_len(s: Seq<char>, sep: char)
    ensures
        spec_split(s, sep).len() >= 1,
    decreases s.len(),
{
    if s.len() > 0 {
        lemma_split_len(s.skip(1), sep);
    }
}

/// The given prefix, glued onto the first piece.
spec fn prepend_first(prefix: Seq<char>, pieces: Seq<Seq<char>>) -> Seq<Seq<char>>
    recommends
        pieces.len() > 0,
{
    seq![prefix + pieces[0]] + pieces.skip(1)
}

/// Splits `s` at every occurrence of `sep`, as Rust's `str::split` does.
#[verifier::loop_isolation(false)]
pub fn split(s: &str, sep: char) -> (r: Vec<String>)
    ensures
        r.deep_view() == spec_split(s@, sep),
{
    let n = s.unicode_len();
    let mut out: Vec<String> = Vec::new();
    let mut st: usize = 0;
    let mut j: usize = 0;
    proof {
        lemma_split_len(s@, sep);
        assert(out.deep_view() =~= Seq::<Seq<char>>::empty());
        assert(s@.subrange(0, 0) =~= Seq::<char>::empty());
        assert(s@.skip(0) =~= s@);
        assert(prepend_first(Seq::empty(), spec_split(s@, sep)) =~= spec_split(s@, sep)) by {
            assert(Seq::<char>::empty() + spec_split(s@, sep)[0] =~= spec_split(s@, sep)[0]);
        }
    }
    while j < n
        invariant
            st <= j <= n,
            spec_split(s@.skip(j as int), sep).len() >= 1,
            spec_split(s@, sep) =~= out.deep_view() + prepend_first(
                s@.subrange(st as int, j as int),
                spec_split(s@.skip(j as int), sep),
            ),
        decreases n - j,
    {
        let c = s.get_char(j);
        let ghost piece = s@.subrange(st as int, j as int);
        let ghost tail_pieces = spec_split(s@.skip(j as int), sep);
        let ghost next_pieces = spec_split(s@.skip(j + 1), sep);
        proof {
            lemma_split_len(s@.skip(j + 1), sep);
            assert(s@.skip(j as int)[0] == c);
            assert(s@.skip(j as int).skip(1) =~= s@.skip(j + 1));
        }
        if c == sep {
            proof {
                assert(tail_pieces == seq![Seq::<char>::empty()] + next_pieces);
                assert(prepend_first(piece, tail_pieces) =~= seq![piece] + next_pieces) by {
                    assert(piece + Seq::<char>::empty() =~= piece);
                    assert((seq![Seq::<char>::empty()] + next_pieces).skip(1) =~= next_pieces);
                }
            }
            let ghost pre_out = out@;
            out.push(s.substring_char(st, j).to_owned());
            st = j + 1;
            proof {
                assert forall|k: int| 0 <= k < out@.len() implies out.deep_view()[k] == (
                pre_out.map_values(|t: String| t@).push(piece))[k] by {
                    if k < pre_out.len() {
                        assert(out@[k] == pre_out[k]);
                    }
                }
                assert(out.deep_view() =~= pre_out.map_values(|t: String| t@).push(piece));
                assert(pre_out.map_values(|t: String| t@) =~= Seq::new(
                    pre_out.len(),
                    |k: int| pre_out[k].deep_view(),
                ));
                assert(s@.subrange(st as int, j + 1) =~= Seq::<char>::empty());
                assert(prepend_first(Seq::empty(), next_pieces) =~= next_pieces) by {
                    assert(Seq::<char>::empty() + next_pieces[0] =~= next_pieces[0]);
                }
                assert(out.deep_view() + prepend_first(
                    s@.subrange(st as int, j + 1),
                    next_pieces,
                ) =~= spec_split(s@, sep));
            }
        } else {
            proof {
                assert(tail_pieces == seq![seq![c] + next_pieces[0]] + next_pieces.skip(1));
                assert(prepend_first(piece, tail_pieces) =~= prepend_first(
                    s@.subrange(st as int, j + 1),
                    next_pieces,
                )) by {
                    assert(piece + (seq![c] + next_pieces[0]) =~= s@.subrange(st as int, j + 1)
                        + next_pieces[0]);
                    assert((seq![seq![c] + next_pieces[0]] + next_pieces.skip(1)).skip(1)
                        =~= next_pieces.skip(1));
                }
            }
        }
        j += 1;
    }
    let ghost pre_out = out@;
    out.push(s.substring_char(st, n).to_owned());
    proof {
        assert(s@.skip(n as int) =~= Seq::<char>::empty());
        assert(spec_split(Seq::<char>::empty(), sep) == seq![Seq::<char>::empty()]);
        assert(prepend_first(s@.subrange(st as int, n as int), seq![Seq::<char>::empty()])
            =~= seq![s@.subrange(st as int, n as int)]) by {
            assert(s@.subrange(st as int, n as int) + Seq::<char>::empty() =~= s@.subrange(
                st as int,
                n as int,
            ));
            assert((seq![Seq::<char>::empty()]).skip(1) =~= Seq::<Seq<char>>::empty());
        }
        assert forall|k: int| 0 <= k < out@.len() implies out.deep_view()[k] == (Seq::new(
            pre_out.len(),
            |k: int| pre_out[k].deep_view(),
        ).push(s@.subrange(st as int, n as int)))[k] by {
            if k < pre_out.len() {
                assert(out@[k] == pre_out[k]);
            }
        }
        assert(out.deep_view() =~= spec_split(s@, sep));
    }
    out
}

/// `s` without its leading whitespace.
pub open spec fn trim_front_spec(s: Seq<char>) -> Seq<char>
    decreases s.len(),
{
    if s.len() > 0 && is_space_char(s[0]) {
        trim_front_spec(s.skip(1))
    } else {
        s
    }
}

/// `s` without its trailing whitespace.
pub open spec fn trim_back_spec(s: Seq<char>) -> Seq<char>
    decreases s.len(),
{
    if s.len() > 0 && is_space_char(s.last()) {
        trim_back_spec(s.drop_last())
    } else {
        s
    }
}

/// `s` without leading and trailing whitespace, as Rust's `str::trim`.
pub open spec fn trim_spec(s: Seq<char>) -> Seq<char> {
    trim_back_spec(trim_front_spec(s))
}

/// Trims leading and trailing whitespace, as Rust's `str::trim` does.
#[verifier::loop_isolation(false)]
pub fn trim(s: &str) -> (r: String)
    ensures
        r@ == trim_spec(s@),
{
    let n = s.unicode_len();
    let mut a: usize = 0;
    proof {
        assert(s@.skip(0) =~= s@);
    }
    while a < n && is_space(s.get_char(a))
        invariant
            a <= n,
            trim_front_spec(s@) == trim_front_spec(s@.skip(a as int)),
        decreases n - a,
    {
        proof {
            assert(s@.skip(a as int)[0] == s@[a as int]);
            assert(s@.skip(a as int).skip(1) =~= s@.skip(a + 1));
        }
        a += 1;
    }
    proof {
        if a == n {
            assert(s@.skip(a as int) =~= Seq::<char>::empty());
        }
        assert(trim_front_spec(s@.skip(a as int)) == s@.skip(a as int));
    }
    let mut b: usize = n;
    while b > a && is_space(s.get_char(b - 1))
        invariant
            a <= b <= n,
            trim_front_spec(s@) == s@.skip(a as int),
            trim_back_spec(s@.skip(a as int)) == trim_back_spec(s@.subrange(a as int, b as int)),
        decreases b,
    {
        proof {
            let cur = s@.subrange(a as int, b as int);
            assert(cur.last() == s@[b - 1]);
            assert(cur.drop_last() =~= s@.subrange(a as int, b - 1));
        }
        b -= 1;
    }
    proof {
        let cur = s@.subrange(a as int, b as int);
        if b == a {
            assert(cur =~= Seq::<char>::empty());
        }
        assert(trim_back_spec(cur) == cur);
        assert(s@.skip(a as int) =~= s@.subrange(a as int, n as int));
    }
    s.substring_char(a, b).to_owned()
}

/// `s` without its leading NUL characters.
pub open spec fn trim_nuls_front_spec(s: Seq<char>) -> Seq<char>
    decreases s.len(),
{
    if s.len() > 0 && s[0] == '\0' {
        trim_nuls_front_spec(s.skip(1))
    } else {
        s
    }
}

/// `s` without its trailing NUL characters.
pub open spec fn trim_nuls_back_spec(s: Seq<char>) -> Seq<char>
    decreases s.len(),
{
    if s.len() > 0 && s.last() == '\0' {
        trim_nuls_back_spec(s.drop_last())
    } else {
        s
    }
}

/// `s` without leading and trailing NUL characters, as `str::trim_matches`
/// with a NUL pattern behaves.
pub open spec fn trim_nuls_spec(s: Seq<char>) -> Seq<char> {
    trim_nuls_back_spec(trim_nuls_front_spec(s))
}

/// Trims leading and trailing NUL characters, which firmware-provided
/// strings often carry as padding.
#[verifier::loop_isolation(false)]
pub fn trim_nuls(s: &str) -> (r: String)
    ensures
        r@ == trim_nuls_spec(s@),
{
    let n = s.unicode_len();
    let mut a: usize = 0;
    proof {
        assert(s@.skip(0) =~= s@);
    }
    while a < n && s.get_char(a) == '\0'
        invariant
            a <= n,
            trim_nuls_front_spec(s@) == trim_nuls_front_spec(s@.skip(a as int)),
        decreases n - a,
    {
        proof {
            assert(s@.skip(a as int)[0] == s@[a as int]);
            assert(s@.skip(a as int).skip(1) =~= s@.skip(a + 1));
        }
        a += 1;
    }
    proof {
        if a == n {
            assert(s@.skip(a as int) =~= Seq::<char>::empty());
        }
        assert(trim_nuls_front_spec(s@.skip(a as int)) == s@.skip(a as int));
    }
    let mut b: usize = n;
    while b > a && s.get_char(b - 1) == '\0'
        invariant
            a <= b <= n,
            trim_nuls_front_spec(s@) == s@.skip(a as int),
            trim_nuls_back_spec(s@.skip(a as int)) == trim_nuls_back_spec(
                s@.subrange(a as int, b as int),
            ),
        decreases b,
    {
        proof {
            let cur = s@.subrange(a as int, b as int);
            assert(cur.last() == s@[b - 1]);
            assert(cur.drop_last() =~= s@.subrange(a as int, b - 1));
        }
        b -= 1;
    }
    proof {
        let cur = s@.subrange(a as int, b as int);
        if b == a {
            assert(cur =~= Seq::<char>::empty());
        }
        assert(trim_nuls_back_spec(cur) == cur);
        assert(s@.skip(a as int) =~= s@.subrange(a as int, n as int));
    }
    s.substring_char(a, b).to_owned()
}

/// Whether `p` is a prefix of `s`.
pub open spec fn starts_with_spec(s: Seq<char>, p: Seq<char>) -> bool {
    s.len() >= p.len() && s.take(p.len() as int) == p
}

/// Whether `s` starts with the literal `prefix`.
pub fn starts_with(s: &str, prefix: &str) -> (r: bool)
    ensures
        r == starts_with_spec(s@, prefix@),
{
    let n = s.unicode_len();
    let m = prefix.unicode_len();
    if n < m {
        return false;
    }
    let head = s.substring_char(0, m).to_owned();
    let r = head.eq(&prefix.to_owned());
    proof {
        assert(s@.subrange(0, m as int) == s@.take(m as int));
    }
    r
}

/// One trailing carriage return stripped, as `str::lines` strips it.
pub open spec fn strip_cr(l: Seq<char>) -> Seq<char> {
    if l.len() > 0 && l.last() == '\r' {
        l.drop_last()
    } else {
        l
    }
}

/// The lines of `s`, as Rust's `str::lines` yields them: pieces between
/// newlines, one optional final newline not opening an extra empty line, and
/// one trailing carriage return stripped from each line.
pub open spec fn lines_spec(s: Seq<char>) -> Seq<Seq<char>> {
    if s.len() == 0 {
        Seq::empty()
    } else {
        let pieces = spec_split(s, '\n');
        let pieces2 = if s.last() == '\n' {
            pieces.drop_last()
        } else {
            pieces
        };
        pieces2.map_values(|l: Seq<char>| strip_cr(l))
    }
}

/// Splits `s` into lines, as Rust's `str::lines` does.
#[verifier::loop_isolation(false)]
pub fn lines(s: &str) -> (r: Vec<String>)
    ensures
        r.deep_view() == lines_spec(s@),
{
    let n = s.unicode_len();
    if n == 0 {
        let r: Vec<String> = Vec::new();
        proof {
            assert(r.deep_view() =~= lines_spec(s@));
        }
        return r;
    }
    let mut pieces = split(s, '\n');
    if s.get_char(n - 1) == '\n' {
        proof {
            crate::text::lemma_split_len(s@, '\n');
        }
        let ghost pre = pieces@;
        pieces.pop();
        proof {
            assert forall|k: int| 0 <= k < pieces@.len() implies pieces.deep_view()[k]
                == spec_split(s@, '\n').drop_last()[k] by {
                assert(pieces@[k] == pre[k]);
            }
            assert(pieces.deep_view() =~= spec_split(s@, '\n').drop_last());
        }
    }
    let ghost base = pieces.deep_view();
    let m = pieces.len();
    let mut out: Vec<String> = Vec::new();
    let mut i: usize = 0;
    while i < m
        invariant
            i <= m,
            m == base.len(),
            pieces.deep_view() == base,
            out@.len() == i,
            forall|k: int| 0 <= k < i ==> #[trigger] out@[k]@ == strip_cr(base[k]),
        decreases m - i,
    {
        proof {
            assert(pieces@[i as int]@ == base[i as int]);
        }
        let ln = pieces[i].unicode_len();
        if ln > 0 && pieces[i].as_str().get_char(ln - 1) == '\r' {
            proof {
                assert(base[i as int].last() == '\r');
                assert(base[i as int].drop_last() =~= base[i as int].subrange(0, ln - 1));
            }
            out.push(pieces[i].as_str().substring_char(0, ln - 1).to_owned());
        } else {
            out.push(pieces[i].clone());
        }
        i += 1;
    }
    proof {
        assert forall|k: int| 0 <= k < out@.len() implies out.deep_view()[k] == lines_spec(s@)[k]
        by {
            assert(out@[k]@ == strip_cr(base[k]));
        }
        assert(out.deep_view() =~= lines_spec(s@));
    }
    out
}

} // verus!