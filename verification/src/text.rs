//! Character-level parsing and rendering helpers shared by the driver-table
//! reader, the attribute readers, and the diagnostic dump.
use vstd::prelude::*;

verus! {

/// Ascii whitespace: the characters that separate fields of a driver-table
/// line and that surround attribute values.
pub open spec fn is_space(c: char) -> bool {
    c == ' ' || c == '\t' || c == '\n' || c == '\r' || c == '\u{b}' || c == '\u{c}'
}

/// Checks whether a character is ascii whitespace.
pub fn is_space_char(c: char) -> (r: bool)
    ensures
        r == is_space(c),
{
    c == ' ' || c == '\t' || c == '\n' || c == '\r' || c == '\u{b}' || c == '\u{c}'
}

/// Numeric value of `c` read as a digit; 16 marks a character that is no
/// digit in any base up to 16.
pub open spec fn digit_val(c: char) -> int {
    if '0' <= c && c <= '9' {
        c as int - '0' as int
    } else if 'a' <= c && c <= 'f' {
        10 + c as int - 'a' as int
    } else if 'A' <= c && c <= 'F' {
        10 + c as int - 'A' as int
    } else {
        16
    }
}

/// Whether `c` is a digit of base `base`.
pub open spec fn is_digit_in(c: char, base: int) -> bool {
    digit_val(c) < base
}

/// Whether every character of `t` is a digit of base `base`.
pub open spec fn all_digits_in(t: Seq<char>, base: int) -> bool {
    forall|i: int| 0 <= i < t.len() ==> is_digit_in(t[i], base)
}

/// The number denoted by the digit string `t` in base `base`.
pub open spec fn val_in(t: Seq<char>, base: int) -> int
    decreases t.len(),
{
    if t.len() == 0 {
        0
    } else {
        val_in(t.drop_last(), base) * base + digit_val(t.last())
    }
}

/// The number denoted by `t` in base `base`, if `t` is non-empty, consists of
/// digits of that base alone, and denotes a value of at most `bound`;
/// `None` otherwise.
pub open spec fn parse_radix(t: Seq<char>, base: int, bound: int) -> Option<int> {
    if t.len() > 0 && all_digits_in(t, base) && val_in(t, base) <= bound {
        Some(val_in(t, base))
    } else {
        None
    }
}

/// A decimal `u32`: digits only, no sign, value within `u32`.
pub open spec fn parse_u32(t: Seq<char>) -> Option<u32> {
    match parse_radix(t, 10, u32::MAX as int) {
        Some(v) => Some(v as u32),
        None => None,
    }
}

/// A hexadecimal `i32` as attribute files hold it: hex digits only, no sign,
/// value within `i32`.
pub open spec fn parse_hex_i32(t: Seq<char>) -> Option<i32> {
    match parse_radix(t, 16, i32::MAX as int) {
        Some(v) => Some(v as i32),
        None => None,
    }
}

pub proof fn lemma_val_in_nonneg(t: Seq<char>, base: int)
    requires
        base >= 1,
        all_digits_in(t, base),
    ensures
        val_in(t, base) >= 0,
    decreases t.len(),
{
    if t.len() > 0 {
        assert(all_digits_in(t.drop_last(), base)) by {
            assert(forall|i: int|
                0 <= i < t.drop_last().len() ==> t.drop_last()[i] == t[i] && is_digit_in(
                    t[i],
                    base,
                ));
        }
        lemma_val_in_nonneg(t.drop_last(), base);
        assert(digit_val(t.last()) >= 0);
        assert(val_in(t.drop_last(), base) * base >= 0) by (nonlinear_arith)
            requires
                val_in(t.drop_last(), base) >= 0,
                base >= 1,
        ;
    }
}

/// Extending a digit string to the right never lowers its value.
pub proof fn lemma_val_in_prefix(t: Seq<char>, base: int, j: int)
    requires
        base >= 1,
        all_digits_in(t, base),
        0 <= j <= t.len(),
    ensures
        val_in(t.subrange(0, j), base) <= val_in(t, base),
    decreases t.len(),
{
    if j == t.len() {
        assert(t.subrange(0, j) =~= t);
    } else {
        assert(all_digits_in(t.drop_last(), base)) by {
            assert(forall|i: int|
                0 <= i < t.drop_last().len() ==> t.drop_last()[i] == t[i] && is_digit_in(
                    t[i],
                    base,
                ));
        }
        assert(t.drop_last().subrange(0, j) =~= t.subrange(0, j));
        lemma_val_in_prefix(t.drop_last(), base, j);
        lemma_val_in_nonneg(t.drop_last(), base);
        assert(val_in(t.drop_last(), base) * base >= val_in(t.drop_last(), base)) by (
        nonlinear_arith)
            requires
                val_in(t.drop_last(), base) >= 0,
                base >= 1,
        ;
        assert(digit_val(t.last()) >= 0);
    }
}

/// The value of `c` as a digit of base `base`, or `None` where `c` is no such
/// digit.
fn digit_value(c: char, base: u64) -> (r: Option<u64>)
    requires
        2 <= base <= 16,
    ensures
        match r {
            Some(v) => is_digit_in(c, base as int) && v == digit_val(c),
            None => !is_digit_in(c, base as int),
        },
{
    let u = c as u32;
    let v: u64 = if u >= 48 && u <= 57 {
        (u - 48) as u64
    } else if u >= 97 && u <= 102 {
        (u - 97 + 10) as u64
    } else if u >= 65 && u <= 70 {
        (u - 65 + 10) as u64
    } else {
        16
    };
    if v < base {
        Some(v)
    } else {
        None
    }
}

/// Reads `s` as an unsigned number in base `base`: non-empty, digits of that
/// base alone, value at most `bound`.
pub fn parse_in_radix(s: &str, base: u64, bound: u64) -> (r: Option<u64>)
    requires
        2 <= base <= 16,
        bound <= 0xffff_ffffu64,
    ensures
        match parse_radix(s@, base as int, bound as int) {
            Some(v) => r == Some(v as u64),
            None => r is None,
        },
{
    let n = s.unicode_len();
    if n == 0 {
        return None;
    }
    let mut i: usize = 0;
    let mut acc: u64 = 0;
    while i < n
        invariant
            0 <= i <= n,
            n == s@.len(),
            2 <= base <= 16,
            bound <= 0xffff_ffffu64,
            all_digits_in(s@.subrange(0, i as int), base as int),
            acc == val_in(s@.subrange(0, i as int), base as int),
            acc <= bound,
        decreases n - i,
    {
        let c = s.get_char(i);
        match digit_value(c, base) {
            None => {
                proof {
                    assert(!all_digits_in(s@, base as int)) by {
                        assert(s@[i as int] == c && !is_digit_in(c, base as int));
                    }
                }
                return None;
            },
            Some(d) => {
                proof {
                    assert(acc * base + d <= 0xffff_ffffu64 * 16 + 16) by (nonlinear_arith)
                        requires
                            0 <= acc <= 0xffff_ffffu64,
                            0 <= base <= 16,
                            0 <= d <= 16,
                    ;
                }
                let next = acc * base + d;
                proof {
                    let pre = s@.subrange(0, i as int);
                    let ext = s@.subrange(0, i as int + 1);
                    assert(ext.drop_last() =~= pre);
                    assert(ext.last() == c);
                    assert(all_digits_in(ext, base as int)) by {
                        assert(forall|k: int|
                            0 <= k < i as int ==> ext[k] == pre[k] && is_digit_in(
                                pre[k],
                                base as int,
                            ));
                    }
                    assert(val_in(ext, base as int) == acc * base + d);
                }
                if next > bound {
                    proof {
                        if all_digits_in(s@, base as int) {
                            lemma_val_in_prefix(s@, base as int, i as int + 1);
                        }
                    }
                    return None;
                }
                acc = next;
                i += 1;
            },
        }
    }
    proof {
        assert(s@.subrange(0, i as int) =~= s@);
    }
    Some(acc)
}

/// Reads a plain decimal `u32` field of the driver table.
pub fn parse_u32_str(s: &str) -> (r: Option<u32>)
    ensures
        r == parse_u32(s@),
{
    proof {
        if s@.len() > 0 && all_digits_in(s@, 10) {
            lemma_val_in_nonneg(s@, 10);
        }
    }
    match parse_in_radix(s, 10, 0xffff_ffffu64) {
        Some(v) => Some(v as u32),
        None => None,
    }
}

/// Reads a hexadecimal attribute value as a non-negative `i32`.
pub fn parse_hex_i32_str(s: &str) -> (r: Option<i32>)
    ensures
        r == parse_hex_i32(s@),
{
    proof {
        if s@.len() > 0 && all_digits_in(s@, 16) {
            lemma_val_in_nonneg(s@, 16);
        }
    }
    match parse_in_radix(s, 16, 0x7fff_ffffu64) {
        Some(v) => Some(v as i32),
        None => None,
    }
}

/// Length of the leading run of non-whitespace characters of `t`.
pub open spec fn scan_space_len(t: Seq<char>) -> int
    decreases t.len(),
{
    if t.len() == 0 {
        0
    } else if is_space(t[0]) {
        0
    } else {
        1 + scan_space_len(t.drop_first())
    }
}

/// Length of the part of `t` before the first occurrence of `sep`.
pub open spec fn scan_to_char(t: Seq<char>, sep: char) -> int
    decreases t.len(),
{
    if t.len() == 0 {
        0
    } else if t[0] == sep {
        0
    } else {
        1 + scan_to_char(t.drop_first(), sep)
    }
}

pub proof fn lemma_scan_space_len(t: Seq<char>, m: int)
    requires
        0 <= m <= t.len(),
        forall|k: int| 0 <= k < m ==> !is_space(t[k]),
        m == t.len() || is_space(t[m]),
    ensures
        scan_space_len(t) == m,
    decreases m,
{
    if m > 0 {
        lemma_scan_space_len(t.drop_first(), m - 1);
    }
}

pub proof fn lemma_scan_to_char(t: Seq<char>, sep: char, m: int)
    requires
        0 <= m <= t.len(),
        forall|k: int| 0 <= k < m ==> t[k] != sep,
        m == t.len() || t[m] == sep,
    ensures
        scan_to_char(t, sep) == m,
    decreases m,
{
    if m > 0 {
        lemma_scan_to_char(t.drop_first(), sep, m - 1);
    }
}

pub proof fn lemma_scan_space_len_le(t: Seq<char>)
    ensures
        0 <= scan_space_len(t) <= t.len(),
        scan_space_len(t) < t.len() ==> is_space(t[scan_space_len(t)]),
        forall|k: int| 0 <= k < scan_space_len(t) ==> !is_space(t[k]),
    decreases t.len(),
{
    if t.len() > 0 && !is_space(t[0]) {
        lemma_scan_space_len_le(t.drop_first());
        assert forall|k: int| 0 <= k < scan_space_len(t) implies !is_space(t[k]) by {
            if k > 0 {
                assert(t.drop_first()[k - 1] == t[k]);
            }
        }
    }
}

pub proof fn lemma_scan_to_char_le(t: Seq<char>, sep: char)
    ensures
        0 <= scan_to_char(t, sep) <= t.len(),
        scan_to_char(t, sep) < t.len() ==> t[scan_to_char(t, sep)] == sep,
        forall|k: int| 0 <= k < scan_to_char(t, sep) ==> t[k] != sep,
    decreases t.len(),
{
    if t.len() > 0 && t[0] != sep {
        lemma_scan_to_char_le(t.drop_first(), sep);
        assert forall|k: int| 0 <= k < scan_to_char(t, sep) implies t[k] != sep by {
            if k > 0 {
                assert(t.drop_first()[k - 1] == t[k]);
            }
        }
    }
}

/// `t` without its leading and trailing whitespace.
pub open spec fn trim_spec(s: Seq<char>) -> Seq<char>
    decreases s.len(),
{
    if s.len() > 0 && is_space(s[0]) {
        trim_spec(s.drop_first())
    } else if s.len() > 0 && is_space(s.last()) {
        trim_spec(s.drop_last())
    } else {
        s
    }
}

pub proof fn lemma_trim_all_space(s: Seq<char>)
    requires
        forall|k: int| 0 <= k < s.len() ==> is_space(s[k]),
    ensures
        trim_spec(s) =~= Seq::<char>::empty(),
    decreases s.len(),
{
    if s.len() > 0 {
        lemma_trim_all_space(s.drop_first());
    }
}

pub proof fn lemma_trim_exact(s: Seq<char>, a: int, b: int)
    requires
        0 <= a <= b < s.len(),
        !is_space(s[a]),
        !is_space(s[b]),
        forall|k: int| 0 <= k < a ==> is_space(s[k]),
        forall|k: int| b < k < s.len() ==> is_space(s[k]),
    ensures
        trim_spec(s) == s.subrange(a, b + 1),
    decreases s.len(),
{
    if a > 0 {
        assert(s.drop_first().subrange(a - 1, b) =~= s.subrange(a, b + 1));
        lemma_trim_exact(s.drop_first(), a - 1, b - 1);
    } else if b + 1 < s.len() {
        assert(s.drop_last().subrange(a, b + 1) =~= s.subrange(a, b + 1));
        lemma_trim_exact(s.drop_last(), a, b);
    } else {
        assert(s.subrange(0, s.len() as int) =~= s);
    }
}

/// `s` without leading and trailing whitespace, as attribute files carry a
/// value with a final line break.
pub fn trim_str<'a>(s: &'a str) -> (r: &'a str)
    ensures
        r@ == trim_spec(s@),
{
    let n = s.unicode_len();
    let mut a: usize = 0;
    while a < n && is_space_char(s.get_char(a))
        invariant
            0 <= a <= n,
            n == s@.len(),
            forall|k: int| 0 <= k < a ==> is_space(s@[k]),
        decreases n - a,
    {
        a += 1;
    }
    if a == n {
        proof {
            lemma_trim_all_space(s@);
        }
        return s.substring_char(0, 0);
    }
    let mut b: usize = n;
    while b > a + 1 && is_space_char(s.get_char(b - 1))
        invariant
            a < b <= n,
            n == s@.len(),
            !is_space(s@[a as int]),
            forall|k: int| b <= k < n ==> is_space(s@[k]),
        decreases b,
    {
        b -= 1;
    }
    proof {
        lemma_trim_exact(s@, a as int, b - 1);
    }
    s.substring_char(a, b)
}

/// The whitespace-separated fields of `s`, in order.
pub open spec fn tokens(s: Seq<char>) -> Seq<Seq<char>>
    decreases s.len(),
    via tokens_dec
{
    if s.len() == 0 {
        seq![]
    } else if is_space(s[0]) {
        tokens(s.drop_first())
    } else {
        let k = scan_space_len(s);
        seq![s.subrange(0, k)] + tokens(s.subrange(k, s.len() as int))
    }
}

#[via_fn]
proof fn tokens_dec(s: Seq<char>) {
    if s.len() > 0 && !is_space(s[0]) {
        lemma_scan_space_len_le(s);
    }
}

/// The lines of `s`, separated by line feeds; a final line feed closes the
/// last line rather than opening an empty one.
pub open spec fn lines_of(s: Seq<char>) -> Seq<Seq<char>>
    decreases s.len(),
    via lines_of_dec
{
    if s.len() == 0 {
        seq![]
    } else {
        let k = scan_to_char(s, '\n');
        if k == s.len() {
            seq![s]
        } else {
            seq![s.subrange(0, k)] + lines_of(s.subrange(k + 1, s.len() as int))
        }
    }
}

#[via_fn]
proof fn lines_of_dec(s: Seq<char>) {
    if s.len() > 0 {
        lemma_scan_to_char_le(s, '\n');
    }
}

/// Splits `s` into its whitespace-separated fields.
pub fn tokenize(s: &str) -> (r: Vec<String>)
    ensures
        r.deep_view() == tokens(s@),
{
    let n = s.unicode_len();
    let mut r: Vec<String> = Vec::new();
    let mut i: usize = 0;
    proof {
        assert(s@.subrange(0, n as int) =~= s@);
        assert(r.deep_view() =~~= Seq::<Seq<char>>::empty());
        assert(r.deep_view() + tokens(s@) =~~= tokens(s@));
    }
    while i < n
        invariant
            0 <= i <= n,
            n == s@.len(),
            r.deep_view() + tokens(s@.subrange(i as int, n as int)) == tokens(s@),
        decreases n - i,
    {
        let c = s.get_char(i);
        if is_space_char(c) {
            proof {
                let rest = s@.subrange(i as int, n as int);
                assert(rest.drop_first() =~= s@.subrange(i as int + 1, n as int));
            }
            i += 1;
        } else {
            let mut j = i + 1;
            while j < n && !is_space_char(s.get_char(j))
                invariant
                    i < j <= n,
                    n == s@.len(),
                    forall|k: int| i <= k < j ==> !is_space(s@[k]),
                decreases n - j,
            {
                j += 1;
            }
            let tok = s.substring_char(i, j);
            let ghost pre = r.deep_view();
            r.push(String::from_str(tok));
            proof {
                let rest = s@.subrange(i as int, n as int);
                assert forall|k: int| 0 <= k < j - i as int implies !is_space(rest[k]) by {
                    assert(rest[k] == s@[i as int + k]);
                }
                lemma_scan_space_len(rest, j - i as int);
                assert(rest.subrange(0, j - i as int) =~= s@.subrange(i as int, j as int));
                assert(rest.subrange(j - i as int, rest.len() as int) =~= s@.subrange(
                    j as int,
                    n as int,
                ));
                assert(r.deep_view() =~~= pre.push(tok@));
                assert(r.deep_view() + tokens(s@.subrange(j as int, n as int)) =~~= pre + tokens(
                    rest,
                ));
            }
            i = j;
        }
    }
    proof {
        assert(s@.subrange(i as int, n as int) =~= Seq::<char>::empty());
        assert(r.deep_view() =~~= r.deep_view() + tokens(Seq::<char>::empty()));
    }
    r
}

/// Splits `s` into its lines.
pub fn split_lines(s: &str) -> (r: Vec<String>)
    ensures
        r.deep_view() == lines_of(s@),
{
    let n = s.unicode_len();
    let mut r: Vec<String> = Vec::new();
    let mut i: usize = 0;
    proof {
        assert(s@.subrange(0, n as int) =~= s@);
        assert(r.deep_view() =~~= Seq::<Seq<char>>::empty());
        assert(r.deep_view() + lines_of(s@) =~~= lines_of(s@));
    }
    while i < n
        invariant
            0 <= i <= n,
            n == s@.len(),
            r.deep_view() + lines_of(s@.subrange(i as int, n as int)) == lines_of(s@),
        decreases n - i,
    {
        let mut j = i;
        while j < n && s.get_char(j) != '\n'
            invariant
                i <= j <= n,
                n == s@.len(),
                forall|k: int| i <= k < j ==> s@[k] != '\n',
            decreases n - j,
        {
            j += 1;
        }
        let line = s.substring_char(i, j);
        let ghost pre = r.deep_view();
        r.push(String::from_str(line));
        proof {
            let rest = s@.subrange(i as int, n as int);
            assert forall|k: int| 0 <= k < j - i as int implies rest[k] != '\n' by {
                assert(rest[k] == s@[i as int + k]);
            }
            lemma_scan_to_char(rest, '\n', j - i as int);
            assert(rest.subrange(0, j - i as int) =~= s@.subrange(i as int, j as int));
            assert(r.deep_view() =~~= pre.push(line@));
            if j < n {
                assert(rest.subrange(j - i as int + 1, rest.len() as int) =~= s@.subrange(
                    j as int + 1,
                    n as int,
                ));
                assert(r.deep_view() + lines_of(s@.subrange(j as int + 1, n as int)) =~~= pre
                    + lines_of(rest));
            } else {
                assert(rest =~= s@.subrange(i as int, j as int));
                assert(lines_of(rest) =~= seq![rest]);
                assert(r.deep_view() =~~= pre + lines_of(rest));
            }
        }
        if j < n {
            i = j + 1;
        } else {
            i = j;
        }
    }
    proof {
        assert(s@.subrange(i as int, n as int) =~= Seq::<char>::empty());
        assert(r.deep_view() =~~= r.deep_view() + lines_of(Seq::<char>::empty()));
    }
    r
}

/// Character-wise equality of two strings.
pub fn str_eq(a: &str, b: &str) -> (r: bool)
    ensures
        r == (a@ == b@),
{
    let n = a.unicode_len();
    if n != b.unicode_len() {
        return false;
    }
    let mut i: usize = 0;
    while i < n
        invariant
            0 <= i <= n,
            n == a@.len() == b@.len(),
            forall|k: int| 0 <= k < i ==> a@[k] == b@[k],
        decreases n - i,
    {
        if a.get_char(i) != b.get_char(i) {
            return false;
        }
        i += 1;
    }
    proof {
        assert(a@ =~= b@);
    }
    true
}

/// The decimal digit character for value `d`.
pub open spec fn dec_digit_char(d: int) -> char {
    ((d + 48) as u8) as char
}

/// Decimal rendering of the non-negative number `n`.
pub open spec fn dec_of(n: int) -> Seq<char>
    decreases n,
{
    if n < 10 {
        seq![dec_digit_char(n)]
    } else {
        dec_of(n / 10).push(dec_digit_char(n % 10))
    }
}

/// Decimal rendering of `v`, with a leading minus sign when negative.
pub open spec fn dec_of_i32(v: int) -> Seq<char> {
    if v < 0 {
        seq!['-'] + dec_of(-v)
    } else {
        dec_of(v)
    }
}

/// Relies on `String::push`: appends exactly the one given character.
#[verifier::external_body]
fn string_push_char(s: &mut String, c: char)
    ensures
        final(s)@ == old(s)@.push(c),
{
    s.push(c);
}

/// Renders `n` in decimal.
pub fn u64_to_string(n: u64) -> (r: String)
    ensures
        r@ == dec_of(n as int),
    decreases n,
{
    if n < 10 {
        let mut s = String::new();
        string_push_char(&mut s, (48 + n as u8) as char);
        proof {
            assert(s@ =~= seq![dec_digit_char(n as int)]);
        }
        s
    } else {
        let mut s = u64_to_string(n / 10);
        string_push_char(&mut s, (48 + (n % 10) as u8) as char);
        s
    }
}

/// Renders `v` in decimal, with a minus sign when negative.
pub fn i32_to_string(v: i32) -> (r: String)
    ensures
        r@ == dec_of_i32(v as int),
{
    if v < 0 {
        let mag = -(v as i64);
        let mut s = String::new();
        string_push_char(&mut s, '-');
        let digits = u64_to_string(mag as u64);
        s.append(digits.as_str());
        proof {
            assert(s@ =~= seq!['-'] + dec_of(-(v as int)));
        }
        s
    } else {
        u64_to_string(v as u64)
    }
}

} // verus!
