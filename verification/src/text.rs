//! Text as bytes: white space, letter case, ordering and decimal numbers.
//!
//! A text is the sequence of bytes of its UTF-8 encoding. Nothing here
//! needs the bytes to be well-formed UTF-8; on well-formed input the
//! white-space rules coincide with the Unicode `White_Space` property.

use vstd::prelude::*;

verus! {

/// One-byte white space: tab, line feed, vertical tab, form feed,
/// carriage return and the blank.
pub open spec fn is_space_byte(b: u8) -> bool {
    b == 0x20 || (0x09 <= b && b <= 0x0d)
}

/// Two-byte white space: U+0085 and U+00A0.
pub open spec fn is_space_pair(a: u8, b: u8) -> bool {
    a == 0xc2 && (b == 0x85 || b == 0xa0)
}

/// Three-byte white space: U+1680, U+2000 to U+200A, U+2028, U+2029,
/// U+202F, U+205F and U+3000.
pub open spec fn is_space_triple(a: u8, b: u8, c: u8) -> bool {
    ||| a == 0xe1 && b == 0x9a && c == 0x80
    ||| a == 0xe2 && b == 0x80 && ((0x80 <= c && c <= 0x8a) || c == 0xa8 || c == 0xa9 || c
        == 0xaf)
    ||| a == 0xe2 && b == 0x81 && c == 0x9f
    ||| a == 0xe3 && b == 0x80 && c == 0x80
}

/// Number of bytes of the white-space character that starts at `i`, or
/// zero when none starts there.
pub open spec fn space_len_at(s: Seq<u8>, i: int) -> int {
    if 0 <= i && i < s.len() && is_space_byte(s[i]) {
        1
    } else if 0 <= i && i + 1 < s.len() && is_space_pair(s[i], s[i + 1]) {
        2
    } else if 0 <= i && i + 2 < s.len() && is_space_triple(s[i], s[i + 1], s[i + 2]) {
        3
    } else {
        0
    }
}

/// Number of bytes of the white-space character that ends just before `j`
/// and starts at `lo` or later, or zero when there is none.
pub open spec fn space_len_before(s: Seq<u8>, lo: int, j: int) -> int {
    if 0 <= lo && lo <= j - 1 && j <= s.len() && is_space_byte(s[j - 1]) {
        1
    } else if 0 <= lo && lo <= j - 2 && j <= s.len() && is_space_pair(s[j - 2], s[j - 1]) {
        2
    } else if 0 <= lo && lo <= j - 3 && j <= s.len() && is_space_triple(
        s[j - 3],
        s[j - 2],
        s[j - 1],
    ) {
        3
    } else {
        0
    }
}

/// First position at or after `i` where no white-space character starts.
pub open spec fn skip_space(s: Seq<u8>, i: int) -> int
    decreases s.len() - i,
{
    if space_len_at(s, i) > 0 {
        skip_space(s, i + space_len_at(s, i))
    } else {
        i
    }
}

/// Last position at or before `j` that no white-space character starting
/// at `lo` or later ends at.
pub open spec fn skip_space_back(s: Seq<u8>, lo: int, j: int) -> int
    decreases j - lo,
{
    if space_len_before(s, lo, j) > 0 {
        skip_space_back(s, lo, j - space_len_before(s, lo, j))
    } else {
        j
    }
}

/// `s` without its leading and trailing white space.
pub open spec fn trimmed(s: Seq<u8>) -> Seq<u8> {
    let start = skip_space(s, 0);
    s.subrange(start, skip_space_back(s, start, s.len() as int))
}

/// A text is blank when nothing but white space is in it.
pub open spec fn is_blank(s: Seq<u8>) -> bool {
    trimmed(s).len() == 0
}

fn space_at(s: &[u8], i: usize) -> (k: usize)
    requires
        i <= s@.len(),
    ensures
        k == space_len_at(s@, i as int),
{
    let n: usize = s.len();
    if i < n && (s[i] == 0x20 || (0x09 <= s[i] && s[i] <= 0x0d)) {
        1
    } else if n - i >= 2 && s[i] == 0xc2 && (s[i + 1] == 0x85 || s[i + 1] == 0xa0) {
        2
    } else if n - i >= 3 && triple_is_space(s[i], s[i + 1], s[i + 2]) {
        3
    } else {
        0
    }
}

fn space_before(s: &[u8], lo: usize, j: usize) -> (k: usize)
    requires
        lo <= j <= s@.len(),
    ensures
        k == space_len_before(s@, lo as int, j as int),
{
    if j - lo >= 1 && (s[j - 1] == 0x20 || (0x09 <= s[j - 1] && s[j - 1] <= 0x0d)) {
        1
    } else if j - lo >= 2 && s[j - 2] == 0xc2 && (s[j - 1] == 0x85 || s[j - 1] == 0xa0) {
        2
    } else if j - lo >= 3 && triple_is_space(s[j - 3], s[j - 2], s[j - 1]) {
        3
    } else {
        0
    }
}

fn triple_is_space(a: u8, b: u8, c: u8) -> (r: bool)
    ensures
        r == is_space_triple(a, b, c),
{
    (a == 0xe1 && b == 0x9a && c == 0x80) || (a == 0xe2 && b == 0x80 && ((0x80 <= c && c
        <= 0x8a) || c == 0xa8 || c == 0xa9 || c == 0xaf)) || (a == 0xe2 && b == 0x81 && c
        == 0x9f) || (a == 0xe3 && b == 0x80 && c == 0x80)
}

/// Strips leading and trailing white space.
pub fn trim(s: &[u8]) -> (r: &[u8])
    ensures
        r@ == trimmed(s@),
{
    let n: usize = s.len();
    let mut start: usize = 0;
    loop
        invariant
            n == s@.len(),
            start <= n,
            skip_space(s@, 0) == skip_space(s@, start as int),
        ensures
            start <= n,
            start == skip_space(s@, 0),
        decreases n - start,
    {
        let k: usize = space_at(s, start);
        if k == 0 {
            break ;
        }
        start = start + k;
    }
    let mut end: usize = n;
    loop
        invariant
            n == s@.len(),
            start <= end <= n,
            skip_space_back(s@, start as int, n as int) == skip_space_back(
                s@,
                start as int,
                end as int,
            ),
        ensures
            start <= end <= n,
            end == skip_space_back(s@, start as int, n as int),
        decreases end - start,
    {
        let k: usize = space_before(s, start, end);
        if k == 0 {
            break ;
        }
        end = end - k;
    }
    vstd::slice::slice_subrange(s, start, end)
}

/// Upper-case form of an ASCII letter; any other byte unchanged.
pub open spec fn upper_byte(b: u8) -> u8 {
    if 0x61 <= b && b <= 0x7a {
        (b - 0x20) as u8
    } else {
        b
    }
}

/// Lower-case form of an ASCII letter; any other byte unchanged.
pub open spec fn lower_byte(b: u8) -> u8 {
    if 0x41 <= b && b <= 0x5a {
        (b + 0x20) as u8
    } else {
        b
    }
}

/// `s` with every ASCII letter in upper case.
pub open spec fn ascii_upper(s: Seq<u8>) -> Seq<u8> {
    Seq::new(s.len(), |i: int| upper_byte(s[i]))
}

/// `s` with every ASCII letter in lower case.
pub open spec fn ascii_lower(s: Seq<u8>) -> Seq<u8> {
    Seq::new(s.len(), |i: int| lower_byte(s[i]))
}

/// Copies `s` with every ASCII letter in upper case.
pub fn to_ascii_upper(s: &[u8]) -> (r: Vec<u8>)
    ensures
        r@ == ascii_upper(s@),
{
    let mut out: Vec<u8> = Vec::new();
    let mut i: usize = 0;
    while i < s.len()
        invariant
            i <= s@.len(),
            out@.len() == i,
            forall|j: int| 0 <= j < i ==> out@[j] == upper_byte(s@[j]),
        decreases s@.len() - i,
    {
        let b: u8 = s[i];
        if 0x61 <= b && b <= 0x7a {
            out.push(b - 0x20);
        } else {
            out.push(b);
        }
        i = i + 1;
    }
    assert(out@ =~= ascii_upper(s@));
    out
}

/// Copies `s` with every ASCII letter in lower case.
pub fn to_ascii_lower(s: &[u8]) -> (r: Vec<u8>)
    ensures
        r@ == ascii_lower(s@),
{
    let mut out: Vec<u8> = Vec::new();
    let mut i: usize = 0;
    while i < s.len()
        invariant
            i <= s@.len(),
            out@.len() == i,
            forall|j: int| 0 <= j < i ==> out@[j] == lower_byte(s@[j]),
        decreases s@.len() - i,
    {
        let b: u8 = s[i];
        if 0x41 <= b && b <= 0x5a {
            out.push(b + 0x20);
        } else {
            out.push(b);
        }
        i = i + 1;
    }
    assert(out@ =~= ascii_lower(s@));
    out
}

/// Whether `a` comes before `b` when both agree below position `i`: at the
/// first position where they differ the smaller byte decides, and a text
/// comes before every longer text that it begins.
pub open spec fn less_from(a: Seq<u8>, b: Seq<u8>, i: int) -> bool
    decreases a.len() - i,
{
    if i >= b.len() {
        false
    } else if i >= a.len() {
        true
    } else if a[i] != b[i] {
        a[i] < b[i]
    } else {
        less_from(a, b, i + 1)
    }
}

/// Plain lexicographic order on bytes.
pub open spec fn bytes_less(a: Seq<u8>, b: Seq<u8>) -> bool {
    less_from(a, b, 0)
}

proof fn less_from_irreflexive(a: Seq<u8>, i: int)
    requires
        0 <= i,
    ensures
        !less_from(a, a, i),
    decreases a.len() - i,
{
    if i < a.len() {
        less_from_irreflexive(a, i + 1);
    }
}

proof fn less_from_asymmetric(a: Seq<u8>, b: Seq<u8>, i: int)
    requires
        0 <= i,
    ensures
        !(less_from(a, b, i) && less_from(b, a, i)),
    decreases a.len() - i,
{
    if i < a.len() && i < b.len() && a[i] == b[i] {
        less_from_asymmetric(a, b, i + 1);
    }
}

proof fn less_from_transitive(a: Seq<u8>, b: Seq<u8>, c: Seq<u8>, i: int)
    requires
        0 <= i,
        less_from(a, b, i),
        less_from(b, c, i),
    ensures
        less_from(a, c, i),
    decreases a.len() - i,
{
    if i < a.len() && i < b.len() && i < c.len() && a[i] == b[i] && b[i] == c[i] {
        less_from_transitive(a, b, c, i + 1);
    }
}

proof fn less_from_total(a: Seq<u8>, b: Seq<u8>, i: int)
    requires
        0 <= i <= a.len(),
        0 <= i <= b.len(),
        forall|j: int| 0 <= j < i ==> a[j] == b[j],
        !less_from(a, b, i),
        !less_from(b, a, i),
    ensures
        a =~= b,
    decreases a.len() - i,
{
    if i < a.len() && i < b.len() {
        less_from_total(a, b, i + 1);
    }
}

/// No text comes before itself.
pub proof fn bytes_less_irreflexive(a: Seq<u8>)
    ensures
        !bytes_less(a, a),
{
    less_from_irreflexive(a, 0);
}

/// Of two texts at most one comes before the other.
pub proof fn bytes_less_asymmetric(a: Seq<u8>, b: Seq<u8>)
    ensures
        !(bytes_less(a, b) && bytes_less(b, a)),
{
    less_from_asymmetric(a, b, 0);
}

/// The order is transitive.
pub proof fn bytes_less_transitive(a: Seq<u8>, b: Seq<u8>, c: Seq<u8>)
    ensures
        bytes_less(a, b) && bytes_less(b, c) ==> bytes_less(a, c),
{
    if bytes_less(a, b) && bytes_less(b, c) {
        less_from_transitive(a, b, c, 0);
    }
}

/// Two different texts are always ordered one way or the other.
pub proof fn bytes_less_total(a: Seq<u8>, b: Seq<u8>)
    ensures
        a == b || bytes_less(a, b) || bytes_less(b, a),
{
    if !bytes_less(a, b) && !bytes_less(b, a) {
        less_from_total(a, b, 0);
    }
}

/// How one text stands to another in the byte order.
#[derive(Clone, Copy, Debug, PartialEq, Eq)]
pub enum Rank {
    Before,
    Same,
    After,
}

/// Compares two texts byte by byte.
pub fn compare_bytes(a: &[u8], b: &[u8]) -> (r: Rank)
    ensures
        r is Before <==> bytes_less(a@, b@),
        r is Same <==> a@ == b@,
        r is After <==> bytes_less(b@, a@),
{
    let mut i: usize = 0;
    while i < a.len() && i < b.len()
        invariant
            i <= a@.len(),
            i <= b@.len(),
            forall|j: int| 0 <= j < i ==> a@[j] == b@[j],
            bytes_less(a@, b@) == less_from(a@, b@, i as int),
            bytes_less(b@, a@) == less_from(b@, a@, i as int),
        decreases a@.len() - i,
    {
        if a[i] < b[i] {
            return Rank::Before;
        }
        if a[i] > b[i] {
            return Rank::After;
        }
        i = i + 1;
    }
    if a.len() < b.len() {
        Rank::Before
    } else if a.len() > b.len() {
        Rank::After
    } else {
        assert(a@ =~= b@);
        Rank::Same
    }
}

/// Whether two texts hold the same bytes.
pub fn same_bytes(a: &[u8], b: &[u8]) -> (r: bool)
    ensures
        r == (a@ == b@),
{
    if a.len() != b.len() {
        return false;
    }
    let mut i: usize = 0;
    while i < a.len()
        invariant
            a@.len() == b@.len(),
            i <= a@.len(),
            forall|j: int| 0 <= j < i ==> a@[j] == b@[j],
        decreases a@.len() - i,
    {
        if a[i] != b[i] {
            return false;
        }
        i = i + 1;
    }
    assert(a@ =~= b@);
    true
}

/// A decimal digit.
pub open spec fn is_digit(b: u8) -> bool {
    0x30 <= b && b <= 0x39
}

/// Every byte of `s` is a decimal digit.
pub open spec fn all_digits(s: Seq<u8>) -> bool {
    forall|i: int| 0 <= i < s.len() ==> is_digit(#[trigger] s[i])
}

/// The number that the digits of `s` write in base ten.
pub open spec fn digits_value(s: Seq<u8>) -> nat
    decreases s.len(),
{
    if s.len() == 0 {
        0
    } else {
        digits_value(s.drop_last()) * 10 + (s.last() - 0x30) as nat
    }
}

/// The digits of a signed numeral: what follows one leading `+` or `-`.
pub open spec fn numeral_digits(t: Seq<u8>) -> Seq<u8> {
    if t.len() > 0 && (t[0] == 0x2d || t[0] == 0x2b) {
        t.subrange(1, t.len() as int)
    } else {
        t
    }
}

/// The number written by the numeral `t`, whatever its size.
pub open spec fn numeral_value(t: Seq<u8>) -> int {
    if t.len() > 0 && t[0] == 0x2d {
        -(digits_value(numeral_digits(t)) as int)
    } else {
        digits_value(numeral_digits(t)) as int
    }
}

/// Permissive reading of a 64-bit number: white space around it is
/// ignored, one sign may lead, at least one digit must follow and nothing
/// else. Text of any other shape, and a number outside the 64-bit range,
/// read as zero.
pub open spec fn parse_int(s: Seq<u8>) -> int {
    let t = trimmed(s);
    let digits = numeral_digits(t);
    if digits.len() > 0 && all_digits(digits) && i64::MIN <= numeral_value(t) <= i64::MAX {
        numeral_value(t)
    } else {
        0
    }
}

proof fn digits_value_grows(s: Seq<u8>, k: int)
    requires
        0 <= k <= s.len(),
        all_digits(s),
    ensures
        digits_value(s.take(k)) <= digits_value(s),
    decreases s.len() - k,
{
    if k == s.len() {
        assert(s.take(k) =~= s);
    } else {
        let front = s.drop_last();
        assert(front.take(k) =~= s.take(k));
        assert(all_digits(front)) by {
            assert forall|i: int| 0 <= i < front.len() implies is_digit(#[trigger] front[i]) by {
                assert(front[i] == s[i]);
            }
        }
        digits_value_grows(front, k);
        assert(is_digit(s[s.len() - 1]));
    }
}

/// Reads a 64-bit number permissively; see [`parse_int`].
pub fn parse_i64(value: &[u8]) -> (r: i64)
    ensures
        r == parse_int(value@),
{
    let t: &[u8] = trim(value);
    let n: usize = t.len();
    if n == 0 {
        return 0;
    }
    let negative: bool = t[0] == 0x2d;
    let first: usize = if t[0] == 0x2d || t[0] == 0x2b {
        1
    } else {
        0
    };
    if first == n {
        return 0;
    }
    let limit: i128 = if negative {
        0x8000_0000_0000_0000
    } else {
        0x7fff_ffff_ffff_ffff
    };
    let ghost digits = numeral_digits(t@);
    assert(digits =~= t@.subrange(first as int, n as int));
    let mut acc: i128 = 0;
    let mut i: usize = first;
    while i < n
        invariant
            n == t@.len(),
            n > 0,
            t@ == trimmed(value@),
            first <= i <= n,
            first < n,
            negative == (t@[0] == 0x2d),
            digits == numeral_digits(t@),
            digits == t@.subrange(first as int, n as int),
            limit == if negative {
                0x8000_0000_0000_0000i128
            } else {
                0x7fff_ffff_ffff_ffffi128
            },
            all_digits(digits.take(i - first)),
            acc == digits_value(digits.take(i - first)),
            0 <= acc <= limit,
        decreases n - i,
    {
        let d: u8 = t[i];
        let ghost before = digits.take(i - first);
        let ghost after = digits.take(i - first + 1);
        assert(after.drop_last() =~= before);
        assert(after.last() == d);
        if d < 0x30 || d > 0x39 {
            assert(!is_digit(digits[i - first]));
            return 0;
        }
        acc = acc * 10 + (d - 0x30) as i128;
        assert(all_digits(after)) by {
            assert forall|j: int| 0 <= j < after.len() implies is_digit(#[trigger] after[j]) by {
                if j < before.len() {
                    assert(after[j] == before[j]);
                }
            }
        }
        if acc > limit {
            proof {
                if all_digits(digits) {
                    digits_value_grows(digits, i - first + 1);
                }
            }
            return 0;
        }
        i = i + 1;
    }
    assert(digits.take(n - first) =~= digits);
    if negative {
        (-acc) as i64
    } else {
        acc as i64
    }
}

/// The decimal digits of `n`, most significant first, without leading
/// zeros.
pub open spec fn digits_of(n: nat) -> Seq<u8>
    decreases n,
{
    if n < 10 {
        seq![(0x30 + n) as u8]
    } else {
        digits_of(n / 10).push((0x30 + n % 10) as u8)
    }
}

/// The decimal numeral of `v`: a minus sign for a negative number, no sign
/// otherwise.
pub open spec fn decimal_text(v: int) -> Seq<u8> {
    if v < 0 {
        seq![0x2du8] + digits_of((-v) as nat)
    } else {
        digits_of(v as nat)
    }
}

fn push_digits(out: &mut Vec<u8>, n: u64)
    ensures
        final(out)@ == old(out)@ + digits_of(n as nat),
    decreases n,
{
    if n >= 10 {
        push_digits(out, n / 10);
    }
    let d: u8 = (n % 10) as u8;
    out.push(0x30 + d);
    assert(final(out)@ =~= old(out)@ + digits_of(n as nat));
}

/// Appends the decimal numeral of `v` to `out`.
pub fn push_decimal(out: &mut Vec<u8>, v: i64)
    ensures
        final(out)@ == old(out)@ + decimal_text(v as int),
{
    if v < 0 {
        out.push(0x2d);
        let magnitude: u64 = (-(v as i128)) as u64;
        push_digits(out, magnitude);
        assert(final(out)@ =~= old(out)@ + decimal_text(v as int));
    } else {
        push_digits(out, v as u64);
    }
}

/// Appends a copy of `s` to `out`.
pub fn push_bytes(out: &mut Vec<u8>, s: &[u8])
    ensures
        final(out)@ == old(out)@ + s@,
{
    let mut i: usize = 0;
    while i < s.len()
        invariant
            i <= s@.len(),
            out@ == old(out)@ + s@.take(i as int),
        decreases s@.len() - i,
    {
        out.push(s[i]);
        assert(s@.take(i + 1) =~= s@.take(i as int).push(s@[i as int]));
        assert(out@ =~= old(out)@ + s@.take(i + 1));
        i = i + 1;
    }
    assert(s@.take(i as int) =~= s@);
}

} // verus!
