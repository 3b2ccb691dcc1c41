//! Decimal and padded renderings of integers, built from verified loops.

use vstd::prelude::*;
use vstd::string::StringSliceAdditionalSpecFns;
use vstd::utf8::encode_utf8;

verus! {

/// The ASCII character of a decimal digit.
pub open spec fn digit_char(d: nat) -> char {
    ((48 + d) as u32) as char
}

/// Decimal representation of a natural number, without leading zeros.
pub open spec fn decimal(n: nat) -> Seq<char>
    decreases n,
{
    if n < 10 {
        seq![digit_char(n)]
    } else {
        decimal(n / 10).push(digit_char(n % 10))
    }
}

/// Decimal representation of a signed integer, with a leading `-` when negative.
pub open spec fn signed_decimal(n: int) -> Seq<char> {
    if n < 0 {
        seq!['-'] + decimal((-n) as nat)
    } else {
        decimal(n as nat)
    }
}

/// `k` copies of the character `c`.
pub open spec fn repeat_char(c: char, k: nat) -> Seq<char>
    decreases k,
{
    if k == 0 {
        Seq::empty()
    } else {
        repeat_char(c, (k - 1) as nat).push(c)
    }
}

/// Decimal representation of `n` left-padded with zeros to at least `width` characters.
pub open spec fn zero_padded(n: nat, width: nat) -> Seq<char> {
    let d = decimal(n);
    if d.len() < width {
        repeat_char('0', (width - d.len()) as nat) + d
    } else {
        d
    }
}

fn digit_str(d: u64) -> (s: &'static str)
    requires
        d < 10,
    ensures
        s@ == seq![digit_char(d as nat)],
{
    proof {
        reveal_strlit("0");
        reveal_strlit("1");
        reveal_strlit("2");
        reveal_strlit("3");
        reveal_strlit("4");
        reveal_strlit("5");
        reveal_strlit("6");
        reveal_strlit("7");
        reveal_strlit("8");
        reveal_strlit("9");
    }
    if d == 0 {
        "0"
    } else if d == 1 {
        "1"
    } else if d == 2 {
        "2"
    } else if d == 3 {
        "3"
    } else if d == 4 {
        "4"
    } else if d == 5 {
        "5"
    } else if d == 6 {
        "6"
    } else if d == 7 {
        "7"
    } else if d == 8 {
        "8"
    } else {
        "9"
    }
}

/// Renders an unsigned integer in decimal, as `to_string` does.
pub fn u64_to_decimal(n: u64) -> (s: String)
    ensures
        s@ == decimal(n as nat),
    decreases n,
{
    if n < 10 {
        let mut s = String::new();
        s.append(digit_str(n));
        s
    } else {
        let mut s = u64_to_decimal(n / 10);
        s.append(digit_str(n % 10));
        s
    }
}

/// Renders a signed integer in decimal, as `to_string` does.
pub fn i64_to_decimal(n: i64) -> (s: String)
    ensures
        s@ == signed_decimal(n as int),
{
    if n < 0 {
        let magnitude: u64 = if n == i64::MIN {
            9223372036854775808u64
        } else {
            (-n) as u64
        };
        let mut s = String::new();
        proof {
            reveal_strlit("-");
        }
        s.append("-");
        let digits = u64_to_decimal(magnitude);
        s.append(digits.as_str());
        s
    } else {
        u64_to_decimal(n as u64)
    }
}

/// Renders `n` in decimal left-padded with zeros to `width`, as `format!("{:0width$}")` does.
pub fn zero_padded_decimal(n: u64, width: usize) -> (s: String)
    ensures
        s@ == zero_padded(n as nat, width as nat),
{
    let digits = u64_to_decimal(n);
    let len = digits.as_str().unicode_len();
    let mut s = String::new();
    if len < width {
        let pad = width - len;
        let mut i: usize = 0;
        while i < pad
            invariant
                i <= pad,
                s@ == repeat_char('0', i as nat),
            decreases pad - i,
        {
            proof {
                reveal_strlit("0");
            }
            s.append("0");
            i = i + 1;
        }
    }
    s.append(digits.as_str());
    s
}

} // verus!

verus! {

/// Joins a child path onto a base path with the Unix rules of `Path::join`:
/// an absolute child replaces the base, and a `/` separates the two unless
/// the base is empty or already ends with one.
pub open spec fn join_path(base: Seq<char>, child: Seq<char>) -> Seq<char> {
    if child.len() > 0 && child[0] == '/' {
        child
    } else if base.len() == 0 || base.last() == '/' {
        base + child
    } else {
        base + "/"@ + child
    }
}

/// Joins `child` onto `base` as `Path::new(base).join(child)` does on Unix.
pub fn path_join(base: &str, child: &str) -> (joined: String)
    ensures
        joined@ == join_path(base@, child@),
{
    let child_len = child.unicode_len();
    if child_len > 0 {
        let first = child.get_char(0);
        if first == '/' {
            return child.to_owned();
        }
    }
    let base_len = base.unicode_len();
    let mut joined = base.to_owned();
    if base_len > 0 {
        let last = base.get_char(base_len - 1);
        if last != '/' {
            joined.append("/");
        }
    }
    joined.append(child);
    joined
}

/// The number of bytes in the UTF-8 encoding of `text`.
pub fn encoded_len(text: &str) -> (n: usize)
    ensures
        n == encode_utf8(text@).len(),
{
    let bytes = text.as_bytes();
    proof {
        assert(text.spec_bytes() == encode_utf8(text@));
    }
    bytes.len()
}

/// Whether `text`'s UTF-8 encoding begins with `prefix`'s.
pub open spec fn bytes_start_with(text: Seq<char>, prefix: Seq<char>) -> bool {
    let t = encode_utf8(text);
    let p = encode_utf8(prefix);
    p.len() <= t.len() && t.subrange(0, p.len() as int) == p
}

/// Whether `text`'s UTF-8 encoding ends with `suffix`'s.
pub open spec fn bytes_end_with(text: Seq<char>, suffix: Seq<char>) -> bool {
    let t = encode_utf8(text);
    let p = encode_utf8(suffix);
    p.len() <= t.len() && t.subrange(t.len() - p.len(), t.len() as int) == p
}

/// Whether the bytes `[offset, offset + needle.len())` of `hay` are `needle`.
pub(crate) fn bytes_match_at(hay: &[u8], needle: &[u8], offset: usize) -> (r: bool)
    requires
        offset + needle@.len() <= hay@.len(),
    ensures
        r == (hay@.subrange(offset as int, offset + needle@.len()) == needle@),
{
    let hay_len = hay.len();
    let mut k: usize = 0;
    while k < needle.len()
        invariant
            offset + needle@.len() <= hay@.len(),
            hay_len == hay@.len(),
            k <= needle@.len(),
            forall|j: int| 0 <= j < k ==> hay@[offset + j] == needle@[j],
        decreases needle@.len() - k,
    {
        if hay[offset + k] != needle[k] {
            proof {
                assert(hay@.subrange(offset as int, offset + needle@.len())[k as int] != needle@[k as int]);
            }
            return false;
        }
        k = k + 1;
    }
    proof {
        assert(hay@.subrange(offset as int, offset + needle@.len()) =~= needle@);
    }
    true
}

/// `str::starts_with` for a string pattern.
pub fn str_starts_with(text: &str, prefix: &str) -> (r: bool)
    ensures
        r == bytes_start_with(text@, prefix@),
{
    let t = text.as_bytes();
    let p = prefix.as_bytes();
    if p.len() > t.len() {
        return false;
    }
    bytes_match_at(t, p, 0)
}

/// `str::ends_with` for a string pattern.
pub fn str_ends_with(text: &str, suffix: &str) -> (r: bool)
    ensures
        r == bytes_end_with(text@, suffix@),
{
    let t = text.as_bytes();
    let p = suffix.as_bytes();
    if p.len() > t.len() {
        return false;
    }
    bytes_match_at(t, p, t.len() - p.len())
}

/// Byte-wise lexicographic order on encodings, the order of `str`.
pub open spec fn bytes_less(a: Seq<u8>, b: Seq<u8>) -> bool
    decreases a.len(),
{
    if a.len() == 0 {
        b.len() > 0
    } else if b.len() == 0 {
        false
    } else if a[0] != b[0] {
        a[0] < b[0]
    } else {
        bytes_less(a.drop_first(), b.drop_first())
    }
}

/// No encoding is below itself.
pub proof fn lemma_bytes_less_irreflexive(a: Seq<u8>)
    ensures
        !bytes_less(a, a),
    decreases a.len(),
{
    if a.len() > 0 {
        lemma_bytes_less_irreflexive(a.drop_first());
    }
}

/// The byte order is transitive.
pub proof fn lemma_bytes_less_transitive(a: Seq<u8>, b: Seq<u8>, c: Seq<u8>)
    requires
        bytes_less(a, b),
        bytes_less(b, c),
    ensures
        bytes_less(a, c),
    decreases a.len(),
{
    if a.len() > 0 && b.len() > 0 && c.len() > 0 && a[0] == b[0] && b[0] == c[0] {
        lemma_bytes_less_transitive(a.drop_first(), b.drop_first(), c.drop_first());
    }
}

/// Two different encodings are ordered one way or the other.
pub proof fn lemma_bytes_less_total(a: Seq<u8>, b: Seq<u8>)
    requires
        a != b,
    ensures
        bytes_less(a, b) || bytes_less(b, a),
    decreases a.len(),
{
    if a.len() == 0 {
        assert(b.len() > 0) by {
            if b.len() == 0 {
                assert(a =~= b);
            }
        }
    } else if b.len() > 0 && a[0] == b[0] {
        if a.drop_first() == b.drop_first() {
            assert(a =~= seq![a[0]] + a.drop_first());
            assert(b =~= seq![b[0]] + b.drop_first());
        }
        lemma_bytes_less_total(a.drop_first(), b.drop_first());
    }
}

/// Different texts have different encodings.
pub proof fn lemma_encode_utf8_injective(a: Seq<char>, b: Seq<char>)
    requires
        encode_utf8(a) == encode_utf8(b),
    ensures
        a == b,
{
    vstd::utf8::encode_utf8_decode_utf8(a);
    vstd::utf8::encode_utf8_decode_utf8(b);
}

/// Whether `a` sorts before `b` as `str` values do.
pub fn str_less(a: &str, b: &str) -> (r: bool)
    ensures
        r == bytes_less(encode_utf8(a@), encode_utf8(b@)),
{
    let x = a.as_bytes();
    let y = b.as_bytes();
    let ghost sa = encode_utf8(a@);
    let ghost sb = encode_utf8(b@);
    proof {
        assert(x@ == sa);
        assert(y@ == sb);
        assert(sa.skip(0) =~= sa);
        assert(sb.skip(0) =~= sb);
    }
    let x_len = x.len();
    let y_len = y.len();
    let mut k: usize = 0;
    while k < x_len && k < y_len
        invariant
            sa == encode_utf8(a@),
            sb == encode_utf8(b@),
            x@ == sa,
            y@ == sb,
            x_len == sa.len(),
            y_len == sb.len(),
            k <= x_len,
            k <= y_len,
            bytes_less(sa, sb) == bytes_less(sa.skip(k as int), sb.skip(k as int)),
        decreases x_len - k,
    {
        let xb = x[k];
        let yb = y[k];
        if xb != yb {
            let r = xb < yb;
            proof {
                let ta = sa.skip(k as int);
                let tb = sb.skip(k as int);
                assert(ta[0] == xb);
                assert(tb[0] == yb);
                assert(ta.len() > 0 && tb.len() > 0);
                assert(bytes_less(ta, tb) == r);
                assert(bytes_less(sa, sb) == r);
            }
            return r;
        }
        proof {
            assert(sa.skip(k as int).drop_first() =~= sa.skip(k + 1));
            assert(sb.skip(k as int).drop_first() =~= sb.skip(k + 1));
        }
        k = k + 1;
    }
    k < y_len
}

/// Compares two string slices by content.
pub fn str_equal(a: &str, b: &str) -> (r: bool)
    ensures
        r == (a@ == b@),
{
    let a_owned = a.to_owned();
    let b_owned = b.to_owned();
    a_owned == b_owned
}

/// Whether every byte is an ASCII digit.
pub open spec fn all_ascii_digits(bytes: Seq<u8>) -> bool {
    forall|k: int| 0 <= k < bytes.len() ==> 48 <= #[trigger] bytes[k] <= 57
}

/// The value of a run of ASCII digits.
pub open spec fn digits_value(bytes: Seq<u8>) -> nat
    decreases bytes.len(),
{
    if bytes.len() == 0 {
        0
    } else {
        digits_value(bytes.drop_last()) * 10 + (bytes.last() - 48) as nat
    }
}

/// What `str::parse::<u32>` accepts: an optional `+`, then one or more ASCII digits whose
/// value fits in a `u32`.
pub open spec fn parsed_u32(text: Seq<char>) -> Option<u32> {
    let bytes = encode_utf8(text);
    let digits = if bytes.len() > 0 && bytes[0] == 43 {
        bytes.drop_first()
    } else {
        bytes
    };
    if digits.len() > 0 && all_ascii_digits(digits) && digits_value(digits) <= u32::MAX {
        Some(digits_value(digits) as u32)
    } else {
        None
    }
}

/// Parses a decimal `u32` as `str::parse::<u32>` does, `None` where it fails.
pub fn parse_u32(text: &str) -> (value: Option<u32>)
    ensures
        value == parsed_u32(text@),
{
    let bytes = text.as_bytes();
    let ghost all = encode_utf8(text@);
    proof {
        assert(bytes@ == all);
    }
    let len = bytes.len();
    let start: usize = if len > 0 && bytes[0] == 43 {
        1
    } else {
        0
    };
    let ghost digits = all.subrange(start as int, len as int);
    proof {
        if start == 1 {
            assert(digits =~= all.drop_first());
        } else {
            assert(digits =~= all);
        }
    }
    if start >= len {
        return None;
    }
    let mut value: u64 = 0;
    let mut k: usize = start;
    while k < len
        invariant
            all == encode_utf8(text@),
            bytes@ == all,
            len == all.len(),
            start <= k <= len,
            digits == all.subrange(start as int, len as int),
            digits == (if all.len() > 0 && all[0] == 43 {
                all.drop_first()
            } else {
                all
            }),
            all_ascii_digits(all.subrange(start as int, k as int)),
            value == digits_value(all.subrange(start as int, k as int)),
            value <= u32::MAX,
        decreases len - k,
    {
        let b = bytes[k];
        proof {
            assert(all.subrange(start as int, k + 1).drop_last() =~= all.subrange(start as int, k as int));
            assert(all.subrange(start as int, k + 1).last() == b);
        }
        if b < 48 || b > 57 {
            proof {
                assert(digits[k - start] == b);
            }
            return None;
        }
        let next = value * 10 + (b - 48) as u64;
        if next > 4294967295 {
            proof {
                assert(digits_value(all.subrange(start as int, k + 1)) == next);
                lemma_digits_value_grows(digits, (k + 1 - start) as nat);
                assert(digits.subrange(0, (k + 1 - start) as int) =~= all.subrange(start as int, k + 1));
            }
            return None;
        }
        value = next;
        k = k + 1;
    }
    proof {
        assert(all.subrange(start as int, len as int) =~= digits);
    }
    Some(value as u32)
}

/// The value of a run of digits is at least the value of any of its prefixes.
proof fn lemma_digits_value_grows(bytes: Seq<u8>, count: nat)
    requires
        count <= bytes.len(),
    ensures
        digits_value(bytes.subrange(0, count as int)) <= digits_value(bytes),
    decreases bytes.len() - count,
{
    if count < bytes.len() {
        lemma_digits_value_grows(bytes.drop_last(), count);
        assert(bytes.drop_last().subrange(0, count as int) =~= bytes.subrange(0, count as int));
    } else {
        assert(bytes.subrange(0, count as int) =~= bytes);
    }
}

} // verus!
