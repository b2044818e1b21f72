//! Text helpers of the picker and of the process list: case folding,
//! substring search, decimal rendering of numbers and truncation to a byte
//! budget.

use vstd::prelude::*;
use vstd::utf8::*;

verus! {

broadcast use vstd::string::group_string_axioms;

/// What `str::to_lowercase` returns for a string with the given characters
/// (full Unicode lowercase mapping, which may change the length).
pub uninterp spec fn lowercase(s: Seq<char>) -> Seq<char>;

/// Whether every character is ASCII.
pub open spec fn all_ascii(s: Seq<char>) -> bool {
    forall|i: int| 0 <= i < s.len() ==> (#[trigger] s[i] as u32) < 128
}

/// The ASCII lowercase of a character: `A`..=`Z` become `a`..=`z`, every
/// other character stays.
pub open spec fn ascii_lower(c: char) -> char {
    if 65 <= (c as u32) && (c as u32) <= 90 {
        ((c as u32) + 32) as char
    } else {
        c
    }
}

/// The ASCII lowercase of each character, in order.
pub open spec fn ascii_lowercase(s: Seq<char>) -> Seq<char> {
    s.map_values(|c: char| ascii_lower(c))
}

/// Calls `str::to_lowercase`; its result depends on the characters alone,
/// the empty string stays empty, and on ASCII input each of `A`..=`Z`
/// becomes its lowercase letter while every other character stays. Beyond
/// ASCII, nothing is claimed of the Unicode mapping.
#[verifier::external_body]
pub(crate) fn to_lowercase(s: &str) -> (r: String)
    ensures
        r@ == lowercase(s@),
        s@.len() == 0 ==> r@.len() == 0,
        all_ascii(s@) ==> r@ == ascii_lowercase(s@),
{
    s.to_lowercase()
}

/// Calls `String::push`, which appends one character.
#[verifier::external_body]
pub(crate) fn push_char(s: &mut String, c: char)
    ensures
        final(s)@ == old(s)@.push(c),
{
    s.push(c)
}

/// Calls `String::pop`, which removes and returns the last character, or
/// returns `None` and leaves an empty string as it is.
#[verifier::external_body]
pub(crate) fn pop_char(s: &mut String) -> (r: Option<char>)
    ensures
        old(s)@.len() == 0 ==> r is None && final(s)@ == old(s)@,
        old(s)@.len() > 0 ==> r == Some(old(s)@.last()) && final(s)@ == old(s)@.drop_last(),
{
    s.pop()
}

/// The characters of a string, in order.
pub fn chars_of(s: &str) -> (v: Vec<char>)
    ensures
        v@ == s@,
{
    let mut v: Vec<char> = Vec::new();
    for c in it: s.chars()
        invariant
            v@ == it.seq().take(it.index() as int),
    {
        v.push(c);
    }
    v
}

/// Whether `needle` occurs in `hay` as a contiguous run of characters
/// (the empty needle occurs in every string).
pub open spec fn occurs_in(needle: Seq<char>, hay: Seq<char>) -> bool {
    exists|i: int| 0 <= i && i + needle.len() <= hay.len() && #[trigger] hay.subrange(i, i + needle.len()) == needle
}

/// Whether `needle` occurs in `hay` at position `i`.
fn occurs_at(needle: &Vec<char>, hay: &Vec<char>, i: usize) -> (b: bool)
    requires
        i + needle@.len() <= hay@.len(),
    ensures
        b <==> hay@.subrange(i as int, i + needle@.len()) == needle@,
{
    let n = needle.len();
    let mut j: usize = 0;
    while j < n
        invariant
            n == needle@.len(),
            i + n <= hay@.len(),
            hay@.len() == hay.len(),
            j <= n,
            forall|k: int| 0 <= k < j ==> hay@[i + k] == needle@[k],
        decreases n - j,
    {
        if hay[i + j] != needle[j] {
            assert(hay@.subrange(i as int, i + n)[j as int] != needle@[j as int]);
            return false;
        }
        j = j + 1;
    }
    assert(hay@.subrange(i as int, i + n) =~= needle@);
    true
}

/// Whether `needle` occurs in `hay`, as `str::contains` answers for a string
/// pattern.
pub fn contains_chars(hay: &Vec<char>, needle: &Vec<char>) -> (b: bool)
    ensures
        b == occurs_in(needle@, hay@),
{
    let n = needle.len();
    let h = hay.len();
    if n > h {
        return false;
    }
    let last = h - n;
    let mut i: usize = 0;
    loop
        invariant
            n == needle@.len(),
            h == hay@.len(),
            n <= h,
            last == h - n,
            i <= last,
            forall|k: int| 0 <= k < i ==> #[trigger] hay@.subrange(k, k + n) != needle@,
        decreases last - i,
    {
        if occurs_at(needle, hay, i) {
            assert(hay@.subrange(i as int, i + n) == needle@);
            return true;
        }
        if i == last {
            assert forall|k: int| 0 <= k && k + n <= h implies #[trigger] hay@.subrange(k, k + n) != needle@ by {
                assert(k <= i);
            }
            return false;
        }
        i = i + 1;
    }
}

/// The character of decimal digit `d`.
pub open spec fn digit_char(d: nat) -> char {
    ('0' as u32 + d) as char
}

/// The decimal representation of `n`, without leading zeros, as
/// `u32::to_string` writes it.
pub open spec fn decimal(n: nat) -> Seq<char>
    decreases n,
{
    if n < 10 {
        seq![digit_char(n)]
    } else {
        decimal(n / 10).push(digit_char(n % 10))
    }
}

/// The characters of the decimal representation of `n`.
pub fn decimal_chars(n: u32) -> (v: Vec<char>)
    ensures
        v@ == decimal(n as nat),
    decreases n,
{
    let d = n % 10;
    let c: char = char_of_digit(d);
    if n < 10 {
        let mut v: Vec<char> = Vec::new();
        v.push(c);
        assert(v@ =~= seq![digit_char(n as nat)]);
        v
    } else {
        let mut v = decimal_chars(n / 10);
        v.push(c);
        v
    }
}

/// The character of a decimal digit.
fn char_of_digit(d: u32) -> (c: char)
    requires
        d < 10,
    ensures
        c == digit_char(d as nat),
{
    match d {
        0 => '0',
        1 => '1',
        2 => '2',
        3 => '3',
        4 => '4',
        5 => '5',
        6 => '6',
        7 => '7',
        8 => '8',
        _ => '9',
    }
}

/// Whether `truncate_str` accepts `s` with a budget of `max_len` bytes: a
/// string over budget is cut after its first `max_len - 1` bytes, so that
/// number must be a count of bytes ending between two characters.
pub open spec fn truncatable(s: Seq<char>, max_len: nat) -> bool {
    encode_utf8(s).len() > max_len ==> max_len >= 1 && is_char_boundary(encode_utf8(s), max_len - 1)
}

/// `s` cut to fit a budget of `max_len` bytes: a string of more than
/// `max_len` bytes keeps its first `max_len - 1` bytes followed by `…`, any
/// other string stays whole.
pub open spec fn truncated(s: Seq<char>, max_len: nat) -> Seq<char> {
    if encode_utf8(s).len() > max_len {
        decode_utf8(encode_utf8(s).take(max_len - 1)).push('…')
    } else {
        s
    }
}

/// `s` cut to fit a budget of `max_len` bytes (see `truncated`). The cut
/// must fall between two characters.
pub fn truncate_str(s: &str, max_len: usize) -> (r: String)
    requires
        truncatable(s@, max_len as nat),
    ensures
        r@ == truncated(s@, max_len as nat),
{
    let bytes = s.as_bytes();
    if bytes.len() > max_len {
        let (head, _tail) = s.split_at(max_len - 1);
        let mut r = head.to_owned();
        proof {
            let cut = encode_utf8(s@).subrange(0, max_len - 1);
            assert(encode_utf8(head@) == cut);
            encode_utf8_decode_utf8(head@);
            assert(decode_utf8(cut) == head@);
            assert(encode_utf8(s@).take(max_len - 1) =~= cut);
        }
        push_char(&mut r, '…');
        r
    } else {
        s.to_owned()
    }
}

/// Encoding a string extended by one character appends that character's
/// encoding.
proof fn lemma_encode_push(a: Seq<char>, c: char)
    ensures
        encode_utf8(a.push(c)) == encode_utf8(a) + encode_scalar(c as u32),
    decreases a.len(),
{
    if a.len() == 0 {
        assert(a.push(c).drop_first() =~= Seq::<char>::empty());
        assert(a.push(c)[0] == c);
        assert(encode_utf8(Seq::<char>::empty()) =~= Seq::<u8>::empty());
        assert(encode_utf8(a.push(c)) =~= encode_scalar(c as u32));
        assert(encode_utf8(a) + encode_scalar(c as u32) =~= encode_scalar(c as u32));
    } else {
        assert(a.push(c).drop_first() =~= a.drop_first().push(c));
        lemma_encode_push(a.drop_first(), c);
        assert(a.push(c)[0] == a[0]);
        let x = encode_scalar(a[0] as u32);
        let y = encode_utf8(a.drop_first());
        let z = encode_scalar(c as u32);
        assert(x + (y + z) =~= (x + y) + z);
    }
}

/// Truncating a truncated string changes nothing: a cut string is `max_len
/// + 2` bytes long (the ellipsis takes three), it can be cut at the same
/// place, and the cut keeps the same characters.
pub proof fn lemma_truncate_is_idempotent(s: Seq<char>, max_len: nat)
    requires
        truncatable(s, max_len),
    ensures
        truncatable(truncated(s, max_len), max_len),
        truncated(truncated(s, max_len), max_len) == truncated(s, max_len),
{
    let b = encode_utf8(s);
    if b.len() > max_len {
        let m = max_len;
        let t = b.take(m - 1);
        encode_utf8_valid_utf8(s);
        valid_utf8_split(b, m - 1);
        assert(t =~= b.subrange(0, m - 1));
        decode_utf8_encode_utf8(t);
        let d = decode_utf8(t);
        let r = d.push('…');
        lemma_encode_push(d, '…');
        let e = encode_scalar('…' as u32);
        assert(('…' as u32) == 0x2026u32);
        assert(has_width_3_encoding(0x2026u32));
        assert(0xE0u8 | (((0x2026u32 >> 12u32) & 0x0Fu32) as u8) == 0xE2u8) by (bit_vector);
        assert(e.len() == 3);
        assert(e[0] == 0xE2u8);
        let br = encode_utf8(r);
        assert(br == t + e);
        assert(br.len() == m + 2);
        assert(br[m - 1] == 0xE2u8);
        encode_utf8_valid_utf8(r);
        is_char_boundary_iff_is_leading_byte(br, m - 1);
        assert(is_leading_byte_width_3(br[m - 1]));
        assert(br.take(m - 1) =~= t);
    }
}

} // verus!
