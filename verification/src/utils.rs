//! Character classes and small string helpers shared by the tokenizer and
//! the layout engine.
use vstd::prelude::*;
use vstd::utf8::{encode_scalar, encode_utf8};

verus! {

/// Taken on trust: `String::push` of the standard library appends the
/// given character to the end of the string and changes nothing else of
/// what the string holds.
pub assume_specification[ String::push ](s: &mut String, c: char)
    ensures
        final(s)@ == old(s)@.push(c),
;

/// The code points that carry the Unicode `White_Space` property, which
/// are those that `char::is_whitespace` accepts.
pub open spec fn is_whitespace_spec(c: char) -> bool {
    let u = c as u32;
    ||| u == 0x20
    ||| 0x09 <= u <= 0x0d
    ||| u == 0x85
    ||| u == 0xa0
    ||| u == 0x1680
    ||| 0x2000 <= u <= 0x200a
    ||| u == 0x2028
    ||| u == 0x2029
    ||| u == 0x202f
    ||| u == 0x205f
    ||| u == 0x3000
}

/// The letters that may open a tag name: `a`-`z` and `A`-`Z`.
pub open spec fn is_alphabet_spec(c: char) -> bool {
    ('a' <= c <= 'z') || ('A' <= c <= 'Z')
}

/// Whether a character is whitespace, as `char::is_whitespace` has it.
#[verifier::when_used_as_spec(is_whitespace_spec)]
pub fn is_whitespace(c: char) -> (r: bool)
    ensures
        r == is_whitespace_spec(c),
{
    let u: u32 = c as u32;
    u == 0x20 || (0x09 <= u && u <= 0x0d) || u == 0x85 || u == 0xa0 || u == 0x1680 || (0x2000 <= u
        && u <= 0x200a) || u == 0x2028 || u == 0x2029 || u == 0x202f || u == 0x205f || u == 0x3000
}

/// Whether a character is a letter that may open a tag name.
#[verifier::when_used_as_spec(is_alphabet_spec)]
pub fn is_alphabet(c: char) -> (r: bool)
    ensures
        r == is_alphabet_spec(c),
{
    ('a' <= c && c <= 'z') || ('A' <= c && c <= 'Z')
}

/// Decodes a string slice into its characters, in order.
pub fn decode(s: &str) -> (v: Vec<char>)
    ensures
        v@ == s@,
{
    let mut v: Vec<char> = Vec::new();
    for c in it: s.chars()
        invariant
            v@ == it.seq().take(it.index() as int),
    {
        v.push(c);
    }
    v
}

/// The number of bytes that the UTF-8 encoding of a character takes.
pub open spec fn char_width(c: char) -> nat {
    let u = c as u32;
    if u <= 0x7f {
        1
    } else if u <= 0x7ff {
        2
    } else if u <= 0xffff {
        3
    } else {
        4
    }
}

/// The length in bytes of the UTF-8 encoding of a character sequence.
pub open spec fn utf8_len(s: Seq<char>) -> nat {
    encode_utf8(s).len()
}

/// The empty text takes no bytes.
pub proof fn lemma_utf8_len_empty()
    ensures
        utf8_len(Seq::<char>::empty()) == 0,
{
}

/// One character takes the bytes of its width.
pub proof fn lemma_utf8_len_one(c: char)
    ensures
        utf8_len(seq![c]) == char_width(c),
{
    let s = seq![c];
    assert(s.drop_first() =~= Seq::<char>::empty());
    assert(encode_utf8(s) == encode_scalar(c as u32) + encode_utf8(s.drop_first()));
    assert(encode_utf8(s.drop_first()).len() == 0);
}

/// Two texts one behind the other take the bytes of both.
pub proof fn lemma_utf8_len_add(a: Seq<char>, b: Seq<char>)
    ensures
        utf8_len(a + b) == utf8_len(a) + utf8_len(b),
    decreases a.len(),
{
    if a.len() == 0 {
        assert(a + b =~= b);
    } else {
        assert((a + b).drop_first() =~= a.drop_first() + b);
        lemma_utf8_len_add(a.drop_first(), b);
    }
}

/// A text grows by the width of the character added to it.
pub proof fn lemma_utf8_len_push(s: Seq<char>, c: char)
    ensures
        utf8_len(s.push(c)) == utf8_len(s) + char_width(c),
{
    assert(s.push(c) =~= s + seq![c]);
    lemma_utf8_len_add(s, seq![c]);
    lemma_utf8_len_one(c);
}

/// A length as a `usize`, where it fits.
pub open spec fn checked_len(n: int) -> Option<usize> {
    if 0 <= n <= usize::MAX {
        Some(n as usize)
    } else {
        None
    }
}

/// A length that may already have left the range of `usize`, grown by `n`.
pub open spec fn grow(total: Option<usize>, n: int) -> Option<usize> {
    match total {
        Some(t) => checked_len(t + n),
        None => None,
    }
}

/// Growing a length that fits is adding to it.
pub proof fn lemma_grow(a: nat, b: nat)
    ensures
        grow(checked_len(a as int), b as int) == checked_len(a as int + b as int),
{
}

/// Adds `n` to a length that may already have left the range of `usize`.
pub fn checked_grow(total: Option<usize>, n: usize) -> (r: Option<usize>)
    ensures
        r == grow(total, n as int),
{
    match total {
        Some(t) => t.checked_add(n),
        None => None,
    }
}

/// Grows a length by the UTF-8 length of `s`.
pub fn checked_grow_by_str(total: Option<usize>, s: &str) -> (r: Option<usize>)
    ensures
        r == grow(total, utf8_len(s@) as int),
{
    let mut r = total;
    proof {
        lemma_utf8_len_empty();
    }
    for c in it: s.chars()
        invariant
            it.seq() == s@,
            r == grow(total, utf8_len(s@.take(it.index() as int)) as int),
    {
        let u: u32 = c as u32;
        let width: usize = if u <= 0x7f {
            1
        } else if u <= 0x7ff {
            2
        } else if u <= 0xffff {
            3
        } else {
            4
        };
        proof {
            let i = it.index() as int;
            assert(s@.take(i + 1) =~= s@.take(i).push(c));
            lemma_utf8_len_push(s@.take(i), c);
        }
        r = checked_grow(r, width);
    }
    assert(s@.take(s@.len() as int) =~= s@);
    r
}

/// The character of a decimal digit.
pub open spec fn digit(d: nat) -> char
    recommends
        d < 10,
{
    (0x30 + d) as char
}

/// A number in decimal, without leading zeros.
pub open spec fn decimal(n: nat) -> Seq<char>
    decreases n,
{
    if n < 10 {
        seq![digit(n)]
    } else {
        decimal(n / 10).push(digit(n % 10))
    }
}

/// Appends `n` in decimal.
pub fn push_decimal(s: &mut String, n: usize)
    ensures
        final(s)@ == old(s)@ + decimal(n as nat),
    decreases n,
{
    if n >= 10 {
        push_decimal(s, n / 10);
    }
    let d: u8 = (n % 10) as u8;
    s.push((0x30u8 + d) as char);
    assert(s@ =~= old(s)@ + decimal(n as nat));
}

/// Whether two string slices hold the same characters.
pub fn str_equals(a: &str, b: &str) -> (r: bool)
    ensures
        r == (a@ == b@),
{
    let x = decode(a);
    let y = decode(b);
    if x.len() != y.len() {
        return false;
    }
    let mut i: usize = 0;
    while i < x.len()
        invariant
            x@ == a@,
            y@ == b@,
            x.len() == y.len(),
            i <= x.len(),
            x@.take(i as int) == y@.take(i as int),
        decreases x.len() - i,
    {
        if x[i] != y[i] {
            return false;
        }
        i += 1;
        assert(x@.take(i as int) =~= x@.take(i - 1).push(x@[i - 1]));
        assert(y@.take(i as int) =~= y@.take(i - 1).push(y@[i - 1]));
    }
    assert(x@ =~= x@.take(i as int));
    assert(y@ =~= y@.take(i as int));
    true
}

} // verus!
