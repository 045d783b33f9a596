//! Character-level text primitives and the mathematical vocabulary
//! (splitting, trimming, substring search) that the rest of the crate
//! states its contracts in.

use vstd::prelude::*;
use vstd::std_specs::iter::IteratorSpec;
use vstd::string::{StringExecFns, StringSliceAdditionalSpecFns};
use vstd::utf8::{
    decode_first_scalar, decode_utf8, decode_utf8_split, encode_scalar, encode_utf8,
    encode_utf8_decode_utf8, encode_utf8_first_scalar, encode_utf8_valid_utf8, is_char_boundary,
    is_char_boundary_iff_not_is_continuation_byte, is_leading_byte_width_1,
    length_of_first_scalar, pop_first_scalar, valid_utf8,
};

verus! {

/// Whether `c` is white space: the code points that Unicode gives the
/// `White_Space` property.
pub open spec fn is_space(c: char) -> bool {
    let n = c as u32;
    ||| 0x09 <= n <= 0x0D
    ||| n == 0x20
    ||| n == 0x85
    ||| n == 0xA0
    ||| n == 0x1680
    ||| 0x2000 <= n <= 0x200A
    ||| n == 0x2028
    ||| n == 0x2029
    ||| n == 0x202F
    ||| n == 0x205F
    ||| n == 0x3000
}

/// Tells white space from other characters.
pub fn is_whitespace(c: char) -> (b: bool)
    ensures
        b == is_space(c),
{
    let n: u32 = c as u32;
    (0x09 <= n && n <= 0x0D) || n == 0x20 || n == 0x85 || n == 0xA0 || n == 0x1680 || (0x2000 <= n
        && n <= 0x200A) || n == 0x2028 || n == 0x2029 || n == 0x202F || n == 0x205F || n == 0x3000
}

/// The position of the first `sep` in `s`, or `s.len()` where there is none.
pub open spec fn find(s: Seq<char>, sep: char) -> int
    decreases s.len(),
{
    if s.len() == 0 || s[0] == sep {
        0
    } else {
        1 + find(s.drop_first(), sep)
    }
}

/// The pieces of `s` between occurrences of `sep`. There is always at
/// least one piece; two separators in a row enclose an empty piece.
pub open spec fn pieces(s: Seq<char>, sep: char) -> Seq<Seq<char>>
    decreases s.len(),
{
    let k = find(s, sep);
    if 0 <= k < s.len() {
        seq![s.take(k)] + pieces(s.skip(k + 1), sep)
    } else {
        seq![s]
    }
}

/// `s` without the white space it starts with.
pub open spec fn trim_start(s: Seq<char>) -> Seq<char>
    decreases s.len(),
{
    if s.len() > 0 && is_space(s[0]) {
        trim_start(s.drop_first())
    } else {
        s
    }
}

/// `s` without the white space it ends with.
pub open spec fn trim_end(s: Seq<char>) -> Seq<char>
    decreases s.len(),
{
    if s.len() > 0 && is_space(s.last()) {
        trim_end(s.drop_last())
    } else {
        s
    }
}

/// `s` without white space at either end.
pub open spec fn trimmed(s: Seq<char>) -> Seq<char> {
    trim_end(trim_start(s))
}

/// Whether `needle` occurs in `hay` at position `i`.
pub open spec fn occurs_at(hay: Seq<char>, needle: Seq<char>, i: int) -> bool {
    0 <= i && i + needle.len() <= hay.len() && hay.subrange(i, i + needle.len()) == needle
}

/// Whether `needle` occurs somewhere in `hay`. The empty needle occurs in
/// every text.
pub open spec fn has_substring(hay: Seq<char>, needle: Seq<char>) -> bool {
    exists|i: int| occurs_at(hay, needle, i)
}

/// `s` without one carriage return at its end, if it has one.
pub open spec fn strip_cr(s: Seq<char>) -> Seq<char> {
    if s.len() > 0 && s.last() == '\r' {
        s.drop_last()
    } else {
        s
    }
}

/// The lines of `s`. A line ends at a line feed, which is not part of it,
/// and neither is a carriage return directly before that line feed. What
/// follows the last line feed is a line of its own unless it is empty.
pub open spec fn lines_of(s: Seq<char>) -> Seq<Seq<char>>
    decreases s.len(),
{
    let k = find(s, '\n');
    if s.len() == 0 {
        Seq::empty()
    } else if 0 <= k < s.len() {
        seq![strip_cr(s.take(k))] + lines_of(s.skip(k + 1))
    } else {
        seq![s]
    }
}

/// The lower-case form of a text under Unicode's case mapping, as
/// `str::to_lowercase` computes it.
pub uninterp spec fn lowercase(s: Seq<char>) -> Seq<char>;

/// What each of `items` stands for, in the same order.
pub open spec fn views<T: View>(items: Seq<T>) -> Seq<T::V> {
    Seq::new(items.len(), |i: int| items[i]@)
}

/// `find` is the one position before which no `sep` stands and at which
/// one does, or the text ends.
pub proof fn lemma_find(s: Seq<char>, sep: char, k: int)
    requires
        0 <= k <= s.len(),
        forall|i: int| 0 <= i < k ==> s[i] != sep,
        k < s.len() ==> s[k] == sep,
    ensures
        find(s, sep) == k,
    decreases s.len(),
{
    if s.len() == 0 || s[0] == sep {
    } else {
        lemma_find(s.drop_first(), sep, k - 1);
    }
}

/// `str::to_lowercase` of the standard library: a new string that holds the
/// lower-case form of `s`. The mapping follows the Unicode tables, may
/// change the number of characters and looks at the neighbours of a
/// character, so nothing is claimed of the result but that it is the one
/// text `lowercase` stands for.
#[verifier::external_body]
pub(crate) fn to_lowercase(s: &str) -> (lowered: String)
    ensures
        lowered@ == lowercase(s@),
{
    s.to_lowercase()
}

/// The characters of `s`, in order.
pub fn chars_of(s: &str) -> (chars: Vec<char>)
    ensures
        chars@ == s@,
{
    let mut chars: Vec<char> = Vec::new();
    for c in it: s.chars()
        invariant
            it.seq() == s@,
            chars@ == it.seq().take(it.index()),
    {
        chars.push(c);
    }
    chars
}

/// Whether two strings hold the same characters.
pub fn same_text(a: &str, b: &str) -> (same: bool)
    ensures
        same == (a@ == b@),
{
    let mut left = a.chars();
    let mut right = b.chars();
    let ghost mut n: int = 0;
    loop
        invariant
            0 <= n <= a@.len(),
            n <= b@.len(),
            left.remaining() == a@.skip(n),
            right.remaining() == b@.skip(n),
            a@.take(n) == b@.take(n),
        decreases a@.len() - n,
    {
        let x = left.next();
        let y = right.next();
        match (x, y) {
            (Some(p), Some(q)) => {
                if p != q {
                    assert(a@[n] != b@[n]);
                    return false;
                }
                proof {
                    assert(a@.take(n + 1) == a@.take(n).push(a@[n]));
                    assert(b@.take(n + 1) == b@.take(n).push(b@[n]));
                    n = n + 1;
                }
            },
            (None, None) => {
                assert(a@ == a@.take(n));
                assert(b@ == b@.take(n));
                return true;
            },
            _ => {
                assert(a@.len() != b@.len());
                return false;
            },
        }
    }
}

/// `first` followed by `second`.
pub fn joined(first: &str, second: &str) -> (text: String)
    ensures
        text@ == first@ + second@,
{
    let mut text = String::from_str(first);
    text.append(second);
    text
}

/// Among the bytes that encode `chars`, the byte of an ASCII character
/// that `chars` holds.
proof fn lemma_ascii_char_has_its_byte(chars: Seq<char>, i: int) -> (j: int)
    requires
        0 <= i < chars.len(),
        (chars[i] as u32) < 0x80,
    ensures
        0 <= j < encode_utf8(chars).len(),
        encode_utf8(chars)[j] == chars[i] as u32,
    decreases chars.len(),
{
    let first = encode_scalar(chars[0] as u32);
    if i == 0 {
        let scalar = chars[0] as u32;
        assert(scalar & 0x7F == scalar) by (bit_vector)
            requires
                scalar < 0x80,
        ;
        assert(first[0] == scalar);
        0
    } else {
        let rest = chars.drop_first();
        let k = lemma_ascii_char_has_its_byte(rest, i - 1);
        assert(encode_utf8(chars)[first.len() + k] == encode_utf8(rest)[k]);
        first.len() + k
    }
}

/// The characters of a text whose encoding starts with an ASCII byte:
/// the character of that byte, then what the other bytes encode.
proof fn lemma_ascii_byte_in_front(chars: Seq<char>)
    requires
        encode_utf8(chars).len() > 0,
        encode_utf8(chars)[0] < 0x80,
    ensures
        chars.len() > 0,
        chars[0] as u32 == encode_utf8(chars)[0],
        is_char_boundary(encode_utf8(chars), 1),
        decode_utf8(encode_utf8(chars).subrange(1, encode_utf8(chars).len() as int))
            == chars.drop_first(),
{
    let bytes = encode_utf8(chars);
    let byte = bytes[0];
    encode_utf8_valid_utf8(chars);
    encode_utf8_first_scalar(chars);
    assert(is_leading_byte_width_1(byte));
    assert(length_of_first_scalar(bytes) == 1);
    assert(decode_first_scalar(bytes) == (byte & 0x7F) as u32);
    assert(byte & 0x7F == byte) by (bit_vector)
        requires
            byte < 0x80,
    ;
    assert(pop_first_scalar(bytes) == bytes.subrange(1, bytes.len() as int));
    assert(pop_first_scalar(bytes) =~= encode_utf8(chars.drop_first()));
    encode_utf8_decode_utf8(chars.drop_first());
    reveal_with_fuel(is_char_boundary, 2);
}

/// `cut` for a separator that is an ASCII character, which is found among
/// the bytes of `s`.
fn cut_at_byte<'a>(s: &'a str, sep: char) -> (parts: Option<(&'a str, &'a str)>)
    requires
        (sep as u32) < 0x80,
    ensures
        match parts {
            Some((head, tail)) => {
                &&& 0 <= find(s@, sep) < s@.len()
                &&& head@ == s@.take(find(s@, sep))
                &&& tail@ == s@.skip(find(s@, sep) + 1)
            },
            None => find(s@, sep) == s@.len(),
        },
{
    let byte: u8 = sep as u8;
    let bytes = s.as_bytes();
    proof {
        encode_utf8_valid_utf8(s@);
    }
    let mut i: usize = 0;
    while i < bytes.len()
        invariant
            i <= bytes.len(),
            bytes@ == encode_utf8(s@),
            valid_utf8(bytes@),
            byte == sep as u32,
            byte < 0x80,
            forall|j: int| 0 <= j < i ==> bytes@[j] != byte,
        decreases bytes.len() - i,
    {
        if bytes[i] == byte {
            proof {
                is_char_boundary_iff_not_is_continuation_byte(bytes@, i as int);
            }
            let (head, rest) = s.split_at(i);
            proof {
                encode_utf8_valid_utf8(head@);
                encode_utf8_valid_utf8(rest@);
                decode_utf8_split(bytes@, i as int);
                encode_utf8_decode_utf8(s@);
                encode_utf8_decode_utf8(head@);
                encode_utf8_decode_utf8(rest@);
                assert(s@ =~= head@ + rest@);
                assert(encode_utf8(rest@)[0] == byte);
                lemma_ascii_byte_in_front(rest@);
            }
            let (_, tail) = rest.split_at(1);
            proof {
                encode_utf8_decode_utf8(tail@);
                assert(tail@ == rest@.drop_first());
                let k = head@.len() as int;
                assert forall|j: int| 0 <= j < k implies s@[j] != sep by {
                    if s@[j] == sep {
                        let at = lemma_ascii_char_has_its_byte(head@, j);
                        assert(encode_utf8(head@)[at] == bytes@[at]);
                    }
                }
                assert(s@[k] == rest@[0]);
                lemma_find(s@, sep, k);
                assert(head@ =~= s@.take(k));
                assert(tail@ =~= s@.skip(k + 1));
            }
            return Some((head, tail));
        }
        i += 1;
    }
    proof {
        assert forall|j: int| 0 <= j < s@.len() implies s@[j] != sep by {
            if s@[j] == sep {
                lemma_ascii_char_has_its_byte(s@, j);
            }
        }
        lemma_find(s@, sep, s@.len() as int);
    }
    None
}

/// `cut` for any separator, which is found among the characters of `s`.
fn cut_at_char<'a>(s: &'a str, sep: char) -> (parts: Option<(&'a str, &'a str)>)
    ensures
        match parts {
            Some((head, tail)) => {
                &&& 0 <= find(s@, sep) < s@.len()
                &&& head@ == s@.take(find(s@, sep))
                &&& tail@ == s@.skip(find(s@, sep) + 1)
            },
            None => find(s@, sep) == s@.len(),
        },
{
    let chars = chars_of(s);
    let mut i: usize = 0;
    while i < chars.len()
        invariant
            i <= chars.len(),
            chars@ == s@,
            forall|j: int| 0 <= j < i ==> s@[j] != sep,
        decreases chars.len() - i,
    {
        if chars[i] == sep {
            proof {
                lemma_find(s@, sep, i as int);
            }
            let head = s.substring_char(0, i);
            let tail = s.substring_char(i + 1, chars.len());
            return Some((head, tail));
        }
        i += 1;
    }
    proof {
        lemma_find(s@, sep, i as int);
    }
    None
}

/// Cuts `s` at its first `sep`: the text before it and the text after it,
/// or nothing where `s` holds no `sep`.
pub fn cut<'a>(s: &'a str, sep: char) -> (parts: Option<(&'a str, &'a str)>)
    ensures
        match parts {
            Some((head, tail)) => {
                &&& 0 <= find(s@, sep) < s@.len()
                &&& head@ == s@.take(find(s@, sep))
                &&& tail@ == s@.skip(find(s@, sep) + 1)
            },
            None => find(s@, sep) == s@.len(),
        },
{
    if (sep as u32) < 0x80 {
        cut_at_byte(s, sep)
    } else {
        cut_at_char(s, sep)
    }
}

/// Splits `s` at every `sep`.
pub fn split<'a>(s: &'a str, sep: char) -> (parts: Vec<&'a str>)
    ensures
        views(parts@) == pieces(s@, sep),
{
    let mut parts: Vec<&'a str> = Vec::new();
    let mut rest: &'a str = s;
    loop
        invariant
            pieces(s@, sep) == views(parts@) + pieces(rest@, sep),
        decreases rest@.len(),
    {
        match cut(rest, sep) {
            Some((head, tail)) => {
                proof {
                    assert(views(parts@.push(head)) == views(parts@) + seq![head@]);
                }
                parts.push(head);
                rest = tail;
            },
            None => {
                proof {
                    assert(views(parts@.push(rest)) == views(parts@) + seq![rest@]);
                }
                parts.push(rest);
                return parts;
            },
        }
    }
}

/// Removes the white space at both ends of `s`.
pub fn trim<'a>(s: &'a str) -> (inner: &'a str)
    ensures
        inner@ == trimmed(s@),
{
    let chars = chars_of(s);
    let mut from: usize = 0;
    proof {
        assert(s@.skip(0) == s@);
    }
    while from < chars.len() && is_whitespace(chars[from])
        invariant
            from <= chars.len(),
            chars@ == s@,
            trim_start(s@) == trim_start(s@.skip(from as int)),
        decreases chars.len() - from,
    {
        proof {
            assert(s@.skip(from as int).drop_first() == s@.skip(from + 1));
        }
        from += 1;
    }
    let mut to: usize = chars.len();
    while to > from && is_whitespace(chars[to - 1])
        invariant
            from <= to <= chars.len(),
            chars@ == s@,
            trim_end(s@.skip(from as int)) == trim_end(s@.subrange(from as int, to as int)),
        decreases to,
    {
        proof {
            assert(s@.subrange(from as int, to as int).drop_last() == s@.subrange(
                from as int,
                to - 1,
            ));
        }
        to -= 1;
    }
    proof {
        assert(s@.skip(from as int) == s@.subrange(from as int, s@.len() as int));
    }
    s.substring_char(from, to)
}

/// Whether `needle` occurs in `hay`.
pub fn contains(hay: &str, needle: &str) -> (found: bool)
    ensures
        found == has_substring(hay@, needle@),
{
    let text = chars_of(hay);
    let word = chars_of(needle);
    if word.len() > text.len() {
        return false;
    }
    let last: usize = text.len() - word.len();
    let mut i: usize = 0;
    while i <= last
        invariant
            i <= last + 1,
            last == text.len() - word.len(),
            text@ == hay@,
            word@ == needle@,
            forall|k: int| 0 <= k < i ==> !occurs_at(hay@, needle@, k),
        decreases last + 1 - i,
    {
        let mut j: usize = 0;
        while j < word.len() && text[i + j] == word[j]
            invariant
                j <= word.len(),
                i + word.len() <= text.len(),
                text@ == hay@,
                word@ == needle@,
                forall|k: int| 0 <= k < j ==> hay@[i + k] == needle@[k],
            decreases word.len() - j,
        {
            j += 1;
        }
        if j == word.len() {
            assert(hay@.subrange(i as int, i + needle@.len()) == needle@);
            assert(occurs_at(hay@, needle@, i as int));
            return true;
        }
        assert(!occurs_at(hay@, needle@, i as int)) by {
            if occurs_at(hay@, needle@, i as int) {
                assert(hay@.subrange(i as int, i + needle@.len())[j as int] == needle@[j as int]);
            }
        }
        i += 1;
    }
    false
}

/// Removes one carriage return from the end of `line`, if there is one.
pub fn strip_carriage_return<'a>(line: &'a str) -> (stripped: &'a str)
    ensures
        stripped@ == strip_cr(line@),
{
    let chars = chars_of(line);
    let n = chars.len();
    if n > 0 && chars[n - 1] == '\r' {
        line.substring_char(0, n - 1)
    } else {
        line
    }
}

/// The lines of `s`, without their line endings.
pub fn lines<'a>(s: &'a str) -> (found: Vec<&'a str>)
    ensures
        views(found@) == lines_of(s@),
{
    let mut found: Vec<&'a str> = Vec::new();
    let mut rest: &'a str = s;
    loop
        invariant
            lines_of(s@) == views(found@) + lines_of(rest@),
        decreases rest@.len(),
    {
        if rest.is_empty() {
            return found;
        }
        match cut(rest, '\n') {
            Some((head, tail)) => {
                let line = strip_carriage_return(head);
                proof {
                    assert(views(found@.push(line)) == views(found@) + seq![line@]);
                }
                found.push(line);
                rest = tail;
            },
            None => {
                proof {
                    assert(views(found@.push(rest)) == views(found@) + seq![rest@]);
                }
                found.push(rest);
                return found;
            },
        }
    }
}

} // verus!
