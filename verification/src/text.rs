//! Text helpers: slicing a string by byte offsets, decimal numerals, and
//! splitting at the first `=`.

use vstd::prelude::*;
use vstd::std_specs::iter::IteratorSpec;
use vstd::string::*;
use vstd::utf8::*;

verus! {

/// The views of a sequence of strings.
pub open spec fn texts(strings: Seq<String>) -> Seq<Seq<char>> {
    strings.map_values(|s: String| s@)
}

/// The bytes of `text` in UTF-8.
pub open spec fn bytes_of(text: Seq<char>) -> Seq<u8> {
    encode_utf8(text)
}

/// `at` is a byte offset into `text` that does not fall inside a character.
pub open spec fn on_boundary(text: Seq<char>, at: int) -> bool {
    0 <= at <= bytes_of(text).len() && is_char_boundary(bytes_of(text), at)
}

/// The part of `text` that occupies the bytes `from..to`.
pub open spec fn slice_text(text: Seq<char>, from: int, to: int) -> Seq<char> {
    decode_utf8(bytes_of(text).subrange(from, to))
}

/// The start and the end of a text are boundaries.
pub proof fn lemma_ends_on_boundary(text: Seq<char>)
    ensures
        on_boundary(text, 0),
        on_boundary(text, bytes_of(text).len() as int),
{
    encode_utf8_valid_utf8(text);
    is_char_boundary_start_end_of_seq(bytes_of(text));
}

/// The length of `text` in bytes.
pub fn byte_len(text: &str) -> (n: usize)
    ensures
        n == bytes_of(text@).len(),
{
    text.as_bytes().len()
}

/// A boundary of a text is also a boundary of each prefix that reaches it.
proof fn lemma_boundary_in_prefix(bytes: Seq<u8>, from: int, to: int)
    requires
        valid_utf8(bytes),
        0 <= from <= to <= bytes.len(),
        is_char_boundary(bytes, from),
        is_char_boundary(bytes, to),
    ensures
        valid_utf8(bytes.subrange(0, to)),
        is_char_boundary(bytes.subrange(0, to), from),
{
    let head = bytes.subrange(0, to);
    valid_utf8_split(bytes, to);
    if from == to {
        is_char_boundary_start_end_of_seq(head);
    } else {
        is_char_boundary_iff_not_is_continuation_byte(bytes, from);
        is_char_boundary_iff_not_is_continuation_byte(head, from);
    }
}

/// Two slices that meet make up the slice that spans both.
pub proof fn lemma_slice_join(text: Seq<char>, from: int, mid: int, to: int)
    requires
        from <= mid <= to,
        on_boundary(text, from),
        on_boundary(text, mid),
        on_boundary(text, to),
    ensures
        slice_text(text, from, mid) + slice_text(text, mid, to) == slice_text(text, from, to),
{
    let bytes = bytes_of(text);
    encode_utf8_valid_utf8(text);
    let head = bytes.subrange(0, to);
    lemma_boundary_in_prefix(bytes, from, to);
    valid_utf8_split(head, from);
    let part = bytes.subrange(from, to);
    assert(head.subrange(from, head.len() as int) =~= part);
    if mid == to {
        is_char_boundary_start_end_of_seq(part);
    } else if mid > from {
        is_char_boundary_iff_not_is_continuation_byte(bytes, mid);
        is_char_boundary_iff_not_is_continuation_byte(part, mid - from);
    }
    decode_utf8_split(part, mid - from);
    assert(part.subrange(0, mid - from) =~= bytes.subrange(from, mid));
    assert(part.subrange(mid - from, part.len() as int) =~= bytes.subrange(mid, to));
}

/// The slice from the start of a text to its end is the text.
pub proof fn lemma_slice_whole(text: Seq<char>)
    ensures
        slice_text(text, 0, bytes_of(text).len() as int) == text,
{
    encode_utf8_decode_utf8(text);
    assert(bytes_of(text).subrange(0, bytes_of(text).len() as int) =~= bytes_of(text));
}

/// A slice that ends where it begins is empty.
pub proof fn lemma_slice_empty(text: Seq<char>, at: int)
    requires
        0 <= at <= bytes_of(text).len(),
    ensures
        slice_text(text, at, at) == Seq::<char>::empty(),
{
    assert(bytes_of(text).subrange(at, at) =~= Seq::<u8>::empty());
    assert(decode_utf8(Seq::<u8>::empty()) =~= Seq::<char>::empty());
}

/// The substring of `text` between two byte offsets.
pub fn substr<'a>(text: &'a str, from: usize, to: usize) -> (piece: &'a str)
    requires
        from <= to,
        on_boundary(text@, from as int),
        on_boundary(text@, to as int),
    ensures
        piece@ == slice_text(text@, from as int, to as int),
{
    broadcast use encode_utf8_valid_utf8, encode_utf8_decode_utf8;

    let ghost bytes = text.spec_bytes();
    let (head, _) = text.split_at(to);
    proof {
        lemma_boundary_in_prefix(bytes, from as int, to as int);
    }
    let (_, piece) = head.split_at(from);
    assert(piece.spec_bytes() =~= bytes.subrange(from as int, to as int));
    piece
}

/// The decimal digit `d`, for `d` below ten.
pub open spec fn digit(d: nat) -> char {
    if d == 0 {
        '0'
    } else if d == 1 {
        '1'
    } else if d == 2 {
        '2'
    } else if d == 3 {
        '3'
    } else if d == 4 {
        '4'
    } else if d == 5 {
        '5'
    } else if d == 6 {
        '6'
    } else if d == 7 {
        '7'
    } else if d == 8 {
        '8'
    } else {
        '9'
    }
}

/// The decimal numeral of `n`, without leading zeros.
pub open spec fn decimal(n: nat) -> Seq<char>
    decreases n,
{
    if n < 10 {
        seq![digit(n)]
    } else {
        decimal(n / 10).push(digit(n % 10))
    }
}

fn digit_str(d: u128) -> (s: &'static str)
    requires
        d < 10,
    ensures
        s@ == seq![digit(d as nat)],
{
    proof {
        reveal_strlit("0");
        reveal_strlit("1");
        reveal_strlit("2");
        reveal_strlit("3");
        reveal_strlit("4");
        reveal_strlit("5");
        reveal_strlit("6");
        reveal_strlit("7");
        reveal_strlit("8");
        reveal_strlit("9");
    }
    let s = if d == 0 {
        "0"
    } else if d == 1 {
        "1"
    } else if d == 2 {
        "2"
    } else if d == 3 {
        "3"
    } else if d == 4 {
        "4"
    } else if d == 5 {
        "5"
    } else if d == 6 {
        "6"
    } else if d == 7 {
        "7"
    } else if d == 8 {
        "8"
    } else {
        "9"
    };
    assert(s@ =~= seq![digit(d as nat)]);
    s
}

/// Appends the decimal numeral of `n` to `out`.
pub fn push_decimal(out: &mut String, n: u128)
    ensures
        final(out)@ == old(out)@ + decimal(n as nat),
    decreases n,
{
    if n >= 10 {
        push_decimal(out, n / 10);
    }
    out.append(digit_str(n % 10));
    assert(out@ =~= old(out)@ + decimal(n as nat));
}

/// The number of characters of `text` before its first `=`, and its
/// length where it holds none.
pub open spec fn eq_index(text: Seq<char>) -> int
    decreases text.len(),
{
    if text.len() == 0 || text[0] == '=' {
        0
    } else {
        1 + eq_index(text.drop_first())
    }
}

/// `text` holds a `=`.
pub open spec fn has_separator(text: Seq<char>) -> bool {
    eq_index(text) < text.len()
}

/// What stands before the first `=` of `text`.
pub open spec fn name_part(text: Seq<char>) -> Seq<char> {
    text.take(eq_index(text))
}

/// What stands behind the first `=` of `text`.
pub open spec fn regex_part(text: Seq<char>) -> Seq<char> {
    text.skip(eq_index(text) + 1)
}

/// `eq_index` is the one position that has no `=` before it and either
/// holds a `=` or is the end of the text.
pub proof fn lemma_eq_index(text: Seq<char>, at: int)
    requires
        0 <= at <= text.len(),
        forall|j: int| 0 <= j < at ==> text[j] != '=',
        at < text.len() ==> text[at] == '=',
    ensures
        eq_index(text) == at,
    decreases at,
{
    if at > 0 {
        let rest = text.drop_first();
        assert forall|j: int| 0 <= j < at - 1 implies rest[j] != '=' by {
            assert(rest[j] == text[j + 1]);
        }
        lemma_eq_index(rest, at - 1);
    }
}

/// Splits `item` at its first `=` into what stands before it and what
/// stands behind it; `None` where `item` holds no `=`.
pub fn split_pattern(item: &str) -> (r: Option<(String, String)>)
    ensures
        r is Some <==> has_separator(item@),
        r matches Some((name, regex)) ==> name@ == name_part(item@) && regex@ == regex_part(item@),
{
    broadcast use group_string_axioms;

    let n = item.unicode_len();
    let mut rest = item.chars();
    let mut i: usize = 0;
    while i < n
        invariant
            i <= n,
            n == item@.len(),
            rest.remaining() == item@.skip(i as int),
            forall|j: int| 0 <= j < i ==> item@[j] != '=',
        decreases n - i,
    {
        let next = rest.next();
        assert(next == Some(item@[i as int]));
        if next == Some('=') {
            proof {
                lemma_eq_index(item@, i as int);
            }
            let name = item.substring_char(0, i);
            let regex = item.substring_char(i + 1, n);
            return Some((String::from_str(name), String::from_str(regex)));
        }
        assert(item@.skip(i as int).drop_first() =~= item@.skip(i + 1));
        i += 1;
    }
    proof {
        lemma_eq_index(item@, n as int);
    }
    None
}

} // verus!
