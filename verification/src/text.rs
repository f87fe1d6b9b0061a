//! Text operations on sequences of characters.
//!
//! The status listing of the deployment tool, the origin file of a
//! deployment, the lines of a package description and the labels of an
//! image are all plain text that is cut into lines, fields and tokens.
//! Each operation here has a specification over `Seq<char>` and an
//! executable function on `&str` that is proved to compute it.

use vstd::prelude::*;
use vstd::slice::{slice_subrange, slice_to_vec};
use vstd::string::*;
use crate::name_set::views;

verus! {

/// White space as Unicode defines it (the property `White_Space`).
pub open spec fn is_space(c: char) -> bool {
    let u = c as u32;
    ||| 0x09 <= u <= 0x0d
    ||| u == 0x20
    ||| u == 0x85
    ||| u == 0xa0
    ||| u == 0x1680
    ||| 0x2000 <= u <= 0x200a
    ||| u == 0x2028
    ||| u == 0x2029
    ||| u == 0x202f
    ||| u == 0x205f
    ||| u == 0x3000
}

/// A class of characters to trim: white space, or one given character.
pub open spec fn in_class(c: char, class: Option<char>) -> bool {
    match class {
        None => is_space(c),
        Some(x) => c == x,
    }
}

/// The first place at or after `i` whose character is not in `class`
/// (the length of `s` if there is none).
pub open spec fn lead(s: Seq<char>, class: Option<char>, i: int) -> int
    decreases s.len() - i,
{
    if 0 <= i < s.len() && in_class(s[i], class) {
        lead(s, class, i + 1)
    } else {
        i
    }
}

/// The least end `j' <= j` such that no character of `class` stands
/// directly before it, but not below `lo`.
pub open spec fn trail(s: Seq<char>, class: Option<char>, lo: int, j: int) -> int
    decreases j,
{
    if lo < j <= s.len() && j > 0 && in_class(s[j - 1], class) {
        trail(s, class, lo, j - 1)
    } else {
        j
    }
}

/// `s` without the characters of `class` at its start.
pub open spec fn trimmed_start(s: Seq<char>, class: Option<char>) -> Seq<char> {
    s.subrange(lead(s, class, 0), s.len() as int)
}

/// `s` without the characters of `class` at its start and at its end.
pub open spec fn trimmed(s: Seq<char>, class: Option<char>) -> Seq<char> {
    let a = lead(s, class, 0);
    s.subrange(a, trail(s, class, a, s.len() as int))
}

/// The pieces of `s` between the occurrences of `sep`, scanning at `i`
/// with the current piece begun at `start`. With `n` separators there are
/// `n + 1` pieces, empty ones included.
pub open spec fn split_at<T>(s: Seq<T>, sep: T, start: int, i: int) -> Seq<Seq<T>>
    decreases s.len() - i,
{
    if i < 0 || i >= s.len() {
        seq![s.subrange(start, s.len() as int)]
    } else if s[i] == sep {
        seq![s.subrange(start, i)] + split_at(s, sep, i + 1, i + 1)
    } else {
        split_at(s, sep, start, i + 1)
    }
}

/// The pieces of `s` between the occurrences of `sep`.
pub open spec fn split<T>(s: Seq<T>, sep: T) -> Seq<Seq<T>> {
    split_at(s, sep, 0, 0)
}

/// A piece that a line feed ended loses one carriage return before it.
pub open spec fn without_return<T>(piece: Seq<T>, cr: T) -> Seq<T> {
    if piece.len() > 0 && piece.last() == cr {
        piece.drop_last()
    } else {
        piece
    }
}

/// All pieces but the last, each without a carriage return at its end.
pub open spec fn ended_lines<T>(pieces: Seq<Seq<T>>, cr: T) -> Seq<Seq<T>> {
    Seq::new((pieces.len() - 1) as nat, |i: int| without_return(pieces[i], cr))
}

/// The lines of a text: its pieces between line feeds, each ended piece
/// without a carriage return before the line feed; what follows the last
/// line feed is a line only if it is not empty.
pub open spec fn lines<T>(s: Seq<T>, nl: T, cr: T) -> Seq<Seq<T>> {
    let pieces = split(s, nl);
    let ended = ended_lines(pieces, cr);
    if pieces.last().len() == 0 {
        ended
    } else {
        ended.push(pieces.last())
    }
}

/// The lines of a text of characters.
pub open spec fn text_lines(s: Seq<char>) -> Seq<Seq<char>> {
    lines(s, '\n', '\r')
}

/// The maximal runs of characters that are not white space, scanning at
/// `i` with the current run begun at `start`.
pub open spec fn tokens_at(s: Seq<char>, start: int, i: int) -> Seq<Seq<char>>
    decreases s.len() - i,
{
    let run = if start < i {
        seq![s.subrange(start, i)]
    } else {
        Seq::<Seq<char>>::empty()
    };
    if i < 0 || i >= s.len() {
        run
    } else if is_space(s[i]) {
        run + tokens_at(s, i + 1, i + 1)
    } else {
        tokens_at(s, start, i + 1)
    }
}

/// The words of `s`: its maximal runs of characters that are not white space.
pub open spec fn tokens(s: Seq<char>) -> Seq<Seq<char>> {
    tokens_at(s, 0, 0)
}

/// The first `n` names joined, `sep` between each two.
pub open spec fn joined_upto(names: Seq<Seq<char>>, sep: Seq<char>, n: int) -> Seq<char>
    decreases n,
{
    if n <= 0 {
        Seq::<char>::empty()
    } else if n == 1 {
        names[0]
    } else {
        joined_upto(names, sep, n - 1) + sep + names[n - 1]
    }
}

/// The names joined, `sep` between each two.
pub open spec fn joined(names: Seq<Seq<char>>, sep: Seq<char>) -> Seq<char> {
    joined_upto(names, sep, names.len() as int)
}

/// `s` begins with `prefix`.
pub open spec fn has_prefix(s: Seq<char>, prefix: Seq<char>) -> bool {
    prefix.len() <= s.len() && s.subrange(0, prefix.len() as int) == prefix
}

/// `needle` occurs in `s` at place `i`.
pub open spec fn occurs_at(s: Seq<char>, needle: Seq<char>, i: int) -> bool {
    0 <= i && i + needle.len() <= s.len() && s.subrange(i, i + needle.len()) == needle
}

/// `needle` occurs somewhere in `s`.
pub open spec fn has_infix(s: Seq<char>, needle: Seq<char>) -> bool {
    exists|i: int| occurs_at(s, needle, i)
}

/// A decimal digit.
pub open spec fn is_digit(c: char) -> bool {
    0x30 <= c as u32 <= 0x39
}

/// The number that the first `n` characters of `s` write in decimal, if
/// they are all digits.
pub open spec fn digits_value(s: Seq<char>, n: int) -> Option<int>
    decreases n,
{
    if n <= 0 {
        Some(0int)
    } else {
        match digits_value(s, n - 1) {
            Some(v) => if n <= s.len() && is_digit(s[n - 1]) {
                Some(v * 10 + (s[n - 1] as u32 - 0x30))
            } else {
                None
            },
            None => None,
        }
    }
}

/// The number that `s` writes: an optional `+`, then one or more decimal
/// digits, and a value that fits 64 bits. Anything else writes no number.
pub open spec fn decimal_u64(s: Seq<char>) -> Option<u64> {
    let d = if s.len() > 0 && s[0] == '+' {
        s.subrange(1, s.len() as int)
    } else {
        s
    };
    if d.len() == 0 {
        None
    } else {
        match digits_value(d, d.len() as int) {
            Some(v) => if v <= u64::MAX {
                Some(v as u64)
            } else {
                None
            },
            None => None,
        }
    }
}

/// The value of a longer run of digits is not below that of a prefix of it.
pub proof fn lemma_digits_value_grows(s: Seq<char>, n: int, m: int)
    requires
        0 <= n <= m,
        digits_value(s, m) is Some,
    ensures
        digits_value(s, n) is Some,
        0 <= digits_value(s, n)->0 <= digits_value(s, m)->0,
    decreases m,
{
    if m > 0 {
        if n < m {
            lemma_digits_value_grows(s, n, m - 1);
        } else {
            lemma_digits_value_grows(s, n - 1, m - 1);
        }
    }
}

/// The views of a vector of byte strings.
pub open spec fn byte_views(v: Seq<Vec<u8>>) -> Seq<Seq<u8>> {
    Seq::new(v.len(), |i: int| v[i]@)
}

/// The lines of a text of bytes: line feed is byte 10, carriage return byte 13.
pub open spec fn byte_lines(bytes: Seq<u8>) -> Seq<Seq<u8>> {
    lines(bytes, 10u8, 13u8)
}

/// Decodes UTF-8 with `core::str::from_utf8`. Trusted: the bytes decode
/// exactly if they are valid UTF-8, and then to the characters that they
/// encode.
#[verifier::external_body]
pub(crate) fn decode_text(bytes: &[u8]) -> (r: Option<String>)
    ensures
        r is Some <==> vstd::utf8::valid_utf8(bytes@),
        r matches Some(s) ==> s@ == vstd::utf8::decode_utf8(bytes@),
{
    match core::str::from_utf8(bytes) {
        Ok(s) => Some(s.to_owned()),
        Err(_) => None,
    }
}

/// The pieces of `bytes` between the occurrences of `sep`.
pub fn split_bytes(bytes: &[u8], sep: u8) -> (pieces: Vec<Vec<u8>>)
    ensures
        byte_views(pieces@) == split(bytes@, sep),
        pieces.len() >= 1,
{
    let mut pieces: Vec<Vec<u8>> = Vec::new();
    let mut start: usize = 0;
    let mut i: usize = 0;
    while i < bytes.len()
        invariant
            start <= i <= bytes.len(),
            split(bytes@, sep) == byte_views(pieces@) + split_at(bytes@, sep, start as int, i as int),
        decreases bytes.len() - i,
    {
        if bytes[i] == sep {
            let piece = slice_to_vec(slice_subrange(bytes, start, i));
            proof {
                assert(byte_views(pieces@.push(piece)) =~= byte_views(pieces@).push(piece@));
                assert(byte_views(pieces@).push(piece@) + split_at(bytes@, sep, i + 1, i + 1)
                    =~= byte_views(pieces@) + (seq![piece@] + split_at(bytes@, sep, i + 1, i + 1)));
            }
            pieces.push(piece);
            start = i + 1;
        }
        i += 1;
    }
    let piece = slice_to_vec(slice_subrange(bytes, start, bytes.len()));
    proof {
        assert(byte_views(pieces@.push(piece)) =~= byte_views(pieces@) + seq![piece@]);
    }
    pieces.push(piece);
    pieces
}

/// The lines of a text of bytes.
pub fn lines_of_bytes(bytes: &[u8]) -> (r: Vec<Vec<u8>>)
    ensures
        byte_views(r@) == byte_lines(bytes@),
{
    let mut pieces = split_bytes(bytes, 10u8);
    let ghost ps = split(bytes@, 10u8);
    let n = pieces.len();
    let last = pieces.pop().unwrap();
    assert(last@ == ps.last());
    assert(byte_views(pieces@) =~= ps.drop_last());
    let mut i: usize = 0;
    while i < pieces.len()
        invariant
            i <= pieces.len(),
            pieces.len() == ps.len() - 1,
            forall|k: int| 0 <= k < i ==> (#[trigger] pieces@[k])@ == without_return(ps[k], 13u8),
            forall|k: int| i <= k < pieces.len() ==> (#[trigger] pieces@[k])@ == ps[k],
        decreases pieces.len() - i,
    {
        let len = pieces[i].len();
        if len > 0 && pieces[i][len - 1] == 13u8 {
            pieces[i].pop();
            assert(pieces@[i as int]@ =~= without_return(ps[i as int], 13u8));
        }
        i += 1;
    }
    assert(byte_views(pieces@) =~= ended_lines(ps, 13u8));
    if last.len() > 0 {
        proof {
            assert(byte_views(pieces@.push(last)) =~= byte_views(pieces@).push(last@));
        }
        pieces.push(last);
    }
    pieces
}

/// Whether `c` is white space.
pub fn char_is_space(c: char) -> (b: bool)
    ensures
        b == is_space(c),
{
    let u: u32 = c as u32;
    (0x09 <= u && u <= 0x0d) || u == 0x20 || u == 0x85 || u == 0xa0 || u == 0x1680 || (0x2000 <= u
        && u <= 0x200a) || u == 0x2028 || u == 0x2029 || u == 0x202f || u == 0x205f || u == 0x3000
}

fn char_in_class(c: char, class: Option<char>) -> (b: bool)
    ensures
        b == in_class(c, class),
{
    match class {
        None => char_is_space(c),
        Some(x) => c == x,
    }
}

/// The characters of a string.
pub fn chars_of(s: &str) -> (v: Vec<char>)
    ensures
        v@ == s@,
{
    let mut v: Vec<char> = Vec::new();
    for c in it: s.chars()
        invariant
            v@ == it.seq().take(it.index() as int),
            it.seq() == s@,
    {
        v.push(c);
    }
    v
}

fn lead_index(cs: &Vec<char>, class: Option<char>) -> (a: usize)
    ensures
        a == lead(cs@, class, 0),
        a <= cs.len(),
{
    let mut a: usize = 0;
    while a < cs.len() && char_in_class(cs[a], class)
        invariant
            a <= cs.len(),
            lead(cs@, class, 0) == lead(cs@, class, a as int),
        decreases cs.len() - a,
    {
        a += 1;
    }
    a
}

fn trail_index(cs: &Vec<char>, class: Option<char>, lo: usize) -> (b: usize)
    requires
        lo <= cs.len(),
    ensures
        b == trail(cs@, class, lo as int, cs.len() as int),
        lo <= b <= cs.len(),
{
    let mut b: usize = cs.len();
    while lo < b && char_in_class(cs[b - 1], class)
        invariant
            lo <= b <= cs.len(),
            trail(cs@, class, lo as int, cs.len() as int) == trail(cs@, class, lo as int, b as int),
        decreases b,
    {
        b -= 1;
    }
    b
}

fn trim_class(s: &str, class: Option<char>, both: bool) -> (r: String)
    ensures
        both ==> r@ == trimmed(s@, class),
        !both ==> r@ == trimmed_start(s@, class),
{
    let cs = chars_of(s);
    let a = lead_index(&cs, class);
    let b = if both {
        trail_index(&cs, class, a)
    } else {
        cs.len()
    };
    s.substring_char(a, b).to_owned()
}

/// `s` without the white space at its start and at its end.
pub fn trim(s: &str) -> (r: String)
    ensures
        r@ == trimmed(s@, None),
{
    trim_class(s, None, true)
}

/// `s` without the run of `c` at its start.
pub fn trim_start_matches(s: &str, c: char) -> (r: String)
    ensures
        r@ == trimmed_start(s@, Some(c)),
{
    trim_class(s, Some(c), false)
}

/// `s` without the runs of `c` at its start and at its end.
pub fn trim_matches(s: &str, c: char) -> (r: String)
    ensures
        r@ == trimmed(s@, Some(c)),
{
    trim_class(s, Some(c), true)
}

/// Whether `s` begins with the character `c`.
pub fn starts_with_char(s: &str, c: char) -> (b: bool)
    ensures
        b == (s@.len() > 0 && s@[0] == c),
{
    let cs = chars_of(s);
    cs.len() > 0 && cs[0] == c
}

/// Whether `s` ends with the character `c`.
pub fn ends_with_char(s: &str, c: char) -> (b: bool)
    ensures
        b == (s@.len() > 0 && s@.last() == c),
{
    let cs = chars_of(s);
    cs.len() > 0 && cs[cs.len() - 1] == c
}

/// The pieces of `s` between the occurrences of `sep`.
pub fn split_on(s: &str, sep: char) -> (pieces: Vec<String>)
    ensures
        views(pieces@) == split(s@, sep),
        pieces.len() >= 1,
{
    let cs = chars_of(s);
    let mut pieces: Vec<String> = Vec::new();
    let mut start: usize = 0;
    let mut i: usize = 0;
    while i < cs.len()
        invariant
            cs@ == s@,
            start <= i <= cs.len(),
            split(s@, sep) == views(pieces@) + split_at(s@, sep, start as int, i as int),
        decreases cs.len() - i,
    {
        if cs[i] == sep {
            let piece = s.substring_char(start, i).to_owned();
            proof {
                assert(views(pieces@.push(piece)) =~= views(pieces@).push(piece@));
                assert(views(pieces@).push(piece@) + split_at(s@, sep, i + 1, i + 1) =~= views(
                    pieces@,
                ) + (seq![piece@] + split_at(s@, sep, i + 1, i + 1)));
            }
            pieces.push(piece);
            start = i + 1;
        }
        i += 1;
    }
    let piece = s.substring_char(start, cs.len()).to_owned();
    proof {
        assert(views(pieces@.push(piece)) =~= views(pieces@) + seq![piece@]);
    }
    pieces.push(piece);
    pieces
}

/// The lines of `s`.
pub fn lines_of(s: &str) -> (r: Vec<String>)
    ensures
        views(r@) == text_lines(s@),
{
    let pieces = split_on(s, '\n');
    let ghost ps = split(s@, '\n');
    let mut r: Vec<String> = Vec::new();
    let n = pieces.len();
    let mut i: usize = 0;
    while i + 1 < n
        invariant
            n == pieces.len(),
            n >= 1,
            i + 1 <= n,
            views(pieces@) == ps,
            views(r@) == ended_lines(ps, '\r').take(i as int),
        decreases n - i,
    {
        let p = &pieces[i];
        assert(p@ == ps[i as int]);
        let line = if ends_with_char(p.as_str(), '\r') {
            let len = p.as_str().unicode_len();
            p.as_str().substring_char(0, len - 1).to_owned()
        } else {
            p.clone()
        };
        proof {
            let ended = ended_lines(ps, '\r');
            assert(line@ =~= without_return(ps[i as int], '\r'));
            assert(ended[i as int] == line@);
            assert(views(r@.push(line)) =~= views(r@).push(line@));
            assert(ended.take(i as int).push(ended[i as int]) =~= ended.take(i + 1));
        }
        r.push(line);
        i += 1;
    }
    proof {
        let ended = ended_lines(ps, '\r');
        assert(ended.take(i as int) =~= ended);
    }
    let last = &pieces[n - 1];
    assert(last@ == ps.last());
    if last.as_str().unicode_len() > 0 {
        let l = last.clone();
        proof {
            assert(views(r@.push(l)) =~= views(r@).push(l@));
        }
        r.push(l);
    }
    r
}

/// The words of `s`.
pub fn split_whitespace(s: &str) -> (words: Vec<String>)
    ensures
        views(words@) == tokens(s@),
{
    let cs = chars_of(s);
    let mut words: Vec<String> = Vec::new();
    let mut start: usize = 0;
    let mut i: usize = 0;
    while i < cs.len()
        invariant
            cs@ == s@,
            start <= i <= cs.len(),
            tokens(s@) == views(words@) + tokens_at(s@, start as int, i as int),
        decreases cs.len() - i,
    {
        if char_is_space(cs[i]) {
            if start < i {
                let word = s.substring_char(start, i).to_owned();
                proof {
                    assert(views(words@.push(word)) =~= views(words@).push(word@));
                    assert(views(words@).push(word@) + tokens_at(s@, i + 1, i + 1) =~= views(
                        words@,
                    ) + (seq![word@] + tokens_at(s@, i + 1, i + 1)));
                }
                words.push(word);
            } else {
                assert(Seq::<Seq<char>>::empty() + tokens_at(s@, i + 1, i + 1) =~= tokens_at(
                    s@,
                    i + 1,
                    i + 1,
                ));
            }
            start = i + 1;
        }
        i += 1;
    }
    if start < i {
        let word = s.substring_char(start, i).to_owned();
        proof {
            assert(views(words@.push(word)) =~= views(words@) + seq![word@]);
        }
        words.push(word);
    } else {
        assert(views(words@) + Seq::<Seq<char>>::empty() =~= views(words@));
    }
    words
}

/// The names joined, `sep` between each two.
pub fn join(names: &Vec<String>, sep: &str) -> (r: String)
    ensures
        r@ == joined(views(names@), sep@),
{
    let mut r = String::new();
    let mut i: usize = 0;
    while i < names.len()
        invariant
            i <= names.len(),
            r@ == joined_upto(views(names@), sep@, i as int),
        decreases names.len() - i,
    {
        if i > 0 {
            r.append(sep);
        }
        r.append(names[i].as_str());
        proof {
            assert(views(names@)[i as int] == names@[i as int]@);
            if i == 0 {
                assert(Seq::<char>::empty() + names@[0]@ =~= names@[0]@);
            }
        }
        i += 1;
    }
    r
}

/// What follows `prefix` in `s`, if `s` begins with it.
pub fn strip_prefix(s: &str, prefix: &str) -> (r: Option<String>)
    ensures
        r is Some <==> has_prefix(s@, prefix@),
        r matches Some(t) ==> t@ == s@.subrange(prefix@.len() as int, s@.len() as int),
{
    let cs = chars_of(s);
    let ps = chars_of(prefix);
    if ps.len() > cs.len() {
        return None;
    }
    let mut i: usize = 0;
    while i < ps.len()
        invariant
            cs@ == s@,
            ps@ == prefix@,
            i <= ps.len() <= cs.len(),
            forall|k: int| 0 <= k < i ==> cs@[k] == ps@[k],
        decreases ps.len() - i,
    {
        if cs[i] != ps[i] {
            proof {
                assert(s@.subrange(0, prefix@.len() as int)[i as int] == s@[i as int]);
            }
            return None;
        }
        i += 1;
    }
    assert(s@.subrange(0, prefix@.len() as int) =~= prefix@);
    Some(s.substring_char(ps.len(), cs.len()).to_owned())
}

/// The first place at or after `i` where `c` stands in `s` (the length
/// of `s` if there is none).
pub open spec fn first_at<T>(s: Seq<T>, c: T, i: int) -> int
    decreases s.len() - i,
{
    if 0 <= i < s.len() && s[i] != c {
        first_at(s, c, i + 1)
    } else {
        i
    }
}

/// What stands before and after the first `c` in `s`, if `c` stands in `s`.
pub open spec fn split_once_at(s: Seq<char>, c: char) -> Option<(Seq<char>, Seq<char>)> {
    let i = first_at(s, c, 0);
    if i < s.len() {
        Some((s.subrange(0, i), s.subrange(i + 1, s.len() as int)))
    } else {
        None
    }
}

/// What stands before and after the first `c` in `s`, if `c` stands in `s`.
pub fn split_once(s: &str, c: char) -> (r: Option<(String, String)>)
    ensures
        r is Some <==> split_once_at(s@, c) is Some,
        r matches Some(p) ==> (p.0@, p.1@) == split_once_at(s@, c)->0,
{
    let cs = chars_of(s);
    let mut i: usize = 0;
    while i < cs.len() && cs[i] != c
        invariant
            cs@ == s@,
            i <= cs.len(),
            first_at(s@, c, 0) == first_at(s@, c, i as int),
        decreases cs.len() - i,
    {
        i += 1;
    }
    if i < cs.len() {
        Some(
            (
                s.substring_char(0, i).to_owned(),
                s.substring_char(i + 1, cs.len()).to_owned(),
            ),
        )
    } else {
        None
    }
}

/// The character of a decimal digit.
pub open spec fn digit_char(d: int) -> char {
    if d == 0 {
        '0'
    } else if d == 1 {
        '1'
    } else if d == 2 {
        '2'
    } else if d == 3 {
        '3'
    } else if d == 4 {
        '4'
    } else if d == 5 {
        '5'
    } else if d == 6 {
        '6'
    } else if d == 7 {
        '7'
    } else if d == 8 {
        '8'
    } else {
        '9'
    }
}

/// A number written in decimal, without leading zeros.
pub open spec fn decimal_digits(n: nat) -> Seq<char>
    decreases n,
{
    if n < 10 {
        seq![digit_char(n as int)]
    } else {
        decimal_digits(n / 10).push(digit_char((n % 10) as int))
    }
}

fn digit_text(d: u64) -> (r: &'static str)
    requires
        d < 10,
    ensures
        r@ == seq![digit_char(d as int)],
{
    proof {
        reveal_strlit("0");
        reveal_strlit("1");
        reveal_strlit("2");
        reveal_strlit("3");
        reveal_strlit("4");
        reveal_strlit("5");
        reveal_strlit("6");
        reveal_strlit("7");
        reveal_strlit("8");
        reveal_strlit("9");
    }
    let r = if d == 0 {
        "0"
    } else if d == 1 {
        "1"
    } else if d == 2 {
        "2"
    } else if d == 3 {
        "3"
    } else if d == 4 {
        "4"
    } else if d == 5 {
        "5"
    } else if d == 6 {
        "6"
    } else if d == 7 {
        "7"
    } else if d == 8 {
        "8"
    } else {
        "9"
    };
    assert(r@ =~= seq![digit_char(d as int)]);
    r
}

/// Writes a number in decimal.
pub fn decimal_text(n: u64) -> (r: String)
    ensures
        r@ == decimal_digits(n as nat),
    decreases n,
{
    if n < 10 {
        digit_text(n).to_owned()
    } else {
        let mut r = decimal_text(n / 10);
        r.append(digit_text(n % 10));
        proof {
            assert(decimal_digits((n / 10) as nat) + seq![digit_char((n % 10) as int)]
                =~= decimal_digits((n / 10) as nat).push(digit_char((n % 10) as int)));
        }
        r
    }
}

/// Whether `needle` occurs somewhere in `s`.
pub fn contains_text(s: &str, needle: &str) -> (b: bool)
    ensures
        b == has_infix(s@, needle@),
{
    let cs = chars_of(s);
    let ns = chars_of(needle);
    if ns.len() > cs.len() {
        assert forall|i: int| !occurs_at(s@, needle@, i) by {}
        return false;
    }
    let last: usize = cs.len() - ns.len();
    let mut i: usize = 0;
    while i <= last
        invariant
            cs@ == s@,
            ns@ == needle@,
            last == cs.len() - ns.len(),
            i <= last + 1,
            forall|k: int| 0 <= k < i ==> !occurs_at(s@, needle@, k),
        decreases last + 1 - i,
    {
        let mut j: usize = 0;
        while j < ns.len() && cs[i + j] == ns[j]
            invariant
                cs@ == s@,
                ns@ == needle@,
                last == cs.len() - ns.len(),
                i <= last,
                j <= ns.len(),
                forall|k: int| 0 <= k < j ==> cs@[i + k] == ns@[k],
            decreases ns.len() - j,
        {
            j += 1;
        }
        if j == ns.len() {
            assert(s@.subrange(i as int, i + needle@.len()) =~= needle@);
            assert(occurs_at(s@, needle@, i as int));
            return true;
        }
        assert(!occurs_at(s@, needle@, i as int)) by {
            if occurs_at(s@, needle@, i as int) {
                assert(s@.subrange(i as int, i + needle@.len())[j as int] == needle@[j as int]);
            }
        }
        i += 1;
    }
    assert forall|k: int| !occurs_at(s@, needle@, k) by {}
    false
}

/// The number that `s` writes in decimal, if it writes one that fits 64 bits.
pub fn parse_u64(s: &str) -> (r: Option<u64>)
    ensures
        r == decimal_u64(s@),
{
    let cs = chars_of(s);
    let from: usize = if cs.len() > 0 && cs[0] == '+' {
        1
    } else {
        0
    };
    let ghost d = s@.subrange(from as int, s@.len() as int);
    proof {
        if from == 0 {
            assert(d =~= s@);
        }
        assert(d.len() == cs.len() - from);
    }
    if from == cs.len() {
        return None;
    }
    let mut v: u64 = 0;
    let mut i: usize = from;
    while i < cs.len()
        invariant
            cs@ == s@,
            from <= i <= cs.len(),
            d == s@.subrange(from as int, s@.len() as int),
            d == if s@.len() > 0 && s@[0] == '+' {
                s@.subrange(1, s@.len() as int)
            } else {
                s@
            },
            d.len() == cs.len() - from,
            d.len() > 0,
            digits_value(d, i - from) == Some(v as int),
        decreases cs.len() - i,
    {
        let u: u32 = cs[i] as u32;
        assert(d[i - from] == cs@[i as int]);
        if u < 0x30 || u > 0x39 {
            proof {
                assert(!is_digit(d[i - from]));
                assert(digits_value(d, i - from + 1) is None);
                if digits_value(d, d.len() as int) is Some {
                    lemma_digits_value_grows(d, i - from + 1, d.len() as int);
                }
            }
            return None;
        }
        let digit: u64 = (u - 0x30) as u64;
        if v > (u64::MAX - digit) / 10 {
            proof {
                assert(v * 10 + digit > u64::MAX);
                assert(is_digit(d[i - from]));
                assert(digits_value(d, i - from + 1) == Some(v * 10 + digit));
                if digits_value(d, d.len() as int) is Some {
                    lemma_digits_value_grows(d, i - from + 1, d.len() as int);
                }
            }
            return None;
        }
        v = v * 10 + digit;
        i += 1;
    }
    Some(v)
}

/// `c` does not occur in `s`.
pub open spec fn free_of<T>(s: Seq<T>, c: T) -> bool {
    forall|i: int| 0 <= i < s.len() ==> s[i] != c
}

/// Where no separator follows, the rest is one piece.
pub proof fn lemma_split_at_free<T>(s: Seq<T>, c: T, start: int, i: int)
    requires
        0 <= start <= i <= s.len(),
        forall|k: int| i <= k < s.len() ==> s[k] != c,
    ensures
        split_at(s, c, start, i) == seq![s.subrange(start, s.len() as int)],
    decreases s.len() - i,
{
    if i < s.len() {
        lemma_split_at_free(s, c, start, i + 1);
    }
}

/// A separator and a piece without one, appended to a text, append that
/// piece to the pieces of the text.
pub proof fn lemma_split_at_append<T>(s: Seq<T>, c: T, t: Seq<T>, start: int, i: int)
    requires
        0 <= start <= i <= s.len(),
        free_of(t, c),
    ensures
        split_at(s + seq![c] + t, c, start, i) == split_at(s, c, start, i).push(t),
    decreases s.len() - i,
{
    let u = s + seq![c] + t;
    if i < s.len() {
        assert(u[i] == s[i]);
        if s[i] == c {
            lemma_split_at_append(s, c, t, i + 1, i + 1);
            assert(u.subrange(start, i) =~= s.subrange(start, i));
            assert((seq![s.subrange(start, i)] + split_at(s, c, i + 1, i + 1)).push(t) =~= seq![
                s.subrange(start, i),
            ] + split_at(s, c, i + 1, i + 1).push(t));
        } else {
            lemma_split_at_append(s, c, t, start, i + 1);
        }
    } else {
        assert(u[i] == c);
        assert forall|k: int| i + 1 <= k < u.len() implies u[k] != c by {
            assert(u[k] == t[k - i - 1]);
        }
        lemma_split_at_free(u, c, i + 1, i + 1);
        assert(u.subrange(i + 1, u.len() as int) =~= t);
        assert(u.subrange(start, i) =~= s.subrange(start, s.len() as int));
        assert(seq![s.subrange(start, s.len() as int)] + seq![t] =~= seq![
            s.subrange(start, s.len() as int),
        ].push(t));
    }
}

/// Splitting what was joined gives back the names, if there is at least
/// one name and none holds the separator.
pub proof fn lemma_split_joined(names: Seq<Seq<char>>, c: char, n: int)
    requires
        1 <= n <= names.len(),
        forall|i: int| 0 <= i < names.len() ==> free_of(#[trigger] names[i], c),
    ensures
        split(joined_upto(names, seq![c], n), c) == names.take(n),
    decreases n,
{
    if n == 1 {
        lemma_split_at_free(names[0], c, 0, 0);
        assert(names[0].subrange(0, names[0].len() as int) =~= names[0]);
        assert(names.take(1) =~= seq![names[0]]);
    } else {
        lemma_split_joined(names, c, n - 1);
        let s = joined_upto(names, seq![c], n - 1);
        lemma_split_at_append(s, c, names[n - 1], 0, 0);
        assert(names.take(n - 1).push(names[n - 1]) =~= names.take(n));
    }
}

/// What is joined from two or more names, or from one name that is not
/// empty, is not empty.
pub proof fn lemma_joined_len(names: Seq<Seq<char>>, sep: Seq<char>, n: int)
    requires
        1 <= n <= names.len(),
        sep.len() > 0,
    ensures
        n >= 2 ==> joined_upto(names, sep, n).len() > 0,
        n == 1 ==> joined_upto(names, sep, n) == names[0],
{
}

} // verus!
