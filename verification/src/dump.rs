//! Reading the bytes of a hex dump.
//!
//! A dump is a text of lines. The first word of each line is a label, such
//! as an offset, and every further word is one byte in base 16.

use vstd::prelude::*;
use std::num::ParseIntError;
use crate::hex::{parse_hex_u8, spec_parse_hex_u8};

verus! {

/// ASCII white space: space, tab, line feed, form feed, carriage return.
pub open spec fn is_ascii_whitespace(c: char) -> bool {
    c == ' ' || c == '\t' || c == '\n' || c == '\x0C' || c == '\r'
}

/// The words of the last line of a text, a word being a longest run of
/// characters other than white space.
pub open spec fn line_words(s: Seq<char>) -> Seq<Seq<char>>
    decreases s.len(),
{
    if s.len() == 0 {
        Seq::empty()
    } else {
        let before = s.drop_last();
        let c = s.last();
        if c == '\n' {
            Seq::empty()
        } else if is_ascii_whitespace(c) {
            line_words(before)
        } else if before.len() > 0 && !is_ascii_whitespace(before.last()) {
            let words = line_words(before);
            words.drop_last().push(words.last().push(c))
        } else {
            line_words(before).push(seq![c])
        }
    }
}

/// The words of a line but for the first.
pub open spec fn after_first(words: Seq<Seq<char>>) -> Seq<Seq<char>> {
    if words.len() > 0 {
        words.drop_first()
    } else {
        words
    }
}

/// The words of all lines that a line feed has ended, but for the first
/// word of each line.
pub open spec fn ended_lines_words(s: Seq<char>) -> Seq<Seq<char>>
    decreases s.len(),
{
    if s.len() == 0 {
        Seq::empty()
    } else if s.last() == '\n' {
        ended_lines_words(s.drop_last()) + after_first(line_words(s.drop_last()))
    } else {
        ended_lines_words(s.drop_last())
    }
}

/// The words of a dump that stand for bytes: all words of all lines, but
/// for the first word of each line.
pub open spec fn dump_words(s: Seq<char>) -> Seq<Seq<char>> {
    ended_lines_words(s) + after_first(line_words(s))
}

/// The bytes of a dump, where each of its words denotes a byte in base 16.
pub open spec fn dump_bytes(s: Seq<char>) -> Option<Seq<u8>> {
    let words = dump_words(s);
    if forall|k: int| 0 <= k < words.len() ==> (#[trigger] spec_parse_hex_u8(words[k])) is Some {
        Some(Seq::new(words.len(), |k: int| spec_parse_hex_u8(words[k])->0))
    } else {
        None
    }
}

/// A text that ends in a character of a word has that word last in its
/// last line.
proof fn lemma_open_word(s: Seq<char>)
    requires
        s.len() > 0,
        !is_ascii_whitespace(s.last()),
    ensures
        line_words(s).len() > 0,
    decreases s.len(),
{
    let before = s.drop_last();
    if before.len() > 0 && !is_ascii_whitespace(before.last()) {
        lemma_open_word(before);
    }
}

/// What one more character does to the words of a text.
proof fn lemma_next_char(s: Seq<char>, i: int)
    requires
        0 <= i < s.len(),
    ensures
        ({
            let before = s.take(i);
            let after = s.take(i + 1);
            let c = s[i];
            let mid_word = i > 0 && !is_ascii_whitespace(s[i - 1]);
            &&& c == '\n' ==> line_words(after) == Seq::<Seq<char>>::empty() && ended_lines_words(
                after,
            ) == ended_lines_words(before) + after_first(line_words(before))
            &&& c != '\n' ==> ended_lines_words(after) == ended_lines_words(before)
            &&& c != '\n' && is_ascii_whitespace(c) ==> line_words(after) == line_words(before)
            &&& !is_ascii_whitespace(c) && !mid_word ==> line_words(after) == line_words(
                before,
            ).push(seq![c])
            &&& !is_ascii_whitespace(c) && mid_word ==> line_words(before).len() > 0 && line_words(
                after,
            ) == line_words(before).drop_last().push(line_words(before).last().push(c))
        }),
{
    let before = s.take(i);
    let after = s.take(i + 1);
    assert(after.drop_last() =~= before);
    assert(after.last() == s[i]);
    if i > 0 {
        assert(before.last() == s[i - 1]);
        if !is_ascii_whitespace(s[i - 1]) {
            lemma_open_word(before);
        }
    }
}

fn is_whitespace(c: char) -> (b: bool)
    ensures
        b == is_ascii_whitespace(c),
{
    c == ' ' || c == '\t' || c == '\n' || c == '\x0C' || c == '\r'
}

/// Character `i` of a text. Reading it takes constant time in a text of
/// ASCII characters.
fn char_at(s: &str, ascii: bool, i: usize) -> (c: char)
    requires
        ascii == s.is_ascii(),
        i < s@.len(),
    ensures
        c == s@[i as int],
{
    if ascii {
        let b = s.get_ascii(i);
        assert('\0' <= s@[i as int] <= '\u{7f}');
        b as char
    } else {
        s.get_char(i)
    }
}

/// The characters from `from` up to `to` of a text. Taking them takes
/// constant time in a text of ASCII characters.
fn slice(s: &str, ascii: bool, from: usize, to: usize) -> (part: &str)
    requires
        ascii == s.is_ascii(),
        from <= to <= s@.len(),
    ensures
        part@ == s@.subrange(from as int, to as int),
{
    if ascii {
        s.substring_ascii(from, to)
    } else {
        s.substring_char(from, to)
    }
}

/// Finds the words of a dump that stand for bytes: where each starts and
/// where it ends.
fn word_ranges(dump: &str, ascii: bool) -> (ranges: Vec<(usize, usize)>)
    requires
        ascii == dump.is_ascii(),
    ensures
        ranges@.len() == dump_words(dump@).len(),
        forall|k: int|
            0 <= k < ranges@.len() ==> {
                let (from, to) = #[trigger] ranges@[k];
                &&& from <= to <= dump@.len()
                &&& dump@.subrange(from as int, to as int) == dump_words(dump@)[k]
            },
{
    let ghost s = dump@;
    let n = dump.unicode_len();
    let mut ranges: Vec<(usize, usize)> = Vec::new();
    let mut first_done = false;
    let mut i: usize = 0;
    assert(s.take(0).len() == 0);
    assert(line_words(s.take(0)) =~= Seq::<Seq<char>>::empty());
    assert(dump_words(s.take(0)) =~= Seq::<Seq<char>>::empty());
    while i < n
        invariant
            s == dump@,
            n == s.len(),
            ascii == dump.is_ascii(),
            i <= n,
            i == 0 || i == n || is_ascii_whitespace(s[i - 1]) || is_ascii_whitespace(s[i as int]),
            first_done == (line_words(s.take(i as int)).len() > 0),
            ranges@.len() == dump_words(s.take(i as int)).len(),
            forall|k: int|
                0 <= k < ranges@.len() ==> {
                    let (from, to) = #[trigger] ranges@[k];
                    &&& from <= to <= n
                    &&& s.subrange(from as int, to as int) == dump_words(s.take(i as int))[k]
                },
        decreases n - i,
    {
        let c = char_at(dump, ascii, i);
        let ghost before = s.take(i as int);
        proof {
            lemma_next_char(s, i as int);
        }
        if c == '\n' {
            assert(dump_words(s.take(i + 1)) =~= dump_words(before));
            first_done = false;
            i += 1;
        } else if is_whitespace(c) {
            i += 1;
        } else {
            let start = i;
            i += 1;
            assert(s.subrange(start as int, i as int) =~= seq![c]);
            assert(line_words(s.take(i as int)) =~= line_words(before).push(
                s.subrange(start as int, i as int),
            ));
            while i < n && !is_whitespace(char_at(dump, ascii, i))
                invariant
                    s == dump@,
                    n == s.len(),
                    ascii == dump.is_ascii(),
                    start < i <= n,
                    before == s.take(start as int),
                    !is_ascii_whitespace(s[i - 1]),
                    line_words(s.take(i as int)) == line_words(before).push(
                        s.subrange(start as int, i as int),
                    ),
                    ended_lines_words(s.take(i as int)) == ended_lines_words(before),
                decreases n - i,
            {
                proof {
                    lemma_next_char(s, i as int);
                    let words = line_words(s.take(i as int));
                    assert(words.drop_last() =~= line_words(before));
                    assert(s.subrange(start as int, i + 1) =~= s.subrange(
                        start as int,
                        i as int,
                    ).push(s[i as int]));
                }
                i += 1;
            }
            let ghost word = s.subrange(start as int, i as int);
            if first_done {
                assert(dump_words(s.take(i as int)) =~= dump_words(before).push(word));
                ranges.push((start, i));
            } else {
                assert(dump_words(s.take(i as int)) =~= dump_words(before));
            }
            first_done = true;
        }
    }
    assert(s.take(i as int) =~= s);
    ranges
}

/// Reads the bytes of a hex dump. The first word of each line is passed
/// over; each further word is read as a byte in base 16. The first word
/// that is no such byte ends the reading with the error of the number
/// parser.
pub fn hex_from_dump(dump: &str) -> (r: Result<Vec<u8>, ParseIntError>)
    ensures
        match r {
            Ok(dat) => dump_bytes(dump@) == Some(dat@),
            Err(_) => dump_bytes(dump@) is None,
        },
{
    let ascii = dump.is_ascii();
    let ranges = word_ranges(dump, ascii);
    let ghost words = dump_words(dump@);
    let mut dat: Vec<u8> = Vec::new();
    let mut k: usize = 0;
    while k < ranges.len()
        invariant
            ascii == dump.is_ascii(),
            words == dump_words(dump@),
            k <= ranges@.len() == words.len(),
            forall|j: int|
                0 <= j < ranges@.len() ==> {
                    let (from, to) = #[trigger] ranges@[j];
                    &&& from <= to <= dump@.len()
                    &&& dump@.subrange(from as int, to as int) == words[j]
                },
            dat@.len() == k,
            forall|j: int| 0 <= j < k ==> spec_parse_hex_u8(words[j]) == Some(#[trigger] dat@[j]),
        decreases ranges@.len() - k,
    {
        let (from, to) = ranges[k];
        match parse_hex_u8(slice(dump, ascii, from, to)) {
            Ok(val) => {
                dat.push(val);
            },
            Err(e) => {
                assert(spec_parse_hex_u8(words[k as int]) is None);
                return Err(e);
            },
        }
        k += 1;
    }
    assert forall|j: int| 0 <= j < words.len() implies (#[trigger] spec_parse_hex_u8(
        words[j],
    )) is Some by {
        assert(spec_parse_hex_u8(words[j]) == Some(dat@[j]));
    }
    assert(dat@ =~= Seq::new(words.len(), |j: int| spec_parse_hex_u8(words[j])->0));
    Ok(dat)
}

} // verus!
