//! Text as sequences of characters: white space, trimming and lines.

use vstd::prelude::*;
use vstd::string::*;

verus! {

/// A character with Unicode's `White_Space` property.
pub open spec fn is_white(c: char) -> bool {
    let n = c as u32;
    ||| 0x09 <= n <= 0x0d
    ||| n == 0x20
    ||| n == 0x85
    ||| n == 0xa0
    ||| n == 0x1680
    ||| 0x2000 <= n <= 0x200a
    ||| n == 0x2028
    ||| n == 0x2029
    ||| n == 0x202f
    ||| n == 0x205f
    ||| n == 0x3000
}

/// `s` without the white space at its end.
pub open spec fn trimmed_end(s: Seq<char>) -> Seq<char>
    decreases s.len(),
{
    if s.len() > 0 && is_white(s.last()) {
        trimmed_end(s.drop_last())
    } else {
        s
    }
}

/// `s` without the white space at its start.
pub open spec fn trimmed_start(s: Seq<char>) -> Seq<char>
    decreases s.len(),
{
    if s.len() > 0 && is_white(s.first()) {
        trimmed_start(s.drop_first())
    } else {
        s
    }
}

/// `s` without the white space at either end.
pub open spec fn trimmed(s: Seq<char>) -> Seq<char> {
    trimmed_start(trimmed_end(s))
}

/// Where `c` first occurs in `s`, or the length of `s` if it does not.
pub open spec fn first_at(s: Seq<char>, c: char) -> int
    decreases s.len(),
{
    if s.len() == 0 || s.first() == c {
        0
    } else {
        1 + first_at(s.drop_first(), c)
    }
}

/// `s` without the carriage return that ends it, if one does.
pub open spec fn without_return(s: Seq<char>) -> Seq<char> {
    if s.len() > 0 && s.last() == '\r' {
        s.drop_last()
    } else {
        s
    }
}

/// The lines of `s`: each ends at a line feed, which is not part of it, nor is a
/// carriage return just before it. The last line may lack its line feed.
pub open spec fn lines_of(s: Seq<char>) -> Seq<Seq<char>>
    decreases s.len(),
    via lines_of_decreases
{
    let n = first_at(s, '\n');
    if s.len() == 0 {
        Seq::empty()
    } else if n >= s.len() {
        seq![s]
    } else {
        seq![without_return(s.take(n))] + lines_of(s.skip(n + 1))
    }
}

#[via_fn]
proof fn lines_of_decreases(s: Seq<char>) {
    lemma_first_at(s, '\n');
}

/// `first_at` is in range, holds the character and has none of it before.
pub proof fn lemma_first_at(s: Seq<char>, c: char)
    ensures
        0 <= first_at(s, c) <= s.len(),
        first_at(s, c) < s.len() ==> s[first_at(s, c)] == c,
        forall|i: int| 0 <= i < first_at(s, c) ==> s[i] != c,
    decreases s.len(),
{
    if s.len() > 0 && s.first() != c {
        lemma_first_at(s.drop_first(), c);
        assert forall|i: int| 0 <= i < first_at(s, c) implies s[i] != c by {
            if i > 0 {
                assert(s.drop_first()[i - 1] == s[i]);
            }
        }
    }
}

/// Whether `c` is white space.
pub fn is_whitespace(c: char) -> (white: bool)
    ensures
        white == is_white(c),
{
    let n: u32 = c as u32;
    (0x09 <= n && n <= 0x0d) || n == 0x20 || n == 0x85 || n == 0xa0 || n == 0x1680 || (0x2000 <= n
        && n <= 0x200a) || n == 0x2028 || n == 0x2029 || n == 0x202f || n == 0x205f || n == 0x3000
}

/// The characters of `s`.
pub fn chars_of(s: &str) -> (chars: Vec<char>)
    ensures
        chars@ == s@,
{
    let mut chars: Vec<char> = Vec::new();
    for c in it: s.chars()
        invariant
            it.seq() == s@,
            chars@ == s@.take(it.index() as int),
    {
        chars.push(c);
        assert(s@.take(it.index() + 1) == s@.take(it.index() as int).push(c));
    }
    assert(s@.take(s@.len() as int) == s@);
    chars
}


proof fn lemma_trimmed_end_is(s: Seq<char>, n: int)
    requires
        0 <= n <= s.len(),
        forall|i: int| n <= i < s.len() ==> is_white(#[trigger] s[i]),
        n > 0 ==> !is_white(s[n - 1]),
    ensures
        trimmed_end(s) == s.take(n),
    decreases s.len(),
{
    if n < s.len() {
        assert(is_white(s[s.len() - 1]));
        lemma_trimmed_end_is(s.drop_last(), n);
        assert(s.drop_last().take(n) == s.take(n));
    } else {
        assert(s.take(n) == s);
    }
}

proof fn lemma_trimmed_start_is(s: Seq<char>, n: int)
    requires
        0 <= n <= s.len(),
        forall|i: int| 0 <= i < n ==> is_white(#[trigger] s[i]),
        n < s.len() ==> !is_white(s[n]),
    ensures
        trimmed_start(s) == s.skip(n),
    decreases s.len(),
{
    if n > 0 {
        assert(is_white(s[0]));
        assert forall|i: int| 0 <= i < n - 1 implies is_white(#[trigger] s.drop_first()[i]) by {
            assert(s.drop_first()[i] == s[i + 1]);
        }
        lemma_trimmed_start_is(s.drop_first(), n - 1);
        assert(s.drop_first().skip(n - 1) == s.skip(n));
    } else {
        assert(s.skip(n) == s);
    }
}

/// The end of `chars[from..to]` once the white space at its end is left off.
pub fn trim_end_at(chars: &Vec<char>, from: usize, to: usize) -> (end: usize)
    requires
        from <= to <= chars@.len(),
    ensures
        from <= end <= to,
        chars@.subrange(from as int, end as int) == trimmed_end(
            chars@.subrange(from as int, to as int),
        ),
{
    let mut end: usize = to;
    while end > from && is_whitespace(chars[end - 1])
        invariant
            from <= end <= to <= chars@.len(),
            forall|i: int| end <= i < to ==> is_white(#[trigger] chars@[i]),
        decreases end,
    {
        end = end - 1;
    }
    proof {
        let s = chars@.subrange(from as int, to as int);
        lemma_trimmed_end_is(s, end - from);
        assert(s.take(end - from) == chars@.subrange(from as int, end as int));
    }
    end
}

/// The start of `chars[from..to]` once the white space at its start is left off.
pub fn trim_start_at(chars: &Vec<char>, from: usize, to: usize) -> (start: usize)
    requires
        from <= to <= chars@.len(),
    ensures
        from <= start <= to,
        chars@.subrange(start as int, to as int) == trimmed_start(
            chars@.subrange(from as int, to as int),
        ),
{
    let mut start: usize = from;
    while start < to && is_whitespace(chars[start])
        invariant
            from <= start <= to <= chars@.len(),
            forall|i: int| from <= i < start ==> is_white(#[trigger] chars@[i]),
        decreases to - start,
    {
        start = start + 1;
    }
    proof {
        let s = chars@.subrange(from as int, to as int);
        lemma_trimmed_start_is(s, start - from);
        assert(s.skip(start - from) == chars@.subrange(start as int, to as int));
    }
    start
}

/// `s` without the white space at either end.
pub fn trim(s: &str) -> (kept: String)
    ensures
        kept@ == trimmed(s@),
{
    let chars: Vec<char> = chars_of(s);
    let end: usize = trim_end_at(&chars, 0, chars.len());
    let start: usize = trim_start_at(&chars, 0, end);
    assert(s@.subrange(0, s@.len() as int) == s@);
    s.substring_char(start, end).to_owned()
}

/// The piece of `text` that a pair of bounds stands for.
pub open spec fn piece(text: Seq<char>, bounds: (usize, usize)) -> Seq<char> {
    text.subrange(bounds.0 as int, bounds.1 as int)
}

/// The pieces of `text` that pairs of bounds stand for.
pub open spec fn pieces(text: Seq<char>, bounds: Seq<(usize, usize)>) -> Seq<Seq<char>> {
    bounds.map_values(|b: (usize, usize)| piece(text, b))
}

proof fn lemma_first_at_is(s: Seq<char>, c: char, n: int)
    requires
        0 <= n <= s.len(),
        forall|i: int| 0 <= i < n ==> s[i] != c,
        n < s.len() ==> s[n] == c,
    ensures
        first_at(s, c) == n,
{
    lemma_first_at(s, c);
    if first_at(s, c) < n {
        assert(s[first_at(s, c)] == c);
    }
}

/// Where each line of `chars` starts and ends.
pub fn line_bounds(chars: &Vec<char>) -> (bounds: Vec<(usize, usize)>)
    ensures
        forall|i: int|
            0 <= i < bounds@.len() ==> (#[trigger] bounds@[i]).0 <= bounds@[i].1 <= chars@.len(),
        pieces(chars@, bounds@) == lines_of(chars@),
{
    let mut bounds: Vec<(usize, usize)> = Vec::new();
    let mut start: usize = 0;
    let mut i: usize = 0;
    assert(chars@.skip(0) == chars@);
    assert(pieces(chars@, bounds@) == Seq::<Seq<char>>::empty());
    while i < chars.len()
        invariant
            start <= i <= chars@.len(),
            forall|k: int| start <= k < i ==> chars@[k] != '\n',
            forall|k: int|
                0 <= k < bounds@.len() ==> (#[trigger] bounds@[k]).0 <= bounds@[k].1
                    <= chars@.len(),
            lines_of(chars@) == pieces(chars@, bounds@) + lines_of(chars@.skip(start as int)),
        decreases chars@.len() - i,
    {
        if chars[i] == '\n' {
            let end: usize = if i > start && chars[i - 1] == '\r' {
                i - 1
            } else {
                i
            };
            let ghost before = bounds@;
            bounds.push((start, end));
            proof {
                let rest = chars@.skip(start as int);
                lemma_first_at_is(rest, '\n', i - start);
                let line = rest.take(i - start);
                assert(line == chars@.subrange(start as int, i as int));
                assert(without_return(line) == piece(chars@, (start, end)));
                assert(rest.skip(i - start + 1) == chars@.skip(i + 1));
                assert(pieces(chars@, bounds@) == pieces(chars@, before).push(
                    piece(chars@, (start, end)),
                ));
                assert(pieces(chars@, bounds@) + lines_of(chars@.skip(i + 1)) == pieces(
                    chars@,
                    before,
                ) + (seq![without_return(line)] + lines_of(rest.skip(i - start + 1))));
            }
            start = i + 1;
        }
        i = i + 1;
    }
    let ghost before = bounds@;
    let ghost rest = chars@.skip(start as int);
    if start < chars.len() {
        bounds.push((start, chars.len()));
        proof {
            lemma_first_at_is(rest, '\n', rest.len() as int);
            assert(rest == piece(chars@, (start, chars@.len() as usize)));
            assert(pieces(chars@, bounds@) == pieces(chars@, before) + seq![rest]);
        }
    } else {
        assert(pieces(chars@, bounds@) == pieces(chars@, before) + Seq::<Seq<char>>::empty());
    }
    bounds
}


proof fn lemma_trimmed_end_cut(s: Seq<char>) -> (n: int)
    ensures
        0 <= n <= s.len(),
        trimmed_end(s) == s.take(n),
        forall|i: int| n <= i < s.len() ==> is_white(#[trigger] s[i]),
        n > 0 ==> !is_white(s[n - 1]),
    decreases s.len(),
{
    if s.len() > 0 && is_white(s.last()) {
        let n = lemma_trimmed_end_cut(s.drop_last());
        assert(s.drop_last().take(n) == s.take(n));
        assert forall|i: int| n <= i < s.len() implies is_white(#[trigger] s[i]) by {
            if i < s.len() - 1 {
                assert(s.drop_last()[i] == s[i]);
            }
        }
        n
    } else {
        assert(s.take(s.len() as int) == s);
        s.len() as int
    }
}

proof fn lemma_trimmed_start_cut(s: Seq<char>) -> (n: int)
    ensures
        0 <= n <= s.len(),
        trimmed_start(s) == s.skip(n),
        forall|i: int| 0 <= i < n ==> is_white(#[trigger] s[i]),
        n < s.len() ==> !is_white(s[n]),
    decreases s.len(),
{
    if s.len() > 0 && is_white(s.first()) {
        let n = lemma_trimmed_start_cut(s.drop_first()) + 1;
        assert(s.drop_first().skip(n - 1) == s.skip(n));
        assert forall|i: int| 0 <= i < n implies is_white(#[trigger] s[i]) by {
            if i > 0 {
                assert(s.drop_first()[i - 1] == s[i]);
            }
        }
        n
    } else {
        assert(s.skip(0) == s);
        0
    }
}

/// The part that trimming keeps is the one piece with white space alone around it and
/// none at its own ends.
pub proof fn lemma_trimmed_is(s: Seq<char>, from: int, to: int)
    requires
        0 <= from < to <= s.len(),
        forall|i: int| 0 <= i < from || to <= i < s.len() ==> is_white(#[trigger] s[i]),
        !is_white(s[from]),
        !is_white(s[to - 1]),
    ensures
        trimmed(s) == s.subrange(from, to),
{
    lemma_trimmed_end_is(s, to);
    let kept = s.take(to);
    lemma_trimmed_start_is(kept, from);
    assert(kept.skip(from) == s.subrange(from, to));
}

/// What trimming leaves is a piece of the text; only white space was cut off; and unless
/// nothing is left, it neither starts nor ends in white space.
pub proof fn law_trimmed(s: Seq<char>) -> (bounds: (int, int))
    ensures
        0 <= bounds.0 <= bounds.1 <= s.len(),
        trimmed(s) == s.subrange(bounds.0, bounds.1),
        forall|i: int|
            0 <= i < bounds.0 || bounds.1 <= i < s.len() ==> is_white(#[trigger] s[i]),
        bounds.0 < bounds.1 ==> !is_white(s[bounds.0]) && !is_white(s[bounds.1 - 1]),
{
    let to = lemma_trimmed_end_cut(s);
    let kept = s.take(to);
    let from = lemma_trimmed_start_cut(kept);
    assert(kept.skip(from) == s.subrange(from, to));
    assert forall|i: int| 0 <= i < from || to <= i < s.len() implies is_white(#[trigger] s[i]) by {
        if i < from {
            assert(kept[i] == s[i]);
        }
    }
    (from, to)
}

/// Trimming what has been trimmed changes nothing.
pub proof fn law_trim_twice(s: Seq<char>)
    ensures
        trimmed(trimmed(s)) == trimmed(s),
{
    let (from, to) = law_trimmed(s);
    let kept = trimmed(s);
    if from < to {
        lemma_trimmed_is(kept, 0, kept.len() as int);
        assert(kept.subrange(0, kept.len() as int) == kept);
    }
}

/// No line holds a line feed.
pub proof fn law_lines_hold_no_line_feed(s: Seq<char>)
    ensures
        forall|i: int, j: int|
            0 <= i < lines_of(s).len() && 0 <= j < lines_of(s)[i].len()
                ==> #[trigger] lines_of(s)[i][j] != '\n',
    decreases s.len(),
{
    let n = first_at(s, '\n');
    lemma_first_at(s, '\n');
    if 0 < s.len() && n < s.len() {
        law_lines_hold_no_line_feed(s.skip(n + 1));
        assert forall|i: int, j: int|
            0 <= i < lines_of(s).len() && 0 <= j < lines_of(s)[i].len() implies #[trigger] lines_of(
            s,
        )[i][j] != '\n' by {
            if i > 0 {
                assert(lines_of(s)[i] == lines_of(s.skip(n + 1))[i - 1]);
            } else {
                assert(lines_of(s)[0] == without_return(s.take(n)));
                assert(lines_of(s)[0][j] == s[j]);
            }
        }
    }
}

/// A text that is empty or ends in a line feed can be split off: its lines come first,
/// then those of the rest.
pub proof fn law_lines_of_joined(first: Seq<char>, rest: Seq<char>)
    requires
        first.len() > 0 ==> first.last() == '\n',
    ensures
        lines_of(first + rest) == lines_of(first) + lines_of(rest),
    decreases first.len(),
{
    if first.len() == 0 {
        assert(first + rest == rest);
        assert(lines_of(first) + lines_of(rest) == lines_of(rest));
    } else {
        let n = first_at(first, '\n');
        lemma_first_at(first, '\n');
        if n >= first.len() {
            assert(first[first.len() - 1] != '\n');
        }
        let all = first + rest;
        assert forall|i: int| 0 <= i < n implies all[i] != '\n' by {
            assert(all[i] == first[i]);
        }
        lemma_first_at_is(all, '\n', n);
        let after = first.skip(n + 1);
        if after.len() > 0 {
            assert(after.last() == first.last());
        }
        law_lines_of_joined(after, rest);
        assert(all.take(n) == first.take(n));
        assert(all.skip(n + 1) == after + rest);
        assert(lines_of(all) == lines_of(first) + lines_of(rest));
    }
}

/// One line and its line feed.
pub proof fn lemma_lines_of_one(line: Seq<char>)
    requires
        !line.contains('\n'),
    ensures
        lines_of(line.push('\n')) == seq![without_return(line)],
{
    let s = line.push('\n');
    assert forall|i: int| 0 <= i < line.len() implies s[i] != '\n' by {
        assert(line.contains(line[i]));
    }
    lemma_first_at_is(s, '\n', line.len() as int);
    assert(s.take(line.len() as int) == line);
    assert(s.skip((line.len() + 1) as int) == Seq::<char>::empty());
    assert(lines_of(Seq::<char>::empty()) == Seq::<Seq<char>>::empty());
    assert(lines_of(s) == seq![without_return(line)] + Seq::<Seq<char>>::empty());
}

/// The text that bytes which need not be UTF-8 are read as, with a replacement character
/// for each part that is not.
pub uninterp spec fn lossy_utf8(bytes: Seq<u8>) -> Seq<char>;

/// Calls `String::from_utf8_lossy`. The text depends on the bytes alone, and bytes that
/// are UTF-8 are read as what they encode.
#[verifier::external_body]
fn lossy_text(bytes: &Vec<u8>) -> (text: String)
    ensures
        text@ == lossy_utf8(bytes@),
        vstd::utf8::valid_utf8(bytes@) ==> vstd::utf8::encode_utf8(text@) == bytes@,
{
    String::from_utf8_lossy(bytes).into_owned()
}

/// The text that bytes stand for: what they encode if they are UTF-8, and otherwise what
/// they are read as with replacement characters.
pub open spec fn text_of(bytes: Seq<u8>) -> Seq<char> {
    if vstd::utf8::valid_utf8(bytes) {
        vstd::utf8::decode_utf8(bytes)
    } else {
        lossy_utf8(bytes)
    }
}

/// The text that bytes stand for.
pub fn read_text(bytes: &Vec<u8>) -> (text: String)
    ensures
        text@ == lossy_utf8(bytes@),
        text@ == text_of(bytes@),
        vstd::utf8::valid_utf8(bytes@) ==> vstd::utf8::encode_utf8(text@) == bytes@,
{
    let text: String = lossy_text(bytes);
    proof {
        vstd::utf8::encode_utf8_decode_utf8(text@);
    }
    text
}

/// Nothing is lost of UTF-8: the text of such bytes encodes to them again, so that
/// different bytes have different texts.
pub proof fn law_text_of_utf8(bytes: Seq<u8>)
    requires
        vstd::utf8::valid_utf8(bytes),
    ensures
        vstd::utf8::encode_utf8(text_of(bytes)) == bytes,
{
    vstd::utf8::decode_utf8_encode_utf8(bytes);
}

/// An encoded text is read back as it was.
pub proof fn law_encoded_text_reads_back(text: Seq<char>)
    ensures
        text_of(vstd::utf8::encode_utf8(text)) == text,
{
    vstd::utf8::encode_utf8_valid_utf8(text);
    vstd::utf8::encode_utf8_decode_utf8(text);
}

/// One text, then another.
pub fn join(first: &str, second: &str) -> (joined: String)
    ensures
        joined@ == first@ + second@,
{
    let mut joined: String = first.to_owned();
    joined.append(second);
    joined
}

/// White space as Unicode has it: the characters from tab to carriage return, the space,
/// the next line, the no-break space, and the spaces and separators beyond Latin.
pub open spec fn is_blank(c: char) -> bool {
    ||| c == '\t' || c == '\n' || c == '\u{b}' || c == '\u{c}' || c == '\r' || c == ' '
    ||| c == '\u{85}' || c == '\u{a0}' || c == '\u{1680}'
    ||| c == '\u{2000}' || c == '\u{2001}' || c == '\u{2002}' || c == '\u{2003}'
    ||| c == '\u{2004}' || c == '\u{2005}' || c == '\u{2006}' || c == '\u{2007}'
    ||| c == '\u{2008}' || c == '\u{2009}' || c == '\u{200a}'
    ||| c == '\u{2028}' || c == '\u{2029}' || c == '\u{202f}' || c == '\u{205f}'
    ||| c == '\u{3000}'
}

/// What is trimmed is white space as Unicode has it.
pub proof fn law_blanks(c: char)
    ensures
        is_white(c) <==> is_blank(c),
        forall|white: bool|
            #[trigger] call_ensures(is_whitespace, (c,), white) ==> (white <==> is_blank(c)),
{
}

/// Trimming gives back the text between blanks, if it has none at its own ends; and of
/// blanks alone it leaves nothing.
pub proof fn law_trim_cuts_blanks(
    s: &str,
    before: Seq<char>,
    kept: Seq<char>,
    behind: Seq<char>,
    trimmed_text: String,
)
    requires
        s@ == before + kept + behind,
        forall|i: int| 0 <= i < before.len() ==> is_blank(#[trigger] before[i]),
        forall|i: int| 0 <= i < behind.len() ==> is_blank(#[trigger] behind[i]),
        kept.len() > 0 ==> !is_blank(kept.first()) && !is_blank(kept.last()),
        call_ensures(trim, (s,), trimmed_text),
    ensures
        trimmed_text@ == kept,
{
    lemma_trimmed_between(before, kept, behind);
}

/// Trimming gives back the text between blanks.
pub proof fn lemma_trimmed_between(before: Seq<char>, kept: Seq<char>, behind: Seq<char>)
    requires
        forall|i: int| 0 <= i < before.len() ==> is_blank(#[trigger] before[i]),
        forall|i: int| 0 <= i < behind.len() ==> is_blank(#[trigger] behind[i]),
        kept.len() > 0 ==> !is_blank(kept.first()) && !is_blank(kept.last()),
    ensures
        trimmed(before + kept + behind) == kept,
{
    let all = before + kept + behind;
    let from = before.len() as int;
    let to = (before.len() + kept.len()) as int;
    assert forall|i: int| 0 <= i < from || to <= i < all.len() implies is_white(
        #[trigger] all[i],
    ) by {
        law_blanks(all[i]);
        if i < from {
            assert(all[i] == before[i]);
        } else {
            assert(all[i] == behind[i - to]);
        }
    }
    if kept.len() > 0 {
        law_blanks(kept.first());
        law_blanks(kept.last());
        assert(all[from] == kept.first());
        assert(all[to - 1] == kept.last());
        lemma_trimmed_is(all, from, to);
        assert(all.subrange(from, to) == kept);
    } else {
        let (a, b) = law_trimmed(all);
        if a < b {
            assert(is_white(all[a]));
        }
        assert(trimmed(all) == kept);
    }
}

/// Bytes are read as `String::from_utf8_lossy` reads them, and UTF-8 among them as what it
/// encodes.
pub proof fn law_bytes_are_read(bytes: &Vec<u8>, text: String)
    requires
        call_ensures(read_text, (bytes,), text),
    ensures
        text@ == lossy_utf8(bytes@),
        text_of(bytes@) == lossy_utf8(bytes@),
        vstd::utf8::valid_utf8(bytes@) ==> vstd::utf8::encode_utf8(text@) == bytes@,
{
}

/// Nothing but white space.
pub open spec fn all_blank(s: Seq<char>) -> bool {
    forall|i: int| 0 <= i < s.len() ==> is_blank(#[trigger] s[i])
}

/// Something, with no white space at either end.
pub open spec fn is_solid(s: Seq<char>) -> bool {
    s.len() > 0 && !is_blank(s.first()) && !is_blank(s.last())
}

/// `line` is `s`, with white space alone before and behind it.
pub open spec fn is_padded(line: Seq<char>, s: Seq<char>) -> bool {
    exists|before: Seq<char>, behind: Seq<char>|
        all_blank(before) && all_blank(behind) && line == #[trigger] (before + s + behind)
}

/// Lines in a text, a line feed behind each.
pub open spec fn written(lines: Seq<Seq<char>>) -> Seq<char>
    decreases lines.len(),
{
    if lines.len() == 0 {
        Seq::empty()
    } else {
        written(lines.drop_last()) + lines.last().push('\n')
    }
}

/// `s` holds these lines, with a line feed behind each, but maybe for the last one.
pub open spec fn is_written(s: Seq<char>, lines: Seq<Seq<char>>) -> bool {
    ||| s == written(lines)
    ||| lines.len() > 0 && lines.last().len() > 0 && s == written(lines.drop_last())
        + lines.last()
}

/// No line feed in any of `lines`.
pub open spec fn are_lines(lines: Seq<Seq<char>>) -> bool {
    forall|i: int, k: int|
        0 <= i < lines.len() && 0 <= k < lines[i].len() ==> #[trigger] lines[i][k] != '\n'
}

proof fn lemma_written(lines: Seq<Seq<char>>)
    requires
        are_lines(lines),
    ensures
        written(lines).len() > 0 ==> written(lines).last() == '\n',
        lines_of(written(lines)) == lines.map_values(|line: Seq<char>| without_return(line)),
    decreases lines.len(),
{
    let bare = |line: Seq<char>| without_return(line);
    if lines.len() == 0 {
        assert(lines.map_values(bare) == Seq::<Seq<char>>::empty());
    } else {
        let init = lines.drop_last();
        assert forall|i: int, k: int|
            0 <= i < init.len() && 0 <= k < init[i].len() implies #[trigger] init[i][k]
            != '\n' by {
            assert(lines[i][k] != '\n');
        }
        lemma_written(init);
        let last = lines.last();
        assert forall|k: int| 0 <= k < last.len() implies last[k] != '\n' by {
            assert(lines[lines.len() - 1][k] != '\n');
        }
        lemma_lines_of_one(last);
        law_lines_of_joined(written(init), last.push('\n'));
        assert(lines.map_values(bare) == init.map_values(bare) + seq![without_return(last)]);
    }
}

/// What is written as lines is read as those lines, but for a carriage return at the end.
pub proof fn lemma_written_is_read(s: Seq<char>, lines: Seq<Seq<char>>)
    requires
        are_lines(lines),
        is_written(s, lines),
    ensures
        lines_of(s).len() == lines.len(),
        forall|i: int|
            0 <= i < lines.len() ==> #[trigger] lines_of(s)[i] == lines[i] || lines_of(s)[i]
                == without_return(lines[i]),
{
    lemma_written(lines);
    if s != written(lines) {
        let init = lines.drop_last();
        let last = lines.last();
        assert forall|i: int, k: int|
            0 <= i < init.len() && 0 <= k < init[i].len() implies #[trigger] init[i][k]
            != '\n' by {
            assert(lines[i][k] != '\n');
        }
        lemma_written(init);
        law_lines_of_joined(written(init), last);
        assert forall|k: int| 0 <= k < last.len() implies last[k] != '\n' by {
            assert(lines[lines.len() - 1][k] != '\n');
        }
        lemma_first_at_is(last, '\n', last.len() as int);
        assert(lines_of(last) == seq![last]);
    }
}

/// What `line_bounds` marks are the lines of a text, but for a carriage return at the end of
/// each.
pub proof fn law_bounds_mark_lines(
    chars: &Vec<char>,
    bounds: Vec<(usize, usize)>,
    lines: Seq<Seq<char>>,
)
    requires
        call_ensures(line_bounds, (chars,), bounds),
        are_lines(lines),
        is_written(chars@, lines),
    ensures
        bounds@.len() == lines.len(),
        forall|i: int|
            0 <= i < lines.len() ==> {
                let line = chars@.subrange(#[trigger] bounds@[i].0 as int, bounds@[i].1 as int);
                ||| line == lines[i]
                ||| lines[i].len() > 0 && lines[i].last() == '\r' && line == lines[i].drop_last()
            },
{
    lemma_written_is_read(chars@, lines);
    let read = lines_of(chars@);
    assert(read == pieces(chars@, bounds@));
    assert(read.len() == bounds@.len());
    assert forall|i: int| 0 <= i < lines.len() implies {
        let line = chars@.subrange(#[trigger] bounds@[i].0 as int, bounds@[i].1 as int);
        ||| line == lines[i]
        ||| lines[i].len() > 0 && lines[i].last() == '\r' && line == lines[i].drop_last()
    } by {
        assert(read[i] == piece(chars@, bounds@[i]));
    }
}

/// A carriage return at the end of a line is white space like any other there.
pub proof fn lemma_return_is_blank(line: Seq<char>)
    ensures
        trimmed_end(without_return(line)) == trimmed_end(line),
        trimmed(without_return(line)) == trimmed(line),
        trimmed(line).len() > 0 ==> without_return(line).len() > 0 && without_return(line).first()
            == line.first(),
{
    if line.len() > 0 && line.last() == '\r' {
        assert(is_white('\r'));
        assert(trimmed_end(line) == trimmed_end(line.drop_last()));
        if line.len() == 1 {
            assert(trimmed_end(line.drop_last()).len() == 0);
            assert(trimmed(line).len() == 0);
        }
    }
}

/// White space behind a text is all that is cut off its end.
pub proof fn lemma_trimmed_end_of(kept: Seq<char>, behind: Seq<char>)
    requires
        kept.len() > 0,
        !is_blank(kept.last()),
        all_blank(behind),
    ensures
        trimmed_end(kept + behind) == kept,
{
    let all = kept + behind;
    assert forall|i: int| kept.len() <= i < all.len() implies is_white(#[trigger] all[i]) by {
        law_blanks(all[i]);
        assert(all[i] == behind[i - kept.len()]);
    }
    law_blanks(kept.last());
    lemma_trimmed_end_is(all, kept.len() as int);
    assert(all.take(kept.len() as int) == kept);
}

/// What is left of a line after trimming, the line is padded to.
pub proof fn lemma_padded(line: Seq<char>)
    ensures
        is_padded(line, trimmed(line)),
{
    let (from, to) = law_trimmed(line);
    let before = line.take(from);
    let behind = line.skip(to);
    assert forall|i: int| 0 <= i < before.len() implies is_blank(#[trigger] before[i]) by {
        law_blanks(line[i]);
    }
    assert forall|i: int| 0 <= i < behind.len() implies is_blank(#[trigger] behind[i]) by {
        law_blanks(line[to + i]);
    }
    assert(line == before + trimmed(line) + behind);
}

} // verus!
