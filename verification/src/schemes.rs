//! Reading scheme names out of what `xcodebuild -list` prints.

use crate::text;
use vstd::prelude::*;
use vstd::string::*;

verus! {

/// The line that opens the list of schemes, at any indent.
pub open spec fn is_header(line: Seq<char>) -> bool {
    text::trimmed(line) == "Schemes:"@
}

/// A line that closes the list of schemes: a blank one, or the unindented heading of
/// another section.
pub open spec fn closes_list(line: Seq<char>) -> bool {
    &&& !is_header(line)
    &&& {
        ||| text::trimmed(line).len() == 0
        ||| !text::is_white(line.first()) && text::trimmed_end(line).last() == ':'
    }
}

/// The first index from `from` on at which `found` holds, or the length of `lines`.
pub open spec fn first_line(
    lines: Seq<Seq<char>>,
    found: spec_fn(Seq<char>) -> bool,
    from: int,
) -> int
    decreases lines.len() - from,
{
    if from < 0 || from >= lines.len() {
        lines.len() as int
    } else if found(lines[from]) {
        from
    } else {
        first_line(lines, found, from + 1)
    }
}

/// The lines between the first header and the line that closes its list.
pub open spec fn listed_lines(lines: Seq<Seq<char>>) -> Seq<Seq<char>> {
    let header = first_line(lines, |line: Seq<char>| is_header(line), 0);
    if header >= lines.len() {
        Seq::empty()
    } else {
        let end = first_line(lines, |line: Seq<char>| closes_list(line), header + 1);
        lines.subrange(header + 1, end)
    }
}

/// The names on `lines`: each line trimmed, repeated headers left out.
pub open spec fn names_on(lines: Seq<Seq<char>>) -> Seq<Seq<char>> {
    lines.filter(|line: Seq<char>| !is_header(line)).map_values(|line: Seq<char>| text::trimmed(line))
}

/// The schemes that the text of a listing names, in order.
pub open spec fn schemes_in(text: Seq<char>) -> Seq<Seq<char>> {
    names_on(listed_lines(text::lines_of(text)))
}

/// The texts that a list of strings holds.
pub open spec fn texts(strings: Seq<String>) -> Seq<Seq<char>> {
    strings.map_values(|s: String| s@)
}

proof fn lemma_first_line(
    lines: Seq<Seq<char>>,
    found: spec_fn(Seq<char>) -> bool,
    from: int,
)
    requires
        0 <= from <= lines.len(),
    ensures
        from <= first_line(lines, found, from) <= lines.len(),
        first_line(lines, found, from) < lines.len() ==> found(
            lines[first_line(lines, found, from)],
        ),
        forall|i: int| from <= i < first_line(lines, found, from) ==> !found(#[trigger] lines[i]),
    decreases lines.len() - from,
{
    if from < lines.len() && !found(lines[from]) {
        lemma_first_line(lines, found, from + 1);
    }
}

proof fn lemma_first_line_is(
    lines: Seq<Seq<char>>,
    found: spec_fn(Seq<char>) -> bool,
    from: int,
    at: int,
)
    requires
        0 <= from <= at <= lines.len(),
        forall|i: int| from <= i < at ==> !found(#[trigger] lines[i]),
        at < lines.len() ==> found(lines[at]),
    ensures
        first_line(lines, found, from) == at,
    decreases at - from,
{
    if from < at {
        lemma_first_line_is(lines, found, from + 1, at);
    }
}

proof fn lemma_names_push(lines: Seq<Seq<char>>, line: Seq<char>)
    ensures
        names_on(lines.push(line)) == if is_header(line) {
            names_on(lines)
        } else {
            names_on(lines).push(text::trimmed(line))
        },
{
    reveal(Seq::filter);
    let keep = |l: Seq<char>| !is_header(l);
    assert(lines.push(line).drop_last() == lines);
    assert(lines.push(line).filter(keep) == if keep(line) {
        lines.filter(keep).push(line)
    } else {
        lines.filter(keep)
    });
    if keep(line) {
        assert(names_on(lines.push(line)) == names_on(lines).push(text::trimmed(line)));
    }
}

/// The names of the schemes that the output of `xcodebuild -list` lists, in order.
///
/// They stand on the lines below the first `Schemes:` line, up to a blank line, an
/// unindented line that ends in a colon, or the end of the text.
pub fn parse_schemes(list_output: &str) -> (schemes: Vec<String>)
    ensures
        texts(schemes@) == schemes_in(list_output@),
{
    let chars: Vec<char> = text::chars_of(list_output);
    let bounds: Vec<(usize, usize)> = text::line_bounds(&chars);
    let ghost lines = text::lines_of(list_output@);
    let header: String = "Schemes:".to_owned();
    let mut schemes: Vec<String> = Vec::new();
    let mut in_schemes: bool = false;
    let mut i: usize = 0;
    let ghost is_head = |line: Seq<char>| is_header(line);
    let ghost closes = |line: Seq<char>| closes_list(line);
    let ghost mut head: int = 0;
    while i < bounds.len()
        invariant
            i <= bounds@.len(),
            chars@ == list_output@,
            header@ == "Schemes:"@,
            lines == text::lines_of(list_output@),
            lines == text::pieces(chars@, bounds@),
            forall|k: int|
                0 <= k < bounds@.len() ==> (#[trigger] bounds@[k]).0 <= bounds@[k].1
                    <= chars@.len(),
            is_head == (|line: Seq<char>| is_header(line)),
            closes == (|line: Seq<char>| closes_list(line)),
            !in_schemes ==> texts(schemes@) == Seq::<Seq<char>>::empty(),
            !in_schemes ==> forall|k: int| 0 <= k < i ==> !is_head(#[trigger] lines[k]),
            in_schemes ==> {
                &&& 0 <= head < i
                &&& first_line(lines, is_head, 0) == head
                &&& forall|k: int| head < k < i ==> !closes(#[trigger] lines[k])
                &&& texts(schemes@) == names_on(lines.subrange(head + 1, i as int))
            },
        decreases bounds@.len() - i,
    {
        let from: usize = bounds[i].0;
        let to: usize = bounds[i].1;
        let end: usize = text::trim_end_at(&chars, from, to);
        let start: usize = text::trim_start_at(&chars, from, end);
        let name: String = list_output.substring_char(start, end).to_owned();
        let ghost line = lines[i as int];
        assert(line == chars@.subrange(from as int, to as int));
        assert(name@ == text::trimmed(line));
        if name == header {
            proof {
                if in_schemes {
                    assert(lines.subrange(head + 1, i + 1) == lines.subrange(
                        head + 1,
                        i as int,
                    ).push(line));
                    lemma_names_push(lines.subrange(head + 1, i as int), line);
                } else {
                    lemma_first_line_is(lines, is_head, 0, i as int);
                    head = i as int;
                    assert(lines.subrange(head + 1, i + 1) == Seq::<Seq<char>>::empty());
                    reveal(Seq::filter);
                    assert(names_on(Seq::<Seq<char>>::empty()) == Seq::<Seq<char>>::empty());
                }
            }
            in_schemes = true;
        } else if in_schemes {
            let blank: bool = start == end;
            assert(blank == (text::trimmed(line).len() == 0));
            let heading: bool = !blank && !text::is_whitespace(chars[from]) && chars[end - 1] == ':';
            proof {
                if !blank {
                    assert(text::trimmed_end(line) == chars@.subrange(from as int, end as int));
                    assert(line.first() == chars@[from as int]);
                }
                assert((blank || heading) == closes_list(line));
            }
            if blank || heading {
                proof {
                    lemma_first_line_is(lines, closes, head + 1, i as int);
                }
                return schemes;
            }
            let ghost before = schemes@;
            schemes.push(name);
            proof {
                assert(texts(schemes@) == texts(before).push(text::trimmed(line)));
                assert(lines.subrange(head + 1, i + 1) == lines.subrange(
                    head + 1,
                    i as int,
                ).push(line));
                lemma_names_push(lines.subrange(head + 1, i as int), line);
            }
        }
        i = i + 1;
    }
    proof {
        if in_schemes {
            lemma_first_line_is(lines, closes, head + 1, lines.len() as int);
        } else {
            lemma_first_line_is(lines, is_head, 0, lines.len() as int);
            reveal(Seq::filter);
            assert(names_on(Seq::<Seq<char>>::empty()) == Seq::<Seq<char>>::empty());
        }
    }
    schemes
}


/// A name that a listing can carry: one line, with no white space round it, that is not
/// the header itself.
pub open spec fn is_scheme_name(name: Seq<char>) -> bool {
    &&& name.len() > 0
    &&& text::trimmed(name) == name
    &&& !name.contains('\n')
    &&& name != "Schemes:"@
}

/// A text without a header names no scheme.
pub proof fn law_no_header_no_schemes(text: Seq<char>)
    requires
        forall|i: int|
            0 <= i < text::lines_of(text).len() ==> !is_header(#[trigger] text::lines_of(text)[i]),
    ensures
        schemes_in(text).len() == 0,
{
    let lines = text::lines_of(text);
    lemma_first_line_is(lines, |line: Seq<char>| is_header(line), 0, lines.len() as int);
    reveal(Seq::filter);
}

/// Whatever the listing holds, each name read from it can stand on a line of a listing.
pub proof fn law_schemes_are_names(text: Seq<char>)
    ensures
        forall|i: int| 0 <= i < schemes_in(text).len() ==> is_scheme_name(#[trigger] schemes_in(text)[i]),
{
    let lines = text::lines_of(text);
    let is_head = |line: Seq<char>| is_header(line);
    let closes = |line: Seq<char>| closes_list(line);
    let keep = |line: Seq<char>| !is_header(line);
    let header = first_line(lines, is_head, 0);
    lemma_first_line(lines, is_head, 0);
    if header < lines.len() {
        let end = first_line(lines, closes, header + 1);
        lemma_first_line(lines, closes, header + 1);
        let listed = lines.subrange(header + 1, end);
        let kept = listed.filter(keep);
        assert forall|i: int| 0 <= i < schemes_in(text).len() implies is_scheme_name(
            #[trigger] schemes_in(text)[i],
        ) by {
            let line = kept[i];
            assert(schemes_in(text)[i] == text::trimmed(line));
            listed.lemma_filter_contains_rev(keep, line);
            assert(listed.contains(line) && keep(line));
            let k = choose|k: int| 0 <= k < listed.len() && listed[k] == line;
            assert(lines[header + 1 + k] == line);
            assert(!closes(lines[header + 1 + k]));
            text::law_trim_twice(line);
            let (from, to) = text::law_trimmed(line);
            text::law_lines_hold_no_line_feed(text);
            assert forall|j: int| 0 <= j < text::trimmed(line).len() implies text::trimmed(line)[j]
                != '\n' by {
                assert(text::trimmed(line)[j] == lines[header + 1 + k][from + j]);
            }
        }
    } else {
        reveal(Seq::filter);
    }
}

/// The lines of a listing: each name behind the same indent.
pub open spec fn listing(indent: Seq<char>, names: Seq<Seq<char>>) -> Seq<char>
    decreases names.len(),
{
    if names.len() == 0 {
        Seq::empty()
    } else {
        listing(indent, names.drop_last()) + (indent + names.last()).push('\n')
    }
}

#[verifier::spinoff_prover]
proof fn lemma_indented_name(indent: Seq<char>, name: Seq<char>)
    requires
        forall|i: int| 0 <= i < indent.len() ==> text::is_white(#[trigger] indent[i]),
        name.len() > 0,
        text::trimmed(name) == name,
    ensures
        text::trimmed(indent + name) == name,
        text::without_return(indent + name) == indent + name,
{
    let (from, to) = text::law_trimmed(name);
    assert(from == 0 && to == name.len());
    let line = indent + name;
    assert forall|i: int| 0 <= i < indent.len() implies text::is_white(#[trigger] line[i]) by {
        assert(line[i] == indent[i]);
    }
    assert(line[indent.len() as int] == name[0]);
    assert(line[line.len() - 1] == name[name.len() - 1]);
    text::lemma_trimmed_is(line, indent.len() as int, line.len() as int);
    assert(line.subrange(indent.len() as int, line.len() as int) == name);
}

proof fn lemma_listing_lines(indent: Seq<char>, names: Seq<Seq<char>>)
    requires
        forall|i: int|
            0 <= i < indent.len() ==> text::is_white(#[trigger] indent[i]) && indent[i] != '\n',
        forall|i: int| 0 <= i < names.len() ==> is_scheme_name(#[trigger] names[i]),
    ensures
        listing(indent, names).len() > 0 ==> listing(indent, names).last() == '\n',
        text::lines_of(listing(indent, names)) == names.map_values(|name: Seq<char>| indent + name),
    decreases names.len(),
{
    let expected = names.map_values(|name: Seq<char>| indent + name);
    if names.len() == 0 {
        assert(expected == Seq::<Seq<char>>::empty());
    } else {
        let init = names.drop_last();
        let name = names.last();
        assert forall|i: int| 0 <= i < init.len() implies is_scheme_name(#[trigger] init[i]) by {
            assert(init[i] == names[i]);
        }
        lemma_listing_lines(indent, init);
        lemma_indented_name(indent, name);
        let line = indent + name;
        assert forall|i: int| 0 <= i < line.len() implies line[i] != '\n' by {
            if i >= indent.len() {
                assert(name.contains(line[i]));
            }
        }
        text::lemma_lines_of_one(line);
        text::law_lines_of_joined(listing(indent, init), line.push('\n'));
        assert(expected == init.map_values(|name: Seq<char>| indent + name) + seq![line]);
    }
}

proof fn lemma_names_on_indented(indent: Seq<char>, names: Seq<Seq<char>>)
    requires
        forall|i: int| 0 <= i < indent.len() ==> text::is_white(#[trigger] indent[i]),
        forall|i: int| 0 <= i < names.len() ==> is_scheme_name(#[trigger] names[i]),
    ensures
        names_on(names.map_values(|name: Seq<char>| indent + name)) == names,
    decreases names.len(),
{
    let lines = names.map_values(|name: Seq<char>| indent + name);
    if names.len() == 0 {
        reveal(Seq::filter);
        assert(names_on(lines) == names);
    } else {
        let init = names.drop_last();
        assert forall|i: int| 0 <= i < init.len() implies is_scheme_name(#[trigger] init[i]) by {
            assert(init[i] == names[i]);
        }
        lemma_names_on_indented(indent, init);
        lemma_indented_name(indent, names.last());
        let before = init.map_values(|name: Seq<char>| indent + name);
        assert(lines == before.push(indent + names.last()));
        lemma_names_push(before, indent + names.last());
        assert(init.push(names.last()) == names);
    }
}

/// A listing reads back: names written one to a line, with one indent, under a `Schemes:`
/// line with an indent of its own are exactly the names that are read, whatever
/// header-free lines stand above, and whatever stands below from a blank line or another
/// heading on. Either indent may be empty, but a name that ends in a colon needs one.
pub proof fn law_listing_reads_back(
    above: Seq<char>,
    head_indent: Seq<char>,
    indent: Seq<char>,
    names: Seq<Seq<char>>,
    below: Seq<char>,
)
    requires
        above.len() > 0 ==> above.last() == '\n',
        forall|i: int|
            0 <= i < text::lines_of(above).len() ==> !is_header(#[trigger] text::lines_of(above)[i]),
        forall|i: int|
            0 <= i < head_indent.len() ==> text::is_white(#[trigger] head_indent[i])
                && head_indent[i] != '\n',
        forall|i: int|
            0 <= i < indent.len() ==> text::is_white(#[trigger] indent[i]) && indent[i] != '\n',
        forall|i: int| 0 <= i < names.len() ==> is_scheme_name(#[trigger] names[i]),
        forall|i: int|
            0 <= i < names.len() && (#[trigger] names[i]).last() == ':' ==> indent.len() > 0,
        text::lines_of(below).len() > 0 ==> closes_list(text::lines_of(below)[0]),
    ensures
        schemes_in(
            above + (head_indent + "Schemes:"@).push('\n') + listing(indent, names) + below,
        ) == names,
{
    let header = head_indent + "Schemes:"@;
    let entries = names.map_values(|name: Seq<char>| indent + name);
    let whole = above + header.push('\n') + listing(indent, names) + below;
    let lines = text::lines_of(whole);
    let head = text::lines_of(above).len() as int;
    reveal_strlit("Schemes:");
    assert("Schemes:"@.subrange(0, 8) == "Schemes:"@);
    text::lemma_trimmed_is("Schemes:"@, 0, 8);
    lemma_indented_name(head_indent, "Schemes:"@);
    assert forall|i: int| 0 <= i < header.len() implies header[i] != '\n' by {}
    text::lemma_lines_of_one(header);
    lemma_listing_lines(indent, names);
    let tail = listing(indent, names) + below;
    text::law_lines_of_joined(listing(indent, names), below);
    text::law_lines_of_joined(header.push('\n'), tail);
    text::law_lines_of_joined(above, header.push('\n') + tail);
    assert(whole == above + (header.push('\n') + tail));
    assert(lines == text::lines_of(above) + (seq![header] + (entries + text::lines_of(below))));
    let is_head = |line: Seq<char>| is_header(line);
    let closes = |line: Seq<char>| closes_list(line);
    assert forall|i: int| 0 <= i < head implies !is_head(#[trigger] lines[i]) by {
        assert(lines[i] == text::lines_of(above)[i]);
    }
    assert(lines[head] == header);
    lemma_first_line_is(lines, is_head, 0, head);
    let end = head + 1 + names.len();
    assert forall|i: int| head + 1 <= i < end implies !closes(#[trigger] lines[i]) by {
        let name = names[i - head - 1];
        assert(lines[i] == indent + name);
        lemma_indented_name(indent, name);
        if indent.len() > 0 {
            assert(text::is_white(indent[0]));
        } else {
            assert(lines[i] == name);
            let (from, to) = text::law_trimmed(name);
            assert(to == name.len());
            assert(text::trimmed_end(name) == name);
        }
    }
    if end < lines.len() {
        assert(lines[end] == text::lines_of(below)[0]);
    }
    lemma_first_line_is(lines, closes, head + 1, end);
    assert(lines.subrange(head + 1, end) == entries);
    lemma_names_on_indented(indent, names);
}

/// Two lists of strings that hold the same texts, one by one.
pub open spec fn same_texts(a: Seq<String>, b: Seq<String>) -> bool {
    &&& a.len() == b.len()
    &&& forall|i: int| 0 <= i < a.len() ==> (#[trigger] a[i])@ == b[i]@
}

/// A line of a listing: a name, and the white space before and behind it.
pub struct Entry {
    pub before: Seq<char>,
    pub name: Seq<char>,
    pub behind: Seq<char>,
}

impl Entry {
    /// The characters of the line.
    pub open spec fn line(self) -> Seq<char> {
        self.before + self.name + self.behind
    }

    /// A line that names a scheme, or that repeats the header. One that ends in a colon does
    /// so only if it is indented, or the header.
    pub open spec fn is_fine(self) -> bool {
        &&& text::all_blank(self.before)
        &&& text::is_solid(self.name)
        &&& text::all_blank(self.behind)
        &&& self.before.len() > 0 || self.name.last() != ':' || self.name == "Schemes:"@
    }
}

/// A line below the list: one of white space alone, or an unindented one that ends in a colon
/// and is not the header.
pub open spec fn is_below(line: Seq<char>) -> bool {
    ||| text::all_blank(line)
    ||| exists|heading: Seq<char>, behind: Seq<char>|
        {
            &&& text::is_solid(heading)
            &&& heading.last() == ':'
            &&& heading != "Schemes:"@
            &&& text::all_blank(behind)
            &&& line == #[trigger] (heading + behind)
        }
}

proof fn lemma_same_reading(line: Seq<char>, read: Seq<char>)
    requires
        read == line || read == text::without_return(line),
    ensures
        text::trimmed(read) == text::trimmed(line),
        is_header(read) == is_header(line),
        closes_list(read) == closes_list(line),
{
    text::lemma_return_is_blank(line);
}

proof fn lemma_entry(entry: Entry)
    requires
        entry.is_fine(),
    ensures
        text::trimmed(entry.line()) == entry.name,
        !closes_list(entry.line()),
{
    text::lemma_trimmed_between(entry.before, entry.name, entry.behind);
    if entry.before.len() > 0 {
        text::law_blanks(entry.before[0]);
        assert(entry.line().first() == entry.before[0]);
    } else {
        assert(entry.line() == entry.name + entry.behind);
        text::lemma_trimmed_end_of(entry.name, entry.behind);
    }
}

proof fn lemma_below(line: Seq<char>)
    requires
        is_below(line),
    ensures
        closes_list(line),
{
    let none = Seq::<char>::empty();
    reveal_strlit("Schemes:");
    if text::all_blank(line) {
        text::lemma_trimmed_between(line, none, none);
        assert(line + none + none == line);
        assert(text::trimmed(line).len() == 0);
    } else {
        let (heading, behind) = choose|heading: Seq<char>, behind: Seq<char>|
            {
                &&& text::is_solid(heading)
                &&& heading.last() == ':'
                &&& heading != "Schemes:"@
                &&& text::all_blank(behind)
                &&& line == #[trigger] (heading + behind)
            };
        text::lemma_trimmed_between(none, heading, behind);
        assert(none + heading + behind == line);
        text::lemma_trimmed_end_of(heading, behind);
        text::law_blanks(heading.first());
        assert(line.first() == heading.first());
    }
}

/// The names of `entries`, without repeated headers.
pub open spec fn names_of(entries: Seq<Entry>) -> Seq<Seq<char>> {
    entries.map_values(|entry: Entry| entry.name).filter(
        |name: Seq<char>| name != "Schemes:"@,
    )
}

proof fn lemma_names_of(lines: Seq<Seq<char>>, entries: Seq<Entry>)
    requires
        lines.len() == entries.len(),
        forall|i: int|
            0 <= i < lines.len() ==> text::trimmed(#[trigger] lines[i]) == entries[i].name,
    ensures
        names_on(lines) == names_of(entries),
    decreases lines.len(),
{
    reveal(Seq::filter);
    let all = entries.map_values(|entry: Entry| entry.name);
    if lines.len() == 0 {
        assert(names_on(lines) == names_of(entries));
    } else {
        let init = lines.drop_last();
        let rest = entries.drop_last();
        assert forall|i: int| 0 <= i < init.len() implies text::trimmed(#[trigger] init[i])
            == rest[i].name by {
            assert(init[i] == lines[i]);
        }
        lemma_names_of(init, rest);
        assert(lines == init.push(lines.last()));
        lemma_names_push(init, lines.last());
        assert(all.drop_last() == rest.map_values(|entry: Entry| entry.name));
        assert(text::trimmed(lines[lines.len() - 1]) == entries.last().name);
    }
}

/// The lines of a listing: those above the header, the header, the entries, and those from
/// the end of the list on.
pub open spec fn listing_lines(
    above: Seq<Seq<char>>,
    header: Entry,
    entries: Seq<Entry>,
    below: Seq<Seq<char>>,
) -> Seq<Seq<char>> {
    above + seq![header.line()] + entries.map_values(|entry: Entry| entry.line()) + below
}

/// The schemes that are read from a listing are the names on the lines between the first
/// `Schemes:` line, however indented, and the first line that is blank or an unindented
/// heading, or the end: each without the white space round it, in this order.
pub proof fn law_schemes_are_read_off_lines(
    listing_text: &str,
    above: Seq<Seq<char>>,
    header: Entry,
    entries: Seq<Entry>,
    below: Seq<Seq<char>>,
    found: Vec<String>,
)
    requires
        call_ensures(parse_schemes, (listing_text,), found),
        text::are_lines(listing_lines(above, header, entries, below)),
        text::is_written(listing_text@, listing_lines(above, header, entries, below)),
        forall|i: int|
            0 <= i < above.len() ==> !text::is_padded(#[trigger] above[i], "Schemes:"@),
        header.name == "Schemes:"@,
        text::all_blank(header.before),
        text::all_blank(header.behind),
        forall|i: int| 0 <= i < entries.len() ==> (#[trigger] entries[i]).is_fine(),
        below.len() > 0 ==> is_below(below[0]),
    ensures
        found@.len() == names_of(entries).len(),
        forall|i: int| 0 <= i < found@.len() ==> (#[trigger] found@[i])@ == names_of(entries)[i],
{
    let all = listing_lines(above, header, entries, below);
    let lines = text::lines_of(listing_text@);
    text::lemma_written_is_read(listing_text@, all);
    let is_head = |line: Seq<char>| is_header(line);
    let closes = |line: Seq<char>| closes_list(line);
    let head = above.len() as int;
    let end = head + 1 + entries.len();
    reveal_strlit("Schemes:");
    assert forall|i: int| 0 <= i < head implies !is_head(#[trigger] lines[i]) by {
        assert(all[i] == above[i]);
        lemma_same_reading(all[i], lines[i]);
        text::lemma_padded(above[i]);
    }
    assert(all[head] == header.line());
    lemma_same_reading(all[head], lines[head]);
    text::law_blanks('S');
    text::law_blanks(':');
    text::lemma_trimmed_between(header.before, header.name, header.behind);
    assert(is_head(lines[head]));
    lemma_first_line_is(lines, is_head, 0, head);
    assert forall|i: int| head + 1 <= i < end implies !closes(#[trigger] lines[i])
        && text::trimmed(lines[i]) == entries[i - head - 1].name by {
        let entry = entries[i - head - 1];
        assert(all[i] == entry.line());
        lemma_same_reading(all[i], lines[i]);
        lemma_entry(entry);
    }
    if end < lines.len() {
        assert(all[end] == below[0]);
        lemma_same_reading(all[end], lines[end]);
        lemma_below(below[0]);
    }
    lemma_first_line_is(lines, closes, head + 1, end);
    let listed = lines.subrange(head + 1, end);
    assert forall|i: int| 0 <= i < listed.len() implies text::trimmed(#[trigger] listed[i])
        == entries[i].name by {
        assert(listed[i] == lines[head + 1 + i]);
    }
    lemma_names_of(listed, entries);
    assert(texts(found@) == names_of(entries));
    assert(texts(found@).len() == found@.len());
    assert forall|i: int| 0 <= i < found@.len() implies (#[trigger] found@[i])@ == names_of(
        entries,
    )[i] by {
        assert(texts(found@)[i] == found@[i]@);
    }
}

/// Without a `Schemes:` line no scheme is read.
pub proof fn law_without_header_nothing_is_read(
    listing_text: &str,
    lines: Seq<Seq<char>>,
    found: Vec<String>,
)
    requires
        call_ensures(parse_schemes, (listing_text,), found),
        text::are_lines(lines),
        text::is_written(listing_text@, lines),
        forall|i: int|
            0 <= i < lines.len() ==> !text::is_padded(#[trigger] lines[i], "Schemes:"@),
    ensures
        found@.len() == 0,
{
    let read = text::lines_of(listing_text@);
    text::lemma_written_is_read(listing_text@, lines);
    assert forall|i: int| 0 <= i < read.len() implies !is_header(#[trigger] read[i]) by {
        lemma_same_reading(lines[i], read[i]);
        text::lemma_padded(lines[i]);
    }
    law_no_header_no_schemes(listing_text@);
    assert(texts(found@).len() == found@.len());
}

} // verus!
