//! The configuration file as lines: sections in brackets, and one `key = value` to a line.

use vstd::prelude::*;
use vstd::string::StringExecFns;

use crate::text;

verus! {

/// The text of a list of lines, each with a line break behind it.
pub open spec fn lines_text(lines: Seq<Seq<char>>) -> Seq<char>
    decreases lines.len(),
{
    if lines.len() == 0 {
        Seq::empty()
    } else {
        lines[0] + seq!['\n'] + lines_text(lines.skip(1))
    }
}

/// A line that gives a key a bare value.
pub open spec fn entry(key: Seq<char>, value: Seq<char>) -> Seq<char> {
    key + " = "@ + value
}

/// A text in quotes.
pub open spec fn quoted(s: Seq<char>) -> Seq<char> {
    seq!['"'] + s + seq!['"']
}

/// How many characters stand in front of the first line break.
pub open spec fn line_length(s: Seq<char>) -> nat
    decreases s.len(),
{
    if s.len() == 0 || s[0] == '\n' {
        0
    } else {
        1 + line_length(s.skip(1))
    }
}

/// The lines of a text. What stands behind the last line break is a line where it is not
/// empty.
pub open spec fn text_lines(s: Seq<char>) -> Seq<Seq<char>>
    decreases s.len(),
{
    let n = line_length(s) as int;
    if s.len() == 0 {
        Seq::empty()
    } else if n < s.len() {
        seq![s.take(n)] + text_lines(s.skip(n + 1))
    } else {
        seq![s]
    }
}

/// Whether a line starts a section.
pub open spec fn starts_section(line: Seq<char>) -> bool {
    line.len() > 0 && line[0] == '['
}

/// Whether a line gives a value to a key.
pub open spec fn gives(line: Seq<char>, key: Seq<char>) -> bool {
    (key + " = "@).is_prefix_of(line)
}

/// The value that the lines from `i` on first give to a key of a section, where the lines in
/// front of them are in the section `current`. A section is known by the line that starts it.
pub open spec fn value_from(
    lines: Seq<Seq<char>>,
    i: int,
    current: Seq<char>,
    section: Seq<char>,
    key: Seq<char>,
) -> Option<Seq<char>>
    decreases lines.len() - i,
{
    if i >= lines.len() {
        None
    } else if starts_section(lines[i]) {
        value_from(lines, i + 1, lines[i], section, key)
    } else if current == section && gives(lines[i], key) {
        Some(lines[i].skip(key.len() as int + 3))
    } else {
        value_from(lines, i + 1, current, section, key)
    }
}

/// The value of a key in a configuration file. The section is the line that starts it, and
/// empty for the keys in front of every section.
pub open spec fn config_value(file: Seq<char>, section: Seq<char>, key: Seq<char>) -> Option<
    Seq<char>,
> {
    value_from(text_lines(file), 0, Seq::empty(), section, key)
}

/// Whether a text can stand in quotes as it is: it has no quote, no backslash and no control
/// character.
pub open spec fn printable(s: Seq<char>) -> bool {
    forall|i: int|
        0 <= i < s.len() ==> {
            let c = #[trigger] s[i];
            c >= ' ' && c != '"' && c != '\\' && c != '\u{7f}'
        }
}

/// The text that a value in quotes stands for, where nothing in it is escaped.
pub open spec fn unquoted(value: Seq<char>) -> Option<Seq<char>> {
    let n = value.len() as int;
    if n >= 2 && value[0] == '"' && value[n - 1] == '"' && printable(value.subrange(1, n - 1)) {
        Some(value.subrange(1, n - 1))
    } else {
        None
    }
}

/// The text of a key in a configuration file.
pub open spec fn config_string(file: Seq<char>, section: Seq<char>, key: Seq<char>) -> Option<
    Seq<char>,
> {
    match config_value(file, section, key) {
        Some(value) => unquoted(value),
        None => None,
    }
}

/// Writes a line that gives a key a bare value.
pub fn bare_entry(key: &str, value: &str) -> (line: String)
    ensures
        line@ == entry(key@, value@),
{
    let mut line: String = key.to_owned();
    line.append(" = ");
    line.append(value);
    line
}

/// Writes a line that gives a key a text.
pub fn text_entry(key: &str, value: &str) -> (line: String)
    ensures
        line@ == entry(key@, quoted(value@)),
{
    let mut line: String = key.to_owned();
    line.append(" = \"");
    line.append(value);
    line.append("\"");
    proof {
        reveal_strlit(" = \"");
        reveal_strlit(" = ");
        reveal_strlit("\"");
    }
    assert(line@ =~= entry(key@, quoted(value@)));
    line
}

/// One more line at the end.
proof fn lines_text_push(lines: Seq<Seq<char>>, line: Seq<char>)
    ensures
        lines_text(lines.push(line)) == lines_text(lines) + line + seq!['\n'],
    decreases lines.len(),
{
    let more = lines.push(line);
    if lines.len() == 0 {
        assert(more.skip(1).len() == 0);
        assert(lines_text(more.skip(1)) =~= Seq::empty());
        assert(lines_text(more) =~= lines_text(lines) + line + seq!['\n']);
    } else {
        assert(more.skip(1) =~= lines.skip(1).push(line));
        lines_text_push(lines.skip(1), line);
        assert(lines_text(more) =~= lines_text(lines) + line + seq!['\n']);
    }
}

/// Writes lines, each with a line break behind it.
pub fn write_lines(lines: &Vec<String>) -> (file: String)
    ensures
        file@ == lines_text(text::texts(lines@)),
{
    let ghost all = text::texts(lines@);
    let mut file: String = String::new();
    let mut i: usize = 0;
    while i < lines.len()
        invariant
            i <= lines@.len(),
            all == text::texts(lines@),
            file@ == lines_text(all.take(i as int)),
        decreases lines@.len() - i,
    {
        file.append(lines[i].as_str());
        file.append("\n");
        proof {
            reveal_strlit("\n");
            assert("\n"@ =~= seq!['\n']);
            assert(all.take(i + 1) =~= all.take(i as int).push(lines@[i as int]@));
            lines_text_push(all.take(i as int), lines@[i as int]@);
        }
        i = i + 1;
    }
    assert(all.take(i as int) =~= all);
    file
}

/// A text without line breaks, then one: the text is counted.
proof fn line_length_of(line: Seq<char>, rest: Seq<char>)
    requires
        !line.contains('\n'),
    ensures
        line_length(line + seq!['\n'] + rest) == line.len(),
    decreases line.len(),
{
    let s = line + seq!['\n'] + rest;
    if line.len() > 0 {
        assert(line[0] != '\n');
        assert(s.skip(1) =~= line.skip(1) + seq!['\n'] + rest);
        assert(!line.skip(1).contains('\n')) by {
            if line.skip(1).contains('\n') {
                let i = choose|i: int| 0 <= i < line.skip(1).len() && line.skip(1)[i] == '\n';
                assert(line[i + 1] == '\n');
            }
        }
        line_length_of(line.skip(1), rest);
    }
}

/// Lines: what is written as lines is read back as those lines.
pub proof fn law_lines_are_read_back(lines: Seq<Seq<char>>)
    requires
        forall|i: int| 0 <= i < lines.len() ==> !(#[trigger] lines[i]).contains('\n'),
    ensures
        text_lines(lines_text(lines)) == lines,
    decreases lines.len(),
{
    let s = lines_text(lines);
    if lines.len() > 0 {
        let rest = lines.skip(1);
        assert forall|i: int| 0 <= i < rest.len() implies !(#[trigger] rest[i]).contains('\n') by {
            assert(!lines[i + 1].contains('\n'));
        }
        law_lines_are_read_back(rest);
        line_length_of(lines[0], lines_text(rest));
        let n = lines[0].len() as int;
        assert(s.take(n) =~= lines[0]);
        assert(s.skip(n + 1) =~= lines_text(rest));
        assert(text_lines(s) =~= lines);
    } else {
        assert(lines =~= Seq::empty());
    }
}

/// An entry gives its value to its key, and to no other.
proof fn entry_gives_its_key(key: Seq<char>, value: Seq<char>, other: Seq<char>)
    requires
        !key.contains(' '),
        !other.contains(' '),
    ensures
        gives(entry(key, value), other) <==> other == key,
        entry(key, value).skip(key.len() as int + 3) == value,
{
    reveal_strlit(" = ");
    let line = entry(key, value);
    let n = key.len() as int;
    assert(" = "@.len() == 3 && " = "@[0] == ' ');
    assert(line.skip(n + 3) =~= value);
    assert(line.subrange(0, n + 3) =~= key + " = "@);
    assert(line[n] == ' ');
    if gives(line, other) {
        let m = other.len() as int;
        let start = other + " = "@;
        assert(start =~= line.subrange(0, m + 3));
        assert(start[m] == line[m]);
        if m < n {
            assert(key[m] == ' ');
        } else if n < m {
            assert(start[n] == line[n]);
            assert(other[n] == ' ');
        }
        assert(m == n);
        assert forall|i: int| 0 <= i < n implies other[i] == key[i] by {
            assert(start[i] == line[i]);
        }
        assert(other =~= key);
    }
}

/// Whether a line neither starts a section nor gives a key a value: it is empty or a comment.
pub open spec fn silent(line: Seq<char>) -> bool {
    line.len() == 0 || line[0] == '#'
}

/// Whether a text can be a key.
pub open spec fn is_key(key: Seq<char>) -> bool {
    &&& key.len() > 0
    &&& key[0] != '['
    &&& key[0] != '#'
    &&& !key.contains(' ')
}

/// A silent line is passed over.
pub proof fn silent_line(
    lines: Seq<Seq<char>>,
    i: int,
    current: Seq<char>,
    section: Seq<char>,
    key: Seq<char>,
)
    requires
        0 <= i < lines.len(),
        silent(lines[i]),
        is_key(key),
    ensures
        value_from(lines, i, current, section, key) == value_from(
            lines,
            i + 1,
            current,
            section,
            key,
        ),
{
    if gives(lines[i], key) {
        assert((key + " = "@)[0] == lines[i][0]);
    }
}

/// An entry gives the value where key and section are its own, and is passed over otherwise.
pub proof fn entry_line(
    lines: Seq<Seq<char>>,
    i: int,
    at: Seq<char>,
    value: Seq<char>,
    current: Seq<char>,
    section: Seq<char>,
    key: Seq<char>,
)
    requires
        0 <= i < lines.len(),
        is_key(at),
        is_key(key),
        lines[i] == entry(at, value),
    ensures
        value_from(lines, i, current, section, key) == (if current == section && key == at {
            Some(value)
        } else {
            value_from(lines, i + 1, current, section, key)
        }),
{
    entry_gives_its_key(at, value, key);
    assert(lines[i][0] == at[0]);
}

/// Whether a character is missing from the positions from `i` on.
pub open spec fn lacks(s: Seq<char>, c: char, i: int) -> bool
    decreases s.len() - i,
{
    i >= s.len() || (s[i] != c && lacks(s, c, i + 1))
}

/// What is missing from every position is not in a text.
pub proof fn lacking_is_not_containing(s: Seq<char>, c: char, i: int)
    requires
        0 <= i,
        lacks(s, c, i),
    ensures
        forall|j: int| i <= j < s.len() ==> #[trigger] s[j] != c,
        i == 0 ==> !s.contains(c),
    decreases s.len() - i,
{
    if i < s.len() {
        lacking_is_not_containing(s, c, i + 1);
    }
}

/// The parts of an entry have no line break, and so the entry has none.
pub proof fn entry_is_one_line(key: Seq<char>, value: Seq<char>)
    requires
        !key.contains('\n'),
        !value.contains('\n'),
    ensures
        !entry(key, value).contains('\n'),
        !quoted(value).contains('\n'),
{
    reveal_strlit(" = ");
    let line = entry(key, value);
    if line.contains('\n') {
        let i = choose|i: int| 0 <= i < line.len() && line[i] == '\n';
        if i < key.len() {
            assert(key[i] == '\n');
        } else if i >= key.len() + 3 {
            assert(value[i - key.len() - 3] == '\n');
        }
    }
    let q = quoted(value);
    if q.contains('\n') {
        let i = choose|i: int| 0 <= i < q.len() && q[i] == '\n';
        assert(value[i - 1] == '\n');
    }
}

/// Text values: a printable text that stands in quotes is read back.
pub proof fn law_quoted_text_is_read_back(s: Seq<char>)
    requires
        printable(s),
    ensures
        unquoted(quoted(s)) == Some(s),
{
    let q = quoted(s);
    assert(q.subrange(1, q.len() - 1) =~= s);
}

} // verus!
