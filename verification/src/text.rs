//! Text helpers: decoding bytes, comparing, splitting and trimming strings.

use vstd::prelude::*;

use crate::number;

verus! {

/// The text of an optional string.
pub open spec fn optional_text(s: Option<String>) -> Option<Seq<char>> {
    match s {
        Some(s) => Some(s@),
        None => None,
    }
}

/// The texts of a list of strings.
pub open spec fn texts(list: Seq<String>) -> Seq<Seq<char>> {
    list.map_values(|s: String| s@)
}

/// What `String::from_utf8_lossy` makes of a byte string that is not well-formed UTF-8.
pub uninterp spec fn utf8_lossy(bytes: Seq<u8>) -> Seq<char>;

/// The text of a byte string, with malformed UTF-8 replaced.
pub open spec fn decoded(bytes: Seq<u8>) -> Seq<char> {
    if vstd::utf8::valid_utf8(bytes) {
        vstd::utf8::decode_utf8(bytes)
    } else {
        utf8_lossy(bytes)
    }
}

/// Calls `String::from_utf8_lossy`. For well-formed UTF-8 the result is the text that the
/// bytes encode; for other bytes it is a function of the bytes alone, and how they are
/// replaced is left to the name.
#[verifier::external_body]
pub(crate) fn lossy_text(bytes: &[u8]) -> (text: String)
    ensures
        text@ == (if vstd::utf8::valid_utf8(bytes@) {
            vstd::utf8::decode_utf8(bytes@)
        } else {
            utf8_lossy(bytes@)
        }),
{
    String::from_utf8_lossy(bytes).into_owned()
}

/// Text survives being encoded and decoded again.
pub proof fn lemma_decodes_what_was_encoded(text: Seq<char>)
    ensures
        decoded(vstd::utf8::encode_utf8(text)) == text,
{
    vstd::utf8::encode_utf8_valid_utf8(text);
    vstd::utf8::encode_utf8_decode_utf8(text);
}

/// Calls `std::str::from_utf8`: the text that the bytes encode where they are well-formed
/// UTF-8, and nothing where they are not.
#[verifier::external_body]
pub(crate) fn utf8_text(bytes: &[u8]) -> (r: Option<String>)
    ensures
        r is Some <==> vstd::utf8::valid_utf8(bytes@),
        r matches Some(text) ==> text@ == vstd::utf8::decode_utf8(bytes@),
{
    match std::str::from_utf8(bytes) {
        Ok(text) => Some(text.to_owned()),
        Err(_) => None,
    }
}

/// Whether two texts are the same.
pub fn same(a: &str, b: &str) -> (r: bool)
    ensures
        r == (a@ == b@),
{
    let x: Vec<char> = number::chars_of(a);
    let y: Vec<char> = number::chars_of(b);
    if x.len() != y.len() {
        return false;
    }
    assert(x@.subrange(0, x@.len() as int) =~= x@);
    same_from(&x, 0, &y)
}

/// Whether the characters of `y` stand in `x` from a place on.
fn same_from(x: &Vec<char>, at: usize, y: &Vec<char>) -> (r: bool)
    requires
        at + y@.len() <= x@.len(),
    ensures
        r == (x@.subrange(at as int, at + y@.len()) == y@),
{
    let n: usize = x.len();
    let mut i: usize = 0;
    while i < y.len()
        invariant
            i <= y@.len(),
            at + y@.len() <= x@.len() == n,
            forall|j: int| 0 <= j < i ==> x@[at + j] == #[trigger] y@[j],
        decreases y@.len() - i,
    {
        if x[at + i] != y[i] {
            assert(x@.subrange(at as int, at + y@.len())[i as int] != y@[i as int]);
            return false;
        }
        i = i + 1;
    }
    assert(x@.subrange(at as int, at + y@.len()) =~= y@);
    true
}

/// Whether a text starts with another.
pub fn starts_with(s: &str, prefix: &str) -> (r: bool)
    ensures
        r == prefix@.is_prefix_of(s@),
{
    let x: Vec<char> = number::chars_of(s);
    let y: Vec<char> = number::chars_of(prefix);
    y.len() <= x.len() && same_from(&x, 0, &y)
}

/// Whether a text ends with another.
pub fn ends_with(s: &str, suffix: &str) -> (r: bool)
    ensures
        r == suffix@.is_suffix_of(s@),
{
    let x: Vec<char> = number::chars_of(s);
    let y: Vec<char> = number::chars_of(suffix);
    y.len() <= x.len() && same_from(&x, x.len() - y.len(), &y)
}

/// Whether a character occurs in a text.
pub fn contains_char(s: &str, c: char) -> (r: bool)
    ensures
        r == s@.contains(c),
{
    let x: Vec<char> = number::chars_of(s);
    let mut i: usize = 0;
    while i < x.len()
        invariant
            i <= x@.len(),
            x@ == s@,
            forall|j: int| 0 <= j < i ==> #[trigger] x@[j] != c,
        decreases x@.len() - i,
    {
        if x[i] == c {
            assert(s@[i as int] == c);
            return true;
        }
        i = i + 1;
    }
    false
}

/// Whether a character is white space (Unicode `White_Space`).
pub open spec fn is_space(c: char) -> bool {
    let u = c as u32;
    ||| 9 <= u <= 13
    ||| u == 0x20
    ||| u == 0x85
    ||| u == 0xa0
    ||| u == 0x1680
    ||| 0x2000 <= u <= 0x200a
    ||| u == 0x2028
    ||| u == 0x2029
    ||| u == 0x202f
    ||| u == 0x205f
    ||| u == 0x3000
}

fn space(c: char) -> (r: bool)
    ensures
        r == is_space(c),
{
    let u: u32 = c as u32;
    (9 <= u && u <= 13) || u == 0x20 || u == 0x85 || u == 0xa0 || u == 0x1680 || (0x2000 <= u && u
        <= 0x200a) || u == 0x2028 || u == 0x2029 || u == 0x202f || u == 0x205f || u == 0x3000
}

/// A text without the white space at its start.
pub open spec fn trimmed_start(s: Seq<char>) -> Seq<char>
    decreases s.len(),
{
    if s.len() > 0 && is_space(s[0]) {
        trimmed_start(s.skip(1))
    } else {
        s
    }
}

/// A text without the white space at its end.
pub open spec fn trimmed_end(s: Seq<char>) -> Seq<char>
    decreases s.len(),
{
    if s.len() > 0 && is_space(s.last()) {
        trimmed_end(s.drop_last())
    } else {
        s
    }
}

/// A text without the white space at its start and at its end.
pub open spec fn trimmed(s: Seq<char>) -> Seq<char> {
    trimmed_end(trimmed_start(s))
}

/// Takes the white space off both ends of a text.
pub fn trim(s: &str) -> (r: &str)
    ensures
        r@ == trimmed(s@),
{
    let x: Vec<char> = number::chars_of(s);
    let mut from: usize = 0;
    assert(s@.skip(0) =~= s@);
    while from < x.len() && space(x[from])
        invariant
            from <= x@.len(),
            x@ == s@,
            trimmed_start(s@.skip(from as int)) == trimmed_start(s@),
        decreases x@.len() - from,
    {
        assert(s@.skip(from as int).skip(1) =~= s@.skip(from + 1));
        from = from + 1;
    }
    assert(trimmed_start(s@) == s@.skip(from as int));
    let mut to: usize = x.len();
    assert(s@.subrange(from as int, to as int) =~= s@.skip(from as int));
    while from < to && space(x[to - 1])
        invariant
            from <= to <= x@.len(),
            x@ == s@,
            trimmed_end(s@.subrange(from as int, to as int)) == trimmed(s@),
        decreases to - from,
    {
        assert(s@.subrange(from as int, to as int).drop_last() =~= s@.subrange(
            from as int,
            to - 1,
        ));
        to = to - 1;
    }
    s.substring_char(from, to)
}

/// What a text is split at.
#[derive(Clone, Copy, Debug, PartialEq, Eq, Structural)]
pub enum Separator {
    Underscore,
    Whitespace,
}

impl Separator {
    /// Whether a character is a separator of this kind.
    pub open spec fn splits(self, c: char) -> bool {
        match self {
            Separator::Underscore => c == '_',
            Separator::Whitespace => is_space(c),
        }
    }

    fn splits_at(self, c: char) -> (r: bool)
        ensures
            r == self.splits(c),
    {
        match self {
            Separator::Underscore => c == '_',
            Separator::Whitespace => space(c),
        }
    }
}

/// How many characters a text has before its first separator.
pub open spec fn run_length(s: Seq<char>, sep: Separator) -> nat
    decreases s.len(),
{
    if s.len() > 0 && !sep.splits(s[0]) {
        1 + run_length(s.skip(1), sep)
    } else {
        0
    }
}

/// The non-empty pieces between the separators of a text, in order.
pub open spec fn pieces(s: Seq<char>, sep: Separator) -> Seq<Seq<char>>
    decreases s.len(),
{
    if s.len() == 0 {
        Seq::empty()
    } else if sep.splits(s[0]) {
        pieces(s.skip(1), sep)
    } else {
        let n = run_length(s, sep) as int;
        if 0 < n <= s.len() {
            seq![s.take(n)] + pieces(s.skip(n), sep)
        } else {
            Seq::empty()
        }
    }
}

proof fn run_length_bound(s: Seq<char>, sep: Separator)
    ensures
        run_length(s, sep) <= s.len(),
    decreases s.len(),
{
    if s.len() > 0 && !sep.splits(s[0]) {
        run_length_bound(s.skip(1), sep);
    }
}

/// Splits a text at its separators and leaves empty pieces out.
pub fn split(s: &str, sep: Separator) -> (out: Vec<String>)
    ensures
        texts(out@) == pieces(s@, sep),
{
    let x: Vec<char> = number::chars_of(s);
    let n: usize = x.len();
    let mut out: Vec<String> = Vec::new();
    let mut i: usize = 0;
    assert(s@.skip(0) =~= s@);
    assert(texts(out@) + pieces(s@, sep) =~= pieces(s@, sep));
    while i < n
        invariant
            i <= n == x@.len(),
            x@ == s@,
            texts(out@) + pieces(s@.skip(i as int), sep) == pieces(s@, sep),
        decreases n - i,
    {
        let ghost rest = s@.skip(i as int);
        if sep.splits_at(x[i]) {
            assert(rest.skip(1) =~= s@.skip(i + 1));
            i = i + 1;
        } else {
            let mut j: usize = i;
            while j < n && !sep.splits_at(x[j])
                invariant
                    i <= j <= n == x@.len(),
                    x@ == s@,
                    run_length(s@.skip(i as int), sep) == j - i + run_length(
                        s@.skip(j as int),
                        sep,
                    ),
                decreases n - j,
            {
                assert(s@.skip(j as int).skip(1) =~= s@.skip(j + 1));
                j = j + 1;
            }
            let ghost before = texts(out@);
            let piece: String = s.substring_char(i, j).to_owned();
            proof {
                run_length_bound(rest, sep);
                assert(piece@ =~= rest.take(j - i));
                assert(rest.skip(j - i) =~= s@.skip(j as int));
            }
            out.push(piece);
            proof {
                let tail = pieces(s@.skip(j as int), sep);
                assert(texts(out@) =~= before.push(piece@));
                assert(before.push(piece@) + tail =~= before + (seq![piece@] + tail));
            }
            i = j;
        }
    }
    assert(texts(out@) + pieces(s@.skip(n as int), sep) =~= texts(out@));
    out
}

proof fn run_length_before_separator(s: Seq<char>, c: char, sep: Separator)
    requires
        sep.splits(c),
    ensures
        run_length(s.push(c), sep) == run_length(s, sep),
    decreases s.len(),
{
    if s.len() > 0 && !sep.splits(s[0]) {
        assert(s.push(c).skip(1) =~= s.skip(1).push(c));
        run_length_before_separator(s.skip(1), c, sep);
    }
}

/// Splitting: a separator at either end of a text changes no piece and no piece's place.
pub proof fn law_outer_separators_do_not_matter(s: Seq<char>, c: char, sep: Separator)
    requires
        sep.splits(c),
    ensures
        pieces(seq![c] + s, sep) == pieces(s, sep),
        pieces(s.push(c), sep) == pieces(s, sep),
    decreases s.len(),
{
    assert((seq![c] + s).skip(1) =~= s);
    let t = s.push(c);
    if s.len() == 0 {
        assert(t.skip(1) =~= s);
    } else if sep.splits(s[0]) {
        assert(t.skip(1) =~= s.skip(1).push(c));
        law_outer_separators_do_not_matter(s.skip(1), c, sep);
    } else {
        let n = run_length(s, sep) as int;
        run_length_bound(s, sep);
        run_length_before_separator(s, c, sep);
        assert(t.take(n) =~= s.take(n));
        assert(t.skip(n) =~= s.skip(n).push(c));
        law_outer_separators_do_not_matter(s.skip(n), c, sep);
    }
}

/// Two words with a separator between them are the pieces of the text.
pub proof fn two_pieces(first: Seq<char>, c: char, second: Seq<char>, sep: Separator)
    requires
        first.len() > 0,
        second.len() > 0,
        forall|i: int| 0 <= i < first.len() ==> !sep.splits(#[trigger] first[i]),
        forall|i: int| 0 <= i < second.len() ==> !sep.splits(#[trigger] second[i]),
        sep.splits(c),
    ensures
        pieces(first + seq![c] + second, sep) == seq![first, second],
{
    let s = first + seq![c] + second;
    let rest = seq![c] + second;
    run_length_of_word(first, rest, sep);
    run_length_of_word(second, Seq::empty(), sep);
    assert(s =~= first + rest);
    assert(second + Seq::<char>::empty() =~= second);
    assert(!sep.splits(first[0]) && !sep.splits(second[0]));
    let n = first.len() as int;
    assert(s.take(n) =~= first);
    assert(s.skip(n) =~= rest);
    assert(rest.skip(1) =~= second);
    let m = second.len() as int;
    assert(second.take(m) =~= second);
    assert(second.skip(m) =~= Seq::<char>::empty());
    assert(pieces(second.skip(m), sep) =~= Seq::<Seq<char>>::empty());
    assert(pieces(second, sep) =~= seq![second]);
    assert(pieces(rest, sep) == pieces(second, sep));
    assert(pieces(s, sep) =~= seq![first, second]);
}

proof fn run_length_of_word(word: Seq<char>, rest: Seq<char>, sep: Separator)
    requires
        forall|i: int| 0 <= i < word.len() ==> !sep.splits(#[trigger] word[i]),
        rest.len() > 0 ==> sep.splits(rest[0]),
    ensures
        run_length(word + rest, sep) == word.len(),
    decreases word.len(),
{
    let s = word + rest;
    if word.len() > 0 {
        assert(!sep.splits(word[0]));
        assert(s.skip(1) =~= word.skip(1) + rest);
        assert forall|i: int| 0 <= i < word.skip(1).len() implies !sep.splits(
            #[trigger] word.skip(1)[i],
        ) by {
            assert(!sep.splits(word[i + 1]));
        }
        run_length_of_word(word.skip(1), rest, sep);
    } else {
        assert(s =~= rest);
    }
}

/// Separators: an underscore separates telemetry fields and nothing else does; blanks, tabs and
/// line ends separate words, and no printable ASCII character does.
pub proof fn law_separators(c: char)
    ensures
        Separator::Underscore.splits(c) <==> c == '_',
        c == ' ' || c == '\t' || c == '\n' || c == '\r' ==> Separator::Whitespace.splits(c),
        '!' <= c <= '~' ==> !Separator::Whitespace.splits(c),
{
}

/// Words: a text without separators is its own only piece, and an empty text has none.
pub proof fn law_word_is_its_piece(word: Seq<char>, sep: Separator)
    requires
        forall|i: int| 0 <= i < word.len() ==> !sep.splits(#[trigger] word[i]),
    ensures
        word.len() > 0 ==> pieces(word, sep) == seq![word],
        word.len() == 0 ==> pieces(word, sep) == Seq::<Seq<char>>::empty(),
{
    if word.len() > 0 {
        let n = word.len() as int;
        let none = Seq::<char>::empty();
        run_length_of_word(word, none, sep);
        assert(word + none =~= word);
        assert(!sep.splits(word[0]));
        assert(word.take(n) =~= word);
        assert(word.skip(n) =~= none);
        assert(pieces(none, sep) =~= Seq::<Seq<char>>::empty());
        assert(pieces(word, sep) =~= seq![word]);
    }
}

proof fn run_length_up_to(s: Seq<char>, c: char, rest: Seq<char>, sep: Separator)
    requires
        sep.splits(c),
    ensures
        run_length(s + seq![c] + rest, sep) == run_length(s, sep),
    decreases s.len(),
{
    let t = s + seq![c] + rest;
    if s.len() > 0 && !sep.splits(s[0]) {
        assert(t.skip(1) =~= s.skip(1) + seq![c] + rest);
        run_length_up_to(s.skip(1), c, rest, sep);
    }
}

/// Splitting: the pieces of two texts with a separator between them are those of the first and
/// then those of the second.
pub proof fn law_pieces_of_both_sides(a: Seq<char>, c: char, b: Seq<char>, sep: Separator)
    requires
        sep.splits(c),
    ensures
        pieces(a + seq![c] + b, sep) == pieces(a, sep) + pieces(b, sep),
    decreases a.len(),
{
    let s = a + seq![c] + b;
    if a.len() == 0 {
        assert(s.skip(1) =~= b);
        assert(pieces(a, sep) + pieces(b, sep) =~= pieces(b, sep));
    } else if sep.splits(a[0]) {
        assert(s.skip(1) =~= a.skip(1) + seq![c] + b);
        law_pieces_of_both_sides(a.skip(1), c, b, sep);
    } else {
        let n = run_length(a, sep) as int;
        run_length_bound(a, sep);
        run_length_up_to(a, c, b, sep);
        assert(s.take(n) =~= a.take(n));
        assert(s.skip(n) =~= a.skip(n) + seq![c] + b);
        law_pieces_of_both_sides(a.skip(n), c, b, sep);
        assert(seq![a.take(n)] + (pieces(a.skip(n), sep) + pieces(b, sep)) =~= (seq![a.take(n)]
            + pieces(a.skip(n), sep)) + pieces(b, sep));
    }
}

/// Trimming: white space in front of a text and behind it is taken off, and nothing else.
pub proof fn law_trimming_takes_white_space_off(pre: Seq<char>, s: Seq<char>, post: Seq<char>)
    requires
        forall|i: int| 0 <= i < pre.len() ==> is_space(#[trigger] pre[i]),
        forall|i: int| 0 <= i < post.len() ==> is_space(#[trigger] post[i]),
        s.len() > 0 ==> !is_space(s[0]) && !is_space(s.last()),
    ensures
        trimmed(pre + s + post) == s,
    decreases pre.len() + post.len(),
{
    let t = pre + s + post;
    if pre.len() > 0 {
        assert(is_space(pre[0]));
        assert(t[0] == pre[0]);
        assert(t.skip(1) =~= pre.skip(1) + s + post);
        assert forall|i: int| 0 <= i < pre.skip(1).len() implies is_space(
            #[trigger] pre.skip(1)[i],
        ) by {
            assert(is_space(pre[i + 1]));
        }
        law_trimming_takes_white_space_off(pre.skip(1), s, post);
    } else if s.len() == 0 {
        assert(t =~= post);
        if post.len() > 0 {
            assert(is_space(post[0]));
            let rest = post.skip(1);
            assert(rest =~= rest + s + Seq::<char>::empty());
            assert forall|i: int| 0 <= i < rest.len() implies is_space(#[trigger] rest[i]) by {
                assert(is_space(post[i + 1]));
            }
            let none = Seq::<char>::empty();
            assert(trimmed_start(post) == trimmed_start(rest));
            assert(rest =~= none + s + rest);
            law_trimming_takes_white_space_off(none, s, rest);
        }
        assert(s =~= Seq::empty());
    } else {
        assert(t =~= s + post);
        assert(t[0] == s[0]);
        assert(trimmed_start(t) == t);
        if post.len() > 0 {
            let less = post.drop_last();
            assert(is_space(post[post.len() - 1]));
            assert(t.last() == post.last());
            assert(t.drop_last() =~= pre + s + less);
            assert forall|i: int| 0 <= i < less.len() implies is_space(#[trigger] less[i]) by {
                assert(is_space(post[i]));
            }
            law_trimming_takes_white_space_off(pre, s, less);
            assert((pre + s + less)[0] == s[0]);
        } else {
            assert(t =~= s);
        }
    }
}

/// Optional texts and lists: a text that is there is the text, one that is not is none, and a list
/// of texts holds them in their order.
pub proof fn law_texts_show_their_contents(s: String, list: Seq<String>, i: int)
    ensures
        optional_text(Some(s)) == Some(s@),
        optional_text(None) is None,
        texts(list).len() == list.len(),
        0 <= i < list.len() ==> texts(list)[i] == list[i]@,
{
}

/// White space: these characters, and no others, are white space.
pub proof fn law_white_space(c: char)
    ensures
        is_space(c) <==> c == ' ' || '\t' <= c <= '\r' || c == '\u{85}' || c == '\u{a0}' || c
            == '\u{1680}' || '\u{2000}' <= c <= '\u{200a}' || c == '\u{2028}' || c == '\u{2029}'
            || c == '\u{202f}' || c == '\u{205f}' || c == '\u{3000}',
{
}

/// Bytes as text: well-formed UTF-8 is decoded to the text that it encodes.
pub proof fn law_text_is_decoded(s: Seq<char>)
    ensures
        decoded(vstd::utf8::encode_utf8(s)) == s,
{
    lemma_decodes_what_was_encoded(s);
}

} // verus!
