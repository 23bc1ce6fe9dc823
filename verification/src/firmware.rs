//! Best-effort extraction of the firmware version from the device's `/log` payload, whose
//! exact format is not known: JSON fields first, then whatever looks like a version.

use serde_json::Value;
use vstd::prelude::*;

use crate::json;
use crate::json::Json;
use crate::reading;
use crate::text;
use crate::text::Separator;

verus! {

/// The firmware that a JSON document names: the first of its version fields that is a text.
pub open spec fn named_firmware(doc: Option<Json>) -> Option<Seq<char>> {
    match doc {
        Some(v) => reading::or_else(
            v.member_text("v"@),
            reading::or_else(
                v.member_text("version"@),
                reading::or_else(v.member_text("fw"@), v.member_text("ver"@)),
            ),
        ),
        None => None,
    }
}

/// What an optional document holds.
pub open spec fn optional_tree(doc: Option<Value>) -> Option<Json> {
    match doc {
        Some(v) => Some(json::json_tree(v)),
        None => None,
    }
}

/// Finds the firmware that a JSON document names.
pub fn firmware_in(doc: &Option<Value>) -> (r: Option<String>)
    ensures
        text::optional_text(r) == named_firmware(optional_tree(*doc)),
{
    match doc {
        Some(v) => {
            let mut r: Option<String> = json::member_text(v, "v");
            if r.is_none() {
                r = json::member_text(v, "version");
            }
            if r.is_none() {
                r = json::member_text(v, "fw");
            }
            if r.is_none() {
                r = json::member_text(v, "ver");
            }
            r
        },
        None => None,
    }
}

/// The text of a payload, where it is well-formed UTF-8.
pub open spec fn payload_text(payload: Seq<u8>) -> Option<Seq<char>> {
    if vstd::utf8::valid_utf8(payload) {
        Some(vstd::utf8::decode_utf8(payload))
    } else {
        None
    }
}

/// Whether a text is short, in bytes.
pub open spec fn short(s: Seq<char>) -> bool {
    vstd::utf8::encode_utf8(s).len() < 64
}

fn is_short(s: &str) -> (r: bool)
    ensures
        r == short(s@),
{
    s.as_bytes().len() < 64
}

/// Whether a whole text looks like a version: short, with a point, and without a space, a
/// brace or a comma.
pub open spec fn bare_version(s: Seq<char>) -> bool {
    &&& s.len() > 0
    &&& short(s)
    &&& s.contains('.')
    &&& !s.contains(' ')
    &&& !s.contains('{')
    &&& !s.contains(',')
}

/// Whether a word looks like a version: short, with a point, and without the colons of a
/// MAC address.
pub open spec fn version_word(s: Seq<char>) -> bool {
    s.contains('.') && !s.contains(':') && short(s)
}

/// The first word, from `i` on, that looks like a version.
pub open spec fn first_version(words: Seq<Seq<char>>, i: int) -> Option<Seq<char>>
    decreases words.len() - i,
{
    if i >= words.len() {
        None
    } else if version_word(words[i]) {
        Some(words[i])
    } else {
        first_version(words, i + 1)
    }
}

/// The words without a colon, which are not MAC addresses.
pub open spec fn without_colon(words: Seq<Seq<char>>) -> Seq<Seq<char>> {
    words.filter(|w: Seq<char>| !w.contains(':'))
}

/// The version in a line of several words: the only word without a colon, where it looks like
/// a version. Every other word then is a MAC address.
pub open spec fn version_beside_mac(words: Seq<Seq<char>>) -> Option<Seq<char>> {
    let rest = without_colon(words);
    if words.len() > 1 && rest.len() == 1 && version_word(rest[0]) {
        Some(rest[0])
    } else {
        None
    }
}

/// The version in a log line: the one beside a MAC address, else the line itself where it
/// looks like a version. A text with a brace or a comma is no such line.
pub open spec fn line_version(s: Seq<char>) -> Option<Seq<char>> {
    if s.contains('{') || s.contains(',') {
        None
    } else {
        reading::or_else(
            version_beside_mac(text::pieces(s, Separator::Whitespace)),
            if bare_version(text::trimmed(s)) {
                Some(text::trimmed(s))
            } else {
                None
            },
        )
    }
}

/// The firmware in a payload that was read as `doc`: the one that the document names, else
/// the version in the line.
pub open spec fn reported_firmware(doc: Option<Json>, payload: Seq<u8>) -> Option<Seq<char>> {
    reading::or_else(
        named_firmware(doc),
        match payload_text(payload) {
            Some(s) => line_version(s),
            None => None,
        },
    )
}

/// Finds the version beside a MAC address.
pub fn find_beside_mac(words: &Vec<String>) -> (r: Option<String>)
    ensures
        text::optional_text(r) == version_beside_mac(text::texts(words@)),
{
    let ghost all = text::texts(words@);
    let mut found: Option<usize> = None;
    let mut many: bool = false;
    let mut i: usize = 0;
    while i < words.len()
        invariant
            i <= words@.len(),
            all == text::texts(words@),
            many == (without_colon(all.take(i as int)).len() > 1),
            match found {
                Some(at) => {
                    &&& at < words@.len()
                    &&& without_colon(all.take(i as int)).len() > 0
                    &&& without_colon(all.take(i as int))[0] == words@[at as int]@
                },
                None => without_colon(all.take(i as int)).len() == 0,
            },
        decreases words@.len() - i,
    {
        proof {
            reveal(Seq::filter);
            assert(all.take(i + 1).drop_last() =~= all.take(i as int));
            assert(all.take(i + 1).last() == words@[i as int]@);
        }
        if !text::contains_char(words[i].as_str(), ':') {
            if found.is_some() {
                many = true;
            } else {
                found = Some(i);
            }
        }
        i = i + 1;
    }
    assert(all.take(i as int) =~= all);
    match found {
        Some(at) => {
            let w: &str = words[at].as_str();
            if words.len() > 1 && !many && text::contains_char(w, '.')
                && !text::contains_char(w, ':') && is_short(w) {
                Some(w.to_owned())
            } else {
                None
            }
        },
        None => None,
    }
}

/// Finds the version in a log line.
pub fn version_in_line(line: &str) -> (r: Option<String>)
    ensures
        text::optional_text(r) == line_version(line@),
{
    if text::contains_char(line, '{') || text::contains_char(line, ',') {
        return None;
    }
    let words: Vec<String> = text::split(line, Separator::Whitespace);
    match find_beside_mac(&words) {
        Some(fw) => Some(fw),
        None => {
            let s: &str = text::trim(line);
            if !s.is_empty() && is_short(s) && text::contains_char(s, '.')
                && !text::contains_char(s, ' ') && !text::contains_char(s, '{')
                && !text::contains_char(s, ',') {
                Some(s.to_owned())
            } else {
                None
            }
        },
    }
}

/// Finds the firmware in a payload that was read as `doc`.
pub fn firmware_or_line(doc: &Option<Value>, payload: &[u8]) -> (r: Option<String>)
    ensures
        text::optional_text(r) == reported_firmware(optional_tree(*doc), payload@),
{
    match firmware_in(doc) {
        Some(fw) => Some(fw),
        None => match text::utf8_text(payload) {
            Some(all) => version_in_line(all.as_str()),
            None => None,
        },
    }
}

/// Finds the firmware that `serve` echoes back.
pub fn parse_firmware(payload: &[u8]) -> (r: Option<String>)
    ensures
        text::optional_text(r) == reported_firmware(json::json_document(payload@), payload@),
{
    let doc: Option<Value> = json::parse(payload);
    firmware_or_line(&doc, payload)
}

/// The firmware in a log line that was read as `doc`: the one that the document names, else
/// the first word that looks like a version.
pub open spec fn logged_firmware(doc: Option<Json>, payload: Seq<u8>) -> Option<Seq<char>> {
    reading::or_else(
        named_firmware(doc),
        match payload_text(payload) {
            Some(s) => first_version(text::pieces(s, Separator::Whitespace), 0),
            None => None,
        },
    )
}

/// Finds the firmware in a log line that was read as `doc`.
pub fn firmware_or_word(doc: &Option<Value>, payload: &[u8]) -> (r: Option<String>)
    ensures
        text::optional_text(r) == logged_firmware(optional_tree(*doc), payload@),
{
    match firmware_in(doc) {
        Some(fw) => Some(fw),
        None => match text::utf8_text(payload) {
            Some(all) => version_in(all.as_str()),
            None => None,
        },
    }
}

/// Finds the first word that looks like a version.
pub fn version_in(s: &str) -> (r: Option<String>)
    ensures
        text::optional_text(r) == first_version(text::pieces(s@, Separator::Whitespace), 0),
{
    let words: Vec<String> = text::split(s, Separator::Whitespace);
    let ghost all = text::texts(words@);
    let mut i: usize = 0;
    while i < words.len()
        invariant
            i <= words@.len(),
            all == text::texts(words@),
            all == text::pieces(s@, Separator::Whitespace),
            first_version(all, 0) == first_version(all, i as int),
        decreases words@.len() - i,
    {
        let w: &str = words[i].as_str();
        assert(all[i as int] == w@);
        if text::contains_char(w, '.') && !text::contains_char(w, ':') && is_short(w) {
            return Some(w.to_owned());
        }
        i = i + 1;
    }
    None
}

/// Finds the firmware that the device announces on `/log`, for onboarding.
pub fn firmware_from_log(payload: &[u8]) -> (r: Option<String>)
    ensures
        text::optional_text(r) == logged_firmware(json::json_document(payload@), payload@),
{
    let doc: Option<Value> = json::parse(payload);
    firmware_or_word(&doc, payload)
}

/// Log lines: a version in front of a MAC address is what both `serve` and onboarding take
/// for the firmware, when the line is no JSON document that names another one.
pub proof fn law_version_and_mac_give_the_version(
    doc: Option<Json>,
    payload: Seq<u8>,
    version: Seq<char>,
    mac: Seq<char>,
)
    requires
        payload == vstd::utf8::encode_utf8(version + seq![' '] + mac),
        named_firmware(doc) is None,
        version_word(version),
        mac.contains(':'),
        forall|i: int| 0 <= i < version.len() ==> !text::is_space(#[trigger] version[i]),
        forall|i: int| 0 <= i < mac.len() ==> !text::is_space(#[trigger] mac[i]),
        !version.contains('{') && !version.contains(','),
        !mac.contains('{') && !mac.contains(','),
    ensures
        reported_firmware(doc, payload) == Some(version),
        logged_firmware(doc, payload) == Some(version),
{
    let line = version + seq![' '] + mac;
    text::lemma_decodes_what_was_encoded(line);
    vstd::utf8::encode_utf8_valid_utf8(line);
    text::two_pieces(version, ' ', mac, Separator::Whitespace);
    let words = text::pieces(line, Separator::Whitespace);
    assert(without_colon(words) =~= seq![version]) by {
        reveal(Seq::filter);
        assert(words.drop_last() =~= seq![version]);
        assert(seq![version].drop_last() =~= Seq::<Seq<char>>::empty());
        reveal_with_fuel(Seq::filter, 3);
    }
    assert forall|c: char| c == '{' || c == ',' implies !line.contains(c) by {
        if line.contains(c) {
            let i = choose|i: int| 0 <= i < line.len() && line[i] == c;
            if i < version.len() {
                assert(version[i] == c);
            } else if i > version.len() {
                assert(mac[i - version.len() - 1] == c);
            }
        }
    }
}

/// Named versions: of the fields `v`, `version`, `fw` and `ver` the first that is a text names the
/// firmware, for `serve` and for onboarding alike, whatever the payload looks like.
pub proof fn law_named_version_is_taken(doc: Json, payload: Seq<u8>, fw: Seq<char>)
    ensures
        doc.member_text("v"@) == Some(fw) ==> reported_firmware(Some(doc), payload) == Some(fw)
            && logged_firmware(Some(doc), payload) == Some(fw),
        doc.member_text("v"@) is None && doc.member_text("version"@) == Some(fw)
            ==> reported_firmware(Some(doc), payload) == Some(fw) && logged_firmware(
            Some(doc),
            payload,
        ) == Some(fw),
        doc.member_text("v"@) is None && doc.member_text("version"@) is None && doc.member_text(
            "fw"@,
        ) == Some(fw) ==> reported_firmware(Some(doc), payload) == Some(fw) && logged_firmware(
            Some(doc),
            payload,
        ) == Some(fw),
        doc.member_text("v"@) is None && doc.member_text("version"@) is None && doc.member_text(
            "fw"@,
        ) is None && doc.member_text("ver"@) == Some(fw) ==> reported_firmware(Some(doc), payload)
            == Some(fw) && logged_firmware(Some(doc), payload) == Some(fw),
{
}

/// Unnamed versions: a document that has none of the four fields as a text is treated as no
/// document at all.
pub proof fn law_unnamed_document_is_a_line(doc: Json, payload: Seq<u8>)
    requires
        doc.member_text("v"@) is None,
        doc.member_text("version"@) is None,
        doc.member_text("fw"@) is None,
        doc.member_text("ver"@) is None,
    ensures
        reported_firmware(Some(doc), payload) == reported_firmware(None, payload),
        logged_firmware(Some(doc), payload) == logged_firmware(None, payload),
{
}

/// Bare versions: a line that is one word with a point in it, of fewer than 64 bytes and without
/// a brace or a comma, is the firmware that `serve` echoes, white space around it left off.
pub proof fn law_bare_version_is_taken(
    pre: Seq<char>,
    version: Seq<char>,
    post: Seq<char>,
    payload: Seq<u8>,
)
    requires
        payload == vstd::utf8::encode_utf8(pre + version + post),
        forall|i: int| 0 <= i < pre.len() ==> text::is_space(#[trigger] pre[i]),
        forall|i: int| 0 <= i < post.len() ==> text::is_space(#[trigger] post[i]),
        forall|i: int| 0 <= i < version.len() ==> !text::is_space(#[trigger] version[i]),
        version.contains('.'),
        !version.contains('{') && !version.contains(','),
        vstd::utf8::encode_utf8(version).len() < 64,
    ensures
        reported_firmware(None, payload) == Some(version),
        !version.contains(':') ==> logged_firmware(None, payload) == Some(version),
{
    let line = pre + version + post;
    vstd::utf8::encode_utf8_valid_utf8(line);
    vstd::utf8::encode_utf8_decode_utf8(line);
    let at = choose|i: int| 0 <= i < version.len() && version[i] == '.';
    assert(version.len() > 0);
    assert(!text::is_space(version[0]) && !text::is_space(version[version.len() - 1]));
    text::law_trimming_takes_white_space_off(pre, version, post);
    pieces_of_padded_word(pre, version, post);
    assert forall|c: char| c == '{' || c == ',' implies !line.contains(c) by {
        if line.contains(c) {
            let i = choose|i: int| 0 <= i < line.len() && line[i] == c;
            if i < pre.len() {
                assert(text::is_space(pre[i]));
            } else if i < pre.len() + version.len() {
                assert(version[i - pre.len()] == c);
            } else {
                assert(text::is_space(post[i - pre.len() - version.len()]));
            }
        }
    }
    if version.contains(' ') {
        let i = choose|i: int| 0 <= i < version.len() && version[i] == ' ';
        assert(!text::is_space(version[i]));
    }
}

proof fn pieces_of_padded_word(pre: Seq<char>, word: Seq<char>, post: Seq<char>)
    requires
        forall|i: int| 0 <= i < pre.len() ==> text::is_space(#[trigger] pre[i]),
        forall|i: int| 0 <= i < post.len() ==> text::is_space(#[trigger] post[i]),
        forall|i: int| 0 <= i < word.len() ==> !text::is_space(#[trigger] word[i]),
        word.len() > 0,
    ensures
        text::pieces(pre + word + post, Separator::Whitespace) == seq![word],
    decreases pre.len() + post.len(),
{
    let sep = Separator::Whitespace;
    let s = pre + word + post;
    if pre.len() > 0 {
        let rest = pre.skip(1) + word + post;
        assert(text::is_space(pre[0]));
        assert(s =~= seq![pre[0]] + rest);
        assert forall|i: int| 0 <= i < pre.skip(1).len() implies text::is_space(
            #[trigger] pre.skip(1)[i],
        ) by {
            assert(text::is_space(pre[i + 1]));
        }
        pieces_of_padded_word(pre.skip(1), word, post);
        text::law_outer_separators_do_not_matter(rest, pre[0], sep);
    } else if post.len() > 0 {
        let less = post.drop_last();
        let rest = pre + word + less;
        assert(text::is_space(post[post.len() - 1]));
        assert(s =~= rest.push(post.last()));
        assert forall|i: int| 0 <= i < less.len() implies text::is_space(#[trigger] less[i]) by {
            assert(text::is_space(post[i]));
        }
        pieces_of_padded_word(pre, word, less);
        text::law_outer_separators_do_not_matter(rest, post.last(), sep);
    } else {
        assert(s =~= word);
        assert forall|i: int| 0 <= i < word.len() implies !sep.splits(#[trigger] word[i]) by {
            assert(!text::is_space(word[i]));
        }
        text::law_word_is_its_piece(word, sep);
    }
}

/// Other lines: for `serve`, a line with a blank inside, of which more than one word has no colon
/// or none of those looks like a version, announces nothing, and neither does a line with a brace
/// or a comma; bytes that are no text announce nothing to anyone.
pub proof fn law_other_lines_announce_nothing(line: Seq<char>, payload: Seq<u8>, i: int, j: int)
    ensures
        payload == vstd::utf8::encode_utf8(line) && (line.contains('{') || line.contains(','))
            ==> reported_firmware(None, payload) is None,
        payload == vstd::utf8::encode_utf8(line) && text::trimmed(line).contains(' ') && {
            let words = text::pieces(line, Separator::Whitespace);
            &&& 0 <= i < j < words.len()
            &&& !words[i].contains(':')
            &&& !words[j].contains(':')
        } ==> reported_firmware(None, payload) is None,
        payload == vstd::utf8::encode_utf8(line) && !line.contains('.') ==> reported_firmware(
            None,
            payload,
        ) is None,
        payload == vstd::utf8::encode_utf8(line) && text::pieces(
            line,
            Separator::Whitespace,
        ).len() <= 1 && vstd::utf8::encode_utf8(text::trimmed(line)).len() >= 64
            ==> reported_firmware(None, payload) is None,
        !vstd::utf8::valid_utf8(payload) ==> reported_firmware(None, payload) is None
            && logged_firmware(None, payload) is None,
{
    if payload == vstd::utf8::encode_utf8(line) {
        vstd::utf8::encode_utf8_valid_utf8(line);
        vstd::utf8::encode_utf8_decode_utf8(line);
        let words = text::pieces(line, Separator::Whitespace);
        if 0 <= i < j < words.len() && !words[i].contains(':') && !words[j].contains(':') {
            two_words_without_colon(words, i, j);
        }
        if !line.contains('.') {
            trimmed_is_inside(line);
            words_are_inside(line, '.');
            filter_is_inside(words);
        }
    }
}

proof fn two_words_without_colon(words: Seq<Seq<char>>, i: int, j: int)
    requires
        0 <= i < j < words.len(),
        !words[i].contains(':'),
        !words[j].contains(':'),
    ensures
        without_colon(words).len() >= 2,
    decreases words.len(),
{
    reveal(Seq::filter);
    let before = words.drop_last();
    if j < before.len() {
        two_words_without_colon(before, i, j);
    } else {
        one_word_without_colon(before, i);
    }
}

proof fn one_word_without_colon(words: Seq<Seq<char>>, i: int)
    requires
        0 <= i < words.len(),
        !words[i].contains(':'),
    ensures
        without_colon(words).len() >= 1,
    decreases words.len(),
{
    reveal(Seq::filter);
    if i < words.len() - 1 {
        one_word_without_colon(words.drop_last(), i);
    }
}

proof fn filter_is_inside(words: Seq<Seq<char>>)
    ensures
        forall|i: int|
            0 <= i < without_colon(words).len() ==> words.contains(
                #[trigger] without_colon(words)[i],
            ),
    decreases words.len(),
{
    reveal(Seq::filter);
    if words.len() > 0 {
        let before = words.drop_last();
        filter_is_inside(before);
        assert forall|i: int| 0 <= i < without_colon(words).len() implies words.contains(
            #[trigger] without_colon(words)[i],
        ) by {
            if i < without_colon(before).len() {
                let w = without_colon(before)[i];
                assert(before.contains(w));
                let k = choose|k: int| 0 <= k < before.len() && before[k] == w;
                assert(words[k] == w);
            } else {
                assert(words[words.len() - 1] == words.last());
            }
        }
    }
}

proof fn words_are_inside(s: Seq<char>, c: char)
    requires
        !s.contains(c),
    ensures
        forall|i: int|
            0 <= i < text::pieces(s, Separator::Whitespace).len() ==> !(#[trigger] text::pieces(
                s,
                Separator::Whitespace,
            )[i]).contains(c),
    decreases s.len(),
{
    let sep = Separator::Whitespace;
    let all = text::pieces(s, sep);
    if s.len() > 0 {
        let n = text::run_length(s, sep) as int;
        let step = if sep.splits(s[0]) {
            1
        } else {
            n
        };
        if 0 < step <= s.len() {
            let rest = s.skip(step);
            if rest.contains(c) {
                let k = choose|k: int| 0 <= k < rest.len() && rest[k] == c;
                assert(s[k + step] == c);
            }
            words_are_inside(rest, c);
            if !sep.splits(s[0]) {
                let first = s.take(n);
                if first.contains(c) {
                    let k = choose|k: int| 0 <= k < first.len() && first[k] == c;
                    assert(s[k] == c);
                }
                let others = text::pieces(rest, sep);
                assert forall|i: int| 0 <= i < all.len() implies !(#[trigger] all[i]).contains(
                    c,
                ) by {
                    if i > 0 {
                        assert(all[i] == others[i - 1]);
                    }
                }
            }
        }
    }
}

proof fn trimmed_is_inside(s: Seq<char>)
    ensures
        forall|c: char| text::trimmed(s).contains(c) ==> #[trigger] s.contains(c),
{
    start_is_inside(s);
    end_is_inside(text::trimmed_start(s));
    assert forall|c: char| text::trimmed(s).contains(c) implies #[trigger] s.contains(c) by {
        assert(text::trimmed_start(s).contains(c));
    }
}

proof fn start_is_inside(s: Seq<char>)
    ensures
        forall|c: char| #[trigger] text::trimmed_start(s).contains(c) ==> s.contains(c),
    decreases s.len(),
{
    if s.len() > 0 && text::is_space(s[0]) {
        let rest = s.skip(1);
        start_is_inside(rest);
        assert forall|c: char| #[trigger] text::trimmed_start(s).contains(c) implies s.contains(
            c,
        ) by {
            assert(text::trimmed_start(rest).contains(c));
            let k = choose|k: int| 0 <= k < rest.len() && rest[k] == c;
            assert(s[k + 1] == c);
        }
    }
}

proof fn end_is_inside(s: Seq<char>)
    ensures
        forall|c: char| text::trimmed_end(s).contains(c) ==> #[trigger] s.contains(c),
    decreases s.len(),
{
    if s.len() > 0 && text::is_space(s.last()) {
        let rest = s.drop_last();
        end_is_inside(rest);
        assert forall|c: char| text::trimmed_end(s).contains(c) implies #[trigger] s.contains(
            c,
        ) by {
            assert(rest.contains(c));
            let k = choose|k: int| 0 <= k < rest.len() && rest[k] == c;
            assert(s[k] == c);
        }
    }
}

proof fn first_version_found(words: Seq<Seq<char>>, from: int, at: int)
    requires
        0 <= from <= at < words.len(),
        version_word(words[at]),
        forall|i: int| from <= i < at ==> !version_word(#[trigger] words[i]),
    ensures
        first_version(words, from) == Some(words[at]),
    decreases at - from,
{
    if from < at {
        assert(!version_word(words[from]));
        first_version_found(words, from + 1, at);
    }
}

proof fn no_version_found(words: Seq<Seq<char>>, from: int)
    requires
        0 <= from,
        forall|i: int| from <= i < words.len() ==> !version_word(#[trigger] words[i]),
    ensures
        first_version(words, from) is None,
    decreases words.len() - from,
{
    if from < words.len() {
        assert(!version_word(words[from]));
        no_version_found(words, from + 1);
    }
}

/// Log lines in onboarding: of the words of a line the first with a point, without a colon and of
/// fewer than 64 bytes is the firmware, and without such a word there is none.
pub proof fn law_first_version_word_is_logged(line: Seq<char>, payload: Seq<u8>, at: int)
    requires
        payload == vstd::utf8::encode_utf8(line),
    ensures
        ({
            let words = text::pieces(line, Separator::Whitespace);
            let n = words.len() as int;
            &&& 0 <= at < n && words[at].contains('.') && !words[at].contains(':')
                && vstd::utf8::encode_utf8(words[at]).len() < 64 && (forall|i: int|
                0 <= i < at ==> !(#[trigger] words[i]).contains('.')) ==> logged_firmware(
                None,
                payload,
            ) == Some(words[at])
            &&& 0 <= at < n && words[at].contains('.') && !words[at].contains(':')
                && vstd::utf8::encode_utf8(words[at]).len() < 64 && (forall|i: int|
                0 <= i < at ==> (#[trigger] words[i]).contains(':')) ==> logged_firmware(
                None,
                payload,
            ) == Some(words[at])
            &&& (forall|i: int|
                0 <= i < n ==> !(#[trigger] words[i]).contains('.') || words[i].contains(':')
                    || vstd::utf8::encode_utf8(words[i]).len() >= 64) ==> logged_firmware(
                None,
                payload,
            ) is None
        }),
{
    vstd::utf8::encode_utf8_valid_utf8(line);
    vstd::utf8::encode_utf8_decode_utf8(line);
    let words = text::pieces(line, Separator::Whitespace);
    let n = words.len() as int;
    if 0 <= at < n && words[at].contains('.') && !words[at].contains(':')
        && vstd::utf8::encode_utf8(words[at]).len() < 64 {
        if forall|i: int| 0 <= i < at ==> !(#[trigger] words[i]).contains('.') {
            first_version_found(words, 0, at);
        }
        if forall|i: int| 0 <= i < at ==> (#[trigger] words[i]).contains(':') {
            first_version_found(words, 0, at);
        }
    }
    if forall|i: int|
        0 <= i < n ==> !(#[trigger] words[i]).contains('.') || words[i].contains(':')
            || vstd::utf8::encode_utf8(words[i]).len() >= 64 {
        no_version_found(words, 0);
    }
}

proof fn only_word_without_colon(words: Seq<Seq<char>>, at: int)
    requires
        0 <= at < words.len(),
        !words[at].contains(':'),
        forall|i: int| 0 <= i < words.len() && i != at ==> (#[trigger] words[i]).contains(':'),
    ensures
        without_colon(words) == seq![words[at]],
    decreases words.len(),
{
    reveal(Seq::filter);
    let before = words.drop_last();
    if at < before.len() {
        assert(words[words.len() - 1].contains(':'));
        assert forall|i: int| 0 <= i < before.len() && i != at implies (
        #[trigger] before[i]).contains(':') by {
            assert(words[i].contains(':'));
        }
        only_word_without_colon(before, at);
    } else {
        no_word_without_colon(before, words);
        assert(without_colon(words) =~= seq![words[at]]);
    }
}

proof fn no_word_without_colon(words: Seq<Seq<char>>, longer: Seq<Seq<char>>)
    requires
        words.len() <= longer.len(),
        forall|i: int|
            0 <= i < words.len() ==> words[i] == longer[i] && (#[trigger] longer[i]).contains(':'),
    ensures
        without_colon(words) == Seq::<Seq<char>>::empty(),
    decreases words.len(),
{
    reveal(Seq::filter);
    if words.len() > 0 {
        assert(longer[words.len() - 1].contains(':'));
        no_word_without_colon(words.drop_last(), longer);
    } else {
        assert(without_colon(words) =~= Seq::empty());
    }
}

/// Announcements: in a line of several words without a brace or a comma, all of which but one hold
/// a colon, that one is the firmware that `serve` echoes where it has a point and fewer than 64
/// bytes; where it has not, and blanks stand in the line, nothing is announced.
pub proof fn law_version_stands_among_addresses(line: Seq<char>, payload: Seq<u8>, at: int)
    requires
        payload == vstd::utf8::encode_utf8(line),
        !line.contains('{') && !line.contains(','),
        ({
            let words = text::pieces(line, Separator::Whitespace);
            &&& words.len() > 1
            &&& 0 <= at < words.len()
            &&& !words[at].contains(':')
            &&& forall|i: int|
                0 <= i < words.len() && i != at ==> (#[trigger] words[i]).contains(':')
        }),
    ensures
        ({
            let word = text::pieces(line, Separator::Whitespace)[at];
            let version = word.contains('.') && vstd::utf8::encode_utf8(word).len() < 64;
            &&& version ==> reported_firmware(None, payload) == Some(word)
            &&& !version && text::trimmed(line).contains(' ') ==> reported_firmware(
                None,
                payload,
            ) is None
        }),
{
    vstd::utf8::encode_utf8_valid_utf8(line);
    vstd::utf8::encode_utf8_decode_utf8(line);
    only_word_without_colon(text::pieces(line, Separator::Whitespace), at);
}

} // verus!
