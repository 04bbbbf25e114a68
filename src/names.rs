//! Normalisation of a typed-in name to the single ASCII word the services
//! understand.

use vstd::prelude::*;

verus! {

/// What `unidecode::unidecode` makes of a string.
pub uninterp spec fn ascii_folded(s: Seq<char>) -> Seq<char>;

/// Whether a character is ASCII.
pub open spec fn is_ascii_char(c: char) -> bool {
    '\u{0}' <= c && c <= '\u{7f}'
}

/// Whether a character is an ASCII letter.
pub open spec fn is_ascii_letter(c: char) -> bool {
    ('a' <= c && c <= 'z') || ('A' <= c && c <= 'Z')
}

/// Relies on `unidecode::unidecode`, which transliterates a string to ASCII
/// and maps every ASCII character to itself.
#[verifier::external_body]
fn transliterate(s: &str) -> (r: String)
    ensures
        r@ == ascii_folded(s@),
        forall|i: int| 0 <= i < r@.len() ==> is_ascii_char(#[trigger] r@[i]),
        (forall|i: int| 0 <= i < s@.len() ==> is_ascii_char(#[trigger] s@[i])) ==> r@ == s@,
{
    unidecode::unidecode(s)
}

/// `word` is the leading run of letters of `s`.
pub open spec fn is_first_word(word: Seq<char>, s: Seq<char>) -> bool {
    &&& word.len() <= s.len()
    &&& word == s.take(word.len() as int)
    &&& forall|i: int| 0 <= i < word.len() ==> is_ascii_letter(#[trigger] word[i])
    &&& (word.len() == s.len() || !is_ascii_letter(s[word.len() as int]))
}

/// Normalises a name: transliterates it to ASCII and keeps the letters
/// before the first character that is not a letter.
pub fn normalise_name(name: &str) -> (r: String)
    ensures
        is_first_word(r@, ascii_folded(name@)),
{
    let ascii = transliterate(name);
    let text = ascii.as_str();
    let len = text.unicode_len();
    let mut i: usize = 0;
    while i < len
        invariant
            i <= len,
            len == text@.len(),
            text@ == ascii_folded(name@),
            forall|j: int| 0 <= j < text@.len() ==> is_ascii_char(#[trigger] text@[j]),
            forall|j: int| 0 <= j < i ==> is_ascii_letter(#[trigger] text@[j]),
        ensures
            i <= len,
            forall|j: int| 0 <= j < i ==> is_ascii_letter(#[trigger] text@[j]),
            i == len || !is_ascii_letter(text@[i as int]),
        decreases len - i,
    {
        let c = text.get_char(i);
        if !(('a' <= c && c <= 'z') || ('A' <= c && c <= 'Z')) {
            break;
        }
        i += 1;
    }
    let word = String::from_str(text.substring_char(0, i));
    proof {
        assert(word@ =~= text@.take(i as int));
        assert forall|j: int| 0 <= j < word@.len() implies is_ascii_letter(#[trigger] word@[j]) by {
            assert(word@[j] == text@[j]);
        }
    }
    word
}

/// A line that is the title of a pasted spreadsheet column, not a name.
pub const IGNORED_NAME: &'static str = "First";

/// Whether a character has the Unicode `White_Space` property.
pub open spec fn is_white(c: char) -> bool {
    ('\u{9}' <= c && c <= '\u{d}') || c == ' ' || c == '\u{85}' || c == '\u{a0}' || c
        == '\u{1680}' || ('\u{2000}' <= c && c <= '\u{200a}') || c == '\u{2028}' || c
        == '\u{2029}' || c == '\u{202f}' || c == '\u{205f}' || c == '\u{3000}'
}

/// `s` without its leading white space.
pub open spec fn trim_start(s: Seq<char>) -> Seq<char>
    decreases s.len(),
{
    if s.len() > 0 && is_white(s[0]) {
        trim_start(s.drop_first())
    } else {
        s
    }
}

/// `s` without its trailing white space.
pub open spec fn trim_end(s: Seq<char>) -> Seq<char>
    decreases s.len(),
{
    if s.len() > 0 && is_white(s.last()) {
        trim_end(s.drop_last())
    } else {
        s
    }
}

/// `s` without its leading and trailing white space.
pub open spec fn trimmed(s: Seq<char>) -> Seq<char> {
    trim_end(trim_start(s))
}

/// The pieces of `s` between newline characters, in order, empty ones
/// included: one more piece than there are newlines.
pub open spec fn split_lines(s: Seq<char>) -> Seq<Seq<char>>
    decreases s.len(),
{
    if s.len() == 0 {
        seq![Seq::<char>::empty()]
    } else {
        let init = split_lines(s.drop_last());
        if s.last() == '\n' {
            init.push(Seq::<char>::empty())
        } else {
            init.update(init.len() - 1, init.last().push(s.last()))
        }
    }
}

/// Relies on `str::split` with the pattern `'\n'`: the pieces between
/// newlines, in order, empty ones included.
#[verifier::external_body]
fn lines_of(s: &str) -> (r: Vec<&str>)
    ensures
        r@.map_values(|p: &str| p@) == split_lines(s@),
{
    s.split('\n').collect()
}

/// Relies on `str::trim`: the slice without leading and trailing characters
/// of the Unicode `White_Space` property.
#[verifier::external_body]
fn trim_str(s: &str) -> (r: &str)
    ensures
        r@ == trimmed(s@),
{
    s.trim()
}

/// The trimmed lines that hold a name: not empty and not the column title.
pub open spec fn name_lines(text: Seq<char>) -> Seq<Seq<char>> {
    split_lines(text).map_values(|l: Seq<char>| trimmed(l)).filter(
        |t: Seq<char>| t.len() > 0 && t != IGNORED_NAME@,
    )
}

fn is_ignored(t: &str) -> (r: bool)
    ensures
        r == (t@ == IGNORED_NAME@),
{
    let ignored = IGNORED_NAME;
    proof {
        reveal_strlit("First");
    }
    let len = t.unicode_len();
    if len != ignored.unicode_len() {
        return false;
    }
    let mut i: usize = 0;
    while i < len
        invariant
            i <= len,
            len == t@.len(),
            len == ignored@.len(),
            ignored@ == IGNORED_NAME@,
            forall|j: int| 0 <= j < i ==> t@[j] == ignored@[j],
        decreases len - i,
    {
        if t.get_char(i) != ignored.get_char(i) {
            return false;
        }
        i += 1;
    }
    proof {
        assert(t@ =~= ignored@);
    }
    true
}

/// Reads the names typed or pasted into the entry box: one per line,
/// trimmed, skipping empty lines and the column title, each normalised.
pub fn parse_names(text: &str) -> (r: Vec<String>)
    ensures
        r@.len() == name_lines(text@).len(),
        forall|i: int|
            0 <= i < r@.len() ==> is_first_word(
                (#[trigger] r@[i])@,
                ascii_folded(name_lines(text@)[i]),
            ),
{
    let lines = lines_of(text);
    let ghost trims = lines@.map_values(|p: &str| p@).map_values(|l: Seq<char>| trimmed(l));
    let ghost keep = |t: Seq<char>| t.len() > 0 && t != IGNORED_NAME@;
    let mut r: Vec<String> = Vec::new();
    let mut k: usize = 0;
    while k < lines.len()
        invariant
            k <= lines@.len(),
            trims == lines@.map_values(|p: &str| p@).map_values(|l: Seq<char>| trimmed(l)),
            trims == split_lines(text@).map_values(|l: Seq<char>| trimmed(l)),
            r@.len() == trims.take(k as int).filter(
                |t: Seq<char>| t.len() > 0 && t != IGNORED_NAME@,
            ).len(),
            forall|i: int|
                0 <= i < r@.len() ==> is_first_word(
                    (#[trigger] r@[i])@,
                    ascii_folded(
                        trims.take(k as int).filter(
                            |t: Seq<char>| t.len() > 0 && t != IGNORED_NAME@,
                        )[i],
                    ),
                ),
        decreases lines.len() - k,
    {
        let t = trim_str(lines[k]);
        proof {
            assert(t@ == trims[k as int]);
            reveal(Seq::filter);
            assert(trims.take(k + 1).drop_last() =~= trims.take(k as int));
            assert(trims.take(k + 1).last() == trims[k as int]);
        }
        if t.unicode_len() > 0 && !is_ignored(t) {
            let name = normalise_name(t);
            r.push(name);
        }
        k += 1;
    }
    proof {
        assert(trims.take(lines@.len() as int) =~= trims);
    }
    r
}

} // verus!
