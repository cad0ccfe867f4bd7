//! The two board file formats: what a file name's extension is, which
//! lines of an annotated file are metadata and which are rows, and how
//! ragged rows are padded.

use vstd::prelude::*;
use vstd::string::*;
use crate::cell::{FILE_BLANK, FILE_CELL};
use crate::metadata::Metadata;
use crate::text::{
    chars_of, first_index_of, lemma_first_index_of, range_contains, split, split_str,
    string_views, trim, trim_bounds, trim_str, views,
};

verus! {

/// The character that opens a metadata line of an annotated file.
pub const COMMENT_MARK: char = '!';

/// The character between the key and the value of a metadata line.
pub const SEPARATOR: char = ':';

/// The upper-case variant of the alive marker, which annotated files may
/// write; it stands for the same cell as `FILE_CELL`.
pub const FILE_CELL_UPPER: char = 'O';

/// The pattern that a metadata line without a separator is held against to
/// tell a URL from a description: an optional scheme, a domain-like token,
/// a dot, a suffix of two to six letters, an optional query mark, and at
/// least one more character.
pub const URL_PATTERN: &'static str =
    r"((https|http):\\/\\/)?([a-z0-9_\-]+)\.([a-z]{2,6})(\?)?(.+)";

/// What the regex engine answers for a pattern and a text: `None` where the
/// pattern does not compile, else whether the pattern matches anywhere in
/// the text.
pub uninterp spec fn regex_search(pattern: Seq<char>, haystack: Seq<char>) -> Option<bool>;

/// Whether a text has the shape of a URL.
pub open spec fn looks_like_url(s: Seq<char>) -> bool {
    regex_search(URL_PATTERN@, s) == Some(true)
}

/// The extension of a file name: what follows its last dot, or the whole
/// name where it has none.
pub open spec fn extension_of(filename: Seq<char>) -> Seq<char> {
    split(filename, '.').last()
}

/// Whether a trimmed line is a metadata line.
pub open spec fn is_header(line: Seq<char>) -> bool {
    line.len() > 0 && line[0] == COMMENT_MARK
}

/// The key and the value of a metadata line. With a separator, the key is
/// what stands between the comment mark and the first separator, and the
/// value is the rest, trimmed. Without one, the key is `URL` or
/// `Description`, as `url` says, and the value is the line after the
/// comment mark, trimmed.
pub open spec fn header_entry(line: Seq<char>, url: bool) -> (Seq<char>, Seq<char>) {
    let at = first_index_of(line, SEPARATOR);
    if at < line.len() {
        (line.subrange(1, at), trim(line.skip(at + 1)))
    } else if url {
        ("URL"@, trim(line.skip(1)))
    } else {
        ("Description"@, trim(line.skip(1)))
    }
}

/// The metadata of the given lines: each line is trimmed, and each
/// metadata line among them puts its value under its key, a later line
/// replacing what an earlier one put under the same key.
pub open spec fn metadata_of(lines: Seq<Seq<char>>) -> Map<Seq<char>, Seq<char>>
    decreases lines.len(),
{
    if lines.len() == 0 {
        Map::empty()
    } else {
        let before = metadata_of(lines.drop_last());
        let line = trim(lines.last());
        if is_header(line) {
            let entry = header_entry(line, looks_like_url(line.skip(1)));
            before.insert(entry.0, entry.1)
        } else {
            before
        }
    }
}

/// Whether a line of an annotated file is a row of the grid: trimmed, it
/// is not empty, holds an alive marker of either case or a dead marker,
/// and holds no comment mark.
pub open spec fn significant(line: Seq<char>) -> bool {
    let t = trim(line);
    &&& t.len() > 0
    &&& (t.contains(FILE_CELL) || t.contains(FILE_CELL_UPPER) || t.contains(FILE_BLANK))
    &&& !t.contains(COMMENT_MARK)
}

/// The significant lines among `lines`, in order.
pub open spec fn significant_lines(lines: Seq<Seq<char>>) -> Seq<Seq<char>>
    decreases lines.len(),
{
    if lines.len() == 0 {
        Seq::empty()
    } else if significant(lines.last()) {
        significant_lines(lines.drop_last()).push(lines.last())
    } else {
        significant_lines(lines.drop_last())
    }
}

/// The length of the longest line, zero where there is no line.
pub open spec fn largest_len(lines: Seq<Seq<char>>) -> nat
    decreases lines.len(),
{
    if lines.len() == 0 {
        0
    } else {
        let before = largest_len(lines.drop_last());
        if lines.last().len() > before {
            lines.last().len()
        } else {
            before
        }
    }
}

/// `line` with dead markers added on the right until it is `width` long;
/// a line that is already as long or longer stays as it is.
pub open spec fn pad_right(line: Seq<char>, width: nat) -> Seq<char> {
    if line.len() >= width {
        line
    } else {
        line + Seq::new((width - line.len()) as nat, |i: int| FILE_BLANK)
    }
}

/// Each line padded on the right to the length of the longest.
pub open spec fn padded(lines: Seq<Seq<char>>) -> Seq<Seq<char>> {
    Seq::new(lines.len(), |i: int| pad_right(lines[i], largest_len(lines)))
}

/// No line is longer than the longest, and where there is a line, one of
/// them is as long.
pub proof fn lemma_largest_len(lines: Seq<Seq<char>>)
    ensures
        forall|i: int| 0 <= i < lines.len() ==> (#[trigger] lines[i]).len() <= largest_len(lines),
        lines.len() > 0 ==> exists|i: int|
            0 <= i < lines.len() && (#[trigger] lines[i]).len() == largest_len(lines),
    decreases lines.len(),
{
    if lines.len() > 0 {
        let front = lines.drop_last();
        lemma_largest_len(front);
        assert forall|i: int| 0 <= i < lines.len() implies (#[trigger] lines[i]).len()
            <= largest_len(lines) by {
            if i < front.len() {
                assert(lines[i] == front[i]);
            }
        }
        if lines.last().len() > largest_len(front) || front.len() == 0 {
            assert(lines[lines.len() - 1].len() == largest_len(lines));
        } else {
            let i = choose|i: int| 0 <= i < front.len() && (#[trigger] front[i]).len() == largest_len(front);
            assert(lines[i] == front[i]);
        }
    }
}

/// Padded lines all have the length of the longest line.
pub proof fn lemma_padded_widths(lines: Seq<Seq<char>>)
    ensures
        padded(lines).len() == lines.len(),
        forall|i: int| 0 <= i < lines.len() ==> (#[trigger] padded(lines)[i]).len() == largest_len(lines),
{
    lemma_largest_len(lines);
}

/// Asks the regex engine whether `pattern` matches anywhere in `haystack`:
/// `Regex::new` compiles the pattern and `Regex::is_match` searches. The
/// answer, `None` where the pattern does not compile, is taken as the
/// meaning of `regex_search`.
#[verifier::external_body]
fn search(pattern: &str, haystack: &str) -> (found: Option<bool>)
    ensures
        found == regex_search(pattern@, haystack@),
{
    match regex::Regex::new(pattern) {
        Ok(re) => Some(re.is_match(haystack)),
        Err(_) => None,
    }
}

/// What an answer of the regex engine says of a text: it has the shape of
/// a URL only where the pattern compiled and matched.
pub fn url_verdict(found: Option<bool>) -> (url: bool)
    ensures
        url == (found == Some(true)),
{
    match found {
        Some(matched) => matched,
        None => false,
    }
}

/// The extension of a file name: what follows its last dot, or the whole
/// name where it has none.
pub fn get_extenstion(filename: &str) -> (extension: String)
    ensures
        extension@ == extension_of(filename@),
{
    let chunks = split_str(filename, '.');
    proof {
        crate::text::lemma_split_nonempty(filename@, '.');
    }
    let last = chunks[chunks.len() - 1];
    String::from_str(last)
}

/// Whether a text has the shape of a URL.
pub fn is_url(potential_url: &str) -> (url: bool)
    ensures
        url == looks_like_url(potential_url@),
{
    url_verdict(search(URL_PATTERN, potential_url))
}

/// The key and the value of a trimmed metadata line, or `None` for a line
/// that is no metadata line. `url` says whether the line after its comment
/// mark has the shape of a URL; it is read only where the line has no
/// separator.
pub fn parse_header(line: &str, url: bool) -> (entry: Option<(String, String)>)
    ensures
        match entry {
            Some(pair) => is_header(line@) && (pair.0@, pair.1@) == header_entry(line@, url),
            None => !is_header(line@),
        },
{
    let chars = chars_of(line);
    let len = chars.len();
    if len == 0 || chars[0] != COMMENT_MARK {
        return None;
    }
    let mut at: usize = 1;
    while at < len && chars[at] != SEPARATOR
        invariant
            1 <= at <= len,
            len == chars@.len(),
            forall|j: int| 0 <= j < at ==> chars@[j] != SEPARATOR,
        decreases len - at,
    {
        at += 1;
    }
    proof {
        lemma_first_index_of(chars@, SEPARATOR);
        assert(first_index_of(chars@, SEPARATOR) == at);
    }
    if at < len {
        let key = String::from_str(line.substring_char(1, at));
        let (from, to) = trim_bounds(&chars, at + 1, len);
        let value = String::from_str(line.substring_char(from, to));
        assert(chars@.skip(at + 1) =~= chars@.subrange(at + 1, len as int));
        Some((key, value))
    } else {
        let key = if url {
            String::from_str("URL")
        } else {
            String::from_str("Description")
        };
        let (from, to) = trim_bounds(&chars, 1, len);
        let value = String::from_str(line.substring_char(from, to));
        assert(chars@.skip(1) =~= chars@.subrange(1, len as int));
        Some((key, value))
    }
}

/// The metadata of an annotated file: what its metadata lines put under
/// their keys, line by line.
pub fn get_metadata(text: &str) -> (meta: Metadata)
    ensures
        meta.wf(),
        meta@ == metadata_of(split(text@, '\n')),
{
    let lines = split_str(text, '\n');
    let mut meta = Metadata::new();
    let mut i: usize = 0;
    while i < lines.len()
        invariant
            0 <= i <= lines@.len(),
            views(lines@) == split(text@, '\n'),
            meta.wf(),
            meta@ == metadata_of(views(lines@).take(i as int)),
        decreases lines@.len() - i,
    {
        let line = trim_str(lines[i]);
        let chars = chars_of(line);
        proof {
            assert(views(lines@).take(i + 1).drop_last() =~= views(lines@).take(i as int));
            assert(views(lines@).take(i + 1).last() == lines@[i as int]@);
        }
        if chars.len() > 0 && chars[0] == COMMENT_MARK {
            let url = if range_contains(&chars, 0, chars.len(), SEPARATOR) {
                false
            } else {
                is_url(line.substring_char(1, chars.len()))
            };
            proof {
                lemma_first_index_of(line@, SEPARATOR);
                assert(chars@.subrange(0, chars@.len() as int) =~= chars@);
                assert(line@.skip(1) =~= line@.subrange(1, line@.len() as int));
                assert(header_entry(line@, url) == header_entry(
                    line@,
                    looks_like_url(line@.skip(1)),
                ));
            }
            match parse_header(line, url) {
                Some((key, value)) => {
                    meta.insert(key, value);
                },
                None => {},
            }
        }
        i += 1;
    }
    assert(views(lines@).take(i as int) =~= views(lines@));
    meta
}

/// Whether a line of an annotated file is a row of the grid.
pub fn is_significant(line: &str) -> (yes: bool)
    ensures
        yes == significant(line@),
{
    let chars = chars_of(line);
    let (from, to) = trim_bounds(&chars, 0, chars.len());
    assert(chars@.subrange(0, chars@.len() as int) =~= chars@);
    from < to && (range_contains(&chars, from, to, FILE_CELL) || range_contains(
        &chars,
        from,
        to,
        FILE_CELL_UPPER,
    ) || range_contains(&chars, from, to, FILE_BLANK)) && !range_contains(
        &chars,
        from,
        to,
        COMMENT_MARK,
    )
}

/// The lines of an annotated file that are rows of the grid, in order and
/// as they stand.
pub fn find_significant_lines<'a>(lines: Vec<&'a str>) -> (found: Vec<&'a str>)
    ensures
        views(found@) == significant_lines(views(lines@)),
{
    let mut found: Vec<&'a str> = Vec::new();
    let mut i: usize = 0;
    while i < lines.len()
        invariant
            0 <= i <= lines@.len(),
            views(found@) == significant_lines(views(lines@).take(i as int)),
        decreases lines@.len() - i,
    {
        proof {
            assert(views(lines@).take(i + 1).drop_last() =~= views(lines@).take(i as int));
            assert(views(lines@).take(i + 1).last() == lines@[i as int]@);
        }
        if is_significant(lines[i]) {
            let ghost earlier = found@;
            found.push(lines[i]);
            assert(views(found@) =~= views(earlier).push(lines@[i as int]@));
        }
        i += 1;
    }
    assert(views(lines@).take(i as int) =~= views(lines@));
    found
}

/// The length of the longest line, in characters; zero where there is no
/// line.
pub fn find_largest_line(lines: &Vec<&str>) -> (largest: usize)
    ensures
        largest == largest_len(views(lines@)),
{
    let mut largest: usize = 0;
    let mut i: usize = 0;
    while i < lines.len()
        invariant
            0 <= i <= lines@.len(),
            largest == largest_len(views(lines@).take(i as int)),
        decreases lines@.len() - i,
    {
        proof {
            assert(views(lines@).take(i + 1).drop_last() =~= views(lines@).take(i as int));
            assert(views(lines@).take(i + 1).last() == lines@[i as int]@);
        }
        let current = lines[i].unicode_len();
        if current > largest {
            largest = current;
        }
        i += 1;
    }
    assert(views(lines@).take(i as int) =~= views(lines@));
    largest
}

/// Each line padded on the right with dead markers to the length of the
/// longest, so that all have one length.
pub fn pad_cell_lines(lines: Vec<&str>) -> (rows: Vec<String>)
    ensures
        string_views(rows@) == padded(views(lines@)),
{
    let largest = find_largest_line(&lines);
    let mut rows: Vec<String> = Vec::new();
    let mut i: usize = 0;
    while i < lines.len()
        invariant
            0 <= i <= lines@.len(),
            largest == largest_len(views(lines@)),
            rows@.len() == i,
            forall|j: int| 0 <= j < i ==> (#[trigger] rows@[j])@ == pad_right(lines@[j]@, largest as nat),
        decreases lines@.len() - i,
    {
        let line = lines[i];
        let mut len = line.unicode_len();
        let mut row = String::from_str(line);
        while len < largest
            invariant
                len <= largest || len == line@.len(),
                len >= line@.len(),
                row@ == line@ + Seq::new((len - line@.len()) as nat, |k: int| FILE_BLANK),
            decreases largest - len,
        {
            row.append(".");
            proof {
                reveal_strlit(".");
                assert(row@ =~= line@ + Seq::new((len + 1 - line@.len()) as nat, |k: int| FILE_BLANK));
            }
            len += 1;
        }
        proof {
            lemma_largest_len(views(lines@));
            assert(views(lines@)[i as int] == line@);
            assert(row@ =~= pad_right(line@, largest as nat));
        }
        rows.push(row);
        i += 1;
    }
    assert(string_views(rows@) =~= padded(views(lines@)));
    rows
}

} // verus!
