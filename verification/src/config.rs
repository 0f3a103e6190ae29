use vstd::prelude::*;

use crate::text::{chars_of, string_of};

verus! {

/// The kinds of characters that reading a settings file trims.
#[derive(Clone, Copy)]
pub enum CharClass {
    /// What `char::is_whitespace` accepts.
    WhiteSpace,
    /// `{` and `}`.
    Brace,
    /// `"`.
    Quote,
    /// `"` and `,`.
    QuoteOrComma,
}

/// Whether a character is white space: whether it has the Unicode White_Space property, as
/// `char::is_whitespace` decides.
pub open spec fn is_white_space(c: char) -> bool {
    let u = c as u32;
    ||| 0x09 <= u <= 0x0D
    ||| u == 0x20
    ||| u == 0x85
    ||| u == 0xA0
    ||| u == 0x1680
    ||| 0x2000 <= u <= 0x200A
    ||| u == 0x2028
    ||| u == 0x2029
    ||| u == 0x202F
    ||| u == 0x205F
    ||| u == 0x3000
}

/// Whether a character is of the kind.
pub open spec fn in_class(class: CharClass, c: char) -> bool {
    match class {
        CharClass::WhiteSpace => is_white_space(c),
        CharClass::Brace => c == '{' || c == '}',
        CharClass::Quote => c == '"',
        CharClass::QuoteOrComma => c == '"' || c == ',',
    }
}

/// Whether a character is of the kind.
fn char_in_class(class: CharClass, c: char) -> (b: bool)
    ensures
        b == in_class(class, c),
{
    match class {
        CharClass::WhiteSpace => {
            let u = c as u32;
            (0x09 <= u && u <= 0x0D) || u == 0x20 || u == 0x85 || u == 0xA0 || u == 0x1680 || (0x2000 <= u && u
                <= 0x200A) || u == 0x2028 || u == 0x2029 || u == 0x202F || u == 0x205F || u == 0x3000
        },
        CharClass::Brace => c == '{' || c == '}',
        CharClass::Quote => c == '"',
        CharClass::QuoteOrComma => c == '"' || c == ',',
    }
}

/// The text without the characters of the kind at its start.
pub open spec fn trim_start(s: Seq<char>, class: CharClass) -> Seq<char>
    decreases s.len(),
{
    if s.len() > 0 && in_class(class, s[0]) {
        trim_start(s.drop_first(), class)
    } else {
        s
    }
}

/// The text without the characters of the kind at its end.
pub open spec fn trim_end(s: Seq<char>, class: CharClass) -> Seq<char>
    decreases s.len(),
{
    if s.len() > 0 && in_class(class, s.last()) {
        trim_end(s.drop_last(), class)
    } else {
        s
    }
}

/// The text without the characters of the kind at either end, as `str::trim` and
/// `str::trim_matches` give it.
pub open spec fn trim(s: Seq<char>, class: CharClass) -> Seq<char> {
    trim_end(trim_start(s, class), class)
}

/// The text without the characters of the kind at either end.
pub fn trim_chars(s: &[char], class: CharClass) -> (t: Vec<char>)
    ensures
        t@ == trim(s@, class),
{
    let n = s.len();
    let mut i: usize = 0;
    assert(s@.subrange(0, n as int) =~= s@);
    while i < n && char_in_class(class, s[i])
        invariant
            i <= n,
            n == s@.len(),
            trim_start(s@, class) == trim_start(s@.subrange(i as int, n as int), class),
        decreases n - i,
    {
        assert(s@.subrange(i as int, n as int)[0] == s@[i as int]);
        assert(s@.subrange(i as int, n as int).drop_first() =~= s@.subrange(i + 1, n as int));
        i = i + 1;
    }
    if i < n {
        assert(s@.subrange(i as int, n as int)[0] == s@[i as int]);
    } else {
        assert(s@.subrange(i as int, n as int) =~= Seq::<char>::empty());
    }
    let ghost start = s@.subrange(i as int, n as int);
    assert(trim_start(s@, class) == start);
    let mut j: usize = n;
    while j > i && char_in_class(class, s[j - 1])
        invariant
            i <= j <= n,
            n == s@.len(),
            start == s@.subrange(i as int, n as int),
            trim_end(start, class) == trim_end(s@.subrange(i as int, j as int), class),
        decreases j,
    {
        assert(s@.subrange(i as int, j as int).last() == s@[j - 1]);
        assert(s@.subrange(i as int, j as int).drop_last() =~= s@.subrange(i as int, j - 1));
        j = j - 1;
    }
    if j > i {
        assert(s@.subrange(i as int, j as int).last() == s@[j - 1]);
    }
    let mut t: Vec<char> = Vec::new();
    let mut k: usize = i;
    while k < j
        invariant
            i <= k <= j <= n,
            n == s@.len(),
            t@ == s@.subrange(i as int, k as int),
        decreases j - k,
    {
        t.push(s[k]);
        k = k + 1;
        assert(t@ =~= s@.subrange(i as int, k as int));
    }
    t
}

/// The pieces of a text between the occurrences of `sep`, in order: `k` occurrences give
/// `k + 1` pieces, some of them possibly empty.
pub open spec fn split_chars(s: Seq<char>, sep: char) -> Seq<Seq<char>>
    decreases s.len(),
{
    if s.len() == 0 {
        seq![Seq::<char>::empty()]
    } else {
        let pieces = split_chars(s.drop_last(), sep);
        if s.last() == sep {
            pieces.push(Seq::<char>::empty())
        } else {
            pieces.update(pieces.len() - 1, pieces.last().push(s.last()))
        }
    }
}

/// The texts held by vectors of characters.
pub open spec fn char_seqs(v: Seq<Vec<char>>) -> Seq<Seq<char>> {
    v.map_values(|x: Vec<char>| x@)
}

/// Splitting always yields at least one piece.
proof fn lemma_split_chars_len(s: Seq<char>, sep: char)
    ensures
        split_chars(s, sep).len() >= 1,
    decreases s.len(),
{
    if s.len() > 0 {
        lemma_split_chars_len(s.drop_last(), sep);
    }
}

/// Splits a text at every occurrence of `sep`.
fn split_chars_on(s: &[char], sep: char) -> (pieces: Vec<Vec<char>>)
    ensures
        char_seqs(pieces@) == split_chars(s@, sep),
{
    let mut pieces: Vec<Vec<char>> = Vec::new();
    pieces.push(Vec::new());
    let mut i: usize = 0;
    assert(s@.take(0) =~= Seq::<char>::empty());
    assert(char_seqs(pieces@) =~= split_chars(s@.take(0), sep));
    while i < s.len()
        invariant
            i <= s.len(),
            pieces.len() >= 1,
            char_seqs(pieces@) == split_chars(s@.take(i as int), sep),
        decreases s.len() - i,
    {
        let ghost prev = char_seqs(pieces@);
        assert(s@.take(i + 1).drop_last() =~= s@.take(i as int));
        if s[i] == sep {
            pieces.push(Vec::new());
            assert(char_seqs(pieces@) =~= prev.push(Seq::<char>::empty()));
        } else {
            let mut piece = pieces.pop().unwrap();
            piece.push(s[i]);
            pieces.push(piece);
            assert(char_seqs(pieces@) =~= prev.update(prev.len() - 1, prev.last().push(s@[i as int])));
        }
        i = i + 1;
    }
    assert(s@.take(i as int) =~= s@);
    pieces
}

/// A line without the carriage return that ended it, if one did.
pub open spec fn strip_carriage_return(line: Seq<char>) -> Seq<char> {
    if line.len() > 0 && line.last() == '\r' {
        line.drop_last()
    } else {
        line
    }
}

/// The lines of a text, as `str::lines` yields them: the pieces between line feeds, each ended
/// by a line feed losing a carriage return before it; a last piece that is empty is no line.
pub open spec fn lines(text: Seq<char>) -> Seq<Seq<char>> {
    let pieces = split_chars(text, '\n');
    let ended = pieces.drop_last().map_values(|line: Seq<char>| strip_carriage_return(line));
    if pieces.last().len() == 0 {
        ended
    } else {
        ended.push(pieces.last())
    }
}

/// The lines that are not empty, in order.
pub open spec fn nonempty_lines(lines: Seq<Seq<char>>) -> Seq<Seq<char>>
    decreases lines.len(),
{
    if lines.len() == 0 {
        lines
    } else if lines.last().len() == 0 {
        nonempty_lines(lines.drop_last())
    } else {
        nonempty_lines(lines.drop_last()).push(lines.last())
    }
}

/// The lines of a settings file that hold something: the text without the white space, then the
/// braces, around it, cut into lines, each without the white space around it; the empty ones
/// are left out.
pub open spec fn settings_lines(contents: Seq<char>) -> Seq<Seq<char>> {
    nonempty_lines(
        lines(trim(trim(contents, CharClass::WhiteSpace), CharClass::Brace)).map_values(
            |line: Seq<char>| trim(line, CharClass::WhiteSpace),
        ),
    )
}

/// The position of the first occurrence of `c`, if it occurs.
pub open spec fn first_index(s: Seq<char>, c: char) -> Option<int> {
    if s.contains(c) {
        Some(choose|k: int| 0 <= k < s.len() && s[k] == c && forall|j: int| 0 <= j < k ==> s[j] != c)
    } else {
        None
    }
}

/// The entry of a line of a settings file: the key is what comes before the first colon,
/// without the quotes, then the white space, around it; the value is what comes after it,
/// without the white space, then the quotes and commas, around it. `None` when the line has
/// no colon.
pub open spec fn settings_entry(line: Seq<char>) -> Option<(Seq<char>, Seq<char>)> {
    match first_index(line, ':') {
        None => None,
        Some(k) => Some(
            (
                trim(trim(line.take(k), CharClass::Quote), CharClass::WhiteSpace),
                trim(trim(line.skip(k + 1), CharClass::WhiteSpace), CharClass::QuoteOrComma),
            ),
        ),
    }
}

/// The entries of lines, in order; `None` when a line has no colon.
pub open spec fn entries_of(lines: Seq<Seq<char>>) -> Option<Seq<(Seq<char>, Seq<char>)>>
    decreases lines.len(),
{
    if lines.len() == 0 {
        Some(Seq::<(Seq<char>, Seq<char>)>::empty())
    } else {
        match (entries_of(lines.drop_last()), settings_entry(lines.last())) {
            (Some(entries), Some(entry)) => Some(entries.push(entry)),
            _ => None,
        }
    }
}

/// The entries of a settings file, one per line that holds something, in order; `None` when such
/// a line has no colon.
pub open spec fn settings_entries(contents: Seq<char>) -> Option<Seq<(Seq<char>, Seq<char>)>> {
    entries_of(settings_lines(contents))
}

/// The texts held by entries.
pub open spec fn entries_view(entries: Seq<(String, String)>) -> Seq<(Seq<char>, Seq<char>)> {
    entries.map_values(|e: (String, String)| (e.0@, e.1@))
}

/// The value of the last entry with the key, if there is one: a later entry overrides an
/// earlier one.
pub open spec fn settings_value(entries: Seq<(Seq<char>, Seq<char>)>, key: Seq<char>) -> Option<Seq<char>>
    decreases entries.len(),
{
    if entries.len() == 0 {
        None
    } else if entries.last().0 == key {
        Some(entries.last().1)
    } else {
        settings_value(entries.drop_last(), key)
    }
}

/// The position of the first colon of a line.
fn first_colon(line: &[char]) -> (k: Option<usize>)
    ensures
        match first_index(line@, ':') {
            None => k is None,
            Some(i) => k == Some(i as usize),
        },
        k matches Some(i) ==> i < line@.len() && line@[i as int] == ':' && forall|j: int| 0 <= j < i ==> line@[j] != ':',
{
    let mut i: usize = 0;
    while i < line.len()
        invariant
            i <= line.len(),
            forall|j: int| 0 <= j < i ==> line@[j] != ':',
        decreases line.len() - i,
    {
        if line[i] == ':' {
            assert(line@.contains(':'));
            proof {
                let k = choose|k: int| 0 <= k < line@.len() && line@[k] == ':' && forall|j: int| 0 <= j < k ==> line@[j] != ':';
                assert(0 <= k < line@.len() && line@[k] == ':' && forall|j: int| 0 <= j < k ==> line@[j] != ':') by {
                    assert(line@[i as int] == ':');
                }
                if k < i {
                    assert(line@[k] != ':');
                } else if k > i {
                    assert(line@[i as int] != ':');
                }
            }
            return Some(i);
        }
        i = i + 1;
    }
    None
}

/// The entry of a line of a settings file, or `None` when it has no colon.
fn read_entry(line: &[char]) -> (entry: Option<(String, String)>)
    ensures
        match settings_entry(line@) {
            None => entry is None,
            Some(e) => entry matches Some(read) && read.0@ == e.0 && read.1@ == e.1,
        },
{
    match first_colon(line) {
        None => None,
        Some(k) => {
            let mut before: Vec<char> = Vec::new();
            let mut i: usize = 0;
            while i < k
                invariant
                    i <= k < line.len(),
                    before@ == line@.take(i as int),
                decreases k - i,
            {
                before.push(line[i]);
                i = i + 1;
                assert(before@ =~= line@.take(i as int));
            }
            let mut after: Vec<char> = Vec::new();
            let mut j: usize = k + 1;
            while j < line.len()
                invariant
                    k < j <= line.len(),
                    after@ == line@.subrange(k + 1, j as int),
                decreases line.len() - j,
            {
                after.push(line[j]);
                j = j + 1;
                assert(after@ =~= line@.subrange(k + 1, j as int));
            }
            assert(after@ =~= line@.skip(k + 1));
            let unquoted = trim_chars(before.as_slice(), CharClass::Quote);
            let key = trim_chars(unquoted.as_slice(), CharClass::WhiteSpace);
            let trimmed = trim_chars(after.as_slice(), CharClass::WhiteSpace);
            let value = trim_chars(trimmed.as_slice(), CharClass::QuoteOrComma);
            Some((string_of(key.as_slice()), string_of(value.as_slice())))
        },
    }
}

/// The lines of a text, as `str::lines` yields them.
fn lines_of_chars(text: &[char]) -> (result: Vec<Vec<char>>)
    ensures
        char_seqs(result@) == lines(text@),
{
    let pieces = split_chars_on(text, '\n');
    let ghost all = char_seqs(pieces@);
    proof {
        lemma_split_chars_len(text@, '\n');
    }
    let mut result: Vec<Vec<char>> = Vec::new();
    let last = pieces.len() - 1;
    let mut i: usize = 0;
    while i < last
        invariant
            i <= last,
            last == pieces.len() - 1,
            all == char_seqs(pieces@),
            all == split_chars(text@, '\n'),
            char_seqs(result@) == all.take(i as int).map_values(|line: Seq<char>| strip_carriage_return(line)),
        decreases last - i,
    {
        let piece = &pieces[i];
        let n = piece.len();
        let mut line: Vec<char> = Vec::new();
        let end = if n > 0 && piece[n - 1] == '\r' {
            n - 1
        } else {
            n
        };
        let mut k: usize = 0;
        while k < end
            invariant
                k <= end <= n,
                n == piece@.len(),
                line@ == piece@.take(k as int),
            decreases end - k,
        {
            line.push(piece[k]);
            k = k + 1;
            assert(line@ =~= piece@.take(k as int));
        }
        assert(line@ =~= strip_carriage_return(all[i as int]));
        let ghost before = char_seqs(result@);
        result.push(line);
        assert(char_seqs(result@) =~= before.push(line@));
        assert(all.take(i + 1).map_values(|line: Seq<char>| strip_carriage_return(line)) =~= all.take(i as int).map_values(
            |line: Seq<char>| strip_carriage_return(line),
        ).push(strip_carriage_return(all[i as int])));
        i = i + 1;
    }
    assert(all.take(last as int) =~= all.drop_last());
    if pieces[last].len() > 0 {
        let mut line: Vec<char> = Vec::new();
        let mut k: usize = 0;
        while k < pieces[last].len()
            invariant
                last < pieces.len(),
                k <= pieces@[last as int]@.len(),
                line@ == pieces@[last as int]@.take(k as int),
            decreases pieces@[last as int]@.len() - k,
        {
            line.push(pieces[last][k]);
            k = k + 1;
            assert(line@ =~= pieces@[last as int]@.take(k as int));
        }
        assert(line@ =~= all.last());
        let ghost before = char_seqs(result@);
        result.push(line);
        assert(char_seqs(result@) =~= before.push(all.last()));
    }
    result
}

/// Reads the entries of a settings file, one per line that holds something, in order; gives
/// `None` when such a line has no colon.
pub fn parse_settings(contents: &str) -> (entries: Option<Vec<(String, String)>>)
    ensures
        match settings_entries(contents@) {
            None => entries is None,
            Some(es) => entries matches Some(v) && entries_view(v@) == es,
        },
{
    let chars = chars_of(contents);
    let trimmed = trim_chars(chars.as_slice(), CharClass::WhiteSpace);
    let json = trim_chars(trimmed.as_slice(), CharClass::Brace);
    let all_lines = lines_of_chars(json.as_slice());
    let ghost raw = char_seqs(all_lines@);
    let ghost trimmed_lines = raw.map_values(|line: Seq<char>| trim(line, CharClass::WhiteSpace));
    let ghost wanted = settings_lines(contents@);
    assert(wanted == nonempty_lines(trimmed_lines));
    let mut entries: Vec<(String, String)> = Vec::new();
    let mut i: usize = 0;
    while i < all_lines.len()
        invariant
            i <= all_lines.len(),
            raw == char_seqs(all_lines@),
            trimmed_lines.len() == all_lines@.len(),
            forall|j: int| 0 <= j < trimmed_lines.len() ==> #[trigger] trimmed_lines[j] == trim(raw[j], CharClass::WhiteSpace),
            wanted == nonempty_lines(trimmed_lines),
            wanted == settings_lines(contents@),
            entries_of(nonempty_lines(trimmed_lines.take(i as int))) == Some(entries_view(entries@)),
        decreases all_lines.len() - i,
    {
        let line = trim_chars(all_lines[i].as_slice(), CharClass::WhiteSpace);
        assert(raw[i as int] == all_lines@[i as int]@);
        assert(line@ == trimmed_lines[i as int]);
        assert(trimmed_lines.take(i + 1).drop_last() =~= trimmed_lines.take(i as int));
        assert(trimmed_lines.take(i + 1).last() == line@);
        let ghost next = nonempty_lines(trimmed_lines.take(i + 1));
        let ghost prev = nonempty_lines(trimmed_lines.take(i as int));
        if line.len() == 0 {
            assert(next == prev);
        } else {
            assert(next == prev.push(line@));
            assert(next.drop_last() =~= prev);
        }
        if line.len() > 0 {
            match read_entry(line.as_slice()) {
                None => {
                    proof {
                        lemma_entries_of_stops(trimmed_lines, i as int + 1);
                    }
                    assert(trimmed_lines.take(all_lines@.len() as int) =~= trimmed_lines);
                    return None;
                },
                Some(entry) => {
                    let ghost before = entries_view(entries@);
                    entries.push(entry);
                    assert(entries_view(entries@) =~= before.push((entry.0@, entry.1@)));
                },
            }
        }
        i = i + 1;
    }
    assert(trimmed_lines.take(i as int) =~= trimmed_lines);
    Some(entries)
}

/// Once a line without a colon is met, the entries of more lines cannot be read either.
proof fn lemma_entries_of_stops(lines: Seq<Seq<char>>, k: int)
    requires
        0 < k <= lines.len(),
        lines[k - 1].len() > 0,
        settings_entry(lines[k - 1]) is None,
    ensures
        entries_of(nonempty_lines(lines)) is None,
    decreases lines.len() - k,
{
    assert(lines.take(k).last() == lines[k - 1]);
    lemma_entries_of_stops_at(lines.take(k));
    lemma_entries_of_extend(lines, k);
}

/// The entries of lines whose last line holds something without a colon cannot be read.
proof fn lemma_entries_of_stops_at(lines: Seq<Seq<char>>)
    requires
        lines.len() > 0,
        lines.last().len() > 0,
        settings_entry(lines.last()) is None,
    ensures
        entries_of(nonempty_lines(lines)) is None,
{
    let ne = nonempty_lines(lines);
    assert(ne == nonempty_lines(lines.drop_last()).push(lines.last()));
    assert(ne.drop_last() =~= nonempty_lines(lines.drop_last()));
}

/// Lines that cannot be read stay unreadable when more lines follow.
proof fn lemma_entries_of_extend(lines: Seq<Seq<char>>, k: int)
    requires
        0 < k <= lines.len(),
        entries_of(nonempty_lines(lines.take(k))) is None,
    ensures
        entries_of(nonempty_lines(lines)) is None,
    decreases lines.len() - k,
{
    if k < lines.len() {
        let next = lines.take(k + 1);
        assert(next.drop_last() =~= lines.take(k));
        if next.last().len() > 0 {
            let ne = nonempty_lines(next);
            assert(ne.drop_last() =~= nonempty_lines(lines.take(k)));
        }
        lemma_entries_of_extend(lines, k + 1);
    } else {
        assert(lines.take(k) =~= lines);
    }
}

/// The value of the last entry with the key, if there is one.
pub fn setting(entries: &Vec<(String, String)>, key: &str) -> (value: Option<String>)
    ensures
        match settings_value(entries_view(entries@), key@) {
            None => value is None,
            Some(v) => value matches Some(s) && s@ == v,
        },
{
    let wanted = String::from_str(key);
    let ghost all = entries_view(entries@);
    let mut i: usize = entries.len();
    assert(all.take(i as int) =~= all);
    while i > 0
        invariant
            i <= entries.len(),
            all == entries_view(entries@),
            wanted@ == key@,
            settings_value(all, key@) == settings_value(all.take(i as int), key@),
        decreases i,
    {
        assert(all.take(i as int).drop_last() =~= all.take(i - 1));
        assert(all.take(i as int).last() == (entries@[i - 1].0@, entries@[i - 1].1@));
        if entries[i - 1].0 == wanted {
            return Some(entries[i - 1].1.clone());
        }
        i = i - 1;
    }
    None
}

/// The lines of a settings file that hold something, each without the white space around it.
fn settings_lines_of(contents: &str) -> (result: Vec<Vec<char>>)
    ensures
        char_seqs(result@) == settings_lines(contents@),
{
    let chars = chars_of(contents);
    let trimmed = trim_chars(chars.as_slice(), CharClass::WhiteSpace);
    let json = trim_chars(trimmed.as_slice(), CharClass::Brace);
    let all_lines = lines_of_chars(json.as_slice());
    let ghost raw = char_seqs(all_lines@);
    let ghost trimmed_lines = raw.map_values(|line: Seq<char>| trim(line, CharClass::WhiteSpace));
    assert(settings_lines(contents@) == nonempty_lines(trimmed_lines));
    let mut result: Vec<Vec<char>> = Vec::new();
    let mut i: usize = 0;
    while i < all_lines.len()
        invariant
            i <= all_lines.len(),
            raw == char_seqs(all_lines@),
            trimmed_lines.len() == all_lines@.len(),
            forall|j: int| 0 <= j < trimmed_lines.len() ==> #[trigger] trimmed_lines[j] == trim(raw[j], CharClass::WhiteSpace),
            char_seqs(result@) == nonempty_lines(trimmed_lines.take(i as int)),
        decreases all_lines.len() - i,
    {
        let line = trim_chars(all_lines[i].as_slice(), CharClass::WhiteSpace);
        assert(raw[i as int] == all_lines@[i as int]@);
        assert(trimmed_lines.take(i + 1).drop_last() =~= trimmed_lines.take(i as int));
        assert(trimmed_lines.take(i + 1).last() == line@);
        if line.len() > 0 {
            let ghost before = char_seqs(result@);
            result.push(line);
            assert(char_seqs(result@) =~= before.push(trimmed_lines[i as int]));
        }
        i = i + 1;
    }
    assert(trimmed_lines.take(i as int) =~= trimmed_lines);
    result
}

/// Where reading the settings file of the camera system stands: the entries read so far,
/// whether the list of cameras has begun, the entries of the camera being read, and the cameras
/// read so far, each as its entries.
pub struct CameraSettingsScan {
    pub entries: Seq<(Seq<char>, Seq<char>)>,
    pub inside_cameras: bool,
    pub current: Seq<(Seq<char>, Seq<char>)>,
    pub cameras: Seq<Seq<(Seq<char>, Seq<char>)>>,
}

/// Reading one more line of the settings file of the camera system. Before the list of
/// cameras, a line is an entry, and the entry "cameras" begins the list; a line without a
/// colon there cannot be read (`None`). In the list, a line that starts with `{` begins a
/// camera, one that starts with `}` ends it, and any other line is an entry of the camera, or
/// is skipped when it has no colon.
pub open spec fn scan_camera_line(scan: CameraSettingsScan, line: Seq<char>) -> Option<CameraSettingsScan> {
    if scan.inside_cameras {
        if line.len() > 0 && line[0] == '{' {
            Some(CameraSettingsScan { current: Seq::empty(), ..scan })
        } else if line.len() > 0 && line[0] == '}' {
            Some(CameraSettingsScan { cameras: scan.cameras.push(scan.current), current: Seq::empty(), ..scan })
        } else {
            match settings_entry(line) {
                None => Some(scan),
                Some(entry) => Some(CameraSettingsScan { current: scan.current.push(entry), ..scan }),
            }
        }
    } else {
        match settings_entry(line) {
            None => None,
            Some(entry) => if entry.0 == "cameras"@ {
                Some(CameraSettingsScan { inside_cameras: true, ..scan })
            } else {
                Some(CameraSettingsScan { entries: scan.entries.push(entry), ..scan })
            },
        }
    }
}

/// Reading lines of the settings file of the camera system, one after the other.
pub open spec fn scan_camera_lines(lines: Seq<Seq<char>>) -> Option<CameraSettingsScan>
    decreases lines.len(),
{
    if lines.len() == 0 {
        Some(
            CameraSettingsScan {
                entries: Seq::empty(),
                inside_cameras: false,
                current: Seq::empty(),
                cameras: Seq::empty(),
            },
        )
    } else {
        match scan_camera_lines(lines.drop_last()) {
            None => None,
            Some(scan) => scan_camera_line(scan, lines.last()),
        }
    }
}

/// The settings of the camera system: its entries, and the entries of each of its cameras, in
/// order; `None` when a line before the list of cameras has no colon.
pub open spec fn camera_settings(contents: Seq<char>) -> Option<(Seq<(Seq<char>, Seq<char>)>, Seq<Seq<(Seq<char>, Seq<char>)>>)> {
    match scan_camera_lines(settings_lines(contents)) {
        None => None,
        Some(scan) => Some((scan.entries, scan.cameras)),
    }
}

/// The texts held by the entries of cameras.
pub open spec fn camera_entries_view(cameras: Seq<Vec<(String, String)>>) -> Seq<Seq<(Seq<char>, Seq<char>)>> {
    cameras.map_values(|c: Vec<(String, String)>| entries_view(c@))
}

/// Reads the settings file of the camera system: its entries, and the entries of each camera of
/// its list, in order; gives `None` when a line before the list of cameras has no colon.
pub fn parse_camera_settings(contents: &str) -> (result: Option<(Vec<(String, String)>, Vec<Vec<(String, String)>>)>)
    ensures
        match camera_settings(contents@) {
            None => result is None,
            Some((entries, cameras)) => result matches Some(r) && entries_view(r.0@) == entries
                && camera_entries_view(r.1@) == cameras,
        },
{
    let lines = settings_lines_of(contents);
    let ghost all = char_seqs(lines@);
    let mut entries: Vec<(String, String)> = Vec::new();
    let mut inside_cameras = false;
    let mut current: Vec<(String, String)> = Vec::new();
    let mut cameras: Vec<Vec<(String, String)>> = Vec::new();
    let mut i: usize = 0;
    assert(all.take(0) =~= Seq::<Seq<char>>::empty());
    assert(entries_view(entries@) =~= Seq::<(Seq<char>, Seq<char>)>::empty());
    assert(entries_view(current@) =~= Seq::<(Seq<char>, Seq<char>)>::empty());
    assert(camera_entries_view(cameras@) =~= Seq::<Seq<(Seq<char>, Seq<char>)>>::empty());
    while i < lines.len()
        invariant
            i <= lines.len(),
            all == char_seqs(lines@),
            all == settings_lines(contents@),
            scan_camera_lines(all.take(i as int)) == Some(
                CameraSettingsScan {
                    entries: entries_view(entries@),
                    inside_cameras,
                    current: entries_view(current@),
                    cameras: camera_entries_view(cameras@),
                },
            ),
        decreases lines.len() - i,
    {
        let line = &lines[i];
        assert(all.take(i + 1).drop_last() =~= all.take(i as int));
        assert(all.take(i + 1).last() == line@);
        if inside_cameras {
            if line.len() > 0 && line[0] == '{' {
                current = Vec::new();
                assert(entries_view(current@) =~= Seq::<(Seq<char>, Seq<char>)>::empty());
            } else if line.len() > 0 && line[0] == '}' {
                let ghost before = camera_entries_view(cameras@);
                let finished = current;
                current = Vec::new();
                cameras.push(finished);
                assert(camera_entries_view(cameras@) =~= before.push(entries_view(finished@)));
                assert(entries_view(current@) =~= Seq::<(Seq<char>, Seq<char>)>::empty());
            } else {
                match read_entry(line.as_slice()) {
                    None => {},
                    Some(entry) => {
                        let ghost before = entries_view(current@);
                        current.push(entry);
                        assert(entries_view(current@) =~= before.push((entry.0@, entry.1@)));
                    },
                }
            }
        } else {
            match read_entry(line.as_slice()) {
                None => {
                    proof {
                        lemma_camera_scan_stops(all, i as int + 1);
                    }
                    return None;
                },
                Some(entry) => {
                    if entry.0 == String::from_str("cameras") {
                        inside_cameras = true;
                    } else {
                        let ghost before = entries_view(entries@);
                        entries.push(entry);
                        assert(entries_view(entries@) =~= before.push((entry.0@, entry.1@)));
                    }
                },
            }
        }
        i = i + 1;
    }
    assert(all.take(i as int) =~= all);
    Some((entries, cameras))
}

/// Once a line cannot be read, reading more lines of the camera settings fails too.
proof fn lemma_camera_scan_stops(lines: Seq<Seq<char>>, k: int)
    requires
        0 < k <= lines.len(),
        scan_camera_lines(lines.take(k)) is None,
    ensures
        scan_camera_lines(lines) is None,
    decreases lines.len() - k,
{
    if k < lines.len() {
        assert(lines.take(k + 1).drop_last() =~= lines.take(k));
        lemma_camera_scan_stops(lines, k + 1);
    } else {
        assert(lines.take(k) =~= lines);
    }
}

} // verus!
