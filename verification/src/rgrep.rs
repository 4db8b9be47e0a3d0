//! The text a small grep tool prints: matching lines, numbered, with the
//! match highlighted, under the name of the file they come from.
use vstd::prelude::*;
use vstd::utf8::{
    decode_utf8, encode_utf8, is_char_boundary, valid_utf8, encode_utf8_valid_utf8,
    encode_utf8_decode_utf8, decode_utf8_encode_utf8, valid_utf8_split, decode_utf8_split,
    is_char_boundary_iff_not_is_continuation_byte, is_char_boundary_start_end_of_seq,
};
use vstd::string::{StringSliceAdditionalSpecFns, StrSliceExecFns};
use std::ops::Range;
use colored::Colorize;

verus! {

#[verifier::external_type_specification]
#[verifier::external_body]
pub struct ExRegex(regex::Regex);

#[verifier::external_type_specification]
#[verifier::external_body]
pub struct ExRegexError(regex::Error);

/// Whether `regex::Regex::new` accepts `pattern`.
pub uninterp spec fn regex_compiles(pattern: Seq<char>) -> bool;

/// The byte range of the leftmost-first match of the regular expression
/// `pattern` in `haystack`, as `regex::Regex::find` reports it.
pub uninterp spec fn regex_first_match(pattern: Seq<char>, haystack: Seq<char>) -> Option<(usize, usize)>;

/// Why a search could not run.
#[derive(Debug)]
pub enum GrepError {
    /// The pattern is not a regular expression the engine accepts.
    Regex(regex::Error),
    /// The file pattern is not a valid glob.
    Glob(String),
    /// Reading or writing failed.
    Io(String),
}

/// What the tool searches for, and in which files.
pub struct GrepConfig {
    pattern: String,
    glob: String,
}

/// A compiled regular expression together with its source text.
pub struct Pattern {
    source: String,
    regex: regex::Regex,
}

impl View for Pattern {
    type V = Seq<char>;

    closed spec fn view(&self) -> Seq<char> {
        self.source@
    }
}

/// Compiles `source` (`regex::Regex::new`); it succeeds exactly on the
/// patterns named by `regex_compiles`.
#[verifier::external_body]
fn compile_regex(source: &str) -> (r: Result<regex::Regex, regex::Error>)
    ensures
        r is Ok <==> regex_compiles(source@),
{
    regex::Regex::new(source)
}

/// The byte range of the first match of `p` in `haystack`
/// (`regex::Regex::find`, read through `Match::start` and `Match::end`). The
/// regex crate documents that match offsets lie on UTF-8 boundaries of the
/// haystack; a haystack never exceeds `isize::MAX` bytes.
#[verifier::external_body]
fn first_match(p: &Pattern, haystack: &str) -> (r: Option<(usize, usize)>)
    ensures
        r == regex_first_match(p@, haystack@),
        r matches Some((s, e)) ==> {
            &&& s <= e <= haystack.spec_bytes().len()
            &&& e <= isize::MAX
            &&& is_char_boundary(haystack.spec_bytes(), s as int)
            &&& is_char_boundary(haystack.spec_bytes(), e as int)
        },
{
    p.regex.find(haystack).map(|m| (m.start(), m.end()))
}

impl Pattern {
    /// Compiles `source`; fails exactly when the regex engine rejects it.
    pub fn new(source: &str) -> (r: Result<Pattern, GrepError>)
        ensures
            r is Ok <==> regex_compiles(source@),
            r matches Ok(p) ==> p@ == source@,
            r matches Err(e) ==> e is Regex,
    {
        match compile_regex(source) {
            Ok(regex) => Ok(Pattern { source: source.to_owned(), regex }),
            Err(e) => Err(GrepError::Regex(e)),
        }
    }

    /// The byte range of the first match of this pattern in `haystack`.
    pub fn find(&self, haystack: &str) -> (r: Option<(usize, usize)>)
        ensures
            r == regex_first_match(self@, haystack@),
            r matches Some((s, e)) ==> {
                &&& s <= e <= haystack.spec_bytes().len()
                &&& e <= isize::MAX
                &&& is_char_boundary(haystack.spec_bytes(), s as int)
                &&& is_char_boundary(haystack.spec_bytes(), e as int)
            },
    {
        first_match(self, haystack)
    }
}

impl GrepConfig {
    /// A search for `pattern` in the files that `glob` names.
    pub fn new(pattern: &str, glob: &str) -> (r: GrepConfig)
        ensures
            r.pattern_text() == pattern@,
            r.glob_text() == glob@,
    {
        GrepConfig { pattern: pattern.to_owned(), glob: glob.to_owned() }
    }

    /// The regular expression searched for, as text.
    pub closed spec fn pattern_text(&self) -> Seq<char> {
        self.pattern@
    }

    /// The file pattern, as text.
    pub closed spec fn glob_text(&self) -> Seq<char> {
        self.glob@
    }

    /// The regular expression searched for.
    pub fn pattern(&self) -> (r: &str)
        ensures
            r@ == self.pattern_text(),
    {
        self.pattern.as_str()
    }

    /// The file pattern.
    pub fn glob(&self) -> (r: &str)
        ensures
            r@ == self.glob_text(),
    {
        self.glob.as_str()
    }

    /// Compiles the regular expression of this search.
    pub fn compile(&self) -> (r: Result<Pattern, GrepError>)
        ensures
            r is Ok <==> regex_compiles(self.pattern_text()),
            r matches Ok(p) ==> p@ == self.pattern_text(),
            r matches Err(e) ==> e is Regex,
    {
        Pattern::new(self.pattern.as_str())
    }
}

/// `n` spaces.
pub open spec fn spaces(n: int) -> Seq<char> {
    Seq::new(if n > 0 { n as nat } else { 0 }, |i: int| ' ')
}

/// `s` right-aligned in a field of `width` characters.
pub open spec fn pad_left(s: Seq<char>, width: int) -> Seq<char> {
    spaces(width - s.len()) + s
}

/// `s` left-aligned in a field of `width` characters.
pub open spec fn pad_right(s: Seq<char>, width: int) -> Seq<char> {
    s + spaces(width - s.len())
}

/// The sequence that ends a terminal style.
pub open spec fn reset_code() -> Seq<char> {
    "\x1B[0m"@
}

/// The sequence that starts the terminal style of the color `code`.
pub open spec fn style_code(code: Seq<char>) -> Seq<char> {
    "\x1B["@ + code + "m"@
}

/// `s` with `style` put back after each reset sequence it holds, so that a
/// style around `s` goes on after an inner reset.
pub open spec fn restyle_after_resets(s: Seq<char>, style: Seq<char>) -> Seq<char>
    decreases s.len(),
{
    if s.len() == 0 {
        s
    } else if s.len() >= 4 && s.take(4) == reset_code() {
        reset_code() + style + restyle_after_resets(s.skip(4), style)
    } else {
        seq![s[0]] + restyle_after_resets(s.drop_first(), style)
    }
}

/// `out` is `shown`, as the colored crate writes a styled text when colors
/// are on: the style `style` (or nothing), `shown`, and the reset sequence.
pub open spec fn framed(out: Seq<char>, shown: Seq<char>, style: Seq<char>) -> bool {
    ||| out == style + shown + reset_code()
    ||| out == shown + reset_code()
}

/// `out` shows `text` in the terminal color `code`, or plain, with `align`
/// laying the text out. Colors are off when the first look at the color
/// setting says so, and the text is then plain; else the output ends with the
/// reset sequence, starts with the style unless a later look found colors
/// off, and holds the text with the style put back after each inner reset
/// unless a look at that point found colors off.
pub open spec fn painted_with(
    out: Seq<char>,
    text: Seq<char>,
    code: Seq<char>,
    align: spec_fn(Seq<char>) -> Seq<char>,
) -> bool {
    let style = style_code(code);
    ||| out == align(text)
    ||| framed(out, align(text), style)
    ||| framed(out, align(restyle_after_resets(text, style)), style)
}

/// `out` shows `text` plain or in the terminal color `code`.
pub open spec fn painted(out: Seq<char>, text: Seq<char>, code: Seq<char>) -> bool {
    painted_with(out, text, code, |s: Seq<char>| s)
}

/// `out` shows `text` right-aligned in `width` characters, plain or in the
/// color `code`; the alignment applies to the text inside the style.
pub open spec fn painted_right(out: Seq<char>, text: Seq<char>, width: int, code: Seq<char>) -> bool {
    painted_with(out, text, code, |s: Seq<char>| pad_left(s, width))
}

/// `out` shows `text` left-aligned in `width` characters, plain or in the
/// color `code`; the alignment applies to the text inside the style.
pub open spec fn painted_left(out: Seq<char>, text: Seq<char>, width: int, code: Seq<char>) -> bool {
    painted_with(out, text, code, |s: Seq<char>| pad_right(s, width))
}

/// Shows `text` in blue, right-aligned in `width` characters
/// (`Colorize::blue`, written out by its `Display`). Whether colors are on
/// depends on the environment and the terminal, and the `Display` of the
/// colored string looks at that setting several times in one call (another
/// thread may change it in between): the result is the plain aligned text,
/// or the aligned text framed as `painted_with` describes, where the style
/// is put back after each reset inside the text before it is aligned.
#[verifier::external_body]
fn blue_right(text: &str, width: usize) -> (r: String)
    ensures
        painted_right(r@, text@, width as int, "34"@),
{
    format!("{:>1$}", text.blue(), width)
}

/// Shows `text` in cyan, left-aligned in `width` characters
/// (`Colorize::cyan`, written out by its `Display`); plain or in cyan,
/// depending on the environment, as `blue_right` describes.
#[verifier::external_body]
fn cyan_left(text: &str, width: usize) -> (r: String)
    ensures
        painted_left(r@, text@, width as int, "36"@),
{
    format!("{:<1$}", text.cyan(), width)
}

/// Shows `text` in red (`Colorize::red`, written out by its `Display`);
/// plain or in red, depending on the environment, as `blue_right` describes.
#[verifier::external_body]
fn red(text: &str) -> (r: String)
    ensures
        painted(r@, text@, "31"@),
{
    format!("{}", text.red())
}

/// The text of `text` made green (`Colorize::green`), read through the
/// colored string's `Deref`, which yields its plain input: the bytes carry no
/// color codes.
#[verifier::external_body]
fn green_text(text: &str) -> (r: String)
    ensures
        r@ == text@,
{
    let painted = text.green();
    String::from(&*painted)
}

/// Appends `c` to `s` (`String::push`).
#[verifier::external_body]
fn push_char(s: &mut String, c: char)
    ensures
        final(s)@ == old(s)@.push(c),
{
    s.push(c)
}

/// The decimal digit character of `d`.
pub open spec fn digit_char(d: nat) -> char {
    (48 + d) as char
}

/// The decimal notation of `n`.
pub open spec fn decimal_digits(n: nat) -> Seq<char>
    decreases n,
{
    if n < 10 {
        seq![digit_char(n)]
    } else {
        decimal_digits(n / 10).push(digit_char(n % 10))
    }
}

/// The decimal notation of `n`.
pub fn decimal(n: usize) -> (r: String)
    ensures
        r@ == decimal_digits(n as nat),
    decreases n,
{
    let d: u8 = (n % 10) as u8;
    let c: char = (48u8 + d) as char;
    if n < 10 {
        let mut s = String::new();
        push_char(&mut s, c);
        s
    } else {
        let mut s = decimal(n / 10);
        push_char(&mut s, c);
        s
    }
}

/// The characters whose UTF-8 encoding is the bytes `from..to` of the
/// encoding of `s`.
pub open spec fn byte_slice(s: Seq<char>, from: int, to: int) -> Seq<char> {
    decode_utf8(encode_utf8(s).subrange(from, to))
}

/// `out` is the line `line`, numbered `lineno`, with the bytes `start..end`
/// highlighted: the number right-aligned in six characters, a colon, the
/// column of the match (counted in characters from one) left-aligned in
/// three, a space, and the line with the match in red.
pub open spec fn shown_line(out: Seq<char>, line: Seq<char>, lineno: nat, start: int, end: int) -> bool {
    let prefix = byte_slice(line, 0, start);
    let matched = byte_slice(line, start, end);
    let rest = byte_slice(line, end, encode_utf8(line).len() as int);
    exists|number: Seq<char>, column: Seq<char>, highlighted: Seq<char>|
        {
            &&& painted_right(number, decimal_digits(lineno), 6, "34"@)
            &&& painted_left(column, decimal_digits(prefix.len() + 1), 3, "36"@)
            &&& painted(highlighted, matched, "31"@)
            &&& out == number + ":"@ + column + " "@ + prefix + highlighted + rest
        }
}

/// Puts together a shown line from its pieces.
pub fn layout_line(number: &str, column: &str, prefix: &str, highlighted: &str, rest: &str) -> (r: String)
    ensures
        r@ == number@ + ":"@ + column@ + " "@ + prefix@ + highlighted@ + rest@,
{
    let mut s = String::from_str(number);
    s.append(":");
    s.append(column);
    s.append(" ");
    s.append(prefix);
    s.append(highlighted);
    s.append(rest);
    s
}

proof fn lemma_boundary_in_suffix(bytes: Seq<u8>, start: int, end: int)
    requires
        valid_utf8(bytes),
        0 <= start <= end <= bytes.len(),
        is_char_boundary(bytes, start),
        is_char_boundary(bytes, end),
    ensures
        valid_utf8(bytes.subrange(start, bytes.len() as int)),
        is_char_boundary(bytes.subrange(start, bytes.len() as int), end - start),
{
    let tail = bytes.subrange(start, bytes.len() as int);
    valid_utf8_split(bytes, start);
    if end == bytes.len() {
        is_char_boundary_start_end_of_seq(tail);
    } else {
        is_char_boundary_iff_not_is_continuation_byte(bytes, end);
        is_char_boundary_iff_not_is_continuation_byte(tail, end - start);
        assert(tail[end - start] == bytes[end]);
    }
}

proof fn lemma_chars_fit_bytes(s: Seq<char>)
    ensures
        s.len() <= encode_utf8(s).len(),
    decreases s.len(),
{
    if s.len() > 0 {
        lemma_chars_fit_bytes(s.drop_first());
    }
}

/// Shows `line`, numbered `lineno`, with its bytes `range` highlighted.
pub fn format_line(line: &str, lineno: usize, range: Range<usize>) -> (r: String)
    requires
        range.start <= range.end <= line.spec_bytes().len(),
        range.end <= isize::MAX,
        is_char_boundary(line.spec_bytes(), range.start as int),
        is_char_boundary(line.spec_bytes(), range.end as int),
    ensures
        shown_line(r@, line@, lineno as nat, range.start as int, range.end as int),
{
    let start = range.start;
    let end = range.end;
    let ghost bytes = line.spec_bytes();
    proof {
        encode_utf8_valid_utf8(line@);
        lemma_boundary_in_suffix(bytes, start as int, end as int);
    }
    let (prefix, tail) = line.split_at(start);
    let (matched, rest) = tail.split_at(end - start);
    proof {
        encode_utf8_decode_utf8(prefix@);
        encode_utf8_decode_utf8(matched@);
        encode_utf8_decode_utf8(rest@);
        assert(tail.spec_bytes().subrange(0, (end - start) as int) =~= bytes.subrange(
            start as int,
            end as int,
        ));
        assert(tail.spec_bytes().subrange((end - start) as int, tail.spec_bytes().len() as int)
            =~= bytes.subrange(end as int, bytes.len() as int));
        assert(prefix@ == byte_slice(line@, 0, start as int));
        assert(matched@ == byte_slice(line@, start as int, end as int));
        assert(rest@ == byte_slice(line@, end as int, bytes.len() as int));
        lemma_chars_fit_bytes(prefix@);
    }
    let column_number = prefix.unicode_len() + 1;
    let number = blue_right(decimal(lineno).as_str(), 6);
    let column = cyan_left(decimal(column_number).as_str(), 3);
    let highlighted = red(matched);
    layout_line(number.as_str(), column.as_str(), prefix, highlighted.as_str(), rest)
}

/// A line that matched: its text, its number (counted from one) and the
/// byte range of the match.
pub struct Hit {
    pub line: Seq<char>,
    pub lineno: nat,
    pub start: int,
    pub end: int,
}

/// The lines among `lines` in which `pattern` matches, in order; lines that
/// could not be read (`None`) are skipped but still counted.
pub open spec fn hits(lines: Seq<Option<String>>, pattern: Seq<char>) -> Seq<Hit>
    decreases lines.len(),
{
    if lines.len() == 0 {
        Seq::empty()
    } else {
        let earlier = hits(lines.drop_last(), pattern);
        match lines.last() {
            Some(line) => match regex_first_match(pattern, line@) {
                Some((s, e)) => earlier.push(
                    Hit { line: line@, lineno: lines.len(), start: s as int, end: e as int },
                ),
                None => earlier,
            },
            None => earlier,
        }
    }
}

/// The texts `parts` with `sep` between each two.
pub open spec fn joined(parts: Seq<Seq<char>>, sep: Seq<char>) -> Seq<char>
    decreases parts.len(),
{
    if parts.len() == 0 {
        Seq::empty()
    } else if parts.len() == 1 {
        parts[0]
    } else {
        joined(parts.drop_last(), sep) + sep + parts.last()
    }
}

/// `outs` shows each of `found`, in order.
pub open spec fn shows_hits(outs: Seq<Seq<char>>, found: Seq<Hit>) -> bool {
    &&& outs.len() == found.len()
    &&& forall|i: int|
        0 <= i < found.len() ==> shown_line(
            #[trigger] outs[i],
            found[i].line,
            found[i].lineno,
            found[i].start,
            found[i].end,
        )
}

/// The lines of `lines` in which `pattern` matches, each shown with its
/// number and its match highlighted, one per line.
pub fn matching_lines(lines: &Vec<Option<String>>, pattern: &Pattern) -> (r: String)
    ensures
        exists|outs: Seq<Seq<char>>|
            shows_hits(outs, hits(lines@, pattern@)) && r@ == joined(outs, "\n"@),
{
    let n = lines.len();
    let mut out = String::new();
    let mut first = true;
    let ghost mut outs: Seq<Seq<char>> = Seq::empty();
    let mut i: usize = 0;
    while i < n
        invariant
            n == lines@.len(),
            i <= n,
            first == (outs.len() == 0),
            shows_hits(outs, hits(lines@.take(i as int), pattern@)),
            out@ == joined(outs, "\n"@),
        decreases n - i,
    {
        let ghost before = lines@.take(i as int);
        assert(lines@.take(i + 1).drop_last() == before);
        match &lines[i] {
            Some(line) => {
                match pattern.find(line.as_str()) {
                    Some((s, e)) => {
                        let shown = format_line(line.as_str(), i + 1, s..e);
                        if !first {
                            out.append("\n");
                        }
                        out.append(shown.as_str());
                        proof {
                            let prev = outs;
                            outs = outs.push(shown@);
                            assert(outs.drop_last() == prev);
                            let found = hits(lines@.take(i + 1), pattern@);
                            assert(found == hits(before, pattern@).push(
                                Hit { line: line@, lineno: (i + 1) as nat, start: s as int, end: e as int },
                            ));
                            assert forall|j: int| 0 <= j < found.len() implies shown_line(
                                #[trigger] outs[j],
                                found[j].line,
                                found[j].lineno,
                                found[j].start,
                                found[j].end,
                            ) by {
                                if j < prev.len() {
                                    assert(outs[j] == prev[j]);
                                }
                            }
                        }
                        first = false;
                    },
                    None => {},
                }
            },
            None => {},
        }
        i = i + 1;
    }
    assert(lines@.take(n as int) == lines@);
    out
}

proof fn lemma_shown_line_not_empty(out: Seq<char>, line: Seq<char>, lineno: nat, start: int, end: int)
    requires
        shown_line(out, line, lineno, start, end),
    ensures
        out.len() > 0,
{
    reveal_strlit(":");
}

proof fn lemma_joined_not_empty(outs: Seq<Seq<char>>, sep: Seq<char>)
    requires
        outs.len() > 0,
        outs[0].len() > 0,
    ensures
        joined(outs, sep).len() > 0,
    decreases outs.len(),
{
    if outs.len() > 1 {
        assert(outs.drop_last()[0] == outs[0]);
        lemma_joined_not_empty(outs.drop_last(), sep);
    }
}

/// What the tool prints for the file `path` with the lines `lines`: nothing
/// when no line matches, else the name of the file (the bytes of its green
/// form hold no color codes) and the matching lines, each on a line of its
/// own.
pub fn report(path: &str, lines: &Vec<Option<String>>, pattern: &Pattern) -> (r: Option<String>)
    ensures
        r is None <==> hits(lines@, pattern@).len() == 0,
        r is None <==> forall|i: int| 0 <= i < lines@.len() ==> !line_matches(lines@, pattern@, i),
        r matches Some(text) ==> exists|outs: Seq<Seq<char>>|
            {
                &&& shows_hits(outs, hits(lines@, pattern@))
                &&& text@ == path@ + "\n"@ + joined(outs, "\n"@) + "\n"@
            },
{
    let matches = matching_lines(lines, pattern);
    let ghost outs = choose|outs: Seq<Seq<char>>|
        shows_hits(outs, hits(lines@, pattern@)) && matches@ == joined(outs, "\n"@);
    proof {
        law_hits_are_the_matching_lines(lines@, pattern@);
        if hits(lines@, pattern@).len() > 0 {
            let h = hits(lines@, pattern@)[0];
            assert(line_matches(lines@, pattern@, h.lineno - 1));
        }
        if outs.len() > 0 {
            let h = hits(lines@, pattern@)[0];
            lemma_shown_line_not_empty(outs[0], h.line, h.lineno, h.start, h.end);
            lemma_joined_not_empty(outs, "\n"@);
        }
    }
    if matches.as_str().is_empty() {
        None
    } else {
        let mut text = green_text(path);
        text.append("\n");
        text.append(matches.as_str());
        text.append("\n");
        Some(text)
    }
}

/// Whether the line `lines[i]` could be read and `pattern` finds a match in
/// it, of whatever length.
pub open spec fn line_matches(lines: Seq<Option<String>>, pattern: Seq<char>, i: int) -> bool {
    lines[i] matches Some(l) && regex_first_match(pattern, l@) is Some
}

/// The hits are exactly the lines in which the pattern finds a match, empty
/// matches included, in the order of the lines: each hit is a line that could
/// be read, numbered from one, with the first match the pattern finds in it;
/// and every line with a match has a hit.
pub proof fn law_hits_are_the_matching_lines(lines: Seq<Option<String>>, pattern: Seq<char>)
    ensures
        forall|k: int|
            0 <= k < hits(lines, pattern).len() ==> {
                let h = #[trigger] hits(lines, pattern)[k];
                &&& 1 <= h.lineno <= lines.len()
                &&& lines[h.lineno - 1] matches Some(l) && l@ == h.line
                &&& regex_first_match(pattern, h.line) matches Some((s, e)) && h.start == s
                    && h.end == e
            },
        forall|i: int|
            0 <= i < lines.len() && #[trigger] line_matches(lines, pattern, i) ==> exists|k: int|
                0 <= k < hits(lines, pattern).len() && #[trigger] hits(lines, pattern)[k].lineno
                    == i + 1,
        forall|k1: int, k2: int|
            0 <= k1 < k2 < hits(lines, pattern).len() ==> #[trigger] hits(lines, pattern)[k1].lineno
                < #[trigger] hits(lines, pattern)[k2].lineno,
    decreases lines.len(),
{
    if lines.len() > 0 {
        let before = lines.drop_last();
        law_hits_are_the_matching_lines(before, pattern);
        let earlier = hits(before, pattern);
        let found = hits(lines, pattern);
        let n = lines.len() as int;
        assert forall|k: int| 0 <= k < earlier.len() implies found[k] == earlier[k] by {}
        assert forall|k: int|
            0 <= k < found.len() implies {
                let h = #[trigger] found[k];
                &&& 1 <= h.lineno <= lines.len()
                &&& lines[h.lineno - 1] matches Some(l) && l@ == h.line
                &&& regex_first_match(pattern, h.line) matches Some((s, e)) && h.start == s
                    && h.end == e
            } by {
            if k < earlier.len() {
                let h = earlier[k];
                assert(lines[h.lineno - 1] == before[h.lineno - 1]);
            }
        }
        assert forall|i: int|
            0 <= i < lines.len() && #[trigger] line_matches(lines, pattern, i) implies exists|k: int|
                0 <= k < found.len() && #[trigger] found[k].lineno == i + 1 by {
            if i < n - 1 {
                assert(lines[i] == before[i]);
                assert(line_matches(before, pattern, i));
                let k = choose|k: int| 0 <= k < earlier.len() && #[trigger] earlier[k].lineno == i + 1;
                assert(found[k] == earlier[k]);
            } else {
                assert(found[earlier.len() as int].lineno == n);
            }
        }
        assert forall|k1: int, k2: int|
            0 <= k1 < k2 < found.len() implies #[trigger] found[k1].lineno
                < #[trigger] found[k2].lineno by {
            assert(found[k1] == earlier[k1]);
            if k2 < earlier.len() {
                assert(found[k2] == earlier[k2]);
            }
        }
    }
}

/// The column shown with a match is one more than the number of characters
/// of the line before the match: the line starts with `c` characters whose
/// encoding takes exactly the bytes before the match, those characters are
/// shown in front of the match, and the column shows `c + 1`.
pub proof fn law_column_counts_characters_before_match(
    out: Seq<char>,
    line: Seq<char>,
    lineno: nat,
    start: int,
    end: int,
)
    requires
        shown_line(out, line, lineno, start, end),
        0 <= start <= end <= encode_utf8(line).len(),
        is_char_boundary(encode_utf8(line), start),
    ensures
        exists|c: int, number: Seq<char>, column: Seq<char>, highlighted: Seq<char>|
            {
                &&& 0 <= c <= line.len()
                &&& encode_utf8(line.take(c)).len() == start
                &&& painted_right(number, decimal_digits(lineno), 6, "34"@)
                &&& painted_left(column, decimal_digits((c + 1) as nat), 3, "36"@)
                &&& painted(highlighted, byte_slice(line, start, end), "31"@)
                &&& out == number + ":"@ + column + " "@ + line.take(c) + highlighted
                    + byte_slice(line, end, encode_utf8(line).len() as int)
            },
{
    let bytes = encode_utf8(line);
    let prefix = byte_slice(line, 0, start);
    encode_utf8_valid_utf8(line);
    encode_utf8_decode_utf8(line);
    decode_utf8_split(bytes, start);
    valid_utf8_split(bytes, start);
    decode_utf8_encode_utf8(bytes.subrange(0, start));
    let c = prefix.len() as int;
    assert(line == prefix + decode_utf8(bytes.subrange(start, bytes.len() as int)));
    assert(line.take(c) =~= prefix);
    let (number, column, highlighted) = choose|number: Seq<char>, column: Seq<char>, highlighted: Seq<char>|
        {
            &&& painted_right(number, decimal_digits(lineno), 6, "34"@)
            &&& painted_left(column, decimal_digits(prefix.len() + 1), 3, "36"@)
            &&& painted(highlighted, byte_slice(line, start, end), "31"@)
            &&& out == number + ":"@ + column + " "@ + prefix + highlighted + byte_slice(
                line,
                end,
                bytes.len() as int,
            )
        };
    assert(decimal_digits((c + 1) as nat) == decimal_digits(prefix.len() + 1));
}

} // verus!
