//! Line tokenizer: classifies each physical line of a script as a directive
//! or prose, measured in indentation units of four spaces.

use vstd::prelude::*;
use vstd::string::*;

use crate::error::Error;
use crate::error::ErrorModel;

verus! {

/// The four reserved directive keywords of the script grammar.
#[derive(Debug, Clone, Copy, PartialEq, Eq, Structural)]
pub enum DirectiveKind {
    Page,
    Title,
    Link,
    Text,
}

/// Which directive, if any, a word denotes. Matching is exact and
/// case-sensitive: only the four lower-case keywords are directives.
pub open spec fn spec_directive_of(s: Seq<char>) -> Option<DirectiveKind> {
    if s == "page"@ {
        Some(DirectiveKind::Page)
    } else if s == "title"@ {
        Some(DirectiveKind::Title)
    } else if s == "link"@ {
        Some(DirectiveKind::Link)
    } else if s == "text"@ {
        Some(DirectiveKind::Text)
    } else {
        None
    }
}

/// Character-wise string comparison, used because the tokenizer must compare
/// words of the input against the reserved keywords.
pub fn str_eq(a: &str, b: &str) -> (r: bool)
    ensures
        r == (a@ == b@),
{
    let a_len = a.unicode_len();
    let b_len = b.unicode_len();
    if a_len != b_len {
        assert(a@ != b@) by {
            assert(a@.len() != b@.len());
        }
        return false;
    }
    let mut i: usize = 0;
    while i < a_len
        invariant
            i <= a_len,
            a_len == a@.len(),
            b_len == b@.len(),
            a_len == b_len,
            forall|j: int| 0 <= j < i ==> a@[j] == b@[j],
        decreases a_len - i,
    {
        if a.get_char(i) != b.get_char(i) {
            return false;
        }
        i += 1;
    }
    assert(a@ =~= b@);
    true
}

impl DirectiveKind {
    /// Classify one whitespace-delimited word. Returns the directive it names,
    /// or `None` for every other word, including other capitalisations.
    pub fn from_str(string: &str) -> (r: Option<DirectiveKind>)
        ensures
            r == spec_directive_of(string@),
    {
        if str_eq(string, "page") {
            Some(DirectiveKind::Page)
        } else if str_eq(string, "title") {
            Some(DirectiveKind::Title)
        } else if str_eq(string, "link") {
            Some(DirectiveKind::Link)
        } else if str_eq(string, "text") {
            Some(DirectiveKind::Text)
        } else {
            None
        }
    }
}

/// Whether `c` has the Unicode `White_Space` property, the notion of
/// whitespace by which words and argument ends are delimited.
pub open spec fn spec_is_whitespace(c: char) -> bool {
    let u = c as int;
    u == 0x20 || (0x09 <= u && u <= 0x0d) || u == 0x85 || u == 0xa0 || u == 0x1680 || (0x2000
        <= u && u <= 0x200a) || u == 0x2028 || u == 0x2029 || u == 0x202f || u == 0x205f || u
        == 0x3000
}

/// Decides the Unicode `White_Space` property.
#[verifier::when_used_as_spec(spec_is_whitespace)]
pub fn is_whitespace_char(c: char) -> (r: bool)
    ensures
        r == spec_is_whitespace(c),
{
    let u = c as u32;
    u == 0x20 || (0x09 <= u && u <= 0x0d) || u == 0x85 || u == 0xa0 || u == 0x1680 || (0x2000 <= u
        && u <= 0x200a) || u == 0x2028 || u == 0x2029 || u == 0x202f || u == 0x205f || u == 0x3000
}

/// The number of leading space characters of a line.
pub open spec fn leading_spaces(s: Seq<char>) -> int
    decreases s.len(),
{
    if s.len() == 0 || s[0] != ' ' {
        0
    } else {
        1 + leading_spaces(s.drop_first())
    }
}

pub proof fn lemma_leading_spaces_is(s: Seq<char>, n: int)
    requires
        0 <= n <= s.len(),
        forall|i: int| 0 <= i < n ==> s[i] == ' ',
        n < s.len() ==> s[n] != ' ',
    ensures
        leading_spaces(s) == n,
    decreases s.len(),
{
    if n == 0 {
    } else {
        assert(s[0] == ' ');
        assert forall|i: int| 0 <= i < n - 1 implies s.drop_first()[i] == ' ' by {
            assert(s.drop_first()[i] == s[i + 1]);
        }
        if n - 1 < s.drop_first().len() {
            assert(s.drop_first()[n - 1] == s[n]);
        }
        lemma_leading_spaces_is(s.drop_first(), n - 1);
    }
}

/// The index of the first whitespace character of `s`, or `s.len()` if
/// there is none.
pub open spec fn first_ws_index(s: Seq<char>) -> int
    decreases s.len(),
{
    if s.len() == 0 {
        0
    } else if spec_is_whitespace(s[0]) {
        0
    } else {
        1 + first_ws_index(s.drop_first())
    }
}

pub proof fn lemma_first_ws_index_bounds(s: Seq<char>)
    ensures
        0 <= first_ws_index(s) <= s.len(),
    decreases s.len(),
{
    if s.len() > 0 && !spec_is_whitespace(s[0]) {
        lemma_first_ws_index_bounds(s.drop_first());
    }
}

pub proof fn lemma_first_ws_index_is(s: Seq<char>, n: int)
    requires
        0 <= n <= s.len(),
        forall|i: int| 0 <= i < n ==> !spec_is_whitespace(s[i]),
        n < s.len() ==> spec_is_whitespace(s[n]),
    ensures
        first_ws_index(s) == n,
    decreases s.len(),
{
    if n == 0 {
    } else {
        assert(!spec_is_whitespace(s[0]));
        assert forall|i: int| 0 <= i < n - 1 implies !spec_is_whitespace(s.drop_first()[i]) by {
            assert(s.drop_first()[i] == s[i + 1]);
        }
        if n - 1 < s.drop_first().len() {
            assert(s.drop_first()[n - 1] == s[n]);
        }
        lemma_first_ws_index_is(s.drop_first(), n - 1);
    }
}

/// The index of the first occurrence of `c` in `s`, or `s.len()` if there
/// is none.
pub open spec fn first_index_of(s: Seq<char>, c: char) -> int
    decreases s.len(),
{
    if s.len() == 0 {
        0
    } else if s[0] == c {
        0
    } else {
        1 + first_index_of(s.drop_first(), c)
    }
}

pub proof fn lemma_first_index_of(s: Seq<char>, c: char)
    ensures
        0 <= first_index_of(s, c) <= s.len(),
        forall|i: int| 0 <= i < first_index_of(s, c) ==> s[i] != c,
        first_index_of(s, c) < s.len() ==> s[first_index_of(s, c)] == c,
    decreases s.len(),
{
    if s.len() > 0 && s[0] != c {
        lemma_first_index_of(s.drop_first(), c);
        assert forall|i: int| 0 <= i < first_index_of(s, c) implies s[i] != c by {
            if i > 0 {
                assert(s.drop_first()[i - 1] == s[i]);
            }
        }
    }
}

pub proof fn lemma_first_index_of_is(s: Seq<char>, c: char, n: int)
    requires
        0 <= n <= s.len(),
        forall|i: int| 0 <= i < n ==> s[i] != c,
        n < s.len() ==> s[n] == c,
    ensures
        first_index_of(s, c) == n,
    decreases s.len(),
{
    if n == 0 {
    } else {
        assert(s[0] != c);
        assert forall|i: int| 0 <= i < n - 1 implies s.drop_first()[i] != c by {
            assert(s.drop_first()[i] == s[i + 1]);
        }
        if n - 1 < s.drop_first().len() {
            assert(s.drop_first()[n - 1] == s[n]);
        }
        lemma_first_index_of_is(s.drop_first(), c, n - 1);
    }
}

/// The number of trailing whitespace characters of `s`.
pub open spec fn ws_suffix_len(s: Seq<char>) -> int
    decreases s.len(),
{
    if s.len() == 0 || !spec_is_whitespace(s.last()) {
        0
    } else {
        1 + ws_suffix_len(s.drop_last())
    }
}

pub proof fn lemma_ws_suffix_len_is(s: Seq<char>, n: int)
    requires
        0 <= n <= s.len(),
        forall|i: int| s.len() - n <= i < s.len() ==> spec_is_whitespace(s[i]),
        n < s.len() ==> !spec_is_whitespace(s[s.len() - n - 1]),
    ensures
        ws_suffix_len(s) == n,
    decreases s.len(),
{
    if n == 0 {
    } else {
        assert(spec_is_whitespace(s.last()));
        assert forall|i: int| s.drop_last().len() - (n - 1) <= i < s.drop_last().len()
            implies spec_is_whitespace(s.drop_last()[i]) by {
            assert(s.drop_last()[i] == s[i]);
        }
        if n - 1 < s.drop_last().len() {
            assert(s.drop_last()[s.drop_last().len() - (n - 1) - 1] == s[s.len() - n - 1]);
        }
        lemma_ws_suffix_len_is(s.drop_last(), n - 1);
    }
}

/// `s` with whitespace removed from both ends.
pub open spec fn spec_trim(s: Seq<char>) -> Seq<char> {
    let a = first_ws_prefix_end(s);
    let b = s.len() - ws_suffix_len(s);
    if a <= b {
        s.subrange(a, b)
    } else {
        Seq::empty()
    }
}

/// The number of leading whitespace characters of `s`.
pub open spec fn first_ws_prefix_end(s: Seq<char>) -> int
    decreases s.len(),
{
    if s.len() == 0 || !spec_is_whitespace(s[0]) {
        0
    } else {
        1 + first_ws_prefix_end(s.drop_first())
    }
}

pub proof fn lemma_ws_prefix_end_is(s: Seq<char>, n: int)
    requires
        0 <= n <= s.len(),
        forall|i: int| 0 <= i < n ==> spec_is_whitespace(s[i]),
        n < s.len() ==> !spec_is_whitespace(s[n]),
    ensures
        first_ws_prefix_end(s) == n,
    decreases s.len(),
{
    if n == 0 {
    } else {
        assert(spec_is_whitespace(s[0]));
        assert forall|i: int| 0 <= i < n - 1 implies spec_is_whitespace(s.drop_first()[i]) by {
            assert(s.drop_first()[i] == s[i + 1]);
        }
        if n - 1 < s.drop_first().len() {
            assert(s.drop_first()[n - 1] == s[n]);
        }
        lemma_ws_prefix_end_is(s.drop_first(), n - 1);
    }
}

/// The argument a directive line carries: the remainder after the keyword,
/// cut at the first comment mark and trimmed of surrounding whitespace.
/// An empty remainder is no argument at all.
pub open spec fn spec_argument(tail: Seq<char>) -> Option<Seq<char>> {
    let t = spec_trim(tail.take(first_index_of(tail, '#')));
    if t.len() == 0 {
        None
    } else {
        Some(t)
    }
}

/// What a classified line holds: prose, or a directive with an optional
/// argument.
#[derive(Debug, PartialEq)]
pub enum LineKind {
    Text(String),
    Directive(DirectiveKind, Option<String>),
}

/// One classified, indent-leveled line of the script.
#[derive(Debug, PartialEq)]
pub struct Line {
    /// The nesting level: the number of leading spaces divided by four.
    pub indent: usize,
    pub kind: LineKind,
}

/// The model of a `LineKind`, over character sequences.
pub enum LineKindModel {
    Text(Seq<char>),
    Directive(DirectiveKind, Option<Seq<char>>),
}

/// The model of a `Line`.
pub struct LineModel {
    pub indent: int,
    pub kind: LineKindModel,
}

impl View for Line {
    type V = LineModel;

    open spec fn view(&self) -> LineModel {
        LineModel {
            indent: self.indent as int,
            kind: match &self.kind {
                LineKind::Text(t) => LineKindModel::Text(t@),
                LineKind::Directive(k, arg) => LineKindModel::Directive(
                    *k,
                    match arg {
                        Some(a) => Some(a@),
                        None => None,
                    },
                ),
            },
        }
    }
}

/// What tokenizing one physical line yields: a classified line, nothing
/// (for a blank or comment line), or a lexical error.
pub open spec fn spec_tokenize_line(s: Seq<char>) -> Result<Option<LineModel>, ErrorModel> {
    let n = leading_spaces(s);
    if n == s.len() {
        Ok(None)
    } else if s[n] == '#' {
        Ok(None)
    } else if n % 4 != 0 {
        Err(ErrorModel::InvalidIndentation { count: n })
    } else {
        let rest = s.skip(n);
        let w = first_ws_index(rest);
        if w == 0 {
            Ok(None)
        } else {
            match spec_directive_of(rest.take(w)) {
                Some(kind) => Ok(
                    Some(
                        LineModel {
                            indent: n / 4,
                            kind: LineKindModel::Directive(kind, spec_argument(rest.skip(w))),
                        },
                    ),
                ),
                None => Ok(Some(LineModel { indent: n / 4, kind: LineKindModel::Text(rest) })),
            }
        }
    }
}

/// Computes `spec_argument` of the remainder of a directive line.
fn directive_argument(tail: &str) -> (r: Option<String>)
    ensures
        (match r {
            Some(a) => Some(a@),
            None => None,
        }) == spec_argument(tail@),
{
    let len = tail.unicode_len();
    // Cut at the first comment mark.
    let mut h: usize = 0;
    while h < len && tail.get_char(h) != '#'
        invariant
            0 <= h <= len,
            len == tail@.len(),
            forall|j: int| 0 <= j < h ==> tail@[j] != '#',
        decreases len - h,
    {
        h += 1;
    }
    proof {
        lemma_first_index_of_is(tail@, '#', h as int);
    }
    let ghost cut = tail@.take(h as int);
    // Trim whitespace from both ends of the remainder before the comment.
    let mut a: usize = 0;
    while a < h && is_whitespace_char(tail.get_char(a))
        invariant
            0 <= a <= h <= len,
            len == tail@.len(),
            forall|j: int| 0 <= j < a ==> spec_is_whitespace(tail@[j]),
        decreases h - a,
    {
        a += 1;
    }
    let mut b: usize = h;
    while b > a && is_whitespace_char(tail.get_char(b - 1))
        invariant
            a <= b <= h <= len,
            len == tail@.len(),
            forall|j: int| b <= j < h ==> spec_is_whitespace(tail@[j]),
        decreases b,
    {
        b -= 1;
    }
    proof {
        assert forall|j: int| 0 <= j < cut.len() implies cut[j] == tail@[j] by {}
        if a == b {
            // The whole remainder is whitespace: the trim is empty.
            lemma_ws_prefix_end_is(cut, h as int);
            lemma_ws_suffix_len_is(cut, h as int);
            assert(spec_trim(cut) =~= Seq::<char>::empty());
        } else {
            assert(!spec_is_whitespace(tail@[a as int]));
            assert(!spec_is_whitespace(tail@[b - 1]));
            lemma_ws_prefix_end_is(cut, a as int);
            lemma_ws_suffix_len_is(cut, h - b);
            assert(spec_trim(cut) =~= tail@.subrange(a as int, b as int));
        }
    }
    if a == b {
        None
    } else {
        Some(tail.substring_char(a, b).to_owned())
    }
}

impl Line {
    /// Build a prose line directly.
    pub fn new_text(indent: usize, text: String) -> (r: Line)
        ensures
            r@ == (LineModel { indent: indent as int, kind: LineKindModel::Text(text@) }),
    {
        Line { indent, kind: LineKind::Text(text) }
    }

    /// Build a directive line directly.
    pub fn new_directive(indent: usize, kind: DirectiveKind, text: Option<String>) -> (r: Line)
        ensures
            r@ == (LineModel {
                indent: indent as int,
                kind: LineKindModel::Directive(
                    kind,
                    match text {
                        Some(a) => Some(a@),
                        None => None,
                    },
                ),
            }),
    {
        Line { indent, kind: LineKind::Directive(kind, text) }
    }

    /// Tokenize a single physical line. A blank, whitespace-only or comment
    /// line yields `Ok(None)`; an indentation of a number of spaces that is
    /// not a multiple of four yields the lexical error carrying that count.
    pub fn parse(line: &str) -> (r: Result<Option<Line>, Error>)
        ensures
            (match r {
                Ok(Some(l)) => Ok::<Option<LineModel>, ErrorModel>(Some(l@)),
                Ok(None) => Ok(None),
                Err(e) => Err(e@),
            }) == spec_tokenize_line(line@),
    {
        let len = line.unicode_len();
        let mut n: usize = 0;
        while n < len && line.get_char(n) == ' '
            invariant
                0 <= n <= len,
                len == line@.len(),
                forall|j: int| 0 <= j < n ==> line@[j] == ' ',
            decreases len - n,
        {
            n += 1;
        }
        proof {
            lemma_leading_spaces_is(line@, n as int);
        }
        if n == len {
            // Only spaces: the line is blank.
            return Ok(None);
        }
        let c = line.get_char(n);
        if c == '#' {
            // A comment line is as good as blank, whatever its indentation.
            return Ok(None);
        }
        if n % 4 != 0 {
            return Err(Error::InvalidIndentation { count: n });
        }
        let rest = line.substring_char(n, len);
        let rest_len = len - n;
        let mut w: usize = 0;
        while w < rest_len && !is_whitespace_char(rest.get_char(w))
            invariant
                0 <= w <= rest_len,
                rest_len == rest@.len(),
                forall|j: int| 0 <= j < w ==> !spec_is_whitespace(rest@[j]),
            decreases rest_len - w,
        {
            w += 1;
        }
        proof {
            lemma_first_ws_index_is(rest@, w as int);
        }
        if w == 0 {
            // The first character past the indentation is non-space
            // whitespace: the line carries no word and is ignored.
            return Ok(None);
        }
        let word = rest.substring_char(0, w);
        proof {
            assert(word@ =~= rest@.take(w as int));
        }
        match DirectiveKind::from_str(word) {
            Some(kind) => {
                let tail = rest.substring_char(w, rest_len);
                proof {
                    assert(tail@ =~= rest@.skip(w as int));
                }
                let argument = directive_argument(tail);
                Ok(Some(Line { indent: n / 4, kind: LineKind::Directive(kind, argument) }))
            },
            None => Ok(Some(Line { indent: n / 4, kind: LineKind::Text(rest.to_owned()) })),
        }
    }
}

/// A line with a trailing carriage return removed, as one is when it stood
/// before the line feed that ended the line.
pub open spec fn strip_cr(t: Seq<char>) -> Seq<char> {
    if t.len() > 0 && t.last() == '\r' {
        t.drop_last()
    } else {
        t
    }
}

/// The physical lines of a text: pieces separated by a line feed, each with
/// a carriage return before the separator removed, and no final empty piece.
pub open spec fn spec_split_lines(s: Seq<char>) -> Seq<Seq<char>>
    decreases s.len(),
{
    if s.len() == 0 {
        Seq::empty()
    } else {
        let i = first_index_of(s, '\n');
        if 0 <= i && i < s.len() {
            seq![strip_cr(s.take(i))] + spec_split_lines(s.skip(i + 1))
        } else {
            seq![s]
        }
    }
}

/// Splitting distributes over a cut placed directly after a line feed.
pub proof fn lemma_split_lines_concat(s: Seq<char>, k: int)
    requires
        0 <= k <= s.len(),
        k == 0 || s[k - 1] == '\n',
    ensures
        spec_split_lines(s) == spec_split_lines(s.take(k)) + spec_split_lines(s.skip(k)),
    decreases k,
{
    if k == 0 {
        assert(s.take(0) =~= Seq::<char>::empty());
        assert(s.skip(0) =~= s);
        assert(spec_split_lines(s) =~= spec_split_lines(s.take(0)) + spec_split_lines(s.skip(0)));
    } else {
        lemma_first_index_of(s, '\n');
        let i = first_index_of(s, '\n');
        assert(s[k - 1] == '\n');
        assert(i <= k - 1) by {
            if i > k - 1 {
                assert(s[k - 1] != '\n');
            }
        }
        let p = s.take(k);
        lemma_first_index_of(p, '\n');
        assert(first_index_of(p, '\n') == i) by {
            assert(forall|j: int| 0 <= j < i ==> p[j] == s[j] && s[j] != '\n');
            assert(p[i] == s[i]);
            if i < s.len() {
                assert(s[i] == '\n');
            }
            lemma_first_index_of_is(p, '\n', i);
        }
        assert(p.take(i) =~= s.take(i));
        assert(p.skip(i + 1) =~= s.skip(i + 1).take(k - i - 1));
        assert(s.skip(i + 1).skip(k - i - 1) =~= s.skip(k));
        if k - i - 1 > 0 {
            assert(s.skip(i + 1)[k - i - 2] == s[k - 1]);
        }
        lemma_split_lines_concat(s.skip(i + 1), k - i - 1);
        assert(spec_split_lines(s) =~= spec_split_lines(s.take(k)) + spec_split_lines(s.skip(k)));
    }
}

/// A nonempty text without a line feed is one line.
proof fn lemma_split_lines_single(s: Seq<char>)
    requires
        s.len() > 0,
        forall|j: int| 0 <= j < s.len() ==> s[j] != '\n',
    ensures
        spec_split_lines(s) == seq![s],
{
    lemma_first_index_of_is(s, '\n', s.len() as int);
}

/// The lines of a vector of strings, as character sequences.
pub open spec fn strings_model(v: Seq<String>) -> Seq<Seq<char>> {
    v.map_values(|x: String| x@)
}

/// Split a text into its physical lines.
pub fn split_lines(input: &str) -> (r: Vec<String>)
    ensures
        strings_model(r@) == spec_split_lines(input@),
{
    let len = input.unicode_len();
    let mut r: Vec<String> = Vec::new();
    let mut start: usize = 0;
    let mut i: usize = 0;
    while i < len
        invariant
            0 <= start <= i <= len,
            len == input@.len(),
            start == 0 || input@[start - 1] == '\n',
            forall|j: int| start <= j < i ==> input@[j] != '\n',
            strings_model(r@) == spec_split_lines(input@.take(start as int)),
        decreases len - i,
    {
        if input.get_char(i) == '\n' {
            let end = if i > start && input.get_char(i - 1) == '\r' {
                i - 1
            } else {
                i
            };
            let piece = input.substring_char(start, end).to_owned();
            proof {
                let s = input@;
                let seg = s.take(i + 1).skip(start as int);
                lemma_split_lines_concat(s.take(i + 1), start as int);
                assert(s.take(i + 1).take(start as int) =~= s.take(start as int));
                assert(seg.len() == i + 1 - start);
                assert(forall|j: int| 0 <= j < seg.len() ==> seg[j] == s[start + j]);
                lemma_first_index_of_is(seg, '\n', i - start);
                assert(spec_split_lines(seg) =~= seq![strip_cr(seg.take(i - start))] + spec_split_lines(
                    seg.skip(i - start + 1),
                ));
                assert(seg.skip(i - start + 1) =~= Seq::<char>::empty());
                assert(spec_split_lines(seg) =~= seq![strip_cr(seg.take(i - start))]);
                assert(seg.take(i - start) =~= s.subrange(start as int, i as int));
                assert(strip_cr(s.subrange(start as int, i as int)) =~= piece@) by {
                    if i > start && s[i - 1] == '\r' {
                        assert(s.subrange(start as int, i as int).last() == '\r');
                        assert(s.subrange(start as int, i as int).drop_last() =~= s.subrange(
                            start as int,
                            end as int,
                        ));
                    } else {
                        if i > start {
                            assert(s.subrange(start as int, i as int).last() == s[i - 1]);
                        }
                    }
                }
                assert(strings_model(r@.push(piece)) =~= strings_model(r@) + seq![piece@]);
                assert(strings_model(r@.push(piece)) =~= spec_split_lines(s.take(i + 1)));
            }
            r.push(piece);
            start = i + 1;
        }
        i += 1;
    }
    if start < len {
        let piece = input.substring_char(start, len).to_owned();
        proof {
            let s = input@;
            lemma_split_lines_concat(s, start as int);
            assert(s.take(start as int) =~= s.take(start as int));
            lemma_split_lines_single(s.skip(start as int));
            assert(s.skip(start as int) =~= piece@);
            assert(strings_model(r@.push(piece)) =~= strings_model(r@) + seq![piece@]);
            assert(strings_model(r@.push(piece)) =~= spec_split_lines(s));
        }
        r.push(piece);
    } else {
        proof {
            let s = input@;
            lemma_split_lines_concat(s, start as int);
            assert(s.skip(start as int) =~= Seq::<char>::empty());
            assert(strings_model(r@) =~= spec_split_lines(s));
        }
    }
    r
}

/// The numbered outcomes of tokenizing each line of a text in order:
/// classified lines and lexical errors, blank lines passed over, each
/// paired with the 0-based number of its physical line.
pub open spec fn spec_line_items(ls: Seq<Seq<char>>) -> Seq<(int, Result<LineModel, ErrorModel>)>
    decreases ls.len(),
{
    if ls.len() == 0 {
        Seq::empty()
    } else {
        spec_line_items(ls.drop_last()) + match spec_tokenize_line(ls.last()) {
            Ok(None) => Seq::empty(),
            Ok(Some(l)) => seq![((ls.len() - 1) as int, Ok(l))],
            Err(e) => seq![((ls.len() - 1) as int, Err::<LineModel, ErrorModel>(e))],
        }
    }
}

/// The model of a vector of numbered tokenization outcomes.
pub open spec fn line_items_model(v: Seq<(usize, Result<Line, Error>)>) -> Seq<
    (int, Result<LineModel, ErrorModel>),
> {
    v.map_values(
        |p: (usize, Result<Line, Error>)|
            (
                p.0 as int,
                match p.1 {
                    Ok(l) => Ok(l@),
                    Err(e) => Err::<LineModel, ErrorModel>(e@),
                },
            ),
    )
}

/// The tokenization of a whole text: every non-blank line classified or
/// reported, in order, under its physical line number.
pub struct Lines {
    pub items: Vec<(usize, Result<Line, Error>)>,
}

impl Lines {
    /// Tokenize every line of `string`.
    pub fn new(string: &str) -> (r: Lines)
        ensures
            line_items_model(r.items@) == spec_line_items(spec_split_lines(string@)),
    {
        let lines = split_lines(string);
        let ghost ls = spec_split_lines(string@);
        let mut items: Vec<(usize, Result<Line, Error>)> = Vec::new();
        let mut i: usize = 0;
        while i < lines.len()
            invariant
                0 <= i <= lines.len(),
                strings_model(lines@) == ls,
                line_items_model(items@) == spec_line_items(ls.take(i as int)),
            decreases lines.len() - i,
        {
            proof {
                assert(ls.take(i + 1).drop_last() =~= ls.take(i as int));
                assert(ls.take(i + 1).last() == lines@[i as int]@);
            }
            match Line::parse(lines[i].as_str()) {
                Ok(Some(l)) => {
                    let ghost prev = items@;
                    items.push((i, Ok(l)));
                    proof {
                        assert(line_items_model(items@) =~= line_items_model(prev) + seq![
                            (i as int, Ok::<LineModel, ErrorModel>(l@)),
                        ]);
                    }
                },
                Ok(None) => {
                    proof {
                        assert(spec_line_items(ls.take(i + 1)) =~= spec_line_items(
                            ls.take(i as int),
                        ));
                    }
                },
                Err(e) => {
                    let ghost prev = items@;
                    let ghost em = e@;
                    items.push((i, Err(e)));
                    proof {
                        assert(line_items_model(items@) =~= line_items_model(prev) + seq![
                            (i as int, Err::<LineModel, ErrorModel>(em)),
                        ]);
                    }
                },
            }
            i += 1;
        }
        proof {
            assert(ls.take(lines@.len() as int) =~= ls);
        }
        Lines { items }
    }
}

/// A line of spaces alone, or of spaces followed by a comment mark.
pub open spec fn is_blank_or_comment(s: Seq<char>) -> bool {
    leading_spaces(s) == s.len() || s[leading_spaces(s)] == '#'
}

/// A text whose every line is blank, whitespace-only or a comment
/// tokenizes to zero lines and zero errors.
pub proof fn theorem_blank_input_tokenizes_to_nothing(ls: Seq<Seq<char>>)
    requires
        forall|i: int| 0 <= i < ls.len() ==> is_blank_or_comment(#[trigger] ls[i]),
    ensures
        spec_line_items(ls) == Seq::<(int, Result<LineModel, ErrorModel>)>::empty(),
    decreases ls.len(),
{
    if ls.len() == 0 {
        assert(spec_line_items(ls) =~= Seq::<(int, Result<LineModel, ErrorModel>)>::empty());
    } else {
        assert(forall|i: int|
            0 <= i < ls.drop_last().len() ==> #[trigger] ls.drop_last()[i] == ls[i]);
        theorem_blank_input_tokenizes_to_nothing(ls.drop_last());
        assert(is_blank_or_comment(ls.last()));
        assert(spec_tokenize_line(ls.last()) == Ok::<Option<LineModel>, ErrorModel>(None));
        assert(spec_line_items(ls) =~= Seq::<(int, Result<LineModel, ErrorModel>)>::empty());
    }
}

/// An indentation whose space count is not a multiple of four, on a line
/// that is neither blank nor a comment, yields exactly the lexical error
/// carrying that count.
pub proof fn theorem_invalid_indentation_reported(s: Seq<char>)
    requires
        leading_spaces(s) % 4 != 0,
        leading_spaces(s) < s.len(),
        s[leading_spaces(s)] != '#',
    ensures
        spec_tokenize_line(s) == Err::<Option<LineModel>, ErrorModel>(
            ErrorModel::InvalidIndentation { count: leading_spaces(s) },
        ),
{
}

/// Directive matching is exact and case-sensitive: a word classifies as a
/// directive exactly when it is one of the four reserved keywords, letter
/// for letter; any other word, in particular another capitalisation or an
/// extension of a keyword, is prose.
pub proof fn theorem_directive_matching_exact(s: Seq<char>)
    ensures
        spec_directive_of(s) is Some <==> (s == "page"@ || s == "title"@ || s == "link"@ || s
            == "text"@),
{
}

/// A line without a line feed, terminated by one, splits off whole.
pub proof fn lemma_split_lines_step(piece: Seq<char>, rest: Seq<char>)
    requires
        forall|i: int| 0 <= i < piece.len() ==> piece[i] != '\n',
        piece.len() == 0 || piece.last() != '\r',
    ensures
        spec_split_lines(piece + seq!['\n'] + rest) == seq![piece] + spec_split_lines(rest),
{
    let s = piece + seq!['\n'] + rest;
    let k = piece.len() + 1;
    assert(s[k - 1] == '\n');
    lemma_split_lines_concat(s, k as int);
    let head = s.take(k as int);
    assert(head =~= piece + seq!['\n']);
    assert(forall|i: int| 0 <= i < piece.len() ==> head[i] == piece[i] && head[i] != '\n');
    assert(head[piece.len() as int] == '\n');
    lemma_first_index_of_is(head, '\n', piece.len() as int);
    assert(head.take(piece.len() as int) =~= piece);
    assert(head.skip(piece.len() + 1int) =~= Seq::<char>::empty());
    assert(strip_cr(piece) == piece);
    assert(spec_split_lines(Seq::<char>::empty()) =~= Seq::<Seq<char>>::empty());
    assert(seq![piece] + Seq::<Seq<char>>::empty() =~= seq![piece]);
    assert(spec_split_lines(head) =~= seq![piece]);
    assert(s.skip(k as int) =~= rest);
    assert(spec_split_lines(s) =~= seq![piece] + spec_split_lines(rest));
}

/// A page directive line built around a well-formed identifier — one that is
/// nonempty and free of whitespace and comment marks — tokenizes to that
/// directive carrying exactly the identifier.
pub proof fn lemma_tokenize_page_line(id: Seq<char>)
    requires
        id.len() > 0,
        forall|i: int| 0 <= i < id.len() ==> !spec_is_whitespace(#[trigger] id[i]),
        forall|i: int| 0 <= i < id.len() ==> id[i] != '#',
    ensures
        spec_tokenize_line("page "@ + id) == Ok::<Option<LineModel>, ErrorModel>(
            Some(
                LineModel {
                    indent: 0,
                    kind: LineKindModel::Directive(DirectiveKind::Page, Some(id)),
                },
            ),
        ),
{
    reveal_strlit("page ");
    reveal_strlit("page");
    let a = "page "@ + id;
    assert(a.len() == 5 + id.len());
    assert(forall|i: int| 0 <= i < 5 ==> a[i] == "page "@[i]);
    assert(forall|j: int| 0 <= j < id.len() ==> a[5 + j] == id[j]);
    lemma_leading_spaces_is(a, 0);
    assert(a.skip(0) =~= a);
    assert(forall|i: int| 0 <= i < 4 ==> !spec_is_whitespace(a[i]));
    assert(spec_is_whitespace(a[4]));
    lemma_first_ws_index_is(a, 4);
    assert(a.take(4) =~= "page"@);
    let tail = a.skip(4);
    assert(tail.len() == 1 + id.len());
    assert(tail[0] == ' ');
    assert(forall|j: int| 1 <= j < tail.len() ==> tail[j] == id[j - 1]);
    assert(forall|j: int| 0 <= j < tail.len() ==> tail[j] != '#') by {
        assert(forall|j: int| 1 <= j < tail.len() ==> tail[j] == id[j - 1] && id[j - 1] != '#');
    }
    lemma_first_index_of_is(tail, '#', tail.len() as int);
    assert(tail.take(tail.len() as int) =~= tail);
    assert(!spec_is_whitespace(tail[1]));
    lemma_ws_prefix_end_is(tail, 1);
    assert(tail.last() == id.last());
    lemma_ws_suffix_len_is(tail, 0);
    assert(spec_trim(tail) =~= id);
}

/// An indented bare title directive line tokenizes to a title directive
/// with no argument, one level in.
pub proof fn lemma_tokenize_title_line()
    ensures
        spec_tokenize_line("    title"@) == Ok::<Option<LineModel>, ErrorModel>(
            Some(
                LineModel { indent: 1, kind: LineKindModel::Directive(DirectiveKind::Title, None) },
            ),
        ),
{
    reveal_strlit("    title");
    reveal_strlit("title");
    reveal_strlit("page");
    let b = "    title"@;
    assert(b.len() == 9);
    lemma_leading_spaces_is(b, 4);
    let rest = b.skip(4);
    assert(rest =~= "title"@);
    assert(forall|i: int| 0 <= i < 5 ==> !spec_is_whitespace(rest[i]));
    lemma_first_ws_index_is(rest, 5);
    assert(rest.take(5) =~= "title"@);
    let tail = rest.skip(5);
    assert(tail =~= Seq::<char>::empty());
    assert(spec_argument(tail) == None::<Seq<char>>) by {
        lemma_first_index_of_is(tail, '#', 0);
        assert(tail.take(0) =~= Seq::<char>::empty());
        lemma_ws_prefix_end_is(tail.take(0), 0);
        lemma_ws_suffix_len_is(tail.take(0), 0);
        assert(spec_trim(tail.take(0)) =~= Seq::<char>::empty());
    }
}

/// A prose line two levels in — one whose first character is no whitespace
/// and no comment mark, and whose first word is no directive keyword —
/// tokenizes to exactly that prose.
pub proof fn lemma_tokenize_prose_line(t: Seq<char>)
    requires
        t.len() > 0,
        !spec_is_whitespace(t[0]),
        t[0] != '#',
        spec_directive_of(t.take(first_ws_index(t))) is None,
    ensures
        spec_tokenize_line("        "@ + t) == Ok::<Option<LineModel>, ErrorModel>(
            Some(LineModel { indent: 2, kind: LineKindModel::Text(t) }),
        ),
{
    reveal_strlit("        ");
    let c = "        "@ + t;
    assert(c.len() == 8 + t.len());
    assert(forall|i: int| 0 <= i < 8 ==> c[i] == "        "@[i]);
    assert(forall|j: int| 0 <= j < t.len() ==> c[8 + j] == t[j]);
    assert(t[0] != ' ');
    lemma_leading_spaces_is(c, 8);
    let rest = c.skip(8);
    assert(rest =~= t);
    lemma_first_ws_index_bounds(t.drop_first());
    assert(first_ws_index(t) != 0) by {
        if first_ws_index(t) == 0 {
            assert(spec_is_whitespace(t[0]));
        }
    }
}

} // verus!


