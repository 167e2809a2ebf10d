//! Character classes and the scanning primitives on character sequences that
//! the grammars are built from.

use vstd::prelude::*;

verus! {

/// Whether `char::is_alphanumeric` holds of a character. The scanners consult
/// it only beyond the ASCII range.
pub uninterp spec fn unicode_alphanumeric(c: char) -> bool;

/// Whether `char::is_whitespace` holds of a character. The scanners consult it
/// only beyond the ASCII range.
pub uninterp spec fn unicode_whitespace(c: char) -> bool;

/// `char::is_alphanumeric` of std: its answer depends on the character alone,
/// and is given the name `unicode_alphanumeric`. Nothing else is claimed.
pub assume_specification[ char::is_alphanumeric ](c: char) -> (r: bool)
    ensures
        r == unicode_alphanumeric(c),
;

/// `char::is_whitespace` of std: its answer depends on the character alone,
/// and is given the name `unicode_whitespace`. Nothing else is claimed.
pub assume_specification[ char::is_whitespace ](c: char) -> (r: bool)
    ensures
        r == unicode_whitespace(c),
;

/// `String::push` of std appends the character to the end of the string.
pub assume_specification[ std::string::String::push ](s: &mut std::string::String, c: char)
    ensures
        final(s)@ == old(s)@.push(c),
;

/// The characters of ASCII.
pub open spec fn is_ascii(c: char) -> bool {
    c <= '\x7f'
}

/// Letters and digits of ASCII.
pub open spec fn is_ascii_alnum(c: char) -> bool {
    ('0' <= c && c <= '9') || ('A' <= c && c <= 'Z') || ('a' <= c && c <= 'z')
}

/// The characters an identifier is made of: ASCII letters and digits, and
/// beyond ASCII whatever Unicode counts as a letter or a number.
pub open spec fn is_alnum(c: char) -> bool {
    if is_ascii(c) {
        is_ascii_alnum(c)
    } else {
        unicode_alphanumeric(c)
    }
}

/// Space and tab.
pub open spec fn is_blank(c: char) -> bool {
    c == ' ' || c == '\t'
}

/// Space, tab, carriage return and line feed.
pub open spec fn is_line_space(c: char) -> bool {
    c == ' ' || c == '\t' || c == '\r' || c == '\n'
}

/// Unicode white space: in ASCII the space and U+0009 to U+000D.
pub open spec fn is_white(c: char) -> bool {
    if is_ascii(c) {
        c == ' ' || ('\x09' <= c && c <= '\x0d')
    } else {
        unicode_whitespace(c)
    }
}

/// The classes of characters that a scan can run over.
#[derive(Clone, Copy, Debug, PartialEq, Eq)]
pub enum CharClass {
    /// `is_alnum`
    Alphanumeric,
    /// `is_ascii_alnum`
    AsciiAlphanumeric,
    /// `is_blank`
    Blank,
    /// `is_line_space`
    LineSpace,
    /// `is_white`
    Whitespace,
    /// Everything that is not `is_white`.
    Visible,
    /// What a comma-separated list of names is made of: `is_alnum`,
    /// `is_line_space` and the comma.
    NameList,
    /// The one character given.
    Only(char),
    /// Every character but the one given.
    Except(char),
}

/// Decides `is_alnum`.
pub fn alphanumeric(c: char) -> (r: bool)
    ensures
        r == is_alnum(c),
{
    if c <= '\x7f' {
        ('0' <= c && c <= '9') || ('A' <= c && c <= 'Z') || ('a' <= c && c <= 'z')
    } else {
        c.is_alphanumeric()
    }
}

/// Decides `is_white`.
pub fn whitespace(c: char) -> (r: bool)
    ensures
        r == is_white(c),
{
    if c <= '\x7f' {
        c == ' ' || ('\x09' <= c && c <= '\x0d')
    } else {
        c.is_whitespace()
    }
}

impl CharClass {
    /// `c` belongs to the class.
    pub open spec fn has(self, c: char) -> bool {
        match self {
            CharClass::Alphanumeric => is_alnum(c),
            CharClass::AsciiAlphanumeric => is_ascii_alnum(c),
            CharClass::Blank => is_blank(c),
            CharClass::LineSpace => is_line_space(c),
            CharClass::Whitespace => is_white(c),
            CharClass::Visible => !is_white(c),
            CharClass::NameList => is_alnum(c) || is_line_space(c) || c == ',',
            CharClass::Only(x) => c == x,
            CharClass::Except(x) => c != x,
        }
    }

    /// Decides membership of `c` in the class.
    pub fn contains(self, c: char) -> (r: bool)
        ensures
            r == self.has(c),
    {
        match self {
            CharClass::Alphanumeric => alphanumeric(c),
            CharClass::AsciiAlphanumeric => {
                ('0' <= c && c <= '9') || ('A' <= c && c <= 'Z') || ('a' <= c && c <= 'z')
            },
            CharClass::Blank => c == ' ' || c == '\t',
            CharClass::LineSpace => c == ' ' || c == '\t' || c == '\r' || c == '\n',
            CharClass::Whitespace => whitespace(c),
            CharClass::Visible => !whitespace(c),
            CharClass::NameList => {
                alphanumeric(c) || c == ' ' || c == '\t' || c == '\r' || c == '\n' || c == ','
            },
            CharClass::Only(x) => c == x,
            CharClass::Except(x) => c != x,
        }
    }
}

/// `n` is the length of the longest prefix of `s` made of characters of
/// `class`.
pub open spec fn is_span(s: Seq<char>, class: CharClass, n: int) -> bool {
    &&& 0 <= n <= s.len()
    &&& forall|i: int| 0 <= i < n ==> class.has(#[trigger] s[i])
    &&& (n < s.len() ==> !class.has(s[n]))
}

/// The index at which the run of characters of `class` that starts at index
/// `i` of `s` ends.
pub open spec fn span_from(s: Seq<char>, class: CharClass, i: int) -> int
    decreases s.len() - i,
{
    if 0 <= i < s.len() && class.has(s[i]) {
        span_from(s, class, i + 1)
    } else {
        i
    }
}

/// The length of the longest prefix of `s` made of characters of `class`.
pub open spec fn span(s: Seq<char>, class: CharClass) -> int {
    span_from(s, class, 0)
}

/// From an index inside the span, `span_from` reaches its end.
proof fn lemma_span_from_reaches(s: Seq<char>, class: CharClass, i: int, n: int)
    requires
        0 <= i <= n,
        is_span(s, class, n),
    ensures
        span_from(s, class, i) == n,
    decreases n - i,
{
    if i < n {
        lemma_span_from_reaches(s, class, i + 1, n);
    }
}

/// From an index that only characters of the class precede, `span_from`
/// stops at the end of the span.
proof fn lemma_span_from_stops(s: Seq<char>, class: CharClass, i: int)
    requires
        0 <= i <= s.len(),
        forall|j: int| 0 <= j < i ==> class.has(#[trigger] s[j]),
    ensures
        is_span(s, class, span_from(s, class, i)),
    decreases s.len() - i,
{
    if i < s.len() && class.has(s[i]) {
        lemma_span_from_stops(s, class, i + 1);
    }
}

/// A length with the three properties of `is_span` is the span.
pub proof fn lemma_span_unique(s: Seq<char>, class: CharClass, n: int)
    requires
        is_span(s, class, n),
    ensures
        span(s, class) == n,
{
    lemma_span_from_reaches(s, class, 0, n);
}

/// The span has the three properties of `is_span`.
pub proof fn lemma_span(s: Seq<char>, class: CharClass)
    ensures
        is_span(s, class, span(s, class)),
{
    lemma_span_from_stops(s, class, 0);
}

/// The number of characters of `class` that `s` ends with.
pub open spec fn back_span(s: Seq<char>, class: CharClass) -> int {
    span(s.reverse(), class)
}

/// `s` without the white space at its start.
pub open spec fn trim_start(s: Seq<char>) -> Seq<char> {
    s.skip(span(s, CharClass::Whitespace))
}

/// `s` without the white space at its start and at its end.
pub open spec fn trim(s: Seq<char>) -> Seq<char> {
    let rest = trim_start(s);
    rest.take(rest.len() - back_span(rest, CharClass::Whitespace))
}

/// `pat` stands in `s` at index `i`.
pub open spec fn occurs_at(s: Seq<char>, pat: Seq<char>, i: int) -> bool {
    &&& 0 <= i
    &&& i + pat.len() <= s.len()
    &&& s.subrange(i, i + pat.len()) == pat
}

/// `pat` stands in `s` at index `i` and nowhere before.
pub open spec fn is_first_occurrence(s: Seq<char>, pat: Seq<char>, i: int) -> bool {
    &&& occurs_at(s, pat, i)
    &&& forall|j: int| 0 <= j < i ==> !occurs_at(s, pat, j)
}

/// The index of the first occurrence of `pat` in `s`.
pub open spec fn find(s: Seq<char>, pat: Seq<char>) -> Option<int> {
    if exists|i: int| is_first_occurrence(s, pat, i) {
        Some(choose|i: int| is_first_occurrence(s, pat, i))
    } else {
        None
    }
}

/// A first occurrence is what `find` gives.
pub proof fn lemma_find_some(s: Seq<char>, pat: Seq<char>, i: int)
    requires
        is_first_occurrence(s, pat, i),
    ensures
        find(s, pat) == Some(i),
{
    let k = choose|k: int| is_first_occurrence(s, pat, k);
    if k < i {
        assert(!occurs_at(s, pat, k));
    } else if i < k {
        assert(!occurs_at(s, pat, i));
    }
}

/// Without an occurrence `find` gives nothing.
pub proof fn lemma_find_none(s: Seq<char>, pat: Seq<char>)
    requires
        forall|j: int| !occurs_at(s, pat, j),
    ensures
        find(s, pat) is None,
{
}

/// What `find` gives is a first occurrence, and it gives one where there is an
/// occurrence at all.
pub proof fn lemma_find(s: Seq<char>, pat: Seq<char>)
    ensures
        match find(s, pat) {
            Some(i) => is_first_occurrence(s, pat, i),
            None => forall|j: int| !occurs_at(s, pat, j),
        },
{
    if find(s, pat) is None {
        assert forall|j: int| !occurs_at(s, pat, j) by {
            if occurs_at(s, pat, j) {
                lemma_first_exists(s, pat, j);
            }
        }
    }
}

/// Where `pat` occurs at all, it occurs somewhere first.
proof fn lemma_first_exists(s: Seq<char>, pat: Seq<char>, j: int)
    requires
        occurs_at(s, pat, j),
    ensures
        exists|i: int| is_first_occurrence(s, pat, i),
    decreases j,
{
    if exists|k: int| 0 <= k < j && occurs_at(s, pat, k) {
        let k = choose|k: int| 0 <= k < j && occurs_at(s, pat, k);
        lemma_first_exists(s, pat, k);
    } else {
        assert(is_first_occurrence(s, pat, j));
    }
}

/// The index at which a run of characters of `class` that starts at index `i`
/// of `s` ends.
pub open spec fn after(s: Seq<char>, i: int, class: CharClass) -> int {
    i + span(s.skip(i), class)
}

/// The character `c` stands in `s` at index `i`.
pub open spec fn char_at(s: Seq<char>, i: int, c: char) -> bool {
    0 <= i < s.len() && s[i] == c
}

/// `after` stays inside `s` and does not go back.
pub proof fn lemma_after(s: Seq<char>, i: int, class: CharClass)
    requires
        0 <= i <= s.len(),
    ensures
        i <= after(s, i, class) <= s.len(),
{
    lemma_span(s.skip(i), class);
}

/// An index `j` that a run of characters of `class` from index `i` reaches,
/// and at which it stops, is where the run ends.
pub proof fn lemma_after_is(s: Seq<char>, i: int, class: CharClass, j: int)
    requires
        0 <= i <= j <= s.len(),
        forall|k: int| i <= k < j ==> class.has(#[trigger] s[k]),
        j < s.len() ==> !class.has(s[j]),
    ensures
        after(s, i, class) == j,
{
    assert forall|k: int| 0 <= k < j - i implies class.has(#[trigger] s.skip(i)[k]) by {
        assert(s.skip(i)[k] == s[i + k]);
    }
    lemma_span_unique(s.skip(i), class, j - i);
}

/// `c` does not occur in `s`.
pub open spec fn free_of(s: Seq<char>, c: char) -> bool {
    forall|i: int| 0 <= i < s.len() ==> s[i] != c
}

/// `s` begins with `pat`.
pub open spec fn starts_with(s: Seq<char>, pat: Seq<char>) -> bool {
    occurs_at(s, pat, 0)
}

/// The characters of a string, in order.
pub fn chars_of(text: &str) -> (r: Vec<char>)
    ensures
        r@ == text@,
{
    let mut r: Vec<char> = Vec::new();
    for c in it: text.chars()
        invariant
            it.seq() == text@,
            r@ == it.seq().take(it.index() as int),
    {
        r.push(c);
        assert(it.seq().take(it.index() + 1) =~= it.seq().take(it.index() as int).push(c));
    }
    assert(text@.take(text@.len() as int) =~= text@);
    r
}

/// The string made of the characters of `s`, in order.
pub fn string_of(s: &[char]) -> (r: String)
    ensures
        r@ == s@,
{
    let mut r = String::new();
    let mut i: usize = 0;
    while i < s.len()
        invariant
            i <= s.len(),
            r@ == s@.take(i as int),
        decreases s.len() - i,
    {
        r.push(s[i]);
        i += 1;
        assert(s@.take(i as int) =~= s@.take(i - 1).push(s@[i - 1]));
    }
    assert(s@.take(s.len() as int) =~= s@);
    r
}

/// Measures the longest prefix of `s` made of characters of `class`.
pub fn scan(s: &[char], class: CharClass) -> (n: usize)
    ensures
        n == span(s@, class),
        n <= s.len(),
{
    let mut i: usize = 0;
    while i < s.len() && class.contains(s[i])
        invariant
            i <= s.len(),
            forall|j: int| 0 <= j < i ==> class.has(#[trigger] s@[j]),
        decreases s.len() - i,
    {
        i += 1;
    }
    proof {
        lemma_span_unique(s@, class, i as int);
    }
    i
}

/// Counts the characters of `class` that `s` ends with.
pub fn scan_back(s: &[char], class: CharClass) -> (n: usize)
    ensures
        n == back_span(s@, class),
        n <= s.len(),
{
    let mut i: usize = 0;
    while i < s.len() && class.contains(s[s.len() - 1 - i])
        invariant
            i <= s.len(),
            forall|j: int| 0 <= j < i ==> class.has(#[trigger] s@.reverse()[j]),
        decreases s.len() - i,
    {
        i += 1;
    }
    proof {
        lemma_span_unique(s@.reverse(), class, i as int);
    }
    i
}

/// The part of `s` from index `from` on.
pub fn tail(s: &[char], from: usize) -> (r: &[char])
    requires
        from <= s.len(),
    ensures
        r@ == s@.skip(from as int),
{
    let r = vstd::slice::slice_subrange(s, from, s.len());
    assert(s@.subrange(from as int, s.len() as int) =~= s@.skip(from as int));
    r
}

/// The part of `s` from index `from` up to, and without, index `to`.
pub fn part(s: &[char], from: usize, to: usize) -> (r: &[char])
    requires
        from <= to <= s.len(),
    ensures
        r@ == s@.subrange(from as int, to as int),
{
    vstd::slice::slice_subrange(s, from, to)
}

/// `s` without the white space at its start and at its end.
pub fn trimmed(s: &[char]) -> (r: &[char])
    ensures
        r@ == trim(s@),
{
    let a = scan(s, CharClass::Whitespace);
    let rest = tail(s, a);
    let b = scan_back(rest, CharClass::Whitespace);
    let r = part(rest, 0, rest.len() - b);
    assert(rest@.subrange(0, rest.len() - b) =~= rest@.take(rest.len() - b));
    r
}

/// Whether `pat` stands in `s` at index `i`.
pub fn matches_at(s: &[char], pat: &[char], i: usize) -> (r: bool)
    ensures
        r == occurs_at(s@, pat@, i as int),
{
    if pat.len() > s.len() || i > s.len() - pat.len() {
        return false;
    }
    let mut k: usize = 0;
    while k < pat.len()
        invariant
            k <= pat.len(),
            i + pat.len() <= s.len(),
            forall|j: int| 0 <= j < k ==> s@[i + j] == #[trigger] pat@[j],
        decreases pat.len() - k,
    {
        if s[i + k] != pat[k] {
            assert(s@.subrange(i as int, i + pat.len())[k as int] == s@[i + k]);
            return false;
        }
        k += 1;
    }
    assert(s@.subrange(i as int, i + pat.len()) =~= pat@);
    true
}

/// Finds the first occurrence of `pat` in `s`.
pub fn position(s: &[char], pat: &[char]) -> (r: Option<usize>)
    ensures
        match r {
            Some(i) => find(s@, pat@) == Some(i as int) && i + pat.len() <= s.len(),
            None => find(s@, pat@) is None,
        },
{
    let mut i: usize = 0;
    while i < s.len()
        invariant
            i <= s.len(),
            forall|j: int| 0 <= j < i ==> !occurs_at(s@, pat@, j),
        decreases s.len() - i,
    {
        if matches_at(s, pat, i) {
            proof {
                lemma_find_some(s@, pat@, i as int);
            }
            return Some(i);
        }
        i += 1;
    }
    if matches_at(s, pat, i) {
        proof {
            lemma_find_some(s@, pat@, i as int);
        }
        return Some(i);
    }
    proof {
        lemma_find_none(s@, pat@);
    }
    None
}

/// The pieces that the occurrences of `c` cut `s` into: one more than there
/// are occurrences, each possibly empty.
pub open spec fn split(s: Seq<char>, c: char) -> Seq<Seq<char>>
    decreases s.len(),
{
    let n = span(s, CharClass::Except(c));
    if n < s.len() {
        proof {
            lemma_span(s, CharClass::Except(c));
        }
        seq![s.take(n)] + split(s.skip(n + 1), c)
    } else {
        seq![s]
    }
}

/// The maximal runs of characters of `s` that are not white space, in order.
pub open spec fn words(s: Seq<char>) -> Seq<Seq<char>>
    decreases s.len(),
{
    let rest = trim_start(s);
    let n = span(rest, CharClass::Visible);
    if n > 0 {
        proof {
            lemma_span(s, CharClass::Whitespace);
            lemma_span(rest, CharClass::Visible);
        }
        seq![rest.take(n)] + words(rest.skip(n))
    } else {
        Seq::empty()
    }
}

/// Each piece without the white space around it.
pub open spec fn trimmed_all(pieces: Seq<Seq<char>>) -> Seq<Seq<char>> {
    pieces.map_values(|p: Seq<char>| trim(p))
}

/// The character sequences that a sequence of slices stands for.
pub open spec fn views(pieces: Seq<&[char]>) -> Seq<Seq<char>> {
    pieces.map_values(|p: &[char]| p@)
}

/// Cuts `s` at every occurrence of `c`.
pub fn split_on<'a>(s: &'a [char], c: char) -> (r: Vec<&'a [char]>)
    ensures
        views(r@) == split(s@, c),
{
    let mut r: Vec<&'a [char]> = Vec::new();
    let mut rest = s;
    loop
        invariant_except_break
            split(s@, c) == views(r@) + split(rest@, c),
        ensures
            views(r@) == split(s@, c),
        decreases rest.len(),
    {
        let n = scan(rest, CharClass::Except(c));
        let ghost before = views(r@);
        if n < rest.len() {
            r.push(part(rest, 0, n));
            assert(rest@.subrange(0, n as int) =~= rest@.take(n as int));
            assert(views(r@) =~= before + seq![rest@.take(n as int)]);
            assert(split(s@, c) =~= views(r@) + split(rest@.skip(n + 1), c));
            rest = tail(rest, n + 1);
        } else {
            r.push(rest);
            assert(views(r@) =~= before + seq![rest@]);
            break;
        }
    }
    r
}

/// Cuts `s` into its maximal runs of characters that are not white space.
pub fn split_words<'a>(s: &'a [char]) -> (r: Vec<&'a [char]>)
    ensures
        views(r@) == words(s@),
{
    let mut r: Vec<&'a [char]> = Vec::new();
    let mut rest = s;
    loop
        invariant_except_break
            words(s@) == views(r@) + words(rest@),
        ensures
            views(r@) == words(s@),
        decreases rest.len(),
    {
        let a = scan(rest, CharClass::Whitespace);
        let body = tail(rest, a);
        let n = scan(body, CharClass::Visible);
        let ghost before = views(r@);
        if n > 0 {
            r.push(part(body, 0, n));
            assert(body@.subrange(0, n as int) =~= body@.take(n as int));
            assert(views(r@) =~= before + seq![body@.take(n as int)]);
            assert(words(s@) =~= views(r@) + words(body@.skip(n as int)));
            rest = tail(body, n);
        } else {
            assert(views(r@) =~= before + words(rest@));
            break;
        }
    }
    r
}

/// Finds where the run of characters of `class` that starts at index `i` ends.
pub fn skip_over(s: &[char], i: usize, class: CharClass) -> (r: usize)
    requires
        i <= s.len(),
    ensures
        r == after(s@, i as int, class),
        i <= r <= s.len(),
{
    let n = scan(tail(s, i), class);
    i + n
}

/// Whether the character `c` stands in `s` at index `i`.
pub fn has_char_at(s: &[char], i: usize, c: char) -> (r: bool)
    ensures
        r == char_at(s@, i as int, c),
{
    i < s.len() && s[i] == c
}

/// Whether two strings hold the same characters.
pub fn same_text(a: &str, b: &str) -> (r: bool)
    ensures
        r == (a@ == b@),
{
    let x = a.to_owned();
    let y = b.to_owned();
    x == y
}

/// The part of a string from its `n`-th character on.
pub fn suffix_from(text: &str, n: usize) -> (r: &str)
    requires
        n <= text@.len(),
    ensures
        r@ == text@.skip(n as int),
{
    let len = text.unicode_len();
    let r = text.substring_char(n, len);
    assert(text@.subrange(n as int, len as int) =~= text@.skip(n as int));
    r
}

/// The index behind `word` where `word` stands in `s` at index `i`, and `i`
/// itself where it does not.
pub open spec fn after_word(s: Seq<char>, i: int, word: Seq<char>) -> int {
    if occurs_at(s, word, i) {
        i + word.len()
    } else {
        i
    }
}

/// Steps over `word` where it stands in `s` at index `i`.
pub fn skip_word(s: &[char], i: usize, word: &str) -> (r: usize)
    requires
        i <= s.len(),
    ensures
        r == after_word(s@, i as int, word@),
        i <= r <= s.len(),
{
    let pat = chars_of(word);
    if matches_at(s, pat.as_slice(), i) {
        i + pat.len()
    } else {
        i
    }
}

/// Finds the first occurrence of `word` in `s`: the index at which it begins
/// and the index behind it.
pub fn position_of(s: &[char], word: &str) -> (r: Option<(usize, usize)>)
    ensures
        match r {
            Some((i, j)) => find(s@, word@) == Some(i as int) && j == i + word@.len() && j
                <= s.len(),
            None => find(s@, word@) is None,
        },
{
    let pat = chars_of(word);
    proof {
        lemma_find(s@, word@);
    }
    match position(s, pat.as_slice()) {
        Some(i) => Some((i, i + pat.len())),
        None => None,
    }
}

/// The strings that a sequence of `String`s stands for.
pub open spec fn texts(items: Seq<String>) -> Seq<Seq<char>> {
    items.map_values(|t: String| t@)
}

/// Copies of the given strings, in order.
pub fn to_strings(items: &[String]) -> (r: Vec<String>)
    ensures
        texts(r@) == texts(items@),
{
    let mut r: Vec<String> = Vec::new();
    let mut i: usize = 0;
    assert(texts(r@) =~= texts(items@).take(0));
    while i < items.len()
        invariant
            i <= items.len(),
            texts(r@) == texts(items@).take(i as int),
        decreases items.len() - i,
    {
        let ghost before = texts(r@);
        r.push(items[i].clone());
        assert(texts(r@) =~= before.push(items@[i as int]@));
        assert(texts(items@).take(i + 1) =~= texts(items@).take(i as int).push(items@[i as int]@));
        i += 1;
    }
    assert(texts(items@).take(items.len() as int) =~= texts(items@));
    r
}

} // verus!
