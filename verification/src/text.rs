//! Character-level string operations with exact specifications.

use vstd::prelude::*;
use vstd::string::*;

verus! {

/// Whether two strings hold the same characters.
pub fn str_eq(a: &str, b: &str) -> (r: bool)
    ensures
        r == (a@ == b@),
{
    let n = a.unicode_len();
    if n != b.unicode_len() {
        return false;
    }
    let mut i: usize = 0;
    while i < n
        invariant
            n == a@.len(),
            n == b@.len(),
            i <= n,
            forall|j: int| 0 <= j < i ==> a@[j] == b@[j],
        decreases n - i,
    {
        if a.get_char(i) != b.get_char(i) {
            return false;
        }
        i += 1;
    }
    assert(a@ =~= b@);
    true
}

/// Whether `s` begins with `prefix`.
pub fn starts_with(s: &str, prefix: &str) -> (r: bool)
    ensures
        r == prefix@.is_prefix_of(s@),
{
    let n = prefix.unicode_len();
    if n > s.unicode_len() {
        return false;
    }
    let mut i: usize = 0;
    while i < n
        invariant
            n == prefix@.len(),
            n <= s@.len(),
            i <= n,
            forall|j: int| 0 <= j < i ==> prefix@[j] == s@[j],
        decreases n - i,
    {
        if prefix.get_char(i) != s.get_char(i) {
            return false;
        }
        i += 1;
    }
    assert(prefix@ =~= s@.subrange(0, n as int));
    true
}


/// The character sequences held by a sequence of strings.
pub open spec fn string_views(v: Seq<String>) -> Seq<Seq<char>> {
    v.map_values(|s: String| s@)
}

/// A line without the carriage return that ends it, if any.
pub open spec fn strip_carriage_return(line: Seq<char>) -> Seq<char> {
    if line.len() > 0 && line.last() == '\r' {
        line.drop_last()
    } else {
        line
    }
}

/// The lines of `s` from position `i` on, where the current line began at
/// `start`: a line ends at each `'\n'` (a `'\r'` just before it is dropped),
/// and a last line without a terminator is kept as it is, unless it is empty.
pub open spec fn lines_scan(s: Seq<char>, start: int, i: int) -> Seq<Seq<char>>
    decreases s.len() - i,
{
    if i >= s.len() {
        if 0 <= start < s.len() {
            seq![s.subrange(start, s.len() as int)]
        } else {
            Seq::empty()
        }
    } else if s[i] == '\n' {
        seq![strip_carriage_return(s.subrange(start, i))] + lines_scan(s, i + 1, i + 1)
    } else {
        lines_scan(s, start, i + 1)
    }
}

/// The lines of a text, as `str::lines` yields them.
pub open spec fn lines_of(s: Seq<char>) -> Seq<Seq<char>> {
    lines_scan(s, 0, 0)
}

/// The pieces of `s` from position `i` on, between occurrences of `sep`,
/// where the current piece began at `start`.
pub open spec fn split_scan(s: Seq<char>, sep: char, start: int, i: int) -> Seq<Seq<char>>
    decreases s.len() - i,
{
    if i >= s.len() {
        seq![s.subrange(start, s.len() as int)]
    } else if s[i] == sep {
        seq![s.subrange(start, i)] + split_scan(s, sep, i + 1, i + 1)
    } else {
        split_scan(s, sep, start, i + 1)
    }
}

/// The pieces of `s` between occurrences of `sep`, as `str::split` yields
/// them: there is always at least one piece, and pieces may be empty.
pub open spec fn split_on(s: Seq<char>, sep: char) -> Seq<Seq<char>> {
    split_scan(s, sep, 0, 0)
}

/// A text without a line break, scanned from a position before which
/// nothing has ended, is one line.
pub proof fn lemma_lines_scan_single(s: Seq<char>, start: int, i: int)
    requires
        0 <= start <= i <= s.len(),
        start < s.len(),
        forall|j: int| i <= j < s.len() ==> s[j] != '\n',
    ensures
        lines_scan(s, start, i) == seq![s.subrange(start, s.len() as int)],
    decreases s.len() - i,
{
    if i < s.len() {
        lemma_lines_scan_single(s, start, i + 1);
    }
}

/// A non-empty text without a line break is a single line.
pub proof fn lemma_single_line(s: Seq<char>)
    requires
        s.len() > 0,
        !s.contains('\n'),
    ensures
        lines_of(s) == seq![s],
{
    lemma_lines_scan_single(s, 0, 0);
    assert(s.subrange(0, s.len() as int) =~= s);
}

/// Scanning for separators up to the next one, at position `j`.
pub proof fn lemma_split_scan_to_separator(s: Seq<char>, sep: char, start: int, i: int, j: int)
    requires
        0 <= start <= i <= j < s.len(),
        s[j] == sep,
        forall|t: int| i <= t < j ==> s[t] != sep,
    ensures
        split_scan(s, sep, start, i) == seq![s.subrange(start, j)] + split_scan(s, sep, j + 1, j + 1),
    decreases j - i,
{
    if i < j {
        lemma_split_scan_to_separator(s, sep, start, i + 1, j);
    }
}

/// Scanning for separators where none is left.
pub proof fn lemma_split_scan_to_end(s: Seq<char>, sep: char, start: int, i: int)
    requires
        0 <= start <= i <= s.len(),
        forall|t: int| i <= t < s.len() ==> s[t] != sep,
    ensures
        split_scan(s, sep, start, i) == seq![s.subrange(start, s.len() as int)],
    decreases s.len() - i,
{
    if i < s.len() {
        lemma_split_scan_to_end(s, sep, start, i + 1);
    }
}

/// Three pieces joined by a separator that none of them holds split back
/// into those pieces.
pub proof fn lemma_split_three(a: Seq<char>, b: Seq<char>, c: Seq<char>, sep: char)
    requires
        !a.contains(sep),
        !b.contains(sep),
        !c.contains(sep),
    ensures
        split_on(a + seq![sep] + b + seq![sep] + c, sep) == seq![a, b, c],
{
    let s = a + seq![sep] + b + seq![sep] + c;
    let j1 = a.len() as int;
    let j2 = (a.len() + 1 + b.len()) as int;
    assert forall|t: int| 0 <= t < j1 implies s[t] != sep by {
        assert(s[t] == a[t]);
    }
    lemma_split_scan_to_separator(s, sep, 0, 0, j1);
    assert forall|t: int| j1 + 1 <= t < j2 implies s[t] != sep by {
        assert(s[t] == b[t - j1 - 1]);
    }
    lemma_split_scan_to_separator(s, sep, j1 + 1, j1 + 1, j2);
    assert forall|t: int| j2 + 1 <= t < s.len() implies s[t] != sep by {
        assert(s[t] == c[t - j2 - 1]);
    }
    lemma_split_scan_to_end(s, sep, j2 + 1, j2 + 1);
    assert(s.subrange(0, j1) =~= a);
    assert(s.subrange(j1 + 1, j2) =~= b);
    assert(s.subrange(j2 + 1, s.len() as int) =~= c);
    assert(seq![a] + (seq![b] + seq![c]) =~= seq![a, b, c]);
}

/// Splits a text into its lines, as `str::lines` does.
pub fn split_lines(text: &str) -> (lines: Vec<String>)
    ensures
        string_views(lines@) == lines_of(text@),
{
    let n = text.unicode_len();
    let mut lines: Vec<String> = Vec::new();
    let mut start: usize = 0;
    let mut i: usize = 0;
    while i < n
        invariant
            n == text@.len(),
            start <= i <= n,
            string_views(lines@) + lines_scan(text@, start as int, i as int) == lines_of(text@),
        decreases n - i,
    {
        if text.get_char(i) == '\n' {
            let mut end = i;
            if end > start && text.get_char(end - 1) == '\r' {
                end = end - 1;
            }
            let line = String::from_str(text.substring_char(start, end));
            proof {
                let piece = text@.subrange(start as int, i as int);
                assert(strip_carriage_return(piece) =~= text@.subrange(start as int, end as int));
                assert(string_views(lines@.push(line)) =~= string_views(lines@).push(line@));
                assert(lines_scan(text@, start as int, i as int) == seq![strip_carriage_return(piece)]
                    + lines_scan(text@, i + 1, i + 1));
            }
            lines.push(line);
            start = i + 1;
        }
        i += 1;
    }
    if start < n {
        let line = String::from_str(text.substring_char(start, n));
        proof {
            assert(string_views(lines@.push(line)) =~= string_views(lines@).push(line@));
        }
        lines.push(line);
    }
    proof {
        assert(string_views(lines@) =~= lines_of(text@));
    }
    lines
}

/// Splits a text at every occurrence of `sep`, as `str::split` does.
pub fn split_on_char(text: &str, sep: char) -> (pieces: Vec<String>)
    ensures
        string_views(pieces@) == split_on(text@, sep),
{
    let n = text.unicode_len();
    let mut pieces: Vec<String> = Vec::new();
    let mut start: usize = 0;
    let mut i: usize = 0;
    while i < n
        invariant
            n == text@.len(),
            start <= i <= n,
            string_views(pieces@) + split_scan(text@, sep, start as int, i as int) == split_on(text@, sep),
        decreases n - i,
    {
        if text.get_char(i) == sep {
            let piece = String::from_str(text.substring_char(start, i));
            proof {
                assert(string_views(pieces@.push(piece)) =~= string_views(pieces@).push(piece@));
            }
            pieces.push(piece);
            start = i + 1;
        }
        i += 1;
    }
    let piece = String::from_str(text.substring_char(start, n));
    proof {
        assert(string_views(pieces@.push(piece)) =~= string_views(pieces@).push(piece@));
    }
    pieces.push(piece);
    proof {
        assert(string_views(pieces@) =~= split_on(text@, sep));
    }
    pieces
}


/// Whether `c` has the Unicode `White_Space` property, as
/// `char::is_whitespace` decides.
pub open spec fn is_white_space(c: char) -> bool {
    let u = c as u32;
    (0x9 <= u <= 0xd) || u == 0x20 || u == 0x85 || u == 0xa0 || u == 0x1680 || (0x2000 <= u
        <= 0x200a) || u == 0x2028 || u == 0x2029 || u == 0x202f || u == 0x205f || u == 0x3000
}

/// Decides `is_white_space`.
pub fn char_is_white_space(c: char) -> (r: bool)
    ensures
        r == is_white_space(c),
{
    let u = c as u32;
    (0x9 <= u && u <= 0xd) || u == 0x20 || u == 0x85 || u == 0xa0 || u == 0x1680 || (0x2000 <= u
        && u <= 0x200a) || u == 0x2028 || u == 0x2029 || u == 0x202f || u == 0x205f || u == 0x3000
}

/// The position of the first character at or after `i` that is not white space,
/// or the length of `s` if there is none.
pub open spec fn first_non_white(s: Seq<char>, i: int) -> int
    decreases s.len() - i,
{
    if i >= s.len() {
        s.len() as int
    } else if !is_white_space(s[i]) {
        i
    } else {
        first_non_white(s, i + 1)
    }
}

/// One past the position of the last character before `j` that is not white
/// space, or 0 if there is none.
pub open spec fn end_non_white(s: Seq<char>, j: int) -> int
    decreases j,
{
    if j <= 0 {
        0
    } else if !is_white_space(s[j - 1]) {
        j
    } else {
        end_non_white(s, j - 1)
    }
}

/// `s` without its leading and trailing white space, as `str::trim` gives it.
pub open spec fn trimmed(s: Seq<char>) -> Seq<char> {
    let a = first_non_white(s, 0);
    let b = end_non_white(s, s.len() as int);
    if a < b {
        s.subrange(a, b)
    } else {
        Seq::empty()
    }
}

/// Removes leading and trailing white space, as `str::trim` does.
pub fn trim(s: &str) -> (r: String)
    ensures
        r@ == trimmed(s@),
{
    let n = s.unicode_len();
    let mut a: usize = 0;
    while a < n && char_is_white_space(s.get_char(a))
        invariant
            n == s@.len(),
            a <= n,
            first_non_white(s@, a as int) == first_non_white(s@, 0),
        decreases n - a,
    {
        a += 1;
    }
    let mut b: usize = n;
    while b > 0 && char_is_white_space(s.get_char(b - 1))
        invariant
            n == s@.len(),
            b <= n,
            end_non_white(s@, b as int) == end_non_white(s@, n as int),
        decreases b,
    {
        b -= 1;
    }
    if a < b {
        String::from_str(s.substring_char(a, b))
    } else {
        let r = String::new();
        proof {
            assert(r@ =~= trimmed(s@));
        }
        r
    }
}

/// `s` with every `from` replaced by `to`.
pub open spec fn replaced(s: Seq<char>, from: char, to: char) -> Seq<char> {
    s.map_values(|c: char| if c == from { to } else { c })
}

/// Replaces every `':'` by `'_'`, as `str::replace(':', "_")` does.
pub fn replace_colons(s: &str) -> (r: String)
    ensures
        r@ == replaced(s@, ':', '_'),
{
    let n = s.unicode_len();
    let mut r = String::new();
    let mut i: usize = 0;
    let underscore = "_";
    proof {
        reveal_strlit("_");
    }
    while i < n
        invariant
            n == s@.len(),
            i <= n,
            underscore@ == seq!['_'],
            r@ == replaced(s@.subrange(0, i as int), ':', '_'),
        decreases n - i,
    {
        let c = s.get_char(i);
        if c == ':' {
            r.append(underscore);
        } else {
            r.append(s.substring_char(i, i + 1));
        }
        proof {
            assert(s@.subrange(0, i + 1) =~= s@.subrange(0, i as int).push(c));
            assert(replaced(s@.subrange(0, i + 1), ':', '_') =~= replaced(
                s@.subrange(0, i as int),
                ':',
                '_',
            ).push(if c == ':' { '_' } else { c }));
        }
        i += 1;
    }
    proof {
        assert(s@.subrange(0, n as int) =~= s@);
    }
    r
}

/// Whether `needle` occurs in `hay` at position `i`.
pub open spec fn occurs_at(hay: Seq<char>, needle: Seq<char>, i: int) -> bool {
    0 <= i && i + needle.len() <= hay.len() && hay.subrange(i, i + needle.len()) == needle
}

/// Whether `needle` occurs anywhere in `hay`.
pub open spec fn contains_text(hay: Seq<char>, needle: Seq<char>) -> bool {
    exists|i: int| occurs_at(hay, needle, i)
}

/// Decides `contains_text`, as `str::contains` with a string pattern does.
pub fn text_contains(hay: &str, needle: &str) -> (r: bool)
    ensures
        r == contains_text(hay@, needle@),
{
    let n = hay.unicode_len();
    let m = needle.unicode_len();
    if m > n {
        proof {
            assert forall|i: int| !occurs_at(hay@, needle@, i) by {}
        }
        return false;
    }
    let mut i: usize = 0;
    while i <= n - m
        invariant
            n == hay@.len(),
            m == needle@.len(),
            m <= n,
            i <= n - m + 1,
            forall|k: int| 0 <= k < i ==> !occurs_at(hay@, needle@, k),
        decreases n - m + 1 - i,
    {
        let mut j: usize = 0;
        while j < m && hay.get_char(i + j) == needle.get_char(j)
            invariant
                n == hay@.len(),
                m == needle@.len(),
                i + m <= n,
                j <= m,
                forall|t: int| 0 <= t < j ==> hay@[i + t] == needle@[t],
            decreases m - j,
        {
            j += 1;
        }
        if j == m {
            proof {
                assert(hay@.subrange(i as int, i + m) =~= needle@);
                assert(occurs_at(hay@, needle@, i as int));
            }
            return true;
        }
        proof {
            assert(hay@.subrange(i as int, i + m)[j as int] != needle@[j as int]);
        }
        i += 1;
    }
    proof {
        assert forall|k: int| !occurs_at(hay@, needle@, k) by {}
    }
    false
}


/// The position of the first `c` at or after position `i` of `s`, or the
/// length of `s` if there is none.
pub open spec fn index_of_from(s: Seq<char>, c: char, i: int) -> int
    decreases s.len() - i,
{
    if i >= s.len() {
        s.len() as int
    } else if s[i] == c {
        i
    } else {
        index_of_from(s, c, i + 1)
    }
}

/// Finds the first `c` in `s`: its position, or the length of `s`.
pub fn find_char(s: &str, c: char) -> (r: usize)
    ensures
        r as int == index_of_from(s@, c, 0),
{
    let n = s.unicode_len();
    let mut i: usize = 0;
    while i < n && s.get_char(i) != c
        invariant
            n == s@.len(),
            i <= n,
            index_of_from(s@, c, i as int) == index_of_from(s@, c, 0),
        decreases n - i,
    {
        i += 1;
    }
    i
}

/// Where `index_of_from` lands: within `i..=len`, on a `c` unless at the end,
/// and past no `c`.
pub proof fn lemma_index_of_from(s: Seq<char>, c: char, i: int)
    requires
        0 <= i <= s.len(),
    ensures
        i <= index_of_from(s, c, i) <= s.len(),
        index_of_from(s, c, i) < s.len() ==> s[index_of_from(s, c, i)] == c,
        forall|j: int| i <= j < index_of_from(s, c, i) ==> s[j] != c,
    decreases s.len() - i,
{
    if i < s.len() && s[i] != c {
        lemma_index_of_from(s, c, i + 1);
    }
}


/// The decimal digit for `d` (below 10).
pub open spec fn digit_char(d: nat) -> char {
    "0123456789"@[d as int]
}

/// The decimal form of a number, without leading zeros, as `u64::to_string`
/// writes it.
pub open spec fn decimal_text(n: nat) -> Seq<char>
    decreases n,
{
    if n < 10 {
        seq![digit_char(n)]
    } else {
        decimal_text(n / 10).push(digit_char(n % 10))
    }
}

/// The digit for `d`, as a text of one character.
fn digit_text(d: u64) -> (r: &'static str)
    requires
        d < 10,
    ensures
        r@ == seq![digit_char(d as nat)],
{
    let digits: &'static str = "0123456789";
    proof {
        reveal_strlit("0123456789");
    }
    let r = digits.substring_char(d as usize, d as usize + 1);
    assert(r@ =~= seq![digit_char(d as nat)]);
    r
}

/// Writes a number in decimal, as `u64::to_string` does.
pub fn decimal(n: u64) -> (r: String)
    ensures
        r@ == decimal_text(n as nat),
{
    let mut r = String::from_str(digit_text(n % 10));
    let mut m = n / 10;
    while m > 0
        invariant
            decimal_text(n as nat) == (if m == 0 {
                Seq::<char>::empty()
            } else {
                decimal_text(m as nat)
            }) + r@,
        decreases m,
    {
        let mut t = String::from_str(digit_text(m % 10));
        t.append(r.as_str());
        proof {
            if m >= 10 {
                assert(decimal_text(m as nat) == decimal_text((m / 10) as nat).push(
                    digit_char((m % 10) as nat),
                ));
                assert(decimal_text((m / 10) as nat) + t@ =~= decimal_text(m as nat) + r@);
            } else {
                assert(t@ =~= decimal_text(m as nat) + r@);
            }
        }
        r = t;
        m = m / 10;
    }
    proof {
        assert(Seq::<char>::empty() + r@ =~= r@);
    }
    r
}

} // verus!
