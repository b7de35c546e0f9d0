//! The grammar of the configuration file: `key = value` lines with
//! whitespace ignored and `#` comments, numbers with unit suffixes, and the
//! exact decimal scale factor of each unit.
use vstd::prelude::*;
use vstd::string::StrSliceExecFns;

verus! {

/// An exact decimal scale factor, `mantissa * 10^exponent`.
#[derive(Clone, Copy, Debug, PartialEq, Eq, Structural)]
pub struct DecimalFactor {
    pub mantissa: u64,
    pub exponent: i32,
}

/// The factor `mantissa * 10^exponent`.
pub open spec fn decimal(mantissa: int, exponent: int) -> DecimalFactor {
    DecimalFactor { mantissa: mantissa as u64, exponent: exponent as i32 }
}

/// The characters of a string, in order.
fn chars_of(s: &str) -> (v: Vec<char>)
    ensures
        v@ == s@,
{
    let mut v: Vec<char> = Vec::new();
    for c in it: s.chars()
        invariant
            v@ == it.seq().take(it.index() as int),
    {
        v.push(c);
    }
    v
}

/// Whether two strings hold the same characters.
fn same_chars(a: &str, b: &str) -> (same: bool)
    ensures
        same == (a@ == b@),
{
    let ca = chars_of(a);
    let cb = chars_of(b);
    if ca.len() != cb.len() {
        return false;
    }
    let mut i: usize = 0;
    while i < ca.len()
        invariant
            ca@ == a@,
            cb@ == b@,
            ca.len() == cb.len(),
            0 <= i <= ca.len(),
            forall|j: int| 0 <= j < i ==> ca@[j] == cb@[j],
        decreases ca.len() - i,
    {
        if ca[i] != cb[i] {
            return false;
        }
        i += 1;
    }
    assert(a@ =~= b@);
    true
}

/// `std`'s `str::to_lowercase` on the characters of a string; Unicode
/// lowercase mapping, as `std` defines it.
pub uninterp spec fn str_lowercase(s: Seq<char>) -> Seq<char>;

/// `std`'s `str::to_uppercase` on the characters of a string; Unicode
/// uppercase mapping, as `std` defines it.
pub uninterp spec fn str_uppercase(s: Seq<char>) -> Seq<char>;

/// Every character of `s` is ASCII.
pub open spec fn all_ascii(s: Seq<char>) -> bool {
    forall|i: int| 0 <= i < s.len() ==> (#[trigger] s[i] as u32) < 128
}

/// The ASCII lowercase of a character: `A`-`Z` become `a`-`z`, every other
/// character stays.
pub open spec fn ascii_lower_char(c: char) -> char {
    if 'A' <= c && c <= 'Z' { ((c as u32) + 32) as char } else { c }
}

/// The ASCII uppercase of a character: `a`-`z` become `A`-`Z`, every other
/// character stays.
pub open spec fn ascii_upper_char(c: char) -> char {
    if 'a' <= c && c <= 'z' { ((c as u32) - 32) as char } else { c }
}

/// The ASCII lowercase of a string, character by character.
pub open spec fn ascii_lowercase(s: Seq<char>) -> Seq<char> {
    Seq::new(s.len(), |i: int| ascii_lower_char(s[i]))
}

/// The ASCII uppercase of a string, character by character.
pub open spec fn ascii_uppercase(s: Seq<char>) -> Seq<char> {
    Seq::new(s.len(), |i: int| ascii_upper_char(s[i]))
}

/// Calls `str::to_lowercase`. Trusted: the result is named
/// `str_lowercase` of the argument's characters, and on an all-ASCII
/// string the Unicode lowercase mapping changes exactly `A`-`Z` to
/// `a`-`z`. Nothing is claimed of other characters.
#[verifier::external_body]
fn to_lowercase(s: &str) -> (lower: String)
    ensures
        lower@ == str_lowercase(s@),
        all_ascii(s@) ==> lower@ == ascii_lowercase(s@),
{
    s.to_lowercase()
}

/// Calls `str::to_uppercase`. Trusted: the result is named
/// `str_uppercase` of the argument's characters, and on an all-ASCII
/// string the Unicode uppercase mapping changes exactly `a`-`z` to
/// `A`-`Z`. Nothing is claimed of other characters.
#[verifier::external_body]
fn to_uppercase(s: &str) -> (upper: String)
    ensures
        upper@ == str_uppercase(s@),
        all_ascii(s@) ==> upper@ == ascii_uppercase(s@),
{
    s.to_uppercase()
}

/// The factor of an iteration-count suffix, given in upper case.
pub open spec fn iter_unit_factor(u: Seq<char>) -> DecimalFactor {
    if u == "K"@ { decimal(1, 3) }
    else if u == "M"@ { decimal(1, 6) }
    else if u == "B"@ { decimal(1, 9) }
    else { decimal(1, 0) }
}

/// The factor of a length suffix (to Angstrom), given in lower case.
pub open spec fn length_unit_factor(u: Seq<char>) -> DecimalFactor {
    if u == "a"@ { decimal(1, 0) }
    else if u == "nm"@ { decimal(1, 1) }
    else if u == "um"@ { decimal(1, 4) }
    else { decimal(1, 0) }
}

/// The factor of a time suffix (to seconds), given in lower case.
pub open spec fn time_unit_factor(u: Seq<char>) -> DecimalFactor {
    if u == "s"@ { decimal(1, 0) }
    else if u == "ms"@ { decimal(1, -3) }
    else if u == "us"@ { decimal(1, -6) }
    else if u == "ns"@ { decimal(1, -9) }
    else if u == "ps"@ { decimal(1, -12) }
    else if u == "fs"@ { decimal(1, -15) }
    else if u == "as"@ { decimal(1, -18) }
    else if u == "zs"@ { decimal(1, -21) }
    else { decimal(1, 0) }
}

/// The factor of an energy suffix (to Joule), given in lower case; the
/// electron-volt is 1.602177e-19 J.
pub open spec fn energy_unit_factor(u: Seq<char>) -> DecimalFactor {
    if u == "j"@ { decimal(1, 0) }
    else if u == "mj"@ { decimal(1, -3) }
    else if u == "uj"@ { decimal(1, -6) }
    else if u == "nj"@ { decimal(1, -9) }
    else if u == "pj"@ { decimal(1, -12) }
    else if u == "fj"@ { decimal(1, -15) }
    else if u == "aj"@ { decimal(1, -18) }
    else if u == "ev"@ { decimal(1602177, -25) }
    else if u == "mev"@ { decimal(1602177, -28) }
    else if u == "uev"@ { decimal(1602177, -31) }
    else if u == "nev"@ { decimal(1602177, -34) }
    else { decimal(1, 0) }
}

/// The factor of a magnetic-field suffix (to Tesla), given in lower case.
pub open spec fn field_unit_factor(u: Seq<char>) -> DecimalFactor {
    if u == "kt"@ { decimal(1, 3) }
    else if u == "t"@ { decimal(1, 0) }
    else if u == "mt"@ { decimal(1, -3) }
    else if u == "ut"@ { decimal(1, -6) }
    else if u == "g"@ { decimal(1, -4) }
    else { decimal(1, 0) }
}

/// The factor of a frequency suffix (to Hertz), given in lower case.
pub open spec fn freq_unit_factor(u: Seq<char>) -> DecimalFactor {
    if u == "hz"@ { decimal(1, 0) }
    else if u == "khz"@ { decimal(1, 3) }
    else if u == "mhz"@ { decimal(1, 6) }
    else if u == "ghz"@ { decimal(1, 9) }
    else if u == "thz"@ { decimal(1, 12) }
    else if u == "phz"@ { decimal(1, 15) }
    else { decimal(1, 0) }
}

/// The scale factor of an iteration-count suffix (`K`, `M`, `B`, in any
/// case); any other suffix scales by one.
pub fn parse_iter_units(unit_string: String) -> (factor: DecimalFactor)
    ensures
        factor == iter_unit_factor(str_uppercase(unit_string@)),
        all_ascii(unit_string@) ==> factor == iter_unit_factor(ascii_uppercase(unit_string@)),
{
    let u = to_uppercase(unit_string.as_str());
    let u = u.as_str();
    if same_chars(u, "K") { DecimalFactor { mantissa: 1, exponent: 3 } }
    else if same_chars(u, "M") { DecimalFactor { mantissa: 1, exponent: 6 } }
    else if same_chars(u, "B") { DecimalFactor { mantissa: 1, exponent: 9 } }
    else { DecimalFactor { mantissa: 1, exponent: 0 } }
}

/// The scale factor of a length suffix to Angstrom (`a`, `nm`, `um`, in
/// any case); any other suffix scales by one.
pub fn parse_length_units(unit_string: String) -> (factor: DecimalFactor)
    ensures
        factor == length_unit_factor(str_lowercase(unit_string@)),
        all_ascii(unit_string@) ==> factor == length_unit_factor(ascii_lowercase(unit_string@)),
{
    let u = to_lowercase(unit_string.as_str());
    let u = u.as_str();
    if same_chars(u, "a") { DecimalFactor { mantissa: 1, exponent: 0 } }
    else if same_chars(u, "nm") { DecimalFactor { mantissa: 1, exponent: 1 } }
    else if same_chars(u, "um") { DecimalFactor { mantissa: 1, exponent: 4 } }
    else { DecimalFactor { mantissa: 1, exponent: 0 } }
}

/// The scale factor of a time suffix to seconds (`s` down to `zs`, in any
/// case); any other suffix scales by one.
pub fn parse_time_units(unit_string: String) -> (factor: DecimalFactor)
    ensures
        factor == time_unit_factor(str_lowercase(unit_string@)),
        all_ascii(unit_string@) ==> factor == time_unit_factor(ascii_lowercase(unit_string@)),
{
    let u = to_lowercase(unit_string.as_str());
    let u = u.as_str();
    if same_chars(u, "s") { DecimalFactor { mantissa: 1, exponent: 0 } }
    else if same_chars(u, "ms") { DecimalFactor { mantissa: 1, exponent: -3 } }
    else if same_chars(u, "us") { DecimalFactor { mantissa: 1, exponent: -6 } }
    else if same_chars(u, "ns") { DecimalFactor { mantissa: 1, exponent: -9 } }
    else if same_chars(u, "ps") { DecimalFactor { mantissa: 1, exponent: -12 } }
    else if same_chars(u, "fs") { DecimalFactor { mantissa: 1, exponent: -15 } }
    else if same_chars(u, "as") { DecimalFactor { mantissa: 1, exponent: -18 } }
    else if same_chars(u, "zs") { DecimalFactor { mantissa: 1, exponent: -21 } }
    else { DecimalFactor { mantissa: 1, exponent: 0 } }
}

/// The scale factor of an energy suffix to Joule (`j` down to `aj`, and
/// `ev`, `mev`, `uev`, `nev`, in any case); any other suffix scales by one.
pub fn parse_energy_units(unit_string: String) -> (factor: DecimalFactor)
    ensures
        factor == energy_unit_factor(str_lowercase(unit_string@)),
        all_ascii(unit_string@) ==> factor == energy_unit_factor(ascii_lowercase(unit_string@)),
{
    let u = to_lowercase(unit_string.as_str());
    let u = u.as_str();
    if same_chars(u, "j") { DecimalFactor { mantissa: 1, exponent: 0 } }
    else if same_chars(u, "mj") { DecimalFactor { mantissa: 1, exponent: -3 } }
    else if same_chars(u, "uj") { DecimalFactor { mantissa: 1, exponent: -6 } }
    else if same_chars(u, "nj") { DecimalFactor { mantissa: 1, exponent: -9 } }
    else if same_chars(u, "pj") { DecimalFactor { mantissa: 1, exponent: -12 } }
    else if same_chars(u, "fj") { DecimalFactor { mantissa: 1, exponent: -15 } }
    else if same_chars(u, "aj") { DecimalFactor { mantissa: 1, exponent: -18 } }
    else if same_chars(u, "ev") { DecimalFactor { mantissa: 1602177, exponent: -25 } }
    else if same_chars(u, "mev") { DecimalFactor { mantissa: 1602177, exponent: -28 } }
    else if same_chars(u, "uev") { DecimalFactor { mantissa: 1602177, exponent: -31 } }
    else if same_chars(u, "nev") { DecimalFactor { mantissa: 1602177, exponent: -34 } }
    else { DecimalFactor { mantissa: 1, exponent: 0 } }
}

/// The scale factor of a magnetic-field suffix to Tesla (`kt`, `t`, `mt`,
/// `ut`, `g`, in any case); any other suffix scales by one.
pub fn parse_field_units(unit_string: String) -> (factor: DecimalFactor)
    ensures
        factor == field_unit_factor(str_lowercase(unit_string@)),
        all_ascii(unit_string@) ==> factor == field_unit_factor(ascii_lowercase(unit_string@)),
{
    let u = to_lowercase(unit_string.as_str());
    let u = u.as_str();
    if same_chars(u, "kt") { DecimalFactor { mantissa: 1, exponent: 3 } }
    else if same_chars(u, "t") { DecimalFactor { mantissa: 1, exponent: 0 } }
    else if same_chars(u, "mt") { DecimalFactor { mantissa: 1, exponent: -3 } }
    else if same_chars(u, "ut") { DecimalFactor { mantissa: 1, exponent: -6 } }
    else if same_chars(u, "g") { DecimalFactor { mantissa: 1, exponent: -4 } }
    else { DecimalFactor { mantissa: 1, exponent: 0 } }
}

/// The scale factor of a frequency suffix to Hertz (`hz` up to `phz`, in
/// any case); any other suffix scales by one.
pub fn parse_freq_units(unit_string: String) -> (factor: DecimalFactor)
    ensures
        factor == freq_unit_factor(str_lowercase(unit_string@)),
        all_ascii(unit_string@) ==> factor == freq_unit_factor(ascii_lowercase(unit_string@)),
{
    let u = to_lowercase(unit_string.as_str());
    let u = u.as_str();
    if same_chars(u, "hz") { DecimalFactor { mantissa: 1, exponent: 0 } }
    else if same_chars(u, "khz") { DecimalFactor { mantissa: 1, exponent: 3 } }
    else if same_chars(u, "mhz") { DecimalFactor { mantissa: 1, exponent: 6 } }
    else if same_chars(u, "ghz") { DecimalFactor { mantissa: 1, exponent: 9 } }
    else if same_chars(u, "thz") { DecimalFactor { mantissa: 1, exponent: 12 } }
    else if same_chars(u, "phz") { DecimalFactor { mantissa: 1, exponent: 15 } }
    else { DecimalFactor { mantissa: 1, exponent: 0 } }
}

/// A character that may end the number part of a value: an ASCII digit or
/// a decimal point.
pub open spec fn is_number_char(c: char) -> bool {
    ('0' <= c && c <= '9') || c == '.'
}

/// The position just after the last number character of `s`; zero when
/// there is none.
pub open spec fn number_end(s: Seq<char>) -> int
    decreases s.len(),
{
    if s.len() == 0 {
        0
    } else if is_number_char(s.last()) {
        s.len() as int
    } else {
        number_end(s.drop_last())
    }
}

/// `number_end` splits a string into a prefix that is empty or ends in a
/// number character, and a suffix free of number characters.
pub proof fn lemma_number_end(s: Seq<char>)
    ensures
        0 <= number_end(s) <= s.len(),
        number_end(s) > 0 ==> is_number_char(s[number_end(s) - 1]),
        forall|j: int| number_end(s) <= j < s.len() ==> !is_number_char(#[trigger] s[j]),
    decreases s.len(),
{
    if s.len() > 0 && !is_number_char(s.last()) {
        lemma_number_end(s.drop_last());
        assert forall|j: int| number_end(s) <= j < s.len() implies !is_number_char(#[trigger] s[j]) by {
            if j < s.len() - 1 {
                assert(s[j] == s.drop_last()[j]);
            }
        }
    }
}

/// The number part of a value ends just after its last ASCII digit or
/// decimal point, and the unit suffix holds no ASCII digit and no decimal
/// point.
pub proof fn lemma_number_end_splits(s: Seq<char>)
    ensures
        0 <= number_end(s) <= s.len(),
        number_end(s) > 0 ==> (('0' <= s[number_end(s) - 1] && s[number_end(s) - 1] <= '9')
            || s[number_end(s) - 1] == '.'),
        forall|j: int| number_end(s) <= j < s.len() ==>
            !(('0' <= #[trigger] s[j] && s[j] <= '9') || s[j] == '.'),
{
    lemma_number_end(s);
}

/// Splits a value such as `5.0e-16fs` after its last digit or decimal
/// point into the number and the unit suffix. A string without digits and
/// decimal points is all suffix.
pub fn split_num_suffix(s: String) -> (parts: (String, String))
    ensures
        parts.0@ == s@.subrange(0, number_end(s@)),
        parts.1@ == s@.subrange(number_end(s@), s@.len() as int),
        parts.0@ + parts.1@ == s@,
        parts.0@.len() > 0 ==> (('0' <= parts.0@.last() && parts.0@.last() <= '9') || parts.0@.last() == '.'),
        forall|j: int| 0 <= j < parts.1@.len() ==>
            !(('0' <= #[trigger] parts.1@[j] && parts.1@[j] <= '9') || parts.1@[j] == '.'),
{
    proof {
        lemma_number_end(s@);
    }
    let chars = chars_of(s.as_str());
    let mut end: usize = chars.len();
    assert(chars@.take(end as int) =~= s@);
    while end > 0 && !(('0' <= chars[end - 1] && chars[end - 1] <= '9') || chars[end - 1] == '.')
        invariant
            chars@ == s@,
            0 <= end <= chars.len(),
            number_end(s@) == number_end(chars@.take(end as int)),
        decreases end,
    {
        assert(chars@.take(end as int).drop_last() =~= chars@.take(end - 1));
        end -= 1;
    }
    proof {
        if end > 0 {
            assert(chars@.take(end as int).last() == chars@[end - 1]);
        }
        assert(number_end(s@) == end);
    }
    let len = chars.len();
    let left = s.as_str().substring_char(0, end).to_owned();
    let right = s.as_str().substring_char(end, len).to_owned();
    proof {
        assert(left@ + right@ =~= s@);
    }
    (left, right)
}

/// Unicode `White_Space`: the characters that `char::is_whitespace` accepts.
pub open spec fn is_unicode_whitespace(c: char) -> bool {
    let u = c as u32;
    ||| 0x09 <= u <= 0x0D
    ||| u == 0x20
    ||| u == 0x85
    ||| u == 0xA0
    ||| u == 0x1680
    ||| 0x2000 <= u <= 0x200A
    ||| u == 0x2028
    ||| u == 0x2029
    ||| u == 0x202F
    ||| u == 0x205F
    ||| u == 0x3000
}

/// Whether `c` is a Unicode whitespace character.
pub fn is_whitespace(c: char) -> (ws: bool)
    ensures
        ws == is_unicode_whitespace(c),
{
    let u = c as u32;
    (0x09 <= u && u <= 0x0D) || u == 0x20 || u == 0x85 || u == 0xA0 || u == 0x1680
        || (0x2000 <= u && u <= 0x200A) || u == 0x2028 || u == 0x2029 || u == 0x202F
        || u == 0x205F || u == 0x3000
}

/// `line` with every whitespace character removed.
pub open spec fn strip_whitespace(line: Seq<char>) -> Seq<char>
    decreases line.len(),
{
    if line.len() == 0 {
        line
    } else if is_unicode_whitespace(line.last()) {
        strip_whitespace(line.drop_last())
    } else {
        strip_whitespace(line.drop_last()).push(line.last())
    }
}

/// The lines of a text: the pieces between `'\n'` characters. A text
/// without a newline is one line; a trailing newline ends with an empty
/// line.
pub open spec fn split_lines(text: Seq<char>) -> Seq<Seq<char>>
    decreases text.len(),
{
    if text.len() == 0 {
        seq![Seq::empty()]
    } else {
        let before = split_lines(text.drop_last());
        if text.last() == '\n' {
            before.push(Seq::empty())
        } else {
            before.update(before.len() - 1, before.last().push(text.last()))
        }
    }
}

/// The position of the first `c` in `t`, if any.
pub open spec fn first_index_of(t: Seq<char>, c: char) -> Option<int>
    decreases t.len(),
{
    if t.len() == 0 {
        None
    } else if t[0] == c {
        Some(0)
    } else {
        match first_index_of(t.drop_first(), c) {
            Some(i) => Some(i + 1),
            None => None,
        }
    }
}

/// A position found by `first_index_of` is a position of `c` in `t`.
pub proof fn lemma_first_index_bound(t: Seq<char>, c: char)
    ensures
        match first_index_of(t, c) {
            Some(i) => 0 <= i < t.len() && t[i] == c,
            None => true,
        },
    decreases t.len(),
{
    if t.len() > 0 && t[0] != c {
        lemma_first_index_bound(t.drop_first(), c);
    }
}

/// The key and value of a line with its whitespace already removed: none
/// for a comment (a line that starts with `#`) or a line without `=`;
/// otherwise the text before the first `=` and the text after it.
pub open spec fn stripped_entry(t: Seq<char>) -> Option<(Seq<char>, Seq<char>)> {
    if t.len() > 0 && t[0] == '#' {
        None
    } else {
        match first_index_of(t, '=') {
            Some(i) => Some((t.subrange(0, i), t.subrange(i + 1, t.len() as int))),
            None => None,
        }
    }
}

/// The key and value that a line of the configuration file sets, if any.
pub open spec fn line_entry(line: Seq<char>) -> Option<(Seq<char>, Seq<char>)> {
    stripped_entry(strip_whitespace(line))
}

/// The entries of a sequence of lines, in order.
pub open spec fn lines_entries(lines: Seq<Seq<char>>) -> Seq<(Seq<char>, Seq<char>)>
    decreases lines.len(),
{
    if lines.len() == 0 {
        Seq::empty()
    } else {
        let before = lines_entries(lines.drop_last());
        match line_entry(lines.last()) {
            Some(e) => before.push(e),
            None => before,
        }
    }
}

/// Each line contributes its own entry, whatever earlier lines set: the
/// entries of two runs of lines are the entries of the first followed by
/// those of the second.
pub proof fn lemma_lines_entries_concat(a: Seq<Seq<char>>, b: Seq<Seq<char>>)
    ensures
        lines_entries(a + b) == lines_entries(a) + lines_entries(b),
    decreases b.len(),
{
    if b.len() == 0 {
        assert(a + b =~= a);
        assert(lines_entries(b) =~= Seq::<(Seq<char>, Seq<char>)>::empty());
        assert(lines_entries(a) + lines_entries(b) =~= lines_entries(a));
    } else {
        lemma_lines_entries_concat(a, b.drop_last());
        assert((a + b).drop_last() =~= a + b.drop_last());
        assert((a + b).last() == b.last());
        match line_entry(b.last()) {
            Some(e) => {
                assert(lines_entries(a) + lines_entries(b) =~= (lines_entries(a) + lines_entries(b.drop_last())).push(e));
            },
            None => {},
        }
    }
}

/// A single line sets exactly its own entry: the text before its first `=`
/// and the text after it, once whitespace is removed; or nothing for a
/// comment or a line without `=`.
pub proof fn lemma_lines_entries_single(line: Seq<char>)
    ensures
        lines_entries(seq![line]) == match line_entry(line) {
            Some(e) => seq![e],
            None => Seq::empty(),
        },
{
    assert(seq![line].drop_last() =~= Seq::<Seq<char>>::empty());
    assert(lines_entries(Seq::<Seq<char>>::empty()) =~= Seq::<(Seq<char>, Seq<char>)>::empty());
    assert(lines_entries(seq![line].drop_last()) =~= Seq::<(Seq<char>, Seq<char>)>::empty());
    assert(seq![line].last() == line);
    match line_entry(line) {
        Some(e) => {
            assert(Seq::<(Seq<char>, Seq<char>)>::empty().push(e) =~= seq![e]);
        },
        None => {},
    }
}

/// The entries are exactly one per setting line, in file order: there are
/// as many entries as lines that set something, and entry `k` is the entry
/// of the `k`-th such line, whatever keys earlier lines set.
pub proof fn lemma_lines_entries_count(lines: Seq<Seq<char>>)
    ensures
        lines_entries(lines).len() == setting_lines(lines).len(),
        forall|k: int| 0 <= k < setting_lines(lines).len() ==>
            line_entry(#[trigger] setting_lines(lines)[k]) == Some(lines_entries(lines)[k]),
    decreases lines.len(),
{
    if lines.len() > 0 {
        lemma_lines_entries_count(lines.drop_last());
        let before = setting_lines(lines.drop_last());
        match line_entry(lines.last()) {
            Some(e) => {
                assert forall|k: int| 0 <= k < setting_lines(lines).len() implies
                    line_entry(#[trigger] setting_lines(lines)[k]) == Some(lines_entries(lines)[k]) by {
                    if k < before.len() {
                        assert(setting_lines(lines)[k] == before[k]);
                    }
                }
            },
            None => {},
        }
    }
}

/// The lines that set an entry (neither comments nor lines without `=`),
/// in order.
pub open spec fn setting_lines(lines: Seq<Seq<char>>) -> Seq<Seq<char>>
    decreases lines.len(),
{
    if lines.len() == 0 {
        Seq::empty()
    } else if line_entry(lines.last()) is Some {
        setting_lines(lines.drop_last()).push(lines.last())
    } else {
        setting_lines(lines.drop_last())
    }
}

/// The `(key, value)` entries of a configuration text, in file order.
pub open spec fn config_entries_spec(text: Seq<char>) -> Seq<(Seq<char>, Seq<char>)> {
    lines_entries(split_lines(text))
}

/// Builds a `String` from `chars[from..to]` with `FromIterator<&char>`.
/// Trusted: the string holds exactly those characters, in order.
#[verifier::external_body]
fn string_from_chars(chars: &[char], from: usize, to: usize) -> (s: String)
    requires
        from <= to <= chars@.len(),
    ensures
        s@ == chars@.subrange(from as int, to as int),
{
    chars[from..to].iter().collect()
}

/// The first position of `c` in `t`.
fn find_char(t: &Vec<char>, c: char) -> (pos: Option<usize>)
    ensures
        match pos {
            Some(i) => first_index_of(t@, c) == Some(i as int),
            None => first_index_of(t@, c) is None,
        },
{
    let mut i: usize = 0;
    assert(t@.subrange(0, t@.len() as int) =~= t@);
    while i < t.len()
        invariant
            0 <= i <= t.len(),
            first_index_of(t@, c) == match first_index_of(t@.subrange(i as int, t@.len() as int), c) {
                Some(k) => Some(k + i),
                None => None,
            },
        decreases t.len() - i,
    {
        let ghost rest = t@.subrange(i as int, t@.len() as int);
        if t[i] == c {
            assert(rest[0] == c);
            return Some(i);
        }
        assert(rest.drop_first() =~= t@.subrange(i + 1, t@.len() as int));
        i += 1;
    }
    assert(t@.subrange(i as int, t@.len() as int).len() == 0);
    None
}

/// The entry of a whitespace-free line.
fn entry_of_stripped(t: &Vec<char>) -> (e: Option<(String, String)>)
    ensures
        match e {
            Some(kv) => stripped_entry(t@) == Some((kv.0@, kv.1@)),
            None => stripped_entry(t@) is None,
        },
{
    if t.len() > 0 && t[0] == '#' {
        return None;
    }
    match find_char(t, '=') {
        Some(i) => {
            proof {
                lemma_first_index_bound(t@, '=');
            }
            let key = string_from_chars(t.as_slice(), 0, i);
            let value = string_from_chars(t.as_slice(), i + 1, t.len());
            Some((key, value))
        },
        None => None,
    }
}

/// The views of a list of string pairs.
pub open spec fn pairs_view(v: Seq<(String, String)>) -> Seq<(Seq<char>, Seq<char>)> {
    Seq::new(v.len(), |k: int| (v[k].0@, v[k].1@))
}

/// The `(key, value)` entries that a configuration text sets, in file
/// order. Every line has its whitespace removed; a line that then starts
/// with `#` is a comment, and a line without `=` sets nothing; otherwise
/// the key is the text before the first `=` and the value the text after it.
pub fn config_entries(contents: &str) -> (entries: Vec<(String, String)>)
    ensures
        pairs_view(entries@) == config_entries_spec(contents@),
        entries@.len() == setting_lines(split_lines(contents@)).len(),
        forall|k: int| 0 <= k < entries@.len() ==>
            line_entry(#[trigger] setting_lines(split_lines(contents@))[k])
                == Some((entries@[k].0@, entries@[k].1@)),
{
    let chars = chars_of(contents);
    let mut entries: Vec<(String, String)> = Vec::new();
    let mut line: Vec<char> = Vec::new();
    let mut i: usize = 0;
    proof {
        assert(chars@.take(0) =~= Seq::<char>::empty());
        assert(pairs_view(entries@) =~= lines_entries(split_lines(chars@.take(0)).drop_last()));
        assert(line@ =~= strip_whitespace(split_lines(chars@.take(0)).last()));
    }
    while i < chars.len()
        invariant
            chars@ == contents@,
            0 <= i <= chars.len(),
            split_lines(chars@.take(i as int)).len() >= 1,
            pairs_view(entries@) == lines_entries(split_lines(chars@.take(i as int)).drop_last()),
            line@ == strip_whitespace(split_lines(chars@.take(i as int)).last()),
        decreases chars.len() - i,
    {
        let c = chars[i];
        let ghost before = split_lines(chars@.take(i as int));
        proof {
            assert(chars@.take(i + 1).drop_last() =~= chars@.take(i as int));
            assert(chars@.take(i + 1).last() == c);
        }
        if c == '\n' {
            let ghost old_entries = entries@;
            match entry_of_stripped(&line) {
                Some(kv) => {
                    entries.push(kv);
                },
                None => {},
            }
            line = Vec::new();
            proof {
                let after = split_lines(chars@.take(i + 1));
                assert(after == before.push(Seq::empty()));
                assert(after.drop_last() =~= before);
                assert(before =~= before.drop_last().push(before.last()));
                assert(pairs_view(entries@) =~= lines_entries(before));
                assert(line@ =~= strip_whitespace(after.last()));
            }
        } else {
            let ws = is_whitespace(c);
            if !ws {
                line.push(c);
            }
            proof {
                let after = split_lines(chars@.take(i + 1));
                let last = before.last().push(c);
                assert(after == before.update(before.len() - 1, last));
                assert(after.drop_last() =~= before.drop_last());
                assert(last.drop_last() =~= before.last());
                assert(line@ =~= strip_whitespace(last));
            }
        }
        i += 1;
    }
    proof {
        assert(chars@.take(chars.len() as int) =~= contents@);
    }
    let ghost lines = split_lines(contents@);
    match entry_of_stripped(&line) {
        Some(kv) => {
            entries.push(kv);
        },
        None => {},
    }
    proof {
        assert(lines =~= lines.drop_last().push(lines.last()));
        assert(pairs_view(entries@) =~= lines_entries(lines));
        lemma_lines_entries_count(lines);
        assert forall|k: int| 0 <= k < entries@.len() implies
            line_entry(#[trigger] setting_lines(lines)[k]) == Some((entries@[k].0@, entries@[k].1@)) by {
            assert(pairs_view(entries@)[k] == (entries@[k].0@, entries@[k].1@));
        }
    }
    entries
}

} // verus!
