//! Text as sequences of characters: splitting, trimming and the reading and
//! writing of decimal numbers, as the file formats of a term need them.

use vstd::prelude::*;
use vstd::string::{StrSliceExecFns, StringExecFns};

verus! {

/// The texts of a list of strings.
pub open spec fn texts(list: Seq<String>) -> Seq<Seq<char>> {
    Seq::new(list.len(), |i: int| list[i]@)
}

/// The characters of a string.
pub fn chars_of(s: &str) -> (chars: Vec<char>)
    ensures
        chars@ == s@,
{
    broadcast use vstd::string::group_string_axioms;

    let mut chars: Vec<char> = Vec::new();
    for c in it: s.chars()
        invariant
            it.seq() == s@,
            chars@ == it.seq().take(it.index()),
    {
        chars.push(c);
    }
    chars
}

/// The part of a string from character `from` up to character `to`.
pub fn slice_of(s: &str, from: usize, to: usize) -> (r: String)
    requires
        from <= to <= s@.len(),
    ensures
        r@ == s@.subrange(from as int, to as int),
{
    s.substring_char(from, to).to_owned()
}

/// Whether a character is white space, as Unicode defines it.
pub open spec fn is_space(c: char) -> bool {
    let code = c as u32;
    ||| 0x09 <= code <= 0x0d
    ||| code == 0x20
    ||| code == 0x85
    ||| code == 0xa0
    ||| code == 0x1680
    ||| 0x2000 <= code <= 0x200a
    ||| code == 0x2028
    ||| code == 0x2029
    ||| code == 0x202f
    ||| code == 0x205f
    ||| code == 0x3000
}

pub fn is_whitespace(c: char) -> (r: bool)
    ensures
        r == is_space(c),
{
    let code: u32 = c as u32;
    (0x09 <= code && code <= 0x0d) || code == 0x20 || code == 0x85 || code == 0xa0 || code
        == 0x1680 || (0x2000 <= code && code <= 0x200a) || code == 0x2028 || code == 0x2029
        || code == 0x202f || code == 0x205f || code == 0x3000
}

/// The fields of a text that `sep` separates: one more than there are
/// separators, each free of them, some perhaps empty. Read from the end: a
/// separator opens a new empty field, any other character joins the last
/// field.
pub open spec fn split(s: Seq<char>, sep: char) -> Seq<Seq<char>>
    decreases s.len(),
{
    if s.len() == 0 {
        seq![Seq::empty()]
    } else {
        let before = split(s.drop_last(), sep);
        if s.last() == sep {
            before.push(Seq::empty())
        } else {
            before.update(before.len() - 1, before.last().push(s.last()))
        }
    }
}

/// A text always has at least one field.
pub proof fn lemma_split_nonempty(s: Seq<char>, sep: char)
    ensures
        split(s, sep).len() >= 1,
    decreases s.len(),
{
    if s.len() > 0 {
        lemma_split_nonempty(s.drop_last(), sep);
    }
}

/// The fields of a list put together again, with `sep` between them.
pub open spec fn joined(fields: Seq<Seq<char>>, sep: char) -> Seq<char>
    decreases fields.len(),
{
    if fields.len() == 0 {
        Seq::empty()
    } else if fields.len() == 1 {
        fields[0]
    } else {
        joined(fields.drop_last(), sep).push(sep) + fields.last()
    }
}

/// No field of a text holds the separator.
pub proof fn lemma_split_fields_free(s: Seq<char>, sep: char)
    ensures
        forall|i: int| 0 <= i < split(s, sep).len() ==> !(#[trigger] split(s, sep)[i]).contains(sep),
    decreases s.len(),
{
    if s.len() > 0 {
        lemma_split_fields_free(s.drop_last(), sep);
        lemma_split_nonempty(s.drop_last(), sep);
        let before = split(s.drop_last(), sep);
        let all = split(s, sep);
        assert forall|i: int| 0 <= i < all.len() implies !(#[trigger] all[i]).contains(sep) by {
            if i < before.len() {
                assert(!before[i].contains(sep));
                if all[i].contains(sep) {
                    let k = choose|k: int| 0 <= k < all[i].len() && all[i][k] == sep;
                    if k < before[i].len() {
                        assert(before[i][k] == sep);
                    }
                }
            }
        }
    }
}

/// The fields of a text, put together again with the separator between
/// them, give the text back.
pub proof fn lemma_split_joins(s: Seq<char>, sep: char)
    ensures
        joined(split(s, sep), sep) == s,
    decreases s.len(),
{
    if s.len() == 0 {
        assert(joined(split(s, sep), sep) =~= s);
    } else {
        lemma_split_joins(s.drop_last(), sep);
        lemma_split_nonempty(s.drop_last(), sep);
        let before = split(s.drop_last(), sep);
        let all = split(s, sep);
        if s.last() == sep {
            assert(all.drop_last() =~= before);
            assert(joined(all, sep) =~= s.drop_last().push(sep));
        } else if before.len() == 1 {
            assert(joined(all, sep) =~= s.drop_last().push(s.last()));
        } else {
            assert(all.drop_last() =~= before.drop_last());
            assert(joined(all, sep) =~= joined(before, sep).push(s.last()));
        }
        assert(s.drop_last().push(s.last()) =~= s);
    }
}

/// Splits a text at every `sep`.
pub fn split_text(s: &str, sep: char) -> (fields: Vec<String>)
    ensures
        texts(fields@) == split(s@, sep),
{
    let chars = chars_of(s);
    let mut fields: Vec<String> = Vec::new();
    let mut start: usize = 0;
    let mut i: usize = 0;
    assert(s@.subrange(0, 0) =~= Seq::<char>::empty());
    assert(s@.take(0) =~= Seq::<char>::empty());
    assert(split(s@.take(0), sep) =~= texts(fields@).push(s@.subrange(0, 0)));
    while i < chars.len()
        invariant
            chars@ == s@,
            start <= i <= chars@.len(),
            split(s@.take(i as int), sep) == texts(fields@).push(s@.subrange(start as int, i as int)),
        decreases chars@.len() - i,
    {
        let ghost done = texts(fields@);
        let ghost prefix = s@.take(i + 1);
        assert(prefix.drop_last() =~= s@.take(i as int));
        assert(prefix.last() == s@[i as int]);
        if chars[i] == sep {
            fields.push(slice_of(s, start, i));
            assert(texts(fields@) =~= done.push(s@.subrange(start as int, i as int)));
            start = i + 1;
            assert(s@.subrange(start as int, i + 1) =~= Seq::<char>::empty());
        } else {
            assert(s@.subrange(start as int, i + 1) =~= s@.subrange(start as int, i as int).push(
                s@[i as int],
            ));
            assert(split(prefix, sep) =~= done.push(s@.subrange(start as int, i + 1)));
        }
        i += 1;
    }
    let ghost done = texts(fields@);
    fields.push(slice_of(s, start, i));
    assert(texts(fields@) =~= done.push(s@.subrange(start as int, i as int)));
    assert(s@.take(i as int) =~= s@);
    fields
}

/// A line without the carriage return that may end it.
pub open spec fn strip_cr(line: Seq<char>) -> Seq<char> {
    if line.len() > 0 && line.last() == '\r' {
        line.drop_last()
    } else {
        line
    }
}

/// The lines of a text. A line ends at a line feed, or at a carriage return
/// followed by one; the last line need not be ended, and what follows the
/// last line feed is a line only if it is not empty.
pub open spec fn lines(s: Seq<char>) -> Seq<Seq<char>> {
    let parts = split(s, '\n');
    let ended = Seq::new((parts.len() - 1) as nat, |i: int| strip_cr(parts[i]));
    if parts.last().len() == 0 {
        ended
    } else {
        ended.push(parts.last())
    }
}

/// The lines of a text.
pub fn lines_of(s: &str) -> (r: Vec<String>)
    ensures
        texts(r@) == lines(s@),
{
    let parts = split_text(s, '\n');
    proof {
        lemma_split_nonempty(s@, '\n');
    }
    let ghost wanted = split(s@, '\n');
    let mut list: Vec<String> = Vec::new();
    let count: usize = parts.len();
    let mut i: usize = 0;
    while i + 1 < count
        invariant
            texts(parts@) == wanted,
            wanted.len() >= 1,
            count == parts@.len(),
            i + 1 <= count,
            list@.len() == i,
            forall|k: int| 0 <= k < i ==> (#[trigger] list@[k])@ == strip_cr(wanted[k]),
        decreases count - i,
    {
        let part = parts[i].as_str();
        assert(part@ == wanted[i as int]);
        let chars = chars_of(part);
        let n: usize = chars.len();
        if n > 0 && chars[n - 1] == '\r' {
            list.push(slice_of(part, 0, n - 1));
            assert(part@.subrange(0, n - 1) =~= part@.drop_last());
        } else {
            list.push(slice_of(part, 0, n));
            assert(part@.subrange(0, n as int) =~= part@);
        }
        i += 1;
    }
    let last = parts[i].as_str();
    assert(last@ == wanted[i as int]);
    let ghost ended = Seq::new((wanted.len() - 1) as nat, |k: int| strip_cr(wanted[k]));
    assert(texts(list@) =~= ended);
    if last.unicode_len() > 0 {
        let ghost before = texts(list@);
        list.push(last.to_owned());
        assert(texts(list@) =~= before.push(last@));
    }
    list
}

/// A text without the white space that leads it.
pub open spec fn trim_start(s: Seq<char>) -> Seq<char>
    decreases s.len(),
{
    if s.len() > 0 && is_space(s[0]) {
        trim_start(s.drop_first())
    } else {
        s
    }
}

/// A text without the white space that ends it.
pub open spec fn trim_end(s: Seq<char>) -> Seq<char>
    decreases s.len(),
{
    if s.len() > 0 && is_space(s.last()) {
        trim_end(s.drop_last())
    } else {
        s
    }
}

/// A text without the white space around it.
pub open spec fn trim(s: Seq<char>) -> Seq<char> {
    trim_end(trim_start(s))
}

/// Leading white space up to position `n` is what `trim_start` removes.
pub proof fn lemma_trim_start(s: Seq<char>, n: int)
    requires
        0 <= n <= s.len(),
        forall|k: int| 0 <= k < n ==> is_space(#[trigger] s[k]),
        n == s.len() || !is_space(s[n]),
    ensures
        trim_start(s) == s.subrange(n, s.len() as int),
    decreases n,
{
    if n > 0 {
        let rest = s.drop_first();
        assert forall|k: int| 0 <= k < n - 1 implies is_space(#[trigger] rest[k]) by {
            assert(rest[k] == s[k + 1]);
        }
        lemma_trim_start(rest, n - 1);
        assert(rest.subrange(n - 1, rest.len() as int) =~= s.subrange(n, s.len() as int));
    } else {
        assert(s.subrange(0, s.len() as int) =~= s);
    }
}

/// Trailing white space from position `n` on is what `trim_end` removes.
pub proof fn lemma_trim_end(s: Seq<char>, n: int)
    requires
        0 <= n <= s.len(),
        forall|k: int| n <= k < s.len() ==> is_space(#[trigger] s[k]),
        n == 0 || !is_space(s[n - 1]),
    ensures
        trim_end(s) == s.take(n),
    decreases s.len() - n,
{
    if n < s.len() {
        let rest = s.drop_last();
        assert forall|k: int| n <= k < rest.len() implies is_space(#[trigger] rest[k]) by {
            assert(rest[k] == s[k]);
        }
        lemma_trim_end(rest, n);
        assert(rest.take(n) =~= s.take(n));
    } else {
        assert(s.take(n) =~= s);
    }
}

/// A text without the white space around it.
pub fn trimmed(s: &str) -> (r: String)
    ensures
        r@ == trim(s@),
{
    let chars = chars_of(s);
    let mut from: usize = 0;
    while from < chars.len() && is_whitespace(chars[from])
        invariant
            from <= chars@.len(),
            forall|k: int| 0 <= k < from ==> is_space(#[trigger] chars@[k]),
        decreases chars@.len() - from,
    {
        from += 1;
    }
    let mut to: usize = chars.len();
    while to > from && is_whitespace(chars[to - 1])
        invariant
            from <= to <= chars@.len(),
            forall|k: int| to <= k < chars@.len() ==> is_space(#[trigger] chars@[k]),
        decreases to,
    {
        to -= 1;
    }
    proof {
        lemma_trim_start(s@, from as int);
        let rest = s@.subrange(from as int, s@.len() as int);
        assert forall|k: int| to - from <= k < rest.len() implies is_space(#[trigger] rest[k]) by {
            assert(rest[k] == s@[k + from]);
        }
        if to > from {
            assert(rest[to - from - 1] == s@[to - 1]);
        }
        lemma_trim_end(rest, to - from);
        assert(rest.take(to - from) =~= s@.subrange(from as int, to as int));
    }
    slice_of(s, from, to)
}

/// The words of a text: its longest stretches without white space. Read
/// from the end: white space adds nothing, a character after another joins
/// the last word, a character after white space opens a word.
pub open spec fn words(s: Seq<char>) -> Seq<Seq<char>>
    decreases s.len(),
{
    if s.len() == 0 {
        Seq::empty()
    } else {
        let before = words(s.drop_last());
        if is_space(s.last()) {
            before
        } else if s.len() >= 2 && !is_space(s[s.len() - 2]) {
            before.update(before.len() - 1, before.last().push(s.last()))
        } else {
            before.push(seq![s.last()])
        }
    }
}

/// Every word of a text has a character, and none that is white space.
pub proof fn lemma_words_solid(s: Seq<char>)
    ensures
        forall|i: int|
            0 <= i < words(s).len() ==> (#[trigger] words(s)[i]).len() > 0 && forall|k: int|
                0 <= k < words(s)[i].len() ==> !is_space(#[trigger] words(s)[i][k]),
        s.len() > 0 && !is_space(s.last()) ==> words(s).len() > 0,
    decreases s.len(),
{
    if s.len() > 0 {
        lemma_words_solid(s.drop_last());
        let before = words(s.drop_last());
        let all = words(s);
        if s.len() >= 2 {
            assert(s.drop_last().last() == s[s.len() - 2]);
        }
        assert forall|i: int| 0 <= i < all.len() implies (#[trigger] all[i]).len() > 0 && forall|
            k: int,
        |
            0 <= k < all[i].len() ==> !is_space(#[trigger] all[i][k]) by {
            if i < before.len() {
                assert(before[i].len() > 0);
                assert forall|k: int| 0 <= k < all[i].len() implies !is_space(
                    #[trigger] all[i][k],
                ) by {
                    if k < before[i].len() {
                        assert(!is_space(before[i][k]));
                    }
                }
            }
        }
    }
}

/// The words of a text.
pub fn words_of(s: &str) -> (list: Vec<String>)
    ensures
        texts(list@) == words(s@),
{
    let chars = chars_of(s);
    let mut list: Vec<String> = Vec::new();
    let mut start: usize = 0;
    let mut i: usize = 0;
    assert(words(s@.take(0)) =~= texts(list@));
    while i < chars.len()
        invariant
            chars@ == s@,
            start <= i <= chars@.len(),
            i > 0 && !is_space(s@[i - 1]) ==> start < i && words(s@.take(i as int)) == texts(
                list@,
            ).push(s@.subrange(start as int, i as int)),
            i == 0 || is_space(s@[i - 1]) ==> words(s@.take(i as int)) == texts(list@),
        decreases chars@.len() - i,
    {
        let ghost done = texts(list@);
        let ghost prefix = s@.take(i + 1);
        assert(prefix.drop_last() =~= s@.take(i as int));
        assert(prefix.last() == s@[i as int]);
        if i > 0 {
            assert(prefix[prefix.len() - 2] == s@[i - 1]);
        }
        let inside: bool = i > 0 && !is_whitespace(chars[i - 1]);
        if is_whitespace(chars[i]) {
            if inside {
                list.push(slice_of(s, start, i));
                assert(texts(list@) =~= done.push(s@.subrange(start as int, i as int)));
            }
        } else {
            if inside {
                assert(s@.subrange(start as int, i + 1) =~= s@.subrange(
                    start as int,
                    i as int,
                ).push(s@[i as int]));
                assert(words(prefix) =~= done.push(s@.subrange(start as int, i + 1)));
            } else {
                start = i;
                assert(s@.subrange(start as int, i + 1) =~= seq![s@[i as int]]);
            }
        }
        i += 1;
    }
    assert(s@.take(i as int) =~= s@);
    if i > 0 && !is_whitespace(chars[i - 1]) {
        let ghost done = texts(list@);
        list.push(slice_of(s, start, i));
        assert(texts(list@) =~= done.push(s@.subrange(start as int, i as int)));
    }
    list
}

/// The position of the first `c` in a text, or the length of the text if
/// there is none.
pub open spec fn first_at(s: Seq<char>, c: char) -> int
    decreases s.len(),
{
    if s.len() == 0 || s[0] == c {
        0
    } else {
        1 + first_at(s.drop_first(), c)
    }
}

/// Where a text has no `c` before position `n` and has one there, or ends
/// there, `n` is the position of the first.
pub proof fn lemma_first_at(s: Seq<char>, c: char, n: int)
    requires
        0 <= n <= s.len(),
        forall|k: int| 0 <= k < n ==> #[trigger] s[k] != c,
        n == s.len() || s[n] == c,
    ensures
        first_at(s, c) == n,
    decreases n,
{
    if n > 0 {
        let rest = s.drop_first();
        assert forall|k: int| 0 <= k < n - 1 implies #[trigger] rest[k] != c by {
            assert(rest[k] == s[k + 1]);
        }
        lemma_first_at(rest, c, n - 1);
    }
}

/// The position, counted in characters, of the first `c`, or the length of
/// the text if there is none.
pub fn find_first(chars: &Vec<char>, c: char) -> (n: usize)
    ensures
        n == first_at(chars@, c),
        n <= chars@.len(),
{
    let mut n: usize = 0;
    while n < chars.len() && chars[n] != c
        invariant
            n <= chars@.len(),
            forall|k: int| 0 <= k < n ==> #[trigger] chars@[k] != c,
        decreases chars@.len() - n,
    {
        n += 1;
    }
    proof {
        lemma_first_at(chars@, c, n as int);
    }
    n
}

/// Whether a text ends with `suffix`.
pub open spec fn ends_with(s: Seq<char>, suffix: Seq<char>) -> bool {
    s.len() >= suffix.len() && s.subrange(s.len() - suffix.len(), s.len() as int) == suffix
}

/// Whether a text starts with `prefix`.
pub open spec fn starts_with(s: Seq<char>, prefix: Seq<char>) -> bool {
    s.len() >= prefix.len() && s.take(prefix.len() as int) == prefix
}

/// Whether `part` stands in `chars` from position `at` on.
fn matches_at(chars: &Vec<char>, at: usize, part: &Vec<char>) -> (r: bool)
    requires
        at + part@.len() <= chars@.len(),
    ensures
        r == (chars@.subrange(at as int, at + part@.len()) == part@),
{
    let total: usize = chars.len();
    let mut i: usize = 0;
    while i < part.len()
        invariant
            total == chars@.len(),
            at + part@.len() <= chars@.len(),
            i <= part@.len(),
            forall|k: int| 0 <= k < i ==> chars@[at + k] == #[trigger] part@[k],
        decreases part@.len() - i,
    {
        if chars[at + i] != part[i] {
            assert(chars@.subrange(at as int, at + part@.len())[i as int] != part@[i as int]);
            return false;
        }
        i += 1;
    }
    assert(chars@.subrange(at as int, at + part@.len()) =~= part@);
    true
}

/// The text without `suffix` at its end, if it ends with it.
pub fn strip_suffix(s: &str, suffix: &str) -> (r: Option<String>)
    ensures
        r is Some <==> ends_with(s@, suffix@),
        r matches Some(rest) ==> rest@ == s@.take(s@.len() - suffix@.len()),
{
    let chars = chars_of(s);
    let end = chars_of(suffix);
    if chars.len() < end.len() {
        return None;
    }
    let rest: usize = chars.len() - end.len();
    if matches_at(&chars, rest, &end) {
        let kept = slice_of(s, 0, rest);
        assert(s@.subrange(0, rest as int) =~= s@.take(rest as int));
        Some(kept)
    } else {
        None
    }
}

/// The text without `prefix` at its start, if it starts with it.
pub fn strip_prefix(s: &str, prefix: &str) -> (r: Option<String>)
    ensures
        r is Some <==> starts_with(s@, prefix@),
        r matches Some(rest) ==> rest@ == s@.skip(prefix@.len() as int),
{
    let chars = chars_of(s);
    let start = chars_of(prefix);
    if chars.len() < start.len() {
        return None;
    }
    assert(chars@.subrange(0, start@.len() as int) =~= s@.take(start@.len() as int));
    if matches_at(&chars, 0, &start) {
        let kept = slice_of(s, start.len(), chars.len());
        assert(s@.subrange(start@.len() as int, s@.len() as int) =~= s@.skip(start@.len() as int));
        Some(kept)
    } else {
        None
    }
}

/// Whether a character is one of the ten digits.
pub open spec fn is_digit(c: char) -> bool {
    0x30 <= c as u32 <= 0x39
}

/// The digit that stands for `d`.
pub open spec fn digit_char(d: int) -> char {
    (d + 0x30) as char
}

/// The number that a text of digits writes in base ten, if it is one.
pub open spec fn decimal(s: Seq<char>) -> Option<int>
    decreases s.len(),
{
    if s.len() == 0 || !is_digit(s.last()) {
        None
    } else if s.len() == 1 {
        Some(s.last() as u32 - 0x30)
    } else {
        match decimal(s.drop_last()) {
            Some(tens) => Some(10 * tens + (s.last() as u32 - 0x30)),
            None => None,
        }
    }
}

/// The number that a text writes, with or without a plus sign.
pub open spec fn unsigned_number(s: Seq<char>) -> Option<int> {
    if s.len() > 0 && s[0] == '+' {
        decimal(s.drop_first())
    } else {
        decimal(s)
    }
}

/// The number that a text writes, with or without a sign.
pub open spec fn signed_number(s: Seq<char>) -> Option<int> {
    if s.len() > 0 && s[0] == '-' {
        match decimal(s.drop_first()) {
            Some(n) => Some(-n),
            None => None,
        }
    } else {
        unsigned_number(s)
    }
}

/// The number that a text writes, if it fits in 8 bits.
pub open spec fn number_u8(s: Seq<char>) -> Option<u8> {
    match unsigned_number(s) {
        Some(n) => if n <= u8::MAX {
            Some(n as u8)
        } else {
            None
        },
        None => None,
    }
}

/// The number that a text writes, if it fits in 16 bits.
pub open spec fn number_u16(s: Seq<char>) -> Option<u16> {
    match unsigned_number(s) {
        Some(n) => if n <= u16::MAX {
            Some(n as u16)
        } else {
            None
        },
        None => None,
    }
}

/// The number that a text writes, if it fits in 32 bits with a sign.
pub open spec fn number_i32(s: Seq<char>) -> Option<i32> {
    match signed_number(s) {
        Some(n) => if i32::MIN <= n <= i32::MAX {
            Some(n as i32)
        } else {
            None
        },
        None => None,
    }
}

/// The start of a number is a number, and not a larger one.
pub proof fn lemma_decimal_prefix(s: Seq<char>, n: int)
    requires
        0 < n <= s.len(),
        decimal(s) is Some,
    ensures
        decimal(s.take(n)) is Some,
        0 <= decimal(s.take(n))->Some_0 <= decimal(s)->Some_0,
    decreases s.len() - n,
{
    if n == s.len() {
        assert(s.take(n) =~= s);
        lemma_decimal_prefix_base(s);
    } else {
        lemma_decimal_prefix(s.drop_last(), n);
        assert(s.drop_last().take(n) =~= s.take(n));
    }
}

/// A number written in digits is not negative.
pub proof fn lemma_decimal_prefix_base(s: Seq<char>)
    requires
        decimal(s) is Some,
    ensures
        0 <= decimal(s)->Some_0,
    decreases s.len(),
{
    if s.len() > 1 {
        lemma_decimal_prefix_base(s.drop_last());
    }
}

/// Reads the digits of `chars` from position `from` to the end as a number
/// of at most `limit`.
pub fn read_decimal(chars: &Vec<char>, from: usize, limit: u64) -> (r: Option<u64>)
    requires
        from <= chars@.len(),
        limit <= 0xffff_ffff_ffff,
    ensures
        r is Some <==> decimal(chars@.skip(from as int)) is Some && decimal(
            chars@.skip(from as int),
        )->Some_0 <= limit,
        r matches Some(n) ==> n == decimal(chars@.skip(from as int))->Some_0,
{
    let ghost digits = chars@.skip(from as int);
    let total: usize = chars.len();
    proof {
        if decimal(digits) is Some {
            lemma_decimal_prefix_base(digits);
        }
    }
    if from == total {
        return None;
    }
    let mut value: u64 = 0;
    let mut i: usize = from;
    while i < total
        invariant
            total == chars@.len(),
            digits == chars@.skip(from as int),
            from <= i <= total,
            limit <= 0xffff_ffff_ffff,
            value <= limit,
            i > from ==> decimal(digits.take(i - from)) == Some(value as int),
            i == from ==> value == 0,
        decreases total - i,
    {
        let code: u32 = chars[i] as u32;
        let ghost prefix = digits.take(i - from + 1);
        assert(prefix.last() == chars@[i as int]);
        assert(prefix.drop_last() =~= digits.take(i - from));
        if code < 0x30 || code > 0x39 {
            proof {
                if decimal(digits) is Some {
                    lemma_decimal_prefix(digits, i - from + 1);
                }
            }
            return None;
        }
        let digit: u64 = (code - 0x30) as u64;
        let next: u64 = 10 * value + digit;
        assert(decimal(prefix) == Some(next as int));
        if next > limit {
            proof {
                if decimal(digits) is Some {
                    lemma_decimal_prefix(digits, i - from + 1);
                }
            }
            return None;
        }
        value = next;
        i += 1;
    }
    assert(digits.take(total - from) =~= digits);
    Some(value)
}

/// Reads the number that `chars` write, with or without a plus sign, if it is
/// at most `limit`.
fn read_unsigned(chars: &Vec<char>, limit: u64) -> (r: Option<u64>)
    requires
        limit <= 0xffff_ffff_ffff,
    ensures
        r is Some <==> unsigned_number(chars@) is Some && unsigned_number(chars@)->Some_0 <= limit,
        r matches Some(n) ==> n == unsigned_number(chars@)->Some_0,
{
    if chars.len() > 0 && chars[0] == '+' {
        assert(chars@.skip(1) =~= chars@.drop_first());
        read_decimal(chars, 1, limit)
    } else {
        assert(chars@.skip(0) =~= chars@);
        read_decimal(chars, 0, limit)
    }
}

/// Reads a number of 8 bits.
pub fn parse_u8(s: &str) -> (r: Option<u8>)
    ensures
        r == number_u8(s@),
{
    let chars = chars_of(s);
    match read_unsigned(&chars, 0xff) {
        Some(n) => Some(n as u8),
        None => None,
    }
}

/// Reads a number of 16 bits.
pub fn parse_u16(s: &str) -> (r: Option<u16>)
    ensures
        r == number_u16(s@),
{
    let chars = chars_of(s);
    match read_unsigned(&chars, 0xffff) {
        Some(n) => Some(n as u16),
        None => None,
    }
}

/// Reads a number of 32 bits with a sign.
pub fn parse_i32(s: &str) -> (r: Option<i32>)
    ensures
        r == number_i32(s@),
{
    let chars = chars_of(s);
    if chars.len() > 0 && chars[0] == '-' {
        assert(chars@.skip(1) =~= chars@.drop_first());
        proof {
            if decimal(chars@.drop_first()) is Some {
                lemma_decimal_prefix_base(chars@.drop_first());
            }
        }
        match read_decimal(&chars, 1, 0x8000_0000) {
            Some(n) => {
                let value: i64 = -(n as i64);
                Some(value as i32)
            },
            None => None,
        }
    } else {
        proof {
            if unsigned_number(chars@) is Some {
                if chars@.len() > 0 && chars@[0] == '+' {
                    lemma_decimal_prefix_base(chars@.drop_first());
                } else {
                    lemma_decimal_prefix_base(chars@);
                }
            }
        }
        match read_unsigned(&chars, 0x7fff_ffff) {
            Some(n) => Some(n as i32),
            None => None,
        }
    }
}

/// A number written in base ten, without leading zeros.
pub open spec fn decimal_text(n: nat) -> Seq<char>
    decreases n,
{
    if n < 10 {
        seq![digit_char(n as int)]
    } else {
        decimal_text(n / 10).push(digit_char((n % 10) as int))
    }
}

/// One digit as a text.
fn digit_text(d: u8) -> (r: &'static str)
    requires
        d < 10,
    ensures
        r@ == seq![digit_char(d as int)],
{
    proof {
        reveal_strlit("0");
        reveal_strlit("1");
        reveal_strlit("2");
        reveal_strlit("3");
        reveal_strlit("4");
        reveal_strlit("5");
        reveal_strlit("6");
        reveal_strlit("7");
        reveal_strlit("8");
        reveal_strlit("9");
    }
    let r = if d == 0 {
        "0"
    } else if d == 1 {
        "1"
    } else if d == 2 {
        "2"
    } else if d == 3 {
        "3"
    } else if d == 4 {
        "4"
    } else if d == 5 {
        "5"
    } else if d == 6 {
        "6"
    } else if d == 7 {
        "7"
    } else if d == 8 {
        "8"
    } else {
        "9"
    };
    assert(r@ =~= seq![digit_char(d as int)]);
    r
}

/// Writes a number in base ten.
pub fn u8_text(n: u8) -> (r: String)
    ensures
        r@ == decimal_text(n as nat),
{
    reveal_with_fuel(decimal_text, 3);
    let mut text = String::new();
    if n >= 100 {
        text.append(digit_text(n / 100));
    }
    if n >= 10 {
        text.append(digit_text((n / 10) % 10));
    }
    text.append(digit_text(n % 10));
    assert(text@ =~= decimal_text(n as nat));
    text
}

} // verus!
