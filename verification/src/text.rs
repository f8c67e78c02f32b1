//! Text as sequences of characters: the few string operations the
//! planner needs, each stated over `Seq<char>`.

use vstd::prelude::*;

use crate::seqs::first_where;
use crate::seqs::lemma_first_where;

verus! {

// ---------------------------------------------------------------------
// Trusted standard-library items
// ---------------------------------------------------------------------
/// `String::push` appends one character at the end of the string.
pub assume_specification[ String::push ](s: &mut String, c: char)
    ensures
        final(s)@ == old(s)@.push(c),
;

/// `str::to_ascii_lowercase` maps the letters `A` to `Z` to `a` to `z`
/// and leaves every other character as it is.
pub assume_specification[ str::to_ascii_lowercase ](s: &str) -> (r: String)
    ensures
        r@ == lower(s@),
;

/// What the `{:?}` formatting of a text is: the text between double
/// quotes, with the characters that need it escaped.
pub uninterp spec fn debug_quoted(text: Seq<char>) -> Seq<char>;

/// `format!("{:?}")` of a `str`: the quoted and escaped text. Which
/// characters are escaped, and how, is not spelled out.
#[verifier::external_body]
pub(crate) fn quoted(text: &str) -> (r: String)
    ensures
        r@ == debug_quoted(text@),
{
    format!("{text:?}")
}

// ---------------------------------------------------------------------
// Characters
// ---------------------------------------------------------------------
/// The ASCII lower case of one character.
pub open spec fn lower_char(c: char) -> char {
    if 'A' <= c <= 'Z' {
        ((c as u32) + 32) as char
    } else {
        c
    }
}

/// The ASCII lower case of a text.
pub open spec fn lower(text: Seq<char>) -> Seq<char> {
    text.map_values(|c: char| lower_char(c))
}

/// Whether `c` has the Unicode `White_Space` property.
pub open spec fn white(c: char) -> bool {
    let n = c as u32;
    ||| 0x9 <= n <= 0xD
    ||| n == 0x20
    ||| n == 0x85
    ||| n == 0xA0
    ||| n == 0x1680
    ||| 0x2000 <= n <= 0x200A
    ||| n == 0x2028
    ||| n == 0x2029
    ||| n == 0x202F
    ||| n == 0x205F
    ||| n == 0x3000
}

/// Whether a character is white space.
pub fn is_white(c: char) -> (r: bool)
    ensures
        r == white(c),
{
    let n: u32 = c as u32;
    (0x9 <= n && n <= 0xD) || n == 0x20 || n == 0x85 || n == 0xA0 || n == 0x1680 || (0x2000 <= n
        && n <= 0x200A) || n == 0x2028 || n == 0x2029 || n == 0x202F || n == 0x205F || n == 0x3000
}

/// The number of a character.
pub fn code_point(c: char) -> (r: u32)
    ensures
        r as int == c as int,
{
    c as u32
}

// ---------------------------------------------------------------------
// Between strings and vectors of characters
// ---------------------------------------------------------------------
/// The characters of a text, in order.
pub fn chars_of(text: &str) -> (r: Vec<char>)
    ensures
        r@ == text@,
{
    let mut out: Vec<char> = Vec::new();
    for c in iter: text.chars()
        invariant
            iter.seq() == text@,
            out@ == text@.take(iter.index() as int),
    {
        proof {
            assert(text@.take(iter.index() as int + 1) =~= text@.take(iter.index() as int).push(
                text@[iter.index() as int],
            ));
        }
        out.push(c);
    }
    proof {
        assert(text@.take(text@.len() as int) =~= text@);
    }
    out
}

/// The text made of the characters `chars[from..to]`.
pub fn text_of(chars: &Vec<char>, from: usize, to: usize) -> (r: String)
    requires
        from <= to <= chars@.len(),
    ensures
        r@ == chars@.subrange(from as int, to as int),
{
    let mut out = String::new();
    let mut i: usize = from;
    while i < to
        invariant
            from <= i <= to <= chars@.len(),
            out@ == chars@.subrange(from as int, i as int),
        decreases to - i,
    {
        out.push(chars[i]);
        i = i + 1;
        proof {
            assert(chars@.subrange(from as int, i as int) =~= chars@.subrange(
                from as int,
                i - 1,
            ).push(chars@[i - 1]));
        }
    }
    out
}

// ---------------------------------------------------------------------
// Searching and comparing
// ---------------------------------------------------------------------
/// `needle` stands in `text` at position `at`.
pub open spec fn stands_at(text: Seq<char>, needle: Seq<char>, at: int) -> bool {
    0 <= at && at + needle.len() <= text.len() && text.subrange(at, at + needle.len()) == needle
}

/// `needle` is a contiguous part of `text`.
pub open spec fn has_part(text: Seq<char>, needle: Seq<char>) -> bool {
    exists|at: int| stands_at(text, needle, at)
}

/// Whether `needle` stands in `text` at position `at`.
pub fn matches_at(text: &Vec<char>, needle: &Vec<char>, at: usize) -> (r: bool)
    ensures
        r == stands_at(text@, needle@, at as int),
{
    if needle.len() > text.len() || at > text.len() - needle.len() {
        return false;
    }
    let mut i: usize = 0;
    while i < needle.len()
        invariant
            i <= needle@.len(),
            at + needle@.len() <= text.len(),
            forall|j: int| 0 <= j < i ==> text@[at + j] == needle@[j],
        decreases needle@.len() - i,
    {
        if text[at + i] != needle[i] {
            proof {
                assert(text@.subrange(at as int, at + needle@.len())[i as int] != needle@[i as int]);
            }
            return false;
        }
        i = i + 1;
    }
    proof {
        assert(text@.subrange(at as int, at + needle@.len()) =~= needle@);
    }
    true
}

/// Whether `needle` is a contiguous part of `text`.
pub fn contains_part(text: &str, needle: &str) -> (r: bool)
    ensures
        r == has_part(text@, needle@),
{
    let hay = chars_of(text);
    let pin = chars_of(needle);
    if pin.len() > hay.len() {
        return false;
    }
    let last: usize = hay.len() - pin.len();
    let mut at: usize = 0;
    loop
        invariant
            hay@ == text@,
            pin@ == needle@,
            at <= last,
            last == hay@.len() - pin@.len(),
            forall|j: int| 0 <= j < at ==> !stands_at(text@, needle@, j),
        ensures
            forall|j: int| 0 <= j <= last ==> !stands_at(text@, needle@, j),
        decreases last - at,
    {
        if matches_at(&hay, &pin, at) {
            return true;
        }
        if at == last {
            break;
        }
        at = at + 1;
    }
    false
}

/// `text` ends with `tail`.
pub open spec fn has_tail(text: Seq<char>, tail: Seq<char>) -> bool {
    stands_at(text, tail, text.len() - tail.len())
}

/// Whether `text` ends with `tail`.
pub fn ends_with(text: &str, tail: &str) -> (r: bool)
    ensures
        r == has_tail(text@, tail@),
{
    let whole = chars_of(text);
    let end = chars_of(tail);
    if end.len() > whole.len() {
        return false;
    }
    matches_at(&whole, &end, whole.len() - end.len())
}

/// Equality of two texts.
pub fn same_text(a: &str, b: &str) -> (r: bool)
    ensures
        r == (a@ == b@),
{
    a.to_owned() == b.to_owned()
}

/// Equality of two texts up to ASCII case.
pub open spec fn same_ignoring_case(a: Seq<char>, b: Seq<char>) -> bool {
    lower(a) == lower(b)
}

/// Whether two texts are equal up to ASCII case.
pub fn eq_ignoring_case(a: &str, b: &str) -> (r: bool)
    ensures
        r == same_ignoring_case(a@, b@),
{
    a.to_ascii_lowercase() == b.to_ascii_lowercase()
}

/// `a` comes before `b` in the order of the code points.
pub open spec fn before(a: Seq<char>, b: Seq<char>) -> bool
    decreases a.len(),
{
    if b.len() == 0 {
        false
    } else if a.len() == 0 {
        true
    } else if a[0] != b[0] {
        (a[0] as int) < (b[0] as int)
    } else {
        before(a.drop_first(), b.drop_first())
    }
}

/// No text comes before itself.
pub proof fn lemma_before_irreflexive(a: Seq<char>)
    ensures
        !before(a, a),
    decreases a.len(),
{
    if a.len() > 0 {
        lemma_before_irreflexive(a.drop_first());
    }
}

/// The order of texts is transitive.
pub proof fn lemma_before_transitive(a: Seq<char>, b: Seq<char>, c: Seq<char>)
    requires
        before(a, b),
        before(b, c),
    ensures
        before(a, c),
    decreases a.len(),
{
    if a.len() > 0 && a[0] == b[0] && b[0] == c[0] {
        lemma_before_transitive(a.drop_first(), b.drop_first(), c.drop_first());
    }
}

/// Of two different texts one comes before the other.
pub proof fn lemma_before_total(a: Seq<char>, b: Seq<char>)
    ensures
        before(a, b) || before(b, a) || a == b,
    decreases a.len(),
{
    if a.len() > 0 && b.len() > 0 && a[0] == b[0] {
        lemma_before_total(a.drop_first(), b.drop_first());
        if a.drop_first() == b.drop_first() {
            assert(a =~= seq![a[0]] + a.drop_first());
            assert(b =~= seq![b[0]] + b.drop_first());
            assert(a =~= b);
        }
    } else if a.len() == 0 && b.len() == 0 {
        assert(a =~= b);
    } else if a.len() > 0 && b.len() > 0 {
        assert(a[0] as int != b[0] as int);
    }
}

/// Whether `a` comes before `b` in the order of the code points.
pub fn comes_before(a: &str, b: &str) -> (r: bool)
    ensures
        r == before(a@, b@),
{
    let left = chars_of(a);
    let right = chars_of(b);
    let mut i: usize = 0;
    proof {
        assert(left@.skip(0) =~= left@);
        assert(right@.skip(0) =~= right@);
    }
    while i < left.len() && i < right.len()
        invariant
            left@ == a@,
            right@ == b@,
            i <= left@.len(),
            i <= right@.len(),
            before(a@, b@) == before(left@.skip(i as int), right@.skip(i as int)),
        decreases left@.len() - i,
    {
        proof {
            assert(left@.skip(i as int).drop_first() =~= left@.skip(i + 1));
            assert(right@.skip(i as int).drop_first() =~= right@.skip(i + 1));
        }
        if left[i] != right[i] {
            return code_point(left[i]) < code_point(right[i]);
        }
        i = i + 1;
    }
    i < right.len()
}

// ---------------------------------------------------------------------
// Trimming
// ---------------------------------------------------------------------
/// How many characters at the front of `text` are white space.
pub open spec fn leading_white(text: Seq<char>) -> nat
    decreases text.len(),
{
    if text.len() > 0 && white(text[0]) {
        1 + leading_white(text.drop_first())
    } else {
        0
    }
}

/// `text` without the white space at its front.
pub open spec fn trim_front(text: Seq<char>) -> Seq<char> {
    text.skip(leading_white(text) as int)
}

/// `text` without the white space at its end.
pub open spec fn trim_back(text: Seq<char>) -> Seq<char>
    decreases text.len(),
{
    if text.len() > 0 && white(text.last()) {
        trim_back(text.drop_last())
    } else {
        text
    }
}

/// `text` without the white space at either end.
pub open spec fn trimmed(text: Seq<char>) -> Seq<char> {
    trim_back(trim_front(text))
}

/// The position of the first character that is not white space.
fn front_of(chars: &Vec<char>) -> (r: usize)
    ensures
        r == leading_white(chars@),
        r <= chars@.len(),
{
    let mut i: usize = 0;
    proof {
        assert(chars@.skip(0) =~= chars@);
    }
    while i < chars.len() && is_white(chars[i])
        invariant
            i <= chars@.len(),
            leading_white(chars@) == i + leading_white(chars@.skip(i as int)),
        decreases chars@.len() - i,
    {
        proof {
            assert(chars@.skip(i as int).drop_first() =~= chars@.skip(i + 1));
        }
        i = i + 1;
    }
    i
}

/// A text without the white space at its front.
pub fn trim_start(text: &str) -> (r: String)
    ensures
        r@ == trim_front(text@),
{
    let chars = chars_of(text);
    let from = front_of(&chars);
    let r = text_of(&chars, from, chars.len());
    proof {
        assert(r@ =~= trim_front(text@));
    }
    r
}

/// A text without the white space at either end.
pub fn trim(text: &str) -> (r: String)
    ensures
        r@ == trimmed(text@),
{
    let chars = chars_of(text);
    let from = front_of(&chars);
    let mut to: usize = chars.len();
    proof {
        assert(chars@.subrange(from as int, to as int) =~= trim_front(text@));
    }
    while to > from && is_white(chars[to - 1])
        invariant
            from <= to <= chars@.len(),
            trimmed(text@) == trim_back(chars@.subrange(from as int, to as int)),
        decreases to,
    {
        proof {
            assert(chars@.subrange(from as int, to as int).drop_last() =~= chars@.subrange(
                from as int,
                to - 1,
            ));
        }
        to = to - 1;
    }
    text_of(&chars, from, to)
}

// ---------------------------------------------------------------------
// Numbers
// ---------------------------------------------------------------------
/// The decimal digit of a number below ten.
pub open spec fn digit(n: nat) -> char {
    (('0' as u32) + n) as char
}

/// The decimal notation of a natural number.
pub open spec fn decimal(n: nat) -> Seq<char>
    decreases n,
{
    if n < 10 {
        seq![digit(n)]
    } else {
        decimal(n / 10).push(digit(n % 10))
    }
}

/// The decimal notation of a number.
pub fn decimal_of(n: u128) -> (r: String)
    ensures
        r@ == decimal(n as nat),
    decreases n,
{
    let last: u8 = (n % 10) as u8;
    let c: char = (48u8 + last) as char;
    if n < 10 {
        let mut out = String::new();
        out.push(c);
        proof {
            assert(out@ =~= decimal(n as nat));
        }
        out
    } else {
        let mut out = decimal_of(n / 10);
        out.push(c);
        out
    }
}

/// The last `width` decimal digits of a number, zeros in front.
pub open spec fn padded(n: nat, width: nat) -> Seq<char>
    decreases width,
{
    if width == 0 {
        Seq::empty()
    } else {
        padded(n / 10, (width - 1) as nat).push(digit(n % 10))
    }
}

/// The last `width` decimal digits of a number, zeros in front.
pub fn padded_of(n: u128, width: u8) -> (r: String)
    ensures
        r@ == padded(n as nat, width as nat),
    decreases width,
{
    if width == 0 {
        let out = String::new();
        proof {
            assert(out@ =~= Seq::<char>::empty());
        }
        out
    } else {
        let last: u8 = (n % 10) as u8;
        let mut out = padded_of(n / 10, width - 1);
        out.push((48u8 + last) as char);
        out
    }
}

/// A text without the zeros at its end.
pub open spec fn without_zeros(text: Seq<char>) -> Seq<char>
    decreases text.len(),
{
    if text.len() > 0 && text.last() == '0' {
        without_zeros(text.drop_last())
    } else {
        text
    }
}

/// A text without the zeros at its end.
pub fn drop_zeros(text: &str) -> (r: String)
    ensures
        r@ == without_zeros(text@),
{
    let chars = chars_of(text);
    let mut to: usize = chars.len();
    proof {
        assert(chars@.subrange(0, to as int) =~= text@);
    }
    while to > 0 && chars[to - 1] == '0'
        invariant
            to <= chars@.len(),
            without_zeros(text@) == without_zeros(chars@.subrange(0, to as int)),
        decreases to,
    {
        proof {
            assert(chars@.subrange(0, to as int).drop_last() =~= chars@.subrange(0, to - 1));
        }
        to = to - 1;
    }
    text_of(&chars, 0, to)
}

/// `parts` joined with `separator` between each two.
pub open spec fn joined(parts: Seq<Seq<char>>, separator: Seq<char>) -> Seq<char>
    decreases parts.len(),
{
    if parts.len() == 0 {
        Seq::empty()
    } else if parts.len() == 1 {
        parts[0]
    } else {
        joined(parts.drop_last(), separator) + separator + parts.last()
    }
}

/// Texts as sequences of characters.
pub open spec fn text_list(parts: Seq<&str>) -> Seq<Seq<char>> {
    parts.map_values(|t: &str| t@)
}

/// `parts` joined with `separator` between each two.
pub fn join(parts: &Vec<&str>, separator: &str) -> (r: String)
    ensures
        r@ == joined(text_list(parts@), separator@),
{
    let mut out = String::new();
    let ghost list = text_list(parts@);
    let mut i: usize = 0;
    proof {
        assert(out@ =~= Seq::<char>::empty());
        assert(list.take(0) =~= Seq::empty());
    }
    while i < parts.len()
        invariant
            list == text_list(parts@),
            i <= parts@.len(),
            out@ == joined(list.take(i as int), separator@),
        decreases parts@.len() - i,
    {
        proof {
            assert(list.take(i + 1).drop_last() =~= list.take(i as int));
            assert(list.take(i + 1).last() == parts@[i as int]@);
        }
        if i > 0 {
            out.append(separator);
        }
        out.append(parts[i]);
        proof {
            if i == 0 {
                assert(out@ =~= parts@[0]@);
            }
        }
        i = i + 1;
    }
    proof {
        assert(list.take(i as int) =~= list);
    }
    out
}

// ---------------------------------------------------------------------
// Lines
// ---------------------------------------------------------------------
/// A character ends a line.
pub open spec fn line_feed() -> spec_fn(char) -> bool {
    |c: char| c == '\n'
}

/// A line without the carriage return at its end.
pub open spec fn without_return(line: Seq<char>) -> Seq<char> {
    if line.len() > 0 && line.last() == '\r' {
        line.drop_last()
    } else {
        line
    }
}

/// The lines of a text, without the line feeds (or carriage returns and
/// line feeds) that end them. A text that ends with a line feed has no
/// empty line after it.
pub open spec fn lines(text: Seq<char>) -> Seq<Seq<char>>
    decreases text.len(),
{
    if text.len() == 0 {
        Seq::empty()
    } else {
        match first_where(text, line_feed()) {
            Some(k) => if 0 <= k < text.len() {
                seq![without_return(text.take(k))] + lines(text.skip(k + 1))
            } else {
                Seq::empty()
            },
            None => seq![text],
        }
    }
}

/// The lines of a text.
pub fn lines_of(text: &str) -> (r: Vec<String>)
    ensures
        r@.map_values(|t: String| t@) == lines(text@),
{
    let chars = chars_of(text);
    let ghost feed = line_feed();
    let mut out: Vec<String> = Vec::new();
    let mut from: usize = 0;
    proof {
        assert(chars@.skip(0) =~= chars@);
        assert(out@.map_values(|t: String| t@) + lines(chars@) =~= lines(chars@));
    }
    while from < chars.len()
        invariant
            feed == line_feed(),
            chars@ == text@,
            from <= chars@.len(),
            out@.map_values(|t: String| t@) + lines(chars@.skip(from as int)) == lines(text@),
        decreases chars@.len() - from,
    {
        let ghost rest = chars@.skip(from as int);
        let ghost so_far = out@.map_values(|t: String| t@);
        let mut to: usize = from;
        while to < chars.len() && chars[to] != '\n'
            invariant
                feed == line_feed(),
                rest == chars@.skip(from as int),
                from <= to <= chars@.len(),
                forall|j: int| 0 <= j < to - from ==> !feed(#[trigger] rest[j]),
            decreases chars@.len() - to,
        {
            to = to + 1;
        }
        proof {
            lemma_first_where(rest, feed);
        }
        if to < chars.len() {
            proof {
                assert(rest[to - from] == chars@[to as int]);
                assert(feed(rest[to - from]));
                assert(first_where(rest, feed) == Some(to - from));
                assert(rest.take(to - from) =~= chars@.subrange(from as int, to as int));
                assert(rest.skip(to - from + 1) =~= chars@.skip(to + 1));
            }
            let end: usize = if to > from && chars[to - 1] == '\r' {
                to - 1
            } else {
                to
            };
            let line = text_of(&chars, from, end);
            proof {
                assert(line@ =~= without_return(rest.take(to - from)));
            }
            out.push(line);
            proof {
                let tail = lines(chars@.skip(to + 1));
                assert(out@.map_values(|t: String| t@) =~= so_far.push(line@));
                assert(so_far + (seq![line@] + tail) =~= so_far.push(line@) + tail);
            }
            from = to + 1;
        } else {
            proof {
                if let Some(k) = first_where(rest, feed) {
                    assert(!feed(rest[k]));
                }
            }
            let line = text_of(&chars, from, to);
            proof {
                assert(line@ =~= rest);
            }
            out.push(line);
            proof {
                assert(out@.map_values(|t: String| t@) =~= so_far.push(line@));
                assert(so_far + seq![line@] =~= so_far.push(line@));
                assert(chars@.skip(to as int) =~= Seq::empty());
                assert(so_far.push(line@) + lines(chars@.skip(to as int)) =~= so_far.push(line@));
            }
            from = to;
        }
    }
    proof {
        assert(chars@.skip(from as int) =~= Seq::empty());
        assert(out@.map_values(|t: String| t@) + Seq::<Seq<char>>::empty() =~= out@.map_values(
            |t: String| t@,
        ));
    }
    out
}

/// `text` begins with `head`.
pub open spec fn has_head(text: Seq<char>, head: Seq<char>) -> bool {
    stands_at(text, head, 0)
}

/// Whether `text` begins with `head`.
pub fn starts_with(text: &str, head: &str) -> (r: bool)
    ensures
        r == has_head(text@, head@),
{
    matches_at(&chars_of(text), &chars_of(head), 0)
}

/// A text without its last character, if it has one.
pub open spec fn without_last(text: Seq<char>) -> Seq<char> {
    if text.len() == 0 {
        text
    } else {
        text.drop_last()
    }
}

/// A text without its last character, if it has one.
pub fn drop_char(text: &str) -> (r: String)
    ensures
        r@ == without_last(text@),
{
    let chars = chars_of(text);
    let to: usize = if chars.len() == 0 {
        0
    } else {
        chars.len() - 1
    };
    let r = text_of(&chars, 0, to);
    proof {
        assert(r@ =~= without_last(text@));
    }
    r
}

// ---------------------------------------------------------------------
// Laws
// ---------------------------------------------------------------------
proof fn lemma_leading_white(text: Seq<char>)
    ensures
        leading_white(text) <= text.len(),
        leading_white(text) < text.len() ==> !white(text[leading_white(text) as int]),
        forall|j: int| 0 <= j < leading_white(text) ==> white(#[trigger] text[j]),
    decreases text.len(),
{
    if text.len() > 0 && white(text[0]) {
        let rest = text.drop_first();
        lemma_leading_white(rest);
        assert forall|j: int| 0 <= j < leading_white(text) implies white(#[trigger] text[j]) by {
            if j > 0 {
                assert(rest[j - 1] == text[j]);
            }
        }
    }
}

proof fn lemma_leading_white_is(text: Seq<char>, n: nat)
    requires
        n <= text.len(),
        n < text.len() ==> !white(text[n as int]),
        forall|j: int| 0 <= j < n ==> white(#[trigger] text[j]),
    ensures
        leading_white(text) == n,
{
    lemma_leading_white(text);
    let m = leading_white(text);
    if m < n {
        assert(white(text[m as int]));
    }
    if n < m {
        assert(white(text[n as int]));
    }
}

proof fn lemma_trim_after(text: Seq<char>, c: char)
    requires
        white(c),
    ensures
        trimmed(text.push(c)) == trimmed(text),
{
    lemma_leading_white(text);
    let n = leading_white(text);
    let longer = text.push(c);
    if n < text.len() {
        assert forall|j: int| 0 <= j < n implies white(#[trigger] longer[j]) by {
            assert(text[j] == longer[j]);
        }
        lemma_leading_white_is(longer, n);
        assert(trim_front(longer) =~= trim_front(text).push(c));
        assert(trim_front(text).push(c).drop_last() =~= trim_front(text));
    } else {
        assert forall|j: int| 0 <= j < longer.len() implies white(#[trigger] longer[j]) by {
            if j < text.len() {
                assert(text[j] == longer[j]);
            }
        }
        lemma_leading_white_is(longer, longer.len());
        assert(trim_front(longer) =~= trim_front(text));
    }
}

proof fn lemma_trim_before(c: char, text: Seq<char>)
    requires
        white(c),
    ensures
        trimmed(seq![c] + text) == trimmed(text),
{
    lemma_leading_white(text);
    let n = leading_white(text);
    let longer = seq![c] + text;
    assert forall|j: int| 0 <= j < n + 1 implies white(#[trigger] longer[j]) by {
        if j > 0 {
            assert(text[j - 1] == longer[j]);
        }
    }
    lemma_leading_white_is(longer, n + 1);
    assert(trim_front(longer) =~= trim_front(text));
}

/// White space around a text does not change what is left of it.
pub proof fn law_surrounding_white_space_is_trimmed(
    front: Seq<char>,
    text: Seq<char>,
    back: Seq<char>,
)
    requires
        forall|i: int| 0 <= i < front.len() ==> white(#[trigger] front[i]),
        forall|i: int| 0 <= i < back.len() ==> white(#[trigger] back[i]),
    ensures
        trimmed(front + text + back) == trimmed(text),
    decreases front.len() + back.len(),
{
    if back.len() > 0 {
        let less = back.drop_last();
        assert forall|i: int| 0 <= i < less.len() implies white(#[trigger] less[i]) by {
            assert(less[i] == back[i]);
        }
        law_surrounding_white_space_is_trimmed(front, text, less);
        assert(front + text + back =~= (front + text + less).push(back.last()));
        assert(white(back[back.len() - 1]));
        lemma_trim_after(front + text + less, back.last());
    } else if front.len() > 0 {
        let less = front.drop_first();
        assert forall|i: int| 0 <= i < less.len() implies white(#[trigger] less[i]) by {
            assert(less[i] == front[i + 1]);
        }
        law_surrounding_white_space_is_trimmed(less, text, back);
        assert(front + text + back =~= seq![front[0]] + (less + text + back));
        assert(white(front[0]));
        lemma_trim_before(front[0], less + text + back);
    } else {
        assert(front + text + back =~= text);
    }
}

/// What `trimmed` leaves neither begins nor ends with white space.
pub proof fn law_trimmed_texts_have_no_white_ends(text: Seq<char>)
    ensures
        trimmed(text).len() > 0 ==> !white(trimmed(text)[0]) && !white(trimmed(text).last()),
{
    lemma_leading_white(text);
    lemma_trim_back(trim_front(text));
}

proof fn lemma_trim_back(text: Seq<char>)
    ensures
        trim_back(text).len() <= text.len(),
        trim_back(text).len() > 0 ==> !white(trim_back(text).last()) && trim_back(text)[0]
            == text[0],
    decreases text.len(),
{
    if text.len() > 0 && white(text.last()) {
        lemma_trim_back(text.drop_last());
    }
}

/// No line of a text holds a line feed.
pub proof fn law_lines_hold_no_line_feed(text: Seq<char>, i: int)
    requires
        0 <= i < lines(text).len(),
    ensures
        forall|j: int| 0 <= j < lines(text)[i].len() ==> #[trigger] lines(text)[i][j] != '\n',
    decreases text.len(),
{
    let feed = line_feed();
    lemma_first_where(text, feed);
    match first_where(text, feed) {
        Some(k) => {
            let rest = text.skip(k + 1);
            assert(lines(text) =~= seq![without_return(text.take(k))] + lines(rest));
            if i == 0 {
                let line = lines(text)[0];
                assert forall|j: int| 0 <= j < line.len() implies #[trigger] line[j] != '\n' by {
                    assert(line[j] == text[j]);
                    assert(!feed(text[j]));
                }
            } else {
                law_lines_hold_no_line_feed(rest, i - 1);
                assert(lines(text)[i] == lines(rest)[i - 1]);
            }
        },
        None => {
            let line = lines(text)[i];
            assert(line == text);
            assert forall|j: int| 0 <= j < line.len() implies #[trigger] line[j] != '\n' by {
                assert(!feed(text[j]));
            }
        },
    }
}

/// A line put before a text is the first of its lines.
pub proof fn lemma_line_before(line: Seq<char>, text: Seq<char>)
    requires
        forall|j: int| 0 <= j < line.len() ==> #[trigger] line[j] != '\n',
        line.len() > 0 ==> line.last() != '\r',
    ensures
        lines(line + seq!['\n'] + text) == seq![line] + lines(text),
{
    let whole = line + seq!['\n'] + text;
    let feed = line_feed();
    lemma_first_where(whole, feed);
    let n = line.len() as int;
    assert(feed(whole[n]));
    match first_where(whole, feed) {
        Some(k) => {
            if k < n {
                assert(whole[k] == line[k]);
            }
            if n < k {
                assert(!feed(whole[n]));
            }
            assert(whole.take(k) =~= line);
            assert(whole.skip(k + 1) =~= text);
        },
        None => {
            assert(!feed(whole[n]));
        },
    }
}

} // verus!
