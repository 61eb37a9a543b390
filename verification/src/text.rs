//! Plain text handling: splitting, trimming and numbers.

use vstd::prelude::*;
use vstd::string::*;

verus! {

/// Characters of the string.
pub fn chars_of(s: &str) -> (v: Vec<char>)
    ensures
        v@ == s@,
{
    let mut v: Vec<char> = Vec::new();
    for c in it: s.chars()
        invariant
            v@ == it.seq().take(it.index() as int),
            it.seq() == s@,
    {
        v.push(c);
        assert(v@ == it.seq().take(it.index() + 1));
    }
    assert(s@.take(s@.len() as int) == s@);
    v
}

/// White space as Unicode defines it.
pub open spec fn is_white(c: char) -> bool {
    ||| '\u{9}' <= c <= '\u{d}'
    ||| c == ' '
    ||| c == '\u{85}'
    ||| c == '\u{a0}'
    ||| c == '\u{1680}'
    ||| '\u{2000}' <= c <= '\u{200a}'
    ||| c == '\u{2028}'
    ||| c == '\u{2029}'
    ||| c == '\u{202f}'
    ||| c == '\u{205f}'
    ||| c == '\u{3000}'
}

pub fn white(c: char) -> (r: bool)
    ensures
        r == is_white(c),
{
    ('\u{9}' <= c && c <= '\u{d}') || c == ' ' || c == '\u{85}' || c == '\u{a0}' || c == '\u{1680}'
        || ('\u{2000}' <= c && c <= '\u{200a}') || c == '\u{2028}' || c == '\u{2029}' || c == '\u{202f}'
        || c == '\u{205f}' || c == '\u{3000}'
}

pub open spec fn trim_start(s: Seq<char>) -> Seq<char>
    decreases s.len(),
{
    if s.len() > 0 && is_white(s[0]) {
        trim_start(s.skip(1))
    } else {
        s
    }
}

pub open spec fn trim_end(s: Seq<char>) -> Seq<char>
    decreases s.len(),
{
    if s.len() > 0 && is_white(s.last()) {
        trim_end(s.drop_last())
    } else {
        s
    }
}

/// The text without white space at either end.
pub open spec fn trimmed(s: Seq<char>) -> Seq<char> {
    trim_end(trim_start(s))
}

proof fn trim_start_at(s: Seq<char>, from: int)
    requires
        0 <= from <= s.len(),
        forall|i: int| 0 <= i < from ==> is_white(#[trigger] s[i]),
        from == s.len() || !is_white(s[from]),
    ensures
        trim_start(s) == s.skip(from),
    decreases from,
{
    if from > 0 {
        assert(is_white(s[0]));
        let rest = s.skip(1);
        assert forall|i: int| 0 <= i < from - 1 implies is_white(#[trigger] rest[i]) by {
            assert(rest[i] == s[i + 1]);
        }
        trim_start_at(rest, from - 1);
        assert(rest.skip(from - 1) == s.skip(from));
    } else {
        assert(s.skip(0) == s);
    }
}

proof fn trim_end_at(s: Seq<char>, to: int)
    requires
        0 <= to <= s.len(),
        forall|i: int| to <= i < s.len() ==> is_white(#[trigger] s[i]),
        to == 0 || !is_white(s[to - 1]),
    ensures
        trim_end(s) == s.take(to),
    decreases s.len() - to,
{
    if to < s.len() {
        assert(is_white(s[s.len() - 1]));
        trim_end_at(s.drop_last(), to);
        assert(s.drop_last().take(to) == s.take(to));
    } else {
        assert(s.take(to) == s);
    }
}

/// The bounds of a text without the white space around it.
fn trim_bounds(v: &Vec<char>, lo: usize, hi: usize) -> (r: (usize, usize))
    requires
        lo <= hi <= v@.len(),
    ensures
        lo <= r.0 <= r.1 <= hi,
        v@.subrange(r.0 as int, r.1 as int) == trimmed(v@.subrange(lo as int, hi as int)),
{
    let ghost s = v@.subrange(lo as int, hi as int);
    let mut from: usize = lo;
    while from < hi && white(v[from])
        invariant
            lo <= from <= hi <= v@.len(),
            s == v@.subrange(lo as int, hi as int),
            forall|i: int| 0 <= i < from - lo ==> is_white(#[trigger] s[i]),
        decreases hi - from,
    {
        assert(s[from - lo] == v@[from as int]);
        from = from + 1;
    }
    assert(from < hi ==> s[from - lo] == v@[from as int]);
    proof {
        trim_start_at(s, from - lo);
    }
    let ghost t = s.skip(from - lo);
    let mut to: usize = hi;
    while to > from && white(v[to - 1])
        invariant
            lo <= from <= to <= hi <= v@.len(),
            s == v@.subrange(lo as int, hi as int),
            t == s.skip(from - lo),
            forall|i: int| to - from <= i < t.len() ==> is_white(#[trigger] t[i]),
        decreases to - from,
    {
        assert(t[to - 1 - from] == v@[to - 1]);
        to = to - 1;
    }
    proof {
        assert(to > from ==> t[to - 1 - from] == v@[to - 1]);
        trim_end_at(t, to - from);
        assert(t.take(to - from) == v@.subrange(from as int, to as int));
    }
    (from, to)
}

/// The text without white space at either end.
pub fn trim(s: &str) -> (t: String)
    ensures
        t@ == trimmed(s@),
{
    let v = chars_of(s);
    let (from, to) = trim_bounds(&v, 0, v.len());
    assert(v@.subrange(0, v@.len() as int) == v@);
    s.substring_char(from, to).to_owned()
}

/// The pieces between separators; a text without any is one piece.
pub open spec fn split(s: Seq<char>, sep: char) -> Seq<Seq<char>>
    decreases s.len(),
{
    if s.len() == 0 {
        seq![seq![]]
    } else {
        let rest = split(s.drop_last(), sep);
        if s.last() == sep {
            rest.push(seq![])
        } else {
            rest.drop_last().push(rest.last().push(s.last()))
        }
    }
}

pub proof fn split_is_never_empty(s: Seq<char>, sep: char)
    ensures
        split(s, sep).len() > 0,
    decreases s.len(),
{
    if s.len() > 0 {
        split_is_never_empty(s.drop_last(), sep);
    }
}

/// The views of a list of texts.
pub open spec fn texts(list: Seq<String>) -> Seq<Seq<char>> {
    list.map_values(|s: String| s@)
}

/// The pieces, each without the white space around it, that hold anything.
pub open spec fn filled_pieces(pieces: Seq<Seq<char>>) -> Seq<Seq<char>>
    decreases pieces.len(),
{
    if pieces.len() == 0 {
        seq![]
    } else {
        let rest = filled_pieces(pieces.drop_last());
        let last = trimmed(pieces.last());
        if last.len() > 0 {
            rest.push(last)
        } else {
            rest
        }
    }
}

/// Split a list at its separators, trim the entries and drop empty ones.
pub fn entries(s: &str, sep: char) -> (list: Vec<String>)
    ensures
        texts(list@) == filled_pieces(split(s@, sep)),
{
    let v = chars_of(s);
    let mut list: Vec<String> = Vec::new();
    let mut from: usize = 0;
    let mut i: usize = 0;
    assert(v@.take(0) == Seq::<char>::empty());
    assert(texts(list@) == Seq::<Seq<char>>::empty());
    assert(split(v@.take(0), sep).drop_last() == Seq::<Seq<char>>::empty());
    assert(split(v@.take(0), sep).last() == v@.subrange(0, 0));
    loop
        invariant_except_break
            texts(list@) == filled_pieces(split(v@.take(i as int), sep).drop_last()),
        invariant
            v@ == s@,
            from <= i <= v@.len(),
            split(v@.take(i as int), sep).len() > 0,
            split(v@.take(i as int), sep).last() == v@.subrange(from as int, i as int),
        ensures
            i == v@.len(),
            texts(list@) == filled_pieces(split(v@, sep)),
        decreases v@.len() - i,
    {
        let ghost pieces = split(v@.take(i as int), sep);
        if i == v.len() || v[i] == sep {
            let (lo, hi) = trim_bounds(&v, from, i);
            let ghost before = list@;
            if lo < hi {
                list.push(s.substring_char(lo, hi).to_owned());
                assert(texts(list@) == texts(before).push(trimmed(pieces.last())));
            }
            assert(texts(list@) == filled_pieces(pieces));
            if i == v.len() {
                assert(v@.take(i as int) == v@);
                break;
            }
        }
        let ghost next = split(v@.take(i + 1), sep);
        proof {
            assert(v@.take(i + 1).drop_last() == v@.take(i as int));
            assert(v@.take(i + 1).last() == v@[i as int]);
        }
        if v[i] == sep {
            from = i + 1;
            assert(next.drop_last() == pieces);
            assert(next.last() == v@.subrange(from as int, i + 1));
        } else {
            assert(next.drop_last() == pieces.drop_last());
            assert(next.last() == v@.subrange(from as int, i + 1));
        }
        i = i + 1;
    }
    list
}

/// The runs of characters between white space.
pub open spec fn words(s: Seq<char>) -> Seq<Seq<char>>
    decreases s.len(),
{
    if s.len() == 0 {
        seq![]
    } else {
        let rest = words(s.drop_last());
        if is_white(s.last()) {
            rest
        } else if s.len() == 1 || is_white(s[s.len() - 2]) {
            rest.push(seq![s.last()])
        } else {
            rest.drop_last().push(rest.last().push(s.last()))
        }
    }
}

/// Where the words of a text begin and end.
fn word_bounds(v: &Vec<char>) -> (bounds: Vec<(usize, usize)>)
    ensures
        bounds@.len() == words(v@).len(),
        forall|k: int| 0 <= k < bounds@.len() ==> (#[trigger] bounds@[k]).0 <= bounds@[k].1 <= v@.len() && words(v@)[k] == v@.subrange(bounds@[k].0 as int, bounds@[k].1 as int),
{
    let mut bounds: Vec<(usize, usize)> = Vec::new();
    let mut i: usize = 0;
    while i < v.len()
        invariant
            i <= v@.len(),
            bounds@.len() == words(v@.take(i as int)).len(),
            forall|k: int|
                0 <= k < bounds@.len() ==> (#[trigger] bounds@[k]).0 <= bounds@[k].1 <= i && words(v@.take(i as int))[k] == v@.subrange(
                    bounds@[k].0 as int,
                    bounds@[k].1 as int,
                ),
            i > 0 && !is_white(v@[i - 1]) ==> bounds@.len() > 0 && bounds@.last().1 == i,
        decreases v@.len() - i,
    {
        let ghost old_words = words(v@.take(i as int));
        let ghost new_words = words(v@.take(i + 1));
        let ghost before = bounds@;
        proof {
            assert(v@.take(i + 1).drop_last() == v@.take(i as int));
            assert(v@.take(i + 1).last() == v@[i as int]);
        }
        if !white(v[i]) {
            if i == 0 || white(v[i - 1]) {
                bounds.push((i, i + 1));
                assert(new_words == old_words.push(seq![v@[i as int]]));
                assert(v@.subrange(i as int, i + 1) == seq![v@[i as int]]);
            } else {
                let last: usize = bounds.len() - 1;
                let start: usize = bounds[last].0;
                bounds.set(last, (start, i + 1));
                assert(old_words[last as int] == v@.subrange(start as int, i as int));
                assert(new_words[last as int] == old_words.last().push(v@[i as int]));
                assert(v@.subrange(start as int, i + 1) == v@.subrange(start as int, i as int).push(v@[i as int]));
                assert forall|k: int| 0 <= k < bounds@.len() implies new_words[k] == v@.subrange(
                    (#[trigger] bounds@[k]).0 as int,
                    bounds@[k].1 as int,
                ) by {
                    if k < last {
                        assert(bounds@[k] == before[k]);
                        assert(new_words[k] == old_words[k]);
                    }
                }
            }
        }
        i = i + 1;
    }
    assert(v@.take(i as int) == v@);
    bounds
}

/// The n-th word of a text, from zero.
pub fn nth_word(s: &str, n: usize) -> (word: Option<String>)
    ensures
        match word {
            Some(w) => n < words(s@).len() && w@ == words(s@)[n as int],
            None => n >= words(s@).len(),
        },
{
    let v = chars_of(s);
    let bounds = word_bounds(&v);
    if n < bounds.len() {
        let (from, to) = bounds[n];
        Some(s.substring_char(from, to).to_owned())
    } else {
        None
    }
}

/// The text after its last closing bracket, if it has one.
pub open spec fn bracket_tail(s: Seq<char>) -> Option<Seq<char>>
    decreases s.len(),
{
    if s.len() == 0 {
        None
    } else if s.last() == ')' {
        Some(seq![])
    } else {
        match bracket_tail(s.drop_last()) {
            Some(tail) => Some(tail.push(s.last())),
            None => None,
        }
    }
}

proof fn bracket_tail_at(s: Seq<char>, from: int)
    requires
        0 <= from <= s.len(),
        from == 0 || s[from - 1] == ')',
        forall|i: int| from <= i < s.len() ==> #[trigger] s[i] != ')',
    ensures
        bracket_tail(s) == (if from == 0 { None } else { Some(s.skip(from)) }),
    decreases s.len() - from,
{
    if from < s.len() {
        bracket_tail_at(s.drop_last(), from);
        assert(s.last() == s[s.len() - 1]);
        if from > 0 {
            assert(s.drop_last().skip(from).push(s.last()) == s.skip(from));
        }
    } else if from > 0 {
        assert(s.skip(from) == Seq::<char>::empty());
    }
}

/// The text after its last closing bracket, if it has one.
pub fn after_bracket(s: &str) -> (tail: Option<String>)
    ensures
        match tail {
            Some(t) => bracket_tail(s@) == Some(t@),
            None => bracket_tail(s@) is None,
        },
{
    let v = chars_of(s);
    let n: usize = v.len();
    let mut i: usize = n;
    while i > 0 && v[i - 1] != ')'
        invariant
            i <= n,
            n == v@.len(),
            v@ == s@,
            forall|k: int| i <= k < v@.len() ==> #[trigger] v@[k] != ')',
        decreases i,
    {
        i = i - 1;
    }
    proof {
        bracket_tail_at(s@, i as int);
        assert(s@.skip(i as int) == s@.subrange(i as int, n as int));
    }
    if i == 0 {
        None
    } else {
        Some(s.substring_char(i, n).to_owned())
    }
}

pub open spec fn is_separator(c: char) -> bool {
    c == '/' || c == '\\'
}

/// The last component of a command: what follows the last slash or backslash,
/// or all of it.
pub open spec fn base_name(s: Seq<char>) -> Seq<char>
    decreases s.len(),
{
    if s.len() == 0 || is_separator(s.last()) {
        seq![]
    } else {
        base_name(s.drop_last()).push(s.last())
    }
}

/// The last component of a command.
pub fn last_component(s: &str) -> (name: String)
    ensures
        name@ == base_name(s@),
{
    let v = chars_of(s);
    let n: usize = v.len();
    let mut i: usize = n;
    assert(s@.take(n as int) == s@);
    assert(base_name(s@) + s@.subrange(n as int, n as int) =~= base_name(s@));
    while i > 0 && v[i - 1] != '/' && v[i - 1] != '\\'
        invariant
            i <= n,
            n == v@.len(),
            v@ == s@,
            base_name(s@) == base_name(s@.take(i as int)) + s@.subrange(i as int, n as int),
        decreases i,
    {
        proof {
            let head = s@.take(i as int);
            assert(head.drop_last() == s@.take(i - 1));
            assert(base_name(head) == base_name(s@.take(i - 1)).push(s@[i - 1]));
            assert(base_name(s@.take(i - 1)).push(s@[i - 1]) + s@.subrange(i as int, n as int) =~= base_name(s@.take(i - 1)) + s@.subrange(
                i - 1,
                n as int,
            ));
        }
        i = i - 1;
    }
    proof {
        let head = s@.take(i as int);
        assert(base_name(head) == Seq::<char>::empty()) by {
            if i > 0 {
                assert(is_separator(head.last()));
            }
        }
        assert(base_name(s@) =~= s@.subrange(i as int, n as int));
    }
    s.substring_char(i, n).to_owned()
}

pub open spec fn is_digit(c: char) -> bool {
    '0' <= c <= '9'
}

pub open spec fn digits_value(s: Seq<char>) -> int
    decreases s.len(),
{
    if s.len() == 0 {
        0
    } else {
        10 * digits_value(s.drop_last()) + (s.last() as int - '0' as int)
    }
}

pub open spec fn has_sign(s: Seq<char>) -> bool {
    s.len() > 0 && (s[0] == '-' || s[0] == '+')
}

/// What follows the sign.
pub open spec fn unsigned_part(s: Seq<char>) -> Seq<char> {
    if has_sign(s) {
        s.skip(1)
    } else {
        s
    }
}

pub open spec fn all_digits(s: Seq<char>) -> bool {
    s.len() > 0 && forall|i: int| 0 <= i < s.len() ==> is_digit(#[trigger] s[i])
}

/// The number a text writes: an optional sign and decimal digits, in the range
/// of sixty-four bits.
pub open spec fn number(s: Seq<char>) -> Option<int> {
    let size = digits_value(unsigned_part(s));
    let value = if has_sign(s) && s[0] == '-' { -size } else { size };
    if all_digits(unsigned_part(s)) && i64::MIN <= value <= i64::MAX {
        Some(value)
    } else {
        None
    }
}

proof fn digits_grow(s: Seq<char>, n: int)
    requires
        0 <= n <= s.len(),
        forall|i: int| 0 <= i < s.len() ==> is_digit(#[trigger] s[i]),
    ensures
        0 <= digits_value(s.take(n)) <= digits_value(s),
    decreases s.len() - n,
{
    if n < s.len() {
        digits_grow(s, n + 1);
        assert(s.take(n + 1).drop_last() == s.take(n));
        assert(is_digit(s[n]));
        digits_nonnegative(s.take(n));
    } else {
        assert(s.take(n) == s);
        digits_nonnegative(s);
    }
}

proof fn digits_nonnegative(s: Seq<char>)
    requires
        forall|i: int| 0 <= i < s.len() ==> is_digit(#[trigger] s[i]),
    ensures
        0 <= digits_value(s),
    decreases s.len(),
{
    if s.len() > 0 {
        assert(is_digit(s[s.len() - 1]));
        assert forall|i: int| 0 <= i < s.drop_last().len() implies is_digit(#[trigger] s.drop_last()[i]) by {
            assert(is_digit(s[i]));
        }
        digits_nonnegative(s.drop_last());
    }
}

/// Read a decimal number.
pub fn parse_number(s: &str) -> (n: Option<i64>)
    ensures
        match n {
            Some(n) => number(s@) == Some(n as int),
            None => number(s@) is None,
        },
{
    let v = chars_of(s);
    let len: usize = v.len();
    let signed: bool = len > 0 && (v[0] == '-' || v[0] == '+');
    let negative: bool = signed && v[0] == '-';
    let from: usize = if signed { 1 } else { 0 };
    let ghost digits = unsigned_part(s@);
    if from == len {
        assert(!all_digits(digits));
        return None;
    }
    let mut value: i128 = 0;
    let mut i: usize = from;
    assert(digits.take(0) == Seq::<char>::empty());
    while i < len
        invariant
            from <= i <= len,
            len == v@.len(),
            v@ == s@,
            from == (if signed { 1int } else { 0 }),
            signed == has_sign(s@),
            negative == (signed && s@[0] == '-'),
            digits == unsigned_part(s@),
            digits.len() == len - from,
            len > from,
            forall|k: int| 0 <= k < i - from ==> is_digit(#[trigger] digits[k]),
            value == digits_value(digits.take(i - from)),
            0 <= value <= 0x8000_0000_0000_0000,
        decreases len - i,
    {
        let c = v[i];
        assert(digits[i - from] == c);
        if c < '0' || c > '9' {
            assert(!is_digit(digits[i - from]));
            assert(!all_digits(digits));
            return None;
        }
        let digit: i128 = c as u32 as i128 - 48;
        assert(digits.take(i + 1 - from).drop_last() == digits.take(i - from));
        value = 10 * value + digit;
        i = i + 1;
        assert(value == digits_value(digits.take(i - from)));
        if value > 0x8000_0000_0000_0000 {
            proof {
                if all_digits(digits) {
                    digits_grow(digits, i - from);
                }
            }
            return None;
        }
    }
    assert(digits.take(i - from) == digits);
    if negative {
        Some((-value) as i64)
    } else if value > 0x7fff_ffff_ffff_ffff {
        None
    } else {
        Some(value as i64)
    }
}

/// A count written in decimal digits.
pub open spec fn decimal(n: int) -> Seq<char>
    decreases n,
{
    if n < 10 {
        seq![(('0' as int) + n) as char]
    } else {
        decimal(n / 10).push((('0' as int) + n % 10) as char)
    }
}

/// Reading a written count gives it back.
pub proof fn decimal_reads_back(n: int)
    requires
        0 <= n <= i64::MAX,
    ensures
        number(decimal(n)) == Some(n),
{
    decimal_value(n);
    let s = decimal(n);
    assert(is_digit(s[0]));
}

proof fn decimal_value(n: int)
    requires
        0 <= n,
    ensures
        decimal(n).len() > 0,
        digits_value(decimal(n)) == n,
        forall|i: int| 0 <= i < decimal(n).len() ==> is_digit(#[trigger] decimal(n)[i]),
    decreases n,
{
    let s = decimal(n);
    if n < 10 {
        assert(s.drop_last() == Seq::<char>::empty());
        assert(digits_value(Seq::<char>::empty()) == 0);
        assert(digits_value(s) == 10 * digits_value(s.drop_last()) + (s.last() as int - '0' as int));
    } else {
        decimal_value(n / 10);
        assert(s.drop_last() == decimal(n / 10));
    }
}

// ---------------------------------------------------------------------------
// What reading text comes to
// ---------------------------------------------------------------------------

/// Spaces, tabs and line ends are white; what ASCII prints is not.
pub proof fn printed_characters_are_not_white(c: char, r: bool)
    requires
        call_ensures(white, (c,), r),
    ensures
        c == ' ' || c == '\t' || c == '\n' || c == '\r' ==> r,
        0x21 <= c as u32 <= 0x7e ==> !r,
        c as u32 <= 8 || 0xe <= c as u32 <= 0x1f ==> !r,
{
}

/// Trimming takes the white space off both ends and nothing else.
pub proof fn trimming_keeps_the_middle(s: &str, t: String, from: int, to: int)
    requires
        call_ensures(trim, (s,), t),
        0 <= from <= to <= s@.len(),
        forall|i: int| 0 <= i < from ==> is_white(#[trigger] s@[i]),
        forall|i: int| to <= i < s@.len() ==> is_white(#[trigger] s@[i]),
        from < to ==> !is_white(s@[from]) && !is_white(s@[to - 1]),
    ensures
        t@ == s@.subrange(from, to),
{
    if from == to {
        assert forall|i: int| 0 <= i < s@.len() implies is_white(#[trigger] s@[i]) by {}
        trim_start_at(s@, s@.len() as int);
        assert(s@.skip(s@.len() as int) =~= s@.subrange(from, to));
        assert(trim_end(Seq::<char>::empty()) == Seq::<char>::empty());
    } else {
        trim_start_at(s@, from);
        let rest = s@.skip(from);
        assert forall|i: int| to - from <= i < rest.len() implies is_white(#[trigger] rest[i]) by {
            assert(rest[i] == s@[i + from]);
        }
        assert(rest[to - from - 1] == s@[to - 1]);
        trim_end_at(rest, to - from);
        assert(rest.take(to - from) =~= s@.subrange(from, to));
    }
}

pub(crate) proof fn split_joins(head: Seq<char>, tail: Seq<char>, sep: char)
    ensures
        split(head.push(sep) + tail, sep) == split(head, sep) + split(tail, sep),
    decreases tail.len(),
{
    let all = head.push(sep) + tail;
    if tail.len() == 0 {
        assert(all =~= head.push(sep));
        assert(all.drop_last() =~= head);
        assert(split(all, sep) =~= split(head, sep) + split(tail, sep));
    } else {
        split_joins(head, tail.drop_last(), sep);
        split_is_never_empty(tail.drop_last(), sep);
        assert(all.drop_last() =~= head.push(sep) + tail.drop_last());
        assert(all.last() == tail.last());
        let a = split(head, sep);
        let b = split(tail.drop_last(), sep);
        assert((a + b).drop_last() =~= a + b.drop_last());
        assert((a + b).last() == b.last());
        assert(split(all, sep) =~= a + split(tail, sep));
    }
}

pub(crate) proof fn filled_joins(a: Seq<Seq<char>>, b: Seq<Seq<char>>)
    ensures
        filled_pieces(a + b) == filled_pieces(a) + filled_pieces(b),
    decreases b.len(),
{
    if b.len() == 0 {
        assert(a + b =~= a);
        assert(filled_pieces(a) + filled_pieces(b) =~= filled_pieces(a));
    } else {
        filled_joins(a, b.drop_last());
        assert((a + b).drop_last() =~= a + b.drop_last());
        assert((a + b).last() == b.last());
        assert(filled_pieces(a + b) =~= filled_pieces(a) + filled_pieces(b));
    }
}

/// A list is the entries before any of its separators and then those behind
/// it.
pub proof fn lists_are_their_parts(whole: &str, head: &str, tail: &str, sep: char, all: Vec<String>, a: Vec<String>, b: Vec<String>)
    requires
        call_ensures(entries, (whole, sep), all),
        call_ensures(entries, (head, sep), a),
        call_ensures(entries, (tail, sep), b),
        whole@ == head@.push(sep) + tail@,
    ensures
        texts(all@) == texts(a@) + texts(b@),
{
    split_joins(head@, tail@, sep);
    filled_joins(split(head@, sep), split(tail@, sep));
}

pub(crate) proof fn one_piece(s: Seq<char>, sep: char)
    requires
        forall|i: int| 0 <= i < s.len() ==> #[trigger] s[i] != sep,
    ensures
        split(s, sep) == seq![s],
    decreases s.len(),
{
    if s.len() > 0 {
        assert forall|i: int| 0 <= i < s.drop_last().len() implies #[trigger] s.drop_last()[i] != sep by {
            assert(s[i] != sep);
        }
        one_piece(s.drop_last(), sep);
        assert(s[s.len() - 1] != sep);
        assert(s.drop_last().push(s.last()) =~= s);
        assert(split(s, sep) =~= seq![s]);
    } else {
        assert(s =~= Seq::<char>::empty());
        assert(split(s, sep) =~= seq![s]);
    }
}

/// Text without a separator is one entry, trimmed, or none where nothing is
/// left.
pub proof fn plain_text_is_one_entry(s: &str, sep: char, list: Vec<String>, t: String)
    requires
        call_ensures(entries, (s, sep), list),
        call_ensures(trim, (s,), t),
        forall|i: int| 0 <= i < s@.len() ==> #[trigger] s@[i] != sep,
    ensures
        t@.len() > 0 ==> texts(list@) == seq![t@],
        t@.len() == 0 ==> list@.len() == 0,
{
    one_piece(s@, sep);
    reveal_with_fuel(filled_pieces, 2);
    assert(seq![s@].drop_last() =~= Seq::<Seq<char>>::empty());
    assert(texts(list@).len() == list@.len());
    if t@.len() > 0 {
        assert(texts(list@) =~= seq![t@]);
    }
}

proof fn words_before_white(s: Seq<char>, tail: Seq<char>)
    requires
        tail.len() > 0 ==> is_white(tail[0]),
    ensures
        words(s + tail).len() >= words(s).len(),
        forall|k: int| 0 <= k < words(s).len() ==> #[trigger] words(s + tail)[k] == words(s)[k],
        tail.len() > 0 && !is_white(tail.last()) ==> words(s + tail).len() > words(s).len(),
    decreases tail.len(),
{
    let all = s + tail;
    if tail.len() == 0 {
        assert(all =~= s);
    } else {
        let rest = tail.drop_last();
        assert(all.drop_last() =~= s + rest);
        if rest.len() > 0 {
            assert(rest[0] == tail[0]);
            words_before_white(s, rest);
            if !is_white(all.last()) && !is_white(all[all.len() - 2]) {
                assert(all[all.len() - 2] == rest.last());
            }
        } else {
            assert(s + rest =~= s);
            assert(is_white(all.last()));
        }
    }
}

proof fn word_after_white(head: Seq<char>, word: Seq<char>)
    requires
        head.len() > 0 ==> is_white(head.last()),
        word.len() > 0,
        forall|i: int| 0 <= i < word.len() ==> !is_white(#[trigger] word[i]),
    ensures
        words(head + word) == words(head).push(word),
    decreases word.len(),
{
    let all = head + word;
    let rest = word.drop_last();
    assert(all.drop_last() =~= head + rest);
    assert(!is_white(word[word.len() - 1]));
    assert(all.last() == word.last());
    if rest.len() == 0 {
        assert(head + rest =~= head);
        if head.len() > 0 {
            assert(all[all.len() - 2] == head.last());
        }
        assert(word =~= seq![word.last()]);
    } else {
        assert forall|i: int| 0 <= i < rest.len() implies !is_white(#[trigger] rest[i]) by {
            assert(rest[i] == word[i]);
        }
        word_after_white(head, rest);
        assert(all[all.len() - 2] == rest.last());
        assert(!is_white(rest[rest.len() - 1]));
        assert(rest.push(word.last()) =~= word);
        assert(words(all) =~= words(head).push(word));
    }
}

/// A run of characters between white space is a word, and its number is that
/// of the words before it.
pub proof fn words_are_counted(s: &str, head: Seq<char>, word: Seq<char>, tail: Seq<char>, n: usize, found: Option<String>)
    requires
        call_ensures(nth_word, (s, n), found),
        s@ == head + word + tail,
        head.len() > 0 ==> is_white(head.last()),
        tail.len() > 0 ==> is_white(tail[0]),
        word.len() > 0,
        forall|i: int| 0 <= i < word.len() ==> !is_white(#[trigger] word[i]),
        n == words(head).len(),
    ensures
        found is Some && found->0@ == word,
{
    word_after_white(head, word);
    words_before_white(head + word, tail);
    assert(words(head + word)[n as int] == word);
    assert(words(head + word + tail)[n as int] == words(head + word)[n as int]);
}

/// White space alone has no words.
pub proof fn white_space_has_no_words(s: Seq<char>)
    requires
        forall|i: int| 0 <= i < s.len() ==> is_white(#[trigger] s[i]),
    ensures
        words(s).len() == 0,
    decreases s.len(),
{
    if s.len() > 0 {
        assert(is_white(s[s.len() - 1]));
        assert forall|i: int| 0 <= i < s.drop_last().len() implies is_white(#[trigger] s.drop_last()[i]) by {
            assert(is_white(s[i]));
        }
        white_space_has_no_words(s.drop_last());
    }
}

/// What follows the last closing bracket is found, and nothing where there is
/// none.
pub proof fn brackets_end_where_they_close(s: &str, head: Seq<char>, tail: Seq<char>, found: Option<String>)
    requires
        call_ensures(after_bracket, (s,), found),
        forall|i: int| 0 <= i < tail.len() ==> #[trigger] tail[i] != ')',
    ensures
        s@ == head.push(')') + tail ==> found is Some && found->0@ == tail,
        s@ == tail ==> found is None,
{
    if s@ == head.push(')') + tail {
        let from = head.len() as int + 1;
        assert forall|i: int| from <= i < s@.len() implies #[trigger] s@[i] != ')' by {
            assert(s@[i] == tail[i - from]);
        }
        bracket_tail_at(s@, from);
        assert(s@.skip(from) =~= tail);
    }
    if s@ == tail {
        bracket_tail_at(s@, 0);
    }
}

/// One more digit makes a number ten times as large and adds the digit, as far
/// as sixty-four bits reach; a sign in front turns it around or not.
pub proof fn digits_count_by_ten(s: &str, longer: &str, negative: &str, positive: &str, d: char, a: Option<i64>, b: Option<i64>, c: Option<i64>, p: Option<i64>)
    requires
        call_ensures(parse_number, (s,), a),
        call_ensures(parse_number, (longer,), b),
        call_ensures(parse_number, (negative,), c),
        call_ensures(parse_number, (positive,), p),
        a is Some,
        '0' <= s@[0] <= '9',
        '0' <= d <= '9',
        longer@ == s@.push(d),
        negative@ == seq!['-'] + s@,
        positive@ == seq!['+'] + s@,
    ensures
        10 * a->0 + (d as int - 0x30) <= i64::MAX ==> b is Some && b->0 == 10 * a->0 + (d as int - 0x30),
        10 * a->0 + (d as int - 0x30) > i64::MAX ==> b is None,
        c is Some && c->0 == -a->0,
        p == a,
{
    assert(unsigned_part(s@) == s@);
    assert(unsigned_part(longer@) == longer@);
    assert(longer@.drop_last() =~= s@);
    assert forall|i: int| 0 <= i < longer@.len() implies is_digit(#[trigger] longer@[i]) by {
        if i < s@.len() {
            assert(is_digit(s@[i]));
        }
    }
    assert(unsigned_part(negative@) =~= s@);
    assert(unsigned_part(positive@) =~= s@);
    digits_nonnegative(s@);
}

/// A single digit is its own value, and anything but digits behind an optional
/// sign is no number.
pub proof fn numbers_are_digits(s: &str, n: Option<i64>, i: int)
    requires
        call_ensures(parse_number, (s,), n),
    ensures
        s@.len() == 1 && '0' <= s@[0] <= '9' ==> n is Some && n->0 == s@[0] as int - 0x30,
        1 <= i < s@.len() && !('0' <= s@[i] <= '9') ==> n is None,
        s@.len() == 0 ==> n is None,
        s@.len() > 0 && !('0' <= s@[0] <= '9') && s@[0] != '-' && s@[0] != '+' ==> n is None,
        s@.len() == 1 && (s@[0] == '-' || s@[0] == '+') ==> n is None,
{
    let digits = unsigned_part(s@);
    reveal_with_fuel(digits_value, 2);
    if 1 <= i < s@.len() && !('0' <= s@[i] <= '9') {
        let at = if has_sign(s@) { i - 1 } else { i };
        assert(digits[at] == s@[i]);
        assert(!is_digit(digits[at]));
    }
    if s@.len() > 0 && !('0' <= s@[0] <= '9') && s@[0] != '-' && s@[0] != '+' {
        assert(!is_digit(digits[0]));
    }
}

/// The last component of a command is what follows its last slash or
/// backslash, and all of it where there is none.
pub proof fn components_end_the_path(s: &str, head: Seq<char>, sep: char, tail: Seq<char>, name: String)
    requires
        call_ensures(last_component, (s,), name),
        sep == '/' || sep == '\\',
        forall|i: int| 0 <= i < tail.len() ==> #[trigger] tail[i] != '/' && tail[i] != '\\',
    ensures
        s@ == head.push(sep) + tail || s@ == tail ==> name@ == tail,
{
    base_name_of(head.push(sep), tail);
    base_name_of(Seq::empty(), tail);
    assert(Seq::<char>::empty() + tail =~= tail);
}

proof fn base_name_of(head: Seq<char>, tail: Seq<char>)
    requires
        head.len() > 0 ==> is_separator(head.last()),
        forall|i: int| 0 <= i < tail.len() ==> #[trigger] tail[i] != '/' && tail[i] != '\\',
    ensures
        base_name(head + tail) == tail,
    decreases tail.len(),
{
    let all = head + tail;
    if tail.len() == 0 {
        assert(all =~= head);
    } else {
        let rest = tail.drop_last();
        assert forall|i: int| 0 <= i < rest.len() implies #[trigger] rest[i] != '/' && rest[i] != '\\' by {
            assert(rest[i] == tail[i]);
        }
        base_name_of(head, rest);
        assert(tail[tail.len() - 1] != '/');
        assert(all.drop_last() =~= head + rest);
        assert(all.last() == tail.last());
        assert(rest.push(tail.last()) =~= tail);
    }
}

pub(crate) proof fn empty_paths_have_no_name()
    ensures
        base_name(Seq::<char>::empty()).len() == 0,
{
}

/// Characters are those of the text, in order.
pub proof fn characters_are_the_texts(s: &str, v: Vec<char>, i: int)
    requires
        call_ensures(chars_of, (s,), v),
        0 <= i < s@.len(),
    ensures
        v@.len() == s@.len(),
        v@[i] == s@[i],
{
}

/// White space is what Unicode has it for: twenty-five characters and no other.
pub proof fn white_space_is_unicodes(c: char, r: bool)
    requires
        call_ensures(white, (c,), r),
    ensures
        ({
            let n = c as u32 as int;
            r <==> 9 <= n <= 13 || n == 32 || n == 133 || n == 160 || n == 5760 || 8192 <= n <= 8202 || n == 8232 || n == 8233 || n == 8239 || n == 8287
                || n == 12288
        }),
{
}

} // verus!
