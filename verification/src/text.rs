//! Text helpers: equality and order of strings, splitting, trimming and
//! reading unsigned numbers, each specified over sequences of characters.

use vstd::prelude::*;
use vstd::string::*;

verus! {

/// The characters of `s`.
pub fn to_chars(s: &str) -> (chars: Vec<char>)
    ensures
        chars@ == s@,
{
    let mut chars: Vec<char> = Vec::new();
    for c in it: s.chars()
        invariant
            chars@ == it.seq().take(it.index()),
            it.seq() == s@,
    {
        chars.push(c);
    }
    chars
}

/// Whether two strings hold the same characters.
pub fn same_text(a: &str, b: &str) -> (same: bool)
    ensures
        same == (a@ == b@),
{
    let x: Vec<char> = to_chars(a);
    let y: Vec<char> = to_chars(b);
    if x.len() != y.len() {
        return false;
    }
    for i in 0..x.len()
        invariant
            x@ == a@,
            y@ == b@,
            x@.len() == y@.len(),
            forall|j: int| 0 <= j < i ==> x@[j] == y@[j],
    {
        if x[i] != y[i] {
            return false;
        }
    }
    assert(a@ =~= b@);
    true
}

/// The pieces of `s` between the occurrences of `sep`, in order. There is one
/// piece more than there are occurrences.
pub open spec fn split_by(s: Seq<char>, sep: char) -> Seq<Seq<char>>
    decreases s.len(),
{
    match s.index_of_first(sep) {
        Some(i) => if 0 <= i < s.len() {
            seq![s.take(i)] + split_by(s.skip(i + 1), sep)
        } else {
            seq![s]
        },
        None => seq![s],
    }
}

/// The views of a list of string slices.
pub open spec fn texts(parts: Seq<&str>) -> Seq<Seq<char>> {
    parts.map_values(|part: &str| part@)
}

/// Where the first `sep` of a sequence stands decides the first piece.
proof fn lemma_split_step(s: Seq<char>, sep: char, i: int)
    requires
        0 <= i < s.len(),
        s[i] == sep,
        forall|j: int| 0 <= j < i ==> s[j] != sep,
    ensures
        split_by(s, sep) == seq![s.take(i)] + split_by(s.skip(i + 1), sep),
{
    s.index_of_first_ensures(sep);
    assert(s.contains(sep));
}

/// Text without a separator is its own single piece.
proof fn lemma_split_whole(s: Seq<char>, sep: char)
    requires
        !s.contains(sep),
    ensures
        split_by(s, sep) == seq![s],
{
    s.index_of_first_ensures(sep);
}

/// Splits `s` at every `sep`.
pub fn split_text(s: &str, sep: char) -> (parts: Vec<&str>)
    ensures
        texts(parts@) == split_by(s@, sep),
{
    let chars: Vec<char> = to_chars(s);
    let mut parts: Vec<&str> = Vec::new();
    let mut start: usize = 0;
    assert(s@.skip(0) =~= s@);
    assert(texts(parts@) + split_by(s@, sep) =~= split_by(s@, sep));
    for i in 0..chars.len()
        invariant
            chars@ == s@,
            start <= i,
            forall|j: int| start <= j < i ==> s@[j] != sep,
            split_by(s@, sep) == texts(parts@) + split_by(s@.skip(start as int), sep),
    {
        if chars[i] == sep {
            let ghost before = parts@;
            let part: &str = s.substring_char(start, i);
            parts.push(part);
            proof {
                let rest = s@.skip(start as int);
                lemma_split_step(rest, sep, i - start);
                assert(rest.take(i - start) =~= part@);
                assert(rest.skip(i - start + 1) =~= s@.skip(i + 1));
                assert(texts(parts@) =~= texts(before).push(part@));
                assert(texts(before) + (seq![part@] + split_by(s@.skip(i + 1), sep)) =~= texts(
                    parts@,
                ) + split_by(s@.skip(i + 1), sep));
            }
            start = i + 1;
        }
    }
    let ghost before = parts@;
    let part: &str = s.substring_char(start, chars.len());
    parts.push(part);
    proof {
        let rest = s@.skip(start as int);
        assert(part@ =~= rest);
        assert(!rest.contains(sep)) by {
            if rest.contains(sep) {
                let j = choose|j: int| 0 <= j < rest.len() && rest[j] == sep;
                assert(s@[start + j] == sep);
            }
        }
        lemma_split_whole(rest, sep);
        assert(texts(parts@) =~= texts(before) + seq![rest]);
    }
    parts
}

/// What follows `prefix` in `s`, if `s` starts with it.
pub fn text_after<'a>(s: &'a str, prefix: &str) -> (rest: Option<&'a str>)
    ensures
        match rest {
            Some(rest) => prefix@.is_prefix_of(s@) && rest@ == s@.skip(prefix@.len() as int),
            None => !prefix@.is_prefix_of(s@),
        },
{
    let chars: Vec<char> = to_chars(s);
    let head: Vec<char> = to_chars(prefix);
    if chars.len() < head.len() {
        return None;
    }
    for i in 0..head.len()
        invariant
            chars@ == s@,
            head@ == prefix@,
            head@.len() <= chars@.len(),
            forall|j: int| 0 <= j < i ==> s@[j] == prefix@[j],
    {
        if chars[i] != head[i] {
            assert(s@.take(prefix@.len() as int)[i as int] != prefix@[i as int]);
            return None;
        }
    }
    assert(prefix@ =~= s@.take(prefix@.len() as int));
    let rest: &str = s.substring_char(head.len(), chars.len());
    assert(rest@ =~= s@.skip(prefix@.len() as int));
    Some(rest)
}

/// Unicode's `White_Space` characters.
pub open spec fn white_space(c: char) -> bool {
    let u = c as u32;
    ||| 0x09 <= u <= 0x0d
    ||| u == 0x20
    ||| u == 0x85
    ||| u == 0xa0
    ||| u == 0x1680
    ||| 0x2000 <= u <= 0x200a
    ||| u == 0x2028
    ||| u == 0x2029
    ||| u == 0x202f
    ||| u == 0x205f
    ||| u == 0x3000
}

/// Whether `c` is white space.
pub fn is_white_space(c: char) -> (white: bool)
    ensures
        white == white_space(c),
{
    let u: u32 = c as u32;
    (0x09 <= u && u <= 0x0d) || u == 0x20 || u == 0x85 || u == 0xa0 || u == 0x1680 || (0x2000 <= u
        && u <= 0x200a) || u == 0x2028 || u == 0x2029 || u == 0x202f || u == 0x205f || u == 0x3000
}

/// `s` without its leading white space.
pub open spec fn trim_start(s: Seq<char>) -> Seq<char>
    decreases s.len(),
{
    if s.len() > 0 && white_space(s.first()) {
        trim_start(s.drop_first())
    } else {
        s
    }
}

/// `s` without its trailing white space.
pub open spec fn trim_end(s: Seq<char>) -> Seq<char>
    decreases s.len(),
{
    if s.len() > 0 && white_space(s.last()) {
        trim_end(s.drop_last())
    } else {
        s
    }
}

/// `s` without white space at either end.
pub open spec fn trimmed(s: Seq<char>) -> Seq<char> {
    trim_end(trim_start(s))
}

/// Removes white space from both ends of `s`.
pub fn trim_text(s: &str) -> (t: &str)
    ensures
        t@ == trimmed(s@),
{
    let chars: Vec<char> = to_chars(s);
    let mut start: usize = 0;
    assert(s@.skip(0) =~= s@);
    while start < chars.len() && is_white_space(chars[start])
        invariant
            chars@ == s@,
            start <= chars.len(),
            trim_start(s@) == trim_start(s@.skip(start as int)),
        decreases chars.len() - start,
    {
        assert(s@.skip(start as int).drop_first() =~= s@.skip(start + 1));
        start = start + 1;
    }
    let mut end: usize = chars.len();
    assert(trim_start(s@) == s@.skip(start as int));
    assert(s@.subrange(start as int, end as int) =~= s@.skip(start as int));
    while start < end && is_white_space(chars[end - 1])
        invariant
            chars@ == s@,
            start <= end <= chars.len(),
            trimmed(s@) == trim_end(s@.subrange(start as int, end as int)),
        decreases end,
    {
        assert(s@.subrange(start as int, end as int).drop_last() =~= s@.subrange(
            start as int,
            end - 1,
        ));
        end = end - 1;
    }
    s.substring_char(start, end)
}

/// Whether `c` is a decimal digit.
pub open spec fn is_digit(c: char) -> bool {
    '0' <= c <= '9'
}

/// The number that a sequence of decimal digits writes.
pub open spec fn decimal_value(digits: Seq<char>) -> nat
    decreases digits.len(),
{
    if digits.len() == 0 {
        0
    } else {
        decimal_value(digits.drop_last()) * 10 + (digits.last() as u32 - '0' as u32) as nat
    }
}

/// `s` without a leading plus sign.
pub open spec fn without_plus(s: Seq<char>) -> Seq<char> {
    if s.len() > 0 && s[0] == '+' {
        s.skip(1)
    } else {
        s
    }
}

/// The `usize` that `s` writes: an optional plus sign and at least one decimal
/// digit, nothing else, with a value that a `usize` can hold.
pub open spec fn usize_text(s: Seq<char>) -> Option<usize> {
    let digits = without_plus(s);
    if digits.len() > 0 && (forall|i: int| 0 <= i < digits.len() ==> is_digit(#[trigger] digits[i]))
        && decimal_value(digits) <= usize::MAX {
        Some(decimal_value(digits) as usize)
    } else {
        None
    }
}

/// More digits never write a smaller number.
proof fn lemma_decimal_grows(digits: Seq<char>, k: int)
    requires
        0 <= k <= digits.len(),
        forall|i: int| 0 <= i < digits.len() ==> is_digit(#[trigger] digits[i]),
    ensures
        decimal_value(digits.take(k)) <= decimal_value(digits),
    decreases digits.len() - k,
{
    if k == digits.len() {
        assert(digits.take(k) =~= digits);
    } else {
        lemma_decimal_grows(digits, k + 1);
        assert(digits.take(k + 1).drop_last() =~= digits.take(k));
    }
}

/// Reads an unsigned number.
pub fn read_usize(s: &str) -> (value: Option<usize>)
    ensures
        value == usize_text(s@),
{
    let chars: Vec<char> = to_chars(s);
    let start: usize = if chars.len() > 0 && chars[0] == '+' {
        1
    } else {
        0
    };
    let ghost digits = without_plus(s@);
    assert(digits =~= s@.skip(start as int));
    if start == chars.len() {
        return None;
    }
    let mut value: usize = 0;
    let mut i: usize = start;
    assert(digits.take(0) =~= Seq::<char>::empty());
    while i < chars.len()
        invariant
            chars@ == s@,
            start <= i <= chars.len(),
            digits == without_plus(s@),
            digits == s@.skip(start as int),
            start <= 1,
            digits.len() > 0,
            forall|j: int| 0 <= j < i - start ==> is_digit(#[trigger] digits[j]),
            value == decimal_value(digits.take(i - start)),
        decreases chars.len() - i,
    {
        let c: char = chars[i];
        assert(c == digits[i - start]);
        if !('0' <= c && c <= '9') {
            return None;
        }
        let digit: usize = (c as u32 - '0' as u32) as usize;
        proof {
            assert(digits.take(i - start + 1).drop_last() =~= digits.take(i - start));
            if usize_text(s@) is Some {
                lemma_decimal_grows(digits, i - start + 1);
            }
        }
        match value.checked_mul(10) {
            Some(shifted) => match shifted.checked_add(digit) {
                Some(next) => {
                    value = next;
                },
                None => {
                    return None;
                },
            },
            None => {
                return None;
            },
        }
        i = i + 1;
    }
    assert(digits.take(digits.len() as int) =~= digits);
    Some(value)
}

/// Whether `a` comes before `b` in the order of strings: at the first
/// difference the smaller character decides, and a proper prefix comes first.
pub open spec fn text_before(a: Seq<char>, b: Seq<char>) -> bool
    decreases a.len(),
{
    if b.len() == 0 {
        false
    } else if a.len() == 0 {
        true
    } else if a[0] != b[0] {
        a[0] < b[0]
    } else {
        text_before(a.drop_first(), b.drop_first())
    }
}

/// Which of two strings comes first.
#[derive(Clone, Copy, Debug, PartialEq, Eq)]
pub enum TextOrder {
    Before,
    Same,
    After,
}

/// Orders two strings.
pub fn order_texts(a: &str, b: &str) -> (order: TextOrder)
    ensures
        order is Before <==> text_before(a@, b@),
        order is After <==> text_before(b@, a@),
        order is Same <==> a@ == b@,
{
    let x: Vec<char> = to_chars(a);
    let y: Vec<char> = to_chars(b);
    let mut i: usize = 0;
    assert(a@.skip(0) =~= a@ && b@.skip(0) =~= b@);
    while i < x.len() && i < y.len()
        invariant
            x@ == a@,
            y@ == b@,
            i <= x.len(),
            i <= y.len(),
            forall|j: int| 0 <= j < i ==> x@[j] == y@[j],
            text_before(a@, b@) == text_before(a@.skip(i as int), b@.skip(i as int)),
            text_before(b@, a@) == text_before(b@.skip(i as int), a@.skip(i as int)),
        decreases x.len() - i,
    {
        assert(a@.skip(i as int).drop_first() =~= a@.skip(i + 1));
        assert(b@.skip(i as int).drop_first() =~= b@.skip(i + 1));
        if x[i] != y[i] {
            return if x[i] < y[i] {
                TextOrder::Before
            } else {
                TextOrder::After
            };
        }
        i = i + 1;
    }
    if i < y.len() {
        TextOrder::Before
    } else if i < x.len() {
        TextOrder::After
    } else {
        assert(a@ =~= b@);
        TextOrder::Same
    }
}

/// The first difference decides the order.
pub proof fn lemma_before_at(a: Seq<char>, b: Seq<char>, k: int)
    requires
        0 <= k < a.len(),
        k < b.len(),
        forall|i: int| 0 <= i < k ==> a[i] == b[i],
        a[k] < b[k],
    ensures
        text_before(a, b),
    decreases k,
{
    if k > 0 {
        assert forall|i: int| 0 <= i < k - 1 implies a.drop_first()[i] == b.drop_first()[i] by {
            assert(a[i + 1] == b[i + 1]);
        }
        lemma_before_at(a.drop_first(), b.drop_first(), k - 1);
    }
}

/// No text comes before itself.
pub proof fn lemma_before_irreflexive(a: Seq<char>)
    ensures
        !text_before(a, a),
    decreases a.len(),
{
    if a.len() > 0 {
        lemma_before_irreflexive(a.drop_first());
    }
}

/// The order of texts is transitive.
pub proof fn lemma_before_transitive(a: Seq<char>, b: Seq<char>, c: Seq<char>)
    requires
        text_before(a, b),
        text_before(b, c),
    ensures
        text_before(a, c),
    decreases a.len(),
{
    if a.len() > 0 && b.len() > 0 && c.len() > 0 && a[0] == b[0] && b[0] == c[0] {
        lemma_before_transitive(a.drop_first(), b.drop_first(), c.drop_first());
    }
}

/// The characters that count as white space, one by one.
pub proof fn law_white_space_characters(c: char)
    ensures
        white_space(c) <==> {
            let u = c as u32;
            ||| u == 0x09
            ||| u == 0x0a
            ||| u == 0x0b
            ||| u == 0x0c
            ||| u == 0x0d
            ||| u == 0x20
            ||| u == 0x85
            ||| u == 0xa0
            ||| u == 0x1680
            ||| u == 0x2000
            ||| u == 0x2001
            ||| u == 0x2002
            ||| u == 0x2003
            ||| u == 0x2004
            ||| u == 0x2005
            ||| u == 0x2006
            ||| u == 0x2007
            ||| u == 0x2008
            ||| u == 0x2009
            ||| u == 0x200a
            ||| u == 0x2028
            ||| u == 0x2029
            ||| u == 0x202f
            ||| u == 0x205f
            ||| u == 0x3000
        },
{
}

/// Whether `s` has white space, and nothing else, before `start` and from `end` on.
pub open spec fn white_around(s: Seq<char>, start: int, end: int) -> bool {
    &&& 0 <= start <= end <= s.len()
    &&& forall|k: int| 0 <= k < start ==> white_space(#[trigger] s[k])
    &&& forall|k: int| end <= k < s.len() ==> white_space(#[trigger] s[k])
}

/// Trimming removes white space from the ends of a text, all of it and nothing else: what
/// stays is a stretch of the text, with white space alone around it, that neither begins nor
/// ends with white space.
pub proof fn law_trimming_removes_white_space_at_the_ends(s: Seq<char>)
    ensures
        exists|start: int, end: int| #[trigger]
            white_around(s, start, end) && trimmed(s) == s.subrange(start, end),
        trimmed(s).len() > 0 ==> !white_space(trimmed(s)[0]) && !white_space(
            trimmed(s)[trimmed(s).len() - 1],
        ),
{
    let start = lemma_trim_start(s);
    let rest = s.skip(start);
    let len = lemma_trim_end(rest);
    let end = start + len;
    assert(rest.take(len) =~= s.subrange(start, end));
    assert forall|k: int| end <= k < s.len() implies white_space(#[trigger] s[k]) by {
        assert(rest[k - start] == s[k]);
    }
    assert(white_around(s, start, end));
    if trimmed(s).len() > 0 {
        assert(trimmed(s)[0] == rest[0]);
    }
}

/// A text without leading white space is what follows some of its characters, all white.
proof fn lemma_trim_start(s: Seq<char>) -> (start: int)
    ensures
        0 <= start <= s.len(),
        trim_start(s) == s.skip(start),
        forall|k: int| 0 <= k < start ==> white_space(#[trigger] s[k]),
        start < s.len() ==> !white_space(s[start]),
    decreases s.len(),
{
    if s.len() > 0 && white_space(s.first()) {
        let start = lemma_trim_start(s.drop_first());
        assert(s.drop_first().skip(start) =~= s.skip(start + 1));
        assert forall|k: int| 0 <= k < start + 1 implies white_space(#[trigger] s[k]) by {
            if k > 0 {
                assert(s.drop_first()[k - 1] == s[k]);
            }
        }
        if start < s.len() - 1 {
            assert(s.drop_first()[start] == s[start + 1]);
        }
        start + 1
    } else {
        assert(s.skip(0) =~= s);
        0
    }
}

/// A text without trailing white space is what comes before some of its characters, all
/// white.
proof fn lemma_trim_end(s: Seq<char>) -> (end: int)
    ensures
        0 <= end <= s.len(),
        trim_end(s) == s.take(end),
        forall|k: int| end <= k < s.len() ==> white_space(#[trigger] s[k]),
        end > 0 ==> !white_space(s[end - 1]),
    decreases s.len(),
{
    if s.len() > 0 && white_space(s.last()) {
        let end = lemma_trim_end(s.drop_last());
        assert(s.drop_last().take(end) =~= s.take(end));
        assert forall|k: int| end <= k < s.len() implies white_space(#[trigger] s[k]) by {
            if k < s.len() - 1 {
                assert(s.drop_last()[k] == s[k]);
            }
        }
        if end > 0 {
            assert(s.drop_last()[end - 1] == s[end - 1]);
        }
        end
    } else {
        assert(s.take(s.len() as int) =~= s);
        s.len() as int
    }
}

/// Numbers are read digit by digit. One digit is its value, and a further digit adds itself
/// to ten times the number before it, as long as a `usize` can hold that. Nothing that could
/// not be read becomes a number by what follows it, unless it was empty or a lone plus sign.
pub proof fn law_numbers_are_read_digit_by_digit(s: Seq<char>, c: char)
    ensures
        usize_text(Seq::empty()) is None,
        usize_text(seq!['+']) is None,
        !('0' <= c <= '9') && (s.len() > 0 || c != '+') ==> usize_text(s.push(c)) is None,
        '0' <= c <= '9' ==> {
            let digit = c as u32 - '0' as u32;
            &&& usize_text(seq![c]) == Some(digit as usize)
            &&& usize_text(seq!['+', c]) == Some(digit as usize)
            &&& usize_text(s) matches Some(value) ==> usize_text(s.push(c)) == (if value * 10
                + digit <= usize::MAX {
                Some((value * 10 + digit) as usize)
            } else {
                None
            })
            &&& s.len() > 0 && s != seq!['+'] && usize_text(s) is None ==> usize_text(
                s.push(c),
            ) is None
        },
{
    reveal_with_fuel(decimal_value, 3);
    assert(without_plus(seq!['+']) =~= Seq::<char>::empty());
    let t = s.push(c);
    if s.len() > 0 {
        assert(without_plus(t) =~= without_plus(s).push(c));
        assert(without_plus(t).drop_last() =~= without_plus(s));
        if s[0] == '+' && s.len() == 1 {
            assert(s =~= seq!['+']);
        }
        assert forall|i: int| 0 <= i < without_plus(s).len() implies #[trigger] without_plus(s)[i]
            == without_plus(t)[i] by {}
        let last = without_plus(t).len() - 1;
        assert(without_plus(t)[last] == c);
    } else if c != '+' {
        assert(without_plus(t) =~= seq![c]);
        assert(without_plus(t)[0] == c);
    }
    if '0' <= c <= '9' {
        assert(without_plus(seq![c]) =~= seq![c]);
        assert(without_plus(seq!['+', c]) =~= seq![c]);
        assert(seq![c].drop_last() =~= Seq::<char>::empty());
        assert(decimal_value(seq![c]) == c as u32 - '0' as u32);
    }
}

/// One text comes before another exactly if they agree up to some point, and there the first
/// ends, or has the smaller character.
pub proof fn law_texts_are_ordered_at_the_first_difference(a: Seq<char>, b: Seq<char>)
    ensures
        text_before(a, b) <==> exists|k: int| #[trigger] differ_at(a, b, k),
    decreases a.len(),
{
    if text_before(a, b) {
        if a.len() == 0 || a[0] != b[0] {
            assert(differ_at(a, b, 0));
        } else {
            let x = a.drop_first();
            let y = b.drop_first();
            law_texts_are_ordered_at_the_first_difference(x, y);
            let k = choose|k: int| #[trigger] differ_at(x, y, k);
            assert forall|i: int| 0 <= i < k + 1 implies a[i] == b[i] by {
                if i > 0 {
                    assert(x[i - 1] == y[i - 1]);
                }
            }
            assert(differ_at(a, b, k + 1));
        }
    }
    if exists|k: int| #[trigger] differ_at(a, b, k) {
        let k = choose|k: int| #[trigger] differ_at(a, b, k);
        if k > 0 {
            let x = a.drop_first();
            let y = b.drop_first();
            assert forall|i: int| 0 <= i < k - 1 implies x[i] == y[i] by {
                assert(a[i + 1] == b[i + 1]);
            }
            assert(differ_at(x, y, k - 1));
            law_texts_are_ordered_at_the_first_difference(x, y);
        }
    }
}

/// Whether the texts agree before `k`, and there `a` ends before `b` does, or has the smaller
/// character.
pub open spec fn differ_at(a: Seq<char>, b: Seq<char>, k: int) -> bool {
    &&& 0 <= k <= a.len()
    &&& k < b.len()
    &&& forall|i: int| 0 <= i < k ==> a[i] == b[i]
    &&& k == a.len() || a[k] < b[k]
}

} // verus!
