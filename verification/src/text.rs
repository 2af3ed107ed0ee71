//! Characters and strings: what the stages need of them.
use vstd::prelude::*;

verus! {

/// The characters of `text`, in order.
pub fn characters(text: &str) -> (chars: Vec<char>)
    ensures
        chars@ == text@,
{
    let mut chars: Vec<char> = Vec::new();
    for c in it: text.chars()
        invariant
            chars@ == it.seq().take(it.index()),
            it.seq() == text@,
    {
        chars.push(c);
    }
    chars
}

/// Tells whether `a` and `b` hold the same characters.
pub fn same(a: &str, b: &str) -> (equal: bool)
    ensures
        equal == (a@ == b@),
{
    let left = characters(a);
    let right = characters(b);
    if left.len() != right.len() {
        return false;
    }
    let mut i: usize = 0;
    while i < left.len()
        invariant
            i <= left.len() == right.len(),
            left@ == a@,
            right@ == b@,
            left@.take(i as int) == right@.take(i as int),
        decreases left.len() - i,
    {
        if left[i] != right[i] {
            return false;
        }
        assert(left@.take(i + 1) =~= left@.take(i as int).push(left@[i as int]));
        assert(right@.take(i + 1) =~= right@.take(i as int).push(right@[i as int]));
        i += 1;
    }
    assert(left@.take(left.len() as int) == left@);
    assert(right@.take(right.len() as int) == right@);
    true
}

/// The views of a list of strings.
pub open spec fn texts(strings: Seq<String>) -> Seq<Seq<char>> {
    strings.map_values(|s: String| s@)
}

/// A copy of a list of strings.
pub fn copied(strings: &Vec<String>) -> (copy: Vec<String>)
    ensures
        texts(copy@) == texts(strings@),
{
    let mut copy: Vec<String> = Vec::new();
    let mut i: usize = 0;
    while i < strings.len()
        invariant
            i <= strings.len(),
            texts(copy@) == texts(strings@).take(i as int),
        decreases strings.len() - i,
    {
        let one = strings[i].clone();
        assert(texts(copy@.push(one)) =~= texts(copy@).push(one@));
        assert(texts(strings@).take(i + 1) =~= texts(strings@).take(i as int).push(one@));
        copy.push(one);
        i += 1;
    }
    assert(texts(strings@).take(strings.len() as int) == texts(strings@));
    copy
}

/// `fields` written one after the other, with `delimiter` between each two.
pub open spec fn joined(fields: Seq<Seq<char>>, delimiter: char) -> Seq<char>
    decreases fields.len(),
{
    if fields.len() == 0 {
        seq![]
    } else if fields.len() == 1 {
        fields[0]
    } else {
        joined(fields.drop_last(), delimiter).push(delimiter) + fields.last()
    }
}

/// `String::push`: adds the character `c` at the end of `text`.
#[verifier::external_body]
pub(crate) fn push_char(text: &mut String, c: char)
    ensures
        final(text)@ == old(text)@.push(c),
{
    text.push(c);
}

/// Whether `c` is white space: one of the code points to which Unicode
/// gives the property `White_Space`.
pub open spec fn is_whitespace(c: char) -> bool {
    let n = c as int;
    ||| 0x09 <= n <= 0x0D
    ||| n == 0x20
    ||| n == 0x85
    ||| n == 0xA0
    ||| n == 0x1680
    ||| 0x2000 <= n <= 0x200A
    ||| n == 0x2028
    ||| n == 0x2029
    ||| n == 0x202F
    ||| n == 0x205F
    ||| n == 0x3000
}

/// Tells whether `c` is white space.
pub fn whitespace(c: char) -> (white: bool)
    ensures
        white == is_whitespace(c),
{
    ('\u{9}' <= c && c <= '\u{d}') || c == ' ' || c == '\u{85}' || c == '\u{a0}' || c == '\u{1680}'
        || ('\u{2000}' <= c && c <= '\u{200a}') || c == '\u{2028}' || c == '\u{2029}' || c
        == '\u{202f}' || c == '\u{205f}' || c == '\u{3000}'
}

/// `s` without the white space it begins with.
pub open spec fn trimmed_start(s: Seq<char>) -> Seq<char>
    decreases s.len(),
{
    if s.len() > 0 && is_whitespace(s.first()) {
        trimmed_start(s.drop_first())
    } else {
        s
    }
}

/// `s` without the white space it ends with.
pub open spec fn trimmed_end(s: Seq<char>) -> Seq<char>
    decreases s.len(),
{
    if s.len() > 0 && is_whitespace(s.last()) {
        trimmed_end(s.drop_last())
    } else {
        s
    }
}

/// `s` without the white space at either end.
pub open spec fn trimmed(s: Seq<char>) -> Seq<char> {
    trimmed_end(trimmed_start(s))
}

/// The part of `text` that is left when the white space at both ends is
/// taken away.
pub fn trim(text: &str) -> (inner: &str)
    ensures
        inner@ == trimmed(text@),
{
    let chars = characters(text);
    let len = chars.len();
    let mut from: usize = 0;
    assert(chars@.subrange(0, len as int) == chars@);
    while from < len && whitespace(chars[from])
        invariant
            from <= len == chars@.len(),
            trimmed_start(chars@) == trimmed_start(chars@.subrange(from as int, len as int)),
        decreases len - from,
    {
        assert(chars@.subrange(from as int, len as int).drop_first() == chars@.subrange(
            from + 1,
            len as int,
        ));
        from += 1;
    }
    let mut to: usize = len;
    assert(trimmed_start(chars@) == chars@.subrange(from as int, len as int));
    while to > from && whitespace(chars[to - 1])
        invariant
            from <= to <= len == chars@.len(),
            trimmed_end(chars@.subrange(from as int, len as int)) == trimmed_end(
                chars@.subrange(from as int, to as int),
            ),
        decreases to,
    {
        assert(chars@.subrange(from as int, to as int).drop_last() == chars@.subrange(
            from as int,
            to - 1,
        ));
        to -= 1;
    }
    text.substring_char(from, to)
}

/// The character that stands for the digit `d`, for `d` below ten.
pub open spec fn digit(d: nat) -> char {
    (0x30 + d) as char
}

/// `n` in decimal, without leading zeros.
pub open spec fn decimal(n: nat) -> Seq<char>
    decreases n,
{
    if n < 10 {
        seq![digit(n)]
    } else {
        decimal(n / 10).push(digit(n % 10))
    }
}

fn digit_text(d: usize) -> (text: &'static str)
    requires
        d < 10,
    ensures
        text@ == seq![digit(d as nat)],
{
    proof {
        reveal_strlit("0");
        reveal_strlit("1");
        reveal_strlit("2");
        reveal_strlit("3");
        reveal_strlit("4");
        reveal_strlit("5");
        reveal_strlit("6");
        reveal_strlit("7");
        reveal_strlit("8");
        reveal_strlit("9");
    }
    let text = if d == 0 {
        "0"
    } else if d == 1 {
        "1"
    } else if d == 2 {
        "2"
    } else if d == 3 {
        "3"
    } else if d == 4 {
        "4"
    } else if d == 5 {
        "5"
    } else if d == 6 {
        "6"
    } else if d == 7 {
        "7"
    } else if d == 8 {
        "8"
    } else {
        "9"
    };
    assert(text@ =~= seq![digit(d as nat)]);
    text
}

/// Writes `n` in decimal.
pub fn decimal_string(n: usize) -> (text: String)
    ensures
        text@ == decimal(n as nat),
    decreases n,
{
    let last = digit_text(n % 10);
    if n < 10 {
        String::from_str(last)
    } else {
        let mut text = decimal_string(n / 10);
        text.append(last);
        assert(text@ =~= decimal(n as nat));
        text
    }
}

/// Whether `c` is one of the digits `0` to `9`.
pub open spec fn is_digit(c: char) -> bool {
    0x30 <= c as int <= 0x39
}

/// Whether `s` holds digits only.
pub open spec fn all_digits(s: Seq<char>) -> bool {
    forall|i: int| 0 <= i < s.len() ==> is_digit(#[trigger] s[i])
}

/// The number that the digits `s` write in decimal.
pub open spec fn digits_value(s: Seq<char>) -> nat
    decreases s.len(),
{
    if s.len() == 0 {
        0
    } else {
        (digits_value(s.drop_last()) * 10 + (s.last() as int - 0x30)) as nat
    }
}

/// The integer that `s` writes: an optional sign, `+` or `-`, and then one
/// digit or more, in decimal. `None` where `s` is not of that form.
pub open spec fn integer(s: Seq<char>) -> Option<int> {
    let signed = s.len() > 0 && (s[0] == '-' || s[0] == '+');
    let body = if signed {
        s.drop_first()
    } else {
        s
    };
    if body.len() == 0 || !all_digits(body) {
        None
    } else if s[0] == '-' {
        Some(-(digits_value(body) as int))
    } else {
        Some(digits_value(body) as int)
    }
}

/// The integer that `s` writes, where it is one that an `isize` holds.
pub open spec fn machine_integer(s: Seq<char>) -> Option<isize> {
    match integer(s) {
        Some(value) => if isize::MIN <= value <= isize::MAX {
            Some(value as isize)
        } else {
            None
        },
        None => None,
    }
}

/// The digits of `chars` from `start` on, read as a number: `None` where one
/// of them is no digit, `Some(None)` where the number is above `limit`.
fn read_digits(chars: &Vec<char>, start: usize, limit: i128) -> (value: Option<Option<i128>>)
    requires
        start <= chars.len(),
        0 <= limit <= 0x8000_0000_0000_0000,
    ensures
        ({
            let body = chars@.subrange(start as int, chars.len() as int);
            match value {
                None => !all_digits(body),
                Some(None) => all_digits(body) && digits_value(body) > limit,
                Some(Some(number)) => all_digits(body) && number == digits_value(body) && number
                    <= limit,
            }
        }),
{
    let len = chars.len();
    let ghost body = chars@.subrange(start as int, len as int);
    let mut total: i128 = 0;
    let mut over = false;
    let mut i: usize = start;
    while i < len
        invariant
            start <= i <= len == chars.len(),
            body == chars@.subrange(start as int, len as int),
            0 <= limit <= 0x8000_0000_0000_0000,
            all_digits(body.take(i - start)),
            0 <= total <= limit,
            !over ==> total == digits_value(body.take(i - start)),
            over ==> digits_value(body.take(i - start)) > limit,
        decreases len - i,
    {
        let c = chars[i];
        let ghost before = body.take(i - start);
        let ghost after = body.take(i - start + 1);
        assert(body[i - start] == c);
        assert(after.drop_last() == before);
        assert(after.last() == c);
        if c < '0' || c > '9' {
            assert(!is_digit(body[i - start]));
            return None;
        }
        let digit: i128 = (c as u32 - 0x30) as i128;
        assert(digits_value(after) == digits_value(before) * 10 + digit);
        assert(all_digits(after)) by {
            assert forall|k: int| 0 <= k < after.len() implies is_digit(#[trigger] after[k]) by {
                if k < before.len() {
                    assert(after[k] == before[k]);
                }
            }
        }
        if !over {
            let next: i128 = total * 10 + digit;
            if next > limit {
                over = true;
            } else {
                total = next;
            }
        }
        i += 1;
    }
    assert(body.take(len - start) == body);
    if over {
        Some(None)
    } else {
        Some(Some(total))
    }
}

/// Reads `text` as a signed decimal integer.
pub fn parse_integer(text: &str) -> (value: Option<isize>)
    ensures
        value == machine_integer(text@),
{
    let chars = characters(text);
    let len = chars.len();
    if len == 0 {
        return None;
    }
    let negative = chars[0] == '-';
    let start: usize = if negative || chars[0] == '+' {
        1
    } else {
        0
    };
    if start == len {
        return None;
    }
    assert(chars@.subrange(start as int, len as int) == if start == 1 {
        chars@.drop_first()
    } else {
        chars@
    });
    let limit: i128 = isize::MAX as i128 + 1;
    match read_digits(&chars, start, limit) {
        None => None,
        Some(None) => None,
        Some(Some(total)) => {
            if negative {
                Some((-total) as isize)
            } else if total == limit {
                None
            } else {
                Some(total as isize)
            }
        },
    }
}

/// Whether `a` comes before `b` in the order of strings: at the first place
/// where the two differ `a` has the smaller code point, or `a` ends there and
/// `b` goes on.
pub open spec fn text_before(a: Seq<char>, b: Seq<char>) -> bool
    decreases a.len(),
{
    if b.len() == 0 {
        false
    } else if a.len() == 0 {
        true
    } else if a.first() != b.first() {
        (a.first() as int) < (b.first() as int)
    } else {
        text_before(a.drop_first(), b.drop_first())
    }
}

/// Of two different strings one comes before the other.
pub proof fn text_before_total(a: Seq<char>, b: Seq<char>)
    ensures
        a != b ==> text_before(a, b) || text_before(b, a),
    decreases a.len(),
{
    if a.len() > 0 && b.len() > 0 && a.first() == b.first() {
        text_before_total(a.drop_first(), b.drop_first());
        if a.drop_first() == b.drop_first() {
            assert(a =~= seq![a.first()] + a.drop_first());
            assert(b =~= seq![b.first()] + b.drop_first());
        }
    } else if a.len() == 0 && b.len() == 0 {
        assert(a =~= b);
    }
}

/// No string comes before itself, and if `a` comes before `b` then `b` does
/// not come before `a`.
pub proof fn text_before_asymmetric(a: Seq<char>, b: Seq<char>)
    ensures
        !(text_before(a, b) && text_before(b, a)),
        !text_before(a, a),
    decreases a.len(),
{
    if a.len() > 0 {
        text_before_asymmetric(a.drop_first(), a.drop_first());
        if b.len() > 0 {
            text_before_asymmetric(a.drop_first(), b.drop_first());
        }
    }
}

/// If `a` comes before `b` and `b` before `c`, then `a` comes before `c`.
pub proof fn text_before_transitive(a: Seq<char>, b: Seq<char>, c: Seq<char>)
    requires
        text_before(a, b),
        text_before(b, c),
    ensures
        text_before(a, c),
    decreases a.len(),
{
    if a.len() > 0 && b.len() > 0 && c.len() > 0 {
        if a.first() == b.first() && b.first() == c.first() {
            text_before_transitive(a.drop_first(), b.drop_first(), c.drop_first());
        }
    }
}

} // verus!
