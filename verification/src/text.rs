//! Text as sequences of characters: trimming, ASCII case, order, joining and decimal numerals.

use vstd::prelude::*;

verus! {

/// `String::push` appends one character.
pub assume_specification[ String::push ](s: &mut String, c: char)
    ensures
        final(s)@ == old(s)@.push(c),
;

/// The characters with the Unicode property `White_Space`.
pub open spec fn white(c: char) -> bool {
    let n = c as u32;
    ||| 0x9 <= n <= 0xd
    ||| n == 0x20
    ||| n == 0x85
    ||| n == 0xa0
    ||| n == 0x1680
    ||| 0x2000 <= n <= 0x200a
    ||| n == 0x2028
    ||| n == 0x2029
    ||| n == 0x202f
    ||| n == 0x205f
    ||| n == 0x3000
}

/// `s` without the white space at its start.
pub open spec fn trim_start(s: Seq<char>) -> Seq<char>
    decreases s.len(),
{
    if s.len() > 0 && white(s[0]) {
        trim_start(s.drop_first())
    } else {
        s
    }
}

/// `s` without the white space at its end.
pub open spec fn trim_end(s: Seq<char>) -> Seq<char>
    decreases s.len(),
{
    if s.len() > 0 && white(s.last()) {
        trim_end(s.drop_last())
    } else {
        s
    }
}

/// `s` without the white space around it.
pub open spec fn trimmed(s: Seq<char>) -> Seq<char> {
    trim_end(trim_start(s))
}

pub fn is_white(c: char) -> (r: bool)
    ensures
        r == white(c),
{
    let n: u32 = c as u32;
    (0x9 <= n && n <= 0xd) || n == 0x20 || n == 0x85 || n == 0xa0 || n == 0x1680 || (0x2000 <= n
        && n <= 0x200a) || n == 0x2028 || n == 0x2029 || n == 0x202f || n == 0x205f || n == 0x3000
}

/// The characters of a text.
pub fn chars_of(s: &str) -> (r: Vec<char>)
    ensures
        r@ == s@,
{
    let mut out: Vec<char> = Vec::new();
    for c in it: s.chars()
        invariant
            it.seq() == s@,
            out@ == s@.take(it.index()),
    {
        out.push(c);
        assert(s@.take(it.index() + 1) =~= s@.take(it.index()).push(c));
    }
    assert(s@.take(s@.len() as int) =~= s@);
    out
}

/// The text of some characters.
pub fn text_of(chars: &Vec<char>, from: usize, to: usize) -> (r: String)
    requires
        from <= to <= chars@.len(),
    ensures
        r@ == chars@.subrange(from as int, to as int),
{
    let mut out = String::new();
    let mut i: usize = from;
    while i < to
        invariant
            from <= i <= to <= chars@.len(),
            out@ == chars@.subrange(from as int, i as int),
        decreases to - i,
    {
        out.push(chars[i]);
        assert(chars@.subrange(from as int, i + 1) =~= chars@.subrange(from as int, i as int).push(
            chars@[i as int],
        ));
        i += 1;
    }
    out
}

proof fn lemma_trim_start_at(s: Seq<char>, from: int)
    requires
        0 <= from <= s.len(),
        forall|i: int| 0 <= i < from ==> white(#[trigger] s[i]),
        from < s.len() ==> !white(s[from]),
    ensures
        trim_start(s) == s.skip(from),
    decreases s.len(),
{
    if from == 0 {
        assert(s.skip(0) =~= s);
    } else {
        assert(white(s[0]));
        lemma_trim_start_at(s.drop_first(), from - 1);
        assert(s.drop_first().skip(from - 1) =~= s.skip(from));
    }
}

proof fn lemma_trim_end_at(s: Seq<char>, to: int)
    requires
        0 <= to <= s.len(),
        forall|i: int| to <= i < s.len() ==> white(#[trigger] s[i]),
        to > 0 ==> !white(s[to - 1]),
    ensures
        trim_end(s) == s.take(to),
    decreases s.len(),
{
    if to == s.len() {
        assert(s.take(to) =~= s);
    } else {
        assert(white(s.last()));
        lemma_trim_end_at(s.drop_last(), to);
        assert(s.drop_last().take(to) =~= s.take(to));
    }
}

/// A text without the white space around it.
pub fn trim(s: &str) -> (r: String)
    ensures
        r@ == trimmed(s@),
{
    let chars = chars_of(s);
    let mut from: usize = 0;
    while from < chars.len() && is_white(chars[from])
        invariant
            from <= chars@.len(),
            forall|i: int| 0 <= i < from ==> white(#[trigger] chars@[i]),
        decreases chars.len() - from,
    {
        from += 1;
    }
    let mut to: usize = chars.len();
    while to > from && is_white(chars[to - 1])
        invariant
            from <= to <= chars@.len(),
            forall|i: int| to <= i < chars@.len() ==> white(#[trigger] chars@[i]),
        decreases to,
    {
        to -= 1;
    }
    proof {
        lemma_trim_start_at(s@, from as int);
        let rest = s@.skip(from as int);
        assert forall|i: int| to - from <= i < rest.len() implies white(#[trigger] rest[i]) by {
            assert(rest[i] == s@[i + from]);
        }
        lemma_trim_end_at(rest, to - from);
        assert(rest.take(to - from) =~= s@.subrange(from as int, to as int));
    }
    text_of(&chars, from, to)
}

/// ASCII letters and digits.
pub open spec fn ascii_alphanumeric(c: char) -> bool {
    ||| 'a' <= c <= 'z'
    ||| 'A' <= c <= 'Z'
    ||| '0' <= c <= '9'
}

pub fn is_ascii_alphanumeric(c: char) -> (r: bool)
    ensures
        r == ascii_alphanumeric(c),
{
    ('a' <= c && c <= 'z') || ('A' <= c && c <= 'Z') || ('0' <= c && c <= '9')
}

/// The upper-case form of an ASCII lower-case letter; any other character as it is.
pub open spec fn ascii_upper(c: char) -> char {
    if 'a' <= c <= 'z' {
        ((c as u32) - 32) as char
    } else {
        c
    }
}

/// `s` with its ASCII letters in upper case.
pub open spec fn uppercased(s: Seq<char>) -> Seq<char> {
    s.map_values(|c: char| ascii_upper(c))
}

pub fn to_ascii_uppercase(s: &str) -> (r: String)
    ensures
        r@ == uppercased(s@),
{
    let mut out = String::new();
    for c in it: s.chars()
        invariant
            it.seq() == s@,
            out@ == uppercased(s@.take(it.index())),
    {
        let upper: char = if 'a' <= c && c <= 'z' {
            (c as u8 - 32) as char
        } else {
            c
        };
        out.push(upper);
        assert(uppercased(s@.take(it.index() + 1)) =~= uppercased(s@.take(it.index())).push(upper));
    }
    assert(s@.take(s@.len() as int) =~= s@);
    out
}

/// The order of texts: by the first character that differs, a proper prefix first.
pub open spec fn text_lt(a: Seq<char>, b: Seq<char>) -> bool
    decreases a.len(),
{
    if b.len() == 0 {
        false
    } else if a.len() == 0 {
        true
    } else if a[0] == b[0] {
        text_lt(a.drop_first(), b.drop_first())
    } else {
        a[0] < b[0]
    }
}

pub proof fn text_order(a: Seq<char>, b: Seq<char>)
    ensures
        !text_lt(a, a),
        text_lt(a, b) ==> !text_lt(b, a) && a != b,
        a == b || text_lt(a, b) || text_lt(b, a),
    decreases a.len(),
{
    if a.len() > 0 {
        text_order(a.drop_first(), a.drop_first());
    }
    if a.len() > 0 && b.len() > 0 {
        text_order(a.drop_first(), b.drop_first());
        if a[0] == b[0] && a.drop_first() == b.drop_first() {
            assert(a =~= seq![a[0]] + a.drop_first());
            assert(b =~= seq![b[0]] + b.drop_first());
        }
    } else if a.len() == 0 && b.len() == 0 {
        assert(a =~= b);
    }
}

pub proof fn text_order_transitive(a: Seq<char>, b: Seq<char>, c: Seq<char>)
    requires
        text_lt(a, b),
        text_lt(b, c),
    ensures
        text_lt(a, c),
    decreases a.len(),
{
    if a.len() > 0 && b.len() > 0 && c.len() > 0 && a[0] == b[0] && b[0] == c[0] {
        text_order_transitive(a.drop_first(), b.drop_first(), c.drop_first());
    }
}

/// Whether `a` comes before `b`.
pub fn text_less(a: &str, b: &str) -> (r: bool)
    ensures
        r == text_lt(a@, b@),
{
    let x = chars_of(a);
    let y = chars_of(b);
    let mut i: usize = 0;
    assert(a@.skip(0) =~= a@);
    assert(b@.skip(0) =~= b@);
    while i < x.len() && i < y.len()
        invariant
            x@ == a@,
            y@ == b@,
            i <= x.len(),
            i <= y.len(),
            text_lt(a@, b@) == text_lt(a@.skip(i as int), b@.skip(i as int)),
        decreases x.len() - i,
    {
        if x[i] != y[i] {
            return x[i] < y[i];
        }
        assert(a@.skip(i as int).drop_first() =~= a@.skip(i + 1));
        assert(b@.skip(i as int).drop_first() =~= b@.skip(i + 1));
        i += 1;
    }
    i < y.len()
}

/// The texts of `parts` one after the other, with `separator` between neighbours.
pub open spec fn joined(parts: Seq<Seq<char>>, separator: Seq<char>) -> Seq<char>
    decreases parts.len(),
{
    if parts.len() == 0 {
        Seq::empty()
    } else if parts.len() == 1 {
        parts[0]
    } else {
        joined(parts.drop_last(), separator) + separator + parts.last()
    }
}

pub fn join(parts: &Vec<String>, separator: &str) -> (r: String)
    ensures
        r@ == joined(parts.deep_view(), separator@),
{
    let mut out = String::new();
    let mut i: usize = 0;
    let ghost all = parts.deep_view();
    while i < parts.len()
        invariant
            i <= parts.len(),
            all == parts.deep_view(),
            out@ == joined(all.take(i as int), separator@),
        decreases parts.len() - i,
    {
        let ghost done = all.take(i + 1);
        assert(done.drop_last() =~= all.take(i as int));
        assert(done.last() == parts[i as int]@);
        if i > 0 {
            out.append(separator);
        }
        out.append(parts[i].as_str());
        assert(i == 0 ==> out@ =~= done[0]);
        i += 1;
    }
    assert(all.take(all.len() as int) =~= all);
    out
}

/// The character of a decimal digit.
pub open spec fn digit(d: nat) -> char {
    (48 + d) as char
}

/// The decimal numeral of `n`.
pub open spec fn numeral(n: nat) -> Seq<char>
    decreases n,
{
    if n < 10 {
        seq![digit(n)]
    } else {
        numeral(n / 10).push(digit(n % 10))
    }
}

pub fn decimal(n: u128) -> (r: String)
    ensures
        r@ == numeral(n as nat),
    decreases n,
{
    let last: char = (48 + (n % 10) as u8) as char;
    let mut out = if n < 10 {
        String::new()
    } else {
        decimal(n / 10)
    };
    out.push(last);
    assert(n < 10 ==> out@ =~= seq![digit(n as nat)]);
    out
}

/// The decimal numeral of `n` with zeros before it up to a length of three.
pub open spec fn numeral_padded(n: nat) -> Seq<char> {
    let plain = numeral(n);
    if plain.len() >= 3 {
        plain
    } else if plain.len() == 2 {
        seq!['0'] + plain
    } else {
        seq!['0', '0'] + plain
    }
}

pub fn decimal_padded(n: u128) -> (r: String)
    ensures
        r@ == numeral_padded(n as nat),
{
    let plain = decimal(n);
    let length: usize = plain.as_str().unicode_len();
    let mut out = String::new();
    proof {
        lemma_numeral_nonempty(n as nat);
    }
    if length < 3 {
        out.push('0');
        if length < 2 {
            out.push('0');
        }
        out.append(plain.as_str());
        assert(out@ =~= numeral_padded(n as nat));
        out
    } else {
        plain
    }
}

proof fn lemma_numeral_nonempty(n: nat)
    ensures
        numeral(n).len() >= 1,
{
}

/// A numeral holds digits only.
pub proof fn numerals_hold_digits(n: nat, i: int)
    requires
        0 <= i < numeral(n).len(),
    ensures
        '0' <= numeral(n)[i] <= '9',
    decreases n,
{
    if n >= 10 && i < numeral(n / 10).len() {
        numerals_hold_digits(n / 10, i);
    }
}

/// Different numbers have different numerals.
pub proof fn numerals_tell_apart(a: nat, b: nat)
    requires
        numeral(a) == numeral(b),
    ensures
        a == b,
    decreases a,
{
    lemma_numeral_nonempty(a / 10);
    lemma_numeral_nonempty(b / 10);
    if a < 10 {
        if b >= 10 {
            assert(numeral(b).len() >= 2);
        } else {
            assert(numeral(a)[0] == digit(a) && numeral(b)[0] == digit(b));
        }
    } else if b < 10 {
        assert(numeral(a).len() >= 2);
    } else {
        assert(numeral(a).drop_last() =~= numeral(a / 10));
        assert(numeral(b).drop_last() =~= numeral(b / 10));
        assert(numeral(a).last() == digit(a % 10));
        assert(numeral(b).last() == digit(b % 10));
        numerals_tell_apart(a / 10, b / 10);
    }
}

/// Whether two texts are the same.
pub fn same_text(a: &str, b: &str) -> (r: bool)
    ensures
        r == (a@ == b@),
{
    a.to_owned() == b.to_owned()
}

/// The decimal numeral of an integer, with a minus sign before that of a negative one.
pub open spec fn signed_numeral(n: int) -> Seq<char> {
    if n < 0 {
        seq!['-'] + numeral((-n) as nat)
    } else {
        numeral(n as nat)
    }
}

pub fn decimal_signed(n: i64) -> (r: String)
    ensures
        r@ == signed_numeral(n as int),
{
    if n < 0 {
        let magnitude: u128 = (-(n as i128)) as u128;
        let mut out = String::new();
        out.push('-');
        out.append(decimal(magnitude).as_str());
        assert(out@ =~= signed_numeral(n as int));
        out
    } else {
        decimal(n as u128)
    }
}

/// Whether every character is a decimal digit.
pub open spec fn all_digits(s: Seq<char>) -> bool {
    forall|i: int| 0 <= i < s.len() ==> '0' <= #[trigger] s[i] <= '9'
}

/// The number that decimal digits stand for.
pub open spec fn digits_value(s: Seq<char>) -> nat
    decreases s.len(),
{
    if s.len() == 0 {
        0
    } else {
        digits_value(s.drop_last()) * 10 + (s.last() as u32 - 48) as nat
    }
}

/// The 32-bit number that a text stands for: decimal digits, with a plus sign before them or not.
pub open spec fn read_u32(s: Seq<char>) -> Option<u32> {
    let digits = if s.len() > 0 && s[0] == '+' {
        s.drop_first()
    } else {
        s
    };
    if digits.len() > 0 && all_digits(digits) && digits_value(digits) <= u32::MAX {
        Some(digits_value(digits) as u32)
    } else {
        None
    }
}

proof fn lemma_prefix_value(s: Seq<char>, n: int)
    requires
        0 <= n <= s.len(),
        all_digits(s),
    ensures
        digits_value(s.take(n)) <= digits_value(s),
    decreases s.len() - n,
{
    if n < s.len() {
        assert('0' <= s[n] <= '9');
        lemma_prefix_value(s, n + 1);
        assert(s.take(n + 1).drop_last() =~= s.take(n));
    } else {
        assert(s.take(n) =~= s);
    }
}

pub fn parse_u32(s: &str) -> (r: Option<u32>)
    ensures
        r == read_u32(s@),
{
    let chars = chars_of(s);
    let from: usize = if chars.len() > 0 && chars[0] == '+' {
        1
    } else {
        0
    };
    let ghost digits = s@.skip(from as int);
    proof {
        if from == 0 {
            assert(digits =~= s@);
        } else {
            assert(digits =~= s@.drop_first());
        }
    }
    if from == chars.len() {
        return None;
    }
    let mut value: u64 = 0;
    let mut i: usize = from;
    assert(digits.take(0) =~= Seq::empty());
    while i < chars.len()
        invariant
            chars@ == s@,
            from <= i <= chars.len(),
            digits == s@.skip(from as int),
            all_digits(digits.take(i - from)),
            value == digits_value(digits.take(i - from)),
            value <= u32::MAX,
            digits.len() > 0,
            read_u32(s@) == (if digits.len() > 0 && all_digits(digits) && digits_value(digits)
                <= u32::MAX {
                Some(digits_value(digits) as u32)
            } else {
                None
            }),
        decreases chars.len() - i,
    {
        let c: char = chars[i];
        assert(c == digits[i - from]);
        if c < '0' || '9' < c {
            return None;
        }
        let ghost done = digits.take(i - from);
        let ghost next = digits.take(i + 1 - from);
        assert(next.drop_last() =~= done);
        value = value * 10 + (c as u32 - 48) as u64;
        proof {
            assert forall|k: int| 0 <= k < next.len() implies '0' <= #[trigger] next[k] <= '9' by {
                if k < done.len() {
                    assert(next[k] == done[k]);
                }
            }
            if all_digits(digits) {
                lemma_prefix_value(digits, i + 1 - from);
            }
        }
        if value > 0xffff_ffff {
            return None;
        }
        i += 1;
    }
    assert(digits.take(digits.len() as int) =~= digits);
    Some(value as u32)
}

/// Reading a numeral gives the number back.
pub proof fn numerals_read_back(n: nat)
    ensures
        all_digits(numeral(n)),
        digits_value(numeral(n)) == n,
    decreases n,
{
    if n < 10 {
        assert(numeral(n).drop_last() =~= Seq::empty());
        assert(digits_value(Seq::empty()) == 0);
        assert(numeral(n).last() == digit(n));
    } else {
        numerals_read_back(n / 10);
        assert(numeral(n).last() == digit(n % 10));
        assert(numeral(n).drop_last() =~= numeral(n / 10));
    }
    assert forall|i: int| 0 <= i < numeral(n).len() implies '0' <= #[trigger] numeral(n)[i] <= '9' by {
        numerals_hold_digits(n, i);
    }
}

proof fn lemma_zero_before(s: Seq<char>)
    ensures
        digits_value(seq!['0'] + s) == digits_value(s),
    decreases s.len(),
{
    let t = seq!['0'] + s;
    if s.len() == 0 {
        assert(t.drop_last() =~= Seq::empty());
        assert(digits_value(Seq::empty()) == 0);
        assert(t.last() == '0');
    } else {
        lemma_zero_before(s.drop_last());
        assert(t.drop_last() =~= seq!['0'] + s.drop_last());
        assert(t.last() == s.last());
    }
}

/// Different numbers have different numerals, also with zeros before them.
pub proof fn padded_numerals_tell_apart(a: nat, b: nat)
    requires
        numeral_padded(a) == numeral_padded(b),
    ensures
        a == b,
{
    lemma_padded_value(a);
    lemma_padded_value(b);
}

proof fn lemma_padded_value(n: nat)
    ensures
        digits_value(numeral_padded(n)) == n,
{
    let plain = numeral(n);
    numerals_read_back(n);
    lemma_zero_before(plain);
    lemma_zero_before(seq!['0'] + plain);
    assert(seq!['0', '0'] + plain =~= seq!['0'] + (seq!['0'] + plain));
}

proof fn lemma_trim_start_first(s: Seq<char>)
    ensures
        trim_start(s).len() > 0 ==> !white(trim_start(s)[0]),
    decreases s.len(),
{
    if s.len() > 0 && white(s[0]) {
        lemma_trim_start_first(s.drop_first());
    }
}

proof fn lemma_trim_end_last(s: Seq<char>)
    ensures
        trim_end(s).len() > 0 ==> !white(trim_end(s).last()) && trim_end(s)[0] == s[0],
    decreases s.len(),
{
    if s.len() > 0 && white(s.last()) {
        lemma_trim_end_last(s.drop_last());
    }
}

/// A text without white space around it has none at its ends, and trimming it changes nothing.
pub proof fn trimming_twice_changes_nothing(s: Seq<char>)
    ensures
        trimmed(s).len() > 0 ==> !white(trimmed(s)[0]) && !white(trimmed(s).last()),
        trimmed(trimmed(s)) == trimmed(s),
{
    lemma_trim_start_first(s);
    lemma_trim_end_last(trim_start(s));
}

proof fn lemma_start_cut(s: Seq<char>) -> (from: int)
    ensures
        0 <= from <= s.len(),
        trim_start(s) == s.skip(from),
        forall|i: int| 0 <= i < from ==> white(#[trigger] s[i]),
        from < s.len() ==> !white(s[from]),
    decreases s.len(),
{
    if s.len() > 0 && white(s[0]) {
        let rest = s.drop_first();
        let from = lemma_start_cut(rest);
        assert(rest.skip(from) =~= s.skip(from + 1));
        assert forall|i: int| 0 <= i < from + 1 implies white(#[trigger] s[i]) by {
            if i > 0 {
                assert(rest[i - 1] == s[i]);
            }
        }
        from + 1
    } else {
        assert(s.skip(0) =~= s);
        0
    }
}

proof fn lemma_end_cut(s: Seq<char>) -> (to: int)
    ensures
        0 <= to <= s.len(),
        trim_end(s) == s.take(to),
        forall|i: int| to <= i < s.len() ==> white(#[trigger] s[i]),
        to > 0 ==> !white(s[to - 1]),
    decreases s.len(),
{
    if s.len() > 0 && white(s.last()) {
        let front = s.drop_last();
        let to = lemma_end_cut(front);
        assert(front.take(to) =~= s.take(to));
        assert forall|i: int| to <= i < s.len() implies white(#[trigger] s[i]) by {
            if i < front.len() {
                assert(front[i] == s[i]);
            }
        }
        to
    } else {
        assert(s.take(s.len() as int) =~= s);
        s.len() as int
    }
}

/// Trimming cuts off white space at both ends and nothing else: what is left is one piece of the text,
/// all before and behind it is white space, and it neither begins nor ends with any.
pub proof fn trimming_cuts_white_space(s: Seq<char>) -> (cut: (int, int))
    ensures
        0 <= cut.0 <= cut.1 <= s.len(),
        trimmed(s) == s.subrange(cut.0, cut.1),
        forall|i: int| 0 <= i < cut.0 ==> white(#[trigger] s[i]),
        forall|i: int| cut.1 <= i < s.len() ==> white(#[trigger] s[i]),
        cut.0 < cut.1 ==> !white(s[cut.0]) && !white(s[cut.1 - 1]),
        white(' ') && white('\t') && white('\n') && white('\r'),
        !white('a') && !white('0') && !white('_'),
{
    let from = lemma_start_cut(s);
    let rest = s.skip(from);
    let to = lemma_end_cut(rest);
    assert(rest.take(to) =~= s.subrange(from, from + to));
    assert forall|i: int| from + to <= i < s.len() implies white(#[trigger] s[i]) by {
        assert(rest[i - from] == s[i]);
    }
    if 0 < to {
        assert(rest[0] == s[from]);
        assert(rest[to - 1] == s[from + to - 1]);
    }
    (from, from + to)
}

/// Capitals: each small ASCII letter becomes the capital at the same place of the alphabet, and every
/// other character stays.
pub proof fn capitals_stand_in_place(s: Seq<char>, i: int)
    requires
        0 <= i < s.len(),
    ensures
        uppercased(s).len() == s.len(),
        'a' <= s[i] <= 'z' ==> 'A' <= uppercased(s)[i] <= 'Z' && uppercased(s)[i] as u32 - 'A' as u32
            == s[i] as u32 - 'a' as u32,
        !('a' <= s[i] <= 'z') ==> uppercased(s)[i] == s[i],
{
}

/// Texts are ordered by their first characters that differ; where there are none, the shorter one comes
/// first.
pub proof fn first_difference_decides(a: Seq<char>, b: Seq<char>, k: int)
    requires
        0 <= k <= a.len(),
        k <= b.len(),
        a.take(k) == b.take(k),
        k < a.len() && k < b.len() ==> a[k] != b[k],
    ensures
        k < a.len() && k < b.len() ==> (text_lt(a, b) <==> a[k] < b[k]),
        k == a.len() || k == b.len() ==> (text_lt(a, b) <==> a.len() < b.len()),
    decreases k,
{
    if k > 0 {
        assert(a[0] == a.take(k)[0] && b[0] == b.take(k)[0]);
        let x = a.drop_first();
        let y = b.drop_first();
        assert(x.take(k - 1) =~= y.take(k - 1)) by {
            assert forall|i: int| 0 <= i < k - 1 implies #[trigger] x.take(k - 1)[i] == y.take(
                k - 1,
            )[i] by {
                assert(a[i + 1] == a.take(k)[i + 1] && b[i + 1] == b.take(k)[i + 1]);
            }
        }
        first_difference_decides(x, y, k - 1);
    }
}

/// What a joined text holds: nothing for no parts, the part itself for one, and otherwise the parts with
/// the separator between neighbours, so that adding a part adds the separator and the part.
pub proof fn parts_are_joined(parts: Seq<Seq<char>>, separator: Seq<char>, part: Seq<char>)
    ensures
        joined(Seq::empty(), separator) == Seq::<char>::empty(),
        joined(seq![part], separator) == part,
        parts.len() > 0 ==> joined(parts.push(part), separator) == joined(parts, separator)
            + separator + part,
{
    assert(parts.push(part).drop_last() =~= parts);
}

/// A numeral stands for its number in tens: its last digit is the remainder by ten, and the digits
/// before it are the numeral of the tenth, if there is any.
pub proof fn numerals_count_in_tens(n: nat)
    ensures
        n < 10 ==> numeral(n).len() == 1,
        n >= 10 ==> numeral(n).drop_last() == numeral(n / 10),
        numeral(n).len() > 0,
        numeral(n).last() as u32 == '0' as u32 + n % 10,
        numeral_padded(n).len() >= 3,
        numeral_padded(n).skip(numeral_padded(n).len() - numeral(n).len()) == numeral(n),
        forall|i: int|
            0 <= i < numeral_padded(n).len() - numeral(n).len() ==> #[trigger] numeral_padded(n)[i]
                == '0',
        numeral(n).len() >= 3 ==> numeral_padded(n) == numeral(n),
        numeral(n).len() < 3 ==> numeral_padded(n).len() == 3,
{
    lemma_numeral_nonempty(n);
    if n >= 10 {
        assert(numeral(n).drop_last() =~= numeral(n / 10));
    }
    let padded = numeral_padded(n);
    assert(padded.skip(padded.len() - numeral(n).len()) =~= numeral(n));
}

/// Of a text with white space around it, trimming leaves what stands between.
pub proof fn lemma_trimmed_between(before: Seq<char>, text: Seq<char>, after: Seq<char>)
    requires
        forall|i: int| 0 <= i < before.len() ==> white(#[trigger] before[i]),
        forall|i: int| 0 <= i < after.len() ==> white(#[trigger] after[i]),
        text.len() > 0 ==> !white(text.first()) && !white(text.last()),
    ensures
        trimmed(before + text + after) == text,
{
    let whole = before + text + after;
    let cut = trimming_cuts_white_space(whole);
    let from = before.len() as int;
    let to = from + text.len();
    if text.len() == 0 {
        if cut.0 < cut.1 {
            if cut.0 < from {
                assert(whole[cut.0] == before[cut.0]);
            } else {
                assert(whole[cut.0] == after[cut.0 - from]);
            }
        }
        assert(trimmed(whole) =~= text);
    } else {
        assert(whole[from] == text.first());
        assert(whole[to - 1] == text.last());
        if cut.0 < from {
            assert(whole[cut.0] == before[cut.0]);
        }
        if to < cut.1 {
            assert(whole[cut.1 - 1] == after[cut.1 - 1 - to]);
        }
        assert(whole.subrange(from, to) =~= text);
    }
}

/// White space is the control characters from tab to carriage return and the next line, the space, the
/// no-break space, and the spaces and the separators of lines and paragraphs that Unicode has besides.
pub proof fn white_space_is_that_of_unicode(c: char)
    ensures
        (c as u32) < 0x80 ==> (white(c) <==> c == ' ' || 9 <= c as u32 <= 13),
        0x80 <= c as u32 && (c as u32) < 0x1680 ==> (white(c) <==> c as u32 == 133 || c as u32
            == 160),
        0x1680 <= c as u32 && (c as u32) < 0x2800 ==> (white(c) <==> c as u32 == 5760 || 8192
            <= c as u32 <= 8202 || c as u32 == 8232 || c as u32 == 8233 || c as u32 == 8239
            || c as u32 == 8287),
        0x2800 <= c as u32 ==> (white(c) <==> c as u32 == 12288),
{
}

/// A padded numeral has zeros before it up to a length of three.
pub proof fn padded_numerals_have_three_digits(n: nat)
    ensures
        n < 10 ==> numeral_padded(n) == seq!['0', '0'] + numeral(n),
        10 <= n < 100 ==> numeral_padded(n) == seq!['0'] + numeral(n),
        100 <= n ==> numeral_padded(n) == numeral(n),
{
    numerals_count_in_tens(n);
    numerals_count_in_tens(n / 10);
    numerals_count_in_tens(n / 100);
    assert(n / 10 / 10 == n / 100);
    if n >= 10 {
        assert(numeral(n).drop_last().len() == numeral(n / 10).len());
    }
    if n >= 100 {
        assert(numeral(n / 10).drop_last().len() == numeral(n / 100).len());
    }
}

/// A 32-bit number is read from exactly its digits, whatever zeros stand before them, with a plus sign
/// before them or not: the numeral of a number reads as the number.
pub proof fn numbers_are_read_from_digits(n: nat, s: Seq<char>)
    ensures
        n <= u32::MAX ==> read_u32(numeral(n)) == Some(n as u32),
        n <= u32::MAX ==> read_u32(seq!['+'] + numeral(n)) == Some(n as u32),
        n > u32::MAX ==> read_u32(numeral(n)) is None,
        read_u32(Seq::empty()) is None,
        (exists|i: int| 1 <= i < s.len() && !('0' <= #[trigger] s[i] <= '9')) ==> read_u32(
            s,
        ) is None,
        s.len() > 0 && s[0] != '+' && !('0' <= s[0] <= '9') ==> read_u32(s) is None,
        read_u32(s) is Some && s[0] != '+' ==> read_u32(seq!['0'] + s) == read_u32(s),
{
    numerals_read_back(n);
    numerals_count_in_tens(n);
    assert('0' <= numeral(n)[0] <= '9');
    assert((seq!['+'] + numeral(n)).drop_first() =~= numeral(n));
    if exists|i: int| 1 <= i < s.len() && !('0' <= #[trigger] s[i] <= '9') {
        let i = choose|i: int| 1 <= i < s.len() && !('0' <= #[trigger] s[i] <= '9');
        assert(s.drop_first()[i - 1] == s[i]);
        assert(!all_digits(s.drop_first()));
    }
    if read_u32(s) is Some && s[0] != '+' {
        let t = seq!['0'] + s;
        lemma_zero_before(s);
        assert forall|i: int| 0 <= i < t.len() implies '0' <= #[trigger] t[i] <= '9' by {
            if i > 0 {
                assert(t[i] == s[i - 1]);
            }
        }
    }
}

/// An integer is written as its magnitude, with a minus sign before that of a negative one.
pub proof fn signs_stand_before_magnitudes(n: nat)
    ensures
        signed_numeral(n as int) == numeral(n),
        n > 0 ==> signed_numeral(-(n as int)) == seq!['-'] + numeral(n),
{
}

} // verus!
