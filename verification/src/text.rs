//! Plain-text helpers: trimming, splitting, searching, and the decimal and
//! hexadecimal numerals that file names, messages and settings are made of.

use vstd::prelude::*;

verus! {

/// `String::push`: appends one character to the end of the string.
pub assume_specification[ String::push ](s: &mut String, c: char)
    ensures
        final(s)@ == old(s)@.push(c),
;

/// The characters with the Unicode property White_Space.
pub open spec fn white(c: char) -> bool {
    let u = c as u32;
    ||| 0x9 <= u <= 0xd
    ||| u == 0x20
    ||| u == 0x85
    ||| u == 0xa0
    ||| u == 0x1680
    ||| 0x2000 <= u <= 0x200a
    ||| u == 0x2028
    ||| u == 0x2029
    ||| u == 0x202f
    ||| u == 0x205f
    ||| u == 0x3000
}

/// The text without its leading white space.
pub open spec fn without_leading(s: Seq<char>) -> Seq<char>
    decreases s.len(),
{
    if s.len() > 0 && white(s[0]) {
        without_leading(s.skip(1))
    } else {
        s
    }
}

/// The text without its trailing white space.
pub open spec fn without_trailing(s: Seq<char>) -> Seq<char>
    decreases s.len(),
{
    if s.len() > 0 && white(s.last()) {
        without_trailing(s.drop_last())
    } else {
        s
    }
}

/// The text without white space at either end.
pub open spec fn trimmed(s: Seq<char>) -> Seq<char> {
    without_trailing(without_leading(s))
}

/// Whether `prefix` begins `s`.
pub open spec fn starts_with(s: Seq<char>, prefix: Seq<char>) -> bool {
    prefix.len() <= s.len() && s.take(prefix.len() as int) == prefix
}

/// Whether `needle` stands in `hay` at position `at`.
pub open spec fn stands_at(hay: Seq<char>, needle: Seq<char>, at: int) -> bool {
    0 <= at && at + needle.len() <= hay.len() && hay.subrange(at, at + needle.len()) == needle
}

/// Whether `needle` stands somewhere in `hay`.
pub open spec fn occurs(hay: Seq<char>, needle: Seq<char>) -> bool {
    exists|at: int| stands_at(hay, needle, at)
}

/// The pieces of `s` between the separators `sep`: one more than there are separators.
pub open spec fn pieces(s: Seq<char>, sep: char) -> Seq<Seq<char>>
    decreases s.len(),
{
    if s.len() == 0 {
        seq![s]
    } else {
        let before = pieces(s.drop_last(), sep);
        if s.last() == sep {
            before.push(Seq::empty())
        } else {
            before.drop_last().push(before.last().push(s.last()))
        }
    }
}

pub proof fn lemma_pieces_nonempty(s: Seq<char>, sep: char)
    ensures
        pieces(s, sep).len() > 0,
    decreases s.len(),
{
    if s.len() > 0 {
        lemma_pieces_nonempty(s.drop_last(), sep);
    }
}

pub open spec fn is_digit(c: char) -> bool {
    '0' <= c <= '9'
}

pub open spec fn all_digits(s: Seq<char>) -> bool {
    forall|i: int| 0 <= i < s.len() ==> is_digit(#[trigger] s[i])
}

/// The number that a row of decimal digits denotes.
pub open spec fn dec_value(s: Seq<char>) -> nat
    decreases s.len(),
{
    if s.len() == 0 {
        0
    } else {
        dec_value(s.drop_last()) * 10 + ((s.last() as int - '0' as int) as nat)
    }
}

/// The number that `s` denotes if it is a non-empty row of digits of a number up to `max`.
pub open spec fn digits_up_to(s: Seq<char>, max: int) -> Option<nat> {
    if s.len() > 0 && all_digits(s) && dec_value(s) <= max {
        Some(dec_value(s))
    } else {
        None
    }
}

/// How an unsigned numeral is read: digits, with a plus sign allowed in front.
pub open spec fn unsigned_value(s: Seq<char>, max: int) -> Option<nat> {
    if s.len() > 0 && s[0] == '+' {
        digits_up_to(s.skip(1), max)
    } else {
        digits_up_to(s, max)
    }
}

/// How a signed 32-bit numeral is read: digits, with a plus or minus sign allowed in front.
pub open spec fn i32_value(s: Seq<char>) -> Option<int> {
    if s.len() > 0 && s[0] == '-' {
        match digits_up_to(s.skip(1), -(i32::MIN as int)) {
            Some(n) => Some(-(n as int)),
            None => None,
        }
    } else {
        match unsigned_value(s, i32::MAX as int) {
            Some(n) => Some(n as int),
            None => None,
        }
    }
}

/// The character of the digit `d`, in any base up to sixteen.
pub open spec fn digit_char(d: int) -> char {
    if d < 10 {
        ('0' as int + d) as char
    } else {
        ('a' as int + (d - 10)) as char
    }
}

/// `n` written in decimal, without leading zeros.
pub open spec fn dec_text(n: nat) -> Seq<char>
    decreases n,
{
    if n < 10 {
        seq![digit_char(n as int)]
    } else {
        dec_text(n / 10).push(digit_char((n % 10) as int))
    }
}

/// The last `width` digits of `n` in base `base`.
pub open spec fn fixed_text(n: nat, base: nat, width: nat) -> Seq<char>
    decreases width,
{
    if width == 0 {
        Seq::empty()
    } else {
        fixed_text(n / base, base, (width - 1) as nat).push(digit_char((n % base) as int))
    }
}

/// `n` written in decimal with zeros in front up to six places.
pub open spec fn six_text(n: nat) -> Seq<char> {
    if n < 1_000_000 {
        fixed_text(n, 10, 6)
    } else {
        dec_text(n)
    }
}

/// `n` written with sixteen hexadecimal digits.
pub open spec fn hex_text(n: u64) -> Seq<char> {
    fixed_text(n as nat, 16, 16)
}

pub fn is_white(c: char) -> (r: bool)
    ensures
        r == white(c),
{
    let u: u32 = c as u32;
    (0x9 <= u && u <= 0xd) || u == 0x20 || u == 0x85 || u == 0xa0 || u == 0x1680 || (0x2000 <= u && u
        <= 0x200a) || u == 0x2028 || u == 0x2029 || u == 0x202f || u == 0x205f || u == 0x3000
}

/// The characters of `s` in order.
pub fn chars_of(s: &str) -> (r: Vec<char>)
    ensures
        r@ == s@,
{
    let mut r: Vec<char> = Vec::new();
    for c in it: s.chars()
        invariant
            r@ == it.seq().take(it.index() as int),
            it.seq() == s@,
    {
        r.push(c);
    }
    r
}

/// The text made of the characters of `cs`.
pub fn string_of(cs: &Vec<char>) -> (r: String)
    ensures
        r@ == cs@,
{
    let mut r = String::new();
    for i in 0..cs.len()
        invariant
            r@ == cs@.take(i as int),
    {
        r.push(cs[i]);
        assert(cs@.take(i + 1) == cs@.take(i as int).push(cs@[i as int]));
    }
    assert(cs@.take(cs@.len() as int) == cs@);
    r
}

/// The characters of `cs` from `from` up to `to`.
pub fn chars_between(cs: &Vec<char>, from: usize, to: usize) -> (r: Vec<char>)
    requires
        from <= to <= cs@.len(),
    ensures
        r@ == cs@.subrange(from as int, to as int),
{
    let mut r: Vec<char> = Vec::new();
    for i in from..to
        invariant
            from <= to <= cs@.len(),
            r@ == cs@.subrange(from as int, i as int),
    {
        r.push(cs[i]);
        assert(cs@.subrange(from as int, i + 1) == cs@.subrange(from as int, i as int).push(
            cs@[i as int],
        ));
    }
    r
}

/// Whether two texts hold the same characters.
pub fn chars_equal(a: &Vec<char>, b: &Vec<char>) -> (r: bool)
    ensures
        r == (a@ == b@),
{
    if a.len() != b.len() {
        return false;
    }
    for i in 0..a.len()
        invariant
            a@.len() == b@.len(),
            forall|j: int| 0 <= j < i ==> a@[j] == b@[j],
    {
        if a[i] != b[i] {
            return false;
        }
    }
    assert(a@ == b@);
    true
}

/// Whether two strings hold the same characters.
pub fn same_text(a: &str, b: &str) -> (r: bool)
    ensures
        r == (a@ == b@),
{
    chars_equal(&chars_of(a), &chars_of(b))
}

/// `str::trim`: the text without white space at either end.
pub fn trim_chars(cs: &Vec<char>) -> (r: Vec<char>)
    ensures
        r@ == trimmed(cs@),
{
    let n: usize = cs.len();
    let mut from: usize = 0;
    assert(cs@.skip(0) == cs@);
    while from < n && is_white(cs[from])
        invariant
            from <= n == cs@.len(),
            without_leading(cs@) == without_leading(cs@.skip(from as int)),
        decreases n - from,
    {
        assert(cs@.skip(from as int).skip(1) == cs@.skip(from + 1));
        from = from + 1;
    }
    let ghost rest = cs@.skip(from as int);
    assert(without_leading(cs@) == rest);
    let mut to: usize = n;
    assert(cs@.subrange(from as int, n as int) == rest);
    while to > from && is_white(cs[to - 1])
        invariant
            from <= to <= n == cs@.len(),
            rest == cs@.skip(from as int),
            without_trailing(rest) == without_trailing(cs@.subrange(from as int, to as int)),
        decreases to,
    {
        assert(cs@.subrange(from as int, to as int).drop_last() == cs@.subrange(
            from as int,
            to - 1,
        ));
        to = to - 1;
    }
    assert(to > from ==> cs@.subrange(from as int, to as int).last() == cs@[to - 1]);
    chars_between(cs, from, to)
}

/// The text without white space at either end, as a string.
pub fn trim_text(s: &str) -> (r: String)
    ensures
        r@ == trimmed(s@),
{
    string_of(&trim_chars(&chars_of(s)))
}

/// The text without white space behind it, as a string.
pub fn trim_end_text(s: &str) -> (r: String)
    ensures
        r@ == without_trailing(s@),
{
    let cs = chars_of(s);
    let n: usize = cs.len();
    let mut to: usize = n;
    assert(cs@.take(n as int) == cs@);
    while to > 0 && is_white(cs[to - 1])
        invariant
            to <= n == cs@.len(),
            without_trailing(cs@) == without_trailing(cs@.take(to as int)),
        decreases to,
    {
        assert(cs@.take(to as int).drop_last() == cs@.take(to - 1));
        to = to - 1;
    }
    assert(to > 0 ==> cs@.take(to as int).last() == cs@[to - 1]);
    assert(cs@.subrange(0, to as int) == cs@.take(to as int));
    string_of(&chars_between(&cs, 0, to))
}

/// What follows `prefix` in `s`, or nothing if `s` does not begin with it.
pub fn after_prefix(s: &str, prefix: &str) -> (r: Option<String>)
    ensures
        r is Some <==> starts_with(s@, prefix@),
        r matches Some(rest) ==> rest@ == s@.skip(prefix@.len() as int),
{
    let cs = chars_of(s);
    let ps = chars_of(prefix);
    if ps.len() > cs.len() {
        return None;
    }
    let head = chars_between(&cs, 0, ps.len());
    assert(head@ == s@.take(prefix@.len() as int));
    if !chars_equal(&head, &ps) {
        return None;
    }
    let tail = chars_between(&cs, ps.len(), cs.len());
    assert(tail@ == s@.skip(prefix@.len() as int));
    Some(string_of(&tail))
}

/// Whether `needle` stands somewhere in `hay`.
pub fn text_occurs(hay: &str, needle: &str) -> (r: bool)
    ensures
        r == occurs(hay@, needle@),
{
    let hs = chars_of(hay);
    let ns = chars_of(needle);
    if ns.len() > hs.len() {
        return false;
    }
    let n: usize = hs.len();
    let last: usize = n - ns.len();
    let mut at: usize = 0;
    while at <= last
        invariant
            hs@ == hay@,
            ns@ == needle@,
            n == hs@.len(),
            last == n - ns@.len(),
            at <= last + 1,
            forall|i: int| 0 <= i < at ==> !stands_at(hay@, needle@, i),
        decreases last + 1 - at,
    {
        let window = chars_between(&hs, at, at + ns.len());
        if chars_equal(&window, &ns) {
            assert(stands_at(hay@, needle@, at as int));
            return true;
        }
        assert(!stands_at(hay@, needle@, at as int));
        if at == last {
            return false;
        }
        at = at + 1;
    }
    false
}

/// The pieces of `cs` between the separators `sep`.
pub fn split_chars(cs: &Vec<char>, sep: char) -> (r: Vec<Vec<char>>)
    ensures
        r@.len() == pieces(cs@, sep).len(),
        forall|i: int| 0 <= i < r@.len() ==> (#[trigger] r@[i])@ == pieces(cs@, sep)[i],
{
    let mut done: Vec<Vec<char>> = Vec::new();
    let mut current: Vec<char> = Vec::new();
    assert(cs@.take(0) == Seq::<char>::empty());
    for i in 0..cs.len()
        invariant
            done@.len() + 1 == pieces(cs@.take(i as int), sep).len(),
            forall|k: int|
                0 <= k < done@.len() ==> (#[trigger] done@[k])@ == pieces(cs@.take(i as int), sep)[k],
            current@ == pieces(cs@.take(i as int), sep).last(),
    {
        let ghost before = cs@.take(i as int);
        let ghost after = cs@.take(i + 1);
        proof {
            assert(after.drop_last() == before);
            assert(after.last() == cs@[i as int]);
        }
        let c: char = cs[i];
        if c == sep {
            done.push(current);
            current = Vec::new();
        } else {
            current.push(c);
        }
    }
    assert(cs@.take(cs@.len() as int) == cs@);
    done.push(current);
    done
}

/// Appending a digit does not make the number smaller.
proof fn lemma_dec_value_grows(s: Seq<char>, k: int)
    requires
        0 <= k <= s.len(),
        all_digits(s),
    ensures
        dec_value(s.take(k)) <= dec_value(s),
    decreases s.len(),
{
    if k < s.len() {
        assert(all_digits(s.drop_last()));
        lemma_dec_value_grows(s.drop_last(), k);
        assert(s.drop_last().take(k) == s.take(k));
        assert(is_digit(s.last()));
    } else {
        assert(s.take(k) == s);
    }
}

/// Reads the digits of `cs` from `from` on as a number up to `max`.
fn read_digits(cs: &Vec<char>, from: usize, max: u64) -> (r: Option<u64>)
    requires
        from <= cs@.len(),
    ensures
        match r {
            Some(v) => digits_up_to(cs@.skip(from as int), max as int) == Some(v as nat),
            None => digits_up_to(cs@.skip(from as int), max as int) is None,
        },
{
    let ghost s = cs@.skip(from as int);
    if from == cs.len() {
        return None;
    }
    let mut acc: u64 = 0;
    let mut i: usize = from;
    assert(s.take(0) == Seq::<char>::empty());
    while i < cs.len()
        invariant
            from <= i <= cs@.len(),
            s == cs@.skip(from as int),
            all_digits(s.take(i - from)),
            acc as nat == dec_value(s.take(i - from)),
            acc <= max,
        decreases cs@.len() - i,
    {
        let c: char = cs[i];
        let ghost k = i - from;
        assert(s[k] == c);
        if !('0' <= c && c <= '9') {
            assert(!is_digit(s[k]));
            return None;
        }
        let d: u32 = c as u32 - '0' as u32;
        let next: u128 = acc as u128 * 10 + d as u128;
        proof {
            let t = s.take(k + 1);
            assert(t.drop_last() == s.take(k));
            assert(t.last() == c);
            assert(dec_value(t) == next);
            assert forall|j: int| 0 <= j < t.len() implies is_digit(#[trigger] t[j]) by {
                if j < k {
                    assert(t[j] == s.take(k)[j]);
                }
            }
        }
        if next > max as u128 {
            proof {
                if all_digits(s) {
                    lemma_dec_value_grows(s, k + 1);
                }
            }
            return None;
        }
        acc = next as u64;
        i = i + 1;
    }
    assert(s.take(s.len() as int) == s);
    Some(acc)
}

/// Reads an unsigned numeral up to `max`.
pub fn parse_unsigned(cs: &Vec<char>, max: u64) -> (r: Option<u64>)
    ensures
        match r {
            Some(v) => unsigned_value(cs@, max as int) == Some(v as nat),
            None => unsigned_value(cs@, max as int) is None,
        },
{
    assert(cs@.skip(0) == cs@);
    if cs.len() > 0 && cs[0] == '+' {
        read_digits(cs, 1, max)
    } else {
        read_digits(cs, 0, max)
    }
}

/// Reads a signed 32-bit numeral.
pub fn parse_i32(cs: &Vec<char>) -> (r: Option<i32>)
    ensures
        match r {
            Some(v) => i32_value(cs@) == Some(v as int),
            None => i32_value(cs@) is None,
        },
{
    if cs.len() > 0 && cs[0] == '-' {
        match read_digits(cs, 1, 0x8000_0000) {
            Some(v) => {
                let w: i64 = -(v as i64);
                Some(w as i32)
            },
            None => None,
        }
    } else {
        match parse_unsigned(cs, 0x7fff_ffff) {
            Some(v) => Some(v as i32),
            None => None,
        }
    }
}

/// The character of the digit `d`.
fn digit_to_char(d: u64) -> (r: char)
    requires
        d < 16,
    ensures
        r == digit_char(d as int),
{
    if d < 10 {
        (0x30u8 + d as u8) as char
    } else {
        (0x61u8 + (d as u8 - 10)) as char
    }
}

/// `n` written in decimal.
pub fn dec_chars(n: u64) -> (r: Vec<char>)
    ensures
        r@ == dec_text(n as nat),
    decreases n,
{
    if n < 10 {
        let mut r: Vec<char> = Vec::new();
        r.push(digit_to_char(n));
        assert(r@ == dec_text(n as nat));
        r
    } else {
        let mut r = dec_chars(n / 10);
        r.push(digit_to_char(n % 10));
        r
    }
}

/// The last `width` digits of `n` in base `base`.
fn fixed_chars(n: u64, base: u64, width: u64) -> (r: Vec<char>)
    requires
        2 <= base <= 16,
    ensures
        r@ == fixed_text(n as nat, base as nat, width as nat),
    decreases width,
{
    if width == 0 {
        let r: Vec<char> = Vec::new();
        assert(r@ == fixed_text(n as nat, base as nat, 0));
        r
    } else {
        let mut r = fixed_chars(n / base, base, width - 1);
        r.push(digit_to_char(n % base));
        r
    }
}

/// Appends `n` in decimal.
pub fn append_dec(s: &mut String, n: u64)
    ensures
        final(s)@ == old(s)@ + dec_text(n as nat),
{
    append_chars(s, &dec_chars(n));
}

/// Appends `n` in decimal, with zeros in front up to six places.
pub fn append_six(s: &mut String, n: u64)
    ensures
        final(s)@ == old(s)@ + six_text(n as nat),
{
    if n < 1_000_000 {
        append_chars(s, &fixed_chars(n, 10, 6));
    } else {
        append_chars(s, &dec_chars(n));
    }
}

/// Appends `n` with sixteen hexadecimal digits.
pub fn append_hex(s: &mut String, n: u64)
    ensures
        final(s)@ == old(s)@ + hex_text(n),
{
    append_chars(s, &fixed_chars(n, 16, 16));
}

/// Appends the characters of `cs`.
pub fn append_chars(s: &mut String, cs: &Vec<char>)
    ensures
        final(s)@ == old(s)@ + cs@,
{
    assert(s@ == s@ + cs@.take(0));
    for i in 0..cs.len()
        invariant
            s@ == old(s)@ + cs@.take(i as int),
    {
        s.push(cs[i]);
        assert(cs@.take(i + 1) == cs@.take(i as int).push(cs@[i as int]));
        assert(s@ == old(s)@ + cs@.take(i + 1));
    }
    assert(cs@.take(cs@.len() as int) == cs@);
}

/// Appends the characters of `t`.
pub fn append_text(s: &mut String, t: &str)
    ensures
        final(s)@ == old(s)@ + t@,
{
    append_chars(s, &chars_of(t));
}

/// A copy of `t` as an owned string.
pub fn owned(t: &str) -> (r: String)
    ensures
        r@ == t@,
{
    string_of(&chars_of(t))
}

proof fn lemma_digit_char(d: int)
    requires
        0 <= d < 16,
    ensures
        digit_char(d) as int == if d < 10 {
            '0' as int + d
        } else {
            'a' as int + d - 10
        },
{
}

/// A number that is written in decimal is read back.
pub proof fn law_decimal_is_read_back(n: nat)
    ensures
        dec_value(dec_text(n)) == n,
        all_digits(dec_text(n)),
        dec_text(n).len() > 0,
    decreases n,
{
    if n < 10 {
        lemma_digit_char(n as int);
        let s = dec_text(n);
        assert(s.drop_last() =~= Seq::<char>::empty());
        assert(dec_value(s.drop_last()) == 0);
    } else {
        law_decimal_is_read_back(n / 10);
        lemma_digit_char((n % 10) as int);
        let s = dec_text(n);
        assert(s.drop_last() =~= dec_text(n / 10));
        assert forall|i: int| 0 <= i < s.len() implies is_digit(#[trigger] s[i]) by {
            if i < s.len() - 1 {
                assert(s[i] == dec_text(n / 10)[i]);
            }
        }
    }
}

/// How many numbers can be written with `width` hexadecimal digits.
pub open spec fn hex_span(width: nat) -> nat
    decreases width,
{
    if width == 0 {
        1
    } else {
        16 * hex_span((width - 1) as nat)
    }
}

proof fn lemma_hex_digits_tell_apart(a: nat, b: nat, width: nat)
    requires
        a < hex_span(width),
        b < hex_span(width),
        fixed_text(a, 16, width) == fixed_text(b, 16, width),
    ensures
        a == b,
    decreases width,
{
    if width > 0 {
        let (s, t) = (fixed_text(a, 16, width), fixed_text(b, 16, width));
        assert(s.drop_last() =~= fixed_text(a / 16, 16, (width - 1) as nat));
        assert(t.drop_last() =~= fixed_text(b / 16, 16, (width - 1) as nat));
        assert(s.last() == digit_char((a % 16) as int));
        assert(t.last() == digit_char((b % 16) as int));
        lemma_digit_char((a % 16) as int);
        lemma_digit_char((b % 16) as int);
        lemma_hex_digits_tell_apart(a / 16, b / 16, (width - 1) as nat);
    }
}

/// Different numbers are written differently with sixteen hexadecimal digits.
pub proof fn law_hex_tells_apart(a: u64, b: u64)
    requires
        a != b,
    ensures
        hex_text(a) != hex_text(b),
{
    assert(hex_span(16) == 0x1_0000_0000_0000_0000) by {
        reveal_with_fuel(hex_span, 17);
    }
    if hex_text(a) == hex_text(b) {
        lemma_hex_digits_tell_apart(a as nat, b as nat, 16);
    }
}

/// Different numbers are written differently in decimal.
pub proof fn law_decimal_tells_apart(a: nat, b: nat)
    requires
        a != b,
    ensures
        dec_text(a) != dec_text(b),
{
    law_decimal_is_read_back(a);
    law_decimal_is_read_back(b);
}

/// What stands between the same texts is told apart.
pub proof fn lemma_middle(before: Seq<char>, x: Seq<char>, y: Seq<char>, after: Seq<char>)
    requires
        before + x + after == before + y + after,
    ensures
        x == y,
{
    let (s, t) = (before + x + after, before + y + after);
    assert(s.len() == t.len());
    assert forall|i: int| 0 <= i < x.len() implies x[i] == y[i] by {
        assert(s[before.len() + i] == x[i]);
        assert(t[before.len() + i] == y[i]);
    }
    assert(x =~= y);
}

/// Spaces, tabs and ends of lines are white space, and so are the blanks of other scripts;
/// what is printed of the basic Latin characters is not, nor is any other character.
pub proof fn law_what_is_white(c: char)
    ensures
        c == ' ' || c == '\t' || c == '\n' || c == '\r' ==> white(c),
        '!' <= c <= '~' ==> !white(c),
        c as int <= 8 || 0xe <= c as int <= 0x1f ==> !white(c),
        c == '\u{b}' || c == '\u{c}' || c == '\u{85}' || c == '\u{a0}' ==> white(c),
        c == '\u{1680}' || '\u{2000}' <= c <= '\u{200a}' || c == '\u{2028}' || c == '\u{2029}' || c
            == '\u{202f}' || c == '\u{205f}' || c == '\u{3000}' ==> white(c),
        0x7f <= c as int <= 0x84 || 0x86 <= c as int <= 0x9f || 0xa1 <= c as int <= 0x167f
            ==> !white(c),
        0x1681 <= c as int <= 0x1fff || 0x200b <= c as int <= 0x2027 || 0x202a <= c as int
            <= 0x202e ==> !white(c),
        0x2030 <= c as int <= 0x205e || 0x2060 <= c as int <= 0x2fff || c as int > 0x3000
            ==> !white(c),
{
}

/// Whether a text is nothing but white space.
pub open spec fn all_white(s: Seq<char>) -> bool {
    forall|i: int| 0 <= i < s.len() ==> white(#[trigger] s[i])
}

/// Trimming takes away white space in front and behind, all of it, and nothing else.
pub proof fn law_trimming_takes_white_space_at_the_ends(s: Seq<char>)
    ensures
        exists|front: Seq<char>, back: Seq<char>|
            #![trigger front + trimmed(s) + back]
            s == front + trimmed(s) + back && all_white(front) && all_white(back),
        trimmed(s).len() > 0 ==> !white(trimmed(s)[0]) && !white(trimmed(s).last()),
{
    let inner = without_leading(s);
    let front = lemma_leading(s);
    let back = lemma_trailing(inner);
    assert(s =~= front + trimmed(s) + back);
    if trimmed(s).len() > 0 {
        assert(inner[0] == trimmed(s)[0]);
    }
}

/// Trimming the end takes away white space behind, all of it, and nothing else.
pub proof fn law_trimming_the_end(s: Seq<char>)
    ensures
        exists|back: Seq<char>|
            #![trigger without_trailing(s) + back]
            s == without_trailing(s) + back && all_white(back),
        without_trailing(s).len() > 0 ==> !white(without_trailing(s).last()),
{
    let back = lemma_trailing(s);
    assert(s == without_trailing(s) + back);
}

proof fn lemma_leading(s: Seq<char>) -> (front: Seq<char>)
    ensures
        s == front + without_leading(s),
        all_white(front),
        without_leading(s).len() > 0 ==> !white(without_leading(s)[0]),
    decreases s.len(),
{
    if s.len() > 0 && white(s[0]) {
        let rest = lemma_leading(s.skip(1));
        let front = seq![s[0]] + rest;
        assert(s =~= seq![s[0]] + s.skip(1));
        assert(s =~= front + without_leading(s));
        front
    } else {
        let front = Seq::<char>::empty();
        assert(s =~= front + without_leading(s));
        front
    }
}

proof fn lemma_trailing(s: Seq<char>) -> (back: Seq<char>)
    ensures
        s == without_trailing(s) + back,
        all_white(back),
        without_trailing(s).len() > 0 ==> !white(without_trailing(s).last()),
    decreases s.len(),
{
    if s.len() > 0 && white(s.last()) {
        let rest = lemma_trailing(s.drop_last());
        let back = rest.push(s.last());
        assert(s =~= s.drop_last().push(s.last()));
        assert(s =~= without_trailing(s) + back);
        back
    } else {
        let back = Seq::<char>::empty();
        assert(s =~= without_trailing(s) + back);
        back
    }
}

/// Pieces with a separator between each two.
pub open spec fn separated(parts: Seq<Seq<char>>, sep: char) -> Seq<char>
    decreases parts.len(),
{
    if parts.len() == 0 {
        Seq::empty()
    } else if parts.len() == 1 {
        parts[0]
    } else {
        separated(parts.drop_last(), sep).push(sep) + parts.last()
    }
}

/// Splitting and putting together undo each other: the pieces of a text hold no separator
/// and give the text back when they are put together with one between each two; and pieces
/// without a separator are what a text that is put together so is split into.
pub proof fn law_pieces_are_what_stands_between_separators(
    s: Seq<char>,
    parts: Seq<Seq<char>>,
    sep: char,
)
    ensures
        separated(pieces(s, sep), sep) == s,
        forall|i: int, k: int|
            0 <= i < pieces(s, sep).len() && 0 <= k < pieces(s, sep)[i].len()
                ==> #[trigger] pieces(s, sep)[i][k] != sep,
        parts.len() > 0 && (forall|i: int, k: int|
            0 <= i < parts.len() && 0 <= k < parts[i].len() ==> #[trigger] parts[i][k] != sep)
            ==> pieces(separated(parts, sep), sep) == parts,
{
    lemma_pieces_give_the_text(s, sep);
    if parts.len() > 0 && (forall|i: int, k: int|
        0 <= i < parts.len() && 0 <= k < parts[i].len() ==> #[trigger] parts[i][k] != sep) {
        lemma_separated_is_split(parts, sep);
    }
}

proof fn lemma_pieces_give_the_text(s: Seq<char>, sep: char)
    ensures
        pieces(s, sep).len() > 0,
        separated(pieces(s, sep), sep) == s,
        forall|i: int, k: int|
            0 <= i < pieces(s, sep).len() && 0 <= k < pieces(s, sep)[i].len()
                ==> #[trigger] pieces(s, sep)[i][k] != sep,
    decreases s.len(),
{
    let all = pieces(s, sep);
    if s.len() > 0 {
        let before = pieces(s.drop_last(), sep);
        lemma_pieces_give_the_text(s.drop_last(), sep);
        if s.last() == sep {
            assert(all.drop_last() =~= before);
            assert(separated(all, sep) =~= s);
        } else {
            assert(all.drop_last() =~= before.drop_last());
            let front = separated(before.drop_last(), sep);
            if before.len() == 1 {
                assert(before[0] == before.last());
                assert(separated(all, sep) =~= s);
            } else {
                assert(separated(before, sep) == front.push(sep) + before.last());
                assert(all.last() == before.last().push(s.last()));
                assert(separated(all, sep) == front.push(sep) + all.last());
                assert(s =~= s.drop_last().push(s.last()));
                assert(separated(all, sep) =~= s);
            }
            assert forall|i: int, k: int|
                0 <= i < all.len() && 0 <= k < all[i].len() implies #[trigger] all[i][k]
                != sep by {
                if i < all.len() - 1 {
                    assert(all[i] == before[i]);
                    assert(before[i][k] != sep);
                } else if k < before.last().len() {
                    assert(before[before.len() - 1][k] != sep);
                }
            }
        }
    } else {
        assert(separated(all, sep) =~= s);
    }
}

proof fn lemma_separated_is_split(parts: Seq<Seq<char>>, sep: char)
    requires
        parts.len() > 0,
        forall|i: int, k: int|
            0 <= i < parts.len() && 0 <= k < parts[i].len() ==> #[trigger] parts[i][k] != sep,
    ensures
        pieces(separated(parts, sep), sep) == parts,
    decreases parts.len(), parts.last().len(),
{
    let s = separated(parts, sep);
    let last = parts.last();
    if last.len() > 0 {
        let shorter = parts.drop_last().push(last.drop_last());
        assert forall|i: int, k: int|
            0 <= i < shorter.len() && 0 <= k < shorter[i].len() implies #[trigger] shorter[i][k]
            != sep by {
            assert(parts[i][k] != sep);
        }
        lemma_separated_is_split(shorter, sep);
        assert(shorter.drop_last() =~= parts.drop_last());
        assert(separated(shorter, sep) =~= s.drop_last());
        assert(s.last() == last.last());
        assert(parts[parts.len() - 1][last.len() - 1] != sep);
        assert(pieces(s, sep) =~= parts) by {
            assert(pieces(s.drop_last(), sep) == shorter);
            assert(shorter.drop_last().push(shorter.last().push(s.last())) =~= parts) by {
                assert(shorter.last().push(s.last()) =~= last);
            }
        }
    } else if parts.len() > 1 {
        let front = parts.drop_last();
        assert forall|i: int, k: int|
            0 <= i < front.len() && 0 <= k < front[i].len() implies #[trigger] front[i][k]
            != sep by {
            assert(parts[i][k] != sep);
        }
        lemma_separated_is_split(front, sep);
        assert(s =~= separated(front, sep).push(sep));
        assert(s.drop_last() =~= separated(front, sep));
        assert(front.push(Seq::empty()) =~= parts) by {
            assert(last =~= Seq::<char>::empty());
        }
    } else {
        assert(s =~= Seq::<char>::empty());
        assert(pieces(s, sep) =~= parts);
    }
}

/// A text that begins with another is that one with something behind it; what stands behind
/// it does not matter.
pub proof fn law_a_beginning_is_a_beginning(s: Seq<char>, prefix: Seq<char>, rest: Seq<char>)
    ensures
        starts_with(prefix + rest, prefix),
        starts_with(s, prefix) <==> s == prefix + s.skip(prefix.len() as int) && prefix.len()
            <= s.len(),
{
    assert((prefix + rest).take(prefix.len() as int) =~= prefix);
    if prefix.len() <= s.len() {
        assert(s =~= s.take(prefix.len() as int) + s.skip(prefix.len() as int));
        if s == prefix + s.skip(prefix.len() as int) {
            assert(s.take(prefix.len() as int) =~= prefix);
        }
    }
}

/// A text occurs in another exactly if that is the text with something in front of it and
/// something behind it.
pub proof fn law_what_occurs_stands_between_the_rest(
    hay: Seq<char>,
    needle: Seq<char>,
    front: Seq<char>,
    back: Seq<char>,
)
    ensures
        occurs(front + needle + back, needle),
        occurs(hay, needle) ==> exists|a: Seq<char>, b: Seq<char>|
            #![trigger a + needle + b]
            hay == a + needle + b,
{
    let whole = front + needle + back;
    assert(whole.subrange(front.len() as int, front.len() as int + needle.len()) =~= needle);
    assert(stands_at(whole, needle, front.len() as int));
    if occurs(hay, needle) {
        let at = choose|at: int| stands_at(hay, needle, at);
        let (a, b) = (hay.take(at), hay.skip(at + needle.len()));
        assert(hay =~= a + needle + b);
    }
}

/// A digit behind a numeral makes it ten times as much, and the digit more.
pub proof fn law_digits_count_tenfold(s: Seq<char>, digit: char)
    requires
        '0' <= digit <= '9',
    ensures
        dec_value(s.push(digit)) == 10 * dec_value(s) + (digit as int - 48),
        dec_value(Seq::empty()) == 0,
        is_digit(digit),
        !is_digit('+') && !is_digit('-') && !is_digit('.') && !is_digit(' ') && !is_digit('a'),
{
    assert(s.push(digit).drop_last() =~= s);
}

/// A number is written without zeros in front, but for zero itself.
pub proof fn law_decimals_have_no_leading_zeros(n: nat)
    ensures
        n > 0 ==> dec_text(n)[0] != '0',
        n == 0 ==> dec_text(n) == seq!['0'],
    decreases n,
{
    if n >= 10 {
        law_decimals_have_no_leading_zeros(n / 10);
        law_decimal_is_read_back(n / 10);
        assert(dec_text(n)[0] == dec_text(n / 10)[0]);
    } else {
        lemma_digit_char(n as int);
    }
}

/// Numerals are read as they are written, with a sign in front or, for a number that is not
/// negative, without one, as far as they fit.
pub proof fn law_numerals_are_read(n: nat, max: int)
    ensures
        unsigned_value(dec_text(n), max) == if n <= max { Some(n) } else { None },
        unsigned_value(seq!['+'] + dec_text(n), max) == if n <= max { Some(n) } else { None },
        unsigned_value(seq!['-'] + dec_text(n), max) is None,
        i32_value(dec_text(n)) == if n <= 0x7fff_ffff { Some(n as int) } else { None },
        i32_value(seq!['+'] + dec_text(n)) == if n <= 0x7fff_ffff { Some(n as int) } else { None },
        i32_value(seq!['-'] + dec_text(n)) == if n <= 0x8000_0000 { Some(-(n as int)) } else {
            None
        },
        unsigned_value(Seq::empty(), max) is None,
        i32_value(Seq::empty()) is None,
        unsigned_value(seq!['+'], max) is None,
        i32_value(seq!['+']) is None,
        i32_value(seq!['-']) is None,
{
    law_decimal_is_read_back(n);
    let s = dec_text(n);
    assert(is_digit(s[0]));
    assert((seq!['+'] + s).skip(1) =~= s);
    assert((seq!['-'] + s).skip(1) =~= s);
    assert(!is_digit((seq!['-'] + s)[0]));
    assert(seq!['+'].skip(1) =~= Seq::<char>::empty());
    assert(seq!['-'].skip(1) =~= Seq::<char>::empty());
}

/// What holds anything but digits, behind a sign that may stand in front, is no numeral.
pub proof fn law_other_texts_are_no_numerals(s: Seq<char>, i: int, max: int)
    requires
        0 <= i < s.len(),
        !('0' <= s[i] <= '9'),
        i > 0 || (s[i] != '+' && s[i] != '-'),
    ensures
        unsigned_value(s, max) is None,
        i32_value(s) is None,
{
    assert(!is_digit(s[i]));
    if i > 0 {
        assert(s.skip(1)[i - 1] == s[i]);
    }
}

/// Sixteen hexadecimal digits are written, the lowest last; those in front of it are the
/// digits of a sixteenth of the number.
pub proof fn law_hexadecimals_have_sixteen_digits(n: u64)
    ensures
        hex_text(n).len() == 16,
        n % 16 < 10 ==> hex_text(n)[15] as int == '0' as int + n % 16,
        n % 16 >= 10 ==> hex_text(n)[15] as int == 'a' as int + (n % 16 - 10),
        forall|i: int| 0 <= i < 15 ==> #[trigger] hex_text(n)[i] == hex_text(n / 16)[i + 1],
        hex_text(0)[0] == '0',
{
    lemma_fixed_len(n as nat, 16, 16);
    lemma_fixed_len((n / 16) as nat, 16, 16);
    lemma_fixed_len((n / 16) as nat, 16, 15);
    lemma_fixed_len(0, 16, 16);
    lemma_digit_char((n % 16) as int);
    assert(hex_text(n).drop_last() == fixed_text((n / 16) as nat, 16, 15)) by {
        assert(hex_text(n).drop_last() =~= fixed_text(n as nat / 16, 16, 15));
    }
    lemma_fixed_shift((n / 16) as nat, 15);
    assert forall|i: int| 0 <= i < 15 implies #[trigger] hex_text(n)[i] == hex_text(n / 16)[i
        + 1] by {
        assert(hex_text(n)[i] == hex_text(n).drop_last()[i]);
    }
    lemma_zero_in_front(16);
}

proof fn lemma_fixed_len(n: nat, base: nat, width: nat)
    requires
        base == 10 || base == 16,
    ensures
        fixed_text(n, base, width).len() == width,
    decreases width,
{
    if width > 0 {
        lemma_fixed_len(n / base, base, (width - 1) as nat);
    }
}

proof fn lemma_fixed_shift(n: nat, width: nat)
    ensures
        fixed_text(n, 16, width + 1).len() == width + 1,
        fixed_text(n, 16, width).len() == width,
        forall|i: int|
            0 <= i < width ==> #[trigger] fixed_text(n, 16, width)[i] == fixed_text(
                n,
                16,
                width + 1,
            )[i + 1],
    decreases width,
{
    lemma_fixed_len(n, 16, width + 1);
    lemma_fixed_len(n, 16, width);
    if width > 0 {
        let m = n / 16;
        let w = (width - 1) as nat;
        lemma_fixed_shift(m, w);
        assert(fixed_text(n, 16, width) == fixed_text(m, 16, w).push(digit_char((n % 16) as int)));
        assert(fixed_text(n, 16, width + 1) == fixed_text(m, 16, width).push(
            digit_char((n % 16) as int),
        ));
        assert forall|i: int| 0 <= i < width implies #[trigger] fixed_text(n, 16, width)[i]
            == fixed_text(n, 16, width + 1)[i + 1] by {
            if i < w {
                assert(fixed_text(m, 16, w)[i] == fixed_text(m, 16, w + 1)[i + 1]);
            }
        }
    }
}

proof fn lemma_zero_in_front(width: nat)
    requires
        width > 0,
    ensures
        fixed_text(0, 16, width)[0] == '0',
    decreases width,
{
    lemma_fixed_len(0, 16, (width - 1) as nat);
    assert(0nat / 16 == 0);
    lemma_digit_char(0);
    if width > 1 {
        lemma_zero_in_front((width - 1) as nat);
    }
}

/// A number up to six places is written with six digits that denote it; a larger one as any
/// number is.
pub proof fn law_six_places_are_filled(n: nat)
    ensures
        n < 1_000_000 ==> six_text(n).len() == 6 && all_digits(six_text(n)) && dec_value(
            six_text(n),
        ) == n,
        n >= 1_000_000 ==> six_text(n) == dec_text(n),
{
    if n < 1_000_000 {
        assert(ten_span(6) == 1_000_000) by {
            reveal_with_fuel(ten_span, 7);
        }
        lemma_fixed_len(n, 10, 6);
        lemma_fixed_decimal(n, 6);
    }
}

spec fn ten_span(width: nat) -> nat
    decreases width,
{
    if width == 0 {
        1
    } else {
        10 * ten_span((width - 1) as nat)
    }
}

proof fn lemma_fixed_decimal(n: nat, width: nat)
    requires
        n < ten_span(width),
    ensures
        all_digits(fixed_text(n, 10, width)),
        dec_value(fixed_text(n, 10, width)) == n,
    decreases width,
{
    if width > 0 {
        lemma_fixed_decimal(n / 10, (width - 1) as nat);
        lemma_digit_char((n % 10) as int);
        let s = fixed_text(n, 10, width);
        assert(s.drop_last() =~= fixed_text(n / 10, 10, (width - 1) as nat));
        assert forall|i: int| 0 <= i < s.len() implies is_digit(#[trigger] s[i]) by {
            if i < s.len() - 1 {
                assert(s[i] == s.drop_last()[i]);
            }
        }
    }
}

/// Texts are equal exactly if they have the same characters; one begins with another exactly
/// if it is that with the rest behind it; and one occurs in another exactly if it stands
/// somewhere in it.
pub proof fn law_texts_are_told_apart(
    a: &str,
    b: &str,
    same: bool,
    rest: Option<String>,
    found: bool,
    at: int,
)
    requires
        call_ensures(same_text, (a, b), same),
        call_ensures(after_prefix, (a, b), rest),
        call_ensures(text_occurs, (a, b), found),
    ensures
        same <==> a@ == b@,
        rest matches Some(t) ==> a@ == b@ + t@,
        rest is None ==> a@.len() < b@.len() || a@.take(b@.len() as int) != b@,
        found ==> exists|front: Seq<char>, back: Seq<char>|
            #![trigger front + b@ + back]
            a@ == front + b@ + back,
        !found && 0 <= at && at + b@.len() <= a@.len() ==> a@.subrange(at, at + b@.len()) != b@,
{
    law_a_beginning_is_a_beginning(a@, b@, Seq::empty());
    law_what_occurs_stands_between_the_rest(a@, b@, Seq::empty(), Seq::empty());
    if !found {
        assert(!stands_at(a@, b@, at));
    }
}

/// Trimming takes white space at the ends, all of it and nothing else.
pub proof fn law_only_white_space_is_trimmed(s: &str, r: String, end: String, cs: &Vec<char>, t: Vec<char>)
    requires
        call_ensures(trim_text, (s,), r),
        call_ensures(trim_end_text, (s,), end),
        call_ensures(trim_chars, (cs,), t),
        cs@ == s@,
    ensures
        t@ == r@,
        exists|front: Seq<char>, back: Seq<char>|
            #![trigger front + r@ + back]
            s@ == front + r@ + back && all_white(front) && all_white(back),
        r@.len() > 0 ==> !white(r@[0]) && !white(r@.last()),
        exists|back: Seq<char>|
            #![trigger end@ + back]
            s@ == end@ + back && all_white(back),
        end@.len() > 0 ==> !white(end@.last()),
{
    law_trimming_takes_white_space_at_the_ends(s@);
    law_trimming_the_end(s@);
    let (front, back) = choose|front: Seq<char>, back: Seq<char>|
        #![trigger front + trimmed(s@) + back]
        s@ == front + trimmed(s@) + back && all_white(front) && all_white(back);
    assert(s@ == front + r@ + back);
    let tail = choose|back: Seq<char>|
        #![trigger without_trailing(s@) + back]
        s@ == without_trailing(s@) + back && all_white(back);
    assert(s@ == end@ + tail);
}

/// Splitting gives what stands between the separators, all of it and in order.
pub proof fn law_splitting_gives_the_parts(
    cs: &Vec<char>,
    sep: char,
    r: Vec<Vec<char>>,
    parts: Seq<Seq<char>>,
    i: int,
)
    requires
        call_ensures(split_chars, (cs, sep), r),
        parts.len() > 0,
        forall|k: int, j: int|
            0 <= k < parts.len() && 0 <= j < parts[k].len() ==> #[trigger] parts[k][j] != sep,
        cs@ == separated(parts, sep),
        0 <= i < parts.len(),
    ensures
        r@.len() == parts.len(),
        r@[i]@ == parts[i],
{
    law_pieces_are_what_stands_between_separators(cs@, parts, sep);
    let piece = r@[i];
}

/// A number that is written is read back, as far as it fits; and the sign in front of a
/// number counts.
pub proof fn law_written_numbers_are_read(
    n: u64,
    max: u64,
    digits: Vec<char>,
    read: Option<u64>,
    plain: Option<i32>,
    signed: &Vec<char>,
    negative: Option<i32>,
)
    requires
        call_ensures(dec_chars, (n,), digits),
        call_ensures(parse_unsigned, (&digits, max), read),
        call_ensures(parse_i32, (&digits,), plain),
        signed@ == seq!['-'] + digits@,
        call_ensures(parse_i32, (signed,), negative),
    ensures
        read == if n <= max { Some(n) } else { None },
        n <= 0x7fff_ffff ==> (plain matches Some(v) && v == n),
        n > 0x7fff_ffff ==> plain is None,
        n <= 0x8000_0000 ==> (negative matches Some(v) && v == -(n as int)),
        n > 0x8000_0000 ==> negative is None,
        n > 0 ==> digits@[0] != '0',
{
    law_numerals_are_read(n as nat, max as int);
    law_decimals_have_no_leading_zeros(n as nat);
}

/// What is appended stands behind what was there: texts as they are, and numbers so that they
/// can be told apart.
pub proof fn law_appending_leaves_what_was_there(
    s: &mut String,
    t: &str,
    d: &mut String,
    six: &mut String,
    hex: &mut String,
    n: u64,
)
    requires
        call_ensures(append_text, (s, t), ()),
        call_ensures(append_dec, (d, n), ()),
        call_ensures(append_six, (six, n), ()),
        call_ensures(append_hex, (hex, n), ()),
    ensures
        final(s)@ == old(s)@ + t@,
        final(d)@.take(old(d)@.len() as int) == old(d)@,
        dec_value(final(d)@.skip(old(d)@.len() as int)) == n,
        final(six)@.take(old(six)@.len() as int) == old(six)@,
        dec_value(final(six)@.skip(old(six)@.len() as int)) == n,
        n < 1_000_000 ==> final(six)@.len() == old(six)@.len() + 6,
        final(hex)@.take(old(hex)@.len() as int) == old(hex)@,
        final(hex)@.skip(old(hex)@.len() as int) == hex_text(n),
        final(hex)@.len() == old(hex)@.len() + 16,
{
    law_decimal_is_read_back(n as nat);
    law_six_places_are_filled(n as nat);
    law_hexadecimals_have_sixteen_digits(n);
    assert(final(d)@.take(old(d)@.len() as int) =~= old(d)@);
    assert(final(d)@.skip(old(d)@.len() as int) =~= dec_text(n as nat));
    assert(final(six)@.take(old(six)@.len() as int) =~= old(six)@);
    assert(final(six)@.skip(old(six)@.len() as int) =~= six_text(n as nat));
    assert(final(hex)@.take(old(hex)@.len() as int) =~= old(hex)@);
    assert(final(hex)@.skip(old(hex)@.len() as int) =~= hex_text(n));
}

/// Whether a character counts as white space is what is known of it.
pub proof fn law_calls_know_white_space(c: char, r: bool)
    requires
        call_ensures(is_white, (c,), r),
    ensures
        c == ' ' || c == '\t' || c == '\n' || c == '\r' || c == '\u{a0}' || c == '\u{3000}' ==> r,
        '!' <= c <= '~' ==> !r,
        r == white(c),
{
    law_what_is_white(c);
}

} // verus!
