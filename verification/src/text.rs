//! Text as sequences of characters: order, search, case and numbers.
use vstd::prelude::*;
#[allow(unused_imports)]
use vstd::string::*;
#[allow(unused_imports)]
use vstd::utf8::*;

verus! {

/// Whether `a` comes before `b`: the first character in which they differ
/// decides by its code point, and a proper prefix comes first.
pub open spec fn precedes(a: Seq<char>, b: Seq<char>) -> bool
    decreases a.len(),
{
    if b.len() == 0 {
        false
    } else if a.len() == 0 {
        true
    } else if a[0] != b[0] {
        (a[0] as int) < (b[0] as int)
    } else {
        precedes(a.drop_first(), b.drop_first())
    }
}

/// Nothing precedes itself, nor what precedes it.
pub proof fn lemma_precedes_asymmetric(a: Seq<char>, b: Seq<char>)
    ensures
        !precedes(a, a),
        precedes(a, b) ==> !precedes(b, a) && a != b,
    decreases a.len(),
{
    if a.len() > 0 {
        lemma_precedes_asymmetric(a.drop_first(), b.drop_first());
    }
}

/// Of two different texts one precedes the other.
pub proof fn lemma_precedes_total(a: Seq<char>, b: Seq<char>)
    ensures
        a == b || precedes(a, b) || precedes(b, a),
    decreases a.len(),
{
    if a.len() > 0 && b.len() > 0 {
        if a[0] == b[0] {
            lemma_precedes_total(a.drop_first(), b.drop_first());
            if a.drop_first() == b.drop_first() {
                assert(a =~= seq![a[0]] + a.drop_first());
                assert(b =~= seq![b[0]] + b.drop_first());
            }
        }
    } else {
        assert(a.len() == 0 && b.len() == 0 ==> a =~= b);
    }
}

/// What precedes a text precedes everything that comes after that text.
pub proof fn lemma_precedes_transitive(a: Seq<char>, b: Seq<char>, c: Seq<char>)
    requires
        precedes(a, b),
        precedes(b, c),
    ensures
        precedes(a, c),
    decreases a.len(),
{
    if a.len() > 0 && a[0] == b[0] && b[0] == c[0] {
        lemma_precedes_transitive(a.drop_first(), b.drop_first(), c.drop_first());
    }
}

/// The characters of a text.
pub fn chars_of(s: &str) -> (chars: Vec<char>)
    ensures
        chars@ == s@,
{
    let mut chars: Vec<char> = Vec::new();
    for c in it: s.chars()
        invariant
            it.seq() == s@,
            chars@ == s@.take(it.index() as int),
    {
        chars.push(c);
    }
    chars
}

/// The code point of a character.
fn code_point(c: char) -> (code: u32)
    ensures
        code as int == c as int,
{
    c as u32
}

/// Whether `a` comes before `b` in the order of their code points.
pub fn comes_before(a: &str, b: &str) -> (before: bool)
    ensures
        before == precedes(a@, b@),
{
    let left = chars_of(a);
    let right = chars_of(b);
    let mut i: usize = 0;
    assert(left@.skip(0) =~= left@);
    assert(right@.skip(0) =~= right@);
    while i < left.len() && i < right.len() && left[i] == right[i]
        invariant
            i <= left.len(),
            i <= right.len(),
            precedes(a@, b@) == precedes(left@.skip(i as int), right@.skip(i as int)),
        decreases left.len() - i,
    {
        assert(left@.skip(i as int).drop_first() =~= left@.skip(i + 1));
        assert(right@.skip(i as int).drop_first() =~= right@.skip(i + 1));
        i += 1;
    }
    if i == right.len() {
        false
    } else if i == left.len() {
        true
    } else {
        code_point(left[i]) < code_point(right[i])
    }
}

/// Whether two texts hold the same characters.
pub fn same(a: &str, b: &str) -> (equal: bool)
    ensures
        equal == (a@ == b@),
{
    let left = a.as_bytes();
    let right = b.as_bytes();
    proof {
        encode_utf8_decode_utf8(a@);
        encode_utf8_decode_utf8(b@);
    }
    if left.len() != right.len() {
        return false;
    }
    let mut i: usize = 0;
    while i < left.len()
        invariant
            i <= left.len(),
            left.len() == right.len(),
            left@ == a.spec_bytes(),
            right@ == b.spec_bytes(),
            forall|j: int| 0 <= j < i ==> left@[j] == right@[j],
        decreases left.len() - i,
    {
        if left[i] != right[i] {
            return false;
        }
        i += 1;
    }
    assert(left@ =~= right@);
    true
}

/// Whether `s` begins with `prefix`.
pub fn starts_with(s: &str, prefix: &str) -> (found: bool)
    ensures
        found == prefix@.is_prefix_of(s@),
{
    let whole = chars_of(s);
    let head = chars_of(prefix);
    if head.len() > whole.len() {
        return false;
    }
    let mut i: usize = 0;
    while i < head.len()
        invariant
            i <= head.len() <= whole.len(),
            head@ == prefix@,
            whole@ == s@,
            forall|j: int| 0 <= j < i ==> head@[j] == whole@[j],
        decreases head.len() - i,
    {
        if head[i] != whole[i] {
            assert(s@.subrange(0, prefix@.len() as int)[i as int] != prefix@[i as int]);
            return false;
        }
        i += 1;
    }
    assert(s@.subrange(0, prefix@.len() as int) =~= prefix@);
    true
}

/// Whether `needle` stands in `s` at position `at`.
pub open spec fn stands_at(s: Seq<char>, needle: Seq<char>, at: int) -> bool {
    &&& 0 <= at <= s.len() - needle.len()
    &&& s.subrange(at, at + needle.len()) == needle
}

/// Whether `needle` stands anywhere in `s`.
pub open spec fn holds_text(s: Seq<char>, needle: Seq<char>) -> bool {
    exists|at: int| stands_at(s, needle, at)
}

/// Whether `needle` stands anywhere in `s`.
pub fn contains(s: &str, needle: &str) -> (found: bool)
    ensures
        found == holds_text(s@, needle@),
{
    let whole = chars_of(s);
    let part = chars_of(needle);
    if part.len() > whole.len() {
        return false;
    }
    let last: usize = whole.len() - part.len();
    let mut at: usize = 0;
    loop
        invariant
            at <= last,
            last == whole.len() - part.len(),
            part.len() <= whole.len(),
            whole@ == s@,
            part@ == needle@,
            forall|k: int| 0 <= k < at ==> !stands_at(s@, needle@, k),
        decreases last - at,
    {
        let mut i: usize = 0;
        while i < part.len() && part[i] == whole[at + i]
            invariant
                i <= part.len(),
                at <= last,
                last == whole.len() - part.len(),
                part.len() <= whole.len(),
                whole@ == s@,
                part@ == needle@,
                forall|j: int| 0 <= j < i ==> part@[j] == whole@[at + j],
            decreases part.len() - i,
        {
            i += 1;
        }
        if i == part.len() {
            assert(s@.subrange(at as int, at + needle@.len()) =~= needle@);
            assert(stands_at(s@, needle@, at as int));
            return true;
        }
        assert(s@.subrange(at as int, at + needle@.len())[i as int] != needle@[i as int]);
        if at == last {
            return false;
        }
        at += 1;
    }
}

/// A character with the letters `A` to `Z` lowered and every other kept.
pub open spec fn ascii_lower(c: char) -> char {
    if 'A' as int <= c as int && c as int <= 'Z' as int {
        (c as int + 32) as char
    } else {
        c
    }
}

/// Whether two texts differ at most in the case of ASCII letters.
pub open spec fn same_ignoring_ascii_case(a: Seq<char>, b: Seq<char>) -> bool {
    a.map_values(|c: char| ascii_lower(c)) == b.map_values(|c: char| ascii_lower(c))
}

/// The code point of a character with the letters `A` to `Z` lowered.
fn lowered_code(c: char) -> (code: u32)
    ensures
        code as int == ascii_lower(c) as int,
{
    let code: u32 = code_point(c);
    if 65 <= code && code <= 90 {
        code + 32
    } else {
        code
    }
}

/// Whether two texts differ at most in the case of ASCII letters.
pub fn eq_ignore_ascii_case(a: &str, b: &str) -> (equal: bool)
    ensures
        equal == same_ignoring_ascii_case(a@, b@),
{
    let left = chars_of(a);
    let right = chars_of(b);
    let ghost lower_a = a@.map_values(|c: char| ascii_lower(c));
    let ghost lower_b = b@.map_values(|c: char| ascii_lower(c));
    if left.len() != right.len() {
        assert(lower_a.len() != lower_b.len());
        return false;
    }
    let mut i: usize = 0;
    while i < left.len()
        invariant
            i <= left.len(),
            left.len() == right.len(),
            left@ == a@,
            right@ == b@,
            lower_a == a@.map_values(|c: char| ascii_lower(c)),
            lower_b == b@.map_values(|c: char| ascii_lower(c)),
            forall|j: int| 0 <= j < i ==> lower_a[j] == lower_b[j],
        decreases left.len() - i,
    {
        if lowered_code(left[i]) != lowered_code(right[i]) {
            assert(lower_a[i as int] != lower_b[i as int]);
            return false;
        }
        i += 1;
    }
    assert(lower_a =~= lower_b);
    true
}

/// The character of a decimal digit.
pub open spec fn digit(d: nat) -> char {
    (48 + d) as char
}

/// A number in decimal notation, without leading zeros.
pub open spec fn decimal(n: nat) -> Seq<char>
    decreases n,
{
    if n < 10 {
        seq![digit(n)]
    } else {
        decimal(n / 10).push(digit(n % 10))
    }
}

/// An integer in decimal notation, with a minus sign where it is negative.
pub open spec fn signed_decimal(n: int) -> Seq<char> {
    if n < 0 {
        seq!['-'] + decimal((-n) as nat)
    } else {
        decimal(n as nat)
    }
}

/// A decimal digit as text.
fn digit_text(d: u64) -> (text: &'static str)
    requires
        d < 10,
    ensures
        text@ == seq![digit(d as nat)],
{
    proof {
        reveal_strlit("0");
        reveal_strlit("1");
        reveal_strlit("2");
        reveal_strlit("3");
        reveal_strlit("4");
        reveal_strlit("5");
        reveal_strlit("6");
        reveal_strlit("7");
        reveal_strlit("8");
        reveal_strlit("9");
    }
    if d == 0 {
        "0"
    } else if d == 1 {
        "1"
    } else if d == 2 {
        "2"
    } else if d == 3 {
        "3"
    } else if d == 4 {
        "4"
    } else if d == 5 {
        "5"
    } else if d == 6 {
        "6"
    } else if d == 7 {
        "7"
    } else if d == 8 {
        "8"
    } else {
        "9"
    }
}

/// A number in decimal notation.
pub fn decimal_text(n: u64) -> (text: String)
    ensures
        text@ == decimal(n as nat),
    decreases n,
{
    if n < 10 {
        digit_text(n).to_owned()
    } else {
        decimal_text(n / 10).concat(digit_text(n % 10))
    }
}

/// An integer in decimal notation.
pub fn signed_decimal_text(n: i32) -> (text: String)
    ensures
        text@ == signed_decimal(n as int),
{
    if n < 0 {
        let magnitude: i64 = -(n as i64);
        proof {
            reveal_strlit("-");
        }
        "-".to_owned().concat(decimal_text(magnitude as u64).as_str())
    } else {
        decimal_text(n as u64)
    }
}

/// Whether every character is one of the digits `0` to `9`.
pub open spec fn all_digits(s: Seq<char>) -> bool {
    forall|i: int| 0 <= i < s.len() ==> 48 <= #[trigger] s[i] as int <= 57
}

/// The number that a row of digits denotes.
pub open spec fn digits_value(s: Seq<char>) -> int
    decreases s.len(),
{
    if s.len() == 0 {
        0
    } else {
        10 * digits_value(s.drop_last()) + (s.last() as int - 48)
    }
}

/// The digits of a number: what follows its sign, if it has one.
pub open spec fn unsigned_part(s: Seq<char>) -> Seq<char> {
    if s.len() > 0 && (s[0] == '+' || s[0] == '-') {
        s.drop_first()
    } else {
        s
    }
}

/// The integer that a text denotes: at least one digit after an optional
/// sign, nothing else, and a value within the range of `i32`.
pub open spec fn parsed_i32(s: Seq<char>) -> Option<i32> {
    let magnitude = digits_value(unsigned_part(s));
    let value = if s.len() > 0 && s[0] == '-' {
        -magnitude
    } else {
        magnitude
    };
    if unsigned_part(s).len() > 0 && all_digits(unsigned_part(s)) && i32::MIN <= value <= i32::MAX {
        Some(value as i32)
    } else {
        None
    }
}

/// Reads an integer in decimal notation.
pub fn parse_i32(s: &str) -> (parsed: Option<i32>)
    ensures
        parsed == parsed_i32(s@),
{
    let chars = chars_of(s);
    if chars.len() == 0 {
        return None;
    }
    let negative: bool = chars[0] == '-';
    let start: usize = if negative || chars[0] == '+' {
        1
    } else {
        0
    };
    if start == chars.len() {
        return None;
    }
    let ghost digits = unsigned_part(s@);
    assert(digits =~= chars@.skip(start as int));
    let limit: i64 = 4_294_967_296;
    let mut magnitude: i64 = 0;
    let mut i: usize = start;
    assert(digits.take(0) =~= Seq::<char>::empty());
    while i < chars.len()
        invariant
            start <= i <= chars.len(),
            start <= 1,
            digits == chars@.skip(start as int),
            digits == unsigned_part(s@),
            limit == 4_294_967_296,
            0 <= magnitude <= limit,
            forall|j: int| 0 <= j < i - start ==> 48 <= #[trigger] digits[j] as int <= 57,
            digits_value(digits.take(i - start)) == magnitude || (magnitude == limit
                && digits_value(digits.take(i - start)) >= limit),
        decreases chars.len() - i,
    {
        let code: u32 = code_point(chars[i]);
        assert(digits[i - start] == chars@[i as int]);
        if code < 48 || code > 57 {
            return None;
        }
        let next: i64 = 10 * magnitude + (code as i64 - 48);
        magnitude = if next > limit {
            limit
        } else {
            next
        };
        proof {
            let longer = digits.take(i + 1 - start);
            assert(longer.drop_last() =~= digits.take(i - start));
            assert(longer.last() == digits[i - start]);
        }
        i += 1;
    }
    assert(digits.take(chars.len() - start) =~= digits);
    let value: i64 = if negative {
        -magnitude
    } else {
        magnitude
    };
    if i32::MIN as i64 <= value && value <= i32::MAX as i64 {
        Some(value as i32)
    } else {
        None
    }
}

/// Whether a character has the Unicode property White_Space.
pub open spec fn white_space(c: char) -> bool {
    let code = c as int;
    ||| 0x9 <= code <= 0xd
    ||| code == 0x20
    ||| code == 0x85
    ||| code == 0xa0
    ||| code == 0x1680
    ||| 0x2000 <= code <= 0x200a
    ||| code == 0x2028
    ||| code == 0x2029
    ||| code == 0x202f
    ||| code == 0x205f
    ||| code == 0x3000
}

/// A text without the white space at its beginning.
pub open spec fn trimmed_start(s: Seq<char>) -> Seq<char>
    decreases s.len(),
{
    if s.len() > 0 && white_space(s[0]) {
        trimmed_start(s.drop_first())
    } else {
        s
    }
}

/// A text without the white space at its end.
pub open spec fn trimmed_end(s: Seq<char>) -> Seq<char>
    decreases s.len(),
{
    if s.len() > 0 && white_space(s.last()) {
        trimmed_end(s.drop_last())
    } else {
        s
    }
}

/// A text without the white space at its beginning and at its end.
pub open spec fn trimmed(s: Seq<char>) -> Seq<char> {
    trimmed_end(trimmed_start(s))
}

/// Whether a character has the Unicode property White_Space.
fn is_white_space(c: char) -> (white: bool)
    ensures
        white == white_space(c),
{
    let code: u32 = code_point(c);
    (0x9 <= code && code <= 0xd) || code == 0x20 || code == 0x85 || code == 0xa0 || code == 0x1680
        || (0x2000 <= code && code <= 0x200a) || code == 0x2028 || code == 0x2029 || code == 0x202f
        || code == 0x205f || code == 0x3000
}

/// A text without the white space at its beginning and at its end.
pub fn trim(s: &str) -> (inner: &str)
    ensures
        inner@ == trimmed(s@),
{
    let chars = chars_of(s);
    let mut from: usize = 0;
    assert(chars@.skip(0) =~= chars@);
    while from < chars.len() && is_white_space(chars[from])
        invariant
            from <= chars.len(),
            trimmed_start(chars@) == trimmed_start(chars@.skip(from as int)),
        decreases chars.len() - from,
    {
        assert(chars@.skip(from as int).drop_first() =~= chars@.skip(from + 1));
        from += 1;
    }
    let mut to: usize = chars.len();
    assert(chars@.subrange(from as int, to as int) =~= chars@.skip(from as int));
    assert(trimmed_start(chars@) == chars@.skip(from as int));
    while from < to && is_white_space(chars[to - 1])
        invariant
            from <= to <= chars.len(),
            trimmed(chars@) == trimmed_end(chars@.subrange(from as int, to as int)),
        decreases to - from,
    {
        assert(chars@.subrange(from as int, to as int).drop_last() =~= chars@.subrange(
            from as int,
            to - 1,
        ));
        to -= 1;
    }
    s.substring_char(from, to)
}

/// What `str::to_lowercase` makes of a text.
pub uninterp spec fn lowercase(s: Seq<char>) -> Seq<char>;

/// `str::to_lowercase`: the text in lower case by the rules of Unicode, which
/// depends on the text alone. Of a text that is all ASCII each letter from
/// `A` to `Z` is lowered and every other character stays.
#[verifier::external_body]
fn to_lowercase(s: &str) -> (lowered: String)
    ensures
        lowered@ == lowercase(s@),
        is_ascii_chars(s@) ==> lowered@ == s@.map_values(|c: char| ascii_lower(c)),
{
    s.to_lowercase()
}

/// A text in lower case. What it is for a text with characters beyond ASCII
/// is what `str::to_lowercase` makes of it.
pub open spec fn lowered(s: Seq<char>) -> Seq<char> {
    if is_ascii_chars(s) {
        s.map_values(|c: char| ascii_lower(c))
    } else {
        lowercase(s)
    }
}

/// A text in lower case.
pub fn lower(s: &str) -> (text: String)
    ensures
        text@ == lowered(s@),
{
    to_lowercase(s)
}

/// `a` comes before `b` exactly where they agree up to some place at which `a`
/// ends and `b` goes on, or at which `a` has the smaller character.
pub proof fn law_order(a: Seq<char>, b: Seq<char>)
    ensures
        precedes(a, b) <==> exists|k: int|
            #![trigger a.take(k)]
            0 <= k <= a.len() && k < b.len() && a.take(k) == b.take(k) && (k == a.len() || (
            a[k] as int) < (b[k] as int)),
    decreases a.len(),
{
    let differs = |k: int|
        0 <= k <= a.len() && k < b.len() && a.take(k) == b.take(k) && (k == a.len() || (a[k] as int)
            < (b[k] as int));
    if b.len() > 0 && (a.len() == 0 || a[0] != b[0]) {
        assert(a.take(0) =~= b.take(0));
        if exists|k: int| #![trigger a.take(k)] differs(k) {
            let k = choose|k: int| #![trigger a.take(k)] differs(k);
            if k > 0 {
                assert(a.take(k)[0] == a[0] && b.take(k)[0] == b[0]);
            }
        }
        if precedes(a, b) {
            assert(differs(0));
            assert(a.take(0) == b.take(0));
        }
    } else if b.len() > 0 {
        let x = a.drop_first();
        let y = b.drop_first();
        law_order(x, y);
        if precedes(a, b) {
            let k = choose|k: int|
                #![trigger x.take(k)]
                0 <= k <= x.len() && k < y.len() && x.take(k) == y.take(k) && (k == x.len() || (
                x[k] as int) < (y[k] as int));
            assert(a.take(k + 1) =~= seq![a[0]] + x.take(k));
            assert(b.take(k + 1) =~= seq![b[0]] + y.take(k));
        }
        if exists|k: int| #![trigger a.take(k)] differs(k) {
            let k = choose|k: int| #![trigger a.take(k)] differs(k);
            if k > 0 {
                assert(x.take(k - 1) =~= a.take(k).drop_first());
                assert(y.take(k - 1) =~= b.take(k).drop_first());
            }
        }
    }
}

/// A text holds another exactly where it is that text with something before
/// and behind it.
pub proof fn law_search(s: Seq<char>, needle: Seq<char>)
    ensures
        forall|before: Seq<char>, after: Seq<char>|
            s == #[trigger] (before + needle + after) ==> holds_text(s, needle),
        holds_text(s, needle) ==> exists|before: Seq<char>, after: Seq<char>|
            s == #[trigger] (before + needle + after),
{
    assert forall|before: Seq<char>, after: Seq<char>|
        s == #[trigger] (before + needle + after) implies holds_text(s, needle) by {
        assert(s.subrange(before.len() as int, (before.len() + needle.len()) as int) =~= needle);
        assert(stands_at(s, needle, before.len() as int));
    }
    if holds_text(s, needle) {
        let at = choose|at: int| stands_at(s, needle, at);
        assert(s =~= s.take(at) + s.subrange(at, at + needle.len()) + s.skip(at + needle.len()));
    }
}

/// Two texts are the same but for the case of ASCII letters exactly where at
/// each place they have the same character, or one has a small letter and the
/// other the capital of it.
pub proof fn law_ascii_case(a: Seq<char>, b: Seq<char>)
    ensures
        same_ignoring_ascii_case(a, b) <==> a.len() == b.len() && forall|i: int|
            0 <= i < a.len() ==> {
                ||| #[trigger] a[i] == b[i]
                ||| 'a' as int <= a[i] as int <= 'z' as int && a[i] as int == b[i] as int + 32
                ||| 'a' as int <= b[i] as int <= 'z' as int && b[i] as int == a[i] as int + 32
            },
{
    let x = a.map_values(|c: char| ascii_lower(c));
    let y = b.map_values(|c: char| ascii_lower(c));
    if a.len() == b.len() {
        assert forall|i: int| 0 <= i < a.len() implies (x[i] == y[i] <==> {
            ||| #[trigger] a[i] == b[i]
            ||| 'a' as int <= a[i] as int <= 'z' as int && a[i] as int == b[i] as int + 32
            ||| 'a' as int <= b[i] as int <= 'z' as int && b[i] as int == a[i] as int + 32
        }) by {}
        if same_ignoring_ascii_case(a, b) {
            assert(x == y);
        } else {
            assert(!(x =~= y));
        }
    } else {
        assert(x.len() != y.len());
    }
}

/// A number under ten is one digit, and a digit written behind a number that is
/// not zero makes ten times the number plus the digit.
pub proof fn law_decimal(n: nat, d: nat)
    requires
        d < 10,
    ensures
        decimal(d).len() == 1 && decimal(d)[0] as int == '0' as int + d,
        n > 0 ==> decimal(10 * n + d) == decimal(n) + decimal(d),
{
    if n > 0 {
        assert((10 * n + d) / 10 == n);
        assert((10 * n + d) % 10 == d);
        assert(decimal(n).push(digit(d)) =~= decimal(n) + decimal(d));
    }
}

/// A number is written in digits, without a zero in front but for zero itself.
proof fn lemma_decimal_digits(n: nat)
    ensures
        all_digits(decimal(n)),
        decimal(n).len() > 0,
        n > 0 ==> decimal(n)[0] != '0',
        digits_value(decimal(n)) == n,
    decreases n,
{
    if n >= 10 {
        lemma_decimal_digits(n / 10);
        assert(decimal(n).drop_last() =~= decimal(n / 10));
    } else {
        assert(decimal(n).drop_last() =~= Seq::empty());
        assert(digits_value(Seq::<char>::empty()) == 0);
    }
}

/// What is written of an integer is read as that integer, a negative integer is
/// written as its opposite with a minus sign in front, and no number but zero
/// has a zero in front.
pub proof fn law_integers_read_back(n: i32)
    ensures
        parsed_i32(signed_decimal(n as int)) == Some(n),
        n < 0 ==> signed_decimal(n as int) == seq!['-'] + signed_decimal(-n),
        n > 0 ==> signed_decimal(n as int)[0] != '0',
        n >= 0 ==> signed_decimal(n as int) == decimal(n as nat),
{
    let magnitude = if n < 0 { (-n) as nat } else { n as nat };
    lemma_decimal_digits(magnitude);
    let s = signed_decimal(n as int);
    if n < 0 {
        assert(s.drop_first() =~= decimal(magnitude));
    } else {
        assert(decimal(magnitude)[0] as int >= 48);
    }
}

/// An integer that can be read is digits, at least one of them, with nothing
/// else but a sign in front.
pub proof fn law_integers_are_digits(s: Seq<char>)
    ensures
        parsed_i32(s) is Some ==> {
            &&& s.len() > 0
            &&& forall|i: int|
                1 <= i < s.len() ==> '0' as int <= #[trigger] s[i] as int <= '9' as int
            &&& '0' as int <= s[0] as int <= '9' as int || (s.len() > 1 && (s[0] == '+' || s[0]
                == '-'))
        },
{
    if parsed_i32(s) is Some {
        let digits = unsigned_part(s);
        if s[0] == '+' || s[0] == '-' {
            assert forall|i: int| 1 <= i < s.len() implies '0' as int <= #[trigger] s[i] as int
                <= '9' as int by {
                assert(digits[i - 1] == s[i]);
            }
        } else {
            assert(digits[0] == s[0]);
        }
    }
}

/// A row of digits with one more digit behind it.
proof fn lemma_digits_push(s: Seq<char>, d: char)
    ensures
        all_digits(s.push(d)) <==> all_digits(s) && 48 <= d as int <= 57,
        digits_value(s.push(d)) == 10 * digits_value(s) + (d as int - 48),
{
    assert(s.push(d).drop_last() =~= s);
    if all_digits(s.push(d)) {
        assert forall|i: int| 0 <= i < s.len() implies 48 <= #[trigger] s[i] as int <= 57 by {
            assert(s.push(d)[i] == s[i]);
        }
        assert(s.push(d)[s.len() as int] == d);
    }
}

/// A row of digits stands for a number that is not negative.
proof fn lemma_digits_value(s: Seq<char>)
    requires
        all_digits(s),
    ensures
        digits_value(s) >= 0,
    decreases s.len(),
{
    if s.len() > 0 {
        let rest = s.drop_last();
        assert forall|i: int| 0 <= i < rest.len() implies 48 <= #[trigger] rest[i] as int <= 57 by {
            assert(rest[i] == s[i]);
        }
        lemma_digits_value(rest);
        assert(s[s.len() - 1] == s.last());
    }
}

/// One digit is read as itself, and each further digit multiplies the integer
/// by ten and moves it on by the digit, away from zero, as long as the integer
/// fits.
pub proof fn law_integers_digit_by_digit(s: Seq<char>, d: char)
    requires
        '0' as int <= d as int <= '9' as int,
    ensures
        parsed_i32(seq![d]) == Some((d as int - '0' as int) as i32),
        parsed_i32(seq!['-', d]) == Some(('0' as int - d as int) as i32),
        s.len() > 0 && '0' as int <= s[0] as int <= '9' as int ==> parsed_i32(s.push(d)) == (
        match parsed_i32(s) {
            Some(n) => if 10 * n + (d as int - '0' as int) <= i32::MAX {
                Some((10 * n + (d as int - '0' as int)) as i32)
            } else {
                None
            },
            None => None,
        }),
        s.len() > 1 && s[0] == '-' ==> parsed_i32(s.push(d)) == match parsed_i32(s) {
            Some(n) => if 10 * n - (d as int - '0' as int) >= i32::MIN {
                Some((10 * n - (d as int - '0' as int)) as i32)
            } else {
                None
            },
            None => None,
        },
        s.len() > 0 && '0' as int <= s[0] as int <= '9' as int ==> parsed_i32(seq!['+'] + s)
            == parsed_i32(s),
{
    let none = Seq::<char>::empty();
    lemma_digits_push(none, d);
    assert(none.push(d) =~= seq![d]);
    assert(digits_value(none) == 0);
    assert(seq!['-', d].drop_first() =~= seq![d]);
    let digits = unsigned_part(s);
    lemma_digits_push(digits, d);
    if s.len() > 0 && '0' as int <= s[0] as int <= '9' as int {
        assert(unsigned_part(s.push(d)) =~= digits.push(d));
        assert((seq!['+'] + s).drop_first() =~= s);
    }
    if s.len() > 1 && s[0] == '-' {
        assert(unsigned_part(s.push(d)) =~= digits.push(d));
    }
    if all_digits(digits) {
        lemma_digits_value(digits);
    }
}

/// The white space characters, one by one.
pub proof fn law_white_space(c: char)
    ensures
        white_space(c) <==> {
            ||| c == ' '
            ||| c == '\t'
            ||| c == '\n'
            ||| c == '\u{b}'
            ||| c == '\u{c}'
            ||| c == '\r'
            ||| c == '\u{85}'
            ||| c == '\u{a0}'
            ||| c == '\u{1680}'
            ||| '\u{2000}' as int <= c as int <= '\u{200a}' as int
            ||| c == '\u{2028}'
            ||| c == '\u{2029}'
            ||| c == '\u{202f}'
            ||| c == '\u{205f}'
            ||| c == '\u{3000}'
        },
{
}

/// What is left of a text at its beginning is white space and nothing more.
proof fn lemma_trimmed_start(s: Seq<char>) -> (from: int)
    ensures
        0 <= from <= s.len(),
        trimmed_start(s) == s.skip(from),
        forall|i: int| 0 <= i < from ==> white_space(#[trigger] s[i]),
        from < s.len() ==> !white_space(s[from]),
    decreases s.len(),
{
    if s.len() > 0 && white_space(s[0]) {
        let rest = s.drop_first();
        let from = lemma_trimmed_start(rest);
        assert(rest.skip(from) =~= s.skip(from + 1));
        assert forall|i: int| 0 <= i < from + 1 implies white_space(#[trigger] s[i]) by {
            if i > 0 {
                assert(rest[i - 1] == s[i]);
            }
        }
        from + 1
    } else {
        assert(s.skip(0) =~= s);
        0
    }
}

/// What is left of a text at its end is white space and nothing more.
proof fn lemma_trimmed_end(s: Seq<char>) -> (to: int)
    ensures
        0 <= to <= s.len(),
        trimmed_end(s) == s.take(to),
        forall|i: int| to <= i < s.len() ==> white_space(#[trigger] s[i]),
        to > 0 ==> !white_space(s[to - 1]),
    decreases s.len(),
{
    if s.len() > 0 && white_space(s.last()) {
        let rest = s.drop_last();
        let to = lemma_trimmed_end(rest);
        assert(rest.take(to) =~= s.take(to));
        assert forall|i: int| to <= i < s.len() implies white_space(#[trigger] s[i]) by {
            if i < rest.len() {
                assert(rest[i] == s[i]);
            }
        }
        to
    } else {
        assert(s.take(s.len() as int) =~= s);
        s.len() as int
    }
}

/// A text is its trimmed text with nothing but white space before and behind
/// it, and the trimmed text neither begins nor ends with white space.
pub proof fn law_trimmed(s: Seq<char>)
    ensures
        exists|from: int, to: int|
            #![trigger s.subrange(from, to)]
            0 <= from <= to <= s.len() && trimmed(s) == s.subrange(from, to) && (forall|i: int|
                0 <= i < from || to <= i < s.len() ==> white_space(#[trigger] s[i])),
        trimmed(s).len() > 0 ==> !white_space(trimmed(s)[0]) && !white_space(trimmed(s).last()),
{
    let from = lemma_trimmed_start(s);
    let rest = s.skip(from);
    let kept = lemma_trimmed_end(rest);
    let to = from + kept;
    assert(rest.take(kept) =~= s.subrange(from, to));
    assert forall|i: int| 0 <= i < from || to <= i < s.len() implies white_space(
        #[trigger] s[i],
    ) by {
        if i >= from {
            assert(rest[i - from] == s[i]);
        }
    }
}

/// In lower case an ASCII text has at each place the same character, or the
/// small letter in place of a capital; any other text is what `str::to_lowercase`
/// makes of it.
pub proof fn law_lower_case(s: Seq<char>)
    ensures
        !is_ascii_chars(s) ==> lowered(s) == lowercase(s),
        is_ascii_chars(s) ==> lowered(s).len() == s.len(),
        is_ascii_chars(s) ==> forall|i: int|
            0 <= i < s.len() ==> (#[trigger] lowered(s)[i]) as int == if 'A' as int <= s[i] as int
                <= 'Z' as int {
                s[i] as int + 32
            } else {
                s[i] as int
            },
{
}


} // verus!
