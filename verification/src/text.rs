//! Text building blocks: decimal rendering of integers, padding, joining,
//! character-level search and comparison, and the std conversions that the
//! rest of the library renders through.

use vstd::prelude::*;

verus! {

/// The character of the decimal digit `d` (`0 <= d < 10`).
pub open spec fn digit_char(d: int) -> char {
    (48 + d) as char
}

/// Decimal rendering of a natural number, without sign or padding.
pub open spec fn dec(n: nat) -> Seq<char>
    decreases n,
{
    if n < 10 {
        seq![digit_char(n as int)]
    } else {
        dec(n / 10).push(digit_char((n % 10) as int))
    }
}

/// Decimal rendering of an integer as `{}` prints it: a leading `-` for
/// negative values.
pub open spec fn dec_int(n: int) -> Seq<char> {
    if n < 0 {
        seq!['-'] + dec((-n) as nat)
    } else {
        dec(n as nat)
    }
}

/// `k` copies of the character `c`.
pub open spec fn repeat_char(c: char, k: nat) -> Seq<char>
    decreases k,
{
    if k == 0 {
        Seq::empty()
    } else {
        repeat_char(c, (k - 1) as nat).push(c)
    }
}

/// Rendering of an integer as `{:0w$}` prints it: the sign first, then zeros
/// up to the width, then the digits.
pub open spec fn dec_int_zero_pad(n: int, width: nat) -> Seq<char> {
    let digits = dec(if n < 0 { (-n) as nat } else { n as nat });
    let sign: Seq<char> = if n < 0 { seq!['-'] } else { Seq::empty() };
    let used = sign.len() + digits.len();
    let zeros = if used < width { (width - used) as nat } else { 0nat };
    sign + repeat_char('0', zeros) + digits
}

/// Left-aligned padding as `{:<w$}` prints a string: spaces after it up to the width.
pub open spec fn pad_right(s: Seq<char>, width: nat) -> Seq<char> {
    s + repeat_char(' ', if s.len() < width { (width - s.len()) as nat } else { 0nat })
}

/// Right-aligned padding as `{:>w$}` prints a string: spaces before it up to the width.
pub open spec fn pad_left(s: Seq<char>, width: nat) -> Seq<char> {
    repeat_char(' ', if s.len() < width { (width - s.len()) as nat } else { 0nat }) + s
}

/// Every decimal rendering has a digit.
pub proof fn lemma_dec_len_pos(n: nat)
    ensures
        dec(n).len() >= 1,
    decreases n,
{
    if n >= 10 {
        lemma_dec_len_pos(n / 10);
    }
}

/// Ten to the power `k`.
pub open spec fn pow10(k: nat) -> nat
    decreases k,
{
    if k == 0 {
        1
    } else {
        10 * pow10((k - 1) as nat)
    }
}

/// A number below `10^k` has at most `k` decimal digits.
pub proof fn lemma_dec_len_bound(n: nat, k: nat)
    requires
        n < pow10(k),
        k >= 1,
    ensures
        dec(n).len() <= k,
    decreases k,
{
    if n >= 10 {
        assert(k >= 2) by {
            if k == 1 {
                assert(pow10(1) == 10) by {
                    reveal_with_fuel(pow10, 2);
                }
            }
        }
        assert(pow10(k) == 10 * pow10((k - 1) as nat));
        assert(n / 10 < pow10((k - 1) as nat));
        lemma_dec_len_bound(n / 10, (k - 1) as nat);
    }
}

/// A `u64` has at most twenty decimal digits.
pub proof fn lemma_dec_len_u64(n: u64)
    ensures
        1 <= dec(n as nat).len() <= 20,
{
    assert(pow10(20) == 100000000000000000000nat) by {
        reveal_with_fuel(pow10, 21);
    }
    lemma_dec_len_bound(n as nat, 20);
    lemma_dec_len_pos(n as nat);
}

/// Position of the first `c` in `s`, or the length of `s` when there is none.
pub open spec fn index_or_len(s: Seq<char>, c: char) -> int
    decreases s.len(),
{
    if s.len() == 0 {
        0
    } else if s[0] == c {
        0
    } else {
        1 + index_or_len(s.drop_first(), c)
    }
}

/// `index_or_len` is the least position holding `c`, or the length.
pub proof fn lemma_index_or_len(s: Seq<char>, c: char)
    ensures
        0 <= index_or_len(s, c) <= s.len(),
        index_or_len(s, c) < s.len() ==> s[index_or_len(s, c)] == c,
        forall|j: int| 0 <= j < index_or_len(s, c) ==> s[j] != c,
    decreases s.len(),
{
    if s.len() > 0 && s[0] != c {
        lemma_index_or_len(s.drop_first(), c);
        let r = index_or_len(s.drop_first(), c);
        assert forall|j: int| 0 <= j < index_or_len(s, c) implies s[j] != c by {
            if j > 0 {
                assert(s[j] == s.drop_first()[j - 1]);
            }
        }
    }
}

/// A position that holds `c` with no `c` before it (or the length, when no
/// position holds `c`) is `index_or_len`.
pub proof fn lemma_index_or_len_unique(s: Seq<char>, c: char, i: int)
    requires
        0 <= i <= s.len(),
        i < s.len() ==> s[i] == c,
        forall|j: int| 0 <= j < i ==> s[j] != c,
    ensures
        index_or_len(s, c) == i,
    decreases s.len(),
{
    if s.len() > 0 && s[0] != c {
        assert forall|j: int| 0 <= j < i - 1 implies s.drop_first()[j] != c by {
            assert(s.drop_first()[j] == s[j + 1]);
        }
        lemma_index_or_len_unique(s.drop_first(), c, i - 1);
    }
}

/// Finds the first `c` in `v`, or returns the length.
pub fn find_char(v: &Vec<char>, c: char) -> (r: usize)
    ensures
        r as int == index_or_len(v@, c),
{
    let mut i: usize = 0;
    while i < v.len() && v[i] != c
        invariant
            0 <= i <= v.len(),
            forall|j: int| 0 <= j < i ==> v@[j] != c,
        decreases v.len() - i,
    {
        i = i + 1;
    }
    proof {
        lemma_index_or_len_unique(v@, c, i as int);
    }
    i
}

/// A copy of `v[from..to]`.
pub fn slice_chars(v: &Vec<char>, from: usize, to: usize) -> (r: Vec<char>)
    requires
        from <= to <= v.len(),
    ensures
        r@ == v@.subrange(from as int, to as int),
{
    let mut r: Vec<char> = Vec::new();
    let mut i: usize = from;
    while i < to
        invariant
            from <= i <= to,
            to <= v.len(),
            r@ == v@.subrange(from as int, i as int),
        decreases to - i,
    {
        r.push(v[i]);
        i = i + 1;
    }
    r
}

/// Whether `v` begins with the characters of `prefix`.
pub fn starts_with_chars(v: &Vec<char>, prefix: &str) -> (b: bool)
    ensures
        b == prefix@.is_prefix_of(v@),
{
    let p = chars_of(prefix);
    if p.len() > v.len() {
        return false;
    }
    let mut i: usize = 0;
    while i < p.len()
        invariant
            0 <= i <= p.len(),
            p.len() <= v.len(),
            p@ == prefix@,
            forall|j: int| 0 <= j < i ==> p@[j] == v@[j],
        decreases p.len() - i,
    {
        if p[i] != v[i] {
            assert(p@[i as int] != v@.subrange(0, p@.len() as int)[i as int]);
            return false;
        }
        i = i + 1;
    }
    assert(p@ =~= v@.subrange(0, p@.len() as int));
    true
}

/// The parts joined with `sep` between consecutive parts, as `join` does.
pub open spec fn join(parts: Seq<Seq<char>>, sep: Seq<char>) -> Seq<char>
    decreases parts.len(),
{
    if parts.len() == 0 {
        Seq::empty()
    } else if parts.len() == 1 {
        parts[0]
    } else {
        join(parts.drop_last(), sep) + sep + parts.last()
    }
}

/// Adds `part` to a join that covered the first `n` parts, giving the join of
/// the first `n + 1`.
pub fn join_push(acc: &mut String, n: usize, part: &str, sep: &str, Ghost(parts): Ghost<
    Seq<Seq<char>>,
>)
    requires
        n < parts.len(),
        old(acc)@ == join(parts.take(n as int), sep@),
        part@ == parts[n as int],
    ensures
        final(acc)@ == join(parts.take(n + 1), sep@),
{
    if n > 0 {
        acc.append(sep);
    }
    acc.append(part);
    assert(parts.take(n + 1).drop_last() =~= parts.take(n as int));
}

/// The character sequences of a sequence of strings.
pub open spec fn strs(v: Seq<String>) -> Seq<Seq<char>> {
    v.map_values(|s: String| s@)
}

/// Whether `list` holds a string equal to `s`.
pub fn contains_str(list: &Vec<String>, s: &str) -> (b: bool)
    ensures
        b == strs(list@).contains(s@),
{
    let mut i: usize = 0;
    while i < list.len()
        invariant
            0 <= i <= list.len(),
            forall|j: int| 0 <= j < i ==> list@[j]@ != s@,
        decreases list.len() - i,
    {
        if str_eq(list[i].as_str(), s) {
            assert(strs(list@)[i as int] == s@);
            return true;
        }
        i = i + 1;
    }
    assert forall|j: int| 0 <= j < strs(list@).len() implies strs(list@)[j] != s@ by {
        assert(strs(list@)[j] == list@[j]@);
    }
    false
}

/// Whether two strings are equal.
pub fn str_eq(a: &str, b: &str) -> (r: bool)
    ensures
        r == (a@ == b@),
{
    let va = chars_of(a);
    let vb = chars_of(b);
    if va.len() != vb.len() {
        return false;
    }
    let mut i: usize = 0;
    while i < va.len()
        invariant
            0 <= i <= va.len(),
            va.len() == vb.len(),
            va@ == a@,
            vb@ == b@,
            forall|j: int| 0 <= j < i ==> va@[j] == vb@[j],
        decreases va.len() - i,
    {
        if va[i] != vb[i] {
            assert(a@[i as int] != b@[i as int]);
            return false;
        }
        i = i + 1;
    }
    assert(va@ =~= vb@);
    true
}

/// Appends `s` padded with spaces after it to `width` characters, as `{:<width$}` does.
pub fn push_pad_right(acc: &mut String, s: &str, width: usize)
    ensures
        final(acc)@ == old(acc)@ + pad_right(s@, width as nat),
{
    acc.append(s);
    let n = s.unicode_len();
    let ghost base = acc@;
    let mut k: usize = n;
    while k < width
        invariant
            n <= k,
            n == s@.len(),
            k <= width || k == n,
            acc@ == base + repeat_char(' ', (k - n) as nat),
        decreases width - k,
    {
        acc.append(" ");
        k = k + 1;
        proof {
            reveal_strlit(" ");
        }
    }
    assert(acc@ =~= old(acc)@ + pad_right(s@, width as nat));
}

/// Appends `s` padded with spaces before it to `width` characters, as `{:>width$}` does.
pub fn push_pad_left(acc: &mut String, s: &str, width: usize)
    ensures
        final(acc)@ == old(acc)@ + pad_left(s@, width as nat),
{
    let n = s.unicode_len();
    let ghost base = acc@;
    let mut k: usize = n;
    while k < width
        invariant
            n <= k,
            n == s@.len(),
            k <= width || k == n,
            acc@ == base + repeat_char(' ', (k - n) as nat),
        decreases width - k,
    {
        acc.append(" ");
        k = k + 1;
        proof {
            reveal_strlit(" ");
        }
    }
    acc.append(s);
    assert(acc@ =~= old(acc)@ + pad_left(s@, width as nat));
}

/// Number of UTF-8 bytes of a text, as `str::len` returns it.
pub open spec fn byte_len(s: Seq<char>) -> nat {
    (vstd::utf8::encode_utf8(s).len() as usize) as nat
}

/// [`strs`] of a pushed sequence.
pub proof fn lemma_strs_push(v: Seq<String>, x: String)
    ensures
        strs(v.push(x)) == strs(v).push(x@),
{
    assert(strs(v.push(x)) =~= strs(v).push(x@));
}

/// Drops every leading `c`.
pub open spec fn trim_start_char(s: Seq<char>, c: char) -> Seq<char>
    decreases s.len(),
{
    if s.len() > 0 && s[0] == c {
        trim_start_char(s.drop_first(), c)
    } else {
        s
    }
}

/// Lexicographic order of texts by character code, the order of `String`'s
/// `Ord` (UTF-8 byte order and code point order agree).
pub open spec fn chars_le(a: Seq<char>, b: Seq<char>) -> bool
    decreases a.len(),
{
    if a.len() == 0 {
        true
    } else if b.len() == 0 {
        false
    } else if a[0] != b[0] {
        a[0] < b[0]
    } else {
        chars_le(a.drop_first(), b.drop_first())
    }
}

/// Totality of [`chars_le`].
pub proof fn lemma_chars_le_total(a: Seq<char>, b: Seq<char>)
    ensures
        chars_le(a, b) || chars_le(b, a),
    decreases a.len(),
{
    if a.len() > 0 && b.len() > 0 && a[0] == b[0] {
        lemma_chars_le_total(a.drop_first(), b.drop_first());
    }
}

/// Transitivity of [`chars_le`].
pub proof fn lemma_chars_le_trans(a: Seq<char>, b: Seq<char>, c: Seq<char>)
    requires
        chars_le(a, b),
        chars_le(b, c),
    ensures
        chars_le(a, c),
    decreases a.len(),
{
    if a.len() > 0 && b.len() > 0 && c.len() > 0 && a[0] == b[0] && b[0] == c[0] {
        lemma_chars_le_trans(a.drop_first(), b.drop_first(), c.drop_first());
    }
}

/// Whether `a` comes before or equals `b` in the order of [`chars_le`].
pub fn str_le(a: &str, b: &str) -> (r: bool)
    ensures
        r == chars_le(a@, b@),
{
    let va = chars_of(a);
    let vb = chars_of(b);
    let mut i: usize = 0;
    assert(a@.skip(0) =~= a@);
    assert(b@.skip(0) =~= b@);
    while i < va.len() && i < vb.len() && va[i] == vb[i]
        invariant
            0 <= i <= va.len(),
            i <= vb.len(),
            va@ == a@,
            vb@ == b@,
            chars_le(a@, b@) == chars_le(a@.skip(i as int), b@.skip(i as int)),
        decreases va.len() - i,
    {
        assert(a@.skip(i as int).drop_first() =~= a@.skip(i + 1));
        assert(b@.skip(i as int).drop_first() =~= b@.skip(i + 1));
        i = i + 1;
    }
    if i == va.len() {
        true
    } else if i == vb.len() {
        false
    } else {
        va[i] < vb[i]
    }
}

/// The widest of the given texts in UTF-8 bytes, and at least `min`.
pub open spec fn max_width(items: Seq<Seq<char>>, min: nat) -> nat
    decreases items.len(),
{
    if items.len() == 0 {
        min
    } else {
        let w = max_width(items.drop_last(), min);
        if byte_len(items.last()) > w {
            byte_len(items.last())
        } else {
            w
        }
    }
}

/// The widest of the given strings in UTF-8 bytes, and at least `min`.
pub fn max_width_exec(items: &Vec<String>, min: usize) -> (w: usize)
    ensures
        w == max_width(strs(items@), min as nat),
{
    let mut w: usize = min;
    let mut i: usize = 0;
    while i < items.len()
        invariant
            0 <= i <= items.len(),
            w == max_width(strs(items@).take(i as int), min as nat),
        decreases items.len() - i,
    {
        assert(strs(items@).take(i + 1).drop_last() =~= strs(items@).take(i as int));
        assert(strs(items@).take(i + 1).last() == items@[i as int]@);
        let n = items[i].as_str().len();
        if n > w {
            w = n;
        }
        i = i + 1;
    }
    assert(strs(items@).take(items.len() as int) =~= strs(items@));
    w
}

/// Whether `c` is an ASCII digit.
pub open spec fn is_digit(c: char) -> bool {
    '0' <= c && c <= '9'
}

/// Whether every character is an ASCII digit.
pub open spec fn all_digits(s: Seq<char>) -> bool {
    forall|i: int| 0 <= i < s.len() ==> is_digit(#[trigger] s[i])
}

/// The value of a string of decimal digits.
pub open spec fn digits_value(s: Seq<char>) -> nat
    decreases s.len(),
{
    if s.len() == 0 {
        0
    } else {
        digits_value(s.drop_last()) * 10 + ((s.last() as int) - 48) as nat
    }
}

/// The digits after an optional leading sign: a `+`, or a `-` when allowed.
pub open spec fn unsigned_part(s: Seq<char>, minus_ok: bool) -> Seq<char> {
    if s.len() > 0 && (s[0] == '+' || (minus_ok && s[0] == '-')) {
        s.drop_first()
    } else {
        s
    }
}

/// Whether `s` has a leading `-` (and negatives are allowed).
pub open spec fn is_negative(s: Seq<char>, minus_ok: bool) -> bool {
    minus_ok && s.len() > 0 && s[0] == '-'
}

/// What `s.parse::<u64>()` gives: an optional `+`, then one or more ASCII
/// digits whose value fits in a `u64`.
pub open spec fn spec_parse_u64(s: Seq<char>) -> Option<u64> {
    let d = unsigned_part(s, false);
    if d.len() > 0 && all_digits(d) && digits_value(d) <= u64::MAX {
        Some(digits_value(d) as u64)
    } else {
        None
    }
}

/// Whether `s.parse::<i64>()` succeeds: an optional `+` or `-`, then one or
/// more ASCII digits whose signed value fits in an `i64`.
pub open spec fn parses_as_i64(s: Seq<char>) -> bool {
    let d = unsigned_part(s, true);
    d.len() > 0 && all_digits(d) && if is_negative(s, true) {
        digits_value(d) <= 9223372036854775808
    } else {
        digits_value(d) <= 9223372036854775807
    }
}

proof fn lemma_digits_value_prefix(s: Seq<char>, i: int)
    requires
        0 <= i <= s.len(),
        all_digits(s),
    ensures
        digits_value(s.take(i)) <= digits_value(s),
    decreases s.len() - i,
{
    if i < s.len() {
        assert(s.take(i + 1).drop_last() =~= s.take(i));
        assert(is_digit(s[i]));
        assert(s.take(i + 1).last() == s[i]);
        lemma_digits_value_prefix(s, i + 1);
    } else {
        assert(s.take(i) =~= s);
    }
}

/// The value of the digits `v[from..]` when all are digits and the value is
/// at most `bound`.
fn digits_upto(v: &Vec<char>, from: usize, bound: u64) -> (r: Option<u64>)
    requires
        from <= v.len(),
    ensures
        match r {
            Some(x) => all_digits(v@.skip(from as int)) && x == digits_value(v@.skip(from as int))
                && x <= bound,
            None => !(all_digits(v@.skip(from as int)) && digits_value(v@.skip(from as int))
                <= bound),
        },
{
    let ghost d = v@.skip(from as int);
    let mut x: u64 = 0;
    let mut i: usize = from;
    assert(d.take(0) =~= Seq::<char>::empty());
    while i < v.len()
        invariant
            from <= i <= v.len(),
            d == v@.skip(from as int),
            all_digits(d.take(i - from)),
            x == digits_value(d.take(i - from)),
            x <= bound,
        decreases v.len() - i,
    {
        let c = v[i];
        let k: usize = i - from;
        assert(d[k as int] == c);
        if !('0' <= c && c <= '9') {
            assert(!all_digits(d)) by {
                assert(!is_digit(d[k as int]));
            }
            return None;
        }
        assert(d.take(k + 1).drop_last() =~= d.take(k as int));
        assert(d.take(k + 1).last() == c);
        let dig: u64 = (c as u32 - 48) as u64;
        assert(digits_value(d.take(k + 1)) == x * 10 + dig);
        let next: u128 = (x as u128) * 10 + (dig as u128);
        if next > bound as u128 {
            proof {
                if all_digits(d) {
                    lemma_digits_value_prefix(d, k + 1);
                }
            }
            return None;
        }
        x = next as u64;
        i = i + 1;
    }
    assert(d.take(i - from) =~= d);
    Some(x)
}

/// Parses a decimal `u64` as `str::parse` does.
pub fn parse_u64(s: &str) -> (r: Option<u64>)
    ensures
        r == spec_parse_u64(s@),
{
    let v = chars_of(s);
    let from: usize = if v.len() > 0 && v[0] == '+' {
        1
    } else {
        0
    };
    assert(v@.skip(from as int) == unsigned_part(s@, false));
    if from >= v.len() {
        return None;
    }
    digits_upto(&v, from, u64::MAX)
}

/// Whether `s.parse::<i64>()` would succeed.
pub fn is_i64_text(s: &str) -> (b: bool)
    ensures
        b == parses_as_i64(s@),
{
    let v = chars_of(s);
    let neg = v.len() > 0 && v[0] == '-';
    let from: usize = if v.len() > 0 && (v[0] == '+' || v[0] == '-') {
        1
    } else {
        0
    };
    assert(v@.skip(from as int) == unsigned_part(s@, true));
    if from >= v.len() {
        return false;
    }
    let bound: u64 = if neg {
        9223372036854775808
    } else {
        9223372036854775807
    };
    match digits_upto(&v, from, bound) {
        Some(_) => true,
        None => false,
    }
}

/// Builds a `String` from its characters.
#[verifier::external_body]
pub(crate) fn string_from_chars(chars: &Vec<char>) -> (s: String)
    ensures
        s@ == chars@,
{
    chars.iter().collect()
}

/// The characters of a string slice, in order.
pub fn chars_of(s: &str) -> (v: Vec<char>)
    ensures
        v@ == s@,
{
    broadcast use vstd::string::group_string_axioms;

    let mut v: Vec<char> = Vec::new();
    for c in it: s.chars()
        invariant
            it.seq() == s@,
            v@ == it.seq().take(it.index() as int),
    {
        v.push(c);
        assert(it.seq().take(it.index() + 1) =~= it.seq().take(it.index() as int).push(c));
    }
    assert(s@.take(s@.len() as int) =~= s@);
    v
}

fn push_dec(out: &mut Vec<char>, n: u64)
    ensures
        final(out)@ == old(out)@ + dec(n as nat),
    decreases n,
{
    if n >= 10 {
        push_dec(out, n / 10);
    }
    let d: u64 = n % 10;
    let c: char = if d == 0 { '0' } else if d == 1 { '1' } else if d == 2 { '2' } else if d == 3 {
        '3'
    } else if d == 4 { '4' } else if d == 5 { '5' } else if d == 6 { '6' } else if d == 7 {
        '7'
    } else if d == 8 { '8' } else { '9' };
    assert(c == digit_char(d as int));
    out.push(c);
    proof {
        if n >= 10 {
            assert(dec(n as nat) == dec((n / 10) as nat).push(digit_char((n % 10) as int)));
        }
    }
}

/// The magnitude of a signed integer.
fn magnitude(n: i64) -> (m: u64)
    ensures
        m as int == if n < 0 { -n } else { n as int },
{
    if n == i64::MIN {
        9223372036854775808u64
    } else if n < 0 {
        (-n) as u64
    } else {
        n as u64
    }
}

/// Renders an unsigned integer in decimal, as `{}` does.
pub fn fmt_u64(n: u64) -> (s: String)
    ensures
        s@ == dec(n as nat),
{
    let mut v: Vec<char> = Vec::new();
    push_dec(&mut v, n);
    assert(v@ == dec(n as nat));
    string_from_chars(&v)
}

/// Renders a signed integer in decimal, as `{}` does.
pub fn fmt_i64(n: i64) -> (s: String)
    ensures
        s@ == dec_int(n as int),
{
    let mut v: Vec<char> = Vec::new();
    if n < 0 {
        v.push('-');
    }
    push_dec(&mut v, magnitude(n));
    assert(v@ == dec_int(n as int));
    string_from_chars(&v)
}

/// Renders a signed integer with zero padding to `width`, as `{:0width$}` does.
pub fn fmt_i64_zero_pad(n: i64, width: usize) -> (s: String)
    ensures
        s@ == dec_int_zero_pad(n as int, width as nat),
{
    let mut digits: Vec<char> = Vec::new();
    let m = magnitude(n);
    push_dec(&mut digits, m);
    proof {
        lemma_dec_len_u64(m);
    }
    let mut v: Vec<char> = Vec::new();
    let mut used: usize = digits.len();
    if n < 0 {
        v.push('-');
        used = used + 1;
    }
    let ghost sign = v@;
    let mut k: usize = used;
    while k < width
        invariant
            used <= k,
            k <= width || k == used,
            v@ == sign + repeat_char('0', (k - used) as nat),
        decreases width - k,
    {
        v.push('0');
        k = k + 1;
    }
    let mut i: usize = 0;
    let ghost before = v@;
    while i < digits.len()
        invariant
            0 <= i <= digits.len(),
            v@ == before + digits@.take(i as int),
        decreases digits.len() - i,
    {
        v.push(digits[i]);
        i = i + 1;
        assert(digits@.take(i as int) == digits@.take((i - 1) as int).push(digits@[i - 1]));
    }
    assert(digits@.take(digits@.len() as int) == digits@);
    proof {
        let zeros = (k - used) as nat;
        assert(zeros == if used < width { (width - used) as nat } else { 0nat });
    }
    string_from_chars(&v)
}

/// The text that `String::from_utf8_lossy` makes of `bytes`: the bytes read
/// as UTF-8, each invalid sequence replaced by U+FFFD.
pub uninterp spec fn utf8_lossy(bytes: Seq<u8>) -> Seq<char>;

/// Reads bytes as UTF-8 text by calling `String::from_utf8_lossy`. The
/// contract names the result [`utf8_lossy`] and states what std documents:
/// valid UTF-8 is decoded as it is. The replacement of invalid sequences is
/// not restated.
#[verifier::external_body]
pub(crate) fn from_utf8_lossy(bytes: &Vec<u8>) -> (s: String)
    ensures
        s@ == utf8_lossy(bytes@),
        vstd::utf8::valid_utf8(bytes@) ==> s@ == vstd::utf8::decode_utf8(bytes@),
{
    String::from_utf8_lossy(bytes.as_slice()).into_owned()
}

/// The text that `{:?}` gives for a string: the string in double quotes, with
/// quotes, backslashes, control and non-printable characters escaped.
pub uninterp spec fn debug_text(s: Seq<char>) -> Seq<char>;

/// Renders a string as `{:?}` does, by calling std's `Debug` for `str`. The
/// contract only names the result [`debug_text`]: the escaping rules rest on
/// Unicode tables and are not restated.
#[verifier::external_body]
pub(crate) fn debug_quoted(s: &str) -> (r: String)
    ensures
        r@ == debug_text(s@),
{
    format!("{:?}", s)
}

/// Strict order of texts by character code.
pub open spec fn chars_lt(a: Seq<char>, b: Seq<char>) -> bool {
    chars_le(a, b) && a != b
}

/// Reflexivity of [`chars_le`].
pub proof fn lemma_chars_le_refl(a: Seq<char>)
    ensures
        chars_le(a, a),
    decreases a.len(),
{
    if a.len() > 0 {
        lemma_chars_le_refl(a.drop_first());
    }
}

/// Antisymmetry of [`chars_le`].
pub proof fn lemma_chars_le_antisym(a: Seq<char>, b: Seq<char>)
    requires
        chars_le(a, b),
        chars_le(b, a),
    ensures
        a == b,
    decreases a.len(),
{
    if a.len() > 0 && b.len() > 0 {
        lemma_chars_le_antisym(a.drop_first(), b.drop_first());
        assert(a =~= seq![a[0]] + a.drop_first());
        assert(b =~= seq![b[0]] + b.drop_first());
    }
}

/// Comparing texts that start with parts of equal length: equal parts leave
/// the comparison to the rest; a smaller first part decides it.
pub proof fn lemma_chars_le_concat(x1: Seq<char>, r1: Seq<char>, x2: Seq<char>, r2: Seq<char>)
    requires
        x1.len() == x2.len(),
    ensures
        x1 == x2 ==> (chars_le(x1 + r1, x2 + r2) == chars_le(r1, r2)),
        chars_lt(x1, x2) ==> chars_lt(x1 + r1, x2 + r2),
    decreases x1.len(),
{
    if x1.len() == 0 {
        assert(x1 + r1 =~= r1);
        assert(x2 + r2 =~= r2);
        assert(x1 =~= x2);
    } else {
        assert((x1 + r1)[0] == x1[0]);
        assert((x2 + r2)[0] == x2[0]);
        assert((x1 + r1).drop_first() =~= x1.drop_first() + r1);
        assert((x2 + r2).drop_first() =~= x2.drop_first() + r2);
        lemma_chars_le_concat(x1.drop_first(), r1, x2.drop_first(), r2);
        if x1[0] == x2[0] && x1.drop_first() == x2.drop_first() {
            assert(x1 =~= seq![x1[0]] + x1.drop_first());
            assert(x2 =~= seq![x2[0]] + x2.drop_first());
        }
        if chars_lt(x1 + r1, x2 + r2) == false && chars_lt(x1, x2) {
            if x1[0] == x2[0] {
                assert(x1.drop_first() != x2.drop_first()) by {
                    if x1.drop_first() == x2.drop_first() {
                        assert(x1 =~= seq![x1[0]] + x1.drop_first());
                        assert(x2 =~= seq![x2[0]] + x2.drop_first());
                    }
                }
            }
            assert((x1 + r1).take(x1.len() as int) =~= x1);
            assert((x2 + r2).take(x2.len() as int) =~= x2);
        }
    }
}

/// A smaller digit comes first.
pub proof fn lemma_digit_lt(i: int, j: int)
    requires
        0 <= i < j <= 9,
    ensures
        chars_lt(seq![digit_char(i)], seq![digit_char(j)]),
{
    assert(seq![digit_char(i)][0] != seq![digit_char(j)][0]);
}

} // verus!
