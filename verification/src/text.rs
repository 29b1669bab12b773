//! Character-level text handling: the small parts of `str` that the
//! detection logic relies on, stated over `Seq<char>` and proved.

use vstd::prelude::*;

verus! {

/// The characters with the Unicode `White_Space` property, which is what
/// `char::is_whitespace` (and therefore `str::trim`) tests for.
pub open spec fn is_white_space(c: char) -> bool {
    let u = c as u32;
    ||| 0x09 <= u <= 0x0d
    ||| u == 0x20
    ||| u == 0x85
    ||| u == 0xa0
    ||| u == 0x1680
    ||| 0x2000 <= u <= 0x200a
    ||| u == 0x2028
    ||| u == 0x2029
    ||| u == 0x202f
    ||| u == 0x205f
    ||| u == 0x3000
}

/// `s` without its leading white space.
pub open spec fn trim_start(s: Seq<char>) -> Seq<char>
    decreases s.len(),
{
    if s.len() > 0 && is_white_space(s[0]) {
        trim_start(s.drop_first())
    } else {
        s
    }
}

/// `s` without its trailing white space.
pub open spec fn trim_end(s: Seq<char>) -> Seq<char>
    decreases s.len(),
{
    if s.len() > 0 && is_white_space(s.last()) {
        trim_end(s.drop_last())
    } else {
        s
    }
}

/// `s` without leading and trailing white space, as `str::trim` gives it.
pub open spec fn trim(s: Seq<char>) -> Seq<char> {
    trim_end(trim_start(s))
}

/// Whether `s` begins with `prefix`.
pub open spec fn has_prefix(s: Seq<char>, prefix: Seq<char>) -> bool {
    prefix.len() <= s.len() && s.take(prefix.len() as int) == prefix
}

pub fn white_space(c: char) -> (r: bool)
    ensures
        r == is_white_space(c),
{
    let u = c as u32;
    (0x09 <= u && u <= 0x0d) || u == 0x20 || u == 0x85 || u == 0xa0 || u == 0x1680 || (0x2000
        <= u && u <= 0x200a) || u == 0x2028 || u == 0x2029 || u == 0x202f || u == 0x205f || u
        == 0x3000
}

proof fn lemma_trim_start_skip(s: Seq<char>, k: int)
    requires
        0 <= k <= s.len(),
        forall|i: int| 0 <= i < k ==> is_white_space(#[trigger] s[i]),
        k == s.len() || !is_white_space(s[k]),
    ensures
        trim_start(s) == s.skip(k),
    decreases k,
{
    if k == 0 {
        assert(s.skip(0) == s);
    } else {
        let t = s.drop_first();
        assert forall|i: int| 0 <= i < k - 1 implies is_white_space(#[trigger] t[i]) by {
            assert(t[i] == s[i + 1]);
        }
        if k - 1 < t.len() {
            assert(t[k - 1] == s[k]);
        }
        lemma_trim_start_skip(t, k - 1);
        assert(t.skip(k - 1) == s.skip(k));
    }
}

proof fn lemma_trim_end_take(s: Seq<char>, k: int)
    requires
        0 <= k <= s.len(),
        forall|i: int| k <= i < s.len() ==> is_white_space(#[trigger] s[i]),
        k == 0 || !is_white_space(s[k - 1]),
    ensures
        trim_end(s) == s.take(k),
    decreases s.len() - k,
{
    if k == s.len() {
        assert(s.take(k) == s);
    } else {
        let t = s.drop_last();
        assert(is_white_space(s.last()));
        assert forall|i: int| k <= i < t.len() implies is_white_space(#[trigger] t[i]) by {
            assert(t[i] == s[i]);
        }
        if k > 0 {
            assert(t[k - 1] == s[k - 1]);
        }
        lemma_trim_end_take(t, k);
        assert(t.take(k) == s.take(k));
    }
}

/// `s` with leading and trailing white space removed.
pub fn trimmed(s: &str) -> (r: String)
    ensures
        r@ == trim(s@),
{
    let n = s.unicode_len();
    let mut a: usize = 0;
    while a < n && white_space(s.get_char(a))
        invariant
            n == s@.len(),
            a <= n,
            forall|i: int| 0 <= i < a ==> is_white_space(#[trigger] s@[i]),
        decreases n - a,
    {
        a = a + 1;
    }
    let mut b: usize = n;
    while b > a && white_space(s.get_char(b - 1))
        invariant
            n == s@.len(),
            a <= b <= n,
            forall|i: int| b <= i < n ==> is_white_space(#[trigger] s@[i]),
        decreases b - a,
    {
        b = b - 1;
    }
    proof {
        lemma_trim_start_skip(s@, a as int);
        let t = s@.skip(a as int);
        assert forall|i: int| b - a <= i < t.len() implies is_white_space(#[trigger] t[i]) by {
            assert(t[i] == s@[i + a]);
        }
        if b > a {
            assert(t[b - a - 1] == s@[b - 1]);
        }
        lemma_trim_end_take(t, b - a);
        assert(t.take(b - a) == s@.subrange(a as int, b as int));
    }
    String::from_str(s.substring_char(a, b))
}

/// Whether two texts hold the same characters.
pub fn same_text(a: &str, b: &str) -> (r: bool)
    ensures
        r == (a@ == b@),
{
    let n = a.unicode_len();
    if n != b.unicode_len() {
        return false;
    }
    let mut i: usize = 0;
    while i < n
        invariant
            n == a@.len(),
            n == b@.len(),
            i <= n,
            a@.take(i as int) == b@.take(i as int),
        decreases n - i,
    {
        if a.get_char(i) != b.get_char(i) {
            return false;
        }
        assert(a@.take(i + 1) == a@.take(i as int).push(a@[i as int]));
        assert(b@.take(i + 1) == b@.take(i as int).push(b@[i as int]));
        i = i + 1;
    }
    assert(a@ == a@.take(n as int));
    assert(b@ == b@.take(n as int));
    true
}

/// Whether `s` begins with `prefix`.
pub fn starts_with(s: &str, prefix: &str) -> (r: bool)
    ensures
        r == has_prefix(s@, prefix@),
{
    let n = s.unicode_len();
    let m = prefix.unicode_len();
    if m > n {
        return false;
    }
    let mut i: usize = 0;
    while i < m
        invariant
            n == s@.len(),
            m == prefix@.len(),
            m <= n,
            i <= m,
            s@.take(i as int) == prefix@.take(i as int),
        decreases m - i,
    {
        if s.get_char(i) != prefix.get_char(i) {
            assert(s@.take(m as int)[i as int] != prefix@[i as int]);
            return false;
        }
        assert(s@.take(i + 1) == s@.take(i as int).push(s@[i as int]));
        assert(prefix@.take(i + 1) == prefix@.take(i as int).push(prefix@[i as int]));
        i = i + 1;
    }
    assert(prefix@ == prefix@.take(m as int));
    true
}

/// Whether `c` occurs in `s`.
pub fn contains_char(s: &str, c: char) -> (r: bool)
    ensures
        r == s@.contains(c),
{
    let n = s.unicode_len();
    let mut i: usize = 0;
    while i < n
        invariant
            n == s@.len(),
            i <= n,
            forall|j: int| 0 <= j < i ==> s@[j] != c,
        decreases n - i,
    {
        if s.get_char(i) == c {
            assert(s@[i as int] == c);
            return true;
        }
        i = i + 1;
    }
    false
}


/// The pieces of `s` between occurrences of `sep`, as `str::split` yields
/// them: `n` separators give `n + 1` pieces, empty ones included.
pub open spec fn split_on(s: Seq<char>, sep: char) -> Seq<Seq<char>>
    decreases s.len(),
{
    if s.len() == 0 {
        seq![Seq::empty()]
    } else {
        let front = split_on(s.drop_last(), sep);
        if s.last() == sep {
            front.push(Seq::empty())
        } else {
            front.update(front.len() - 1, front.last().push(s.last()))
        }
    }
}

pub proof fn lemma_split_on_nonempty(s: Seq<char>, sep: char)
    ensures
        split_on(s, sep).len() >= 1,
    decreases s.len(),
{
    if s.len() > 0 {
        lemma_split_on_nonempty(s.drop_last(), sep);
    }
}

/// The pieces of `s` between occurrences of `sep`.
pub fn split_pieces(s: &str, sep: char) -> (v: Vec<String>)
    ensures
        v.len() == split_on(s@, sep).len(),
        forall|i: int| 0 <= i < v.len() ==> #[trigger] v[i]@ == split_on(s@, sep)[i],
{
    let n = s.unicode_len();
    let mut v: Vec<String> = Vec::new();
    let mut start: usize = 0;
    let mut i: usize = 0;
    while i < n
        invariant
            n == s@.len(),
            start <= i <= n,
            v.len() + 1 == split_on(s@.take(i as int), sep).len(),
            forall|j: int| 0 <= j < v.len() ==> #[trigger] v[j]@ == split_on(s@.take(i as int), sep)[j],
            s@.subrange(start as int, i as int) == split_on(s@.take(i as int), sep).last(),
        decreases n - i,
    {
        let ghost before = split_on(s@.take(i as int), sep);
        proof {
            lemma_split_on_nonempty(s@.take(i as int), sep);
            assert(s@.take(i + 1).drop_last() == s@.take(i as int));
            assert(s@.take(i + 1).last() == s@[i as int]);
        }
        let c = s.get_char(i);
        if c == sep {
            v.push(String::from_str(s.substring_char(start, i)));
            start = i + 1;
            assert(split_on(s@.take(i + 1), sep) == before.push(Seq::empty()));
            assert(s@.subrange(start as int, i + 1) == Seq::<char>::empty());
        } else {
            assert(split_on(s@.take(i + 1), sep) == before.update(
                before.len() - 1,
                before.last().push(c),
            ));
            assert(s@.subrange(start as int, i + 1) == s@.subrange(start as int, i as int).push(c));
        }
        i = i + 1;
    }
    v.push(String::from_str(s.substring_char(start, n)));
    assert(s@.take(n as int) == s@);
    v
}

/// Strict lexicographic order on texts, by code point: the order in which
/// `String`'s `Ord` puts them, since UTF-8 keeps code point order.
pub open spec fn text_lt(a: Seq<char>, b: Seq<char>) -> bool
    decreases a.len(),
{
    if a.len() == 0 {
        b.len() > 0
    } else if b.len() == 0 {
        false
    } else if a[0] != b[0] {
        a[0] < b[0]
    } else {
        text_lt(a.drop_first(), b.drop_first())
    }
}

pub proof fn lemma_text_lt_irreflexive(a: Seq<char>)
    ensures
        !text_lt(a, a),
    decreases a.len(),
{
    if a.len() > 0 {
        lemma_text_lt_irreflexive(a.drop_first());
    }
}

pub proof fn lemma_text_lt_total(a: Seq<char>, b: Seq<char>)
    ensures
        text_lt(a, b) || text_lt(b, a) || a == b,
    decreases a.len(),
{
    if a.len() > 0 && b.len() > 0 && a[0] == b[0] {
        lemma_text_lt_total(a.drop_first(), b.drop_first());
        if a.drop_first() == b.drop_first() {
            assert(a == seq![a[0]] + a.drop_first());
            assert(b == seq![b[0]] + b.drop_first());
        }
    } else if a.len() == 0 && b.len() == 0 {
        assert(a == b);
    }
}

pub proof fn lemma_text_lt_transitive(a: Seq<char>, b: Seq<char>, c: Seq<char>)
    requires
        text_lt(a, b),
        text_lt(b, c),
    ensures
        text_lt(a, c),
    decreases a.len(),
{
    if a.len() > 0 && b.len() > 0 && c.len() > 0 && a[0] == b[0] && b[0] == c[0] {
        lemma_text_lt_transitive(a.drop_first(), b.drop_first(), c.drop_first());
    }
}

/// `text_lt(a@, b@)`.
pub fn text_less(a: &str, b: &str) -> (r: bool)
    ensures
        r == text_lt(a@, b@),
{
    let n = a.unicode_len();
    let m = b.unicode_len();
    let mut i: usize = 0;
    assert(a@.skip(0) == a@);
    assert(b@.skip(0) == b@);
    while i < n && i < m
        invariant
            n == a@.len(),
            m == b@.len(),
            i <= n,
            i <= m,
            text_lt(a@, b@) == text_lt(a@.skip(i as int), b@.skip(i as int)),
        decreases n - i,
    {
        let ca = a.get_char(i);
        let cb = b.get_char(i);
        assert(a@.skip(i as int)[0] == ca);
        assert(b@.skip(i as int)[0] == cb);
        if ca != cb {
            return ca < cb;
        }
        assert(a@.skip(i as int).drop_first() == a@.skip(i + 1));
        assert(b@.skip(i as int).drop_first() == b@.skip(i + 1));
        i = i + 1;
    }
    i < m
}


/// The value of a hexadecimal digit, either case.
pub open spec fn hex_digit_value(c: char) -> Option<nat> {
    if '0' <= c <= '9' {
        Some((c as u32 - '0' as u32) as nat)
    } else if 'a' <= c <= 'f' {
        Some((c as u32 - 'a' as u32 + 10) as nat)
    } else if 'A' <= c <= 'F' {
        Some((c as u32 - 'A' as u32 + 10) as nat)
    } else {
        None
    }
}

/// Whether every character of `s` is a hexadecimal digit.
pub open spec fn all_hex_digits(s: Seq<char>) -> bool {
    forall|i: int| 0 <= i < s.len() ==> (#[trigger] hex_digit_value(s[i])) is Some
}

/// The number that the hexadecimal digits `s` spell, most significant first.
pub open spec fn hex_value(s: Seq<char>) -> nat
    decreases s.len(),
{
    if s.len() == 0 {
        0
    } else {
        16 * hex_value(s.drop_last()) + hex_digit_value(s.last()).unwrap()
    }
}

/// `s` without one leading `+`.
pub open spec fn unsigned_digits(s: Seq<char>) -> Seq<char> {
    if s.len() > 0 && s[0] == '+' {
        s.drop_first()
    } else {
        s
    }
}

/// What `u32::from_str_radix(s, 16)` accepts and returns: an optional `+`,
/// then at least one hexadecimal digit, with a value that fits in a `u32`.
pub open spec fn parse_hex_u32(s: Seq<char>) -> Option<u32> {
    let digits = unsigned_digits(s);
    if digits.len() > 0 && all_hex_digits(digits) && hex_value(digits) <= u32::MAX {
        Some(hex_value(digits) as u32)
    } else {
        None
    }
}

/// `s` with every leading `0x` removed, as `str::trim_start_matches("0x")`
/// gives it.
pub open spec fn strip_hex_prefixes(s: Seq<char>) -> Seq<char>
    decreases s.len(),
{
    if s.len() >= 2 && s[0] == '0' && s[1] == 'x' {
        strip_hex_prefixes(s.skip(2))
    } else {
        s
    }
}

proof fn lemma_hex_value_prefix(s: Seq<char>, k: int)
    requires
        all_hex_digits(s),
        0 <= k <= s.len(),
    ensures
        hex_value(s) >= hex_value(s.take(k)),
    decreases s.len(),
{
    if k == s.len() {
        assert(s.take(k) == s);
    } else {
        let t = s.drop_last();
        assert(all_hex_digits(t)) by {
            assert forall|i: int| 0 <= i < t.len() implies (#[trigger] hex_digit_value(t[i])) is Some by {
                assert(t[i] == s[i]);
            }
        }
        lemma_hex_value_prefix(t, k);
        assert(t.take(k) == s.take(k));
    }
}

fn hex_digit(c: char) -> (r: Option<u32>)
    ensures
        match hex_digit_value(c) {
            Some(v) => r == Some(v as u32),
            None => r is None,
        },
{
    let u = c as u32;
    if '0' <= c && c <= '9' {
        Some(u - 48)
    } else if 'a' <= c && c <= 'f' {
        Some(u - 87)
    } else if 'A' <= c && c <= 'F' {
        Some(u - 55)
    } else {
        None
    }
}

/// `u32::from_str_radix(s, 16)`, with the error dropped.
pub fn parse_hex(s: &str) -> (r: Option<u32>)
    ensures
        r == parse_hex_u32(s@),
{
    let n = s.unicode_len();
    let mut start: usize = 0;
    if n > 0 && s.get_char(0) == '+' {
        start = 1;
    }
    let ghost digits = s@.skip(start as int);
    assert(digits == unsigned_digits(s@));
    if start == n {
        return None;
    }
    let mut acc: u64 = 0;
    let mut i: usize = start;
    assert(s@.subrange(start as int, start as int) == Seq::<char>::empty());
    while i < n
        invariant
            n == s@.len(),
            start <= i <= n,
            start < n,
            digits == s@.skip(start as int),
            digits == unsigned_digits(s@),
            acc == hex_value(s@.subrange(start as int, i as int)),
            acc <= u32::MAX,
            forall|j: int| start <= j < i ==> (#[trigger] hex_digit_value(s@[j])) is Some,
        decreases n - i,
    {
        let c = s.get_char(i);
        let ghost prefix = s@.subrange(start as int, i + 1);
        assert(prefix.drop_last() == s@.subrange(start as int, i as int));
        assert(prefix.last() == c);
        assert(digits[i - start] == c);
        match hex_digit(c) {
            None => {
                assert(!all_hex_digits(digits));
                return None;
            },
            Some(d) => {
                assert(hex_value(prefix) == 16 * hex_value(prefix.drop_last()) + d);
                acc = acc * 16 + d as u64;
                if acc > 0xffff_ffff {
                    proof {
                        if all_hex_digits(digits) {
                            assert(digits.take(i + 1 - start) == prefix);
                            lemma_hex_value_prefix(digits, i + 1 - start);
                        }
                    }
                    return None;
                }
            },
        }
        i = i + 1;
    }
    assert(s@.subrange(start as int, n as int) == digits);
    assert(all_hex_digits(digits)) by {
        assert forall|j: int| 0 <= j < digits.len() implies (#[trigger] hex_digit_value(digits[j])) is Some by {
            assert(digits[j] == s@[j + start]);
        }
    }
    Some(acc as u32)
}

/// `s` with every leading `0x` removed.
pub fn without_hex_prefixes(s: &str) -> (r: String)
    ensures
        r@ == strip_hex_prefixes(s@),
{
    let n = s.unicode_len();
    let mut i: usize = 0;
    assert(s@.skip(0) == s@);
    while i < n && n - i >= 2 && s.get_char(i) == '0' && s.get_char(i + 1) == 'x'
        invariant
            n == s@.len(),
            i <= n,
            strip_hex_prefixes(s@) == strip_hex_prefixes(s@.skip(i as int)),
        decreases n - i,
    {
        let ghost t = s@.skip(i as int);
        assert(t[0] == s@[i as int]);
        assert(t[1] == s@[i + 1]);
        assert(strip_hex_prefixes(t) == strip_hex_prefixes(t.skip(2)));
        assert(t.skip(2) == s@.skip(i + 2));
        i = i + 2;
    }
    let rest = s.substring_char(i, n);
    assert(rest@ == s@.skip(i as int));
    String::from_str(rest)
}

/// The lower-case hexadecimal digit for `d < 16`.
pub open spec fn hex_char(d: nat) -> char {
    seq!['0', '1', '2', '3', '4', '5', '6', '7', '8', '9', 'a', 'b', 'c', 'd', 'e', 'f'][d as int]
}

/// `v` in lower-case hexadecimal, most significant digit first, without
/// leading zeros (`0` is one digit).
pub open spec fn lower_hex(v: nat) -> Seq<char>
    decreases v,
{
    if v < 16 {
        seq![hex_char(v)]
    } else {
        lower_hex(v / 16).push(hex_char(v % 16))
    }
}

/// What `format!("{v:#06x}")` writes: `0x`, then the lower-case hexadecimal
/// digits of `v`, zero-padded so that the whole is at least six characters.
pub open spec fn hex_label(v: u32) -> Seq<char> {
    let digits = lower_hex(v as nat);
    let pad: nat = if digits.len() < 4 {
        (4 - digits.len()) as nat
    } else {
        0
    };
    seq!['0', 'x'] + Seq::new(pad, |i: int| '0') + digits
}

fn hex_digit_text(d: u32) -> (r: &'static str)
    requires
        d < 16,
    ensures
        r@ == seq![hex_char(d as nat)],
{
    let digits = "0123456789abcdef";
    proof {
        reveal_strlit("0123456789abcdef");
        assert(digits@ == seq!['0', '1', '2', '3', '4', '5', '6', '7', '8', '9', 'a', 'b', 'c', 'd', 'e', 'f']);
    }
    let r = digits.substring_char(d as usize, d as usize + 1);
    assert(r@ == seq![digits@[d as int]]);
    r
}

fn push_lower_hex(v: u32, out: &mut String)
    ensures
        final(out)@ == old(out)@ + lower_hex(v as nat),
    decreases v,
{
    if v >= 16 {
        push_lower_hex(v / 16, out);
        let ghost mid = out@;
        out.append(hex_digit_text(v % 16));
        assert(lower_hex(v as nat) == lower_hex((v / 16) as nat).push(hex_char((v % 16) as nat)));
        assert(out@ == old(out)@ + lower_hex(v as nat));
    } else {
        out.append(hex_digit_text(v));
    }
}

/// `format!("{v:#06x}")`.
pub fn format_hex_label(v: u32) -> (r: String)
    ensures
        r@ == hex_label(v),
{
    let mut digits = String::new();
    push_lower_hex(v, &mut digits);
    let len = digits.as_str().unicode_len();
    let mut r = String::new();
    proof { reveal_strlit("0x"); }
    r.append("0x");
    let pad: usize = if len < 4 { 4 - len } else { 0 };
    let mut k: usize = 0;
    while k < pad
        invariant
            k <= pad,
            r@ == seq!['0', 'x'] + Seq::new(k as nat, |i: int| '0'),
        decreases pad - k,
    {
        proof { reveal_strlit("0"); }
        r.append("0");
        assert(Seq::new((k + 1) as nat, |i: int| '0') == Seq::new(k as nat, |i: int| '0').push('0'));
        k = k + 1;
    }
    r.append(digits.as_str());
    r
}


/// A path component that names something: neither empty (a repeated or
/// trailing `/`) nor `.`.
pub open spec fn is_named_component(c: Seq<char>) -> bool {
    c.len() > 0 && c != seq!['.']
}

/// The last naming component among `items`.
pub open spec fn last_named(items: Seq<Seq<char>>) -> Option<Seq<char>>
    decreases items.len(),
{
    if items.len() == 0 {
        None
    } else if is_named_component(items.last()) {
        Some(items.last())
    } else {
        last_named(items.drop_last())
    }
}

/// What `Path::file_name` gives for a `/`-separated path: its last
/// component, unless there is none or it is `..`.
pub open spec fn path_file_name(p: Seq<char>) -> Option<Seq<char>> {
    match last_named(split_on(p, '/')) {
        Some(c) => if c == seq!['.', '.'] {
            None
        } else {
            Some(c)
        },
        None => None,
    }
}

/// The last component of a path, as `Path::file_name` gives it.
pub fn file_name(path: &str) -> (r: Option<String>)
    ensures
        match r {
            Some(name) => path_file_name(path@) == Some(name@),
            None => path_file_name(path@) is None,
        },
{
    let pieces = split_pieces(path, '/');
    let ghost items = split_on(path@, '/');
    let dot = ".";
    let dots = "..";
    proof {
        reveal_strlit(".");
        reveal_strlit("..");
    }
    let mut j: usize = pieces.len();
    assert(items.take(j as int) == items);
    while j > 0
        invariant
            j <= pieces.len(),
            items == split_on(path@, '/'),
            pieces.len() == items.len(),
            forall|i: int| 0 <= i < pieces.len() ==> #[trigger] pieces[i]@ == items[i],
            last_named(items) == last_named(items.take(j as int)),
            dot@ == seq!['.'],
            dots@ == seq!['.', '.'],
        decreases j,
    {
        let c = pieces[j - 1].as_str();
        let ghost front = items.take(j as int);
        assert(front.last() == c@);
        if c.unicode_len() > 0 && !same_text(c, dot) {
            if same_text(c, dots) {
                return None;
            }
            return Some(String::from_str(c));
        }
        assert(front.drop_last() == items.take(j - 1));
        j = j - 1;
    }
    None
}

} // verus!
