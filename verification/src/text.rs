//! Strings as sequences of characters: searching, splitting, joining, numbers.

use vstd::prelude::*;
use vstd::string::*;

verus! {

/// Appends one character (`String::push`).
pub assume_specification[ String::push ](s: &mut String, ch: char)
    ensures
        final(s)@ == old(s)@.push(ch),
;

// ---------------------------------------------------------------- model

/// `a` comes before `b` in the order of strings: at the first place where they differ the
/// smaller character decides, and a proper prefix comes first.
pub open spec fn lex_lt(a: Seq<char>, b: Seq<char>) -> bool
    decreases a.len(),
{
    if b.len() == 0 {
        false
    } else if a.len() == 0 {
        true
    } else if a[0] == b[0] {
        lex_lt(a.drop_first(), b.drop_first())
    } else {
        a[0] < b[0]
    }
}

/// `needle` stands in `hay` at position `i`.
pub open spec fn occurs_at(hay: Seq<char>, needle: Seq<char>, i: int) -> bool {
    0 <= i && i + needle.len() <= hay.len() && hay.subrange(i, i + needle.len()) == needle
}

/// `needle` stands somewhere in `hay`.
pub open spec fn occurs(hay: Seq<char>, needle: Seq<char>) -> bool {
    exists|i: int| #[trigger] occurs_at(hay, needle, i)
}

/// `hay` begins with `needle`.
pub open spec fn begins(hay: Seq<char>, needle: Seq<char>) -> bool {
    occurs_at(hay, needle, 0)
}

/// `hay` ends with `needle`.
pub open spec fn ends(hay: Seq<char>, needle: Seq<char>) -> bool {
    occurs_at(hay, needle, hay.len() - needle.len())
}

/// The position of the first `c` in `s`; its length if there is none.
pub open spec fn first_index(s: Seq<char>, c: char) -> nat
    decreases s.len(),
{
    if s.len() == 0 || s[0] == c {
        0
    } else {
        1 + first_index(s.drop_first(), c)
    }
}

/// The pieces of `s` between the separators `c`: always one more than there are separators.
pub open spec fn pieces(s: Seq<char>, c: char) -> Seq<Seq<char>>
    decreases s.len(),
{
    let i = first_index(s, c) as int;
    if i < s.len() {
        seq![s.take(i)] + pieces(s.skip(i + 1), c)
    } else {
        seq![s]
    }
}

/// The strings of `parts` one after another, with `sep` between neighbours.
pub open spec fn joined(parts: Seq<Seq<char>>, sep: Seq<char>) -> Seq<char>
    decreases parts.len(),
{
    if parts.len() == 0 {
        seq![]
    } else if parts.len() == 1 {
        parts[0]
    } else {
        joined(parts.drop_last(), sep) + sep + parts.last()
    }
}

/// `s` with every occurrence of `from` replaced by `to`, found from the left and not
/// overlapping.
pub open spec fn replaced(s: Seq<char>, from: Seq<char>, to: Seq<char>) -> Seq<char>
    decreases s.len(),
{
    if s.len() == 0 || from.len() == 0 {
        s
    } else if begins(s, from) {
        to + replaced(s.skip(from.len() as int), from, to)
    } else {
        seq![s[0]] + replaced(s.drop_first(), from, to)
    }
}

/// The decimal digit `0..=9` as a character.
pub open spec fn digit_char(d: nat) -> char {
    (('0' as u32) + d) as char
}

pub open spec fn is_digit(c: char) -> bool {
    '0' <= c && c <= '9'
}

/// The value of a decimal digit.
pub open spec fn digit_value(c: char) -> nat {
    (c as u32 - '0' as u32) as nat
}

/// The decimal notation of `n`.
pub open spec fn decimal(n: nat) -> Seq<char>
    decreases n,
{
    if n < 10 {
        seq![digit_char(n)]
    } else {
        decimal(n / 10).push(digit_char(n % 10))
    }
}

/// The decimal notation of `n`, with a minus sign where it is negative.
pub open spec fn signed_decimal(n: int) -> Seq<char> {
    if n < 0 {
        seq!['-'] + decimal((-n) as nat)
    } else {
        decimal(n as nat)
    }
}

pub open spec fn all_digits(s: Seq<char>) -> bool {
    forall|i: int| 0 <= i < s.len() ==> is_digit(#[trigger] s[i])
}

/// The number that a row of decimal digits writes.
pub open spec fn digits_value(s: Seq<char>) -> nat
    decreases s.len(),
{
    if s.len() == 0 {
        0
    } else {
        digits_value(s.drop_last()) * 10 + digit_value(s.last())
    }
}

/// The digits of an unsigned number: a leading plus sign is allowed before them.
pub open spec fn unsigned_digits(s: Seq<char>) -> Seq<char> {
    if s.len() > 0 && s[0] == '+' {
        s.drop_first()
    } else {
        s
    }
}

/// What `s` says as an unsigned number of at most `max`.
pub open spec fn unsigned(s: Seq<char>, max: nat) -> Option<nat> {
    let d = unsigned_digits(s);
    if d.len() > 0 && all_digits(d) && digits_value(d) <= max {
        Some(digits_value(d))
    } else {
        None
    }
}

/// The strings of a vector, as sequences of characters.
pub open spec fn views(v: Seq<String>) -> Seq<Seq<char>> {
    Seq::new(v.len(), |i: int| v[i]@)
}

/// The strings in lower case, as Unicode has it.
pub uninterp spec fn lowercase(s: Seq<char>) -> Seq<char>;

/// The strings in upper case, as Unicode has it.
pub uninterp spec fn uppercase(s: Seq<char>) -> Seq<char>;

pub open spec fn is_ascii_text(s: Seq<char>) -> bool {
    forall|i: int| 0 <= i < s.len() ==> (#[trigger] s[i]) <= '\u{7f}'
}

/// The lower case of an ASCII character.
pub open spec fn ascii_lower(c: char) -> char {
    if 'A' <= c && c <= 'Z' {
        (c as u32 + 32) as char
    } else {
        c
    }
}

/// The upper case of an ASCII character.
pub open spec fn ascii_upper(c: char) -> char {
    if 'a' <= c && c <= 'z' {
        (c as u32 - 32) as char
    } else {
        c
    }
}

/// `s` in lower case (`str::to_lowercase`): a function of the string alone, which the
/// Unicode tables define; of ASCII text it changes the letters `A` to `Z` and nothing else.
#[verifier::external_body]
pub(crate) fn to_lowercase(s: &str) -> (r: String)
    ensures
        r@ == lowercase(s@),
        is_ascii_text(s@) ==> r@ == Seq::new(s@.len(), |i: int| ascii_lower(s@[i])),
{
    s.to_lowercase()
}

/// `s` in upper case (`str::to_uppercase`): a function of the string alone, which the
/// Unicode tables define; of ASCII text it changes the letters `a` to `z` and nothing else.
#[verifier::external_body]
pub(crate) fn to_uppercase(s: &str) -> (r: String)
    ensures
        r@ == uppercase(s@),
        is_ascii_text(s@) ==> r@ == Seq::new(s@.len(), |i: int| ascii_upper(s@[i])),
{
    s.to_uppercase()
}

// ---------------------------------------------------------------- code

/// The characters of `s`.
pub fn chars_of(s: &str) -> (r: Vec<char>)
    ensures
        r@ == s@,
{
    let mut out: Vec<char> = Vec::new();
    for c in it: s.chars()
        invariant
            out@ == it.seq().take(it.index()),
            it.seq() == s@,
    {
        out.push(c);
    }
    assert(s@.take(s@.len() as int) == s@);
    out
}

/// The string with the characters `v[from..to]`.
pub fn string_of(v: &Vec<char>, from: usize, to: usize) -> (r: String)
    requires
        from <= to <= v@.len(),
    ensures
        r@ == v@.subrange(from as int, to as int),
{
    let mut out = String::new();
    let mut i: usize = from;
    while i < to
        invariant
            from <= i <= to <= v@.len(),
            out@ == v@.subrange(from as int, i as int),
        decreases to - i,
    {
        out.push(v[i]);
        i += 1;
        assert(v@.subrange(from as int, i as int) == v@.subrange(from as int, i - 1).push(v@[i - 1]));
    }
    out
}

/// Whether the two strings are the same.
pub fn str_eq(a: &str, b: &str) -> (r: bool)
    ensures
        r == (a@ == b@),
{
    a.to_owned() == b.to_owned()
}

/// Whether `a` comes before `b`.
pub fn str_lt(a: &str, b: &str) -> (r: bool)
    ensures
        r == lex_lt(a@, b@),
{
    let x = chars_of(a);
    let y = chars_of(b);
    let mut i: usize = 0;
    assert(x@.skip(0) == a@);
    assert(y@.skip(0) == b@);
    while i < x.len() && i < y.len() && x[i] == y[i]
        invariant
            i <= x@.len(),
            i <= y@.len(),
            lex_lt(a@, b@) == lex_lt(x@.skip(i as int), y@.skip(i as int)),
        decreases x@.len() - i,
    {
        assert(x@.skip(i as int).drop_first() == x@.skip(i + 1));
        assert(y@.skip(i as int).drop_first() == y@.skip(i + 1));
        i += 1;
    }
    if i >= y.len() {
        false
    } else if i >= x.len() {
        true
    } else {
        x[i] < y[i]
    }
}


/// Whether `hay` has `needle` at position `i`.
fn matches_at(hay: &Vec<char>, needle: &Vec<char>, i: usize) -> (r: bool)
    ensures
        r == occurs_at(hay@, needle@, i as int),
{
    if needle.len() > hay.len() || i > hay.len() - needle.len() {
        return false;
    }
    let mut k: usize = 0;
    while k < needle.len()
        invariant
            k <= needle@.len(),
            i + needle@.len() <= hay@.len() <= usize::MAX,
            forall|j: int| 0 <= j < k ==> hay@[i + j] == #[trigger] needle@[j],
        decreases needle@.len() - k,
    {
        if hay[i + k] != needle[k] {
            assert(hay@.subrange(i as int, i + needle@.len())[k as int] != needle@[k as int]);
            return false;
        }
        k += 1;
    }
    assert(hay@.subrange(i as int, i + needle@.len()) == needle@);
    true
}

/// Whether `needle` stands somewhere in `hay`.
pub fn contains(hay: &str, needle: &str) -> (r: bool)
    ensures
        r == occurs(hay@, needle@),
{
    let h = chars_of(hay);
    let n = chars_of(needle);
    if n.len() > h.len() {
        return false;
    }
    let last: usize = h.len() - n.len();
    let mut i: usize = 0;
    while i <= last
        invariant
            h@ == hay@,
            n@ == needle@,
            last == h@.len() - n@.len(),
            i <= last + 1,
            forall|j: int| 0 <= j < i ==> !#[trigger] occurs_at(h@, n@, j),
        decreases last + 1 - i,
    {
        if matches_at(&h, &n, i) {
            return true;
        }
        if i == last {
            return false;
        }
        i += 1;
    }
    false
}

/// Whether `hay` begins with `needle`.
pub fn starts_with(hay: &str, needle: &str) -> (r: bool)
    ensures
        r == begins(hay@, needle@),
{
    let h = chars_of(hay);
    let n = chars_of(needle);
    matches_at(&h, &n, 0)
}

/// Whether `hay` ends with `needle`.
pub fn ends_with(hay: &str, needle: &str) -> (r: bool)
    ensures
        r == ends(hay@, needle@),
{
    let h = chars_of(hay);
    let n = chars_of(needle);
    if n.len() > h.len() {
        false
    } else {
        matches_at(&h, &n, h.len() - n.len())
    }
}

/// What `first_index` points at, and what stands before it.
pub proof fn lemma_first_index(s: Seq<char>, c: char)
    ensures
        first_index(s, c) <= s.len(),
        first_index(s, c) < s.len() ==> s[first_index(s, c) as int] == c,
        forall|j: int| 0 <= j < first_index(s, c) ==> s[j] != c,
    decreases s.len(),
{
    if s.len() > 0 && s[0] != c {
        lemma_first_index(s.drop_first(), c);
        assert forall|j: int| 0 <= j < first_index(s, c) implies s[j] != c by {
            if j > 0 {
                assert(s.drop_first()[j - 1] == s[j]);
            }
        }
    }
}

/// The first position of `c` in `v` from `from` on; the length of `v` if there is none.
fn index_from(v: &Vec<char>, from: usize, c: char) -> (r: usize)
    requires
        from <= v@.len(),
    ensures
        from <= r <= v@.len(),
        r == from + first_index(v@.skip(from as int), c),
{
    let mut i: usize = from;
    proof {
        lemma_first_index(v@.skip(from as int), c);
    }
    while i < v.len() && v[i] != c
        invariant
            from <= i <= v@.len(),
            from + first_index(v@.skip(from as int), c) == i + first_index(v@.skip(i as int), c),
        decreases v@.len() - i,
    {
        assert(v@.skip(i as int).drop_first() == v@.skip(i + 1));
        i += 1;
    }
    i
}

/// The part of `s` behind its first `c`, if it has one.
pub fn after_first(s: &str, c: char) -> (r: Option<String>)
    ensures
        match r {
            Some(t) => first_index(s@, c) < s@.len() && t@ == s@.skip(
                first_index(s@, c) as int + 1,
            ),
            None => first_index(s@, c) == s@.len(),
        },
{
    let v = chars_of(s);
    assert(v@.skip(0) == s@);
    let i: usize = index_from(&v, 0, c);
    if i < v.len() {
        assert(v@.subrange(i + 1, v@.len() as int) == s@.skip(i + 1));
        Some(string_of(&v, i + 1, v.len()))
    } else {
        None
    }
}

/// The pieces of `s` between the separators `c`.
pub fn split(s: &str, c: char) -> (r: Vec<String>)
    ensures
        views(r@) == pieces(s@, c),
{
    let v = chars_of(s);
    let mut out: Vec<String> = Vec::new();
    let mut start: usize = 0;
    assert(v@.skip(0) == s@);
    assert(views(out@) + pieces(s@, c) == pieces(s@, c));
    loop
        invariant
            v@ == s@,
            start <= v@.len(),
            views(out@) + pieces(v@.skip(start as int), c) == pieces(s@, c),
        decreases v@.len() - start,
    {
        let i: usize = index_from(&v, start, c);
        let ghost rest = v@.skip(start as int);
        let ghost before = out@;
        proof {
            lemma_first_index(rest, c);
            reveal_with_fuel(pieces, 2);
        }
        if i < v.len() {
            out.push(string_of(&v, start, i));
            assert(rest.take(i - start) == v@.subrange(start as int, i as int));
            assert(rest.skip(i - start + 1) == v@.skip(i + 1));
            assert(views(out@) == views(before).push(rest.take(i - start)));
            assert(views(out@) + pieces(v@.skip(i + 1), c) == views(before) + (seq![
                rest.take(i - start),
            ] + pieces(v@.skip(i + 1), c)));
            start = i + 1;
        } else {
            out.push(string_of(&v, start, v.len()));
            assert(rest == v@.subrange(start as int, v@.len() as int));
            assert(views(out@) == views(before) + seq![rest]);
            return out;
        }
    }
}

/// The strings of `parts` one after another, with `sep` between neighbours.
pub fn join(parts: &Vec<String>, sep: &str) -> (r: String)
    ensures
        r@ == joined(views(parts@), sep@),
{
    let mut out = String::new();
    let mut i: usize = 0;
    while i < parts.len()
        invariant
            i <= parts@.len(),
            out@ == joined(views(parts@.take(i as int)), sep@),
        decreases parts@.len() - i,
    {
        if i > 0 {
            out.append(sep);
        }
        out.append(parts[i].as_str());
        proof {
            let p = views(parts@.take(i + 1));
            assert(p.drop_last() == views(parts@.take(i as int)));
            assert(p.last() == parts@[i as int]@);
            assert(Seq::<char>::empty() + p.last() == p.last());
        }
        i += 1;
    }
    assert(parts@.take(parts@.len() as int) == parts@);
    out
}

/// `s` with every occurrence of `from` replaced by `to`, found from the left.
pub fn replace(s: &str, from: &str, to: &str) -> (r: String)
    requires
        from@.len() > 0,
    ensures
        r@ == replaced(s@, from@, to@),
{
    let v = chars_of(s);
    let f = chars_of(from);
    let mut out = String::new();
    let mut i: usize = 0;
    assert(v@.skip(0) == s@);
    assert(out@ + replaced(s@, from@, to@) == replaced(s@, from@, to@));
    while i < v.len()
        invariant
            v@ == s@,
            f@ == from@,
            from@.len() > 0,
            i <= v@.len(),
            out@ + replaced(v@.skip(i as int), from@, to@) == replaced(s@, from@, to@),
        decreases v@.len() - i,
    {
        let ghost rest = v@.skip(i as int);
        let ghost before = out@;
        let hit = matches_at(&v, &f, i);
        proof {
            if hit {
                assert(rest.subrange(0, f@.len() as int) == v@.subrange(i as int, i + f@.len()));
            } else if begins(rest, from@) {
                assert(rest.subrange(0, f@.len() as int) == v@.subrange(i as int, i + f@.len()));
            }
            assert(begins(rest, from@) == hit);
        }
        if hit {
            out.append(to);
            assert(rest.skip(f@.len() as int) == v@.skip(i + f@.len()));
            i += f.len();
            assert(out@ + replaced(v@.skip(i as int), from@, to@) == before + (to@ + replaced(
                v@.skip(i as int),
                from@,
                to@,
            )));
        } else {
            out.push(v[i]);
            assert(rest.drop_first() == v@.skip(i + 1));
            i += 1;
            assert(out@ + replaced(v@.skip(i as int), from@, to@) == before + (seq![rest[0]]
                + replaced(v@.skip(i as int), from@, to@)));
        }
    }
    assert(v@.skip(i as int).len() == 0);
    assert(out@ + v@.skip(i as int) == out@);
    out
}

/// The decimal digit `d` as a character.
fn digit(d: u64) -> (r: char)
    requires
        d < 10,
    ensures
        r == digit_char(d as nat),
{
    match d {
        0 => '0',
        1 => '1',
        2 => '2',
        3 => '3',
        4 => '4',
        5 => '5',
        6 => '6',
        7 => '7',
        8 => '8',
        _ => '9',
    }
}

/// The decimal notation of `n`.
pub fn unsigned_to_string(n: u64) -> (r: String)
    ensures
        r@ == decimal(n as nat),
    decreases n,
{
    if n < 10 {
        let mut out = String::new();
        out.push(digit(n));
        assert(out@ == seq![digit_char(n as nat)]);
        out
    } else {
        let mut out = unsigned_to_string(n / 10);
        out.push(digit(n % 10));
        out
    }
}

/// The decimal notation of `n`, with a minus sign where it is negative.
pub fn signed_to_string(n: i64) -> (r: String)
    ensures
        r@ == signed_decimal(n as int),
{
    if n >= 0 {
        unsigned_to_string(n as u64)
    } else {
        let m: u64 = if n == i64::MIN {
            0x8000_0000_0000_0000
        } else {
            (-n) as u64
        };
        let mut out = String::new();
        out.push('-');
        let digits = unsigned_to_string(m);
        out.append(digits.as_str());
        assert(out@ == seq!['-'] + decimal((-n) as nat));
        out
    }
}

proof fn lemma_digits_value_prefix(s: Seq<char>, n: int)
    requires
        0 <= n <= s.len(),
        all_digits(s),
    ensures
        digits_value(s.take(n)) <= digits_value(s),
    decreases s.len(),
{
    if n < s.len() {
        assert(s.drop_last().take(n) == s.take(n));
        lemma_digits_value_prefix(s.drop_last(), n);
    } else {
        assert(s.take(n) == s);
    }
}

proof fn lemma_digits_step(s: Seq<char>, k: int)
    requires
        0 <= k < s.len(),
        all_digits(s.take(k)),
        is_digit(s[k]),
    ensures
        all_digits(s.take(k + 1)),
        digits_value(s.take(k + 1)) == digits_value(s.take(k)) * 10 + digit_value(s[k]),
{
    assert(s.take(k + 1).drop_last() == s.take(k));
    assert forall|j: int| 0 <= j < s.take(k + 1).len() implies is_digit(
        #[trigger] s.take(k + 1)[j],
    ) by {
        if j < k {
            assert(s.take(k)[j] == s[j]);
        }
    }
}

/// What `s` says as an unsigned number of at most `max`: a plus sign may stand before the
/// digits, and there must be a digit.
pub fn parse_unsigned(s: &str, max: u64) -> (r: Option<u64>)
    ensures
        match r {
            Some(n) => unsigned(s@, max as nat) == Some(n as nat),
            None => unsigned(s@, max as nat) is None,
        },
{
    let v = chars_of(s);
    let start: usize = if v.len() > 0 && v[0] == '+' {
        1
    } else {
        0
    };
    let ghost d = unsigned_digits(s@);
    assert(d == v@.skip(start as int));
    if start == v.len() {
        return None;
    }
    let mut n: u64 = 0;
    let mut i: usize = start;
    while i < v.len()
        invariant
            v@ == s@,
            start <= i <= v@.len(),
            d == v@.skip(start as int),
            d == unsigned_digits(s@),
            n <= max,
            n == digits_value(d.take(i - start)),
            all_digits(d.take(i - start)),
        decreases v@.len() - i,
    {
        let c = v[i];
        let ghost k = i - start;
        assert(d[k] == c);
        if c < '0' || '9' < c {
            assert(!all_digits(d));
            return None;
        }
        proof {
            lemma_digits_step(d, k);
        }
        let x: u64 = (c as u32 - '0' as u32) as u64;
        let wide: u128 = n as u128 * 10 + x as u128;
        if wide > max as u128 {
            proof {
                if all_digits(d) {
                    lemma_digits_value_prefix(d, k + 1);
                }
            }
            return None;
        }
        n = wide as u64;
        i += 1;
    }
    assert(d.take(d.len() as int) == d);
    Some(n)
}

/// Whether `s` is one of the strings of `v`.
pub fn has(v: &Vec<String>, s: &str) -> (r: bool)
    ensures
        r == views(v@).contains(s@),
{
    let mut i: usize = 0;
    while i < v.len()
        invariant
            i <= v@.len(),
            forall|j: int| 0 <= j < i ==> (#[trigger] views(v@)[j]) != s@,
        decreases v@.len() - i,
    {
        if str_eq(v[i].as_str(), s) {
            assert(views(v@)[i as int] == s@);
            return true;
        }
        i += 1;
    }
    false
}

/// The same strings in another order are the same texts in another order.
pub proof fn lemma_views_multiset(a: Seq<String>, b: Seq<String>)
    requires
        a.to_multiset() == b.to_multiset(),
    ensures
        views(a).to_multiset() == views(b).to_multiset(),
{
    let f = |s: String| s@;
    crate::seqs::lemma_images_multiset(a, b, f);
    assert(views(a) =~= a.map_values(f));
    assert(views(b) =~= b.map_values(f));
}

/// The digits are those of ascii, and each stands for its number.
pub proof fn lemma_digits(c: char)
    ensures
        is_digit(c) <==> 48 <= c as u32 <= 57,
        is_digit(c) ==> digit_value(c) == c as u32 - 48,
        is_digit(c) ==> digit_char(digit_value(c)) == c,
{
}

/// A number is written with its last digit last and what is left of it before; it has no leading
/// zero.
pub proof fn lemma_written(n: nat)
    ensures
        decimal(n).len() > 0,
        all_digits(decimal(n)),
        digits_value(decimal(n)) == n,
        decimal(n).last() as u32 == 48 + n % 10,
        n >= 10 ==> decimal(n).drop_last() == decimal(n / 10),
        n < 10 ==> decimal(n).len() == 1,
        n > 0 ==> decimal(n)[0] != '0',
    decreases n,
{
    if n >= 10 {
        lemma_written(n / 10);
        assert(decimal(n).drop_last() =~= decimal(n / 10));
        assert(decimal(n)[0] == decimal(n / 10)[0]);
    } else {
        assert(decimal(n).drop_last() =~= Seq::<char>::empty());
        assert(digits_value(Seq::<char>::empty()) == 0);
    }
}

/// A number below zero is written as its opposite after a minus sign.
pub proof fn lemma_written_signed(n: int)
    ensures
        n >= 0 ==> signed_decimal(n) == decimal(n as nat),
        n < 0 ==> signed_decimal(n).len() > 1 && signed_decimal(n)[0] == '-' && signed_decimal(
            n,
        ).drop_first() == decimal((-n) as nat),
{
    if n < 0 {
        lemma_written((-n) as nat);
        assert(signed_decimal(n).drop_first() =~= decimal((-n) as nat));
    }
}

/// What is written is read as the number it was, with a plus sign or without, up to the greatest
/// number allowed; nothing is read that is empty or holds anything else.
pub proof fn lemma_reads_what_is_written(n: nat, max: nat)
    ensures
        n <= max ==> unsigned(decimal(n), max) == Some(n),
        n <= max ==> unsigned(seq!['+'] + decimal(n), max) == Some(n),
        n > max ==> unsigned(decimal(n), max) is None,
        unsigned(seq![], max) is None,
        forall|s: Seq<char>, i: int|
            #![trigger unsigned(s, max), s[i]]
            0 <= i < s.len() && !is_digit(s[i]) && (i > 0 || s[i] != '+') ==> unsigned(
                s,
                max,
            ) is None,
{
    lemma_written(n);
    let d = decimal(n);
    assert(is_digit(d[0]));
    assert((seq!['+'] + d).drop_first() =~= d);
    assert forall|s: Seq<char>, i: int|
        #![trigger unsigned(s, max), s[i]]
        0 <= i < s.len() && !is_digit(s[i]) && (i > 0 || s[i] != '+') implies unsigned(
        s,
        max,
    ) is None by {
        let u = unsigned_digits(s);
        if s[0] == '+' {
            assert(u[i - 1] == s[i]);
        } else {
            assert(u[i] == s[i]);
        }
    }
}

/// One text comes before another where the first character at which they differ is less, or
/// where it ends there.
pub proof fn lemma_lex_by_first_difference(a: Seq<char>, b: Seq<char>, k: int)
    requires
        0 <= k <= a.len(),
        k <= b.len(),
        forall|i: int| 0 <= i < k ==> a[i] == b[i],
        k < a.len() && k < b.len() ==> a[k] != b[k],
    ensures
        lex_lt(a, b) <==> k < b.len() && (k == a.len() || a[k] < b[k]),
    decreases a.len(),
{
    if k > 0 {
        let x = a.drop_first();
        let y = b.drop_first();
        assert forall|i: int| 0 <= i < k - 1 implies x[i] == y[i] by {
            assert(x[i] == a[i + 1] && y[i] == b[i + 1]);
        }
        assert(a[0] == b[0]);
        if k < a.len() {
            assert(x[k - 1] == a[k]);
        }
        if k < b.len() {
            assert(y[k - 1] == b[k]);
        }
        lemma_lex_by_first_difference(x, y, k - 1);
    }
}

/// A text occurs in another where that one is it with something before and something behind; it
/// begins or ends the other where there is nothing before or nothing behind.
pub proof fn lemma_found(before: Seq<char>, needle: Seq<char>, behind: Seq<char>)
    ensures
        occurs(before + needle + behind, needle),
        begins(needle + behind, needle),
        ends(before + needle, needle),
{
    let hay = before + needle + behind;
    assert(hay.subrange(before.len() as int, (before.len() + needle.len()) as int) =~= needle);
    assert(occurs_at(hay, needle, before.len() as int));
    assert((needle + behind).subrange(0, 0int + needle.len()) =~= needle);
    assert((before + needle).subrange(before.len() as int, (before.len() + needle.len()) as int)
        =~= needle);
}

/// What occurs in a text can be told apart from what is before and behind it.
pub proof fn lemma_found_where(hay: Seq<char>, needle: Seq<char>)
    ensures
        occurs(hay, needle) ==> exists|before: Seq<char>, behind: Seq<char>|
            hay == #[trigger] (before + needle + behind),
        begins(hay, needle) ==> exists|behind: Seq<char>| hay == #[trigger] (needle + behind),
        ends(hay, needle) ==> exists|before: Seq<char>| hay == #[trigger] (before + needle),
{
    if occurs(hay, needle) {
        let i = choose|i: int| #[trigger] occurs_at(hay, needle, i);
        assert(hay =~= hay.take(i) + needle + hay.skip(i + needle.len()));
    }
    if begins(hay, needle) {
        assert(hay =~= needle + hay.skip(needle.len() as int));
    }
    if ends(hay, needle) {
        assert(hay =~= hay.take(hay.len() - needle.len()) + needle);
    }
}

/// Joining puts the separator between the parts.
pub proof fn lemma_joined(first: Seq<char>, rest: Seq<Seq<char>>, sep: Seq<char>)
    ensures
        joined(Seq::empty(), sep).len() == 0,
        joined(seq![first], sep) == first,
        rest.len() > 0 ==> joined(seq![first] + rest, sep) == first + sep + joined(rest, sep),
    decreases rest.len(),
{
    reveal_with_fuel(joined, 2);
    if rest.len() == 1 {
        let all = seq![first] + rest;
        assert(all.drop_last() =~= seq![first]);
        assert(all.last() == rest[0]);
        assert(joined(all, sep) =~= first + sep + joined(rest, sep));
    } else if rest.len() > 1 {
        let all = seq![first] + rest;
        lemma_joined(first, rest.drop_last(), sep);
        assert(all.drop_last() =~= seq![first] + rest.drop_last());
        assert(all.last() == rest.last());
        assert(joined(all, sep) =~= first + sep + joined(rest, sep));
    }
}

/// The pieces of a text hold no separator, and joined with it they are the text.
pub proof fn lemma_pieces_make_the_text(s: Seq<char>, c: char)
    ensures
        pieces(s, c).len() > 0,
        joined(pieces(s, c), seq![c]) == s,
        forall|i: int| 0 <= i < pieces(s, c).len() ==> !(#[trigger] pieces(s, c)[i]).contains(c),
    decreases s.len(),
{
    let i = first_index(s, c) as int;
    lemma_first_index(s, c);
    if i < s.len() {
        let rest = pieces(s.skip(i + 1), c);
        lemma_pieces_make_the_text(s.skip(i + 1), c);
        lemma_joined(s.take(i), rest, seq![c]);
        assert(s =~= s.take(i) + seq![c] + s.skip(i + 1));
        let all = pieces(s, c);
        assert forall|k: int| 0 <= k < all.len() implies !(#[trigger] all[k]).contains(c) by {
            if k > 0 {
                assert(all[k] == rest[k - 1]);
            }
        }
    } else {
        lemma_joined(s, Seq::empty(), seq![c]);
    }
}

/// Parts without the separator come back from their joined text.
pub proof fn lemma_joined_comes_apart(parts: Seq<Seq<char>>, c: char)
    requires
        parts.len() > 0,
        forall|i: int| 0 <= i < parts.len() ==> !(#[trigger] parts[i]).contains(c),
    ensures
        pieces(joined(parts, seq![c]), c) == parts,
    decreases parts.len(),
{
    let first = parts[0];
    let rest = parts.drop_first();
    let s = joined(parts, seq![c]);
    assert(parts =~= seq![first] + rest);
    lemma_joined(first, rest, seq![c]);
    lemma_first_index(s, c);
    let i = first_index(s, c) as int;
    if rest.len() == 0 {
        assert(parts =~= seq![first]);
        if i < s.len() {
            assert(first.contains(s[i]));
        }
        assert(pieces(s, c) =~= parts);
    } else {
        assert forall|k: int| 0 <= k < rest.len() implies !(#[trigger] rest[k]).contains(c) by {
            assert(rest[k] == parts[k + 1]);
        }
        lemma_joined_comes_apart(rest, c);
        assert(s[first.len() as int] == c);
        if i < first.len() {
            assert(s[i] == first[i]);
            assert(first.contains(c));
        }
        if i > first.len() {
            assert(s[first.len() as int] != c);
        }
        assert(i == first.len());
        assert(s.take(i) =~= first);
        assert(s.skip(i + 1) =~= joined(rest, seq![c]));
        assert(pieces(s, c) =~= parts);
    }
}

/// Replacing leaves a text as it is where there is nothing to replace.
pub proof fn lemma_nothing_replaced(s: Seq<char>, from: Seq<char>, to: Seq<char>)
    requires
        !occurs(s, from),
    ensures
        replaced(s, from, to) == s,
    decreases s.len(),
{
    if s.len() > 0 && from.len() > 0 {
        let rest = s.drop_first();
        assert(!occurs_at(s, from, 0));
        assert forall|i: int| !#[trigger] occurs_at(rest, from, i) by {
            if occurs_at(rest, from, i) {
                assert(s.subrange(i + 1, i + 1 + from.len()) =~= rest.subrange(i, i + from.len()));
                assert(occurs_at(s, from, i + 1));
            }
        }
        lemma_nothing_replaced(rest, from, to);
        assert(seq![s[0]] + rest =~= s);
    }
}

/// The first occurrence gives way, what stands before it stays, and replacing goes on behind it.
pub proof fn lemma_first_replaced(
    before: Seq<char>,
    from: Seq<char>,
    behind: Seq<char>,
    to: Seq<char>,
)
    requires
        from.len() > 0,
        forall|i: int|
            0 <= i < before.len() ==> !#[trigger] occurs_at(before + from + behind, from, i),
    ensures
        replaced(before + from + behind, from, to) == before + to + replaced(behind, from, to),
    decreases before.len(),
{
    let s = before + from + behind;
    let gone = replaced(behind, from, to);
    if before.len() == 0 {
        assert(s.subrange(0, 0int + from.len()) =~= from);
        assert(s.skip(from.len() as int) =~= behind);
        assert(before + to =~= to);
    } else {
        let rest = before.drop_first();
        let t = rest + from + behind;
        assert(!occurs_at(s, from, 0));
        assert(s.drop_first() =~= t);
        assert forall|i: int| 0 <= i < rest.len() implies !#[trigger] occurs_at(t, from, i) by {
            if occurs_at(t, from, i) {
                assert(s.subrange(i + 1, i + 1 + from.len()) =~= t.subrange(i, i + from.len()));
                assert(occurs_at(s, from, i + 1));
            }
        }
        lemma_first_replaced(rest, from, behind, to);
        assert(s[0] == before[0]);
        assert(replaced(s, from, to) == seq![s[0]] + replaced(t, from, to));
        assert(seq![s[0]] + (rest + to + gone) =~= before + to + gone);
    }
}

/// The texts of a row are those of its strings, one by one.
pub proof fn lemma_views(v: Seq<String>)
    ensures
        views(v).len() == v.len(),
        forall|i: int| #![trigger views(v)[i]] 0 <= i < v.len() ==> views(v)[i] == v[i]@,
{
}

}
