//! Text building and text scanning over character sequences.
//!
//! Storage keys, identifiers and error messages are all assembled and taken
//! apart here, so that what they look like is stated once.

use vstd::prelude::*;

verus! {

/// The decimal digit character of `d`.
pub open spec fn digit(d: nat) -> char {
    (48 + d) as char
}

/// `n` in decimal, without leading zeros.
pub open spec fn decimal(n: nat) -> Seq<char>
    decreases n,
{
    if n < 10 {
        seq![digit(n)]
    } else {
        decimal(n / 10).push(digit(n % 10))
    }
}

/// `n` in decimal, filled up with zeros on the left to `width` characters.
pub open spec fn padded(n: nat, width: nat) -> Seq<char> {
    let plain = decimal(n);
    if plain.len() >= width {
        plain
    } else {
        Seq::new((width - plain.len()) as nat, |i: int| '0') + plain
    }
}

/// The lowercase hexadecimal digit of `d`.
pub open spec fn hex_digit(d: nat) -> char {
    if d < 10 {
        digit(d)
    } else {
        (87 + d) as char
    }
}

/// The `width` lowest hexadecimal digits of `n`, most significant first.
pub open spec fn hex_fixed(n: nat, width: nat) -> Seq<char>
    decreases width,
{
    if width == 0 {
        Seq::empty()
    } else {
        hex_fixed(n / 16, (width - 1) as nat).push(hex_digit(n % 16))
    }
}

/// Two lowercase hexadecimal digits for every byte.
pub open spec fn hex_bytes(bytes: Seq<u8>) -> Seq<char> {
    Seq::new(
        2 * bytes.len(),
        |i: int|
            if i % 2 == 0 {
                hex_digit(bytes[i / 2] as nat / 16)
            } else {
                hex_digit(bytes[i / 2] as nat % 16)
            },
    )
}

pub open spec fn is_digit(c: char) -> bool {
    '0' <= c && c <= '9'
}

pub open spec fn all_digits(s: Seq<char>) -> bool {
    forall|i: int| 0 <= i < s.len() ==> is_digit(#[trigger] s[i])
}

/// The number that a sequence of decimal digits denotes.
pub open spec fn digits_value(s: Seq<char>) -> nat
    decreases s.len(),
{
    if s.len() == 0 {
        0
    } else {
        digits_value(s.drop_last()) * 10 + ((s.last() as nat - 48) as nat)
    }
}

/// `s` without one leading plus sign.
pub open spec fn without_plus(s: Seq<char>) -> Seq<char> {
    if s.len() > 0 && s[0] == '+' {
        s.skip(1)
    } else {
        s
    }
}

/// `s` read as an unsigned 64-bit number: decimal digits, at least one, with
/// an optional plus sign in front.
pub open spec fn parse_u64(s: Seq<char>) -> Option<u64> {
    let t = without_plus(s);
    if t.len() > 0 && all_digits(t) && digits_value(t) <= u64::MAX {
        Some(digits_value(t) as u64)
    } else {
        None
    }
}

/// `s` without its leading `c`s.
pub open spec fn trim_start(s: Seq<char>, c: char) -> Seq<char>
    decreases s.len(),
{
    if s.len() > 0 && s[0] == c {
        trim_start(s.skip(1), c)
    } else {
        s
    }
}

/// `s` without its trailing `c`s.
pub open spec fn trim_end(s: Seq<char>, c: char) -> Seq<char>
    decreases s.len(),
{
    if s.len() > 0 && s.last() == c {
        trim_end(s.drop_last(), c)
    } else {
        s
    }
}

/// `s` without the `c`s at its two ends.
pub open spec fn trim(s: Seq<char>, c: char) -> Seq<char> {
    trim_end(trim_start(s, c), c)
}

/// `pat` stands in `s` at position `i`.
pub open spec fn occurs_at(s: Seq<char>, pat: Seq<char>, i: int) -> bool {
    &&& 0 <= i
    &&& i + pat.len() <= s.len()
    &&& s.subrange(i, i + pat.len()) == pat
}

/// `pat` stands somewhere in `s`.
pub open spec fn has(s: Seq<char>, pat: Seq<char>) -> bool {
    exists|i: int| occurs_at(s, pat, i)
}

/// The first position of `pat` in `s`, from `from` on.
pub open spec fn find_from(s: Seq<char>, pat: Seq<char>, from: int) -> Option<int>
    decreases s.len() - from + 1,
{
    if from < 0 || from + pat.len() > s.len() {
        None
    } else if occurs_at(s, pat, from) {
        Some(from)
    } else {
        find_from(s, pat, from + 1)
    }
}

/// The last position of `pat` in `s` that is not after `from`.
pub open spec fn rfind_from(s: Seq<char>, pat: Seq<char>, from: int) -> Option<int>
    decreases from + 1,
{
    if from < 0 {
        None
    } else if occurs_at(s, pat, from) {
        Some(from)
    } else {
        rfind_from(s, pat, from - 1)
    }
}

/// `s` up to the first `pat`, or all of `s`.
pub open spec fn before_first(s: Seq<char>, pat: Seq<char>) -> Seq<char> {
    match find_from(s, pat, 0) {
        Some(i) => s.take(i),
        None => s,
    }
}

/// `s` behind the first `pat`, where there is one.
pub open spec fn after_first(s: Seq<char>, pat: Seq<char>) -> Option<Seq<char>> {
    match find_from(s, pat, 0) {
        Some(i) => Some(s.skip(i + pat.len())),
        None => None,
    }
}

/// `s` behind the last `pat`, or all of `s`.
pub open spec fn after_last(s: Seq<char>, pat: Seq<char>) -> Seq<char> {
    match rfind_from(s, pat, s.len() - pat.len()) {
        Some(i) => s.skip(i + pat.len()),
        None => s,
    }
}

pub open spec fn starts_with(s: Seq<char>, pat: Seq<char>) -> bool {
    occurs_at(s, pat, 0)
}

pub open spec fn ends_with(s: Seq<char>, pat: Seq<char>) -> bool {
    occurs_at(s, pat, s.len() - pat.len())
}

/// `s` without the repetitions of `pat` at its end.
pub open spec fn strip_suffixes(s: Seq<char>, pat: Seq<char>) -> Seq<char>
    decreases s.len(),
{
    if pat.len() > 0 && ends_with(s, pat) {
        strip_suffixes(s.take(s.len() - pat.len()), pat)
    } else {
        s
    }
}

/// The characters of `s`, one by one.
pub fn chars_of(s: &str) -> (out: Vec<char>)
    ensures
        out@ == s@,
{
    let mut out: Vec<char> = Vec::new();
    for c in it: s.chars()
        invariant
            it.seq() == s@,
            out@ == s@.take(it.index() as int),
    {
        out.push(c);
        assert(out@ =~= s@.take(it.index() + 1));
    }
    assert(s@.take(s@.len() as int) =~= s@);
    out
}

fn digit_str(d: u64) -> (out: &'static str)
    requires
        d < 16,
    ensures
        out@ == seq![hex_digit(d as nat)],
{
    proof {
        reveal_strlit("0");
        reveal_strlit("1");
        reveal_strlit("2");
        reveal_strlit("3");
        reveal_strlit("4");
        reveal_strlit("5");
        reveal_strlit("6");
        reveal_strlit("7");
        reveal_strlit("8");
        reveal_strlit("9");
        reveal_strlit("a");
        reveal_strlit("b");
        reveal_strlit("c");
        reveal_strlit("d");
        reveal_strlit("e");
        reveal_strlit("f");
    }
    match d {
        0 => "0",
        1 => "1",
        2 => "2",
        3 => "3",
        4 => "4",
        5 => "5",
        6 => "6",
        7 => "7",
        8 => "8",
        9 => "9",
        10 => "a",
        11 => "b",
        12 => "c",
        13 => "d",
        14 => "e",
        _ => "f",
    }
}

/// `n` in decimal.
pub fn decimal_string(n: u64) -> (out: String)
    ensures
        out@ == decimal(n as nat),
    decreases n,
{
    if n < 10 {
        digit_str(n).to_owned()
    } else {
        let mut out: String = decimal_string(n / 10);
        out.append(digit_str(n % 10));
        out
    }
}


/// `n` in decimal, filled up with zeros on the left to four characters.
pub fn padded_string(n: u32) -> (out: String)
    ensures
        out@ == padded(n as nat, 4),
{
    let plain: String = decimal_string(n as u64);
    let have: usize = plain.as_str().unicode_len();
    let mut out: String = String::new();
    let mut filled: usize = have;
    while filled < 4
        invariant
            have == plain@.len(),
            have <= filled,
            filled <= 4 || filled == have,
            out@ == Seq::new((filled - have) as nat, |i: int| '0'),
        decreases 4 - filled,
    {
        proof {
            reveal_strlit("0");
        }
        out.append("0");
        filled = filled + 1;
        assert(out@ =~= Seq::new((filled - have) as nat, |i: int| '0'));
    }
    out.append(plain.as_str());
    assert(out@ =~= padded(n as nat, 4));
    out
}

fn hex_string(n: u64, width: u64) -> (out: String)
    ensures
        out@ == hex_fixed(n as nat, width as nat),
    decreases width,
{
    if width == 0 {
        String::new()
    } else {
        let mut out: String = hex_string(n / 16, width - 1);
        out.append(digit_str(n % 16));
        out
    }
}

/// `n` as sixteen hexadecimal digits.
pub fn hex16_string(n: u64) -> (out: String)
    ensures
        out@ == hex_fixed(n as nat, 16),
{
    hex_string(n, 16)
}

/// `a` followed by `b`.
pub fn join2(a: &str, b: &str) -> (out: String)
    ensures
        out@ == a@ + b@,
{
    let mut out: String = a.to_owned();
    out.append(b);
    out
}

/// `a`, `b` and `c` one behind the other.
pub fn join3(a: &str, b: &str, c: &str) -> (out: String)
    ensures
        out@ == a@ + b@ + c@,
{
    let mut out: String = join2(a, b);
    out.append(c);
    out
}

/// Whether two strings hold the same characters.
pub fn same(a: &str, b: &str) -> (out: bool)
    ensures
        out == (a@ == b@),
{
    let left: String = a.to_owned();
    let right: String = b.to_owned();
    left == right
}

/// Whether `pat` stands in `s` at position `at`.
pub fn matches_at(s: &Vec<char>, pat: &Vec<char>, at: usize) -> (out: bool)
    ensures
        out == occurs_at(s@, pat@, at as int),
{
    if pat.len() > s.len() || at > s.len() - pat.len() {
        return false;
    }
    let mut i: usize = 0;
    while i < pat.len()
        invariant
            i <= pat.len(),
            at + pat.len() <= s.len(),
            forall|j: int| 0 <= j < i ==> s@[at + j] == pat@[j],
        decreases pat.len() - i,
    {
        if s[at + i] != pat[i] {
            assert(s@.subrange(at as int, at + pat.len())[i as int] != pat@[i as int]);
            return false;
        }
        i = i + 1;
    }
    assert(s@.subrange(at as int, at + pat.len()) =~= pat@);
    true
}

/// The first position of `pat` in `s`, from `from` on.
pub fn find(s: &Vec<char>, pat: &Vec<char>, from: usize) -> (out: Option<usize>)
    ensures
        match out {
            Some(i) => find_from(s@, pat@, from as int) == Some(i as int) && i + pat@.len()
                <= s@.len() && from <= i,
            None => find_from(s@, pat@, from as int) is None,
        },
{
    let mut i: usize = from;
    while pat.len() <= s.len() && i <= s.len() - pat.len()
        invariant
            from <= i,
            find_from(s@, pat@, from as int) == find_from(s@, pat@, i as int),
        decreases s.len() - i + 1,
    {
        if matches_at(s, pat, i) {
            return Some(i);
        }
        if i == s.len() {
            assert(find_from(s@, pat@, i as int + 1) is None);
            return None;
        }
        i = i + 1;
    }
    None
}

/// The last position of `pat` in `s`.
pub fn rfind(s: &Vec<char>, pat: &Vec<char>) -> (out: Option<usize>)
    ensures
        match out {
            Some(i) => rfind_from(s@, pat@, s@.len() - pat@.len()) == Some(i as int) && i
                + pat@.len() <= s@.len(),
            None => rfind_from(s@, pat@, s@.len() - pat@.len()) is None,
        },
{
    if pat.len() > s.len() {
        return None;
    }
    let mut left: usize = s.len() - pat.len();
    while left > 0
        invariant
            pat.len() <= s.len(),
            left <= s.len() - pat.len(),
            rfind_from(s@, pat@, s@.len() - pat@.len()) == rfind_from(s@, pat@, left as int),
        decreases left,
    {
        if matches_at(s, pat, left) {
            return Some(left);
        }
        left = left - 1;
    }
    if matches_at(s, pat, 0) {
        Some(0)
    } else {
        assert(rfind_from(s@, pat@, -1) is None);
        None
    }
}

/// `s` without the `c`s at its two ends.
pub fn trim_matches(s: &str, c: char) -> (out: String)
    ensures
        out@ == trim(s@, c),
{
    let all: Vec<char> = chars_of(s);
    let mut lo: usize = 0;
    assert(all@.skip(0) =~= all@);
    while lo < all.len() && all[lo] == c
        invariant
            lo <= all.len(),
            trim_start(all@, c) == trim_start(all@.skip(lo as int), c),
        decreases all.len() - lo,
    {
        assert(all@.skip(lo as int).skip(1) =~= all@.skip(lo + 1));
        lo = lo + 1;
    }
    let mut hi: usize = all.len();
    assert(all@.subrange(lo as int, hi as int) =~= all@.skip(lo as int));
    while hi > lo && all[hi - 1] == c
        invariant
            lo <= hi <= all.len(),
            trim(all@, c) == trim_end(all@.subrange(lo as int, hi as int), c),
        decreases hi,
    {
        assert(all@.subrange(lo as int, hi as int).drop_last() =~= all@.subrange(
            lo as int,
            hi - 1,
        ));
        hi = hi - 1;
    }
    s.substring_char(lo, hi).to_owned()
}

/// The number that `s` denotes, if it denotes one.
pub fn parse_number(s: &Vec<char>) -> (out: Option<u64>)
    ensures
        out == parse_u64(s@),
{
    let start: usize = if s.len() > 0 && s[0] == '+' {
        1
    } else {
        0
    };
    let ghost t = without_plus(s@);
    assert(t =~= s@.skip(start as int));
    if start == s.len() {
        return None;
    }
    let mut i: usize = start;
    let mut value: u64 = 0;
    assert(t.take(0) =~= Seq::<char>::empty());
    while i < s.len()
        invariant
            start <= i <= s.len(),
            t == s@.skip(start as int),
            t == without_plus(s@),
            t.len() > 0,
            all_digits(t.take(i - start)),
            value == digits_value(t.take(i - start)),
        decreases s.len() - i,
    {
        let c: char = s[i];
        let ghost k: int = i - start;
        assert(t[k] == c);
        if !('0' <= c && c <= '9') {
            assert(!is_digit(t[k]));
            return None;
        }
        let d: u64 = (c as u64) - 48;
        assert(t.take(k + 1).drop_last() =~= t.take(k));
        assert(digits_value(t.take(k + 1)) == value * 10 + d);
        if value > (u64::MAX - d) / 10 {
            proof {
                lemma_digits_value_grows(t, k + 1);
                assert(value * 10 + d > u64::MAX);
            }
            return None;
        }
        assert forall|j: int| 0 <= j < t.take(k + 1).len() implies is_digit(
            #[trigger] t.take(k + 1)[j],
        ) by {
            if j < k {
                assert(t.take(k)[j] == t[j]);
            }
        }
        value = value * 10 + d;
        i = i + 1;
    }
    assert(t.take(t.len() as int) =~= t);
    Some(value)
}

/// A longer sequence of digits never denotes a smaller number.
proof fn lemma_digits_value_grows(s: Seq<char>, k: int)
    requires
        0 <= k <= s.len(),
    ensures
        digits_value(s.take(k)) <= digits_value(s),
    decreases s.len(),
{
    if k == s.len() {
        assert(s.take(k) =~= s);
    } else {
        assert(s.drop_last().take(k) =~= s.take(k));
        lemma_digits_value_grows(s.drop_last(), k);
    }
}

/// Writing a number in decimal and reading it back gives the number.
pub proof fn decimal_round_trip(n: u64)
    ensures
        parse_u64(decimal(n as nat)) == Some(n),
{
    lemma_decimal_digits(n as nat);
    assert(is_digit(decimal(n as nat)[0]));
}

/// Two numbers that look the same in decimal are the same.
pub proof fn decimal_injective(a: nat, b: nat)
    requires
        decimal(a) == decimal(b),
    ensures
        a == b,
{
    lemma_decimal_digits(a);
    lemma_decimal_digits(b);
}

/// A decimal number consists of digits, at least one, and denotes itself.
pub proof fn lemma_decimal_digits(n: nat)
    ensures
        decimal(n).len() > 0,
        all_digits(decimal(n)),
        digits_value(decimal(n)) == n,
    decreases n,
{
    if n < 10 {
        let s = decimal(n);
        assert(s.drop_last() =~= Seq::<char>::empty());
        assert(digits_value(s.drop_last()) == 0);
    } else {
        lemma_decimal_digits(n / 10);
        let s = decimal(n);
        assert(s.drop_last() =~= decimal(n / 10));
        assert forall|i: int| 0 <= i < s.len() implies is_digit(#[trigger] s[i]) by {
            if i < s.len() - 1 {
                assert(s[i] == decimal(n / 10)[i]);
            }
        }
    }
}

/// Filling up with zeros changes neither what a number denotes nor that it is
/// made of digits.
pub proof fn lemma_padded_digits(n: nat, width: nat)
    ensures
        padded(n, width).len() > 0,
        all_digits(padded(n, width)),
        digits_value(padded(n, width)) == n,
{
    lemma_decimal_digits(n);
    let plain = decimal(n);
    if plain.len() < width {
        let k = (width - plain.len()) as nat;
        lemma_zeros_in_front(k, plain);
    }
}

proof fn lemma_zeros_in_front(k: nat, s: Seq<char>)
    requires
        all_digits(s),
    ensures
        all_digits(Seq::new(k, |i: int| '0') + s),
        digits_value(Seq::new(k, |i: int| '0') + s) == digits_value(s),
    decreases k + s.len(),
{
    let zeros = Seq::new(k, |i: int| '0');
    let all = zeros + s;
    if s.len() > 0 {
        lemma_zeros_in_front(k, s.drop_last());
        assert(all.drop_last() =~= zeros + s.drop_last());
    } else if k > 0 {
        let fewer = Seq::new((k - 1) as nat, |i: int| '0');
        lemma_zeros_in_front((k - 1) as nat, s);
        assert(all.drop_last() =~= fewer + s);
    }
}

/// What `find_from` finds is an occurrence, and none lies before it.
pub proof fn lemma_find_from(s: Seq<char>, pat: Seq<char>, from: int)
    requires
        0 <= from,
    ensures
        match find_from(s, pat, from) {
            Some(i) => occurs_at(s, pat, i) && from <= i && forall|j: int|
                from <= j < i ==> !occurs_at(s, pat, j),
            None => forall|j: int| from <= j ==> !occurs_at(s, pat, j),
        },
    decreases s.len() - from + 1,
{
    if from + pat.len() <= s.len() && !occurs_at(s, pat, from) {
        lemma_find_from(s, pat, from + 1);
    }
}

/// The first occurrence is where `find_from` looks first.
pub proof fn lemma_find_from_is(s: Seq<char>, pat: Seq<char>, from: int, at: int)
    requires
        0 <= from <= at,
        occurs_at(s, pat, at),
        forall|j: int| from <= j < at ==> !occurs_at(s, pat, j),
    ensures
        find_from(s, pat, from) == Some(at),
{
    lemma_find_from(s, pat, from);
}

/// What `rfind_from` finds is an occurrence, and none lies behind it.
pub proof fn lemma_rfind_from(s: Seq<char>, pat: Seq<char>, from: int)
    ensures
        match rfind_from(s, pat, from) {
            Some(i) => occurs_at(s, pat, i) && i <= from && forall|j: int|
                i < j <= from ==> !occurs_at(s, pat, j),
            None => forall|j: int| j <= from ==> !occurs_at(s, pat, j),
        },
    decreases from + 1,
{
    if from >= 0 && !occurs_at(s, pat, from) {
        lemma_rfind_from(s, pat, from - 1);
    }
}

/// Trimmed text neither starts nor ends with what was trimmed.
pub proof fn lemma_trimmed(s: Seq<char>, c: char)
    ensures
        trim(s, c).len() > 0 ==> trim(s, c)[0] != c && trim(s, c).last() != c,
{
    lemma_trimmed_start(s, c);
    lemma_trimmed_end(trim_start(s, c), c);
}

proof fn lemma_trimmed_start(s: Seq<char>, c: char)
    ensures
        trim_start(s, c).len() > 0 ==> trim_start(s, c)[0] != c,
    decreases s.len(),
{
    if s.len() > 0 && s[0] == c {
        lemma_trimmed_start(s.skip(1), c);
    }
}

proof fn lemma_trimmed_end(s: Seq<char>, c: char)
    ensures
        trim_end(s, c).len() <= s.len(),
        trim_end(s, c) == s.take(trim_end(s, c).len() as int),
        trim_end(s, c).len() > 0 ==> trim_end(s, c).last() != c,
    decreases s.len(),
{
    if s.len() > 0 && s.last() == c {
        lemma_trimmed_end(s.drop_last(), c);
        let rest = trim_end(s, c);
        assert(rest =~= s.take(rest.len() as int));
    } else {
        assert(s =~= s.take(s.len() as int));
    }
}

/// Two runs of digits that end at something else than a digit are told apart by
/// where they end.
pub proof fn lemma_digits_end(a: Seq<char>, x: Seq<char>, b: Seq<char>, y: Seq<char>)
    requires
        all_digits(a),
        all_digits(b),
        a + x == b + y,
        x.len() > 0 && !is_digit(x[0]),
        y.len() > 0 && !is_digit(y[0]),
    ensures
        a == b,
        x == y,
{
    let s = a + x;
    let t = b + y;
    assert(s[a.len() as int] == x[0]);
    assert(t[b.len() as int] == y[0]);
    if a.len() < b.len() {
        assert(t[a.len() as int] == b[a.len() as int]);
    }
    if b.len() < a.len() {
        assert(s[b.len() as int] == a[b.len() as int]);
    }
    assert(s.take(a.len() as int) =~= a);
    assert(t.take(b.len() as int) =~= b);
    assert(s.skip(a.len() as int) =~= x);
    assert(t.skip(b.len() as int) =~= y);
}

/// The characters from `from` up to, without, `to`.
pub fn part(s: &Vec<char>, from: usize, to: usize) -> (out: Vec<char>)
    requires
        from <= to <= s@.len(),
    ensures
        out@ == s@.subrange(from as int, to as int),
{
    let mut out: Vec<char> = Vec::new();
    let mut i: usize = from;
    while i < to
        invariant
            from <= i <= to <= s@.len(),
            out@ == s@.subrange(from as int, i as int),
        decreases to - i,
    {
        out.push(s[i]);
        assert(out@ =~= s@.subrange(from as int, i + 1));
        i = i + 1;
    }
    out
}

/// `s` up to the first `pat`, or all of it.
pub fn up_to(s: &Vec<char>, pat: &Vec<char>) -> (out: Vec<char>)
    ensures
        out@ == before_first(s@, pat@),
{
    match find(s, pat, 0) {
        Some(at) => {
            assert(s@.take(at as int) =~= s@.subrange(0, at as int));
            part(s, 0, at)
        },
        None => {
            assert(s@ =~= s@.subrange(0, s@.len() as int));
            part(s, 0, s.len())
        },
    }
}

/// `s` without the repetitions of `pat` at its end.
pub fn without_suffixes(s: Vec<char>, pat: &Vec<char>) -> (out: Vec<char>)
    ensures
        out@ == strip_suffixes(s@, pat@),
{
    let mut out: Vec<char> = s;
    while pat.len() > 0 && pat.len() <= out.len() && matches_at(&out, pat, out.len() - pat.len())
        invariant
            strip_suffixes(out@, pat@) == strip_suffixes(s@, pat@),
        decreases out.len(),
    {
        let rest: usize = out.len() - pat.len();
        assert(out@.take(rest as int) =~= out@.subrange(0, rest as int));
        out.truncate(rest);
    }
    out
}

/// An optional text, in views.
pub open spec fn optional(content: Option<String>) -> Option<Seq<char>> {
    match content {
        Some(t) => Some(t@),
        None => None,
    }
}

/// Whether the text starts with the pattern.
pub fn begins_with(s: &str, pat: &str) -> (out: bool)
    ensures
        out == starts_with(s@, pat@),
{
    matches_at(&chars_of(s), &chars_of(pat), 0)
}

/// A copy of an optional text.
pub fn clone_optional(content: &Option<String>) -> (out: Option<String>)
    ensures
        optional(out) == optional(*content),
{
    match content {
        Some(t) => Some(t.clone()),
        None => None,
    }
}

/// The path without its empty segments: slashes at the start and slashes behind
/// another slash are dropped.
pub open spec fn compact(path: Seq<char>) -> Seq<char>
    decreases path.len(),
{
    if path.len() == 0 {
        path
    } else {
        let front = compact(path.drop_last());
        if path.last() == '/' && (front.len() == 0 || front.last() == '/') {
            front
        } else {
            front.push(path.last())
        }
    }
}

/// The path has no empty segment in front of another one.
pub open spec fn is_compact(path: Seq<char>) -> bool {
    forall|i: int|
        0 <= i < path.len() && #[trigger] path[i] == '/' ==> i > 0 && path[i - 1] != '/'
}

/// The path without its empty segments.
pub fn compacted(path: &Vec<char>) -> (out: Vec<char>)
    ensures
        out@ == compact(path@),
{
    let mut out: Vec<char> = Vec::new();
    let mut i: usize = 0;
    assert(path@.take(0) =~= Seq::<char>::empty());
    assert(out@ =~= compact(path@.take(0)));
    while i < path.len()
        invariant
            i <= path@.len(),
            out@ == compact(path@.take(i as int)),
        decreases path@.len() - i,
    {
        assert(path@.take(i + 1).drop_last() =~= path@.take(i as int));
        let c: char = path[i];
        if !(c == '/' && (out.len() == 0 || out[out.len() - 1] == '/')) {
            out.push(c);
        }
        i = i + 1;
    }
    assert(path@.take(i as int) =~= path@);
    out
}

/// What has no empty segments is kept behind anything.
pub proof fn lemma_compact_append(front: Seq<char>, tail: Seq<char>)
    requires
        is_compact(tail),
    ensures
        compact(front + tail) == compact(front) + tail,
    decreases tail.len(),
{
    if tail.len() == 0 {
        assert(front + tail =~= front);
        assert(compact(front) + tail =~= compact(front));
    } else {
        let fewer = tail.drop_last();
        assert forall|i: int| 0 <= i < fewer.len() && #[trigger] fewer[i] == '/' implies i > 0
            && fewer[i - 1] != '/' by {
            assert(tail[i] == fewer[i]);
        }
        lemma_compact_append(front, fewer);
        assert((front + tail).drop_last() =~= front + fewer);
        assert(tail[tail.len() - 1] == tail.last());
        assert((compact(front) + fewer).push(tail.last()) =~= compact(front) + tail);
    }
}

/// A path without its empty segments has none.
pub proof fn lemma_compact(path: Seq<char>)
    ensures
        is_compact(compact(path)),
        compact(compact(path)) == compact(path),
    decreases path.len(),
{
    if path.len() > 0 {
        lemma_compact(path.drop_last());
        let front = compact(path.drop_last());
        let all = compact(path);
        assert forall|i: int| 0 <= i < all.len() && #[trigger] all[i] == '/' implies i > 0
            && all[i - 1] != '/' by {
            if i < front.len() {
                assert(front[i] == all[i]);
            }
        }
    }
    lemma_compact_append(Seq::empty(), compact(path));
    assert(Seq::<char>::empty() + compact(path) =~= compact(path));
}

} // verus!
