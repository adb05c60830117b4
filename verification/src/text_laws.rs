//! What holds of the texts that numbers, keys and paths are written as.

use crate::text;
use vstd::prelude::*;

verus! {

/// A number is written digit by digit, the last one last, and no digit is in front
/// of it that it does not need.
pub proof fn decimals_are_written_digit_by_digit(n: nat)
    ensures
        n < 10 ==> text::decimal(n).len() == 1 && text::decimal(n)[0] as nat == '0' as nat + n,
        n >= 10 ==> text::decimal(n).drop_last() == text::decimal(n / 10)
            && text::decimal(n).last() as nat == '0' as nat + n % 10,
        n > 0 ==> text::decimal(n)[0] != '0',
    decreases n,
{
    if n >= 10 {
        decimals_are_written_digit_by_digit(n / 10);
        text::lemma_decimal_digits(n / 10);
        assert(text::decimal(n).drop_last() =~= text::decimal(n / 10));
    }
}

/// A number that is filled up to a width is the plain number behind zeros, and
/// just as many of these as the width asks for.
pub proof fn padding_is_zeros_in_front(n: nat, width: nat, i: int)
    requires
        0 <= i < text::padded(n, width).len(),
    ensures
        ({
            let plain = text::decimal(n);
            let all = text::padded(n, width);
            &&& plain.len() >= width ==> all == plain
            &&& plain.len() < width ==> all.len() == width
            &&& i < all.len() - plain.len() ==> all[i] == '0'
            &&& i >= all.len() - plain.len() ==> all[i] == plain[i - (all.len() - plain.len())]
        }),
{
}

/// Hexadecimal digits are the decimal ones and then the letters from a to f.
pub proof fn hexadecimal_digits_are_lowercase(d: nat)
    requires
        d < 16,
    ensures
        d < 10 ==> text::hex_digit(d) as nat == '0' as nat + d,
        d >= 10 ==> text::hex_digit(d) as nat == 'a' as nat + d - 10,
{
}

/// A number in hexadecimal has exactly the width asked for, the lowest digit last.
pub proof fn hexadecimals_are_written_digit_by_digit(n: nat, width: nat)
    ensures
        text::hex_fixed(n, width).len() == width,
        width > 0 ==> {
            let last = text::hex_fixed(n, width).last();
            &&& text::hex_fixed(n, width).drop_last() == text::hex_fixed(
                n / 16,
                (width - 1) as nat,
            )
            &&& n % 16 < 10 ==> last as nat == '0' as nat + n % 16
            &&& n % 16 >= 10 ==> last as nat == 'a' as nat + n % 16 - 10
        },
    decreases width,
{
    if width > 0 {
        hexadecimals_are_written_digit_by_digit(n / 16, (width - 1) as nat);
        assert(text::hex_fixed(n, width).drop_last() =~= text::hex_fixed(
            n / 16,
            (width - 1) as nat,
        ));
    }
}

/// Every byte is written as two hexadecimal digits, the higher one first, so that
/// different bytes are written differently.
pub proof fn bytes_are_written_as_two_digits(bytes: Seq<u8>, other: Seq<u8>, i: int)
    ensures
        text::hex_bytes(bytes).len() == 2 * bytes.len(),
        0 <= i < bytes.len() ==> {
            &&& text::hex_bytes(bytes)[2 * i] == text::hex_digit(bytes[i] as nat / 16)
            &&& text::hex_bytes(bytes)[2 * i + 1] == text::hex_digit(bytes[i] as nat % 16)
        },
        text::hex_bytes(bytes) == text::hex_bytes(other) ==> bytes == other,
{
    if 0 <= i < bytes.len() {
        assert((2 * i) % 2 == 0 && (2 * i) / 2 == i);
        assert((2 * i + 1) % 2 == 1 && (2 * i + 1) / 2 == i);
    }
    if text::hex_bytes(bytes) == text::hex_bytes(other) {
        assert(bytes.len() == other.len()) by {
            assert(text::hex_bytes(bytes).len() == 2 * bytes.len());
            assert(text::hex_bytes(other).len() == 2 * other.len());
        }
        assert forall|k: int| 0 <= k < bytes.len() implies bytes[k] == other[k] by {
            let one = text::hex_bytes(bytes);
            let two = text::hex_bytes(other);
            assert((2 * k) % 2 == 0 && (2 * k) / 2 == k);
            assert((2 * k + 1) % 2 == 1 && (2 * k + 1) / 2 == k);
            assert(one[2 * k] == text::hex_digit(bytes[k] as nat / 16));
            assert(two[2 * k] == text::hex_digit(other[k] as nat / 16));
            assert(one[2 * k + 1] == text::hex_digit(bytes[k] as nat % 16));
            assert(two[2 * k + 1] == text::hex_digit(other[k] as nat % 16));
            hexadecimal_digits_are_lowercase(bytes[k] as nat / 16);
            hexadecimal_digits_are_lowercase(bytes[k] as nat % 16);
            hexadecimal_digits_are_lowercase(other[k] as nat / 16);
            hexadecimal_digits_are_lowercase(other[k] as nat % 16);
        }
        assert(bytes =~= other);
    }
}

/// A text is read as a number exactly if it consists of digits, at least one, with
/// at most one plus sign in front, and fits in 64 bits. Each digit counts ten times
/// what the next one does.
pub proof fn numbers_are_read_as_written(s: Seq<char>, front: Seq<char>, c: char)
    requires
        '0' <= c <= '9',
        s.len() > 0 ==> s[0] != '+',
    ensures
        text::parse_u64(s) is Some <==> s.len() > 0 && (forall|i: int|
            0 <= i < s.len() ==> '0' <= #[trigger] s[i] <= '9') && text::digits_value(s)
            <= 0xffff_ffff_ffff_ffff,
        text::parse_u64(s) is Some ==> text::parse_u64(s)->0 == text::digits_value(s),
        text::parse_u64(seq!['+'] + s) == text::parse_u64(s),
        text::parse_u64(seq!['+'] + (seq!['+'] + s)) is None,
        text::digits_value(Seq::<char>::empty()) == 0,
        text::digits_value(front.push(c)) == 10 * text::digits_value(front) + (c as nat
            - '0' as nat),
{
    if text::all_digits(s) {
        assert forall|i: int| 0 <= i < s.len() implies '0' <= #[trigger] s[i] <= '9' by {
            assert(text::is_digit(s[i]));
        }
    }
    let signed = seq!['+'] + s;
    let twice = seq!['+'] + signed;
    assert(signed.skip(1) =~= s);
    assert(twice.skip(1) =~= signed);
    assert(!text::is_digit(signed[0]));
    assert(front.push(c).drop_last() =~= front);
}

proof fn lemma_trim_start_drops(s: Seq<char>, c: char) -> (from: int)
    ensures
        0 <= from <= s.len(),
        text::trim_start(s, c) == s.subrange(from, s.len() as int),
        forall|i: int| 0 <= i < from ==> #[trigger] s[i] == c,
        from < s.len() ==> s[from] != c,
    decreases s.len(),
{
    if s.len() > 0 && s[0] == c {
        let rest = s.skip(1);
        let from = lemma_trim_start_drops(rest, c);
        assert(rest.subrange(from, rest.len() as int) =~= s.subrange(from + 1, s.len() as int));
        assert forall|i: int| 0 <= i < from + 1 implies #[trigger] s[i] == c by {
            if i > 0 {
                assert(rest[i - 1] == s[i]);
            }
        }
        if from < rest.len() {
            assert(rest[from] == s[from + 1]);
        }
        from + 1
    } else {
        assert(s.subrange(0, s.len() as int) =~= s);
        0
    }
}

proof fn lemma_trim_end_drops(s: Seq<char>, c: char) -> (to: int)
    ensures
        0 <= to <= s.len(),
        text::trim_end(s, c) == s.subrange(0, to),
        forall|i: int| to <= i < s.len() ==> #[trigger] s[i] == c,
        to > 0 ==> s[to - 1] != c,
    decreases s.len(),
{
    if s.len() > 0 && s.last() == c {
        let front = s.drop_last();
        let to = lemma_trim_end_drops(front, c);
        assert(front.subrange(0, to) =~= s.subrange(0, to));
        assert forall|i: int| to <= i < s.len() implies #[trigger] s[i] == c by {
            if i < front.len() {
                assert(front[i] == s[i]);
            }
        }
        to
    } else {
        assert(s.subrange(0, s.len() as int) =~= s);
        s.len() as int
    }
}

/// Trimming takes away what was asked for at the two ends and nothing else: the
/// trimmed text is a part of the whole, everything around it is the character
/// trimmed, and it neither starts nor ends with that. The result names the part.
pub proof fn trimming_takes_the_ends_alone(s: Seq<char>, c: char) -> (part: (int, int))
    ensures
        0 <= part.0 <= part.1 <= s.len(),
        text::trim(s, c) == s.subrange(part.0, part.1),
        forall|i: int| 0 <= i < part.0 ==> #[trigger] s[i] == c,
        forall|i: int| part.1 <= i < s.len() ==> #[trigger] s[i] == c,
        part.0 < part.1 ==> s[part.0] != c && s[part.1 - 1] != c,
{
    let from = lemma_trim_start_drops(s, c);
    let rest = text::trim_start(s, c);
    let to = lemma_trim_end_drops(rest, c);
    assert(rest.subrange(0, to) =~= s.subrange(from, from + to));
    assert forall|i: int| from + to <= i < s.len() implies #[trigger] s[i] == c by {
        assert(rest[i - from] == s[i]);
    }
    if to > 0 {
        assert(rest[to - 1] == s[from + to - 1]);
    }
    (from, from + to)
}

/// A text is cut at the first place where the pattern stands, or not at all.
pub proof fn texts_are_cut_at_the_first_match(s: Seq<char>, pat: Seq<char>, at: int)
    ensures
        0 <= at && at + pat.len() <= s.len() && s.subrange(at, at + pat.len()) == pat && (forall|
            j: int,
            k: int,
        |
            0 <= j < at && k == j + pat.len() ==> #[trigger] s.subrange(j, k) != pat) ==> {
            &&& text::before_first(s, pat) == s.subrange(0, at)
            &&& text::after_first(s, pat) == Some(s.subrange(at + pat.len(), s.len() as int))
        },
        (forall|j: int, k: int|
            0 <= j && k == j + pat.len() && k <= s.len() ==> #[trigger] s.subrange(j, k) != pat) ==> {
            &&& text::before_first(s, pat) == s
            &&& text::after_first(s, pat) is None
        },
{
    text::lemma_find_from(s, pat, 0);
    assert(forall|j: int| #[trigger]
        text::occurs_at(s, pat, j) ==> s.subrange(j, j + pat.len()) == pat);
    if 0 <= at && at + pat.len() <= s.len() && s.subrange(at, at + pat.len()) == pat {
        assert(text::occurs_at(s, pat, at));
    }
}

/// A text is cut at the last place where the pattern stands, or not at all.
pub proof fn texts_are_cut_at_the_last_match(s: Seq<char>, pat: Seq<char>, at: int)
    ensures
        0 <= at && at + pat.len() <= s.len() && s.subrange(at, at + pat.len()) == pat && (forall|
            j: int,
            k: int,
        |
            at < j && k == j + pat.len() && k <= s.len() ==> #[trigger] s.subrange(j, k) != pat)
            ==> text::after_last(s, pat) == s.subrange(at + pat.len(), s.len() as int),
        (forall|j: int, k: int|
            0 <= j && k == j + pat.len() && k <= s.len() ==> #[trigger] s.subrange(j, k) != pat)
            ==> text::after_last(s, pat) == s,
{
    text::lemma_rfind_from(s, pat, s.len() - pat.len());
    assert(forall|j: int| #[trigger]
        text::occurs_at(s, pat, j) ==> s.subrange(j, j + pat.len()) == pat);
    if 0 <= at && at + pat.len() <= s.len() && s.subrange(at, at + pat.len()) == pat {
        assert(text::occurs_at(s, pat, at));
    }
}

/// A text starts with a pattern, or ends with it, exactly if it is that pattern
/// and something behind it, or in front of it.
pub proof fn ends_are_compared_whole(pat: Seq<char>, rest: Seq<char>, s: Seq<char>)
    ensures
        text::starts_with(pat + rest, pat),
        text::ends_with(rest + pat, pat),
        text::starts_with(s, pat) ==> s.len() >= pat.len() && forall|i: int|
            0 <= i < pat.len() ==> s[i] == pat[i],
        text::ends_with(s, pat) ==> s.len() >= pat.len() && forall|i: int|
            0 <= i < pat.len() ==> s[s.len() - pat.len() + i] == pat[i],
{
    assert((pat + rest).subrange(0, pat.len() as int) =~= pat);
    assert((rest + pat).subrange(rest.len() as int, (rest.len() + pat.len()) as int) =~= pat);
    if text::starts_with(s, pat) {
        assert forall|i: int| 0 <= i < pat.len() implies s[i] == pat[i] by {
            assert(s.subrange(0, pat.len() as int)[i] == pat[i]);
        }
    }
    if text::ends_with(s, pat) {
        assert forall|i: int| 0 <= i < pat.len() implies s[s.len() - pat.len() + i] == pat[i] by {
            assert(s.subrange(s.len() - pat.len(), s.len() as int)[i] == pat[i]);
        }
    }
}

/// A suffix is taken off as often as it is there, and nothing else is.
pub proof fn suffixes_are_taken_off(s: Seq<char>, pat: Seq<char>)
    requires
        pat.len() > 0,
    ensures
        text::strip_suffixes(s + pat, pat) == text::strip_suffixes(s, pat),
        (s.len() < pat.len() || s.subrange(s.len() - pat.len(), s.len() as int) != pat)
            ==> text::strip_suffixes(s, pat) == s,
{
    let all = s + pat;
    assert(all.subrange(all.len() - pat.len(), all.len() as int) =~= pat);
    assert(all.take(all.len() - pat.len()) =~= s);
}

/// Dropping empty segments from a path keeps every other character: a slash goes
/// exactly if what stays in front of it is nothing or ends in a slash.
pub proof fn only_empty_segments_are_dropped(path: Seq<char>, c: char)
    ensures
        text::compact(Seq::<char>::empty()).len() == 0,
        ({
            let front = text::compact(path);
            let dropped = c == '/' && (front.len() == 0 || front[front.len() - 1] == '/');
            text::compact(path.push(c)) == if dropped {
                front
            } else {
                front.push(c)
            }
        }),
{
    assert(path.push(c).drop_last() =~= path);
}

/// An optional text keeps its characters.
pub proof fn optional_texts_are_kept(content: Option<String>)
    ensures
        content is Some ==> text::optional(content) == Some(content->0@),
        content is None ==> text::optional(content) is None,
{
}

/// A text has a pattern in it exactly if the pattern stands at some place of it.
pub proof fn a_text_has_its_parts(
    front: Seq<char>,
    pat: Seq<char>,
    rest: Seq<char>,
    s: Seq<char>,
    at: int,
)
    ensures
        text::has(front + pat + rest, pat),
        !text::has(s, pat) && 0 <= at && at + pat.len() <= s.len() ==> s.subrange(
            at,
            at + pat.len(),
        ) != pat,
        text::has(s, pat) ==> pat.len() <= s.len(),
{
    let all = front + pat + rest;
    let from = front.len() as int;
    assert(all.subrange(from, from + pat.len()) =~= pat);
    assert(text::occurs_at(all, pat, from));
    if 0 <= at && at + pat.len() <= s.len() && s.subrange(at, at + pat.len()) == pat {
        assert(text::occurs_at(s, pat, at));
    }
}

} // verus!
