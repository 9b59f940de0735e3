//! Text building and scanning.
use vstd::prelude::*;

verus! {

/// `String::push` appends its character to the end of the string and changes nothing else.
pub assume_specification[ String::push ](s: &mut String, ch: char)
    ensures
        final(s)@ == old(s)@.push(ch),
;

/// The decimal digit that stands for `d`, for `d < 10`.
pub open spec fn digit_char(d: int) -> char {
    (48 + d) as char
}

/// The decimal notation of `n`, without leading zeros.
pub open spec fn decimal(n: nat) -> Seq<char>
    decreases n,
{
    if n < 10 {
        seq![digit_char(n as int)]
    } else {
        decimal(n / 10).push(digit_char((n % 10) as int))
    }
}

/// `count` times the digit zero.
pub open spec fn zeros(count: nat) -> Seq<char> {
    Seq::new(count, |i: int| '0')
}

/// The decimal notation of `n`, filled up with zeros on the left to at least `width` digits.
pub open spec fn padded_decimal(n: nat, width: nat) -> Seq<char> {
    let digits = decimal(n);
    if digits.len() < width {
        zeros((width - digits.len()) as nat) + digits
    } else {
        digits
    }
}

/// Appends the decimal notation of `n`.
pub fn push_decimal(out: &mut String, n: u64)
    ensures
        final(out)@ == old(out)@ + decimal(n as nat),
    decreases n,
{
    if n >= 10 {
        push_decimal(out, n / 10);
    }
    out.push((48u8 + (n % 10) as u8) as char);
    assert(out@ =~= old(out)@ + decimal(n as nat));
}

proof fn lemma_decimal_nonempty(n: nat)
    ensures
        decimal(n).len() >= 1,
{
}

/// Appends the decimal notation of `n`, filled up with zeros on the left to at least `width`
/// digits.
pub fn push_padded(out: &mut String, n: u64, width: usize)
    ensures
        final(out)@ == old(out)@ + padded_decimal(n as nat, width as nat),
    decreases n,
{
    if n < 10 {
        let mut filled: usize = 1;
        while filled < width
            invariant
                n < 10,
                filled >= 1,
                filled == 1 || filled <= width,
                out@ == old(out)@ + zeros((filled - 1) as nat),
            decreases width - filled,
        {
            out.push('0');
            assert(zeros(filled as nat) =~= zeros((filled - 1) as nat).push('0'));
            filled = filled + 1;
        }
    } else {
        push_padded(out, n / 10, if width == 0 { 0 } else { width - 1 });
    }
    out.push((48u8 + (n % 10) as u8) as char);
    proof {
        lemma_decimal_nonempty((n / 10) as nat);
        let digit = digit_char((n % 10) as int);
        let padded = padded_decimal(n as nat, width as nat);
        if n < 10 {
            assert(decimal(n as nat) =~= seq![digit]);
            if width > 1 {
                assert(padded =~= zeros((width - 1) as nat).push(digit));
            } else {
                assert(padded =~= zeros(0).push(digit));
            }
        } else {
            let rest = padded_decimal((n / 10) as nat, if width == 0 { 0 } else { (width - 1) as nat });
            assert(padded =~= rest.push(digit));
        }
        assert(out@ =~= old(out)@ + padded);
    }
}

/// The characters of `s`.
pub fn chars_of(s: &str) -> (res: Vec<char>)
    ensures
        res@ == s@,
{
    let mut res: Vec<char> = Vec::new();
    for c in it: s.chars()
        invariant
            res@ == it.seq().take(it.index() as int),
            it.seq() == s@,
    {
        res.push(c);
    }
    res
}

/// The string of the characters `chars[from..to]`.
pub fn string_of(chars: &Vec<char>, from: usize, to: usize) -> (res: String)
    requires
        from <= to <= chars@.len(),
    ensures
        res@ == chars@.subrange(from as int, to as int),
{
    let mut res = String::new();
    let mut i: usize = from;
    while i < to
        invariant
            from <= i <= to <= chars@.len(),
            res@ == chars@.subrange(from as int, i as int),
        decreases to - i,
    {
        res.push(chars[i]);
        i = i + 1;
        assert(res@ =~= chars@.subrange(from as int, i as int));
    }
    res
}

/// Whether `hay` holds `needle` at position `at`.
pub open spec fn occurs_at(hay: Seq<char>, needle: Seq<char>, at: int) -> bool {
    &&& 0 <= at
    &&& at + needle.len() <= hay.len()
    &&& hay.subrange(at, at + needle.len()) == needle
}

/// Where `needle` occurs in `hay` first.
#[verifier::opaque]
pub open spec fn first_occurrence(hay: Seq<char>, needle: Seq<char>) -> Option<int> {
    if exists|at: int| occurs_at(hay, needle, at) {
        Some(choose|at: int| occurs_at(hay, needle, at) && forall|k: int|
            0 <= k < at ==> !occurs_at(hay, needle, k))
    } else {
        None
    }
}

/// The position that makes a search successful, once it is known, is the one that
/// `first_occurrence` names.
pub proof fn lemma_first_occurrence(hay: Seq<char>, needle: Seq<char>, at: int)
    requires
        occurs_at(hay, needle, at),
        forall|k: int| 0 <= k < at ==> !occurs_at(hay, needle, k),
    ensures
        first_occurrence(hay, needle) == Some(at),
{
    reveal(first_occurrence);
    let found = first_occurrence(hay, needle)->0;
    assert(occurs_at(hay, needle, found) && forall|k: int|
        0 <= k < found ==> !occurs_at(hay, needle, k));
    if found < at {
        assert(!occurs_at(hay, needle, found));
    }
    if at < found {
        assert(!occurs_at(hay, needle, at));
    }
}

/// Whether `chars[from..to]` holds `needle` at position `at`, counted from `from`.
fn holds_at(chars: &Vec<char>, from: usize, to: usize, needle: &Vec<char>, at: usize) -> (res: bool)
    requires
        from <= to <= chars@.len(),
        at + needle@.len() <= to - from,
    ensures
        res == occurs_at(chars@.subrange(from as int, to as int), needle@, at as int),
{
    let ghost hay = chars@.subrange(from as int, to as int);
    let mut i: usize = 0;
    while i < needle.len()
        invariant
            from <= to <= chars@.len(),
            at + needle@.len() <= to - from,
            hay == chars@.subrange(from as int, to as int),
            0 <= i <= needle@.len(),
            forall|j: int| 0 <= j < i ==> #[trigger] hay[at + j] == needle@[j],
        decreases needle@.len() - i,
    {
        if chars[from + at + i] != needle[i] {
            proof {
                let window = hay.subrange(at as int, at + needle@.len());
                assert(window[i as int] == hay[at + i]);
                assert(window != needle@);
            }
            return false;
        }
        i = i + 1;
    }
    proof {
        let window = hay.subrange(at as int, at + needle@.len());
        assert forall|j: int| 0 <= j < needle@.len() implies window[j] == needle@[j] by {
            assert(window[j] == hay[at + j]);
        }
        assert(window =~= needle@);
    }
    true
}

/// Searches `chars[from..to]` for `needle`; the position found is counted from `from`.
pub fn find(chars: &Vec<char>, from: usize, to: usize, needle: &Vec<char>) -> (res: Option<usize>)
    requires
        from <= to <= chars@.len(),
    ensures
        match res {
            Some(at) => {
                let hay = chars@.subrange(from as int, to as int);
                first_occurrence(hay, needle@) == Some(at as int) && occurs_at(
                    hay,
                    needle@,
                    at as int,
                )
            },
            None => first_occurrence(chars@.subrange(from as int, to as int), needle@) is None,
        },
{
    let ghost hay = chars@.subrange(from as int, to as int);
    if needle.len() > to - from {
        assert(forall|k: int| !occurs_at(hay, needle@, k));
        reveal(first_occurrence);
        return None;
    }
    let last: usize = to - from - needle.len();
    let mut at: usize = 0;
    loop
        invariant
            from <= to <= chars@.len(),
            hay == chars@.subrange(from as int, to as int),
            last == to - from - needle@.len(),
            0 <= at <= last,
            forall|k: int| 0 <= k < at ==> !occurs_at(hay, needle@, k),
        decreases last - at,
    {
        if holds_at(chars, from, to, needle, at) {
            proof {
                lemma_first_occurrence(hay, needle@, at as int);
            }
            return Some(at);
        }
        if at == last {
            assert(forall|k: int| k != at ==> !occurs_at(hay, needle@, k));
            reveal(first_occurrence);
            return None;
        }
        at = at + 1;
    }
}

/// Whether `c` is a decimal digit.
pub open spec fn is_digit(c: char) -> bool {
    '0' <= c <= '9'
}

/// The number that decimal digits stand for.
pub open spec fn digits_value(digits: Seq<char>) -> nat
    decreases digits.len(),
{
    if digits.len() == 0 {
        0
    } else {
        (10 * digits_value(digits.drop_last()) + (digits.last() as int - 48)) as nat
    }
}

/// Whether a text is made of decimal digits alone.
pub open spec fn all_digits(text: Seq<char>) -> bool {
    forall|i: int| 0 <= i < text.len() ==> is_digit(#[trigger] text[i])
}

/// A text without the `+` in front of it, where there is one.
pub open spec fn without_plus(text: Seq<char>) -> Seq<char> {
    if text.len() > 0 && text[0] == '+' {
        text.skip(1)
    } else {
        text
    }
}

/// The number that a text stands for: decimal digits, with or without a `+` in front, for a
/// number that fits.
pub open spec fn u64_parsed(text: Seq<char>) -> Option<u64> {
    let digits = without_plus(text);
    if digits.len() > 0 && all_digits(digits) && digits_value(digits) <= u64::MAX {
        Some(digits_value(digits) as u64)
    } else {
        None
    }
}

proof fn lemma_prefix_value(digits: Seq<char>, short: int)
    requires
        0 <= short <= digits.len(),
        all_digits(digits),
    ensures
        digits_value(digits.take(short)) <= digits_value(digits),
    decreases digits.len(),
{
    if short < digits.len() {
        lemma_prefix_value(digits.drop_last(), short);
        assert(digits.drop_last().take(short) =~= digits.take(short));
    } else {
        assert(digits.take(short) =~= digits);
    }
}

proof fn lemma_decimal_value(n: nat)
    ensures
        all_digits(decimal(n)),
        digits_value(decimal(n)) == n,
    decreases n,
{
    if n < 10 {
        assert(decimal(n).drop_last() =~= Seq::<char>::empty());
        assert(decimal(n).last() as int == 48 + n);
        reveal_with_fuel(digits_value, 2);
    } else {
        lemma_decimal_value(n / 10);
        assert(decimal(n).drop_last() =~= decimal(n / 10));
        assert(decimal(n).last() as int == 48 + n % 10);
    }
}

proof fn lemma_zeros_value(count: nat, digits: Seq<char>)
    requires
        all_digits(digits),
    ensures
        all_digits(zeros(count) + digits),
        digits_value(zeros(count) + digits) == digits_value(digits),
    decreases digits.len(), count,
{
    if digits.len() == 0 {
        if count > 0 {
            lemma_zeros_value((count - 1) as nat, digits);
            assert((zeros(count) + digits).drop_last() =~= zeros((count - 1) as nat) + digits);
        } else {
            assert(zeros(count) + digits =~= digits);
        }
    } else {
        lemma_zeros_value(count, digits.drop_last());
        assert((zeros(count) + digits).drop_last() =~= zeros(count) + digits.drop_last());
        assert((zeros(count) + digits).last() == digits.last());
        assert forall|i: int| 0 <= i < (zeros(count) + digits).len() implies is_digit(
            #[trigger] (zeros(count) + digits)[i],
        ) by {
            if i >= count {
                assert(is_digit(digits[i - count]));
            }
        }
    }
}

/// The decimal notation of a number, filled up with zeros, stands for that number.
pub proof fn lemma_padded_value(n: nat, width: nat)
    ensures
        padded_decimal(n, width).len() >= 1,
        all_digits(padded_decimal(n, width)),
        digits_value(padded_decimal(n, width)) == n,
{
    lemma_decimal_value(n);
    lemma_decimal_nonempty(n);
    if decimal(n).len() < width {
        lemma_zeros_value((width - decimal(n).len()) as nat, decimal(n));
    }
}

/// The number that `chars[from..to]` stands for.
pub fn parse_u64(chars: &Vec<char>, from: usize, to: usize) -> (res: Option<u64>)
    requires
        from <= to <= chars@.len(),
    ensures
        res == u64_parsed(chars@.subrange(from as int, to as int)),
{
    let ghost text = chars@.subrange(from as int, to as int);
    let start: usize = if from < to && chars[from] == '+' {
        from + 1
    } else {
        from
    };
    let ghost digits = chars@.subrange(start as int, to as int);
    proof {
        if from < to {
            assert(text[0] == chars@[from as int]);
        }
        if start > from {
            assert(digits =~= text.skip(1));
        }
    }
    if start == to {
        return None;
    }
    let mut value: u64 = 0;
    let mut i: usize = start;
    assert(digits.take(0) =~= Seq::<char>::empty());
    while i < to
        invariant
            from <= start <= i <= to <= chars@.len(),
            text == chars@.subrange(from as int, to as int),
            digits == chars@.subrange(start as int, to as int),
            forall|j: int| 0 <= j < i - start ==> is_digit(#[trigger] digits[j]),
            value == digits_value(digits.take(i - start)),
            digits.len() > 0,
            digits == without_plus(text),
        decreases to - i,
    {
        let c = chars[i];
        assert(digits[i - start] == c);
        if c < '0' || c > '9' {
            return None;
        }
        let digit: u64 = (c as u32 - 48) as u64;
        assert(digits.take(i + 1 - start).drop_last() =~= digits.take(i - start));
        if value > (u64::MAX - digit) / 10 {
            proof {
                if all_digits(digits) {
                    lemma_prefix_value(digits, i + 1 - start);
                }
            }
            return None;
        }
        value = value * 10 + digit;
        i = i + 1;
    }
    assert(digits.take(to - start) =~= digits);
    Some(value)
}

/// Whether `text` starts with `prefix`.
pub open spec fn starts_with(text: Seq<char>, prefix: Seq<char>) -> bool {
    prefix.len() <= text.len() && text.take(prefix.len() as int) == prefix
}

/// Whether `text` ends with `suffix`.
pub open spec fn ends_with(text: Seq<char>, suffix: Seq<char>) -> bool {
    suffix.len() <= text.len() && text.skip(text.len() - suffix.len()) == suffix
}

/// Whether `text` starts with `prefix` and ends with `suffix`.
pub fn starts_and_ends_with(text: &str, prefix: &str, suffix: &str) -> (res: bool)
    ensures
        res == (starts_with(text@, prefix@) && ends_with(text@, suffix@)),
{
    let chars = chars_of(text);
    let first = chars_of(prefix);
    let last = chars_of(suffix);
    let n = chars.len();
    if first.len() > n || last.len() > n {
        return false;
    }
    let starts = holds_at(&chars, 0, n, &first, 0);
    let ends = holds_at(&chars, 0, n, &last, n - last.len());
    assert(chars@.subrange(0, n as int) =~= text@);
    assert(text@.subrange(0, prefix@.len() as int) =~= text@.take(prefix@.len() as int));
    assert(text@.subrange(text@.len() - suffix@.len(), text@.len() as int) =~= text@.skip(
        text@.len() - suffix@.len(),
    ));
    starts && ends
}

/// A text that is filled up with zeros ends with the number's own digits, has nothing but zeros
/// in front of them, and is no longer than it must be.
pub proof fn filling_up_adds_only_zeros(n: nat, width: nat)
    ensures
        ({
            let padded = padded_decimal(n, width);
            let digits = decimal(n);
            let more = padded.len() - digits.len();
            &&& padded.len() == if digits.len() < width {
                width
            } else {
                digits.len()
            }
            &&& padded.skip(more) == digits
            &&& forall|i: int| 0 <= i < more ==> #[trigger] padded[i] == '0'
        }),
{
    let padded = padded_decimal(n, width);
    assert(padded.skip(padded.len() - decimal(n).len()) =~= decimal(n));
}

/// The decimal notation has no zeros in front: only that of zero starts with one, and it is that
/// digit alone. Ten times a number and a digit are written as the number and the digit.
pub proof fn decimal_has_no_zeros_in_front(n: nat)
    ensures
        decimal(n).len() >= 1,
        decimal(n)[0] == '0' <==> n == 0,
        decimal(0) == seq!['0'],
        forall|digit: nat|
            0 < n && digit < 10 ==> #[trigger] decimal(10 * n + digit) == decimal(n).push(
                (48 + digit) as char,
            ),
    decreases n,
{
    lemma_decimal_nonempty(n);
    if n < 10 {
        assert(decimal(n)[0] == digit_char(n as int));
        assert('0' as int == 48);
    } else {
        decimal_has_no_zeros_in_front(n / 10);
        assert(decimal(n)[0] == decimal(n / 10)[0]);
    }
    assert forall|digit: nat| 0 < n && digit < 10 implies #[trigger] decimal(10 * n + digit)
        == decimal(n).push((48 + digit) as char) by {
        let m = 10 * n + digit;
        assert(m >= 10 && m / 10 == n && m % 10 == digit);
    }
}

/// Two numbers are written differently.
pub proof fn decimal_tells_numbers_apart(a: nat, b: nat)
    requires
        decimal(a) == decimal(b),
    ensures
        a == b,
{
    lemma_decimal_value(a);
    lemma_decimal_value(b);
}

/// A number that was written is read back, filled up with zeros or not, and with a `+` in front
/// or not, if it fits; one that does not fit is not read.
pub proof fn written_number_reads_back(n: nat, width: nat)
    ensures
        n <= u64::MAX ==> {
            &&& u64_parsed(decimal(n)) == Some(n as u64)
            &&& u64_parsed(padded_decimal(n, width)) == Some(n as u64)
            &&& u64_parsed(seq!['+'] + decimal(n)) == Some(n as u64)
        },
        n > u64::MAX ==> u64_parsed(decimal(n)) is None,
{
    lemma_decimal_value(n);
    lemma_decimal_nonempty(n);
    lemma_padded_value(n, width);
    assert(is_digit(decimal(n)[0]));
    assert(is_digit(padded_decimal(n, width)[0]));
    assert((seq!['+'] + decimal(n)).skip(1) =~= decimal(n));
}

/// Nothing but digits, with one `+` in front of them at most, is read as a number.
pub proof fn only_digits_are_numbers(text: Seq<char>, at: int)
    requires
        0 <= at < text.len(),
        !('0' <= text[at] <= '9'),
        at > 0 || text[at] != '+' || text.len() == 1,
    ensures
        u64_parsed(text) is None,
        u64_parsed(Seq::empty()) is None,
{
    let digits = without_plus(text);
    if text[0] == '+' {
        if at > 0 {
            assert(digits[at - 1] == text[at]);
        }
    } else {
        assert(!is_digit(digits[at]));
    }
}

/// A text occurs at a position where its characters stand there one after another.
pub proof fn occurs_where_its_characters_stand(hay: Seq<char>, needle: Seq<char>, at: int)
    ensures
        occurs_at(hay, needle, at) <==> {
            &&& 0 <= at
            &&& at + needle.len() <= hay.len()
            &&& forall|i: int| 0 <= i < needle.len() ==> hay[at + i] == #[trigger] needle[i]
        },
        starts_with(hay, needle) <==> occurs_at(hay, needle, 0),
        ends_with(hay, needle) <==> needle.len() <= hay.len() && occurs_at(
            hay,
            needle,
            hay.len() - needle.len(),
        ),
{
    if 0 <= at && at + needle.len() <= hay.len() {
        let window = hay.subrange(at, at + needle.len());
        if window == needle {
            assert forall|i: int| 0 <= i < needle.len() implies hay[at + i]
                == #[trigger] needle[i] by {
                assert(window[i] == hay[at + i]);
            }
        } else if forall|i: int| 0 <= i < needle.len() ==> hay[at + i] == #[trigger] needle[i] {
            assert forall|i: int| 0 <= i < needle.len() implies window[i] == needle[i] by {
                assert(window[i] == hay[at + i]);
            }
            assert(window =~= needle);
        }
    }
    if needle.len() <= hay.len() {
        let n = needle.len() as int;
        assert(hay.subrange(0, n) =~= hay.take(n));
        assert(hay.subrange(hay.len() - n, hay.len() as int) =~= hay.skip(hay.len() - n));
    }
}

/// A search finds the first position at which a text occurs, and fails only where there is none.
pub proof fn a_search_finds_the_first_occurrence(hay: Seq<char>, needle: Seq<char>)
    ensures
        match first_occurrence(hay, needle) {
            Some(at) => occurs_at(hay, needle, at) && forall|k: int|
                0 <= k < at ==> !occurs_at(hay, needle, k),
            None => forall|k: int| !occurs_at(hay, needle, k),
        },
{
    if exists|at: int| occurs_at(hay, needle, at) {
        let at = choose|at: int| occurs_at(hay, needle, at);
        lemma_some_occurrence_is_first(hay, needle, at);
    } else {
        reveal(first_occurrence);
    }
}

proof fn lemma_some_occurrence_is_first(hay: Seq<char>, needle: Seq<char>, at: int)
    requires
        occurs_at(hay, needle, at),
    ensures
        first_occurrence(hay, needle) is Some,
        occurs_at(hay, needle, first_occurrence(hay, needle)->0),
        forall|k: int|
            0 <= k < first_occurrence(hay, needle)->0 ==> !occurs_at(hay, needle, k),
    decreases at,
{
    if forall|k: int| 0 <= k < at ==> !occurs_at(hay, needle, k) {
        lemma_first_occurrence(hay, needle, at);
    } else {
        let earlier = choose|k: int| 0 <= k < at && occurs_at(hay, needle, k);
        lemma_some_occurrence_is_first(hay, needle, earlier);
    }
}

/// What stands in a text between its first and its last part.
pub open spec fn between(text: Seq<char>, first: Seq<char>, last: Seq<char>) -> Seq<char> {
    text.subrange(first.len() as int, text.len() - last.len())
}

/// A text that is put together of three parts starts with the first, ends with the last, and has
/// the middle one between them.
pub proof fn lemma_three_parts(first: Seq<char>, middle: Seq<char>, last: Seq<char>)
    ensures
        starts_with(first + middle + last, first),
        ends_with(first + middle + last, last),
        between(first + middle + last, first, last) == middle,
{
    let text = first + middle + last;
    assert(text.take(first.len() as int) =~= first);
    assert(text.skip(text.len() - last.len()) =~= last);
    assert(between(text, first, last) =~= middle);
}

/// Where two texts that start with digits and go on with something else are the same, their digits
/// are.
pub proof fn lemma_digits_end(
    first: Seq<char>,
    second: Seq<char>,
    after_first: Seq<char>,
    after_second: Seq<char>,
    text: Seq<char>,
)
    requires
        all_digits(first),
        all_digits(second),
        after_first.len() > 0,
        after_second.len() > 0,
        !is_digit(after_first[0]),
        !is_digit(after_second[0]),
        text == first + after_first,
        text == second + after_second,
    ensures
        first == second,
{
    if first.len() < second.len() {
        assert(text[first.len() as int] == after_first[0]);
        assert(is_digit(second[first.len() as int]));
    } else if second.len() < first.len() {
        assert(text[second.len() as int] == after_second[0]);
        assert(is_digit(first[second.len() as int]));
    } else {
        assert(text.take(first.len() as int) =~= first);
        assert(text.take(first.len() as int) =~= second);
    }
}

/// Two numbers that are written into a text, with something between them that does not start with
/// a digit, can be told from the text.
pub proof fn lemma_two_numbers(
    head: Seq<char>,
    link: Seq<char>,
    a: nat,
    b: nat,
    other_a: nat,
    other_b: nat,
)
    requires
        link.len() > 0,
        !is_digit(link[0]),
        head + decimal(a) + link + decimal(b) == head + decimal(other_a) + link + decimal(other_b),
    ensures
        a == other_a,
        b == other_b,
{
    let first = decimal(a);
    let second = decimal(other_a);
    let text = head + first + link + decimal(b);
    let tail = text.skip(head.len() as int);
    lemma_decimal_value(a);
    lemma_decimal_value(other_a);
    assert(tail =~= first + (link + decimal(b)));
    assert(tail =~= second + (link + decimal(other_b)));
    lemma_digits_end(first, second, link + decimal(b), link + decimal(other_b), tail);
    decimal_tells_numbers_apart(a, other_a);
    let m = (first.len() + link.len()) as int;
    assert(tail.skip(m) =~= decimal(b));
    assert(tail.skip(m) =~= decimal(other_b));
    decimal_tells_numbers_apart(b, other_b);
}

} // verus!
