//! Reading text as bytes: splitting at a separator, and decimal numbers.

use vstd::prelude::*;

verus! {

/// The pieces of `s` between the occurrences of `sep`. A text without the
/// separator is one piece; two separators in a row enclose an empty piece.
pub open spec fn split(s: Seq<u8>, sep: u8) -> Seq<Seq<u8>>
    decreases s.len(),
{
    if s.len() == 0 {
        seq![Seq::<u8>::empty()]
    } else {
        let before = split(s.drop_last(), sep);
        if s.last() == sep {
            before.push(Seq::<u8>::empty())
        } else {
            before.drop_last().push(before.last().push(s.last()))
        }
    }
}

/// The texts that a vector of byte vectors holds.
pub open spec fn texts(v: Seq<Vec<u8>>) -> Seq<Seq<u8>> {
    Seq::new(v.len(), |i: int| v[i]@)
}

/// Splits `bytes` at each occurrence of `sep`.
pub fn split_at(bytes: &[u8], sep: u8) -> (parts: Vec<Vec<u8>>)
    ensures
        texts(parts@) == split(bytes@, sep),
        parts@.len() >= 1,
{
    let mut parts: Vec<Vec<u8>> = Vec::new();
    let mut piece: Vec<u8> = Vec::new();
    let mut i: usize = 0;
    assert(bytes@.take(0) =~= Seq::<u8>::empty());
    assert(texts(parts@).push(piece@) =~= seq![Seq::<u8>::empty()]);
    while i < bytes.len()
        invariant
            i <= bytes.len(),
            split(bytes@.take(i as int), sep) == texts(parts@).push(piece@),
        decreases bytes.len() - i,
    {
        let c: u8 = bytes[i];
        let ghost before = split(bytes@.take(i as int), sep);
        assert(bytes@.take(i + 1).drop_last() =~= bytes@.take(i as int));
        assert(bytes@.take(i + 1).last() == c);
        if c == sep {
            let ghost old_parts = parts@;
            let done = piece;
            parts.push(done);
            piece = Vec::new();
            assert(texts(parts@).push(piece@) =~= before.push(Seq::<u8>::empty()));
        } else {
            let ghost old_piece = piece@;
            piece.push(c);
            assert(before.drop_last() =~= texts(parts@));
            assert(texts(parts@).push(piece@) =~= before.drop_last().push(before.last().push(c)));
        }
        i = i + 1;
    }
    assert(bytes@.take(bytes@.len() as int) =~= bytes@);
    let ghost all = texts(parts@).push(piece@);
    parts.push(piece);
    assert(texts(parts@) =~= all);
    parts
}

/// Whether `c` is one of the characters `0` to `9`.
pub open spec fn is_digit(c: u8) -> bool {
    48 <= c <= 57
}

/// Whether the text consists of digits only.
pub open spec fn all_digits(s: Seq<u8>) -> bool {
    forall|i: int| 0 <= i < s.len() ==> is_digit(#[trigger] s[i])
}

/// The number that a text of digits denotes in base ten.
pub open spec fn digits_value(s: Seq<u8>) -> nat
    decreases s.len(),
{
    if s.len() == 0 {
        0
    } else {
        (digits_value(s.drop_last()) * 10 + (s.last() - 48)) as nat
    }
}

/// The number of digits at the start of the text.
pub open spec fn leading_digits(s: Seq<u8>) -> nat
    decreases s.len(),
{
    if s.len() > 0 && is_digit(s[0]) {
        1 + leading_digits(s.skip(1))
    } else {
        0
    }
}

/// A text that starts with `k` digits and then ends, or goes on with another
/// character, has `k` leading digits.
pub proof fn lemma_leading_digits(s: Seq<u8>, k: int)
    requires
        0 <= k <= s.len(),
        forall|i: int| 0 <= i < k ==> is_digit(#[trigger] s[i]),
        k < s.len() ==> !is_digit(s[k]),
    ensures
        leading_digits(s) == k,
    decreases k,
{
    if k > 0 {
        let rest = s.skip(1);
        assert forall|i: int| 0 <= i < k - 1 implies is_digit(#[trigger] rest[i]) by {
            assert(rest[i] == s[i + 1]);
        }
        lemma_leading_digits(rest, k - 1);
    }
}

/// Counts the digits at the start of `bytes[from..]`.
fn count_digits(bytes: &[u8], from: usize) -> (end: usize)
    requires
        from <= bytes.len(),
    ensures
        from <= end <= bytes.len(),
        end - from == leading_digits(bytes@.skip(from as int)),
        all_digits(bytes@.subrange(from as int, end as int)),
        end < bytes.len() ==> !is_digit(bytes@[end as int]),
{
    let mut end: usize = from;
    while end < bytes.len() && bytes[end] >= 48 && bytes[end] <= 57
        invariant
            from <= end <= bytes.len(),
            forall|i: int| from <= i < end ==> is_digit(#[trigger] bytes@[i]),
        decreases bytes.len() - end,
    {
        end = end + 1;
    }
    proof {
        let rest = bytes@.skip(from as int);
        assert forall|i: int| 0 <= i < end - from implies is_digit(#[trigger] rest[i]) by {
            assert(rest[i] == bytes@[from + i]);
        }
        lemma_leading_digits(rest, end - from);
    }
    end
}

/// The value of the digits `bytes[from..to]`, or `cap + 1` if the value is
/// above `cap`.
fn value_up_to(bytes: &[u8], from: usize, to: usize, cap: u128) -> (v: u128)
    requires
        from <= to <= bytes.len(),
        all_digits(bytes@.subrange(from as int, to as int)),
        cap < 0x100_0000_0000_0000_0000_0000_0000_0000,
    ensures
        v == if digits_value(bytes@.subrange(from as int, to as int)) <= cap {
            digits_value(bytes@.subrange(from as int, to as int))
        } else {
            (cap + 1) as nat
        },
{
    let ghost digits = bytes@.subrange(from as int, to as int);
    let mut v: u128 = 0;
    let mut i: usize = from;
    assert(digits.take(0) =~= Seq::<u8>::empty());
    while i < to
        invariant
            from <= i <= to <= bytes.len(),
            digits == bytes@.subrange(from as int, to as int),
            all_digits(digits),
            cap < 0x100_0000_0000_0000_0000_0000_0000_0000,
            v == if digits_value(digits.take(i - from)) <= cap {
                digits_value(digits.take(i - from))
            } else {
                (cap + 1) as nat
            },
        decreases to - i,
    {
        proof {
            assert(digits[i - from] == bytes@[i as int]);
            assert(is_digit(digits[i - from]));
            assert(digits.take(i - from + 1).drop_last() =~= digits.take(i - from));
            assert(digits.take(i - from + 1).last() == bytes@[i as int]);
        }
        let d: u128 = (bytes[i] - 48) as u128;
        if v > cap {
            v = cap + 1;
        } else {
            let next: u128 = v * 10 + d;
            v = if next > cap {
                cap + 1
            } else {
                next
            };
        }
        i = i + 1;
    }
    assert(digits.take(to - from) =~= digits);
    v
}

/// The index that a text denotes: digits, after an optional `+`, whose value
/// is at least one and fits in 32 bits.
pub open spec fn index_value(s: Seq<u8>) -> Option<u32> {
    let digits = if s.len() > 0 && s[0] == 43 {
        s.skip(1)
    } else {
        s
    };
    if digits.len() > 0 && all_digits(digits) && 1 <= digits_value(digits) <= u32::MAX {
        Some(digits_value(digits) as u32)
    } else {
        None
    }
}

/// Reads an index.
pub fn parse_index(bytes: &[u8]) -> (r: Option<u32>)
    ensures
        r == index_value(bytes@),
{
    let from: usize = if bytes.len() > 0 && bytes[0] == 43 {
        1
    } else {
        0
    };
    let end: usize = count_digits(bytes, from);
    proof {
        assert(bytes@.skip(from as int) =~= bytes@.subrange(from as int, bytes@.len() as int));
        if from == 0 {
            assert(bytes@.skip(0) =~= bytes@);
        }
        if end < bytes.len() {
            let digits = bytes@.skip(from as int);
            assert(digits[end - from] == bytes@[end as int]);
        }
    }
    if end < bytes.len() || end == from {
        return None;
    }
    let v: u128 = value_up_to(bytes, from, end, 0xffff_ffff);
    if v == 0 || v > 0xffff_ffff {
        None
    } else {
        Some(v as u32)
    }
}

/// The value of one, in the units that `fixed_value` counts: numbers are
/// kept to six decimal places.
pub const UNIT: i64 = 1_000_000;

/// The number of decimal places that `fixed_value` keeps.
pub const PLACES: usize = 6;

/// Why a text is not a number that `fixed_value` can give.
#[derive(Clone, Copy, Debug, PartialEq, Eq, Structural)]
pub enum NumberError {
    /// The text is not an optional sign, one digit or more with an optional
    /// point among them, and an optional exponent part.
    Malformed,
    /// The number is above the limit in magnitude.
    TooLarge,
}

/// The first `places` digits of a text of digits as one number, a digit that
/// the text does not have counting as zero.
pub open spec fn padded_value(digits: Seq<u8>, places: nat) -> nat
    decreases places,
{
    if places == 0 {
        0
    } else {
        let digit = if places - 1 < digits.len() {
            digits[places - 1] - 48
        } else {
            0
        };
        (padded_value(digits, (places - 1) as nat) * 10 + digit) as nat
    }
}

/// More digits of a text give a number that is not smaller.
pub proof fn lemma_padded_grows(digits: Seq<u8>, j: nat, k: nat)
    requires
        all_digits(digits),
        j <= k,
    ensures
        padded_value(digits, j) <= padded_value(digits, k),
    decreases k,
{
    if j < k {
        lemma_padded_grows(digits, j, (k - 1) as nat);
        if k - 1 < digits.len() {
            assert(is_digit(digits[k - 1]));
        }
    }
}

/// Zeros after the last digit of a text that denotes zero leave it zero.
pub proof fn lemma_padded_zero_stays(digits: Seq<u8>, j: nat, k: nat)
    requires
        digits.len() <= j <= k,
        padded_value(digits, j) == 0,
    ensures
        padded_value(digits, k) == 0,
    decreases k,
{
    if j < k {
        lemma_padded_zero_stays(digits, j, (k - 1) as nat);
    }
}

/// The digits of the exponent part `tail` of a number, after its letter and
/// its sign.
pub open spec fn exponent_digits(tail: Seq<u8>) -> Seq<u8> {
    let signed = tail.skip(1);
    if signed.len() > 0 && (signed[0] == 45 || signed[0] == 43) {
        signed.skip(1)
    } else {
        signed
    }
}

/// Whether `tail` is empty or an exponent part: `e` or `E`, an optional
/// sign, and at least one digit.
pub open spec fn exponent_valid(tail: Seq<u8>) -> bool {
    tail.len() == 0 || ((tail[0] == 101 || tail[0] == 69) && exponent_digits(tail).len() > 0
        && all_digits(exponent_digits(tail)))
}

/// The power of ten that the exponent part `tail` denotes, zero if it is empty.
pub open spec fn exponent_value(tail: Seq<u8>) -> int {
    if tail.len() == 0 {
        0
    } else if tail.len() > 1 && tail[1] == 45 {
        -(digits_value(exponent_digits(tail)) as int)
    } else {
        digits_value(exponent_digits(tail)) as int
    }
}

/// The parts of the text of a number: whether it starts with a minus sign,
/// the digits before the point, the digits after it, and what follows them.
pub open spec fn number_parts(s: Seq<u8>) -> (bool, Seq<u8>, Seq<u8>, Seq<u8>) {
    let body = if s.len() > 0 && (s[0] == 45 || s[0] == 43) {
        s.skip(1)
    } else {
        s
    };
    let rest = body.skip(leading_digits(body) as int);
    let after_point = if rest.len() > 0 && rest[0] == 46 {
        rest.skip(1)
    } else {
        rest
    };
    (
        s.len() > 0 && s[0] == 45,
        body.take(leading_digits(body) as int),
        after_point.take(leading_digits(after_point) as int),
        after_point.skip(leading_digits(after_point) as int),
    )
}

/// The millionths in the number with the digits `whole` before the point
/// and `frac` after it, times ten to the power `exponent`, cut toward zero.
/// The millionths end after as many digits as there are in `whole`, and six
/// more, and `exponent` more.
pub open spec fn millionths(whole: Seq<u8>, frac: Seq<u8>, exponent: int) -> nat {
    if whole.len() + PLACES + exponent <= 0 {
        0
    } else {
        padded_value(whole + frac, (whole.len() + PLACES + exponent) as nat)
    }
}

/// The decimal number that a text denotes, in millionths, cut toward zero:
/// an optional sign, digits with an optional point among them, and an
/// optional exponent part. A number above `limit` millionths in magnitude
/// is too large.
pub open spec fn fixed_value(s: Seq<u8>, limit: int) -> Result<int, NumberError> {
    let (negative, whole, frac, tail) = number_parts(s);
    if whole.len() + frac.len() == 0 || !exponent_valid(tail) {
        Err(NumberError::Malformed)
    } else if millionths(whole, frac, exponent_value(tail)) > limit {
        Err(NumberError::TooLarge)
    } else if negative {
        Ok(-(millionths(whole, frac, exponent_value(tail)) as int))
    } else {
        Ok(millionths(whole, frac, exponent_value(tail)) as int)
    }
}

/// A number, or `cap + 1` if the number is above `cap`.
pub open spec fn capped(x: nat, cap: int) -> int {
    if x <= cap {
        x as int
    } else {
        cap + 1
    }
}

/// Largest exponent that is read in full; a larger one is read as one more.
pub const EXPONENT_CAP: u128 = 0x10_0000_0000_0000_0000_0000_0000;

/// Reads the exponent part `bytes[at..]`: whether it is valid, whether its
/// sign is minus, and its digits as a number up to `EXPONENT_CAP`.
fn parse_exponent(bytes: &[u8], at: usize) -> (r: (bool, bool, u128))
    requires
        at <= bytes.len(),
    ensures
        r.0 == exponent_valid(bytes@.skip(at as int)),
        r.0 ==> {
            let tail = bytes@.skip(at as int);
            &&& r.1 == (tail.len() > 1 && tail[1] == 45)
            &&& tail.len() == 0 ==> r.2 == 0
            &&& tail.len() > 0 ==> r.2 == capped(
                digits_value(exponent_digits(tail)),
                EXPONENT_CAP as int,
            )
        },
{
    let ghost tail = bytes@.skip(at as int);
    if at == bytes.len() {
        return (true, false, 0);
    }
    assert(tail[0] == bytes@[at as int]);
    if bytes[at] != 101 && bytes[at] != 69 {
        return (false, false, 0);
    }
    let negative: bool = at + 1 < bytes.len() && bytes[at + 1] == 45;
    let from: usize = if at + 1 < bytes.len() && (bytes[at + 1] == 45 || bytes[at + 1] == 43) {
        at + 2
    } else {
        at + 1
    };
    let end: usize = count_digits(bytes, from);
    proof {
        let signed = tail.skip(1);
        assert(signed =~= bytes@.skip(at + 1));
        if at + 1 < bytes.len() {
            assert(signed[0] == bytes@[at + 1]);
            assert(tail[1] == bytes@[at + 1]);
        }
        assert(exponent_digits(tail) =~= bytes@.skip(from as int));
        assert(bytes@.skip(from as int) =~= bytes@.subrange(from as int, bytes@.len() as int));
        if end < bytes.len() {
            assert(exponent_digits(tail)[end - from] == bytes@[end as int]);
        }
    }
    if end < bytes.len() || end == from {
        return (false, false, 0);
    }
    let e: u128 = value_up_to(bytes, from, end, EXPONENT_CAP);
    (true, negative, e)
}

/// The first `count` digits of the digits `bytes[from..whole_end]` followed
/// by the digits `bytes[frac_from..frac_end]`, as a number up to `cap`.
fn leading_value(
    bytes: &[u8],
    from: usize,
    whole_end: usize,
    frac_from: usize,
    frac_end: usize,
    count: u128,
    cap: u128,
) -> (v: u128)
    requires
        from <= whole_end <= frac_from <= frac_end <= bytes.len(),
        all_digits(bytes@.subrange(from as int, whole_end as int)),
        all_digits(bytes@.subrange(frac_from as int, frac_end as int)),
        count <= (whole_end - from) + (frac_end - frac_from),
        cap < 0x8000_0000_0000_0000,
    ensures
        v == capped(
            padded_value(
                bytes@.subrange(from as int, whole_end as int) + bytes@.subrange(
                    frac_from as int,
                    frac_end as int,
                ),
                count as nat,
            ),
            cap as int,
        ),
{
    let ghost whole = bytes@.subrange(from as int, whole_end as int);
    let ghost frac = bytes@.subrange(frac_from as int, frac_end as int);
    let ghost all = whole + frac;
    let whole_len: usize = whole_end - from;
    let mut v: u128 = 0;
    let mut j: usize = 0;
    while (j as u128) < count
        invariant
            from <= whole_end <= frac_from <= frac_end <= bytes.len(),
            whole == bytes@.subrange(from as int, whole_end as int),
            frac == bytes@.subrange(frac_from as int, frac_end as int),
            all == whole + frac,
            all_digits(whole),
            all_digits(frac),
            whole_len == whole_end - from,
            j <= count <= (whole_end - from) + (frac_end - frac_from),
            cap < 0x8000_0000_0000_0000,
            v == capped(padded_value(all, j as nat), cap as int),
        decreases count - j,
    {
        let at: usize = if j < whole_len {
            from + j
        } else {
            frac_from + (j - whole_len)
        };
        proof {
            if j < whole_len {
                assert(all[j as int] == whole[j as int]);
                assert(whole[j as int] == bytes@[at as int]);
                assert(is_digit(whole[j as int]));
            } else {
                assert(all[j as int] == frac[j - whole_len]);
                assert(frac[j - whole_len] == bytes@[at as int]);
                assert(is_digit(frac[j - whole_len]));
            }
        }
        let d: u128 = (bytes[at] - 48) as u128;
        if v > cap {
            v = cap + 1;
        } else {
            let next: u128 = v * 10 + d;
            v = if next > cap {
                cap + 1
            } else {
                next
            };
        }
        j = j + 1;
    }
    v
}

/// The number of all the digits of a text with `zeros` more places filled
/// with zeros, as a number up to `cap`. `v` is the number of the digits
/// alone. `zeros` is the count of the places to fill, or a count above `cap`
/// where there are more than that.
fn fill(v: u128, zeros: u128, cap: u128, Ghost(all): Ghost<Seq<u8>>, Ghost(places): Ghost<int>) -> (r:
    u128)
    requires
        all_digits(all),
        v == capped(padded_value(all, all.len()), cap as int),
        cap < 0x8000_0000_0000_0000,
        all.len() + zeros <= places,
        all.len() + zeros == places || zeros > cap,
    ensures
        r == capped(padded_value(all, places as nat), cap as int),
{
    let ghost n = all.len();
    if v == 0 {
        proof {
            lemma_padded_zero_stays(all, n, places as nat);
        }
        return 0;
    }
    if v > cap {
        proof {
            lemma_padded_grows(all, n, places as nat);
        }
        return cap + 1;
    }
    let mut v: u128 = v;
    let mut i: u128 = 0;
    while i < zeros && v <= cap
        invariant
            n == all.len(),
            i <= zeros,
            cap < 0x8000_0000_0000_0000,
            v == capped(padded_value(all, (n + i) as nat), cap as int),
            v >= i + 1,
        decreases zeros - i,
    {
        assert(padded_value(all, (n + i + 1) as nat) == padded_value(all, (n + i) as nat) * 10);
        let next: u128 = v * 10;
        v = if next > cap {
            cap + 1
        } else {
            next
        };
        i = i + 1;
    }
    proof {
        if v > cap {
            lemma_padded_grows(all, (n + i) as nat, places as nat);
        }
    }
    v
}

/// Finds the digits of a number: `(from, whole_end, frac_from, frac_end)`,
/// the digits before the point being `bytes[from..whole_end]` and those
/// after it `bytes[frac_from..frac_end]`.
fn scan_digits(bytes: &[u8]) -> (r: (usize, usize, usize, usize))
    ensures
        r.0 <= r.1 <= r.2 <= r.3 <= bytes.len(),
        number_parts(bytes@).1 == bytes@.subrange(r.0 as int, r.1 as int),
        number_parts(bytes@).2 == bytes@.subrange(r.2 as int, r.3 as int),
        number_parts(bytes@).3 == bytes@.skip(r.3 as int),
        all_digits(number_parts(bytes@).1),
        all_digits(number_parts(bytes@).2),
{
    let from: usize = if bytes.len() > 0 && (bytes[0] == 45 || bytes[0] == 43) {
        1
    } else {
        0
    };
    let ghost body = bytes@.skip(from as int);
    let whole_end: usize = count_digits(bytes, from);
    let ghost rest = body.skip(leading_digits(body) as int);
    proof {
        if from == 0 {
            assert(bytes@.skip(0) =~= bytes@);
        }
        assert(body.take(leading_digits(body) as int) =~= bytes@.subrange(
            from as int,
            whole_end as int,
        ));
        assert(rest =~= bytes@.skip(whole_end as int));
        if whole_end < bytes.len() {
            assert(rest[0] == bytes@[whole_end as int]);
        }
    }
    let frac_from: usize = if whole_end < bytes.len() && bytes[whole_end] == 46 {
        whole_end + 1
    } else {
        whole_end
    };
    let ghost after_point = bytes@.skip(frac_from as int);
    proof {
        if rest.len() > 0 && rest[0] == 46 {
            assert(rest.skip(1) =~= after_point);
        }
    }
    let frac_end: usize = count_digits(bytes, frac_from);
    proof {
        assert(after_point.take(leading_digits(after_point) as int) =~= bytes@.subrange(
            frac_from as int,
            frac_end as int,
        ));
        assert(after_point.skip(leading_digits(after_point) as int) =~= bytes@.skip(
            frac_end as int,
        ));
    }
    (from, whole_end, frac_from, frac_end)
}

/// The millionths in the number with the digits `bytes[from..whole_end]`
/// before the point and `bytes[frac_from..frac_end]` after it, as a number
/// up to `cap`. The exponent is `power`; `exponent` is its magnitude up to
/// `EXPONENT_CAP`, and `minus` its sign.
fn millionths_up_to(
    bytes: &[u8],
    from: usize,
    whole_end: usize,
    frac_from: usize,
    frac_end: usize,
    minus: bool,
    exponent: u128,
    cap: u128,
    Ghost(power): Ghost<int>,
) -> (v: u128)
    requires
        from <= whole_end <= frac_from <= frac_end <= bytes.len(),
        all_digits(bytes@.subrange(from as int, whole_end as int)),
        all_digits(bytes@.subrange(frac_from as int, frac_end as int)),
        cap < 0x8000_0000_0000_0000,
        minus ==> power <= 0,
        !minus ==> power >= 0,
        exponent == capped(
            (if minus {
                -power
            } else {
                power
            }) as nat,
            EXPONENT_CAP as int,
        ),
    ensures
        v == capped(
            millionths(
                bytes@.subrange(from as int, whole_end as int),
                bytes@.subrange(frac_from as int, frac_end as int),
                power,
            ),
            cap as int,
        ),
{
    let ghost whole = bytes@.subrange(from as int, whole_end as int);
    let ghost frac = bytes@.subrange(frac_from as int, frac_end as int);
    let ghost all = whole + frac;
    let ghost places = whole.len() + PLACES + power;
    let digits: u128 = (whole_end - from) as u128 + (frac_end - frac_from) as u128;
    let base: u128 = (whole_end - from) as u128 + PLACES as u128;
    if minus && exponent > base {
        return 0;
    }
    let count: u128 = if minus {
        base - exponent
    } else {
        base + exponent
    };
    if count == 0 {
        return 0;
    }
    if count <= digits {
        leading_value(bytes, from, whole_end, frac_from, frac_end, count, cap)
    } else {
        let v: u128 = leading_value(bytes, from, whole_end, frac_from, frac_end, digits, cap);
        fill(v, count - digits, cap, Ghost(all), Ghost(places))
    }
}

/// Reads a decimal number in millionths.
pub fn parse_fixed(bytes: &[u8], limit: i64) -> (r: Result<i64, NumberError>)
    requires
        0 <= limit,
    ensures
        match r {
            Ok(v) => fixed_value(bytes@, limit as int) == Ok::<int, NumberError>(v as int),
            Err(e) => fixed_value(bytes@, limit as int) == Err::<int, NumberError>(e),
        },
{
    let negative: bool = bytes.len() > 0 && bytes[0] == 45;
    let (from, whole_end, frac_from, frac_end) = scan_digits(bytes);
    let (valid, minus, exponent) = parse_exponent(bytes, frac_end);
    if (whole_end - from) as u128 + (frac_end - frac_from) as u128 == 0 || !valid {
        return Err(NumberError::Malformed);
    }
    let ghost power = exponent_value(bytes@.skip(frac_end as int));
    let magnitude: u128 = millionths_up_to(
        bytes,
        from,
        whole_end,
        frac_from,
        frac_end,
        minus,
        exponent,
        limit as u128,
        Ghost(power),
    );
    if magnitude > limit as u128 {
        return Err(NumberError::TooLarge);
    }
    if negative {
        Ok(-(magnitude as i64))
    } else {
        Ok(magnitude as i64)
    }
}

} // verus!
