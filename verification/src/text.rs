//! Decimal numbers as text: how they are written, how they are read back, and
//! the repetition of a numbered piece of text.
use vstd::prelude::*;
use vstd::string::*;

verus! {

/// The documentation of `String::push`: it appends the given character to the
/// end of the string.
pub assume_specification[ String::push ](string: &mut String, ch: char)
    ensures
        final(string)@ == old(string)@.push(ch),
;

/// The character that writes a number below ten.
pub open spec fn digit(d: nat) -> char {
    ('0' as nat + d) as char
}

pub open spec fn is_digit(c: char) -> bool {
    '0' <= c <= '9'
}

pub open spec fn all_digits(s: Seq<char>) -> bool {
    forall|i: int| 0 <= i < s.len() ==> is_digit(#[trigger] s[i])
}

/// The shortest decimal form of `n`.
pub open spec fn decimal(n: nat) -> Seq<char>
    decreases n,
{
    if n < 10 {
        seq![digit(n)]
    } else {
        decimal(n / 10).push(digit(n % 10))
    }
}

pub open spec fn zeros(n: nat) -> Seq<char> {
    Seq::new(n, |i: int| '0')
}

/// The decimal form of `n`, with zeros in front where it is shorter than `width`.
pub open spec fn padded(n: nat, width: nat) -> Seq<char> {
    if decimal(n).len() < width {
        zeros((width - decimal(n).len()) as nat) + decimal(n)
    } else {
        decimal(n)
    }
}

/// The decimal form of `n`, with a minus sign where `n` is negative.
pub open spec fn signed_decimal(n: int) -> Seq<char> {
    if n < 0 {
        seq!['-'] + decimal((-n) as nat)
    } else {
        decimal(n as nat)
    }
}

/// The number that a sequence of digits stands for.
pub open spec fn digits_value(s: Seq<char>) -> nat
    decreases s.len(),
{
    if s.len() == 0 {
        0
    } else {
        (digits_value(s.drop_last()) * 10 + (s.last() as nat - '0' as nat)) as nat
    }
}

/// What one or more digits stand for; nothing else is a number.
pub open spec fn digits_number(s: Seq<char>) -> Option<nat> {
    if s.len() > 0 && all_digits(s) {
        Some(digits_value(s))
    } else {
        None
    }
}

/// What an optional plus sign and one or more digits stand for.
pub open spec fn unsigned_number(s: Seq<char>) -> Option<nat> {
    if s.len() > 0 && s[0] == '+' {
        digits_number(s.skip(1))
    } else {
        digits_number(s)
    }
}

/// What an optional sign and one or more digits stand for.
pub open spec fn signed_number(s: Seq<char>) -> Option<int> {
    if s.len() > 0 && s[0] == '-' {
        match digits_number(s.skip(1)) {
            Some(n) => Some(-(n as int)),
            None => None,
        }
    } else {
        match unsigned_number(s) {
            Some(n) => Some(n as int),
            None => None,
        }
    }
}

/// `piece(0)`, `piece(1)` and so on up to `piece(n - 1)`, one behind the other.
pub open spec fn repeat(n: nat, piece: spec_fn(int) -> Seq<char>) -> Seq<char>
    decreases n,
{
    if n == 0 {
        seq![]
    } else {
        repeat((n - 1) as nat, piece) + piece(n - 1)
    }
}

/// `piece` stands somewhere in `text`.
pub open spec fn occurs(piece: Seq<char>, text: Seq<char>) -> bool {
    exists|before: Seq<char>, after: Seq<char>| text == #[trigger] (before + piece + after)
}

/// `text` begins with `prefix`.
pub open spec fn starts_with(text: Seq<char>, prefix: Seq<char>) -> bool {
    prefix.is_prefix_of(text)
}

/// The character that writes `d`.
fn digit_char(d: u8) -> (c: char)
    requires
        d < 10,
    ensures
        c == digit(d as nat),
{
    (48u8 + d) as char
}

/// Appends the decimal form of `n` to `out`.
pub fn push_decimal(out: &mut String, n: u64)
    ensures
        final(out)@ == old(out)@ + decimal(n as nat),
    decreases n,
{
    if n >= 10 {
        push_decimal(out, n / 10);
    }
    out.push(digit_char((n % 10) as u8));
    assert(out@ =~= old(out)@ + decimal(n as nat));
}

/// Appends the decimal form of `n` to `out`, with zeros in front where it is
/// shorter than `width`.
pub fn push_padded(out: &mut String, n: u64, width: usize)
    ensures
        final(out)@ == old(out)@ + padded(n as nat, width as nat),
    decreases n,
{
    if n >= 10 {
        let rest: usize = if width > 0 { width - 1 } else { 0 };
        push_padded(out, n / 10, rest);
        out.push(digit_char((n % 10) as u8));
        assert(out@ =~= old(out)@ + padded(n as nat, width as nat));
    } else {
        let mut written: usize = 0;
        while written + 1 < width
            invariant
                written < width || written == 0,
                out@ == old(out)@ + zeros(written as nat),
            decreases width - written,
        {
            out.push('0');
            written = written + 1;
            assert(out@ =~= old(out)@ + zeros(written as nat));
        }
        out.push(digit_char(n as u8));
        assert(out@ =~= old(out)@ + padded(n as nat, width as nat));
    }
}

/// Appends the decimal form of `n` to `out`, with its sign where it is negative.
pub fn push_signed(out: &mut String, n: i64)
    ensures
        final(out)@ == old(out)@ + signed_decimal(n as int),
{
    if n < 0 {
        out.push('-');
        push_decimal(out, (-(n as i128)) as u64);
        assert(out@ =~= old(out)@ + signed_decimal(n as int));
    } else {
        push_decimal(out, n as u64);
    }
}

/// The characters of `text`.
fn characters(text: &str) -> (chars: Vec<char>)
    ensures
        chars@ == text@,
{
    let mut chars: Vec<char> = Vec::new();
    for c in it: text.chars()
        invariant
            it.seq() == text@,
            chars@ == text@.take(it.index()),
    {
        assert(text@.take(it.index()).push(c) =~= text@.take(it.index() + 1));
        chars.push(c);
    }
    assert(text@.take(text@.len() as int) =~= text@);
    chars
}

/// Reads the digits of `chars` from `from` on, up to the number `limit`.
fn read_digits(chars: &Vec<char>, from: usize, limit: u128) -> (number: Option<u128>)
    requires
        from <= chars@.len(),
        limit <= u64::MAX,
    ensures
        number == match digits_number(chars@.skip(from as int)) {
            Some(n) if n <= limit => Some(n as u128),
            _ => None,
        },
{
    if from == chars.len() {
        return None;
    }
    let ghost digits = chars@.skip(from as int);
    let mut value: u128 = 0;
    let mut at: usize = from;
    while at < chars.len()
        invariant
            from <= at <= chars@.len(),
            from < chars@.len(),
            digits == chars@.skip(from as int),
            limit <= u64::MAX,
            value <= limit,
            all_digits(digits.take(at - from)),
            value == digits_value(digits.take(at - from)),
        decreases chars@.len() - at,
    {
        let c = chars[at];
        assert(digits[at - from] == c);
        if c < '0' || c > '9' {
            return None;
        }
        let ghost next = digits.take(at + 1 - from);
        assert(next.drop_last() =~= digits.take(at - from));
        value = value * 10 + (c as u128 - 48);
        if value > limit {
            proof {
                lemma_prefix_value(digits, at + 1 - from);
            }
            return None;
        }
        at = at + 1;
    }
    assert(digits.take(digits.len() as int) =~= digits);
    Some(value)
}

/// A longer sequence of digits stands for no smaller number.
proof fn lemma_prefix_value(s: Seq<char>, n: int)
    requires
        0 <= n <= s.len(),
    ensures
        all_digits(s) ==> digits_value(s.take(n)) <= digits_value(s),
    decreases s.len() - n,
{
    if n == s.len() {
        assert(s.take(n) =~= s);
    } else {
        lemma_prefix_value(s, n + 1);
        assert(s.take(n + 1).drop_last() =~= s.take(n));
        assert(all_digits(s) ==> is_digit(s[n]));
    }
}

/// Reads a number of type `usize`: an optional plus sign and one or more digits.
pub fn parse_usize(text: &str) -> (number: Option<usize>)
    ensures
        number == match unsigned_number(text@) {
            Some(n) if n <= usize::MAX => Some(n as usize),
            _ => None,
        },
{
    let chars = characters(text);
    let from: usize = if chars.len() > 0 && chars[0] == '+' { 1 } else { 0 };
    assert(chars@.skip(0) =~= chars@);
    match read_digits(&chars, from, usize::MAX as u128) {
        Some(n) => Some(n as usize),
        None => None,
    }
}

/// Reads a number of type `i64`: an optional sign and one or more digits.
pub fn parse_i64(text: &str) -> (number: Option<i64>)
    ensures
        number == match signed_number(text@) {
            Some(n) if i64::MIN <= n <= i64::MAX => Some(n as i64),
            _ => None,
        },
{
    let chars = characters(text);
    assert(chars@.skip(0) =~= chars@);
    if chars.len() > 0 && chars[0] == '-' {
        match read_digits(&chars, 1, 0x8000_0000_0000_0000) {
            Some(n) => Some((-(n as i128)) as i64),
            None => None,
        }
    } else {
        let from: usize = if chars.len() > 0 && chars[0] == '+' { 1 } else { 0 };
        match read_digits(&chars, from, 0x7fff_ffff_ffff_ffff) {
            Some(n) => Some(n as i64),
            None => None,
        }
    }
}

/// What `decimal` writes is one or more digits, which read as the number written.
pub proof fn law_decimal_reads_back(n: nat)
    ensures
        digits_number(decimal(n)) == Some(n),
        unsigned_number(decimal(n)) == Some(n),
    decreases n,
{
    if n >= 10 {
        law_decimal_reads_back(n / 10);
        assert(decimal(n).drop_last() =~= decimal(n / 10));
        assert(decimal(n)[0] == decimal(n / 10)[0]);
    } else {
        assert(decimal(n).drop_last() =~= Seq::empty());
        assert(digits_value(decimal(n).drop_last()) == 0);
    }
    assert(is_digit(decimal(n)[0]));
}

/// Zeros in front change neither the number nor its last digit.
pub proof fn law_padded_reads_back(n: nat, width: nat)
    ensures
        digits_number(padded(n, width)) == Some(n),
        padded(n, width).last() == digit(n % 10),
        padded(n, width).len() >= width,
{
    law_decimal_reads_back(n);
    if decimal(n).len() < width {
        let front = (width - decimal(n).len()) as nat;
        lemma_zeros_in_front(front, decimal(n));
    }
}

/// What `signed_decimal` writes reads as the number written.
pub proof fn law_signed_reads_back(n: int)
    ensures
        signed_number(signed_decimal(n)) == Some(n),
{
    if n < 0 {
        law_decimal_reads_back((-n) as nat);
        assert(signed_decimal(n).skip(1) =~= decimal((-n) as nat));
    } else {
        law_decimal_reads_back(n as nat);
        assert(is_digit(decimal(n as nat)[0]));
    }
}

proof fn lemma_zeros_in_front(front: nat, s: Seq<char>)
    requires
        all_digits(s),
    ensures
        all_digits(zeros(front) + s),
        digits_value(zeros(front) + s) == digits_value(s),
    decreases front + s.len(),
{
    let whole = zeros(front) + s;
    if s.len() > 0 {
        lemma_zeros_in_front(front, s.drop_last());
        assert(whole.drop_last() =~= zeros(front) + s.drop_last());
    } else if front > 0 {
        lemma_zeros_in_front((front - 1) as nat, s);
        assert(whole.drop_last() =~= zeros((front - 1) as nat) + s);
    }
}

/// A number below ten to the power of `width` is written with at most `width` digits.
pub proof fn lemma_decimal_len(n: nat, width: nat)
    requires
        width > 0,
        n < vstd::arithmetic::power::pow(10, width),
    ensures
        decimal(n).len() <= width,
    decreases width,
{
    reveal(vstd::arithmetic::power::pow);
    reveal_with_fuel(vstd::arithmetic::power::pow, 2);
    if n >= 10 {
        lemma_decimal_len(n / 10, (width - 1) as nat);
    }
}

/// Text that a digit cannot continue can be split from the digits before it in
/// one way only.
pub proof fn lemma_digits_split(a: Seq<char>, b: Seq<char>, c: Seq<char>, d: Seq<char>, mark: char)
    requires
        all_digits(a),
        all_digits(c),
        !is_digit(mark),
        a.push(mark) + b == c.push(mark) + d,
    ensures
        a == c,
        b == d,
{
    let left = a.push(mark) + b;
    let right = c.push(mark) + d;
    if a.len() < c.len() {
        assert(left[a.len() as int] == mark);
        assert(right[a.len() as int] == c[a.len() as int]);
    }
    if c.len() < a.len() {
        assert(right[c.len() as int] == mark);
        assert(left[c.len() as int] == a[c.len() as int]);
    }
    assert forall|i: int| 0 <= i < a.len() implies a[i] == c[i] by {
        assert(left[i] == a[i]);
        assert(right[i] == c[i]);
    }
    assert(a =~= c);
    assert(b =~= left.skip(a.len() as int + 1));
    assert(d =~= right.skip(c.len() as int + 1));
}

/// Every piece stands in the text that repeats it.
pub proof fn lemma_piece_occurs(n: nat, piece: spec_fn(int) -> Seq<char>, i: int)
    requires
        0 <= i < n,
    ensures
        occurs(piece(i), repeat(n, piece)),
    decreases n,
{
    if i == n - 1 {
        let before = repeat((n - 1) as nat, piece);
        assert(repeat(n, piece) =~= before + piece(i) + Seq::<char>::empty());
    } else {
        lemma_piece_occurs((n - 1) as nat, piece, i);
        lemma_occurs_within(
            piece(i),
            Seq::empty(),
            repeat((n - 1) as nat, piece),
            piece(n - 1),
        );
        assert(repeat(n, piece) =~= Seq::<char>::empty() + repeat((n - 1) as nat, piece) + piece(
            n - 1,
        ));
    }
}

/// What stands in a text stands in every longer text around it.
pub proof fn lemma_occurs_within(
    piece: Seq<char>,
    before: Seq<char>,
    text: Seq<char>,
    after: Seq<char>,
)
    requires
        occurs(piece, text),
    ensures
        occurs(piece, before + text + after),
{
    let (a, b): (Seq<char>, Seq<char>) = choose|a: Seq<char>, b: Seq<char>|
        text == #[trigger] (a + piece + b);
    assert(before + text + after =~= (before + a) + piece + (b + after));
}

/// Decimal notation: a number below ten is one digit, and a digit behind a number
/// makes ten times that number and the digit.
pub proof fn law_decimal_notation(n: nat, d: nat)
    requires
        d < 10,
    ensures
        decimal(d) == seq![(48 + d) as char],
        n > 0 ==> decimal(10 * n + d) == decimal(n).push((48 + d) as char),
{
    assert((10 * n + d) / 10 == n);
    assert((10 * n + d) % 10 == d);
}

/// A padded number is the number, with zeros in front up to the width and no
/// further, and never cut.
pub proof fn law_padded_fills_up(n: nat, width: nat)
    ensures
        padded(n, width).len() == if decimal(n).len() < width {
            width
        } else {
            decimal(n).len()
        },
        padded(n, width).skip(padded(n, width).len() - decimal(n).len()) == decimal(n),
        forall|i: int|
            0 <= i < padded(n, width).len() - decimal(n).len() ==> #[trigger] padded(n, width)[i]
                == '0',
{
    let front = padded(n, width).len() - decimal(n).len();
    assert(padded(n, width).skip(front) =~= decimal(n));
}

/// A negative number is a minus sign and the number without its sign; any other
/// number has none.
pub proof fn law_sign_in_front(n: nat)
    ensures
        signed_decimal(n as int) == decimal(n),
        n > 0 ==> signed_decimal(-(n as int)) == seq!['-'] + decimal(n),
{
}

proof fn lemma_digits_shape(s: Seq<char>) -> (front: nat)
    requires
        s.len() > 0,
        all_digits(s),
    ensures
        s == zeros(front) + decimal(digits_value(s)),
    decreases s.len(),
{
    let last = s.last();
    let d = (last as nat - 48) as nat;
    assert(is_digit(s[s.len() - 1]));
    assert((48 + d) as char == last);
    if s.len() == 1 {
        assert(digits_value(s.drop_last()) == 0);
        law_decimal_notation(0, d);
        assert(s =~= zeros(0) + decimal(d));
        0
    } else {
        let earlier = s.drop_last();
        assert forall|i: int| 0 <= i < earlier.len() implies is_digit(#[trigger] earlier[i]) by {
            assert(is_digit(s[i]));
        }
        let front = lemma_digits_shape(earlier);
        let n = digits_value(earlier);
        law_decimal_notation(n, d);
        if n > 0 {
            assert(s =~= earlier.push(last));
            assert((zeros(front) + decimal(n)).push(last) =~= zeros(front) + decimal(n).push(last));
            front
        } else {
            law_decimal_notation(0, 0);
            assert(earlier =~= zeros(front + 1));
            assert(s =~= zeros(front + 1) + decimal(d));
            front + 1
        }
    }
}

proof fn lemma_digits_number(s: Seq<char>, n: nat)
    ensures
        digits_number(s) == Some(n) <==> exists|front: Seq<char>|
            {
                &&& s == #[trigger] (front + decimal(n))
                &&& forall|i: int| 0 <= i < front.len() ==> #[trigger] front[i] == '0'
            },
{
    if digits_number(s) == Some(n) {
        let k = lemma_digits_shape(s);
        assert(s == zeros(k) + decimal(n));
    }
    if exists|front: Seq<char>|
        {
            &&& s == #[trigger] (front + decimal(n))
            &&& forall|i: int| 0 <= i < front.len() ==> #[trigger] front[i] == '0'
        } {
        let front = choose|front: Seq<char>|
            {
                &&& s == #[trigger] (front + decimal(n))
                &&& forall|i: int| 0 <= i < front.len() ==> #[trigger] front[i] == '0'
            };
        law_decimal_reads_back(n);
        assert(front =~= zeros(front.len()));
        lemma_zeros_in_front(front.len(), decimal(n));
    }
}

/// A text is an unsigned number exactly where it is the number's decimal form,
/// with any zeros in front of it, and a plus sign or none in front of these.
pub proof fn law_unsigned_numbers(s: Seq<char>, n: nat)
    ensures
        unsigned_number(s) == Some(n) <==> exists|front: Seq<char>|
            {
                &&& s == #[trigger] (front + decimal(n))
                &&& front.len() > 0 ==> front[0] == '+' || front[0] == '0'
                &&& forall|i: int| 0 < i < front.len() ==> #[trigger] front[i] == '0'
            },
{
    lemma_signed_front(s, n, '+');
    lemma_digits_number(s, n);
    law_decimal_reads_back(n);
    assert(is_digit(decimal(n)[0]));
    if s.len() > 0 && s[0] == '+' {
        if unsigned_number(s) == Some(n) {
            let front = choose|front: Seq<char>|
                {
                    &&& s == #[trigger] (front + decimal(n))
                    &&& front.len() > 0 && front[0] == '+'
                    &&& forall|i: int| 0 < i < front.len() ==> #[trigger] front[i] == '0'
                };
            assert(s == front + decimal(n));
        }
    } else if unsigned_number(s) == Some(n) {
        let front = choose|front: Seq<char>|
            {
                &&& s == #[trigger] (front + decimal(n))
                &&& forall|i: int| 0 <= i < front.len() ==> #[trigger] front[i] == '0'
            };
        assert(s == front + decimal(n));
    }
}

/// Behind a sign, a text is a number exactly where it is the decimal form with any
/// zeros in front of it.
proof fn lemma_signed_front(s: Seq<char>, n: nat, sign: char)
    requires
        !is_digit(sign),
    ensures
        s.len() > 0 && s[0] == sign && digits_number(s.skip(1)) == Some(n) <==> exists|
            front: Seq<char>,
        |
            {
                &&& s == #[trigger] (front + decimal(n))
                &&& front.len() > 0 && front[0] == sign
                &&& forall|i: int| 0 < i < front.len() ==> #[trigger] front[i] == '0'
            },
{
    let rest = s.skip(1);
    lemma_digits_number(rest, n);
    if s.len() > 0 && s[0] == sign && digits_number(rest) == Some(n) {
        let zeros = choose|front: Seq<char>|
            {
                &&& rest == #[trigger] (front + decimal(n))
                &&& forall|i: int| 0 <= i < front.len() ==> #[trigger] front[i] == '0'
            };
        let front = seq![sign] + zeros;
        assert(s =~= seq![sign] + rest);
        assert(seq![sign] + (zeros + decimal(n)) =~= front + decimal(n));
        assert forall|i: int| 0 < i < front.len() implies #[trigger] front[i] == '0' by {
            assert(front[i] == zeros[i - 1]);
        }
    }
    if exists|front: Seq<char>|
        {
            &&& s == #[trigger] (front + decimal(n))
            &&& front.len() > 0 && front[0] == sign
            &&& forall|i: int| 0 < i < front.len() ==> #[trigger] front[i] == '0'
        } {
        let front = choose|front: Seq<char>|
            {
                &&& s == #[trigger] (front + decimal(n))
                &&& front.len() > 0 && front[0] == sign
                &&& forall|i: int| 0 < i < front.len() ==> #[trigger] front[i] == '0'
            };
        let zeros = front.skip(1);
        assert forall|i: int| 0 <= i < zeros.len() implies #[trigger] zeros[i] == '0' by {
            assert(zeros[i] == front[i + 1]);
        }
        assert(rest =~= zeros + decimal(n));
    }
}

/// A text is a signed number exactly where it is the decimal form of the number
/// without its sign, with any zeros in front of it, and the sign in front of
/// these: a minus sign for a negative number, a plus sign or none for a positive
/// one, and either or none for zero.
pub proof fn law_signed_numbers(s: Seq<char>, n: nat)
    ensures
        signed_number(s) == Some(-(n as int)) && n > 0 <==> n > 0 && exists|front: Seq<char>|
            {
                &&& s == #[trigger] (front + decimal(n))
                &&& front.len() > 0 && front[0] == '-'
                &&& forall|i: int| 0 < i < front.len() ==> #[trigger] front[i] == '0'
            },
        signed_number(s) == Some(n as int) <==> exists|front: Seq<char>|
            {
                &&& s == #[trigger] (front + decimal(n))
                &&& front.len() > 0 ==> front[0] == '+' || front[0] == '0' || n == 0 && front[0]
                    == '-'
                &&& forall|i: int| 0 < i < front.len() ==> #[trigger] front[i] == '0'
            },
{
    law_unsigned_numbers(s, n);
    lemma_signed_front(s, n, '-');
    law_decimal_reads_back(n);
    assert(is_digit(decimal(n)[0]));
    if signed_number(s) == Some(n as int) {
        if s.len() > 0 && s[0] == '-' {
            assert(n == 0);
            let front = choose|front: Seq<char>|
                {
                    &&& s == #[trigger] (front + decimal(n))
                    &&& front.len() > 0 && front[0] == '-'
                    &&& forall|i: int| 0 < i < front.len() ==> #[trigger] front[i] == '0'
                };
            assert(s == front + decimal(n));
        } else {
            let front = choose|front: Seq<char>|
                {
                    &&& s == #[trigger] (front + decimal(n))
                    &&& front.len() > 0 ==> front[0] == '+' || front[0] == '0'
                    &&& forall|i: int| 0 < i < front.len() ==> #[trigger] front[i] == '0'
                };
            assert(s == front + decimal(n));
        }
    }
}

/// A repetition begins with nothing, and grows by the next piece at its end.
pub proof fn law_repeat_in_order(n: nat, piece: spec_fn(int) -> Seq<char>)
    ensures
        repeat(0, piece) == Seq::<char>::empty(),
        repeat(n + 1, piece) == repeat(n, piece) + piece(n as int),
{
}

}
