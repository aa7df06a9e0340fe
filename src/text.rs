use crate::error::Error;
use vstd::prelude::*;

verus! {

/// The separator between the fields of a command in its text form.
pub const FIELD_SEPARATOR: char = '|';

pub open spec fn is_digit(c: char) -> bool {
    c == '0' || c == '1' || c == '2' || c == '3' || c == '4' || c == '5' || c == '6' || c == '7'
        || c == '8' || c == '9'
}

pub open spec fn digit_value(c: char) -> nat {
    if c == '1' {
        1
    } else if c == '2' {
        2
    } else if c == '3' {
        3
    } else if c == '4' {
        4
    } else if c == '5' {
        5
    } else if c == '6' {
        6
    } else if c == '7' {
        7
    } else if c == '8' {
        8
    } else if c == '9' {
        9
    } else {
        0
    }
}

pub open spec fn digit_char(d: nat) -> char {
    if d == 1 {
        '1'
    } else if d == 2 {
        '2'
    } else if d == 3 {
        '3'
    } else if d == 4 {
        '4'
    } else if d == 5 {
        '5'
    } else if d == 6 {
        '6'
    } else if d == 7 {
        '7'
    } else if d == 8 {
        '8'
    } else if d == 9 {
        '9'
    } else {
        '0'
    }
}

/// The decimal digits of `n`, most significant first, without leading zeros.
pub open spec fn decimal(n: nat) -> Seq<char>
    decreases n,
{
    if n < 10 {
        seq![digit_char(n)]
    } else {
        decimal(n / 10).push(digit_char(n % 10))
    }
}

pub open spec fn all_digits(s: Seq<char>) -> bool {
    forall|i: int| 0 <= i < s.len() ==> #[trigger] is_digit(s[i])
}

/// The value of a non-empty run of decimal digits (leading zeros allowed).
pub open spec fn digits_value(s: Seq<char>) -> nat
    decreases s.len(),
{
    if s.len() == 0 {
        0
    } else {
        digits_value(s.drop_last()) * 10 + digit_value(s.last())
    }
}

/// The unsigned number a text field denotes, as std's integer parsing reads it:
/// an optional `+`, then one or more decimal digits.
pub open spec fn parse_unsigned(s: Seq<char>) -> Option<nat> {
    let digits = if s.len() > 0 && s[0] == '+' {
        s.drop_first()
    } else {
        s
    };
    if digits.len() > 0 && all_digits(digits) {
        Some(digits_value(digits))
    } else {
        None
    }
}

/// The fields of `s` between separators; always at least one.
pub open spec fn split_fields(s: Seq<char>) -> Seq<Seq<char>>
    decreases s.len(),
{
    if s.len() == 0 {
        seq![Seq::<char>::empty()]
    } else {
        let prev = split_fields(s.drop_last());
        if s.last() == FIELD_SEPARATOR {
            prev.push(Seq::<char>::empty())
        } else {
            prev.update(prev.len() - 1, prev.last().push(s.last()))
        }
    }
}

/// The fields written one after another with a separator between each two.
pub open spec fn join_fields(fields: Seq<Seq<char>>) -> Seq<char>
    decreases fields.len(),
{
    if fields.len() <= 1 {
        if fields.len() == 1 {
            fields[0]
        } else {
            Seq::<char>::empty()
        }
    } else {
        join_fields(fields.drop_last()).push(FIELD_SEPARATOR) + fields.last()
    }
}

pub open spec fn free_of_separator(s: Seq<char>) -> bool {
    forall|i: int| 0 <= i < s.len() ==> s[i] != FIELD_SEPARATOR
}

pub proof fn lemma_digit_round_trip(d: nat)
    requires
        d < 10,
    ensures
        is_digit(digit_char(d)),
        digit_value(digit_char(d)) == d,
{
}

pub proof fn lemma_decimal_digits(n: nat)
    ensures
        decimal(n).len() > 0,
        all_digits(decimal(n)),
        free_of_separator(decimal(n)),
        decimal(n)[0] != '+',
        digits_value(decimal(n)) == n,
    decreases n,
{
    if n < 10 {
        lemma_digit_round_trip(n);
        assert(decimal(n).drop_last() =~= Seq::<char>::empty());
        assert(digits_value(Seq::<char>::empty()) == 0);
    } else {
        lemma_decimal_digits(n / 10);
        lemma_digit_round_trip(n % 10);
        let d = decimal(n);
        assert(d.drop_last() =~= decimal(n / 10));
        assert forall|i: int| 0 <= i < d.len() implies #[trigger] is_digit(d[i]) by {
            if i < d.len() - 1 {
                assert(d[i] == decimal(n / 10)[i]);
            }
        }
        assert(d[0] == decimal(n / 10)[0]);
        assert(d.last() == digit_char(n % 10));
        assert(n == (n / 10) * 10 + n % 10);
    }
}

/// Reading back the decimal form of a number gives the number.
pub proof fn lemma_parse_decimal(n: nat)
    ensures
        parse_unsigned(decimal(n)) == Some(n),
{
    lemma_decimal_digits(n);
}

/// Adding digits to the end of a digit run never makes its value smaller.
pub proof fn lemma_digits_value_grows(s: Seq<char>, k: int)
    requires
        0 <= k <= s.len(),
    ensures
        digits_value(s.take(k)) <= digits_value(s),
    decreases s.len() - k,
{
    if k < s.len() {
        lemma_digits_value_grows(s, k + 1);
        assert(s.take(k + 1).drop_last() =~= s.take(k));
    } else {
        assert(s.take(k) =~= s);
    }
}

pub proof fn lemma_split_fields_nonempty(s: Seq<char>)
    ensures
        split_fields(s).len() >= 1,
    decreases s.len(),
{
    if s.len() > 0 {
        lemma_split_fields_nonempty(s.drop_last());
    }
}

/// Splitting `a + b`, where `b` holds no separator, extends the last field of `a`'s split by `b`.
pub proof fn lemma_split_append_plain(a: Seq<char>, b: Seq<char>)
    requires
        free_of_separator(b),
    ensures
        split_fields(a + b) == ({
            let fa = split_fields(a);
            fa.update(fa.len() - 1, fa.last() + b)
        }),
    decreases b.len(),
{
    lemma_split_fields_nonempty(a);
    let fa = split_fields(a);
    if b.len() == 0 {
        assert(a + b =~= a);
        assert(fa.last() + b =~= fa.last());
        assert(fa.update(fa.len() - 1, fa.last() + b) =~= fa);
    } else {
        let b0 = b.drop_last();
        assert(free_of_separator(b0));
        lemma_split_append_plain(a, b0);
        assert((a + b).drop_last() =~= a + b0);
        assert((a + b).last() == b.last());
        let prev = fa.update(fa.len() - 1, fa.last() + b0);
        assert((fa.last() + b0).push(b.last()) =~= fa.last() + b);
        assert(prev.update(prev.len() - 1, prev.last().push(b.last())) =~= fa.update(
            fa.len() - 1,
            fa.last() + b,
        ));
    }
}

/// Splitting the joined form of separator-free fields gives the fields back.
pub proof fn lemma_split_join(fields: Seq<Seq<char>>)
    requires
        fields.len() >= 1,
        forall|i: int| 0 <= i < fields.len() ==> free_of_separator(#[trigger] fields[i]),
    ensures
        split_fields(join_fields(fields)) == fields,
    decreases fields.len(),
{
    if fields.len() == 1 {
        lemma_split_append_plain(Seq::<char>::empty(), fields[0]);
        assert(Seq::<char>::empty() + fields[0] =~= fields[0]);
        assert(split_fields(Seq::<char>::empty()) == seq![Seq::<char>::empty()]);
        assert(Seq::<char>::empty() + fields[0] =~= fields[0]);
        assert(seq![Seq::<char>::empty()].update(0, Seq::<char>::empty() + fields[0]) =~= fields);
    } else {
        let init = fields.drop_last();
        assert forall|i: int| 0 <= i < init.len() implies free_of_separator(#[trigger] init[i]) by {
            assert(init[i] == fields[i]);
        }
        lemma_split_join(init);
        let a = join_fields(init).push(FIELD_SEPARATOR);
        assert(a.drop_last() =~= join_fields(init));
        let fa = split_fields(a);
        assert(fa == init.push(Seq::<char>::empty()));
        lemma_split_append_plain(a, fields.last());
        assert(Seq::<char>::empty() + fields.last() =~= fields.last());
        assert(fa.update(fa.len() - 1, fa.last() + fields.last()) =~= fields);
    }
}

pub open spec fn field_views(fields: Seq<Vec<char>>) -> Seq<Seq<char>> {
    fields.map_values(|f: Vec<char>| f@)
}

/// The characters of `s`, one by one.
pub fn chars_of(s: &str) -> (r: Vec<char>)
    ensures
        r@ == s@,
{
    let n = s.unicode_len();
    let mut out: Vec<char> = Vec::new();
    let mut i: usize = 0;
    while i < n
        invariant
            n == s@.len(),
            i <= n,
            out@ == s@.take(i as int),
        decreases n - i,
    {
        out.push(s.get_char(i));
        i = i + 1;
        assert(out@ =~= s@.take(i as int));
    }
    assert(out@ =~= s@);
    out
}

/// Whether a field holds exactly the characters of `word`.
pub fn field_is(field: &Vec<char>, word: &str) -> (r: bool)
    ensures
        r == (field@ == word@),
{
    let n = word.unicode_len();
    if n != field.len() {
        return false;
    }
    let mut i: usize = 0;
    while i < n
        invariant
            n == word@.len(),
            n == field@.len(),
            i <= n,
            field@.take(i as int) == word@.take(i as int),
        decreases n - i,
    {
        if field[i] != word.get_char(i) {
            return false;
        }
        i = i + 1;
        assert(field@.take(i as int) =~= word@.take(i as int));
    }
    assert(field@ =~= field@.take(n as int));
    assert(word@ =~= word@.take(n as int));
    true
}

/// Splits a text command into its fields.
pub fn split_text(s: &Vec<char>) -> (r: Vec<Vec<char>>)
    ensures
        field_views(r@) == split_fields(s@),
{
    let mut fields: Vec<Vec<char>> = Vec::new();
    let mut current: Vec<char> = Vec::new();
    let mut i: usize = 0;
    while i < s.len()
        invariant
            i <= s.len(),
            field_views(fields@).push(current@) == split_fields(s@.take(i as int)),
        decreases s.len() - i,
    {
        let c = s[i];
        let ghost before = field_views(fields@).push(current@);
        let ghost old_fields = field_views(fields@);
        let ghost cur = current@;
        assert(s@.take(i + 1).drop_last() =~= s@.take(i as int));
        if c == FIELD_SEPARATOR {
            fields.push(current);
            current = Vec::new();
            assert(field_views(fields@) =~= old_fields.push(cur));
            assert(field_views(fields@).push(current@) =~= before.push(Seq::<char>::empty()));
        } else {
            current.push(c);
            assert(field_views(fields@).push(current@) =~= before.update(
                before.len() - 1,
                before.last().push(c),
            ));
        }
        i = i + 1;
    }
    assert(s@.take(s.len() as int) =~= s@);
    let ghost old_fields = field_views(fields@);
    let ghost cur = current@;
    fields.push(current);
    assert(field_views(fields@) =~= old_fields.push(cur));
    fields
}

/// Reads an unsigned number of at most `max` from a text field.
pub fn parse_unsigned_field(s: &Vec<char>, max: u64) -> (r: Option<u64>)
    ensures
        r.is_some() <==> (parse_unsigned(s@).is_some() && parse_unsigned(s@).unwrap() <= max),
        r.is_some() ==> r.unwrap() == parse_unsigned(s@).unwrap(),
{
    let start: usize = if s.len() > 0 && s[0] == '+' {
        1
    } else {
        0
    };
    let ghost digits = if s@.len() > 0 && s@[0] == '+' {
        s@.drop_first()
    } else {
        s@
    };
    assert(digits =~= s@.subrange(start as int, s@.len() as int));
    assert(parse_unsigned(s@) == if digits.len() > 0 && all_digits(digits) {
        Some(digits_value(digits))
    } else {
        None
    });
    if start >= s.len() {
        return None;
    }
    let mut value: u64 = 0;
    let mut i: usize = start;
    while i < s.len()
        invariant
            start <= i <= s.len(),
            start < s.len(),
            digits == s@.subrange(start as int, s@.len() as int),
            parse_unsigned(s@) == if digits.len() > 0 && all_digits(digits) {
                Some(digits_value(digits))
            } else {
                None
            },
            value <= max,
            value == digits_value(digits.take(i - start)),
            all_digits(digits.take(i - start)),
        decreases s.len() - i,
    {
        let c = s[i];
        let ghost k = i - start;
        assert(digits.take(k + 1).drop_last() =~= digits.take(k));
        assert(digits[k] == c);
        let d: u64 = if c == '0' {
            0
        } else if c == '1' {
            1
        } else if c == '2' {
            2
        } else if c == '3' {
            3
        } else if c == '4' {
            4
        } else if c == '5' {
            5
        } else if c == '6' {
            6
        } else if c == '7' {
            7
        } else if c == '8' {
            8
        } else if c == '9' {
            9
        } else {
            assert(!is_digit(digits[k]));
            assert(!all_digits(digits));
            assert(parse_unsigned(s@).is_none());
            return None;
        };
        assert(d == digit_value(c));
        if d > max || value > (max - d) / 10 {
            proof {
                assert(value * 10 + d > max) by (nonlinear_arith)
                    requires
                        d > max || value > (max - d) / 10,
                ;
                assert(digits_value(digits.take(k + 1)) == value * 10 + d);
                if all_digits(digits) {
                    lemma_digits_value_grows(digits, k + 1);
                }
            }
            return None;
        }
        assert(value * 10 + d <= max) by (nonlinear_arith)
            requires
                value <= (max - d) / 10,
                d <= 9,
                d <= max,
        ;
        value = value * 10 + d;
        i = i + 1;
        assert forall|j: int| 0 <= j < digits.take(k + 1).len() implies #[trigger] is_digit(
            digits.take(k + 1)[j],
        ) by {
            if j < k {
                assert(digits.take(k + 1)[j] == digits.take(k)[j]);
            }
        }
    }
    assert(digits.take(s.len() - start) =~= digits);
    Some(value)
}

/// What std's `u32` parsing gives for a text field, with its error mapped as the broker maps it.
pub open spec fn u32_field(s: Seq<char>) -> Result<u32, Error> {
    match parse_unsigned(s) {
        Some(v) => if v <= u32::MAX {
            Ok(v as u32)
        } else {
            Err(Error::CannotParseInt)
        },
        None => Err(Error::CannotParseInt),
    }
}

/// What std's `u64` parsing gives for a text field, with its error mapped as the broker maps it.
pub open spec fn u64_field(s: Seq<char>) -> Result<u64, Error> {
    match parse_unsigned(s) {
        Some(v) => if v <= u64::MAX {
            Ok(v as u64)
        } else {
            Err(Error::CannotParseInt)
        },
        None => Err(Error::CannotParseInt),
    }
}

pub fn parse_u32_field(s: &Vec<char>) -> (r: Result<u32, Error>)
    ensures
        r == u32_field(s@),
{
    match parse_unsigned_field(s, u32::MAX as u64) {
        Some(v) => Ok(v as u32),
        None => Err(Error::CannotParseInt),
    }
}

pub fn parse_u64_field(s: &Vec<char>) -> (r: Result<u64, Error>)
    ensures
        r == u64_field(s@),
{
    match parse_unsigned_field(s, u64::MAX) {
        Some(v) => Ok(v),
        None => Err(Error::CannotParseInt),
    }
}

/// A number written in decimal reads back as itself.
pub proof fn lemma_field_round_trip(n: u64)
    ensures
        u64_field(decimal(n as nat)) == Ok::<u64, Error>(n),
        n <= u32::MAX ==> u32_field(decimal(n as nat)) == Ok::<u32, Error>(n as u32),
        free_of_separator(decimal(n as nat)),
{
    lemma_parse_decimal(n as nat);
    lemma_decimal_digits(n as nat);
}

/// The one-character string holding the digit `d`.
fn digit_str(d: u64) -> (r: &'static str)
    requires
        d < 10,
    ensures
        r@ == seq![digit_char(d as nat)],
{
    proof {
        reveal_strlit("0");
        reveal_strlit("1");
        reveal_strlit("2");
        reveal_strlit("3");
        reveal_strlit("4");
        reveal_strlit("5");
        reveal_strlit("6");
        reveal_strlit("7");
        reveal_strlit("8");
        reveal_strlit("9");
    }
    if d == 0 {
        "0"
    } else if d == 1 {
        "1"
    } else if d == 2 {
        "2"
    } else if d == 3 {
        "3"
    } else if d == 4 {
        "4"
    } else if d == 5 {
        "5"
    } else if d == 6 {
        "6"
    } else if d == 7 {
        "7"
    } else if d == 8 {
        "8"
    } else {
        "9"
    }
}

/// Appends the decimal form of `n`.
pub fn push_decimal(out: &mut String, n: u64)
    ensures
        final(out)@ == old(out)@ + decimal(n as nat),
    decreases n,
{
    if n >= 10 {
        push_decimal(out, n / 10);
    }
    out.append(digit_str(n % 10));
    assert(old(out)@ + decimal(n as nat) =~= if n >= 10 {
        old(out)@ + decimal((n / 10) as nat) + seq![digit_char((n % 10) as nat)]
    } else {
        old(out)@ + seq![digit_char((n % 10) as nat)]
    });
}

/// Appends a field separator.
pub fn push_separator(out: &mut String)
    ensures
        final(out)@ == old(out)@.push(FIELD_SEPARATOR),
{
    proof {
        reveal_strlit("|");
    }
    out.append("|");
    assert(old(out)@ + "|"@ =~= old(out)@.push(FIELD_SEPARATOR));
}

} // verus!
