//! Decimal numbers in the report's export text: encoding a counter into
//! digits and reading it back.

use vstd::prelude::*;

verus! {

/// The digit character of a value below ten.
pub open spec fn digit_char(d: int) -> char {
    if d == 0 {
        '0'
    } else if d == 1 {
        '1'
    } else if d == 2 {
        '2'
    } else if d == 3 {
        '3'
    } else if d == 4 {
        '4'
    } else if d == 5 {
        '5'
    } else if d == 6 {
        '6'
    } else if d == 7 {
        '7'
    } else if d == 8 {
        '8'
    } else {
        '9'
    }
}

/// Whether a character is a decimal digit.
pub open spec fn is_digit(c: char) -> bool {
    ||| c == '0'
    ||| c == '1'
    ||| c == '2'
    ||| c == '3'
    ||| c == '4'
    ||| c == '5'
    ||| c == '6'
    ||| c == '7'
    ||| c == '8'
    ||| c == '9'
}

/// The value of a digit character.
pub open spec fn digit_val(c: char) -> int {
    if c == '0' {
        0
    } else if c == '1' {
        1
    } else if c == '2' {
        2
    } else if c == '3' {
        3
    } else if c == '4' {
        4
    } else if c == '5' {
        5
    } else if c == '6' {
        6
    } else if c == '7' {
        7
    } else if c == '8' {
        8
    } else {
        9
    }
}

/// The decimal writing of a nonnegative number, most significant digit
/// first, without leading zeros (a lone zero for zero itself).
pub open spec fn dec_of(n: int) -> Seq<char>
    recommends
        n >= 0,
    decreases n,
{
    if n < 10 {
        seq![digit_char(n)]
    } else {
        dec_of(n / 10).push(digit_char(n % 10))
    }
}

/// The number a digit string stands for.
pub open spec fn num_val(s: Seq<char>) -> int
    decreases s.len(),
{
    if s.len() == 0 {
        0
    } else {
        num_val(s.drop_last()) * 10 + digit_val(s.last())
    }
}

/// Whether every character of a sequence is a digit.
pub open spec fn all_digits(s: Seq<char>) -> bool {
    forall|i: int| 0 <= i < s.len() ==> is_digit(s[i])
}

/// Index of the first non-digit at or after `i`, or the length if the
/// digits run to the end.
pub open spec fn digits_end(s: Seq<char>, i: int) -> int
    recommends
        0 <= i <= s.len(),
    decreases s.len() - i,
{
    if i < 0 || i >= s.len() {
        s.len() as int
    } else if is_digit(s[i]) {
        digits_end(s, i + 1)
    } else {
        i
    }
}

/// A decimal writing is made of digits alone, at least one of them.
pub proof fn lemma_dec_digits(n: int)
    requires
        n >= 0,
    ensures
        dec_of(n).len() >= 1,
        all_digits(dec_of(n)),
    decreases n,
{
    if n >= 10 {
        lemma_dec_digits(n / 10);
        assert(forall|i: int|
            0 <= i < dec_of(n / 10).len() ==> dec_of(n)[i] == dec_of(n / 10)[i]);
    }
}

/// Reading back a decimal writing yields the written number.
pub proof fn lemma_num_val_dec(n: int)
    requires
        n >= 0,
    ensures
        num_val(dec_of(n)) == n,
    decreases n,
{
    if n < 10 {
        assert(dec_of(n).drop_last() =~= Seq::<char>::empty());
        assert(num_val(Seq::<char>::empty()) == 0);
        assert(dec_of(n).last() == digit_char(n));
        assert(digit_val(digit_char(n)) == n);
        assert(num_val(dec_of(n)) == n);
    } else {
        lemma_num_val_dec(n / 10);
        assert(dec_of(n).drop_last() =~= dec_of(n / 10));
        assert(dec_of(n).last() == digit_char(n % 10));
        assert(digit_val(digit_char(n % 10)) == n % 10);
        assert(num_val(dec_of(n)) == num_val(dec_of(n / 10)) * 10 + digit_val(
            digit_char(n % 10),
        ));
        vstd::arithmetic::div_mod::lemma_fundamental_div_mod(n, 10);
        assert(num_val(dec_of(n)) == n);
    }
}

/// A digit string stands for a nonnegative number.
pub proof fn lemma_num_val_nonneg(s: Seq<char>)
    requires
        all_digits(s),
    ensures
        num_val(s) >= 0,
    decreases s.len(),
{
    if s.len() > 0 {
        assert(forall|i: int| 0 <= i < s.len() - 1 ==> s.drop_last()[i] == s[i]);
        lemma_num_val_nonneg(s.drop_last());
    }
}

/// Reading more digits never shrinks the number read.
pub proof fn lemma_num_val_monotone(s: Seq<char>, j: int)
    requires
        all_digits(s),
        0 <= j <= s.len(),
    ensures
        num_val(s) >= num_val(s.take(j)),
    decreases s.len() - j,
{
    if j < s.len() {
        assert(s.take(j + 1).drop_last() =~= s.take(j));
        assert(forall|i: int| 0 <= i < j + 1 ==> s.take(j + 1)[i] == s[i]);
        assert(forall|i: int| 0 <= i < j ==> s.take(j)[i] == s[i]);
        lemma_num_val_nonneg(s.take(j));
        assert(num_val(s.take(j + 1)) == num_val(s.take(j)) * 10 + digit_val(s[j]));
        lemma_num_val_monotone(s, j + 1);
    } else {
        assert(s.take(j) =~= s);
    }
}

/// The digits run ends exactly where the digits do.
pub proof fn lemma_digits_end_at(s: Seq<char>, i: int, k: int)
    requires
        0 <= i <= k <= s.len(),
        forall|j: int| i <= j < k ==> is_digit(s[j]),
        k == s.len() || !is_digit(s[k]),
    ensures
        digits_end(s, i) == k,
    decreases k - i,
{
    if i < k {
        lemma_digits_end_at(s, i + 1, k);
    }
}

/// Basic shape of the digits run: it starts at `i`, stays in bounds, is
/// all digits, and stops at the end or at a non-digit.
pub proof fn lemma_digits_end_props(s: Seq<char>, i: int)
    requires
        0 <= i <= s.len(),
    ensures
        i <= digits_end(s, i) <= s.len(),
        forall|j: int| i <= j < digits_end(s, i) ==> is_digit(s[j]),
        digits_end(s, i) == s.len() || !is_digit(s[digits_end(s, i)]),
    decreases s.len() - i,
{
    if i < s.len() && is_digit(s[i]) {
        lemma_digits_end_props(s, i + 1);
    }
}

/// The digit character of a value below ten, as text.
fn digit_str(d: u64) -> (r: &'static str)
    requires
        d < 10,
    ensures
        r@ == seq![digit_char(d as int)],
{
    proof {
        reveal_strlit("0");
        reveal_strlit("1");
        reveal_strlit("2");
        reveal_strlit("3");
        reveal_strlit("4");
        reveal_strlit("5");
        reveal_strlit("6");
        reveal_strlit("7");
        reveal_strlit("8");
        reveal_strlit("9");
    }
    match d {
        0 => "0",
        1 => "1",
        2 => "2",
        3 => "3",
        4 => "4",
        5 => "5",
        6 => "6",
        7 => "7",
        8 => "8",
        _ => "9",
    }
}

/// Write a counter as decimal text.
pub fn encode_u64(n: u64) -> (s: String)
    ensures
        s@ == dec_of(n as int),
    decreases n,
{
    if n < 10 {
        digit_str(n).to_owned()
    } else {
        let mut s = encode_u64(n / 10);
        s.append(digit_str(n % 10));
        proof {
            assert(s@ =~= dec_of(n as int));
        }
        s
    }
}

fn digit_of(c: char) -> (r: Option<u64>)
    ensures
        r is Some <==> is_digit(c),
        r is Some ==> r->0 == digit_val(c) && r->0 < 10,
{
    match c {
        '0' => Some(0),
        '1' => Some(1),
        '2' => Some(2),
        '3' => Some(3),
        '4' => Some(4),
        '5' => Some(5),
        '6' => Some(6),
        '7' => Some(7),
        '8' => Some(8),
        '9' => Some(9),
        _ => None,
    }
}

/// Read the decimal number starting at `pos`: its value and the position
/// after its last digit. Nothing is read where no digit stands at `pos`
/// or where the digits outgrow a `u64`.
pub fn parse_num_at(s: &str, pos: usize) -> (r: Option<(u64, usize)>)
    requires
        pos <= s@.len(),
    ensures
        (match r {
            Option::Some(ve) => {
                &&& ve.1 == digits_end(s@, pos as int)
                &&& pos < ve.1 <= s@.len()
                &&& ve.0 == num_val(s@.subrange(pos as int, ve.1 as int))
            },
            Option::None => {
                ||| pos == s@.len()
                ||| !is_digit(s@[pos as int])
                ||| num_val(s@.subrange(pos as int, digits_end(s@, pos as int))) > u64::MAX
            },
        }),
{
    let n = s.unicode_len();
    let ghost end = digits_end(s@, pos as int);
    proof {
        lemma_digits_end_props(s@, pos as int);
    }
    let mut i: usize = pos;
    let mut acc: u64 = 0;
    while i < n && digit_of(s.get_char(i)).is_some()
        invariant
            pos <= i <= n == s@.len(),
            end == digits_end(s@, pos as int),
            pos <= end <= n,
            forall|j: int| pos <= j < end ==> is_digit(s@[j]),
            end == s@.len() || !is_digit(s@[end]),
            i <= end,
            acc == num_val(s@.subrange(pos as int, i as int)),
        decreases n - i,
    {
        let d = match digit_of(s.get_char(i)) {
            Some(d) => d,
            None => 0,
        };
        proof {
            lemma_digits_end_at(s@, i as int, end);
            assert(i < end);
            assert(s@.subrange(pos as int, i as int + 1).drop_last() =~= s@.subrange(
                pos as int,
                i as int,
            ));
        }
        if acc > (u64::MAX - d) / 10 {
            proof {
                let t = s@.subrange(pos as int, end);
                assert(forall|j: int| 0 <= j < t.len() ==> t[j] == s@[pos + j]);
                assert(all_digits(t));
                assert(t.take(i - pos + 1) =~= s@.subrange(pos as int, i as int + 1));
                assert(num_val(t.take(i - pos + 1)) == acc * 10 + digit_val(s@[i as int]));
                assert(acc * 10 + d > u64::MAX) by (nonlinear_arith)
                    requires
                        acc > (0xFFFF_FFFF_FFFF_FFFFu64 - d) / 10,
                        acc >= 0,
                        0 <= d < 10,
                ;
                lemma_num_val_monotone(t, i - pos + 1);
                assert(num_val(t) > u64::MAX);
            }
            return None;
        }
        proof {
            assert(acc * 10 + d <= 0xFFFF_FFFF_FFFF_FFFFu64) by (nonlinear_arith)
                requires
                    acc <= (0xFFFF_FFFF_FFFF_FFFFu64 - d) / 10,
                    acc >= 0,
                    0 <= d < 10,
            ;
        }
        acc = acc * 10 + d;
        i = i + 1;
    }
    proof {
        lemma_digits_end_at(s@, i as int, i as int);
        if i < n && !is_digit(s@[i as int]) {
            lemma_digits_end_at(s@, pos as int, i as int);
        } else if i == n {
            lemma_digits_end_at(s@, pos as int, i as int);
        }
        assert(end == i);
    }
    if i == pos {
        return None;
    }
    Some((acc, i))
}

} // verus!
