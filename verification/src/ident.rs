//! Participant identifiers: the decimal text of a counter value.
//!
//! A session numbers its participants with a counter and hands each the
//! decimal rendering of its number. Different numbers render differently, so
//! an identifier is never handed out twice while the counter only grows. The
//! [`Counter`] keeps its number as decimal digits, so it never reaches an end.

use vstd::prelude::*;
use vstd::string::StringExecFns;

verus! {

/// The character that stands for a single decimal digit.
pub open spec fn digit_char(d: nat) -> char {
    if d == 0 {
        '0'
    } else if d == 1 {
        '1'
    } else if d == 2 {
        '2'
    } else if d == 3 {
        '3'
    } else if d == 4 {
        '4'
    } else if d == 5 {
        '5'
    } else if d == 6 {
        '6'
    } else if d == 7 {
        '7'
    } else if d == 8 {
        '8'
    } else {
        '9'
    }
}

/// The digit that a character stands for; 0 for any other character.
pub open spec fn digit_value(c: char) -> nat {
    if c == '1' {
        1
    } else if c == '2' {
        2
    } else if c == '3' {
        3
    } else if c == '4' {
        4
    } else if c == '5' {
        5
    } else if c == '6' {
        6
    } else if c == '7' {
        7
    } else if c == '8' {
        8
    } else if c == '9' {
        9
    } else {
        0
    }
}

/// The decimal rendering of a number: no sign, no leading zero, "0" for zero.
pub open spec fn decimal(n: nat) -> Seq<char>
    decreases n,
{
    if n < 10 {
        seq![digit_char(n)]
    } else {
        decimal(n / 10).push(digit_char(n % 10))
    }
}

/// The number that a string of digits denotes, read from the left.
pub open spec fn decimal_value(s: Seq<char>) -> nat
    decreases s.len(),
{
    if s.len() == 0 {
        0
    } else {
        decimal_value(s.drop_last()) * 10 + digit_value(s.last())
    }
}

/// Reading a rendering gives the number back.
pub proof fn lemma_decimal_value(n: nat)
    ensures
        decimal_value(decimal(n)) == n,
        decimal(n).len() >= 1,
    decreases n,
{
    if n < 10 {
        let s = decimal(n);
        assert(s.drop_last() =~= Seq::<char>::empty());
        assert(decimal_value(s.drop_last()) == 0);
        assert(s.last() == digit_char(n));
    } else {
        lemma_decimal_value(n / 10);
        let s = decimal(n);
        assert(s.drop_last() =~= decimal(n / 10));
        assert(s.last() == digit_char(n % 10));
    }
}

/// Two numbers with the same rendering are the same number.
pub proof fn lemma_decimal_injective(a: nat, b: nat)
    requires
        decimal(a) == decimal(b),
    ensures
        a == b,
{
    lemma_decimal_value(a);
    lemma_decimal_value(b);
}

/// The text of one decimal digit.
fn digit_str(d: u64) -> (s: &'static str)
    requires
        d < 10,
    ensures
        s@ == seq![digit_char(d as nat)],
{
    proof {
        reveal_strlit("0");
        reveal_strlit("1");
        reveal_strlit("2");
        reveal_strlit("3");
        reveal_strlit("4");
        reveal_strlit("5");
        reveal_strlit("6");
        reveal_strlit("7");
        reveal_strlit("8");
        reveal_strlit("9");
    }
    let s = if d == 0 {
        "0"
    } else if d == 1 {
        "1"
    } else if d == 2 {
        "2"
    } else if d == 3 {
        "3"
    } else if d == 4 {
        "4"
    } else if d == 5 {
        "5"
    } else if d == 6 {
        "6"
    } else if d == 7 {
        "7"
    } else if d == 8 {
        "8"
    } else {
        "9"
    };
    assert(s@ =~= seq![digit_char(d as nat)]);
    s
}

/// Whether a sequence of digits, the most significant first, is the way a
/// number is written: at least one digit, each below ten, no leading zero.
pub open spec fn digits_wf(digits: Seq<u8>) -> bool {
    &&& digits.len() >= 1
    &&& forall|i: int| 0 <= i < digits.len() ==> digits[i] < 10
    &&& digits.len() >= 2 ==> digits[0] != 0
}

/// The number that a sequence of digits denotes.
pub open spec fn number(digits: Seq<u8>) -> nat
    decreases digits.len(),
{
    if digits.len() == 0 {
        0
    } else {
        number(digits.drop_last()) * 10 + digits.last() as nat
    }
}

/// The characters of a sequence of digits.
pub open spec fn text(digits: Seq<u8>) -> Seq<char> {
    digits.map_values(|d: u8| digit_char(d as nat))
}

/// The digits of the next number: the last digit below nine goes up by one
/// and the nines behind it become zeros; all nines get a one in front.
pub open spec fn successor(digits: Seq<u8>) -> Seq<u8>
    decreases digits.len(),
{
    if digits.len() == 0 {
        seq![1u8]
    } else if digits.last() < 9 {
        digits.update(digits.len() - 1, (digits.last() + 1) as u8)
    } else {
        successor(digits.drop_last()).push(0u8)
    }
}

/// The digits of a number spell its decimal rendering.
pub proof fn lemma_text_is_decimal(digits: Seq<u8>)
    requires
        digits_wf(digits),
    ensures
        text(digits) == decimal(number(digits)),
        digits[0] != 0 ==> number(digits) >= 1,
    decreases digits.len(),
{
    if digits.len() == 1 {
        assert(digits.drop_last() =~= Seq::<u8>::empty());
        assert(number(digits.drop_last()) == 0);
        assert(text(digits) =~= seq![digit_char(digits[0] as nat)]);
    } else {
        let front = digits.drop_last();
        assert(front[0] == digits[0]);
        lemma_text_is_decimal(front);
        let n = number(digits);
        assert(n == number(front) * 10 + digits.last() as nat);
        assert(n / 10 == number(front) && n % 10 == digits.last() as nat);
        assert(text(digits) =~= text(front).push(digit_char(digits.last() as nat)));
    }
}

/// The successor's digits denote the next number and are written as a number is.
pub proof fn lemma_successor(digits: Seq<u8>)
    requires
        forall|i: int| 0 <= i < digits.len() ==> digits[i] < 10,
        digits.len() >= 2 ==> digits[0] != 0,
    ensures
        number(successor(digits)) == number(digits) + 1,
        digits_wf(successor(digits)),
        successor(digits)[0] != 0,
    decreases digits.len(),
{
    let next = successor(digits);
    if digits.len() == 0 {
        assert(next.drop_last() =~= Seq::<u8>::empty());
        assert(number(next.drop_last()) == 0);
    } else if digits.last() < 9 {
        assert(next.drop_last() =~= digits.drop_last());
    } else {
        let front = digits.drop_last();
        assert(front.len() >= 2 ==> front[0] == digits[0]);
        lemma_successor(front);
        assert(next.drop_last() =~= successor(front));
        assert(next[0] == successor(front)[0]);
    }
}

/// The digits of `n`, the most significant first.
fn digits_of(n: u64) -> (digits: Vec<u8>)
    ensures
        digits_wf(digits@),
        number(digits@) == n,
        n >= 1 ==> digits@[0] != 0,
    decreases n,
{
    if n < 10 {
        let mut digits: Vec<u8> = Vec::new();
        digits.push(n as u8);
        assert(digits@.drop_last() =~= Seq::<u8>::empty());
        assert(number(digits@.drop_last()) == 0);
        digits
    } else {
        let mut digits = digits_of(n / 10);
        let ghost front = digits@;
        digits.push((n % 10) as u8);
        assert(digits@.drop_last() =~= front);
        assert(digits@[0] == front[0]);
        digits
    }
}

/// A counter that never runs out: a number kept as its decimal digits.
#[derive(Debug)]
pub struct Counter {
    digits: Vec<u8>,
}

impl View for Counter {
    type V = nat;

    closed spec fn view(&self) -> nat {
        number(self.digits@)
    }
}

impl Counter {
    /// What holds of every value: its digits are written as a number is.
    #[verifier::type_invariant]
    pub closed spec fn inv(&self) -> bool {
        digits_wf(self.digits@)
    }

    /// A counter that stands at `n`.
    pub fn starting_at(n: u64) -> (counter: Self)
        ensures
            counter@ == n,
    {
        Counter { digits: digits_of(n) }
    }

    /// Moves the counter to the next number. There always is one.
    pub fn increment(&mut self)
        ensures
            final(self)@ == old(self)@ + 1,
    {
        proof {
            use_type_invariant(&*self);
            lemma_successor(self.digits@);
        }
        let mut digits = digits_of(0);
        std::mem::swap(&mut digits, &mut self.digits);
        let ghost before = digits@;
        let n = digits.len();
        let mut i = n;
        assert(before.subrange(0, n as int) =~= before);
        assert(successor(before) =~= successor(before) + digits@.subrange(n as int, n as int));
        while i > 0 && digits[i - 1] == 9
            invariant
                i <= n,
                n == before.len(),
                digits@.len() == n,
                forall|k: int| 0 <= k < i ==> digits@[k] == before[k],
                forall|k: int| 0 <= k < n ==> before[k] < 10,
                successor(before) == successor(before.subrange(0, i as int)) + digits@.subrange(
                    i as int,
                    n as int,
                ),
            decreases i,
        {
            let ghost head = before.subrange(0, i as int);
            let ghost tail = digits@.subrange(i as int, n as int);
            digits[i - 1] = 0;
            i -= 1;
            proof {
                assert(head.last() == 9);
                assert(head.drop_last() =~= before.subrange(0, i as int));
                assert(digits@.subrange(i as int, n as int) =~= seq![0u8] + tail);
                assert(successor(head) + tail =~= successor(before.subrange(0, i as int)) + (
                seq![0u8] + tail));
            }
        }
        if i == 0 {
            let ghost zeros = digits@;
            digits.insert(0, 1);
            proof {
                assert(before.subrange(0, 0) =~= Seq::<u8>::empty());
                assert(zeros.subrange(0, n as int) =~= zeros);
                assert(digits@ =~= seq![1u8] + zeros);
            }
        } else {
            let ghost head = before.subrange(0, i as int);
            let ghost tail = digits@.subrange(i as int, n as int);
            let digit = digits[i - 1];
            digits[i - 1] = digit + 1;
            proof {
                assert(head.last() == digit);
                assert(digits@ =~= head.update(i - 1, (digit + 1) as u8) + tail);
            }
        }
        assert(digits@ == successor(before));
        self.digits = digits;
    }

    /// The decimal rendering of the number at which the counter stands.
    pub fn render(&self) -> (rendering: String)
        ensures
            rendering@ == decimal(self@),
    {
        proof {
            use_type_invariant(self);
            lemma_text_is_decimal(self.digits@);
        }
        let mut rendering = String::new();
        let mut i: usize = 0;
        while i < self.digits.len()
            invariant
                i <= self.digits@.len(),
                digits_wf(self.digits@),
                rendering@ == text(self.digits@.subrange(0, i as int)),
            decreases self.digits.len() - i,
        {
            rendering.append(digit_str(self.digits[i] as u64));
            i += 1;
            assert(rendering@ =~= text(self.digits@.subrange(0, i as int)));
        }
        assert(self.digits@.subrange(0, i as int) =~= self.digits@);
        rendering
    }
}

} // verus!
