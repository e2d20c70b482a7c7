use vstd::prelude::*;

verus! {

/// Character-for-character equality of two string slices.
pub fn str_eq(a: &str, b: &str) -> (r: bool)
    ensures
        r == (a@ == b@),
{
    let alen = a.unicode_len();
    let blen = b.unicode_len();
    if alen != blen {
        return false;
    }
    let mut i: usize = 0;
    while i < alen
        invariant
            i <= alen,
            alen == a@.len(),
            alen == b@.len(),
            forall|j: int| 0 <= j < i ==> a@[j] == b@[j],
        decreases alen - i,
    {
        if a.get_char(i) != b.get_char(i) {
            return false;
        }
        i = i + 1;
    }
    proof {
        assert(a@ =~= b@);
    }
    true
}

/// The characters of a string slice, in order, as a vector.
pub fn str_chars(s: &str) -> (v: Vec<char>)
    ensures
        v@ == s@,
{
    let n = s.unicode_len();
    let mut v: Vec<char> = Vec::new();
    let mut i: usize = 0;
    while i < n
        invariant
            i <= n,
            n == s@.len(),
            v@ == s@.take(i as int),
        decreases n - i,
    {
        v.push(s.get_char(i));
        proof {
            assert(v@ =~= s@.take(i as int + 1));
        }
        i = i + 1;
    }
    proof {
        assert(s@.take(n as int) =~= s@);
    }
    v
}

/// Relies on `String`'s `FromIterator<char>` impl: collecting characters
/// yields the string that holds exactly those characters in order.
#[verifier::external_body]
pub fn chars_to_string(v: &Vec<char>) -> (s: String)
    ensures
        s@ == v@,
{
    v.iter().collect()
}

/// Whether `c` is a decimal digit.
pub open spec fn is_digit(c: char) -> bool {
    48 <= c as u32 <= 57
}

/// The numeric value of a decimal digit character.
pub open spec fn digit_val(c: char) -> int {
    c as u32 - 48
}

/// Whether `c` is a decimal digit.
pub fn digit_check(c: char) -> (r: bool)
    ensures
        r == is_digit(c),
{
    let u = c as u32;
    48 <= u && u <= 57
}

/// The numeric value of a decimal digit character.
pub fn digit_value(c: char) -> (d: u64)
    requires
        is_digit(c),
    ensures
        d == digit_val(c),
        d <= 9,
{
    ((c as u32) - 48) as u64
}

/// The decimal digit character for `d` in `0..10`.
pub open spec fn digit_char(d: int) -> char {
    if d == 0 { '0' }
    else if d == 1 { '1' }
    else if d == 2 { '2' }
    else if d == 3 { '3' }
    else if d == 4 { '4' }
    else if d == 5 { '5' }
    else if d == 6 { '6' }
    else if d == 7 { '7' }
    else if d == 8 { '8' }
    else { '9' }
}

/// The decimal digits of `n`, most significant first.
pub open spec fn spec_digits(n: int) -> Seq<char>
    decreases n,
{
    if n < 10 {
        seq![digit_char(n)]
    } else {
        spec_digits(n / 10).push(digit_char(n % 10))
    }
}

/// The number denoted by a sequence of decimal digit characters.
pub open spec fn val_of_digits(s: Seq<char>) -> int
    decreases s.len(),
{
    if s.len() == 0 {
        0
    } else {
        val_of_digits(s.drop_last()) * 10 + digit_val(s.last())
    }
}

/// Every character of `spec_digits(n)` is a digit, there is at least one,
/// and reading them back yields `n`.
pub proof fn lemma_digits(n: int)
    requires
        n >= 0,
    ensures
        spec_digits(n).len() >= 1,
        forall|i: int| 0 <= i < spec_digits(n).len() ==> is_digit(#[trigger] spec_digits(n)[i]),
        val_of_digits(spec_digits(n)) == n,
    decreases n,
{
    if n < 10 {
        let s = spec_digits(n);
        assert(s == seq![digit_char(n)]);
        assert(s.drop_last() =~= Seq::<char>::empty());
        assert(val_of_digits(Seq::<char>::empty()) == 0);
        assert(val_of_digits(s) == val_of_digits(s.drop_last()) * 10 + digit_val(s.last()));
        assert(digit_val(digit_char(n)) == n);
    } else {
        lemma_digits(n / 10);
        let prev = spec_digits(n / 10);
        let whole = spec_digits(n);
        assert(whole == prev.push(digit_char(n % 10)));
        assert(whole.drop_last() =~= prev);
        assert(val_of_digits(whole) == val_of_digits(prev) * 10 + digit_val(digit_char(n % 10)));
        assert(forall|i: int| 0 <= i < whole.len() - 1 ==> whole[i] == prev[i]);
    }
}

/// The decimal digit character for `d`.
pub fn digit_to_char(d: u64) -> (c: char)
    requires
        d < 10,
    ensures
        c == digit_char(d as int),
{
    if d == 0 { '0' }
    else if d == 1 { '1' }
    else if d == 2 { '2' }
    else if d == 3 { '3' }
    else if d == 4 { '4' }
    else if d == 5 { '5' }
    else if d == 6 { '6' }
    else if d == 7 { '7' }
    else if d == 8 { '8' }
    else { '9' }
}

/// Appends the decimal digits of `n` to `v`, most significant first.
pub fn push_digits(v: &mut Vec<char>, n: u64)
    ensures
        final(v)@ == old(v)@ + spec_digits(n as int),
    decreases n,
{
    if n < 10 {
        v.push(digit_to_char(n));
        proof {
            assert(v@ =~= old(v)@ + spec_digits(n as int));
        }
    } else {
        push_digits(v, n / 10);
        v.push(digit_to_char(n % 10));
        proof {
            assert(v@ =~= old(v)@ + spec_digits(n as int));
        }
    }
}

} // verus!
