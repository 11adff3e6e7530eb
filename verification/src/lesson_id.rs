use crate::error::PracticeError;
use crate::lesson::chars_of;
use std::cmp::Ordering;
use vstd::prelude::*;

verus! {

/// One of the ten decimal digits.
pub open spec fn is_digit(c: char) -> bool {
    '0' <= c <= '9'
}

/// What a decimal digit counts for.
pub open spec fn digit_value(c: char) -> nat {
    (c as u32 - '0' as u32) as nat
}

/// Number of digits with which an id begins.
pub open spec fn digit_count(id: Seq<char>) -> nat
    decreases id.len(),
{
    if id.len() > 0 && is_digit(id[0]) {
        1 + digit_count(id.drop_first())
    } else {
        0
    }
}

/// The number that a run of digits writes in base ten.
pub open spec fn digits_value(digits: Seq<char>) -> nat
    decreases digits.len(),
{
    if digits.len() == 0 {
        0
    } else {
        10 * digits_value(digits.drop_last()) + digit_value(digits.last())
    }
}

/// The number of a lesson: what its leading digits write, if there are any and
/// the number fits 32 bits.
pub open spec fn lesson_number(id: Seq<char>) -> Option<nat> {
    let digits = id.take(digit_count(id) as int);
    if digits.len() == 0 || digits_value(digits) > u32::MAX {
        None
    } else {
        Some(digits_value(digits))
    }
}

/// What follows the leading digits of an id.
pub open spec fn lesson_suffix(id: Seq<char>) -> Seq<char> {
    id.skip(digit_count(id) as int)
}

/// An id that has a number.
pub open spec fn well_formed_id(id: Seq<char>) -> bool {
    lesson_number(id) is Some
}

/// `a` stands before `b` in the dictionary: at the first place where they
/// differ `a` has the smaller character, or `a` ends there and `b` goes on.
pub open spec fn lex_less(a: Seq<char>, b: Seq<char>) -> bool
    decreases a.len(),
{
    if b.len() == 0 {
        false
    } else if a.len() == 0 {
        true
    } else if a[0] != b[0] {
        a[0] < b[0]
    } else {
        lex_less(a.drop_first(), b.drop_first())
    }
}

/// `a` is ordered before `b`: by the smaller number, and among equal numbers
/// by the suffix, provided that both ids have one. An id without a suffix is
/// ordered neither before nor after any id of the same number.
pub open spec fn id_precedes(a: Seq<char>, b: Seq<char>) -> bool {
    let number_a = lesson_number(a).unwrap();
    let number_b = lesson_number(b).unwrap();
    number_a < number_b || (number_a == number_b && lesson_suffix(a).len() > 0 && lesson_suffix(
        b,
    ).len() > 0 && lex_less(lesson_suffix(a), lesson_suffix(b)))
}

/// The order of two well-formed ids.
pub open spec fn id_order(a: Seq<char>, b: Seq<char>) -> Ordering {
    if id_precedes(a, b) {
        Ordering::Less
    } else if id_precedes(b, a) {
        Ordering::Greater
    } else {
        Ordering::Equal
    }
}

/// Counting past `k` leading digits leaves the count of the rest.
proof fn lemma_digit_count_skip(id: Seq<char>, k: int)
    requires
        0 <= k <= id.len(),
        forall|j: int| 0 <= j < k ==> is_digit(id[j]),
    ensures
        digit_count(id) == k + digit_count(id.skip(k)),
    decreases k,
{
    if k == 0 {
        assert(id.skip(0) =~= id);
    } else {
        let rest = id.drop_first();
        assert(is_digit(id[0]));
        assert forall|j: int| 0 <= j < k - 1 implies is_digit(rest[j]) by {
            assert(rest[j] == id[j + 1]);
        }
        lemma_digit_count_skip(rest, k - 1);
        assert(rest.skip(k - 1) =~= id.skip(k));
    }
}

/// A longer run of the same digits writes no smaller number.
proof fn lemma_digits_value_grows(digits: Seq<char>, k: int, m: int)
    requires
        0 <= k <= m <= digits.len(),
    ensures
        digits_value(digits.take(k)) <= digits_value(digits.take(m)),
    decreases m - k,
{
    if k < m {
        lemma_digits_value_grows(digits, k, m - 1);
        assert(digits.take(m).drop_last() =~= digits.take(m - 1));
    }
}

/// Reads the leading digits of `id`: the number they write and how many they
/// are, or nothing where the id has no number.
fn read_number(id: &Vec<char>) -> (parsed: Option<(u32, usize)>)
    ensures
        match parsed {
            Some((number, digits)) => lesson_number(id@) == Some(number as nat) && digits
                == digit_count(id@),
            None => lesson_number(id@) is None,
        },
{
    let n = id.len();
    let mut value: u64 = 0;
    let mut i: usize = 0;
    assert(id@.take(0) =~= Seq::empty());
    while i < n && id[i] >= '0' && id[i] <= '9'
        invariant
            n == id@.len(),
            i <= n,
            forall|j: int| 0 <= j < i ==> is_digit(id@[j]),
            value == digits_value(id@.take(i as int)),
            value <= u32::MAX,
        decreases n - i,
    {
        let digit = (id[i] as u32 - '0' as u32) as u64;
        let longer = value * 10 + digit;
        proof {
            assert(id@.take(i + 1).drop_last() =~= id@.take(i as int));
            assert(longer == digits_value(id@.take(i + 1)));
        }
        if longer > u32::MAX as u64 {
            proof {
                lemma_digit_count_skip(id@, i + 1);
                let count = digit_count(id@) as int;
                assert(count <= id@.len()) by {
                    lemma_digit_count_bound(id@);
                }
                lemma_digits_value_grows(id@, i + 1, count);
                assert(id@.take(count).take(i + 1) =~= id@.take(i + 1));
            }
            return None;
        }
        value = longer;
        i += 1;
    }
    proof {
        lemma_digit_count_skip(id@, i as int);
        assert(digit_count(id@.skip(i as int)) == 0);
    }
    if i == 0 {
        None
    } else {
        Some((value as u32, i))
    }
}

/// An id has no more leading digits than characters.
proof fn lemma_digit_count_bound(id: Seq<char>)
    ensures
        digit_count(id) <= id.len(),
    decreases id.len(),
{
    if id.len() > 0 && is_digit(id[0]) {
        lemma_digit_count_bound(id.drop_first());
    }
}

/// Compares what follows position `from_a` of `a` with what follows `from_b`
/// of `b`, as a dictionary would.
fn rest_is_less(a: &Vec<char>, from_a: usize, b: &Vec<char>, from_b: usize) -> (less: bool)
    requires
        from_a <= a@.len(),
        from_b <= b@.len(),
    ensures
        less == lex_less(a@.skip(from_a as int), b@.skip(from_b as int)),
{
    let mut i = from_a;
    let mut j = from_b;
    loop
        invariant
            from_a <= i <= a@.len(),
            from_b <= j <= b@.len(),
            lex_less(a@.skip(from_a as int), b@.skip(from_b as int)) == lex_less(
                a@.skip(i as int),
                b@.skip(j as int),
            ),
        decreases a@.len() - i,
    {
        if j >= b.len() {
            return false;
        }
        if i >= a.len() {
            return true;
        }
        if a[i] != b[j] {
            return a[i] < b[j];
        }
        proof {
            assert(a@.skip(i as int).drop_first() =~= a@.skip(i + 1));
            assert(b@.skip(j as int).drop_first() =~= b@.skip(j + 1));
        }
        i += 1;
        j += 1;
    }
}

/// Whether `a` is ordered before `b`, from the ids and what was read of them.
fn comes_before(
    a: &Vec<char>,
    number_a: u32,
    digits_a: usize,
    b: &Vec<char>,
    number_b: u32,
    digits_b: usize,
) -> (before: bool)
    requires
        lesson_number(a@) == Some(number_a as nat),
        lesson_number(b@) == Some(number_b as nat),
        digits_a == digit_count(a@),
        digits_b == digit_count(b@),
    ensures
        before == id_precedes(a@, b@),
{
    proof {
        lemma_digit_count_bound(a@);
        lemma_digit_count_bound(b@);
    }
    if number_a != number_b {
        number_a < number_b
    } else if digits_a == a.len() || digits_b == b.len() {
        false
    } else {
        rest_is_less(a, digits_a, b, digits_b)
    }
}

/// The number of a lesson id: what its leading digits write.
/// An id that begins with no digit, or whose number does not fit 32 bits, is
/// malformed.
pub fn lesson_number_of(id: &str) -> (number: Result<u32, PracticeError>)
    ensures
        match number {
            Ok(n) => lesson_number(id@) == Some(n as nat),
            Err(e) => e == PracticeError::MalformedId && !well_formed_id(id@),
        },
{
    let chars = chars_of(id);
    match read_number(&chars) {
        Some((number, _)) => Ok(number),
        None => Err(PracticeError::MalformedId),
    }
}

/// Whether `a` is ordered before `b`. An id without a number is ordered
/// before none and after none.
pub fn precedes(a: &str, b: &str) -> (before: bool)
    ensures
        before == (well_formed_id(a@) && well_formed_id(b@) && id_precedes(a@, b@)),
{
    let chars_a = chars_of(a);
    let chars_b = chars_of(b);
    match (read_number(&chars_a), read_number(&chars_b)) {
        (Some((number_a, digits_a)), Some((number_b, digits_b))) => comes_before(
            &chars_a,
            number_a,
            digits_a,
            &chars_b,
            number_b,
            digits_b,
        ),
        _ => false,
    }
}

/// Orders two lesson ids: by their numbers, and among equal numbers by their
/// suffixes as a dictionary would. Where either id has no suffix, ids of the
/// same number count as equal. An id without a number is malformed.
pub fn compare_lesson_id(id_a: &str, id_b: &str) -> (order: Result<Ordering, PracticeError>)
    ensures
        match order {
            Ok(o) => well_formed_id(id_a@) && well_formed_id(id_b@) && o == id_order(id_a@, id_b@),
            Err(e) => e == PracticeError::MalformedId && !(well_formed_id(id_a@) && well_formed_id(
                id_b@,
            )),
        },
{
    let chars_a = chars_of(id_a);
    let chars_b = chars_of(id_b);
    match (read_number(&chars_a), read_number(&chars_b)) {
        (Some((number_a, digits_a)), Some((number_b, digits_b))) => {
            if comes_before(&chars_a, number_a, digits_a, &chars_b, number_b, digits_b) {
                Ok(Ordering::Less)
            } else if comes_before(&chars_b, number_b, digits_b, &chars_a, number_a, digits_a) {
                Ok(Ordering::Greater)
            } else {
                Ok(Ordering::Equal)
            }
        },
        _ => Err(PracticeError::MalformedId),
    }
}

/// Of two sequences at most one stands before the other, and where neither
/// does they are the same.
pub proof fn lex_less_is_strict(a: Seq<char>, b: Seq<char>)
    ensures
        !(lex_less(a, b) && lex_less(b, a)),
        !lex_less(a, b) && !lex_less(b, a) ==> a == b,
        a == b ==> !lex_less(a, b),
    decreases a.len(),
{
    if a.len() > 0 && b.len() > 0 && a[0] == b[0] {
        lex_less_is_strict(a.drop_first(), b.drop_first());
        if a.drop_first() == b.drop_first() {
            assert(a =~= seq![a[0]] + a.drop_first());
            assert(b =~= seq![b[0]] + b.drop_first());
        }
    } else if a.len() == 0 && b.len() == 0 {
        assert(a =~= b);
    }
}

/// The smaller number comes first, whatever the suffixes are.
pub proof fn smaller_number_comes_first(a: Seq<char>, b: Seq<char>)
    requires
        well_formed_id(a),
        well_formed_id(b),
        lesson_number(a).unwrap() < lesson_number(b).unwrap(),
    ensures
        id_order(a, b) == Ordering::Less,
        id_order(b, a) == Ordering::Greater,
{
}

/// Among ids of one number that both have a suffix, the suffixes decide as in
/// a dictionary.
pub proof fn suffix_orders_equal_numbers(a: Seq<char>, b: Seq<char>)
    requires
        well_formed_id(a),
        well_formed_id(b),
        lesson_number(a) == lesson_number(b),
        lesson_suffix(a).len() > 0,
        lesson_suffix(b).len() > 0,
    ensures
        id_order(a, b) == Ordering::Less <==> lex_less(lesson_suffix(a), lesson_suffix(b)),
        id_order(a, b) == Ordering::Greater <==> lex_less(lesson_suffix(b), lesson_suffix(a)),
        id_order(a, b) == Ordering::Equal <==> lesson_suffix(a) == lesson_suffix(b),
{
    lex_less_is_strict(lesson_suffix(a), lesson_suffix(b));
}

/// An id without a suffix counts as equal to every id of the same number.
pub proof fn bare_id_equals_same_number(a: Seq<char>, b: Seq<char>)
    requires
        well_formed_id(a),
        well_formed_id(b),
        lesson_number(a) == lesson_number(b),
        lesson_suffix(a).len() == 0 || lesson_suffix(b).len() == 0,
    ensures
        id_order(a, b) == Ordering::Equal,
{
}

/// Swapping the two ids turns the order around.
pub proof fn order_turns_with_its_arguments(a: Seq<char>, b: Seq<char>)
    requires
        well_formed_id(a),
        well_formed_id(b),
    ensures
        id_order(a, b) == Ordering::Less <==> id_order(b, a) == Ordering::Greater,
        id_order(a, b) == Ordering::Equal <==> id_order(b, a) == Ordering::Equal,
        id_order(a, a) == Ordering::Equal,
{
    lex_less_is_strict(lesson_suffix(a), lesson_suffix(b));
    lex_less_is_strict(lesson_suffix(a), lesson_suffix(a));
}

/// What stands before a sequence that stands before a third stands before
/// the third.
pub proof fn lex_less_chains(a: Seq<char>, b: Seq<char>, c: Seq<char>)
    requires
        lex_less(a, b),
        lex_less(b, c),
    ensures
        lex_less(a, c),
    decreases a.len(),
{
    if a.len() > 0 && a[0] == b[0] && b[0] == c[0] {
        lex_less_chains(a.drop_first(), b.drop_first(), c.drop_first());
    }
}

/// Two ids are told apart by the order unless they are the same: where
/// they differ and have one number, both have a suffix.
pub open spec fn told_apart(a: Seq<char>, b: Seq<char>) -> bool {
    a != b && lesson_number(a) == lesson_number(b) ==> lesson_suffix(a).len() > 0
        && lesson_suffix(b).len() > 0
}

/// Among ids that the order tells apart, "not before" chains: an id that
/// is not before a second, which is not before a third, is not before the
/// third.
pub proof fn not_before_chains(a: Seq<char>, b: Seq<char>, c: Seq<char>)
    requires
        well_formed_id(a),
        well_formed_id(b),
        well_formed_id(c),
        told_apart(a, b),
        told_apart(b, c),
        told_apart(a, c),
        !id_precedes(a, b),
        !id_precedes(b, c),
    ensures
        !id_precedes(a, c),
{
    let suffix_a = lesson_suffix(a);
    let suffix_b = lesson_suffix(b);
    let suffix_c = lesson_suffix(c);
    lex_less_is_strict(suffix_a, suffix_a);
    lex_less_is_strict(suffix_a, suffix_b);
    if a != b && b != c && a != c && lex_less(suffix_b, suffix_a) && lex_less(suffix_a, suffix_c) {
        lex_less_chains(suffix_b, suffix_a, suffix_c);
    }
}

} // verus!
