use vstd::prelude::*;

verus! {

/// The characters of `s`, in order.
pub fn chars_of(s: &str) -> (v: Vec<char>)
    ensures
        v@ == s@,
{
    let mut v: Vec<char> = Vec::new();
    for c in it: s.chars()
        invariant
            v@ == it.seq().take(it.index() as int),
    {
        v.push(c);
    }
    proof {
        assert(v@ =~= s@);
    }
    v
}

pub open spec fn fold(c: char) -> u32 {
    if 'A' <= c && c <= 'Z' {
        (c as u32 + 32) as u32
    } else {
        c as u32
    }
}

pub fn fold_char(c: char) -> (r: u32)
    ensures
        r == fold(c),
{
    if 'A' <= c && c <= 'Z' {
        c as u32 + 32
    } else {
        c as u32
    }
}

} // verus!

verus! {

pub open spec fn is_digit(c: char) -> bool {
    '0' <= c && c <= '9'
}

pub open spec fn digit_value(c: char) -> nat {
    (c as u32 - '0' as u32) as nat
}

/// Number of leading ASCII digits of `s`.
pub open spec fn digit_run(s: Seq<char>) -> nat
    decreases s.len(),
{
    if s.len() > 0 && is_digit(s[0]) {
        1 + digit_run(s.drop_first())
    } else {
        0
    }
}

/// Decimal value of the first `k` characters of `s`, read as digits.
pub open spec fn decimal_value(s: Seq<char>, k: nat) -> nat
    decreases k,
{
    if k == 0 {
        0
    } else {
        10 * decimal_value(s, (k - 1) as nat) + digit_value(s[k - 1])
    }
}

pub open spec fn saturate(v: nat) -> nat {
    if v > u64::MAX {
        u64::MAX as nat
    } else {
        v
    }
}

/// The value of the leading digit run, saturated at `u64::MAX`.
pub open spec fn leading_number(s: Seq<char>) -> nat {
    saturate(decimal_value(s, digit_run(s)))
}

pub proof fn lemma_digit_run_bounds(s: Seq<char>)
    ensures
        digit_run(s) <= s.len(),
        s.len() > 0 && is_digit(s[0]) ==> digit_run(s) >= 1,
        forall|i: int| 0 <= i < digit_run(s) ==> is_digit(#[trigger] s[i]),
        digit_run(s) < s.len() ==> !is_digit(s[digit_run(s) as int]),
    decreases s.len(),
{
    if s.len() > 0 && is_digit(s[0]) {
        lemma_digit_run_bounds(s.drop_first());
        assert forall|i: int| 0 <= i < digit_run(s) implies is_digit(#[trigger] s[i]) by {
            if i > 0 {
                assert(s[i] == s.drop_first()[i - 1]);
            }
        }
    }
}

/// Three-way natural comparison: -1, 0 or 1. Runs of ASCII digits compare
/// by their (saturated) numeric value, other characters compare by their
/// ASCII-lowercased code; a proper prefix comes first.
pub open spec fn natural_compare(a: Seq<char>, b: Seq<char>) -> int
    decreases a.len() + b.len(),
{
    if a.len() == 0 {
        if b.len() == 0 {
            0
        } else {
            -1
        }
    } else if b.len() == 0 {
        1
    } else if is_digit(a[0]) && is_digit(b[0]) {
        let na = leading_number(a);
        let nb = leading_number(b);
        if na < nb {
            -1
        } else if na > nb {
            1
        } else {
            proof {
                lemma_digit_run_bounds(a);
                lemma_digit_run_bounds(b);
            }
            natural_compare(a.skip(digit_run(a) as int), b.skip(digit_run(b) as int))
        }
    } else if fold(a[0]) < fold(b[0]) {
        -1
    } else if fold(a[0]) > fold(b[0]) {
        1
    } else {
        natural_compare(a.drop_first(), b.drop_first())
    }
}

pub proof fn lemma_fold_classes(c: char)
    ensures
        is_digit(c) ==> fold(c) == c as u32 && 48 <= fold(c) <= 57,
        !is_digit(c) ==> fold(c) < 48 || fold(c) > 57,
{
}

} // verus!

verus! {

/// The natural order puts every name level with itself.
pub proof fn lemma_natural_reflexive(a: Seq<char>)
    ensures
        natural_compare(a, a) == 0,
    decreases a.len(),
{
    if a.len() > 0 {
        lemma_digit_run_bounds(a);
        if is_digit(a[0]) {
            lemma_natural_reflexive(a.skip(digit_run(a) as int));
        } else {
            lemma_natural_reflexive(a.drop_first());
        }
    }
}

/// Swapping the two names reverses the outcome.
pub proof fn lemma_natural_antisymmetric(a: Seq<char>, b: Seq<char>)
    ensures
        natural_compare(a, b) == -natural_compare(b, a),
        -1 <= natural_compare(a, b) <= 1,
    decreases a.len() + b.len(),
{
    if a.len() > 0 && b.len() > 0 {
        lemma_digit_run_bounds(a);
        lemma_digit_run_bounds(b);
        if is_digit(a[0]) && is_digit(b[0]) {
            lemma_natural_antisymmetric(a.skip(digit_run(a) as int), b.skip(digit_run(b) as int));
        } else {
            lemma_natural_antisymmetric(a.drop_first(), b.drop_first());
        }
    }
}

/// The natural order is transitive.
pub proof fn lemma_natural_transitive(a: Seq<char>, b: Seq<char>, c: Seq<char>)
    requires
        natural_compare(a, b) <= 0,
        natural_compare(b, c) <= 0,
    ensures
        natural_compare(a, c) <= 0,
    decreases a.len() + b.len() + c.len(),
{
    if a.len() > 0 && b.len() > 0 && c.len() > 0 {
        lemma_digit_run_bounds(a);
        lemma_digit_run_bounds(b);
        lemma_digit_run_bounds(c);
        lemma_fold_classes(a[0]);
        lemma_fold_classes(b[0]);
        lemma_fold_classes(c[0]);
        if is_digit(a[0]) && is_digit(b[0]) && is_digit(c[0]) {
            if leading_number(a) == leading_number(b) && leading_number(b) == leading_number(c) {
                lemma_natural_transitive(
                    a.skip(digit_run(a) as int),
                    b.skip(digit_run(b) as int),
                    c.skip(digit_run(c) as int),
                );
            }
        } else if !is_digit(a[0]) && !is_digit(b[0]) && !is_digit(c[0]) {
            if fold(a[0]) == fold(b[0]) && fold(b[0]) == fold(c[0]) {
                lemma_natural_transitive(a.drop_first(), b.drop_first(), c.drop_first());
            }
        }
    }
}

} // verus!

verus! {

/// `a` and `b` differ at most in the case of ASCII letters.
pub open spec fn same_ignoring_case(a: Seq<char>, b: Seq<char>) -> bool {
    &&& a.len() == b.len()
    &&& forall|i: int| 0 <= i < a.len() ==> fold(#[trigger] a[i]) == fold(b[i])
}

proof fn lemma_fold_digit(c: char, d: char)
    requires
        fold(c) == fold(d),
    ensures
        is_digit(c) == is_digit(d),
        is_digit(c) ==> digit_value(c) == digit_value(d),
{
}

proof fn lemma_same_case_numbers(a: Seq<char>, b: Seq<char>)
    requires
        same_ignoring_case(a, b),
    ensures
        digit_run(a) == digit_run(b),
        forall|k: nat| k <= digit_run(a) ==> decimal_value(a, k) == decimal_value(b, k),
    decreases a.len(),
{
    if a.len() > 0 {
        lemma_fold_digit(a[0], b[0]);
        assert(same_ignoring_case(a.drop_first(), b.drop_first())) by {
            assert forall|i: int| 0 <= i < a.drop_first().len() implies fold(
                #[trigger] a.drop_first()[i],
            ) == fold(b.drop_first()[i]) by {
                assert(fold(a[i + 1]) == fold(b[i + 1]));
            }
        }
        lemma_same_case_numbers(a.drop_first(), b.drop_first());
    }
    lemma_digit_run_bounds(a);
    assert forall|k: nat| k <= digit_run(a) implies decimal_value(a, k) == decimal_value(b, k) by {
        lemma_decimal_value_agree(a, b, k);
    }
}

proof fn lemma_decimal_value_agree(a: Seq<char>, b: Seq<char>, k: nat)
    requires
        same_ignoring_case(a, b),
        k <= digit_run(a),
        digit_run(a) <= a.len(),
        forall|i: int| 0 <= i < digit_run(a) ==> is_digit(#[trigger] a[i]),
    ensures
        decimal_value(a, k) == decimal_value(b, k),
    decreases k,
{
    if k > 0 {
        lemma_decimal_value_agree(a, b, (k - 1) as nat);
        assert(is_digit(a[k - 1]));
        lemma_fold_digit(a[k - 1], b[k - 1]);
    }
}

/// The natural order ignores the case of ASCII letters: replacing a name by
/// one that differs from it only in letter case does not change any outcome.
pub proof fn lemma_natural_ignores_case(a: Seq<char>, a2: Seq<char>, b: Seq<char>)
    requires
        same_ignoring_case(a, a2),
    ensures
        natural_compare(a, b) == natural_compare(a2, b),
    decreases a.len() + b.len(),
{
    if a.len() > 0 && b.len() > 0 {
        lemma_fold_digit(a[0], a2[0]);
        lemma_digit_run_bounds(a);
        lemma_digit_run_bounds(a2);
        lemma_digit_run_bounds(b);
        lemma_same_case_numbers(a, a2);
        if is_digit(a[0]) && is_digit(b[0]) {
            let r = digit_run(a) as int;
            assert(same_ignoring_case(a.skip(r), a2.skip(r))) by {
                assert forall|i: int| 0 <= i < a.skip(r).len() implies fold(
                    #[trigger] a.skip(r)[i],
                ) == fold(a2.skip(r)[i]) by {
                    assert(fold(a[i + r]) == fold(a2[i + r]));
                }
            }
            lemma_natural_ignores_case(a.skip(r), a2.skip(r), b.skip(digit_run(b) as int));
        } else {
            assert(same_ignoring_case(a.drop_first(), a2.drop_first())) by {
                assert forall|i: int| 0 <= i < a.drop_first().len() implies fold(
                    #[trigger] a.drop_first()[i],
                ) == fold(a2.drop_first()[i]) by {
                    assert(fold(a[i + 1]) == fold(a2[i + 1]));
                }
            }
            lemma_natural_ignores_case(a.drop_first(), a2.drop_first(), b.drop_first());
        }
    }
}

} // verus!

verus! {

proof fn lemma_digit_run_exact(s: Seq<char>, k: nat)
    requires
        k <= s.len(),
        forall|i: int| 0 <= i < k ==> is_digit(#[trigger] s[i]),
        k == s.len() || !is_digit(s[k as int]),
    ensures
        digit_run(s) == k,
    decreases k,
{
    if k > 0 {
        assert forall|i: int| 0 <= i < (k - 1) implies is_digit(#[trigger] s.drop_first()[i]) by {
            assert(is_digit(s[i + 1]));
        }
        lemma_digit_run_exact(s.drop_first(), (k - 1) as nat);
    }
}

pub fn is_ascii_digit(c: char) -> (r: bool)
    ensures
        r == is_digit(c),
{
    '0' <= c && c <= '9'
}

/// Reads the run of ASCII digits that starts at `start` and returns its value,
/// saturated at `u64::MAX`, together with the index just past the run.
pub fn take_number(chars: &Vec<char>, start: usize) -> (r: (u64, usize))
    requires
        start <= chars.len(),
    ensures
        r.1 == start + digit_run(chars@.skip(start as int)),
        r.0 == leading_number(chars@.skip(start as int)),
{
    let ghost s = chars@.skip(start as int);
    let mut n: u64 = 0;
    let mut j: usize = start;
    while j < chars.len() && is_ascii_digit(chars[j])
        invariant
            s == chars@.skip(start as int),
            start <= j <= chars.len(),
            forall|i: int| 0 <= i < j - start ==> is_digit(#[trigger] s[i]),
            n == saturate(decimal_value(s, (j - start) as nat)),
        decreases chars.len() - j,
    {
        let d: u64 = (chars[j] as u32 - '0' as u32) as u64;
        assert(s[j - start] == chars@[j as int]);
        assert(d == digit_value(s[j - start]));
        assert(decimal_value(s, (j + 1 - start) as nat) == 10 * decimal_value(s, (j - start) as nat)
            + d);
        n = match n.checked_mul(10) {
            Some(m) => m.saturating_add(d),
            None => u64::MAX,
        };
        j = j + 1;
    }
    proof {
        if j < chars.len() {
            assert(s[j - start] == chars@[j as int]);
        }
        lemma_digit_run_exact(s, (j - start) as nat);
    }
    (n, j)
}

/// Executable natural comparison of two character sequences: -1, 0 or 1.
pub fn natural_compare_chars(a: &Vec<char>, b: &Vec<char>) -> (r: i8)
    ensures
        r == natural_compare(a@, b@),
{
    let mut i: usize = 0;
    let mut j: usize = 0;
    assert(a@.skip(0) =~= a@);
    assert(b@.skip(0) =~= b@);
    loop
        invariant
            i <= a.len(),
            j <= b.len(),
            natural_compare(a@, b@) == natural_compare(a@.skip(i as int), b@.skip(j as int)),
        decreases (a.len() - i) + (b.len() - j),
    {
        let ghost sa = a@.skip(i as int);
        let ghost sb = b@.skip(j as int);
        if i == a.len() && j == b.len() {
            return 0;
        }
        if i == a.len() {
            return -1;
        }
        if j == b.len() {
            return 1;
        }
        let ac = a[i];
        let bc = b[j];
        assert(sa[0] == ac && sb[0] == bc);
        if is_ascii_digit(ac) && is_ascii_digit(bc) {
            let (na, i2) = take_number(a, i);
            let (nb, j2) = take_number(b, j);
            if na < nb {
                return -1;
            }
            if na > nb {
                return 1;
            }
            proof {
                lemma_digit_run_bounds(sa);
                lemma_digit_run_bounds(sb);
                assert(sa.skip(digit_run(sa) as int) =~= a@.skip(i2 as int));
                assert(sb.skip(digit_run(sb) as int) =~= b@.skip(j2 as int));
            }
            i = i2;
            j = j2;
        } else {
            let fa = fold_char(ac);
            let fb = fold_char(bc);
            if fa < fb {
                return -1;
            }
            if fa > fb {
                return 1;
            }
            assert(sa.drop_first() =~= a@.skip(i + 1));
            assert(sb.drop_first() =~= b@.skip(j + 1));
            i = i + 1;
            j = j + 1;
        }
    }
}

/// Natural-order comparison so "img2" sorts before "img10".
pub fn natural_cmp(a: &str, b: &str) -> (r: std::cmp::Ordering)
    ensures
        r == ordering_of(natural_compare(a@, b@)),
{
    let ac = chars_of(a);
    let bc = chars_of(b);
    let c = natural_compare_chars(&ac, &bc);
    if c < 0 {
        std::cmp::Ordering::Less
    } else if c > 0 {
        std::cmp::Ordering::Greater
    } else {
        std::cmp::Ordering::Equal
    }
}

/// The `Ordering` that a three-way result in {-1, 0, 1} stands for.
pub open spec fn ordering_of(c: int) -> std::cmp::Ordering {
    if c < 0 {
        std::cmp::Ordering::Less
    } else if c > 0 {
        std::cmp::Ordering::Greater
    } else {
        std::cmp::Ordering::Equal
    }
}

} // verus!

verus! {

/// An uppercase ASCII letter.
pub open spec fn is_ascii_upper(c: char) -> bool {
    'A' <= c && c <= 'Z'
}

/// A lowercase ASCII letter.
pub open spec fn is_ascii_lower(c: char) -> bool {
    'a' <= c && c <= 'z'
}

/// What `char::to_ascii_lowercase` gives: an uppercase ASCII letter becomes the
/// lowercase letter at the same place in the alphabet; every other character stays.
pub open spec fn ascii_lowercase(c: char) -> char {
    if is_ascii_upper(c) {
        ('a' as u32 + (c as u32 - 'A' as u32)) as char
    } else {
        c
    }
}

/// Every character of `s` put through `ascii_lowercase`.
pub open spec fn lowercase(s: Seq<char>) -> Seq<char> {
    s.map_values(|c: char| ascii_lowercase(c))
}

/// The place of an ASCII letter of either case in the alphabet, 0 for `a` and `A`.
pub open spec fn alphabet_place(c: char) -> int {
    if is_ascii_upper(c) {
        c as u32 - 'A' as u32
    } else {
        c as u32 - 'a' as u32
    }
}

/// Names compare by the code of each character taken in lower case: an uppercase
/// ASCII letter counts as its lowercase letter, every other character as itself.
pub proof fn lemma_fold_is_lowercase_code(c: char)
    ensures
        fold(c) == ascii_lowercase(c) as u32,
        is_ascii_upper(c) ==> is_ascii_lower(ascii_lowercase(c)),
{
}

/// Two names are the same up to ASCII case exactly when their lowercase forms agree.
pub proof fn lemma_same_ignoring_case_is_same_lowercase(a: Seq<char>, b: Seq<char>)
    ensures
        same_ignoring_case(a, b) <==> lowercase(a) == lowercase(b),
{
    if same_ignoring_case(a, b) {
        assert forall|i: int| 0 <= i < a.len() implies lowercase(a)[i] == lowercase(b)[i] by {
            lemma_fold_is_lowercase_code(a[i]);
            lemma_fold_is_lowercase_code(b[i]);
            assert(fold(a[i]) == fold(b[i]));
        }
        assert(lowercase(a) =~= lowercase(b));
    }
    if lowercase(a) == lowercase(b) {
        assert(a.len() == lowercase(a).len() && b.len() == lowercase(b).len());
        assert forall|i: int| 0 <= i < a.len() implies fold(#[trigger] a[i]) == fold(b[i]) by {
            lemma_fold_is_lowercase_code(a[i]);
            lemma_fold_is_lowercase_code(b[i]);
            assert(lowercase(a)[i] == lowercase(b)[i]);
        }
    }
}

/// A name without uppercase ASCII letters is its own lowercase form.
pub proof fn lemma_lowercase_keeps_lower(s: Seq<char>)
    requires
        forall|i: int| 0 <= i < s.len() ==> !is_ascii_upper(#[trigger] s[i]),
    ensures
        lowercase(s) == s,
{
    assert(lowercase(s) =~= s);
}

/// The natural order does not see ASCII case: comparing two names is comparing
/// their lowercase forms.
pub proof fn lemma_natural_compares_lowercase(a: Seq<char>, b: Seq<char>)
    ensures
        natural_compare(a, b) == natural_compare(lowercase(a), lowercase(b)),
{
    lemma_same_ignoring_case_is_same_lowercase(a, lowercase(a));
    lemma_same_ignoring_case_is_same_lowercase(b, lowercase(b));
    lemma_lowercase_twice(a);
    lemma_lowercase_twice(b);
    lemma_natural_ignores_case(a, lowercase(a), b);
    lemma_natural_antisymmetric(b, lowercase(a));
    lemma_natural_antisymmetric(lowercase(b), lowercase(a));
    lemma_natural_ignores_case(b, lowercase(b), lowercase(a));
    lemma_natural_antisymmetric(lowercase(a), b);
    lemma_natural_antisymmetric(lowercase(a), lowercase(b));
}

proof fn lemma_lowercase_twice(s: Seq<char>)
    ensures
        lowercase(lowercase(s)) == lowercase(s),
{
    assert forall|i: int| 0 <= i < s.len() implies lowercase(lowercase(s))[i] == lowercase(s)[i] by {
        lemma_fold_is_lowercase_code(s[i]);
    }
    assert(lowercase(lowercase(s)) =~= lowercase(s));
}

/// Names that start with two letters at different places in the alphabet are
/// ordered by those places, whatever the case of either letter and whatever follows.
pub proof fn lemma_letters_in_alphabet_order(x: char, y: char, a: Seq<char>, b: Seq<char>)
    requires
        is_ascii_upper(x) || is_ascii_lower(x),
        is_ascii_upper(y) || is_ascii_lower(y),
        alphabet_place(x) != alphabet_place(y),
    ensures
        natural_compare(seq![x] + a, seq![y] + b) == (if alphabet_place(x) < alphabet_place(y) {
            -1int
        } else {
            1int
        }),
{
    let sa = seq![x] + a;
    let sb = seq![y] + b;
    assert(sa[0] == x && sb[0] == y);
}

} // verus!
