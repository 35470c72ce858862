//! Character-level helpers shared by the identity, mesh and runtime modules.

use vstd::prelude::*;

verus! {

/// The Unicode `White_Space` property, which is what `char::is_whitespace`,
/// `str::trim` and `str::split_whitespace` go by.
pub open spec fn is_space(c: char) -> bool {
    let v = c as u32;
    ||| v == 0x20
    ||| 0x09 <= v <= 0x0d
    ||| v == 0x85
    ||| v == 0xa0
    ||| v == 0x1680
    ||| 0x2000 <= v <= 0x200a
    ||| v == 0x2028
    ||| v == 0x2029
    ||| v == 0x202f
    ||| v == 0x205f
    ||| v == 0x3000
}

/// Whether `c` is a whitespace character.
pub fn is_space_char(c: char) -> (r: bool)
    ensures
        r == is_space(c),
{
    let v = c as u32;
    v == 0x20 || (0x09 <= v && v <= 0x0d) || v == 0x85 || v == 0xa0 || v == 0x1680 || (0x2000
        <= v && v <= 0x200a) || v == 0x2028 || v == 0x2029 || v == 0x202f || v == 0x205f || v
        == 0x3000
}

} // verus!

verus! {

/// `s` without its leading whitespace.
pub open spec fn trim_start_spec(s: Seq<char>) -> Seq<char>
    decreases s.len(),
{
    if s.len() > 0 && is_space(s[0]) {
        trim_start_spec(s.drop_first())
    } else {
        s
    }
}

/// `s` without its trailing whitespace.
pub open spec fn trim_end_spec(s: Seq<char>) -> Seq<char>
    decreases s.len(),
{
    if s.len() > 0 && is_space(s.last()) {
        trim_end_spec(s.drop_last())
    } else {
        s
    }
}

/// `s` without leading and trailing whitespace, as `str::trim` gives it.
pub open spec fn trimmed(s: Seq<char>) -> Seq<char> {
    trim_end_spec(trim_start_spec(s))
}

/// Copies `s` without its leading and trailing whitespace.
pub fn trim(s: &str) -> (r: String)
    ensures
        r@ == trimmed(s@),
{
    let n = s.unicode_len();
    let mut i: usize = 0;
    assert(s@.skip(0) =~= s@);
    while i < n && is_space_char(s.get_char(i))
        invariant
            i <= n,
            n == s@.len(),
            trim_start_spec(s@) == trim_start_spec(s@.skip(i as int)),
        decreases n - i,
    {
        assert(s@.skip(i as int).drop_first() =~= s@.skip(i + 1));
        i = i + 1;
    }
    assert(trim_start_spec(s@) == s@.subrange(i as int, n as int)) by {
        assert(s@.skip(i as int) =~= s@.subrange(i as int, n as int));
    }
    let mut j: usize = n;
    while j > i && is_space_char(s.get_char(j - 1))
        invariant
            i <= j <= n,
            n == s@.len(),
            trimmed(s@) == trim_end_spec(s@.subrange(i as int, j as int)),
        decreases j,
    {
        assert(s@.subrange(i as int, j as int).drop_last() =~= s@.subrange(i as int, j - 1));
        j = j - 1;
    }
    let part = s.substring_char(i, j);
    String::from_str(part)
}

/// Number of maximal runs of non-whitespace characters in `s`, the count that
/// `str::split_whitespace` yields.
pub open spec fn word_count(s: Seq<char>) -> nat
    decreases s.len(),
{
    if s.len() == 0 {
        0
    } else {
        word_count(s.drop_last()) + if !is_space(s.last()) && (s.len() == 1 || is_space(
            s[s.len() - 2],
        )) {
            1nat
        } else {
            0nat
        }
    }
}

proof fn lemma_word_count_bound(s: Seq<char>)
    ensures
        word_count(s) <= s.len(),
    decreases s.len(),
{
    if s.len() > 0 {
        lemma_word_count_bound(s.drop_last());
    }
}

/// Counts the whitespace-separated words of `s`.
pub fn count_words(s: &str) -> (r: usize)
    ensures
        r == word_count(s@),
{
    let n = s.unicode_len();
    let mut count: usize = 0;
    let mut prev_space = true;
    let mut i: usize = 0;
    while i < n
        invariant
            i <= n,
            n == s@.len(),
            count == word_count(s@.take(i as int)),
            prev_space == (i == 0 || is_space(s@[i - 1])),
        decreases n - i,
    {
        let c = s.get_char(i);
        let space = is_space_char(c);
        proof {
            let t = s@.take(i + 1);
            assert(t.drop_last() =~= s@.take(i as int));
            assert(t.last() == c);
            if i > 0 {
                assert(t[t.len() - 2] == s@[i - 1]);
            }
            lemma_word_count_bound(s@.take(i as int));
        }
        if !space && prev_space {
            count = count + 1;
        }
        prev_space = space;
        i = i + 1;
    }
    assert(s@.take(n as int) =~= s@);
    count
}

/// Strict lexicographic order of character sequences. Since UTF-8 keeps the
/// order of code points, this is also the byte order in which `String` keys
/// of a `BTreeMap` are walked.
pub open spec fn text_lt(a: Seq<char>, b: Seq<char>) -> bool
    decreases a.len(),
{
    if a.len() == 0 {
        b.len() > 0
    } else if b.len() == 0 {
        false
    } else if a[0] != b[0] {
        (a[0] as int) < (b[0] as int)
    } else {
        text_lt(a.drop_first(), b.drop_first())
    }
}

/// No sequence comes before itself.
pub proof fn lemma_text_lt_irreflexive(a: Seq<char>)
    ensures
        !text_lt(a, a),
    decreases a.len(),
{
    if a.len() > 0 {
        lemma_text_lt_irreflexive(a.drop_first());
    }
}

/// Two different sequences are ordered one way, and only one.
pub proof fn lemma_text_lt_trichotomy(a: Seq<char>, b: Seq<char>)
    ensures
        a != b ==> (text_lt(a, b) || text_lt(b, a)),
        !(text_lt(a, b) && text_lt(b, a)),
    decreases a.len(),
{
    if a.len() > 0 && b.len() > 0 && a[0] == b[0] {
        lemma_text_lt_trichotomy(a.drop_first(), b.drop_first());
        if a != b {
            assert(a =~= seq![a[0]] + a.drop_first());
            assert(b =~= seq![b[0]] + b.drop_first());
        }
    } else if a.len() == 0 && b.len() == 0 {
        assert(a =~= b);
    } else if a.len() > 0 && b.len() > 0 {
        assert((a[0] as int) != (b[0] as int));
    }
}

/// The order is transitive.
pub proof fn lemma_text_lt_transitive(a: Seq<char>, b: Seq<char>, c: Seq<char>)
    requires
        text_lt(a, b),
        text_lt(b, c),
    ensures
        text_lt(a, c),
    decreases a.len(),
{
    if a.len() > 0 && b.len() > 0 && c.len() > 0 && a[0] == b[0] && b[0] == c[0] {
        lemma_text_lt_transitive(a.drop_first(), b.drop_first(), c.drop_first());
    }
}

/// Whether `a` comes strictly before `b` in lexicographic order.
pub fn str_lt(a: &str, b: &str) -> (r: bool)
    ensures
        r == text_lt(a@, b@),
{
    let n = a.unicode_len();
    let m = b.unicode_len();
    let mut i: usize = 0;
    assert(a@.skip(0) =~= a@);
    assert(b@.skip(0) =~= b@);
    while i < n && i < m
        invariant
            i <= n,
            i <= m,
            n == a@.len(),
            m == b@.len(),
            text_lt(a@, b@) == text_lt(a@.skip(i as int), b@.skip(i as int)),
        decreases n - i,
    {
        let x = a.get_char(i);
        let y = b.get_char(i);
        if x != y {
            return x < y;
        }
        assert(a@.skip(i as int).drop_first() =~= a@.skip(i + 1));
        assert(b@.skip(i as int).drop_first() =~= b@.skip(i + 1));
        i = i + 1;
    }
    i < m
}

/// Whether `a` and `b` hold the same characters.
pub fn str_eq(a: &str, b: &str) -> (r: bool)
    ensures
        r == (a@ == b@),
{
    let n = a.unicode_len();
    let m = b.unicode_len();
    if n != m {
        return false;
    }
    let mut i: usize = 0;
    while i < n
        invariant
            i <= n,
            n == a@.len(),
            m == b@.len(),
            n == m,
            a@.take(i as int) == b@.take(i as int),
        decreases n - i,
    {
        if a.get_char(i) != b.get_char(i) {
            return false;
        }
        assert(a@.take(i + 1) =~= a@.take(i as int).push(a@[i as int]));
        assert(b@.take(i + 1) =~= b@.take(i as int).push(b@[i as int]));
        i = i + 1;
    }
    assert(a@ =~= a@.take(n as int));
    assert(b@ =~= b@.take(n as int));
    true
}

} // verus!

verus! {

/// The decimal digit character for `d`, which is below ten.
pub open spec fn digit_char(d: int) -> char {
    if d == 0 {
        '0'
    } else if d == 1 {
        '1'
    } else if d == 2 {
        '2'
    } else if d == 3 {
        '3'
    } else if d == 4 {
        '4'
    } else if d == 5 {
        '5'
    } else if d == 6 {
        '6'
    } else if d == 7 {
        '7'
    } else if d == 8 {
        '8'
    } else {
        '9'
    }
}

/// The decimal representation of `n`, without leading zeros.
pub open spec fn decimal_digits(n: nat) -> Seq<char>
    decreases n,
{
    if n < 10 {
        seq![digit_char(n as int)]
    } else {
        decimal_digits(n / 10).push(digit_char((n % 10) as int))
    }
}

/// `count` zero characters.
pub open spec fn zeros(count: nat) -> Seq<char> {
    Seq::new(count, |i: int| '0')
}

/// The decimal representation of `n`, left-padded with zeros to at least
/// `width` characters, as the format `{:0width$}` writes it.
pub open spec fn zero_padded(n: nat, width: nat) -> Seq<char> {
    let digits = decimal_digits(n);
    let pad = if width > digits.len() {
        (width - digits.len()) as nat
    } else {
        0
    };
    zeros(pad) + digits
}

spec fn reversed_digits(s: Seq<u64>) -> Seq<char> {
    Seq::new(s.len(), |i: int| digit_char(s[s.len() - 1 - i] as int))
}

fn digit_str(d: u64) -> (r: &'static str)
    requires
        d < 10,
    ensures
        r@ == seq![digit_char(d as int)],
{
    if d == 0 {
        proof {
            reveal_strlit("0");
        }
        "0"
    } else if d == 1 {
        proof {
            reveal_strlit("1");
        }
        "1"
    } else if d == 2 {
        proof {
            reveal_strlit("2");
        }
        "2"
    } else if d == 3 {
        proof {
            reveal_strlit("3");
        }
        "3"
    } else if d == 4 {
        proof {
            reveal_strlit("4");
        }
        "4"
    } else if d == 5 {
        proof {
            reveal_strlit("5");
        }
        "5"
    } else if d == 6 {
        proof {
            reveal_strlit("6");
        }
        "6"
    } else if d == 7 {
        proof {
            reveal_strlit("7");
        }
        "7"
    } else if d == 8 {
        proof {
            reveal_strlit("8");
        }
        "8"
    } else {
        proof {
            reveal_strlit("9");
        }
        "9"
    }
}

/// Appends `n` in decimal, left-padded with zeros to at least `width` digits.
pub fn push_zero_padded(out: &mut String, n: u64, width: usize)
    ensures
        final(out)@ == old(out)@ + zero_padded(n as nat, width as nat),
{
    let mut digits: Vec<u64> = Vec::new();
    let mut m: u64 = n;
    assert(reversed_digits(digits@) =~= Seq::<char>::empty());
    assert(decimal_digits(n as nat) =~= decimal_digits(m as nat) + reversed_digits(digits@));
    while m >= 10
        invariant
            decimal_digits(n as nat) == decimal_digits(m as nat) + reversed_digits(digits@),
            forall|i: int| 0 <= i < digits@.len() ==> digits@[i] < 10,
        decreases m,
    {
        let d = m % 10;
        let ghost old_digits = digits@;
        digits.push(d);
        assert(reversed_digits(digits@) =~= seq![digit_char(d as int)] + reversed_digits(
            old_digits,
        ));
        assert(decimal_digits(m as nat) == decimal_digits((m / 10) as nat).push(
            digit_char(d as int),
        ));
        assert(decimal_digits(m as nat) + reversed_digits(old_digits) =~= decimal_digits(
            (m / 10) as nat,
        ) + reversed_digits(digits@));
        m = m / 10;
    }
    let ghost old_digits = digits@;
    digits.push(m);
    assert(reversed_digits(digits@) =~= seq![digit_char(m as int)] + reversed_digits(old_digits));
    assert(decimal_digits(n as nat) =~= reversed_digits(digits@));
    let len = digits.len();
    let pad: usize = if width > len {
        width - len
    } else {
        0
    };
    let ghost start = out@;
    let mut p: usize = 0;
    assert(zeros(0) =~= Seq::<char>::empty());
    assert(out@ =~= start + zeros(0));
    while p < pad
        invariant
            p <= pad,
            out@ == start + zeros(p as nat),
        decreases pad - p,
    {
        proof {
            reveal_strlit("0");
        }
        out.append("0");
        assert(zeros(p as nat).push('0') =~= zeros((p + 1) as nat));
        assert(start + zeros(p as nat) + seq!['0'] =~= start + zeros((p + 1) as nat));
        p = p + 1;
    }
    let mut idx: usize = len;
    assert(reversed_digits(digits@).take(0) =~= Seq::<char>::empty());
    assert(out@ =~= start + zeros(pad as nat) + reversed_digits(digits@).take(0));
    while idx > 0
        invariant
            idx <= len,
            len == digits@.len(),
            forall|i: int| 0 <= i < digits@.len() ==> digits@[i] < 10,
            out@ == start + zeros(pad as nat) + reversed_digits(digits@).take(len - idx),
        decreases idx,
    {
        idx = idx - 1;
        let piece = digit_str(digits[idx]);
        let ghost before = out@;
        out.append(piece);
        assert(reversed_digits(digits@).take(len - idx) =~= reversed_digits(digits@).take(
            len - idx - 1,
        ).push(digit_char(digits@[idx as int] as int)));
        assert(out@ =~= start + zeros(pad as nat) + reversed_digits(digits@).take(len - idx));
    }
    assert(reversed_digits(digits@).take(len as int) =~= reversed_digits(digits@));
    assert(zero_padded(n as nat, width as nat) =~= zeros(pad as nat) + reversed_digits(digits@));
    assert(out@ =~= start + zero_padded(n as nat, width as nat));
}

/// The number that a sequence of decimal digit characters stands for.
pub open spec fn digits_value(s: Seq<char>) -> nat
    decreases s.len(),
{
    if s.len() == 0 {
        0
    } else {
        digits_value(s.drop_last()) * 10 + digit_of(s.last())
    }
}

/// The value of a decimal digit character.
pub open spec fn digit_of(c: char) -> nat {
    if c == '1' {
        1
    } else if c == '2' {
        2
    } else if c == '3' {
        3
    } else if c == '4' {
        4
    } else if c == '5' {
        5
    } else if c == '6' {
        6
    } else if c == '7' {
        7
    } else if c == '8' {
        8
    } else if c == '9' {
        9
    } else {
        0
    }
}

proof fn lemma_decimal_value(n: nat)
    ensures
        digits_value(decimal_digits(n)) == n,
    decreases n,
{
    if n < 10 {
        let s = decimal_digits(n);
        assert(s.drop_last() =~= Seq::<char>::empty());
        assert(s.last() == digit_char(n as int));
        assert(digit_of(digit_char(n as int)) == n);
        assert(digits_value(s) == digits_value(s.drop_last()) * 10 + digit_of(s.last()));
    } else {
        lemma_decimal_value(n / 10);
        let s = decimal_digits(n);
        assert(s.drop_last() =~= decimal_digits(n / 10));
        assert(s.last() == digit_char((n % 10) as int));
        assert(digit_of(digit_char((n % 10) as int)) == n % 10);
        assert(digits_value(s) == digits_value(s.drop_last()) * 10 + digit_of(s.last()));
        assert(n == (n / 10) * 10 + n % 10);
    }
}

proof fn lemma_zeros_value(k: nat, s: Seq<char>)
    ensures
        digits_value(zeros(k) + s) == digits_value(s),
    decreases s.len(), k,
{
    if s.len() == 0 {
        assert(zeros(k) + s =~= zeros(k));
        if k > 0 {
            assert(zeros(k).drop_last() =~= zeros((k - 1) as nat));
            lemma_zeros_value((k - 1) as nat, s);
            assert(zeros((k - 1) as nat) + s =~= zeros((k - 1) as nat));
        }
    } else {
        lemma_zeros_value(k, s.drop_last());
        assert((zeros(k) + s).drop_last() =~= zeros(k) + s.drop_last());
    }
}

/// The zero-padded decimal text of a number determines the number.
pub proof fn lemma_zero_padded_injective(a: nat, b: nat, width: nat)
    requires
        zero_padded(a, width) == zero_padded(b, width),
    ensures
        a == b,
{
    let da = decimal_digits(a);
    let db = decimal_digits(b);
    let pa: nat = if width > da.len() { (width - da.len()) as nat } else { 0 };
    let pb: nat = if width > db.len() { (width - db.len()) as nat } else { 0 };
    lemma_zeros_value(pa, da);
    lemma_zeros_value(pb, db);
    lemma_decimal_value(a);
    lemma_decimal_value(b);
}

/// Leading whitespace of `x` is all that trimming the start of `x + t`
/// removes when `x` holds a character that is no whitespace.
pub proof fn lemma_trim_start_concat(x: Seq<char>, t: Seq<char>, i: int)
    requires
        0 <= i < x.len(),
        !is_space(x[i]),
    ensures
        trim_start_spec(x + t) == trim_start_spec(x) + t,
    decreases x.len(),
{
    if is_space(x[0]) {
        assert((x + t).drop_first() =~= x.drop_first() + t);
        assert(i > 0);
        lemma_trim_start_concat(x.drop_first(), t, i - 1);
    } else {
        assert((x + t)[0] == x[0]);
    }
}

/// Trimming the end leaves nothing, or a text that ends in a character that
/// is no whitespace.
pub proof fn lemma_trim_end_shape(s: Seq<char>)
    ensures
        trim_end_spec(s).len() == 0 || !is_space(trim_end_spec(s).last()),
    decreases s.len(),
{
    if s.len() > 0 && is_space(s.last()) {
        lemma_trim_end_shape(s.drop_last());
    }
}

/// A text that ends in a character that is no whitespace is its own trimmed
/// end.
pub proof fn lemma_trim_end_keeps(s: Seq<char>)
    requires
        s.len() > 0,
        !is_space(s.last()),
    ensures
        trim_end_spec(s) == s,
{
}

} // verus!
