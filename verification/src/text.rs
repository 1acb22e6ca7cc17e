//! Text helpers over character sequences.
use vstd::prelude::*;

verus! {

/// The characters of a string.
pub fn chars_of(s: &str) -> (v: Vec<char>)
    ensures
        v@ == s@,
{
    let mut v: Vec<char> = Vec::new();
    for c in it: s.chars()
        invariant
            v@ == it.seq().take(it.index() as int),
    {
        v.push(c);
    }
    v
}

/// Appends one character to a string.
///
/// Calls `String::push`. Trusted: the string afterwards is the old one with
/// `c` at its end, as std documents.
#[verifier::external_body]
pub(crate) fn push_char(s: &mut String, c: char)
    ensures
        final(s)@ == old(s)@.push(c),
{
    s.push(c);
}

/// The string of the characters `v`.
pub fn string_of(v: &Vec<char>) -> (s: String)
    ensures
        s@ == v@,
{
    let mut s = String::new();
    let mut k: usize = 0;
    while k < v.len()
        invariant
            k <= v@.len(),
            s@ =~= v@.take(k as int),
        decreases v@.len() - k,
    {
        push_char(&mut s, v[k]);
        k += 1;
    }
    proof {
        assert(v@.take(k as int) =~= v@);
    }
    s
}

/// Whether `c` occurs in `v`.
pub fn has_char(v: &Vec<char>, c: char) -> (r: bool)
    ensures
        r == v@.contains(c),
{
    let mut i: usize = 0;
    while i < v.len()
        invariant
            i <= v@.len(),
            forall|j: int| 0 <= j < i ==> v@[j] != c,
        decreases v@.len() - i,
    {
        if v[i] == c {
            assert(v@[i as int] == c);
            return true;
        }
        i += 1;
    }
    false
}

/// Equality of two character vectors.
pub fn seq_eq(a: &Vec<char>, b: &Vec<char>) -> (r: bool)
    ensures
        r == (a@ == b@),
{
    if a.len() != b.len() {
        return false;
    }
    let mut i: usize = 0;
    while i < a.len()
        invariant
            a@.len() == b@.len(),
            i <= a@.len(),
            forall|j: int| 0 <= j < i ==> a@[j] == b@[j],
        decreases a@.len() - i,
    {
        if a[i] != b[i] {
            return false;
        }
        i += 1;
    }
    assert(a@ =~= b@);
    true
}

/// Whether the characters `v` spell out the string `s`.
pub fn chars_eq_str(v: &Vec<char>, s: &str) -> (r: bool)
    ensures
        r == (v@ == s@),
{
    let w = chars_of(s);
    seq_eq(v, &w)
}

/// Whether `prefix` is a prefix of `v`.
pub fn starts_with(v: &Vec<char>, prefix: &Vec<char>) -> (r: bool)
    ensures
        r == (prefix@.len() <= v@.len() && v@.take(prefix@.len() as int) == prefix@),
{
    if prefix.len() > v.len() {
        return false;
    }
    let mut i: usize = 0;
    while i < prefix.len()
        invariant
            prefix@.len() <= v@.len(),
            i <= prefix@.len(),
            forall|j: int| 0 <= j < i ==> v@[j] == prefix@[j],
        decreases prefix@.len() - i,
    {
        if v[i] != prefix[i] {
            assert(v@.take(prefix@.len() as int)[i as int] != prefix@[i as int]);
            return false;
        }
        i += 1;
    }
    assert(v@.take(prefix@.len() as int) =~= prefix@);
    true
}

/// The position of the first occurrence of `c` in `v` at or after `from`.
pub open spec fn first_from(v: Seq<char>, c: char, from: int) -> Option<int> {
    if exists|i: int| from <= i < v.len() && v[i] == c {
        Some(choose|i: int| from <= i < v.len() && v[i] == c && forall|j: int| from <= j < i ==> v[j] != c)
    } else {
        None
    }
}

/// Position of the first `c` in `v` at or after `from`.
pub fn find_char(v: &Vec<char>, c: char, from: usize) -> (r: Option<usize>)
    requires
        from <= v@.len(),
    ensures
        match r {
            Some(i) => from <= i < v@.len() && v@[i as int] == c && forall|j: int|
                from <= j < i ==> v@[j] != c,
            None => forall|j: int| from <= j < v@.len() ==> v@[j] != c,
        },
        r matches Some(i) ==> first_from(v@, c, from as int) == Some(i as int),
        r is None ==> first_from(v@, c, from as int) is None,
{
    let mut i = from;
    while i < v.len()
        invariant
            from <= i <= v@.len(),
            forall|j: int| from <= j < i ==> v@[j] != c,
        decreases v@.len() - i,
    {
        if v[i] == c {
            proof {
                let k = choose|k: int| from <= k < v@.len() && v@[k] == c && forall|j: int|
                    from <= j < k ==> v@[j] != c;
                assert(exists|k: int| from <= k < v@.len() && v@[k] == c && forall|j: int|
                    from <= j < k ==> v@[j] != c) by {
                    assert(v@[i as int] == c);
                }
                if k < i {
                } else if k > i {
                    assert(v@[i as int] != c);
                }
            }
            return Some(i);
        }
        i += 1;
    }
    None
}

/// Whether `needle` occurs somewhere in `v`.
pub open spec fn contains_seq(v: Seq<char>, needle: Seq<char>) -> bool {
    exists|i: int| 0 <= i && i + needle.len() <= v.len() && #[trigger] v.subrange(i, i + needle.len()) == needle
}

/// Whether `needle` occurs somewhere in `v`.
pub fn contains(v: &Vec<char>, needle: &Vec<char>) -> (r: bool)
    ensures
        r == contains_seq(v@, needle@),
{
    if needle.len() > v.len() {
        return false;
    }
    let vl = v.len();
    let last = vl - needle.len();
    let mut i: usize = 0;
    loop
        invariant
            needle@.len() <= v@.len(),
            vl == v@.len(),
            last == v@.len() - needle@.len(),
            i <= last,
            forall|k: int| 0 <= k < i ==> #[trigger] v@.subrange(k, k + needle@.len()) != needle@,
        decreases last - i,
    {
        let mut j: usize = 0;
        let mut ok = true;
        while j < needle.len()
            invariant
                needle@.len() <= v@.len(),
                i + needle@.len() <= vl,
                vl == v@.len(),
                i <= last,
                last == v@.len() - needle@.len(),
                j <= needle@.len(),
                ok == forall|t: int| 0 <= t < j ==> v@[i + t] == needle@[t],
            decreases needle@.len() - j,
        {
            if v[i + j] != needle[j] {
                ok = false;
            }
            j += 1;
        }
        if ok {
            assert(v@.subrange(i as int, i + needle@.len()) =~= needle@);
            return true;
        }
        proof {
            assert forall|k: int| 0 <= k < i + 1 implies #[trigger] v@.subrange(k, k + needle@.len()) != needle@ by {
                if k == i {
                    let t = choose|t: int| 0 <= t < needle@.len() && v@[i + t] != needle@[t];
                    assert(v@.subrange(k, k + needle@.len())[t] != needle@[t]);
                }
            }
        }
        if i == last {
            return false;
        }
        i += 1;
    }
}

/// The decimal digit character of `d` (0 to 9).
pub open spec fn digit_char(d: int) -> char {
    if d == 0 { '0' } else if d == 1 { '1' } else if d == 2 { '2' } else if d == 3 { '3' }
    else if d == 4 { '4' } else if d == 5 { '5' } else if d == 6 { '6' } else if d == 7 { '7' }
    else if d == 8 { '8' } else { '9' }
}

/// The decimal representation of `n`, without sign or leading zeros.
pub open spec fn spec_decimal(n: nat) -> Seq<char>
    decreases n,
{
    if n < 10 {
        seq![digit_char(n as int)]
    } else {
        spec_decimal(n / 10).push(digit_char((n % 10) as int))
    }
}

fn digit_str(d: u64) -> (r: &'static str)
    requires
        d < 10,
    ensures
        r@ == seq![digit_char(d as int)],
{
    if d == 0 {
        proof { reveal_strlit("0"); }
        "0"
    } else if d == 1 {
        proof { reveal_strlit("1"); }
        "1"
    } else if d == 2 {
        proof { reveal_strlit("2"); }
        "2"
    } else if d == 3 {
        proof { reveal_strlit("3"); }
        "3"
    } else if d == 4 {
        proof { reveal_strlit("4"); }
        "4"
    } else if d == 5 {
        proof { reveal_strlit("5"); }
        "5"
    } else if d == 6 {
        proof { reveal_strlit("6"); }
        "6"
    } else if d == 7 {
        proof { reveal_strlit("7"); }
        "7"
    } else if d == 8 {
        proof { reveal_strlit("8"); }
        "8"
    } else {
        proof { reveal_strlit("9"); }
        "9"
    }
}

/// The decimal representation of `n`.
pub fn decimal_string(n: u64) -> (s: String)
    ensures
        s@ == spec_decimal(n as nat),
    decreases n,
{
    if n < 10 {
        digit_str(n).to_owned()
    } else {
        let mut s = decimal_string(n / 10);
        s.append(digit_str(n % 10));
        proof {
            assert(spec_decimal(n as nat) == spec_decimal((n / 10) as nat).push(digit_char((n % 10) as int)));
            assert(spec_decimal((n / 10) as nat) + seq![digit_char((n % 10) as int)] =~= spec_decimal(
                (n / 10) as nat,
            ).push(digit_char((n % 10) as int)));
        }
        s
    }
}

/// Whether `c` is an ASCII decimal digit.
pub open spec fn is_digit(c: char) -> bool {
    48 <= (c as u32) <= 57
}

/// The value of a sequence of decimal digits.
pub open spec fn digits_value(d: Seq<char>) -> int
    decreases d.len(),
{
    if d.len() == 0 {
        0
    } else {
        digits_value(d.drop_last()) * 10 + ((d.last() as u32) - 48)
    }
}

/// What `str::parse::<u32>` accepts: an optional `+`, then one or more
/// decimal digits whose value fits in a `u32`.
pub open spec fn spec_parse_u32(d: Seq<char>) -> Option<u32> {
    let ds = unsigned_digits(d);
    if ds.len() > 0 && all_digits(ds) && digits_value(ds) <= u32::MAX {
        Some(digits_value(ds) as u32)
    } else {
        None
    }
}

/// The digits of a number after an optional leading `+`.
pub open spec fn unsigned_digits(d: Seq<char>) -> Seq<char> {
    if d.len() > 0 && d[0] == '+' { d.skip(1) } else { d }
}

/// Every character is a decimal digit.
pub open spec fn all_digits(d: Seq<char>) -> bool {
    forall|i: int| 0 <= i < d.len() ==> is_digit(#[trigger] d[i])
}

proof fn lemma_digits_value_grows(d: Seq<char>, i: int)
    requires
        0 <= i <= d.len(),
        forall|k: int| 0 <= k < d.len() ==> is_digit(#[trigger] d[k]),
    ensures
        digits_value(d) >= digits_value(d.take(i)) >= 0,
    decreases d.len() - i,
{
    if i < d.len() {
        assert(d.take(i + 1).drop_last() =~= d.take(i));
        lemma_digits_value_grows(d, i + 1);
        assert(d.take(i + 1).last() == d[i]);
        assert(digits_value(d.take(i)) >= 0) by {
            lemma_digits_value_nonneg(d.take(i));
        }
        assert(digits_value(d.take(i + 1)) >= digits_value(d.take(i))) by (nonlinear_arith)
            requires
                digits_value(d.take(i + 1)) == digits_value(d.take(i)) * 10 + ((d[i] as u32) - 48),
                digits_value(d.take(i)) >= 0,
                48 <= (d[i] as u32),
        ;
    } else {
        assert(d.take(i) =~= d);
        lemma_digits_value_nonneg(d);
    }
}

proof fn lemma_digits_value_nonneg(d: Seq<char>)
    requires
        forall|k: int| 0 <= k < d.len() ==> is_digit(#[trigger] d[k]),
    ensures
        digits_value(d) >= 0,
    decreases d.len(),
{
    if d.len() > 0 {
        assert(forall|k: int| 0 <= k < d.drop_last().len() ==> d.drop_last()[k] == d[k]);
        lemma_digits_value_nonneg(d.drop_last());
    }
}

/// Parse `v[from..to]` as a `u32`, as `str::parse::<u32>` does.
pub fn parse_u32(v: &Vec<char>, from: usize, to: usize) -> (r: Option<u32>)
    requires
        from <= to <= v@.len(),
    ensures
        r == spec_parse_u32(v@.subrange(from as int, to as int)),
{
    let ghost d = v@.subrange(from as int, to as int);
    let start = if from < to && v[from] == '+' {
        from + 1
    } else {
        from
    };
    let ghost ds = v@.subrange(start as int, to as int);
    assert(ds =~= unsigned_digits(d));
    if start == to {
        return None;
    }
    let mut acc: u64 = 0;
    let mut i = start;
    while i < to
        invariant
            from <= start <= i <= to <= v@.len(),
            start < to,
            ds == v@.subrange(start as int, to as int),
            d == v@.subrange(from as int, to as int),
            ds == unsigned_digits(d),
            forall|k: int| start <= k < i ==> is_digit(#[trigger] v@[k]),
            acc == digits_value(ds.take(i - start)),
            acc <= u32::MAX,
        decreases to - i,
    {
        let c = v[i];
        let cu: u32 = c as u32;
        if !(cu >= 48 && cu <= 57) {
            assert(!is_digit(ds[i - start]));
            return None;
        }
        let dv: u64 = (cu - 48) as u64;
        proof {
            assert(ds.take(i - start + 1).drop_last() =~= ds.take(i - start));
            assert(ds.take(i - start + 1).last() == c);
        }
        acc = acc * 10 + dv;
        if acc > 4294967295 {
            proof {
                if all_digits(ds) {
                    lemma_digits_value_grows(ds, i - start + 1);
                }
            }
            return None;
        }
        i += 1;
    }
    assert(ds.take(i - start) =~= ds);
    Some(acc as u32)
}

} // verus!
