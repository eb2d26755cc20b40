//! Character-level normalization: whitespace trimming and reduction of a
//! field to its ASCII digits.

use vstd::prelude::*;

verus! {

/// The Unicode White_Space characters, the set `str::trim` removes.
pub open spec fn is_space_char(c: char) -> bool {
    ||| c == '\t'
    ||| c == '\n'
    ||| c == '\u{000B}'
    ||| c == '\u{000C}'
    ||| c == '\r'
    ||| c == ' '
    ||| c == '\u{0085}'
    ||| c == '\u{00A0}'
    ||| c == '\u{1680}'
    ||| (0x2000 <= c as u32 && c as u32 <= 0x200A)
    ||| c == '\u{2028}'
    ||| c == '\u{2029}'
    ||| c == '\u{202F}'
    ||| c == '\u{205F}'
    ||| c == '\u{3000}'
}

/// An ASCII digit `0`-`9`.
pub open spec fn is_digit_char(c: char) -> bool {
    0x30 <= c as u32 && c as u32 <= 0x39
}

pub proof fn lemma_digit_not_space(c: char)
    requires
        is_digit_char(c),
    ensures
        !is_space_char(c),
{
}

pub fn space_char(c: char) -> (r: bool)
    ensures
        r == is_space_char(c),
{
    c == '\t' || c == '\n' || c == '\u{000B}' || c == '\u{000C}' || c == '\r' || c == ' '
        || c == '\u{0085}' || c == '\u{00A0}' || c == '\u{1680}'
        || (0x2000 <= c as u32 && c as u32 <= 0x200A) || c == '\u{2028}' || c == '\u{2029}'
        || c == '\u{202F}' || c == '\u{205F}' || c == '\u{3000}'
}

pub fn digit_char(c: char) -> (r: bool)
    ensures
        r == is_digit_char(c),
{
    let u = c as u32;
    0x30 <= u && u <= 0x39
}

/// What is left of `s` once leading whitespace is removed.
pub open spec fn trim_front_spec(s: Seq<char>) -> Seq<char>
    decreases s.len(),
{
    if s.len() > 0 && is_space_char(s[0]) {
        trim_front_spec(s.skip(1))
    } else {
        s
    }
}

/// What is left of `s` once trailing whitespace is removed.
pub open spec fn trim_back_spec(s: Seq<char>) -> Seq<char>
    decreases s.len(),
{
    if s.len() > 0 && is_space_char(s.last()) {
        trim_back_spec(s.take(s.len() - 1))
    } else {
        s
    }
}

/// What is left of `s` once leading and trailing whitespace is removed.
pub open spec fn trim_spec(s: Seq<char>) -> Seq<char> {
    trim_back_spec(trim_front_spec(s))
}

/// A sequence is clean when it neither starts nor ends with whitespace;
/// trimming leaves such a sequence unchanged.
pub open spec fn is_clean(s: Seq<char>) -> bool {
    s.len() > 0 ==> !is_space_char(s[0]) && !is_space_char(s.last())
}

pub proof fn lemma_trim_of_clean(s: Seq<char>)
    requires
        is_clean(s),
    ensures
        trim_spec(s) == s,
{
}

/// `trim_back_spec` keeps a prefix of its argument.
proof fn lemma_trim_back_prefix(s: Seq<char>)
    ensures
        trim_back_spec(s).len() <= s.len(),
        trim_back_spec(s) == s.take(trim_back_spec(s).len() as int),
    decreases s.len(),
{
    if s.len() > 0 && is_space_char(s.last()) {
        lemma_trim_back_prefix(s.take(s.len() - 1));
        assert(s.take(s.len() - 1).take(trim_back_spec(s).len() as int) =~= s.take(
            trim_back_spec(s).len() as int,
        ));
    } else {
        assert(s.take(s.len() as int) =~= s);
    }
}

/// The result of a trim is clean.
pub proof fn lemma_trim_clean(s: Seq<char>)
    ensures
        is_clean(trim_spec(s)),
    decreases s.len(),
{
    lemma_trim_front_head(s);
    lemma_trim_back_last(trim_front_spec(s));
    let t = trim_spec(s);
    if t.len() > 0 {
        lemma_trim_back_prefix(trim_front_spec(s));
        assert(t[0] == trim_front_spec(s)[0]);
    }
}

/// Trimming is idempotent.
pub proof fn lemma_trim_idempotent(s: Seq<char>)
    ensures
        trim_spec(trim_spec(s)) == trim_spec(s),
{
    lemma_trim_clean(s);
    lemma_trim_of_clean(trim_spec(s));
}

proof fn lemma_trim_front_head(s: Seq<char>)
    ensures
        trim_front_spec(s).len() > 0 ==> !is_space_char(trim_front_spec(s)[0]),
    decreases s.len(),
{
    if s.len() > 0 && is_space_char(s[0]) {
        lemma_trim_front_head(s.skip(1));
    }
}

proof fn lemma_trim_back_last(s: Seq<char>)
    ensures
        trim_back_spec(s).len() > 0 ==> !is_space_char(trim_back_spec(s).last()),
    decreases s.len(),
{
    if s.len() > 0 && is_space_char(s.last()) {
        lemma_trim_back_last(s.take(s.len() - 1));
    }
}

/// Removes leading and trailing whitespace, the way `str::trim` does.
pub fn trim(value: &Vec<char>) -> (r: Vec<char>)
    ensures
        r@ == trim_spec(value@),
{
    let ghost s = value@;
    proof {
        assert(s.skip(0) =~= s);
    }
    let mut lo: usize = 0;
    while lo < value.len() && space_char(value[lo])
        invariant
            lo <= value.len(),
            s == value@,
            trim_front_spec(s) == trim_front_spec(s.skip(lo as int)),
        decreases value.len() - lo,
    {
        proof {
            assert(s.skip(lo as int)[0] == s[lo as int]);
            assert(s.skip(lo as int).skip(1) =~= s.skip(lo as int + 1));
        }
        lo = lo + 1;
    }
    proof {
        if lo == value.len() {
            assert(s.skip(lo as int) =~= Seq::<char>::empty());
            assert(trim_front_spec(s) =~= s.skip(lo as int));
        }
        assert(trim_front_spec(s) == s.skip(lo as int));
    }
    let mut hi: usize = value.len();
    while lo < hi && space_char(value[hi - 1])
        invariant
            lo <= hi <= value.len(),
            s == value@,
            trim_front_spec(s) == s.skip(lo as int),
            trim_back_spec(s.skip(lo as int)) == trim_back_spec(s.subrange(lo as int, hi as int)),
        decreases hi,
    {
        proof {
            let t = s.subrange(lo as int, hi as int);
            assert(t.last() == s[hi as int - 1]);
            assert(t.take(t.len() - 1) =~= s.subrange(lo as int, hi as int - 1));
        }
        hi = hi - 1;
    }
    proof {
        let t = s.subrange(lo as int, hi as int);
        if lo == hi {
            assert(t =~= Seq::<char>::empty());
        }
        assert(trim_back_spec(s.skip(lo as int)) == t);
    }
    let mut out: Vec<char> = Vec::new();
    let mut i: usize = lo;
    while i < hi
        invariant
            lo <= i <= hi <= value.len(),
            s == value@,
            out@ =~= s.subrange(lo as int, i as int),
        decreases hi - i,
    {
        out.push(value[i]);
        i = i + 1;
    }
    proof {
        assert(out@ =~= s.subrange(lo as int, hi as int));
        assert(s.skip(lo as int) =~= s.subrange(lo as int, s.len() as int));
    }
    out
}

/// Copies a field character by character.
pub fn copy_chars(v: &Vec<char>) -> (r: Vec<char>)
    ensures
        r@ == v@,
{
    let mut out: Vec<char> = Vec::new();
    let mut i: usize = 0;
    while i < v.len()
        invariant
            i <= v.len(),
            out@ =~= v@.subrange(0, i as int),
        decreases v.len() - i,
    {
        out.push(v[i]);
        i = i + 1;
    }
    proof {
        assert(out@ =~= v@);
    }
    out
}

/// The subsequence of ASCII digits of `s`, in order.
pub open spec fn digits_spec(s: Seq<char>) -> Seq<char>
    decreases s.len(),
{
    if s.len() == 0 {
        Seq::empty()
    } else if is_digit_char(s[0]) {
        seq![s[0]] + digits_spec(s.skip(1))
    } else {
        digits_spec(s.skip(1))
    }
}

/// Every character of the digit subsequence is an ASCII digit.
pub proof fn lemma_digits_chars(s: Seq<char>)
    ensures
        forall|i: int|
            0 <= i < digits_spec(s).len() ==> is_digit_char(#[trigger] digits_spec(s)[i]),
    decreases s.len(),
{
    if s.len() > 0 {
        lemma_digits_chars(s.skip(1));
        assert forall|i: int| 0 <= i < digits_spec(s).len() implies is_digit_char(
            #[trigger] digits_spec(s)[i],
        ) by {
            if is_digit_char(s[0]) {
                if i > 0 {
                    assert(digits_spec(s)[i] == digits_spec(s.skip(1))[i - 1]);
                }
            } else {
                assert(digits_spec(s)[i] == digits_spec(s.skip(1))[i]);
            }
        }
    }
}

/// A sequence made of digits alone is its own digit subsequence.
pub proof fn lemma_digits_fixed(s: Seq<char>)
    requires
        forall|i: int| 0 <= i < s.len() ==> is_digit_char(#[trigger] s[i]),
    ensures
        digits_spec(s) == s,
    decreases s.len(),
{
    if s.len() > 0 {
        assert(forall|i: int|
            0 <= i < s.skip(1).len() ==> is_digit_char(#[trigger] s.skip(1)[i]));
        lemma_digits_fixed(s.skip(1));
        assert(seq![s[0]] + s.skip(1) =~= s);
    }
}

/// Reducing to digits twice is the same as reducing once.
pub proof fn lemma_digits_idempotent(s: Seq<char>)
    ensures
        digits_spec(digits_spec(s)) == digits_spec(s),
{
    lemma_digits_chars(s);
    lemma_digits_fixed(digits_spec(s));
}

/// A digits-only sequence is clean, so trimming leaves it unchanged.
pub proof fn lemma_trim_of_digits(s: Seq<char>)
    ensures
        trim_spec(digits_spec(s)) == digits_spec(s),
{
    lemma_digits_chars(s);
    let d = digits_spec(s);
    if d.len() > 0 {
        lemma_digit_not_space(d[0]);
        lemma_digit_not_space(d.last());
    }
    lemma_trim_of_clean(d);
}

/// Strips every character that is not an ASCII digit, keeping the digits in
/// their original order.
pub fn normalize_numbers(value: &Vec<char>) -> (r: Vec<char>)
    ensures
        r@ == digits_spec(value@),
{
    let ghost s = value@;
    proof {
        assert(s.skip(0) =~= s);
        assert(Seq::<char>::empty() + digits_spec(s) =~= digits_spec(s));
    }
    let mut out: Vec<char> = Vec::new();
    let mut i: usize = 0;
    while i < value.len()
        invariant
            i <= value.len(),
            s == value@,
            digits_spec(s) == out@ + digits_spec(s.skip(i as int)),
        decreases value.len() - i,
    {
        proof {
            assert(s.skip(i as int)[0] == s[i as int]);
            assert(s.skip(i as int).skip(1) =~= s.skip(i as int + 1));
        }
        if digit_char(value[i]) {
            let ghost prev = out@;
            out.push(value[i]);
            proof {
                assert(out@ =~= prev + seq![s[i as int]]);
                assert((prev + seq![s[i as int]]) + digits_spec(s.skip(i as int + 1)) =~= prev + (
                seq![s[i as int]] + digits_spec(s.skip(i as int + 1))));
            }
        }
        i = i + 1;
    }
    proof {
        assert(s.skip(i as int) =~= Seq::<char>::empty());
        assert(out@ + digits_spec(s.skip(i as int)) =~= out@);
    }
    out
}

} // verus!
