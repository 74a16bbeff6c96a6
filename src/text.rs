use vstd::prelude::*;

verus! {

pub open spec fn is_digit(c: char) -> bool {
    '0' <= c && c <= '9'
}

pub open spec fn digit_value(c: char) -> int {
    c as int - '0' as int
}

pub open spec fn all_digits(s: Seq<char>) -> bool {
    forall|i: int| 0 <= i < s.len() ==> is_digit(#[trigger] s[i])
}

/// Decimal value of a run of digits.
pub open spec fn digits_value(s: Seq<char>) -> int
    decreases s.len(),
{
    if s.len() == 0 {
        0
    } else {
        digits_value(s.drop_last()) * 10 + digit_value(s.last())
    }
}

/// Index of the first `'.'`, or the length when there is none.
pub open spec fn dot_index(s: Seq<char>) -> int
    decreases s.len(),
{
    if s.len() == 0 {
        0
    } else if s[0] == '.' {
        0
    } else {
        1 + dot_index(s.drop_first())
    }
}

/// The first two fractional digits as hundredths; further digits are dropped.
pub open spec fn frac_hundredths(f: Seq<char>) -> int {
    (if f.len() > 0 {
        digit_value(f[0]) * 10
    } else {
        0
    }) + (if f.len() > 1 {
        digit_value(f[1])
    } else {
        0
    })
}

/// A decimal integer with an optional `+` or `-` sign, when it fits an `i32`.
pub open spec fn i32_text_value(s: Seq<char>) -> Option<i32> {
    let signed = s.len() > 0 && (s[0] == '+' || s[0] == '-');
    let digits = if signed {
        s.drop_first()
    } else {
        s
    };
    let v = if signed && s[0] == '-' {
        -digits_value(digits)
    } else {
        digits_value(digits)
    };
    if digits.len() == 0 || !all_digits(digits) || v < i32::MIN || v > i32::MAX {
        None
    } else {
        Some(v as i32)
    }
}

/// Relies on `<i32 as FromStr>::from_str` (std): an optional `+` or `-`
/// followed by ASCII digits only, an error for anything else and for a value
/// out of range.
#[verifier::external_body]
pub(crate) fn parse_i32(s: &str) -> (r: Option<i32>)
    ensures
        r == i32_text_value(s@),
{
    s.parse::<i32>().ok()
}

/// A scale written as `digits[.digits]` (or `.digits`), in hundredths.
pub open spec fn unsigned_scale_value(s: Seq<char>) -> Option<int> {
    let k = dot_index(s);
    let whole = s.subrange(0, k);
    let frac = if k < s.len() {
        s.subrange(k + 1, s.len() as int)
    } else {
        Seq::<char>::empty()
    };
    if (whole.len() == 0 && frac.len() == 0) || !all_digits(whole) || !all_digits(frac) {
        None
    } else {
        Some(digits_value(whole) * 100 + frac_hundredths(frac))
    }
}

/// A scale with an optional leading `+`, in hundredths.
pub open spec fn scale_text_value(s: Seq<char>) -> Option<int> {
    if s.len() > 0 && s[0] == '+' {
        unsigned_scale_value(s.drop_first())
    } else {
        unsigned_scale_value(s)
    }
}

/// Whole part from which a scale no longer fits `u32` hundredths.
pub const WHOLE_CAP: u64 = 42_949_673;

pub open spec fn capped(v: int) -> int {
    if v < WHOLE_CAP {
        v
    } else {
        WHOLE_CAP as int
    }
}

proof fn lemma_dot_index(s: Seq<char>)
    ensures
        0 <= dot_index(s) <= s.len(),
        dot_index(s) < s.len() ==> s[dot_index(s)] == '.',
        forall|j: int| 0 <= j < dot_index(s) ==> s[j] != '.',
    decreases s.len(),
{
    if s.len() > 0 && s[0] != '.' {
        lemma_dot_index(s.drop_first());
        assert forall|j: int| 0 <= j < dot_index(s) implies s[j] != '.' by {
            if j > 0 {
                assert(s[j] == s.drop_first()[j - 1]);
            }
        }
    }
}

proof fn lemma_dot_unique(s: Seq<char>, k: int)
    requires
        0 <= k <= s.len(),
        k < s.len() ==> s[k] == '.',
        forall|j: int| 0 <= j < k ==> s[j] != '.',
    ensures
        dot_index(s) == k,
{
    lemma_dot_index(s);
}

proof fn lemma_digits_non_negative(s: Seq<char>)
    requires
        all_digits(s),
    ensures
        digits_value(s) >= 0,
    decreases s.len(),
{
    if s.len() > 0 {
        lemma_digits_non_negative(s.drop_last());
    }
}

/// Value of the digits `s[from..to]`, capped at `WHOLE_CAP`; `None` when one
/// of them is no digit.
fn capped_digits(s: &str, from: usize, to: usize) -> (r: Option<u64>)
    requires
        from <= to <= s@.len(),
    ensures
        r is Some <==> all_digits(s@.subrange(from as int, to as int)),
        r is Some ==> r->0 == capped(digits_value(s@.subrange(from as int, to as int))),
{
    let mut v: u64 = 0;
    let mut i: usize = from;
    while i < to
        invariant
            from <= i <= to <= s@.len(),
            all_digits(s@.subrange(from as int, i as int)),
            v == capped(digits_value(s@.subrange(from as int, i as int))),
        decreases to - i,
    {
        let c = s.get_char(i);
        let ghost pre = s@.subrange(from as int, i as int);
        assert(s@.subrange(from as int, i + 1).drop_last() =~= pre);
        if c < '0' || c > '9' {
            assert(s@.subrange(from as int, to as int)[i - from] == c);
            return None;
        }
        proof {
            lemma_digits_non_negative(pre);
            assert forall|j: int| 0 <= j < i + 1 - from implies is_digit(
                #[trigger] s@.subrange(from as int, i + 1)[j],
            ) by {
                if j < i - from {
                    assert(s@.subrange(from as int, i + 1)[j] == pre[j]);
                }
            }
        }
        let n = v * 10 + (c as u64 - '0' as u64);
        v = if n < WHOLE_CAP { n } else { WHOLE_CAP };
        i = i + 1;
    }
    Some(v)
}

/// Whether every character of `s[from..]` is a digit.
fn all_digits_from(s: &str, from: usize, len: usize) -> (r: bool)
    requires
        from <= len,
        len == s@.len(),
    ensures
        r == all_digits(s@.subrange(from as int, len as int)),
{
    let mut i: usize = from;
    while i < len
        invariant
            from <= i <= len,
            len == s@.len(),
            all_digits(s@.subrange(from as int, i as int)),
        decreases len - i,
    {
        let c = s.get_char(i);
        if c < '0' || c > '9' {
            assert(s@.subrange(from as int, len as int)[i - from] == c);
            return false;
        }
        assert forall|j: int| 0 <= j < i + 1 - from implies is_digit(
            #[trigger] s@.subrange(from as int, i + 1)[j],
        ) by {
            if j < i - from {
                assert(s@.subrange(from as int, i + 1)[j] == s@.subrange(from as int, i as int)[j]);
            }
        }
        i = i + 1;
    }
    true
}

/// Reads a scale factor written as `[+]digits[.digits]` into hundredths
/// (`"1.25"` gives 125); digits past the second decimal are dropped, and a
/// value that does not fit a `u32` is refused.
pub fn parse_scale(s: &str) -> (r: Option<u32>)
    ensures
        r is Some <==> (scale_text_value(s@) is Some && scale_text_value(s@)->0 <= u32::MAX),
        r is Some ==> r->0 == scale_text_value(s@)->0,
{
    let len = s.unicode_len();
    let b: usize = if len > 0 && s.get_char(0) == '+' { 1 } else { 0 };
    let ghost t = s@.subrange(b as int, len as int);
    assert(b == 1 ==> t =~= s@.drop_first());
    assert(b == 0 ==> t =~= s@);
    let mut k: usize = b;
    while k < len && s.get_char(k) != '.'
        invariant
            b <= k <= len,
            len == s@.len(),
            forall|j: int| b <= j < k ==> s@[j] != '.',
        decreases len - k,
    {
        k = k + 1;
    }
    proof {
        assert forall|j: int| 0 <= j < k - b implies t[j] != '.' by {
            assert(t[j] == s@[b + j]);
        }
        if k < len {
            assert(t[k - b] == s@[k as int]);
        }
        lemma_dot_unique(t, k - b);
    }
    let frac_from: usize = if k < len { k + 1 } else { len };
    let frac_len: usize = len - frac_from;
    let ghost whole = t.subrange(0, k - b);
    let ghost frac = if k < len {
        t.subrange(k - b + 1, t.len() as int)
    } else {
        Seq::<char>::empty()
    };
    assert(whole =~= s@.subrange(b as int, k as int));
    assert(frac =~= s@.subrange(frac_from as int, len as int));
    if k == b && frac_len == 0 {
        return None;
    }
    let w = match capped_digits(s, b, k) {
        Some(w) => w,
        None => {
            return None;
        },
    };
    if !all_digits_from(s, frac_from, len) {
        return None;
    }
    proof {
        lemma_digits_non_negative(whole);
    }
    if w >= WHOLE_CAP {
        return None;
    }
    let mut f: u64 = 0;
    if frac_len > 0 {
        assert(frac[0] == s@[frac_from as int]);
        f = (s.get_char(frac_from) as u64 - '0' as u64) * 10;
    }
    if frac_len > 1 {
        assert(frac[1] == s@[frac_from + 1]);
        f = f + (s.get_char(frac_from + 1) as u64 - '0' as u64);
    }
    let v = w * 100 + f;
    if v > u32::MAX as u64 {
        return None;
    }
    Some(v as u32)
}

} // verus!
