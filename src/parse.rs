//! Parsing of the text that sysfs attributes and power state queries return.
use vstd::prelude::*;

verus! {

pub open spec fn is_space(b: u8) -> bool {
    b == 0x20 || b == 0x0a || b == 0x09 || b == 0x0d
}

pub open spec fn is_digit(b: u8) -> bool {
    0x30 <= b <= 0x39
}

/// `s` without its trailing ASCII whitespace.
pub open spec fn trim_end(s: Seq<u8>) -> Seq<u8>
    decreases s.len(),
{
    if s.len() > 0 && is_space(s.last()) {
        trim_end(s.drop_last())
    } else {
        s
    }
}

/// `s` without its leading ASCII whitespace.
pub open spec fn trim_start(s: Seq<u8>) -> Seq<u8>
    decreases s.len(),
{
    if s.len() > 0 && is_space(s[0]) {
        trim_start(s.drop_first())
    } else {
        s
    }
}

pub open spec fn all_digits(s: Seq<u8>) -> bool {
    forall|i: int| 0 <= i < s.len() ==> is_digit(#[trigger] s[i])
}

/// The number that a string of decimal digits spells.
pub open spec fn digits_value(s: Seq<u8>) -> int
    decreases s.len(),
{
    if s.len() == 0 {
        0
    } else {
        digits_value(s.drop_last()) * 10 + (s.last() - 0x30)
    }
}

/// The integer that an attribute holds: an optional minus sign and at least
/// one digit, then nothing but trailing whitespace.
pub open spec fn attribute_value(s: Seq<u8>) -> Option<int> {
    let t = trim_end(s);
    if t.len() > 0 && t[0] == 0x2d {
        let body = t.drop_first();
        if body.len() > 0 && all_digits(body) {
            Some(-digits_value(body))
        } else {
            None
        }
    } else if t.len() > 0 && all_digits(t) {
        Some(digits_value(t))
    } else {
        None
    }
}

/// Index just past the last byte that is not trailing whitespace.
fn trimmed_end(s: &[u8]) -> (e: usize)
    ensures
        e <= s@.len(),
        s@.subrange(0, e as int) == trim_end(s@),
{
    let mut e: usize = s.len();
    assert(s@.subrange(0, e as int) =~= s@);
    while e > 0 && (s[e - 1] == 0x20 || s[e - 1] == 0x0a || s[e - 1] == 0x09 || s[e - 1] == 0x0d)
        invariant
            e <= s@.len(),
            trim_end(s@.subrange(0, e as int)) == trim_end(s@),
        decreases e,
    {
        assert(s@.subrange(0, e as int).drop_last() =~= s@.subrange(0, e - 1));
        e = e - 1;
    }
    e
}

/// Index of the first byte that is not leading whitespace, from `from` on.
pub fn trimmed_start(s: &[u8], from: usize, to: usize) -> (b: usize)
    requires
        from <= to <= s@.len(),
    ensures
        from <= b <= to,
        s@.subrange(b as int, to as int) == trim_start(s@.subrange(from as int, to as int)),
{
    let mut b: usize = from;
    while b < to && (s[b] == 0x20 || s[b] == 0x0a || s[b] == 0x09 || s[b] == 0x0d)
        invariant
            from <= b <= to,
            to <= s@.len(),
            trim_start(s@.subrange(b as int, to as int)) == trim_start(s@.subrange(from as int, to as int)),
        decreases to - b,
    {
        assert(s@.subrange(b as int, to as int).drop_first() =~= s@.subrange(b + 1, to as int));
        b = b + 1;
    }
    b
}

proof fn lemma_digits_value_grows(s: Seq<u8>, k: int)
    requires
        0 <= k <= s.len(),
        all_digits(s),
    ensures
        0 <= digits_value(s.subrange(0, k)) <= digits_value(s),
    decreases s.len() - k,
{
    if k < s.len() {
        lemma_digits_value_grows(s, k + 1);
        assert(s.subrange(0, k + 1).drop_last() =~= s.subrange(0, k));
        assert(is_digit(s[k]));
    } else {
        assert(s.subrange(0, k) =~= s);
        lemma_digits_value_nonneg(s);
    }
}

proof fn lemma_digits_value_nonneg(s: Seq<u8>)
    requires
        all_digits(s),
    ensures
        0 <= digits_value(s),
    decreases s.len(),
{
    if s.len() > 0 {
        assert(all_digits(s.drop_last())) by {
            assert forall|i: int| 0 <= i < s.drop_last().len() implies is_digit(#[trigger] s.drop_last()[i]) by {
                assert(s.drop_last()[i] == s[i]);
            }
        }
        lemma_digits_value_nonneg(s.drop_last());
        assert(is_digit(s[s.len() - 1]));
    }
}

/// Bound past which a magnitude no longer fits an `i64`.
pub const MAGNITUDE_LIMIT: u64 = 0x8000_0000_0000_0000;

/// The value of the digits `s[from..to]`, if they are all digits and the
/// value is at most `MAGNITUDE_LIMIT`.
pub fn digits_in(s: &[u8], from: usize, to: usize) -> (r: Option<u64>)
    requires
        from <= to <= s@.len(),
    ensures
        ({
            let d = s@.subrange(from as int, to as int);
            match r {
                Some(v) => all_digits(d) && v == digits_value(d) && v <= MAGNITUDE_LIMIT,
                None => !all_digits(d) || digits_value(d) > MAGNITUDE_LIMIT,
            }
        }),
{
    let mut acc: u64 = 0;
    let mut i: usize = from;
    assert(s@.subrange(from as int, from as int) =~= Seq::<u8>::empty());
    while i < to
        invariant
            from <= i <= to <= s@.len(),
            all_digits(s@.subrange(from as int, i as int)),
            acc == digits_value(s@.subrange(from as int, i as int)),
            acc <= MAGNITUDE_LIMIT,
        decreases to - i,
    {
        let ghost d = s@.subrange(from as int, to as int);
        let ghost k = i - from;
        assert(s@.subrange(from as int, i as int) =~= d.subrange(0, k));
        assert(s@.subrange(from as int, i + 1) =~= d.subrange(0, k + 1));
        assert(d.subrange(0, k + 1).drop_last() =~= d.subrange(0, k));
        let b = s[i];
        if b < 0x30 || b > 0x39 {
            assert(!is_digit(d[k]));
            return None;
        }
        let digit: u64 = (b - 0x30) as u64;
        if acc > (MAGNITUDE_LIMIT - digit) / 10 {
            proof {
                assert(all_digits(d.subrange(0, k + 1)));
                if all_digits(d) {
                    lemma_digits_value_grows(d, k + 1);
                }
            }
            return None;
        }
        acc = acc * 10 + digit;
        i = i + 1;
        proof {
            assert forall|j: int| 0 <= j < i - from implies is_digit(#[trigger] s@.subrange(from as int, i as int)[j]) by {
                if j < k {
                    assert(s@.subrange(from as int, i as int)[j] == s@.subrange(from as int, i - 1)[j]);
                }
            }
        }
    }
    proof {
        assert(s@.subrange(from as int, i as int) =~= s@.subrange(from as int, to as int));
    }
    Some(acc)
}

/// Parses an integer attribute, such as a temperature in millidegrees or a
/// fan's RPM. `None` when the text is malformed or the value does not fit.
pub fn parse_attribute(s: &[u8]) -> (r: Option<i64>)
    ensures
        r matches Some(v) ==> attribute_value(s@) == Some(v as int),
        r.is_none() ==> match attribute_value(s@) {
            Some(v) => v < i64::MIN || v > i64::MAX,
            None => true,
        },
{
    let e = trimmed_end(s);
    let ghost t = trim_end(s@);
    if e == 0 {
        return None;
    }
    if s[0] == 0x2d {
        assert(s@.subrange(1, e as int) =~= t.drop_first());
        match digits_in(s, 1, e) {
            Some(v) => {
                if 1 < e {
                    if v == MAGNITUDE_LIMIT {
                        Some(i64::MIN)
                    } else {
                        Some(-(v as i64))
                    }
                } else {
                    None
                }
            },
            None => None,
        }
    } else {
        assert(s@.subrange(0, e as int) =~= t);
        match digits_in(s, 0, e) {
            Some(v) => {
                if v == MAGNITUDE_LIMIT {
                    None
                } else {
                    Some(v as i64)
                }
            },
            None => {
                assert(!all_digits(t) || digits_value(t) > i64::MAX);
                None
            },
        }
    }
}

/// Index of the last `:` in `s`, or -1.
pub open spec fn last_colon(s: Seq<u8>) -> int
    decreases s.len(),
{
    if s.len() == 0 {
        -1
    } else if s.last() == 0x3a {
        s.len() - 1
    } else {
        last_colon(s.drop_last())
    }
}

/// The word a power state report ends on: what follows its last `:`,
/// without surrounding whitespace.
pub open spec fn report_token(s: Seq<u8>) -> Seq<u8> {
    trim_end(trim_start(s.subrange(last_colon(s) + 1, s.len() as int)))
}

/// Locates the final word of a power state report, as `[begin, end)`.
pub fn report_token_bounds(s: &[u8]) -> (r: (usize, usize))
    ensures
        r.0 <= r.1 <= s@.len(),
        s@.subrange(r.0 as int, r.1 as int) == report_token(s@),
{
    let mut c: usize = s.len();
    assert(s@.subrange(0, c as int) =~= s@);
    while c > 0 && s[c - 1] != 0x3a
        invariant
            c <= s@.len(),
            last_colon(s@.subrange(0, c as int)) == last_colon(s@),
        decreases c,
    {
        assert(s@.subrange(0, c as int).drop_last() =~= s@.subrange(0, c - 1));
        c = c - 1;
    }
    proof {
        if c > 0 {
            assert(s@.subrange(0, c as int).last() == s@[c - 1]);
        }
    }
    let b = trimmed_start(s, c, s.len());
    let ghost mid = s@.subrange(b as int, s@.len() as int);
    let mut e: usize = s.len();
    assert(s@.subrange(b as int, e as int) =~= mid);
    while e > b && (s[e - 1] == 0x20 || s[e - 1] == 0x0a || s[e - 1] == 0x09 || s[e - 1] == 0x0d)
        invariant
            b <= e <= s@.len(),
            mid == s@.subrange(b as int, s@.len() as int),
            trim_end(s@.subrange(b as int, e as int)) == trim_end(mid),
        decreases e,
    {
        assert(s@.subrange(b as int, e as int).drop_last() =~= s@.subrange(b as int, e - 1));
        e = e - 1;
    }
    (b, e)
}

/// `s` cut at every `sep`: one more piece than there are separators.
pub open spec fn pieces(s: Seq<u8>, sep: u8) -> Seq<Seq<u8>>
    decreases s.len(),
{
    if s.len() == 0 {
        seq![s]
    } else {
        let prev = pieces(s.drop_last(), sep);
        if s.last() == sep {
            prev.push(Seq::empty())
        } else {
            prev.update(prev.len() - 1, prev.last().push(s.last()))
        }
    }
}

proof fn lemma_pieces_nonempty(s: Seq<u8>, sep: u8)
    ensures
        pieces(s, sep).len() >= 1,
    decreases s.len(),
{
    if s.len() > 0 {
        lemma_pieces_nonempty(s.drop_last(), sep);
    }
}

/// The bounds of each piece of `s` cut at every `sep`.
pub fn split_bounds(s: &[u8], sep: u8) -> (r: Vec<(usize, usize)>)
    ensures
        r@.len() == pieces(s@, sep).len(),
        forall|j: int|
            0 <= j < r@.len() ==> {
                &&& (#[trigger] r@[j]).0 <= r@[j].1 <= s@.len()
                &&& s@.subrange(r@[j].0 as int, r@[j].1 as int) == pieces(s@, sep)[j]
            },
{
    let mut closed: Vec<(usize, usize)> = Vec::new();
    let mut start: usize = 0;
    let mut i: usize = 0;
    assert(s@.subrange(0, 0) =~= Seq::<u8>::empty());
    while i < s.len()
        invariant
            start <= i <= s@.len(),
            closed@.len() + 1 == pieces(s@.subrange(0, i as int), sep).len(),
            s@.subrange(start as int, i as int) == pieces(s@.subrange(0, i as int), sep).last(),
            forall|j: int|
                0 <= j < closed@.len() ==> {
                    &&& (#[trigger] closed@[j]).0 <= closed@[j].1 <= start
                    &&& s@.subrange(closed@[j].0 as int, closed@[j].1 as int) == pieces(
                        s@.subrange(0, i as int),
                        sep,
                    )[j]
                },
        decreases s@.len() - i,
    {
        let ghost pre = s@.subrange(0, i as int);
        let ghost next = s@.subrange(0, i + 1);
        proof {
            assert(next.drop_last() =~= pre);
            lemma_pieces_nonempty(pre, sep);
        }
        if s[i] == sep {
            closed.push((start, i));
            start = i + 1;
            proof {
                assert(s@.subrange(start as int, i + 1) =~= Seq::<u8>::empty());
            }
        } else {
            proof {
                assert(s@.subrange(start as int, i + 1) =~= s@.subrange(start as int, i as int).push(s@[i as int]));
            }
        }
        i = i + 1;
    }
    proof {
        assert(s@.subrange(0, i as int) =~= s@);
    }
    closed.push((start, i));
    closed
}

/// Index past the longest run of digits at the start of `s[from..to]`.
pub fn digit_run_end(s: &[u8], from: usize, to: usize) -> (e: usize)
    requires
        from <= to <= s@.len(),
    ensures
        from <= e <= to,
        all_digits(s@.subrange(from as int, e as int)),
        e == to || !is_digit(s@[e as int]),
{
    let mut e: usize = from;
    while e < to && s[e] >= 0x30 && s[e] <= 0x39
        invariant
            from <= e <= to <= s@.len(),
            all_digits(s@.subrange(from as int, e as int)),
        decreases to - e,
    {
        proof {
            assert forall|j: int| 0 <= j < e + 1 - from implies is_digit(#[trigger] s@.subrange(from as int, e + 1)[j]) by {
                if j < e - from {
                    assert(s@.subrange(from as int, e + 1)[j] == s@.subrange(from as int, e as int)[j]);
                }
            }
        }
        e = e + 1;
    }
    e
}

/// Whether `s[b..e]` is exactly `word`.
pub fn slice_is(s: &[u8], b: usize, e: usize, word: &[u8]) -> (r: bool)
    requires
        b <= e <= s@.len(),
    ensures
        r == (s@.subrange(b as int, e as int) == word@),
{
    if e - b != word.len() {
        return false;
    }
    let mut i: usize = 0;
    while i < word.len()
        invariant
            b <= e <= s@.len(),
            e - b == word@.len(),
            i <= word@.len(),
            forall|j: int| 0 <= j < i ==> s@[b + j] == word@[j],
        decreases word@.len() - i,
    {
        if s[b + i] != word[i] {
            assert(s@.subrange(b as int, e as int)[i as int] != word@[i as int]);
            return false;
        }
        i = i + 1;
    }
    assert(s@.subrange(b as int, e as int) =~= word@);
    true
}

} // verus!
