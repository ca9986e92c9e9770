//! Parsing of human-readable size strings ("512M", "2G", "1024") into byte
//! counts: surrounding whitespace is ignored, the suffix is read without
//! regard to case, and a missing suffix means megabytes.

use vstd::prelude::*;
use vstd::string::StrSliceExecFns;

verus! {

/// The whitespace characters stripped from both ends of a size string.
pub open spec fn is_space(c: char) -> bool {
    c == ' ' || c == '\t' || c == '\n' || c == '\r' || c == '\x0b' || c == '\x0c'
}

/// An ASCII decimal digit.
pub open spec fn is_digit(c: char) -> bool {
    48 <= c as u32 <= 57
}

/// The letter `M`, in either case.
pub open spec fn is_m(c: char) -> bool {
    c == 'M' || c == 'm'
}

/// The letter `G`, in either case.
pub open spec fn is_g(c: char) -> bool {
    c == 'G' || c == 'g'
}

/// The letter `B`, in either case.
pub open spec fn is_b(c: char) -> bool {
    c == 'B' || c == 'b'
}

/// The string with its leading whitespace stripped.
pub open spec fn ltrim(s: Seq<char>) -> Seq<char>
    decreases s.len(),
{
    if s.len() > 0 && is_space(s[0]) {
        ltrim(s.drop_first())
    } else {
        s
    }
}

/// The string with its trailing whitespace stripped.
pub open spec fn rtrim(s: Seq<char>) -> Seq<char>
    decreases s.len(),
{
    if s.len() > 0 && is_space(s.last()) {
        rtrim(s.drop_last())
    } else {
        s
    }
}

/// The string with whitespace stripped from both ends.
pub open spec fn trimmed(s: Seq<char>) -> Seq<char> {
    rtrim(ltrim(s))
}

/// How many digits the string starts with.
pub open spec fn digit_count(s: Seq<char>) -> int
    decreases s.len(),
{
    if s.len() > 0 && is_digit(s[0]) {
        1 + digit_count(s.drop_first())
    } else {
        0
    }
}

/// The number a run of decimal digits denotes.
pub open spec fn digits_val(s: Seq<char>) -> int
    decreases s.len(),
{
    if s.len() == 0 {
        0
    } else {
        digits_val(s.drop_last()) * 10 + (s.last() as u32 - 48)
    }
}

/// The byte multiplier a size suffix denotes: an empty suffix, `M` and `MB`
/// mean mebibytes, `G` and `GB` gibibytes, case-insensitively; anything
/// else is refused.
pub open spec fn unit_of(s: Seq<char>) -> Option<int> {
    if s.len() == 0 {
        Some(0x100000)
    } else if s.len() == 1 && is_m(s[0]) {
        Some(0x100000)
    } else if s.len() == 2 && is_m(s[0]) && is_b(s[1]) {
        Some(0x100000)
    } else if s.len() == 1 && is_g(s[0]) {
        Some(0x40000000)
    } else if s.len() == 2 && is_g(s[0]) && is_b(s[1]) {
        Some(0x40000000)
    } else {
        None
    }
}

/// How parsing a size string fails: no digits at the front (or a number too
/// large for its own parse), an unknown suffix, or a byte count that
/// overflows the size type.
#[derive(Clone, Copy, Debug, PartialEq, Eq, Structural)]
pub enum SizeError {
    InvalidNumber,
    InvalidSuffix,
    TooLarge,
}

/// What parsing a size string yields: the leading digit run of the trimmed
/// string, scaled by the suffix's multiplier.
pub open spec fn parse_size_spec(s: Seq<char>) -> Result<u64, SizeError> {
    let t = trimmed(s);
    let nd = digit_count(t);
    let num = digits_val(t.subrange(0, nd));
    if nd == 0 {
        Err(SizeError::InvalidNumber)
    } else if num > u64::MAX {
        Err(SizeError::InvalidNumber)
    } else {
        match unit_of(t.subrange(nd, t.len() as int)) {
            Option::None => Err(SizeError::InvalidSuffix),
            Option::Some(u) => if num * u > u64::MAX {
                Err(SizeError::TooLarge)
            } else {
                Ok((num * u) as u64)
            },
        }
    }
}

/// The digit count of a string bounds its length, and everything before it
/// is a digit.
pub proof fn lemma_digit_count(s: Seq<char>)
    ensures
        0 <= digit_count(s) <= s.len(),
        forall|i: int| 0 <= i < digit_count(s) ==> is_digit(#[trigger] s[i]),
    decreases s.len(),
{
    if s.len() > 0 && is_digit(s[0]) {
        lemma_digit_count(s.drop_first());
        assert forall|i: int| 0 <= i < digit_count(s) implies is_digit(#[trigger] s[i]) by {
            if i > 0 {
                assert(s.drop_first()[i - 1] == s[i]);
            }
        }
    }
}

/// A run of digits denotes a number no smaller than zero.
pub proof fn lemma_digits_val_nonneg(s: Seq<char>)
    requires
        forall|i: int| 0 <= i < s.len() ==> is_digit(#[trigger] s[i]),
    ensures
        digits_val(s) >= 0,
    decreases s.len(),
{
    if s.len() > 0 {
        lemma_digits_val_nonneg(s.drop_last());
    }
}

/// Parse a size string ("512M", "2G", "1024") into bytes: strip whitespace
/// from both ends, read the leading decimal number, and scale it by the
/// suffix's multiplier, mebibytes when no suffix is given.  A string without
/// digits — or whose number does not fit — is an invalid number; an unknown
/// suffix is refused; a byte count beyond the size type is too large.
pub fn parse_size_string(size_str: &str) -> (r: Result<u64, SizeError>)
    ensures
        r == parse_size_spec(size_str@),
{
    let n = size_str.unicode_len();
    let ghost s = size_str@;
    proof {
        assert(s.skip(0) =~= s);
    }
    // strip leading whitespace
    let mut start: usize = 0;
    loop
        invariant
            start <= n,
            n == s.len(),
            s == size_str@,
            ltrim(s) == ltrim(s.skip(start as int)),
        ensures
            start <= n,
            ltrim(s) == s.skip(start as int),
        decreases n - start,
    {
        if start >= n {
            break ;
        }
        let c = size_str.get_char(start);
        if !(c == ' ' || c == '\t' || c == '\n' || c == '\r' || c == '\x0b' || c == '\x0c') {
            break ;
        }
        proof {
            assert(s.skip(start as int).drop_first() =~= s.skip(start as int + 1));
        }
        start = start + 1;
    }
    // strip trailing whitespace
    let mut end: usize = n;
    loop
        invariant
            start <= end <= n,
            n == s.len(),
            s == size_str@,
            ltrim(s) == s.skip(start as int),
            trimmed(s) == rtrim(s.subrange(start as int, end as int)),
        ensures
            start <= end <= n,
            trimmed(s) == s.subrange(start as int, end as int),
        decreases end,
    {
        proof {
            if end == n {
                assert(s.subrange(start as int, end as int) =~= s.skip(start as int));
            }
        }
        if end <= start {
            break ;
        }
        let c = size_str.get_char(end - 1);
        if !(c == ' ' || c == '\t' || c == '\n' || c == '\r' || c == '\x0b' || c == '\x0c') {
            break ;
        }
        proof {
            assert(s.subrange(start as int, end as int).drop_last() =~= s.subrange(
                start as int,
                end as int - 1,
            ));
        }
        end = end - 1;
    }
    proof {
        if end == n {
            assert(s.subrange(start as int, end as int) =~= s.skip(start as int));
        }
    }
    let ghost t = trimmed(s);
    proof {
        assert(t.skip(0) =~= t);
    }
    // count the leading digits
    let mut de: usize = start;
    loop
        invariant
            start <= de <= end <= n,
            n == s.len(),
            s == size_str@,
            t == trimmed(s),
            t == s.subrange(start as int, end as int),
            digit_count(t) == de as int - start as int + digit_count(
                t.skip(de as int - start as int),
            ),
        ensures
            start <= de <= end,
            digit_count(t) == de as int - start as int,
        decreases end - de,
    {
        proof {
            if de >= end {
                assert(t.skip(de as int - start as int) =~= Seq::<char>::empty());
            }
        }
        if de >= end {
            break ;
        }
        let c = size_str.get_char(de);
        let u = c as u32;
        proof {
            assert(t.skip(de as int - start as int)[0] == s[de as int]);
        }
        if !(48 <= u && u <= 57) {
            break ;
        }
        proof {
            assert(t.skip(de as int - start as int).drop_first() =~= t.skip(
                de as int - start as int + 1,
            ));
        }
        de = de + 1;
    }
    let ghost nd = digit_count(t);
    if de == start {
        return Err(SizeError::InvalidNumber);
    }
    let ghost num_s = t.subrange(0, nd);
    proof {
        lemma_digit_count(t);
        assert forall|i: int| 0 <= i < num_s.len() implies is_digit(#[trigger] num_s[i]) by {
            assert(num_s[i] == t[i]);
        }
    }
    // read the number, watching for overflow of the size type
    let mut acc: u64 = 0;
    let mut k: usize = start;
    while k < de
        invariant
            start <= k <= de <= end <= n,
            n == s.len(),
            s == size_str@,
            t == trimmed(s),
            t == s.subrange(start as int, end as int),
            nd == digit_count(t),
            nd == de as int - start as int,
            num_s == t.subrange(0, nd),
            forall|i: int| 0 <= i < num_s.len() ==> is_digit(#[trigger] num_s[i]),
            acc as int == digits_val(t.subrange(0, k as int - start as int)),
        decreases de - k,
    {
        let c = size_str.get_char(k);
        let ghost m = k as int - start as int;
        proof {
            assert(t[m] == s[k as int]);
            assert(num_s[m] == t[m]);
            assert(t.subrange(0, m + 1).drop_last() =~= t.subrange(0, m));
            assert(t.subrange(0, m + 1).last() == t[m]);
        }
        let u = c as u32;
        let d = (u - 48) as u64;
        if acc > (u64::MAX - d) / 10 {
            proof {
                assert(digits_val(t.subrange(0, m + 1)) == acc as int * 10 + d);
                assert(acc as int * 10 + d > u64::MAX) by (nonlinear_arith)
                    requires
                        acc as int > (u64::MAX as int - d as int) / 10,
                        0 <= d <= 9,
                ;
                assert(t.subrange(0, m + 1) =~= num_s.subrange(0, m + 1));
                lemma_digits_val_prefix(num_s, m + 1);
            }
            return Err(SizeError::InvalidNumber);
        }
        acc = acc * 10 + d;
        k = k + 1;
    }
    proof {
        assert(t.subrange(0, nd) =~= num_s);
    }
    // read the suffix
    let rem = end - de;
    let ghost suffix = t.subrange(nd, t.len() as int);
    proof {
        assert(suffix.len() == rem as int);
        if rem > 0 {
            assert(suffix[0] == s[de as int]);
        }
        if rem > 1 {
            assert(suffix[1] == s[de as int + 1]);
        }
    }
    let unit: u64 = if rem == 0 {
        0x100000
    } else {
        let c0 = size_str.get_char(de);
        if rem == 1 {
            if c0 == 'M' || c0 == 'm' {
                0x100000
            } else if c0 == 'G' || c0 == 'g' {
                0x40000000
            } else {
                return Err(SizeError::InvalidSuffix);
            }
        } else if rem == 2 {
            let c1 = size_str.get_char(de + 1);
            if (c0 == 'M' || c0 == 'm') && (c1 == 'B' || c1 == 'b') {
                0x100000
            } else if (c0 == 'G' || c0 == 'g') && (c1 == 'B' || c1 == 'b') {
                0x40000000
            } else {
                return Err(SizeError::InvalidSuffix);
            }
        } else {
            return Err(SizeError::InvalidSuffix);
        }
    };
    // scale, refusing a byte count beyond the size type
    if acc > u64::MAX / unit {
        proof {
            assert(acc as int * unit as int > u64::MAX) by (nonlinear_arith)
                requires
                    acc as int > u64::MAX as int / unit as int,
                    unit == 0x100000 || unit == 0x40000000,
            ;
        }
        return Err(SizeError::TooLarge);
    }
    proof {
        assert(acc as int * unit as int <= u64::MAX) by (nonlinear_arith)
            requires
                0 <= acc as int <= u64::MAX as int / unit as int,
                unit == 0x100000 || unit == 0x40000000,
        ;
    }
    Ok(acc * unit)
}

/// A prefix of a run of digits denotes no more than the whole run.
pub proof fn lemma_digits_val_prefix(s: Seq<char>, k: int)
    requires
        0 <= k <= s.len(),
        forall|i: int| 0 <= i < s.len() ==> is_digit(#[trigger] s[i]),
    ensures
        digits_val(s.subrange(0, k)) <= digits_val(s),
    decreases s.len() - k,
{
    if k == s.len() {
        assert(s.subrange(0, k) =~= s);
    } else {
        let s1 = s.subrange(0, s.len() - 1);
        assert(s1 =~= s.drop_last());
        lemma_digits_val_nonneg(s1);
        assert(s.subrange(0, k) =~= s1.subrange(0, k));
        lemma_digits_val_prefix(s1, k);
    }
}

} // verus!
