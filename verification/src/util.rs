//! Text helpers: decimal numbers and durations.

use std::path::Path;
use vstd::prelude::*;
use vstd::utf8::{decode_utf8, valid_utf8};

verus! {

/// `std::path::Path`, carried through as it is: nothing is known of a
/// path but what `path_bytes` names.
#[verifier::external_type_specification]
#[verifier::external_body]
pub struct ExPath(Path);

/// The bytes that a path is made of.
pub uninterp spec fn path_bytes(path: &Path) -> Seq<u8>;

/// Why a path cannot be used in a command.
#[derive(Clone, Copy, Debug, PartialEq, Eq, Structural)]
pub enum PathError {
    /// The path is no text in UTF-8.
    NotUtf8,
}

/// Calls `Path::to_str`, which yields the path as text where its bytes are
/// valid UTF-8, and nothing where they are not. Not proved: that the text
/// is what the bytes of the path decode to.
#[verifier::external_body]
fn path_text(path: &Path) -> (r: Option<&str>)
    ensures
        r.is_some() == valid_utf8(path_bytes(path)),
        r matches Some(s) ==> s@ == decode_utf8(path_bytes(path)),
{
    path.to_str()
}

/// The text of a path, or the reason why it has none.
pub fn text_or_error<'a>(text: Option<&'a str>) -> (r: Result<&'a str, PathError>)
    ensures
        r == (match text {
            Some(s) => Ok::<&str, PathError>(s),
            None => Err(PathError::NotUtf8),
        }),
{
    match text {
        Some(s) => Ok(s),
        None => Err(PathError::NotUtf8),
    }
}

/// The path as text, for use in a command.
pub fn path_as_utf8(path: &Path) -> (r: Result<&str, PathError>)
    ensures
        r is Ok == valid_utf8(path_bytes(path)),
        r matches Ok(s) ==> s@ == decode_utf8(path_bytes(path)),
        r matches Err(e) ==> e == PathError::NotUtf8,
{
    text_or_error(path_text(path))
}

/// The texts of a list of strings.
pub open spec fn texts(v: Seq<String>) -> Seq<Seq<char>> {
    Seq::new(v.len(), |i: int| v[i]@)
}

/// The character of one decimal digit.
pub open spec fn digit(d: nat) -> char {
    if d == 0 {
        '0'
    } else if d == 1 {
        '1'
    } else if d == 2 {
        '2'
    } else if d == 3 {
        '3'
    } else if d == 4 {
        '4'
    } else if d == 5 {
        '5'
    } else if d == 6 {
        '6'
    } else if d == 7 {
        '7'
    } else if d == 8 {
        '8'
    } else {
        '9'
    }
}

/// A number in decimal, without leading zeros.
pub open spec fn decimal(n: nat) -> Seq<char>
    decreases n,
{
    if n < 10 {
        seq![digit(n)]
    } else {
        decimal(n / 10).push(digit(n % 10))
    }
}

/// `count` zeros.
pub open spec fn zeros(count: nat) -> Seq<char> {
    Seq::new(count, |i: int| '0')
}

/// A number in decimal, with zeros in front up to `width` characters.
pub open spec fn zero_padded(n: nat, width: nat) -> Seq<char> {
    if decimal(n).len() >= width {
        decimal(n)
    } else {
        zeros((width - decimal(n).len()) as nat) + decimal(n)
    }
}

/// The seconds into the minute, in hundredths and rounded to the nearest
/// hundredth; a half is rounded up.
pub open spec fn hundredths(secs: nat, nanos: nat) -> nat {
    (secs % 60) * 100 + (nanos + 5_000_000) / 10_000_000
}

/// A duration as text: hours and minutes where they are not zero, then the
/// seconds into the minute with two decimals.
pub open spec fn duration_text(secs: nat, nanos: nat) -> Seq<char> {
    let seconds = decimal(hundredths(secs, nanos) / 100) + seq!['.'] + zero_padded(
        hundredths(secs, nanos) % 100,
        2,
    ) + seq!['s'];
    let minutes = secs / 60 % 60;
    let hours = secs / 3600;
    if hours == 0 && minutes == 0 {
        seconds
    } else if hours == 0 {
        decimal(minutes) + seq!['m', ' '] + seconds
    } else if minutes == 0 {
        decimal(hours) + seq!['h', ' '] + seconds
    } else {
        decimal(hours) + seq!['h', ' '] + decimal(minutes) + seq!['m', ' '] + seconds
    }
}

/// Ten to the power of `w`.
pub open spec fn pow10(w: nat) -> nat
    decreases w,
{
    if w == 0 {
        1
    } else {
        10 * pow10((w - 1) as nat)
    }
}

/// The last `w` decimal digits of a number.
pub open spec fn fixed_width(n: nat, w: nat) -> Seq<char>
    decreases w,
{
    if w == 0 {
        Seq::empty()
    } else {
        fixed_width(n / 10, (w - 1) as nat).push(digit(n % 10))
    }
}

/// Of two texts of one length, `a` is listed first where texts are sorted
/// character by character: up to some place they agree, and there `a` has
/// the smaller character.
pub open spec fn sorts_before(a: Seq<char>, b: Seq<char>) -> bool {
    &&& a.len() == b.len()
    &&& exists|k: int|
        0 <= k < a.len() && #[trigger] a.subrange(0, k) == b.subrange(0, k) && (a[k] as u32) < (
        b[k] as u32)
}

proof fn lemma_fixed_width_len(n: nat, w: nat)
    ensures
        fixed_width(n, w).len() == w,
    decreases w,
{
    if w > 0 {
        lemma_fixed_width_len(n / 10, (w - 1) as nat);
    }
}

proof fn lemma_fixed_width_zero(w: nat)
    ensures
        fixed_width(0, w) == zeros(w),
    decreases w,
{
    if w > 0 {
        lemma_fixed_width_zero((w - 1) as nat);
        assert(fixed_width(0, w) =~= zeros(w));
    } else {
        assert(fixed_width(0, w) =~= zeros(w));
    }
}

proof fn lemma_fixed_width_order(a: nat, b: nat, w: nat)
    requires
        a < b < pow10(w),
    ensures
        sorts_before(fixed_width(a, w), fixed_width(b, w)),
    decreases w,
{
    if w > 0 {
        let pa = fixed_width(a / 10, (w - 1) as nat);
        let pb = fixed_width(b / 10, (w - 1) as nat);
        let fa = fixed_width(a, w);
        let fb = fixed_width(b, w);
        lemma_fixed_width_len(a / 10, (w - 1) as nat);
        lemma_fixed_width_len(b / 10, (w - 1) as nat);
        if a / 10 < b / 10 {
            lemma_fixed_width_order(a / 10, b / 10, (w - 1) as nat);
            let k = choose|k: int|
                0 <= k < pa.len() && #[trigger] pa.subrange(0, k) == pb.subrange(0, k) && (
                pa[k] as u32) < (pb[k] as u32);
            assert(fa.subrange(0, k) =~= pa.subrange(0, k));
            assert(fb.subrange(0, k) =~= pb.subrange(0, k));
            assert(fa[k] == pa[k] && fb[k] == pb[k]);
        } else {
            assert(a / 10 == b / 10);
            assert(a % 10 < b % 10);
            let k = w - 1;
            assert(fa.subrange(0, k) =~= pa);
            assert(fb.subrange(0, k) =~= pb);
            assert(fa[k] == digit(a % 10) && fb[k] == digit(b % 10));
            assert((digit(a % 10) as u32) < (digit(b % 10) as u32));
        }
    }
}

proof fn lemma_zero_padded_fixed(n: nat, w: nat)
    requires
        w >= 1,
        n < pow10(w),
    ensures
        decimal(n).len() <= w,
        zero_padded(n, w) == fixed_width(n, w),
    decreases w,
{
    if n < 10 {
        lemma_fixed_width_zero((w - 1) as nat);
        assert(n / 10 == 0);
        assert(zero_padded(n, w) =~= fixed_width(n, w));
    } else {
        assert(w >= 2) by {
            reveal_with_fuel(pow10, 3);
        }
        lemma_zero_padded_fixed(n / 10, (w - 1) as nat);
        assert(zero_padded(n, w) =~= fixed_width(n, w));
    }
}

/// Numbers written with zeros in front, all to one width that holds them,
/// are listed in the order of the numbers where their texts are sorted.
pub proof fn lemma_zero_padded_order(a: nat, b: nat, w: nat)
    requires
        w >= 1,
        a < b < pow10(w),
    ensures
        zero_padded(a, w).len() == w,
        zero_padded(b, w).len() == w,
        sorts_before(zero_padded(a, w), zero_padded(b, w)),
{
    lemma_zero_padded_fixed(a, w);
    lemma_zero_padded_fixed(b, w);
    lemma_fixed_width_len(a, w);
    lemma_fixed_width_len(b, w);
    lemma_fixed_width_order(a, b, w);
}

fn digit_text(d: u64) -> (s: &'static str)
    requires
        d < 10,
    ensures
        s@ == seq![digit(d as nat)],
{
    proof {
        reveal_strlit("0");
        reveal_strlit("1");
        reveal_strlit("2");
        reveal_strlit("3");
        reveal_strlit("4");
        reveal_strlit("5");
        reveal_strlit("6");
        reveal_strlit("7");
        reveal_strlit("8");
        reveal_strlit("9");
    }
    let s = if d == 0 {
        "0"
    } else if d == 1 {
        "1"
    } else if d == 2 {
        "2"
    } else if d == 3 {
        "3"
    } else if d == 4 {
        "4"
    } else if d == 5 {
        "5"
    } else if d == 6 {
        "6"
    } else if d == 7 {
        "7"
    } else if d == 8 {
        "8"
    } else {
        "9"
    };
    assert(s@ =~= seq![digit(d as nat)]);
    s
}

/// Writes a number in decimal.
pub fn decimal_string(n: u64) -> (s: String)
    ensures
        s@ == decimal(n as nat),
    decreases n,
{
    if n < 10 {
        String::from_str(digit_text(n))
    } else {
        let mut s = decimal_string(n / 10);
        s.append(digit_text(n % 10));
        assert(s@ =~= decimal(n as nat));
        s
    }
}

/// Writes a number in decimal, at least `width` characters wide, with
/// zeros in front.
pub fn zero_padded_string(n: u64, width: usize) -> (s: String)
    ensures
        s@ == zero_padded(n as nat, width as nat),
{
    let digits = decimal_string(n);
    let len = digits.as_str().unicode_len();
    let missing: usize = if width > len {
        width - len
    } else {
        0
    };
    let mut s = String::new();
    let mut i: usize = 0;
    assert(s@ =~= zeros(0));
    while i < missing
        invariant
            i <= missing,
            s@ == zeros(i as nat),
        decreases missing - i,
    {
        proof {
            reveal_strlit("0");
        }
        s.append("0");
        i += 1;
        assert(s@ =~= zeros(i as nat));
    }
    s.append(digits.as_str());
    assert(s@ =~= zero_padded(n as nat, width as nat));
    s
}

/// Writes a duration of `secs` seconds and `nanos` nanoseconds for a
/// report, such as `1h 2m 3.45s`.
pub fn format_duration(secs: u64, nanos: u32) -> (s: String)
    ensures
        s@ == duration_text(secs as nat, nanos as nat),
{
    let minutes: u64 = secs / 60 % 60;
    let hours: u64 = secs / 3600;
    proof {
        reveal_strlit("h ");
        reveal_strlit("m ");
        reveal_strlit(".");
        reveal_strlit("s");
    }
    let mut s = String::new();
    if hours != 0 {
        s.append(decimal_string(hours).as_str());
        s.append("h ");
    }
    if minutes != 0 {
        s.append(decimal_string(minutes).as_str());
        s.append("m ");
    }
    let rounded: u64 = (nanos as u64 + 5_000_000) / 10_000_000;
    let total: u64 = (secs % 60) * 100 + rounded;
    s.append(decimal_string(total / 100).as_str());
    s.append(".");
    s.append(zero_padded_string(total % 100, 2).as_str());
    s.append("s");
    assert(s@ =~= duration_text(secs as nat, nanos as nat));
    s
}

} // verus!
