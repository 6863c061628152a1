//! EVR (`epoch:version-release`) strings: how one is composed from its
//! parts, and the three-way order of two of them.
use std::cmp::Ordering;
use vstd::prelude::*;
use vstd::string::*;

verus! {

/// The character of one decimal digit.
pub open spec fn digit_char(d: nat) -> char {
    ((48 + d) as u8) as char
}

/// Decimal digits of a natural number, most significant first, without
/// leading zeros.
pub open spec fn decimal_digits(n: nat) -> Seq<char>
    decreases n,
{
    if n < 10 {
        seq![digit_char(n)]
    } else {
        decimal_digits(n / 10).push(digit_char(n % 10))
    }
}

/// Decimal text of an integer, with a leading `-` when it is negative.
pub open spec fn decimal_text(i: int) -> Seq<char> {
    if i < 0 {
        seq!['-'].add(decimal_digits((-i) as nat))
    } else {
        decimal_digits(i as nat)
    }
}

/// The EVR string `epoch:version-release`.
pub open spec fn evr_text(epoch: int, version: Seq<char>, release: Seq<char>) -> Seq<char> {
    decimal_text(epoch) + seq![':'] + version + seq!['-'] + release
}

fn digit_str(d: u64) -> (s: &'static str)
    requires
        d < 10,
    ensures
        s@ == seq![digit_char(d as nat)],
{
    proof {
        reveal_strlit("0");
        reveal_strlit("1");
        reveal_strlit("2");
        reveal_strlit("3");
        reveal_strlit("4");
        reveal_strlit("5");
        reveal_strlit("6");
        reveal_strlit("7");
        reveal_strlit("8");
        reveal_strlit("9");
    }
    match d {
        0 => "0",
        1 => "1",
        2 => "2",
        3 => "3",
        4 => "4",
        5 => "5",
        6 => "6",
        7 => "7",
        8 => "8",
        _ => "9",
    }
}

fn append_digits(n: u64, s: &mut String)
    ensures
        final(s)@ == old(s)@ + decimal_digits(n as nat),
    decreases n,
{
    if n >= 10 {
        append_digits(n / 10, s);
    }
    s.append(digit_str(n % 10));
}

/// Decimal text of an epoch.
pub fn epoch_text(epoch: i32) -> (r: String)
    ensures
        r@ == decimal_text(epoch as int),
{
    let mut s = String::new();
    let wide: i64 = epoch as i64;
    if wide < 0 {
        proof {
            reveal_strlit("-");
        }
        s.append("-");
        append_digits((-wide) as u64, &mut s);
    } else {
        append_digits(wide as u64, &mut s);
    }
    s
}

/// Composes the EVR string `epoch:version-release` from its parts.
pub fn compose_evr(epoch: i32, version: &str, release: &str) -> (r: String)
    ensures
        r@ == evr_text(epoch as int, version@, release@),
{
    let mut s = epoch_text(epoch);
    proof {
        reveal_strlit(":");
        reveal_strlit("-");
    }
    s.append(":");
    s.append(version);
    s.append("-");
    s.append(release);
    s
}

/// The order that rpm gives two EVR strings, a function of the two strings
/// alone.
pub uninterp spec fn rpm_evr_order(a: Seq<char>, b: Seq<char>) -> Ordering;

/// Three-way EVR comparison: a string is equal to itself, two different
/// strings are ordered as rpm orders them.
pub open spec fn evr_cmp(a: Seq<char>, b: Seq<char>) -> Ordering {
    if a == b {
        Ordering::Equal
    } else {
        rpm_evr_order(a, b)
    }
}

/// Relies on `rpm::rpm_evr_compare`: it parses both strings and compares
/// epoch, version and release in turn, each part comparing `Equal` to
/// itself; its result depends on the two strings alone.
#[verifier::external_body]
pub(crate) fn rpm_compare(a: &str, b: &str) -> (r: Ordering)
    ensures
        a@ == b@ ==> r == Ordering::Equal,
        a@ != b@ ==> r == rpm_evr_order(a@, b@),
{
    rpm::rpm_evr_compare(a, b)
}

} // verus!
