//! Text: numbers written out, prefixes and substrings.
use vstd::prelude::*;
use vstd::string::*;

verus! {

/// The ten digits.
pub open spec fn digits() -> Seq<char> {
    seq!['0', '1', '2', '3', '4', '5', '6', '7', '8', '9']
}

/// A number in decimal, without leading zeros.
pub open spec fn decimal(n: nat) -> Seq<char>
    decreases n,
{
    if n < 10 {
        seq![digits()[n as int]]
    } else {
        decimal(n / 10) + seq![digits()[(n % 10) as int]]
    }
}

/// Appends a number in decimal.
pub fn push_decimal(out: &mut String, n: u64)
    ensures
        final(out)@ == old(out)@ + decimal(n as nat),
    decreases n,
{
    if n >= 10 {
        push_decimal(out, n / 10);
    }
    let table = "0123456789";
    let d = (n % 10) as usize;
    proof {
        reveal_strlit("0123456789");
        assert(table@ =~= digits());
    }
    let digit = table.substring_char(d, d + 1);
    assert(digit@ =~= seq![digits()[d as int]]);
    out.append(digit);
    assert(out@ =~= old(out)@ + decimal(n as nat));
}

/// Whether `s` starts with `prefix`.
pub open spec fn starts_with(s: Seq<char>, prefix: Seq<char>) -> bool {
    prefix.len() <= s.len() && s.take(prefix.len() as int) == prefix
}

/// Whether `part` stands in `s` at position `at`.
pub open spec fn stands_at(s: Seq<char>, part: Seq<char>, at: int) -> bool {
    &&& 0 <= at
    &&& at + part.len() <= s.len()
    &&& s.subrange(at, (at + part.len()) as int) == part
}

/// Whether `part` stands anywhere in `s`.
pub open spec fn has_part(s: Seq<char>, part: Seq<char>) -> bool {
    exists|at: int| stands_at(s, part, at)
}

/// Whether `part` stands in `s` at position `at`.
pub fn part_at(s: &str, part: &str, at: usize) -> (r: bool)
    ensures
        r == stands_at(s@, part@, at as int),
{
    let n = s.unicode_len();
    let k = part.unicode_len();
    if at > n || k > n - at {
        return false;
    }
    let mut i: usize = 0;
    while i < k
        invariant
            i <= k,
            k == part@.len(),
            n == s@.len(),
            at + k <= n,
            forall|j: int| 0 <= j < i ==> s@[at + j] == part@[j],
        decreases k - i,
    {
        if s.get_char(at + i) != part.get_char(i) {
            assert(s@.subrange(at as int, at + k)[i as int] == s@[at + i]);
            return false;
        }
        i += 1;
    }
    assert(s@.subrange(at as int, at + k) =~= part@);
    true
}

/// Whether two texts are the same.
pub fn same_text(a: &str, b: &str) -> (r: bool)
    ensures
        r == (a@ == b@),
{
    assert(a@ == b@ ==> a@.subrange(0, b@.len() as int) =~= b@);
    if a.unicode_len() == b.unicode_len() && part_at(a, b, 0) {
        assert(a@ =~= a@.subrange(0, b@.len() as int));
        true
    } else {
        false
    }
}

/// What follows `prefix` in `s`, if `s` starts with it.
pub fn strip_prefix<'a>(s: &'a str, prefix: &str) -> (r: Option<&'a str>)
    ensures
        match r {
            Some(rest) => starts_with(s@, prefix@) && rest@ == s@.skip(prefix@.len() as int),
            None => !starts_with(s@, prefix@),
        },
{
    assert(starts_with(s@, prefix@) ==> s@.subrange(0, prefix@.len() as int) =~= prefix@);
    if part_at(s, prefix, 0) {
        assert(s@.take(prefix@.len() as int) =~= prefix@);
        let rest = s.substring_char(prefix.unicode_len(), s.unicode_len());
        assert(rest@ =~= s@.skip(prefix@.len() as int));
        Some(rest)
    } else {
        None
    }
}

/// Whether `part` stands anywhere in `s`.
pub fn contains_part(s: &str, part: &str) -> (r: bool)
    ensures
        r == has_part(s@, part@),
{
    let n = s.unicode_len();
    let mut at: usize = 0;
    while at < n
        invariant
            at <= n,
            n == s@.len(),
            forall|i: int| 0 <= i < at ==> !stands_at(s@, part@, i),
        decreases n - at,
    {
        if part_at(s, part, at) {
            return true;
        }
        at += 1;
    }
    let last = part_at(s, part, at);
    proof {
        if has_part(s@, part@) && !last {
            let i = choose|i: int| stands_at(s@, part@, i);
            assert(stands_at(s@, part@, i));
        }
    }
    last
}

/// Two texts, one behind the other.
pub fn join(a: &str, b: &str) -> (r: String)
    ensures
        r@ == a@ + b@,
{
    let mut r = String::from_str(a);
    r.append(b);
    r
}

/// A number below ten is written with its one digit. Any other is written as its tens are, and then
/// with its last digit.
pub proof fn law_decimal(n: nat, d: nat)
    requires
        d < 10,
    ensures
        decimal(d) == seq![(48 + d) as char],
        n > 0 ==> decimal(10 * n + d) == decimal(n).push((48 + d) as char),
{
    assert(digits()[d as int] == (48 + d) as char);
    if n > 0 {
        assert((10 * n + d) / 10 == n && (10 * n + d) % 10 == d);
        assert(decimal(10 * n + d) =~= decimal(n).push((48 + d) as char));
    }
}

/// A text starts with another exactly if it is the other with something behind it.
pub proof fn law_starts_with(s: Seq<char>, prefix: Seq<char>)
    ensures
        forall|rest: Seq<char>| s == #[trigger] (prefix + rest) ==> starts_with(s, prefix),
        starts_with(s, prefix) ==> s == prefix + s.skip(prefix.len() as int),
{
    assert forall|rest: Seq<char>| s == #[trigger] (prefix + rest) implies starts_with(
        s,
        prefix,
    ) by {
        assert(s.take(prefix.len() as int) =~= prefix);
    }
    if starts_with(s, prefix) {
        assert(s =~= prefix + s.skip(prefix.len() as int));
    }
}

/// A text has another as a part exactly if it is the other with something in front and something
/// behind.
pub proof fn law_has_part(s: Seq<char>, part: Seq<char>)
    ensures
        forall|front: Seq<char>, back: Seq<char>|
            s == #[trigger] (front + part + back) ==> has_part(s, part),
        has_part(s, part) ==> exists|front: Seq<char>, back: Seq<char>|
            s == #[trigger] (front + part + back),
{
    assert forall|front: Seq<char>, back: Seq<char>|
        s == #[trigger] (front + part + back) implies has_part(s, part) by {
        let at = front.len() as int;
        assert(s.subrange(at, at + part.len()) =~= part);
        assert(stands_at(s, part, at));
    }
    if has_part(s, part) {
        let at = choose|at: int| stands_at(s, part, at);
        assert(stands_at(s, part, at));
        let front = s.take(at);
        let back = s.skip(at + part.len());
        assert(s =~= front + part + back);
    }
}

} // verus!
